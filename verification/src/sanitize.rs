//! Making text fit for one line of reply: control characters and runs of
//! white space are taken out or collapsed.

use vstd::prelude::*;
use crate::text::{
    control, is_control, is_whitespace, push_char, to_chars, trim_range, trimmed, whitespace,
};

verus! {

/// Whether `c` may not stand in a reply as it is: a control character or
/// white space.
pub open spec fn is_blank(c: char) -> bool {
    is_control(c) || is_whitespace(c)
}

/// `s` with a space in place of every blank character.
pub open spec fn spaced(s: Seq<char>) -> Seq<char> {
    s.map_values(
        |c: char|
            if is_blank(c) {
                ' '
            } else {
                c
            },
    )
}

/// Where the run of white space that begins at `i` ends: the first place at
/// or after `i` that holds no white space, or the length of `s`.
pub open spec fn run_end(s: Seq<char>, i: int) -> int
    decreases s.len() - i,
{
    if 0 <= i < s.len() && is_whitespace(s[i]) {
        run_end(s, i + 1)
    } else {
        i
    }
}

/// What becomes of `s` from `i` on when every run of two or more characters
/// of white space is replaced by one space.
pub open spec fn squeezed_from(s: Seq<char>, i: int) -> Seq<char>
    decreases s.len() - i,
{
    if i < 0 || i >= s.len() {
        Seq::empty()
    } else {
        let e = run_end(s, i);
        if i + 2 <= e <= s.len() {
            seq![' '] + squeezed_from(s, e)
        } else {
            seq![s[i]] + squeezed_from(s, i + 1)
        }
    }
}

/// `s` with one space in place of every run of two or more characters of
/// white space.
pub open spec fn squeezed(s: Seq<char>) -> Seq<char> {
    squeezed_from(s, 0)
}

/// The text of a title on one line: every blank character counts as a
/// space, the spaces at both ends are left out, and a run of spaces between
/// two words becomes one space.
pub open spec fn stripped(s: Seq<char>) -> Seq<char> {
    squeezed(trimmed(spaced(s)))
}

/// The sign that stands for a line break.
pub open spec fn pilcrow() -> char {
    '¶'
}

/// The marker that stands for a line break, with a space on either side.
pub open spec fn marker() -> Seq<char> {
    seq![' ', pilcrow(), ' ']
}

/// What becomes of `s` from `i` on when a marker takes the place of every
/// control character.
pub open spec fn marked_from(s: Seq<char>, i: int) -> Seq<char>
    decreases s.len() - i,
{
    if i < 0 || i >= s.len() {
        Seq::empty()
    } else if is_control(s[i]) {
        marker() + marked_from(s, i + 1)
    } else {
        seq![s[i]] + marked_from(s, i + 1)
    }
}

/// `s` with a marker in place of every control character.
pub open spec fn marked(s: Seq<char>) -> Seq<char> {
    marked_from(s, 0)
}

/// Where the chain of pilcrows that begins at `i` ends: the place behind the
/// last pilcrow that is reached from `i` over white space alone.
pub open spec fn chain_end(s: Seq<char>, i: int) -> int
    decreases s.len() - i,
{
    let next = run_end(s, i + 1);
    if 0 <= i < next < s.len() && s[next] == pilcrow() {
        chain_end(s, next)
    } else {
        i + 1
    }
}

/// What becomes of `s` from `i` on when every chain of two or more pilcrows
/// is replaced by one marker.
pub open spec fn merged_from(s: Seq<char>, i: int) -> Seq<char>
    decreases s.len() - i,
{
    if i < 0 || i >= s.len() {
        Seq::empty()
    } else {
        let e = chain_end(s, i);
        if s[i] == pilcrow() && i + 2 <= e <= s.len() {
            marker() + merged_from(s, e)
        } else {
            seq![s[i]] + merged_from(s, i + 1)
        }
    }
}

/// `s` with one marker in place of every chain of pilcrows that are
/// separated by white space alone.
pub open spec fn merged(s: Seq<char>) -> Seq<char> {
    merged_from(s, 0)
}

/// Text of several lines on one line: the white space at both ends is left
/// out, a marker takes the place of every control character, markers that
/// follow each other become one, and a run of white space becomes one space.
pub open spec fn cleaned(s: Seq<char>) -> Seq<char> {
    squeezed(merged(marked(trimmed(s))))
}

/// A run of white space holds nothing but white space and ends before a
/// character of another kind, or with the text.
pub proof fn lemma_run_end(s: Seq<char>, i: int)
    requires
        0 <= i <= s.len(),
    ensures
        i <= run_end(s, i) <= s.len(),
        forall|j: int| i <= j < run_end(s, i) ==> is_whitespace(#[trigger] s[j]),
        run_end(s, i) < s.len() ==> !is_whitespace(s[run_end(s, i)]),
    decreases s.len() - i,
{
    if i < s.len() && is_whitespace(s[i]) {
        lemma_run_end(s, i + 1);
    }
}

/// A run of white space that begins at `i` and stops at `e` before a
/// character of another kind, or at the end, ends at `e`.
pub proof fn lemma_run_end_is(s: Seq<char>, i: int, e: int)
    requires
        0 <= i <= e <= s.len(),
        forall|j: int| i <= j < e ==> is_whitespace(#[trigger] s[j]),
        e < s.len() ==> !is_whitespace(s[e]),
    ensures
        run_end(s, i) == e,
    decreases e - i,
{
    if i < e {
        lemma_run_end_is(s, i + 1, e);
    }
}

/// A chain of pilcrows ends behind a pilcrow, and no pilcrow follows it
/// over white space alone.
pub proof fn lemma_chain_end(s: Seq<char>, i: int)
    requires
        0 <= i < s.len(),
    ensures
        i < chain_end(s, i) <= s.len(),
        s[i] == pilcrow() ==> s[chain_end(s, i) - 1] == pilcrow(),
        !(run_end(s, chain_end(s, i)) < s.len() && s[run_end(s, chain_end(s, i))] == pilcrow()),
    decreases s.len() - i,
{
    let next = run_end(s, i + 1);
    lemma_run_end(s, i + 1);
    if next < s.len() && s[next] == pilcrow() {
        lemma_chain_end(s, next);
    }
}

/// The place where white space ends at or after `from`.
fn skip_whitespace(v: &Vec<char>, from: usize) -> (e: usize)
    requires
        from <= v.len(),
    ensures
        e == run_end(v@, from as int),
        from <= e <= v.len(),
{
    let mut e: usize = from;
    while e < v.len() && whitespace(v[e])
        invariant
            from <= e <= v.len(),
            forall|j: int| from <= j < e ==> is_whitespace(#[trigger] v@[j]),
        decreases v.len() - e,
    {
        e += 1;
    }
    proof {
        lemma_run_end_is(v@, from as int, e as int);
    }
    e
}

/// Appends to `out` what becomes of `v` when its runs of white space are
/// squeezed.
fn push_squeezed(out: &mut String, v: &Vec<char>)
    ensures
        final(out)@ == old(out)@ + squeezed(v@),
{
    let mut i: usize = 0;
    assert(out@ + squeezed_from(v@, v@.len() as int) =~= out@);
    while i < v.len()
        invariant
            i <= v.len(),
            out@ + squeezed_from(v@, i as int) == old(out)@ + squeezed(v@),
        decreases v.len() - i,
    {
        let e = skip_whitespace(v, i);
        let ghost before = out@;
        if e - i >= 2 {
            push_char(out, ' ');
            assert(before + (seq![' '] + squeezed_from(v@, e as int)) =~= before.push(' ')
                + squeezed_from(v@, e as int));
            i = e;
        } else {
            push_char(out, v[i]);
            assert(before + (seq![v@[i as int]] + squeezed_from(v@, i + 1)) =~= before.push(
                v@[i as int],
            ) + squeezed_from(v@, i + 1));
            i += 1;
        }
    }
    assert(out@ + squeezed_from(v@, v@.len() as int) =~= out@);
}

/// Appends the marker to `w`.
fn push_marker(w: &mut Vec<char>)
    ensures
        final(w)@ == old(w)@ + marker(),
{
    w.push(' ');
    w.push('¶');
    w.push(' ');
    assert(w@ =~= old(w)@ + marker());
}

/// The text `v[from..to]` with a marker in place of every control
/// character.
fn mark_controls(v: &Vec<char>, from: usize, to: usize) -> (w: Vec<char>)
    requires
        from <= to <= v.len(),
    ensures
        w@ == marked(v@.subrange(from as int, to as int)),
{
    let ghost s = v@.subrange(from as int, to as int);
    let mut w: Vec<char> = Vec::new();
    let mut i: usize = from;
    while i < to
        invariant
            from <= i <= to <= v.len(),
            s == v@.subrange(from as int, to as int),
            w@ + marked_from(s, i - from) == marked(s),
        decreases to - i,
    {
        let c = v[i];
        let ghost before = w@;
        assert(s[i - from] == c);
        if control(c) {
            push_marker(&mut w);
            assert(before + (marker() + marked_from(s, i - from + 1)) =~= (before + marker())
                + marked_from(s, i - from + 1));
        } else {
            w.push(c);
            assert(before + (seq![c] + marked_from(s, i - from + 1)) =~= before.push(c)
                + marked_from(s, i - from + 1));
        }
        i += 1;
    }
    assert(w@ + marked_from(s, s.len() as int) =~= w@);
    w
}

/// Where the chain of pilcrows that begins at `i` ends.
fn find_chain_end(v: &Vec<char>, i: usize) -> (e: usize)
    requires
        i < v.len(),
    ensures
        e == chain_end(v@, i as int),
        i < e <= v.len(),
{
    let mut last: usize = i;
    loop
        invariant
            i <= last < v.len(),
            chain_end(v@, last as int) == chain_end(v@, i as int),
        ensures
            i <= last < v.len(),
            chain_end(v@, i as int) == last + 1,
        decreases v.len() - last,
    {
        let next = skip_whitespace(v, last + 1);
        if next < v.len() && v[next] == '¶' {
            last = next;
        } else {
            break ;
        }
    }
    last + 1
}

/// `v` with one marker in place of every chain of pilcrows.
fn merge_markers(v: &Vec<char>) -> (w: Vec<char>)
    ensures
        w@ == merged(v@),
{
    let mut w: Vec<char> = Vec::new();
    let mut i: usize = 0;
    while i < v.len()
        invariant
            i <= v.len(),
            w@ + merged_from(v@, i as int) == merged(v@),
        decreases v.len() - i,
    {
        let ghost before = w@;
        let c = v[i];
        if c == '¶' {
            let e = find_chain_end(v, i);
            if e - i >= 2 {
                push_marker(&mut w);
                assert(before + (marker() + merged_from(v@, e as int)) =~= (before + marker())
                    + merged_from(v@, e as int));
                i = e;
            } else {
                w.push(c);
                assert(before + (seq![c] + merged_from(v@, i + 1)) =~= before.push(c)
                    + merged_from(v@, i + 1));
                i += 1;
            }
        } else {
            w.push(c);
            assert(before + (seq![c] + merged_from(v@, i + 1)) =~= before.push(c) + merged_from(
                v@,
                i + 1,
            ));
            i += 1;
        }
    }
    assert(w@ + merged_from(v@, v@.len() as int) =~= w@);
    w
}

/// Puts a title on one line: blank characters count as spaces, the text
/// loses the spaces at its ends, and words are one space apart.
pub fn strip_whitespace(text: &str) -> (r: String)
    ensures
        r@ == stripped(text@),
{
    let v = to_chars(text);
    let mut w: Vec<char> = Vec::new();
    let mut i: usize = 0;
    while i < v.len()
        invariant
            i <= v.len(),
            w@ == spaced(v@.take(i as int)),
        decreases v.len() - i,
    {
        let c = v[i];
        if control(c) || whitespace(c) {
            w.push(' ');
        } else {
            w.push(c);
        }
        assert(w@ =~= spaced(v@.take(i + 1)));
        i += 1;
    }
    assert(v@.take(v@.len() as int) =~= v@);
    let (a, b) = trim_range(&w, 0, w.len());
    assert(w@.subrange(0, w@.len() as int) =~= w@);
    let mut t: Vec<char> = Vec::new();
    let mut j: usize = a;
    while j < b
        invariant
            a <= j <= b <= w.len(),
            t@ == w@.subrange(a as int, j as int),
        decreases b - j,
    {
        t.push(w[j]);
        assert(t@ =~= w@.subrange(a as int, j + 1));
        j += 1;
    }
    let mut out = String::new();
    push_squeezed(&mut out, &t);
    assert(Seq::<char>::empty() + squeezed(t@) =~= squeezed(t@));
    out
}

/// Puts text of several lines on one line: a marker stands where a line
/// ended, once for each run of line ends, and words are one space apart.
pub fn cleanup_newlines(text: &str) -> (r: String)
    ensures
        r@ == cleaned(text@),
{
    let v = to_chars(text);
    let (a, b) = trim_range(&v, 0, v.len());
    assert(v@.subrange(0, v@.len() as int) =~= v@);
    let m = mark_controls(&v, a, b);
    let g = merge_markers(&m);
    let mut out = String::new();
    push_squeezed(&mut out, &g);
    assert(Seq::<char>::empty() + squeezed(g@) =~= squeezed(g@));
    out
}

/// Whether `c` may stand in a stripped title: a space, or a character that
/// is not blank.
pub open spec fn is_plain(c: char) -> bool {
    c == ' ' || !is_blank(c)
}

/// Whether every character of `s` may stand in a stripped title.
pub open spec fn all_plain(s: Seq<char>) -> bool {
    forall|i: int| 0 <= i < s.len() ==> is_plain(#[trigger] s[i])
}

/// Whether no two characters of white space stand side by side in `s`.
pub open spec fn no_double_whitespace(s: Seq<char>) -> bool {
    forall|i: int| 0 <= i < s.len() - 1 ==> !(is_whitespace(#[trigger] s[i]) && is_whitespace(s[i + 1]))
}

/// Whether `s` neither begins nor ends with white space.
pub open spec fn no_outer_whitespace(s: Seq<char>) -> bool {
    s.len() > 0 ==> !is_whitespace(s[0]) && !is_whitespace(s.last())
}

/// Squeezing keeps plain text plain.
pub proof fn lemma_squeezed_plain(s: Seq<char>, i: int)
    requires
        0 <= i <= s.len(),
        all_plain(s),
    ensures
        all_plain(squeezed_from(s, i)),
    decreases s.len() - i,
{
    if i < s.len() {
        let e = run_end(s, i);
        lemma_run_end(s, i);
        let out = squeezed_from(s, i);
        if i + 2 <= e <= s.len() {
            lemma_squeezed_plain(s, e);
            let rest = squeezed_from(s, e);
            assert forall|j: int| 0 <= j < out.len() implies is_plain(#[trigger] out[j]) by {
                if j > 0 {
                    assert(out[j] == rest[j - 1]);
                }
            }
        } else {
            lemma_squeezed_plain(s, i + 1);
            let rest = squeezed_from(s, i + 1);
            assert forall|j: int| 0 <= j < out.len() implies is_plain(#[trigger] out[j]) by {
                if j > 0 {
                    assert(out[j] == rest[j - 1]);
                } else {
                    assert(out[0] == s[i]);
                }
            }
        }
    }
}

/// Squeezed text holds no two characters of white space side by side, and
/// begins with white space only where the text did.
pub proof fn lemma_squeezed_no_double(s: Seq<char>, i: int)
    requires
        0 <= i <= s.len(),
    ensures
        no_double_whitespace(squeezed_from(s, i)),
        squeezed_from(s, i).len() > 0 && is_whitespace(squeezed_from(s, i)[0]) ==> i < s.len()
            && is_whitespace(s[i]),
    decreases s.len() - i,
{
    if i < s.len() {
        let e = run_end(s, i);
        lemma_run_end(s, i);
        let out = squeezed_from(s, i);
        if i + 2 <= e <= s.len() {
            lemma_squeezed_no_double(s, e);
            let rest = squeezed_from(s, e);
            assert(out[0] == ' ');
            assert forall|j: int| 0 <= j < out.len() - 1 implies !(is_whitespace(
                #[trigger] out[j],
            ) && is_whitespace(out[j + 1])) by {
                assert(out[j + 1] == rest[j]);
                if j > 0 {
                    assert(out[j] == rest[j - 1]);
                }
            }
        } else {
            lemma_squeezed_no_double(s, i + 1);
            let rest = squeezed_from(s, i + 1);
            assert(out[0] == s[i]);
            assert forall|j: int| 0 <= j < out.len() - 1 implies !(is_whitespace(
                #[trigger] out[j],
            ) && is_whitespace(out[j + 1])) by {
                assert(out[j + 1] == rest[j]);
                if j > 0 {
                    assert(out[j] == rest[j - 1]);
                }
            }
        }
    }
}

/// Squeezing changes nothing in text that holds no two characters of white
/// space side by side.
pub proof fn lemma_squeezed_fixed(s: Seq<char>, i: int)
    requires
        0 <= i <= s.len(),
        no_double_whitespace(s),
    ensures
        squeezed_from(s, i) == s.skip(i),
    decreases s.len() - i,
{
    if i < s.len() {
        let e = run_end(s, i);
        lemma_run_end(s, i);
        if i + 2 <= e {
            assert(is_whitespace(s[i]) && is_whitespace(s[i + 1]));
        }
        lemma_squeezed_fixed(s, i + 1);
        assert(seq![s[i]] + s.skip(i + 1) =~= s.skip(i));
    } else {
        assert(s.skip(i) =~= Seq::<char>::empty());
    }
}

/// Squeezed text ends as the text did, where that is no white space.
pub proof fn lemma_squeezed_last(s: Seq<char>, i: int)
    requires
        0 <= i < s.len(),
        !is_whitespace(s.last()),
    ensures
        squeezed_from(s, i).len() > 0,
        squeezed_from(s, i).last() == s.last(),
    decreases s.len() - i,
{
    let e = run_end(s, i);
    lemma_run_end(s, i);
    let out = squeezed_from(s, i);
    if i + 2 <= e <= s.len() {
        lemma_squeezed_last(s, e);
        assert(out.last() == squeezed_from(s, e).last());
    } else if i + 1 < s.len() {
        lemma_squeezed_last(s, i + 1);
        assert(out.last() == squeezed_from(s, i + 1).last());
    } else {
        assert(squeezed_from(s, i + 1) =~= Seq::<char>::empty());
        assert(out =~= seq![s[i]]);
    }
}

/// Trimmed text neither begins nor ends with white space.
pub proof fn lemma_trimmed_no_outer(s: Seq<char>)
    ensures
        no_outer_whitespace(trimmed(s)),
        exists|a: int, b: int| 0 <= a <= b <= s.len() && trimmed(s) == s.subrange(a, b),
{
    crate::text::lemma_leading_whitespace(s);
    let rest = crate::text::trimmed_start(s);
    crate::text::lemma_trailing_whitespace(rest);
    let a = crate::text::leading_whitespace(s) as int;
    let n = crate::text::trailing_whitespace(rest) as int;
    let t = trimmed(s);
    assert(t =~= s.subrange(a, s.len() - n));
    if t.len() > 0 {
        assert(t[0] == s[a]);
        assert(t.last() == rest[rest.len() - n - 1]);
    }
}

/// Trimming changes nothing in text that neither begins nor ends with
/// white space.
pub proof fn lemma_trimmed_fixed(s: Seq<char>)
    requires
        no_outer_whitespace(s),
    ensures
        trimmed(s) == s,
{
    crate::text::lemma_leading_whitespace_is(s, 0);
    assert(crate::text::trimmed_start(s) =~= s);
    crate::text::lemma_trailing_whitespace_is(s, 0);
    assert(s.take(s.len() as int) =~= s);
}

/// What [`strip_whitespace`] gives is plain, holds no two spaces side by
/// side, and neither begins nor ends with a space.
pub proof fn lemma_stripped_shape(s: Seq<char>)
    ensures
        all_plain(stripped(s)),
        no_double_whitespace(stripped(s)),
        no_outer_whitespace(stripped(s)),
{
    let x = spaced(s);
    let t = trimmed(x);
    lemma_trimmed_no_outer(x);
    let (a, b) = choose|a: int, b: int| 0 <= a <= b <= x.len() && t == x.subrange(a, b);
    assert forall|i: int| 0 <= i < t.len() implies is_plain(#[trigger] t[i]) by {
        assert(t[i] == x[a + i]);
    }
    lemma_squeezed_plain(t, 0);
    lemma_squeezed_no_double(t, 0);
    if t.len() > 0 {
        lemma_squeezed_last(t, 0);
        lemma_run_end(t, 0);
        assert(run_end(t, 0) == 0);
        assert(squeezed_from(t, 0)[0] == t[0]);
    }
}

/// Stripping a title twice gives what stripping it once gives.
pub proof fn law_strip_whitespace_idempotent(s: Seq<char>)
    ensures
        stripped(stripped(s)) == stripped(s),
{
    let r = stripped(s);
    lemma_stripped_shape(s);
    assert(spaced(r) =~= r) by {
        assert forall|i: int| 0 <= i < r.len() implies spaced(r)[i] == r[i] by {
            assert(is_plain(r[i]));
        }
    }
    lemma_trimmed_fixed(r);
    lemma_squeezed_fixed(r, 0);
    assert(r.skip(0) =~= r);
}

/// Whether the first character at or after `i` that is no white space is a
/// pilcrow.
pub open spec fn marker_follows(s: Seq<char>, i: int) -> bool {
    run_end(s, i) < s.len() && s[run_end(s, i)] == pilcrow()
}

/// Whether no pilcrow of `s` is followed by another with nothing but white
/// space between the two.
pub open spec fn no_adjacent_markers(s: Seq<char>) -> bool {
    forall|i: int| 0 <= i < s.len() && #[trigger] s[i] == pilcrow() ==> !marker_follows(s, i + 1)
}

/// A run of white space in the second of two joined texts ends where it
/// ended before the texts were joined.
pub proof fn lemma_run_end_shift(pre: Seq<char>, rest: Seq<char>, j: int)
    requires
        0 <= j <= rest.len(),
    ensures
        run_end(pre + rest, pre.len() + j) == pre.len() + run_end(rest, j),
        marker_follows(pre + rest, pre.len() + j) == marker_follows(rest, j),
    decreases rest.len() - j,
{
    let whole = pre + rest;
    lemma_run_end(rest, j);
    if j < rest.len() {
        assert(whole[pre.len() + j] == rest[j]);
        if is_whitespace(rest[j]) {
            lemma_run_end_shift(pre, rest, j + 1);
        }
    }
    if run_end(rest, j) < rest.len() {
        assert(whole[pre.len() + run_end(rest, j)] == rest[run_end(rest, j)]);
    }
}

/// Behind one more character, the pilcrows of a text that holds no adjacent
/// markers are still not adjacent.
proof fn lemma_no_adjacent_shift(pre: Seq<char>, rest: Seq<char>)
    requires
        no_adjacent_markers(rest),
    ensures
        forall|k: int|
            pre.len() <= k < (pre + rest).len() && #[trigger] (pre + rest)[k] == pilcrow()
                ==> !marker_follows(pre + rest, k + 1),
{
    let whole = pre + rest;
    assert forall|k: int|
        pre.len() <= k < whole.len() && #[trigger] whole[k] == pilcrow() implies !marker_follows(
        whole,
        k + 1,
    ) by {
        assert(whole[k] == rest[k - pre.len()]);
        lemma_run_end_shift(pre, rest, k - pre.len() + 1);
    }
}

/// Merged text holds no adjacent markers, and begins with a marker, white
/// space aside, only where the text did.
pub proof fn lemma_merged_no_adjacent(s: Seq<char>, i: int)
    requires
        0 <= i <= s.len(),
    ensures
        no_adjacent_markers(merged_from(s, i)),
        marker_follows(merged_from(s, i), 0) ==> marker_follows(s, i),
    decreases s.len() - i,
{
    if i < s.len() {
        let out = merged_from(s, i);
        let e = chain_end(s, i);
        lemma_chain_end(s, i);
        lemma_run_end(s, i);
        if s[i] == pilcrow() && i + 2 <= e <= s.len() {
            let rest = merged_from(s, e);
            lemma_merged_no_adjacent(s, e);
            lemma_no_adjacent_shift(marker(), rest);
            lemma_run_end_shift(marker(), rest, 0);
            assert(out == marker() + rest);
            assert(out[0] == ' ' && out[1] == pilcrow() && out[2] == ' ');
            assert(run_end(out, 2) == run_end(out, 3));
            assert(run_end(s, i) == i);
            assert forall|k: int|
                0 <= k < out.len() && #[trigger] out[k] == pilcrow() implies !marker_follows(
                out,
                k + 1,
            ) by {
                if k < 3 {
                    assert(k == 1);
                }
            }
        } else {
            let rest = merged_from(s, i + 1);
            let pre = seq![s[i]];
            lemma_merged_no_adjacent(s, i + 1);
            lemma_no_adjacent_shift(pre, rest);
            lemma_run_end_shift(pre, rest, 0);
            assert(out == pre + rest);
            assert(out[0] == s[i]);
            if s[i] == pilcrow() {
                let next = run_end(s, i + 1);
                lemma_run_end(s, i + 1);
                if next < s.len() && s[next] == pilcrow() {
                    lemma_chain_end(s, next);
                }
                assert(!marker_follows(s, i + 1));
            }
            assert forall|k: int|
                0 <= k < out.len() && #[trigger] out[k] == pilcrow() implies !marker_follows(
                out,
                k + 1,
            ) by {}
        }
    }
}

/// Squeezing text that holds no adjacent markers brings none about.
pub proof fn lemma_squeezed_no_adjacent(s: Seq<char>, i: int)
    requires
        0 <= i <= s.len(),
        no_adjacent_markers(s),
    ensures
        no_adjacent_markers(squeezed_from(s, i)),
        marker_follows(squeezed_from(s, i), 0) ==> marker_follows(s, i),
    decreases s.len() - i,
{
    if i < s.len() {
        let out = squeezed_from(s, i);
        let e = run_end(s, i);
        lemma_run_end(s, i);
        if i + 2 <= e <= s.len() {
            let rest = squeezed_from(s, e);
            let pre = seq![' '];
            lemma_squeezed_no_adjacent(s, e);
            lemma_no_adjacent_shift(pre, rest);
            lemma_run_end_shift(pre, rest, 0);
            lemma_run_end(s, e);
            assert(out == pre + rest);
            assert(out[0] == ' ');
            assert(run_end(out, 0) == run_end(out, 1));
            assert(run_end(s, e) == e);
            assert forall|k: int|
                0 <= k < out.len() && #[trigger] out[k] == pilcrow() implies !marker_follows(
                out,
                k + 1,
            ) by {}
        } else {
            let rest = squeezed_from(s, i + 1);
            let pre = seq![s[i]];
            lemma_squeezed_no_adjacent(s, i + 1);
            lemma_no_adjacent_shift(pre, rest);
            lemma_run_end_shift(pre, rest, 0);
            assert(out == pre + rest);
            assert(out[0] == s[i]);
            assert forall|k: int|
                0 <= k < out.len() && #[trigger] out[k] == pilcrow() implies !marker_follows(
                out,
                k + 1,
            ) by {}
        }
    }
}

/// What [`cleanup_newlines`] gives never holds two markers that follow each
/// other: between any two pilcrows stands something other than white space.
pub proof fn law_cleanup_newlines_no_adjacent_markers(s: Seq<char>)
    ensures
        no_adjacent_markers(cleaned(s)),
{
    let m = marked(trimmed(s));
    lemma_merged_no_adjacent(m, 0);
    lemma_squeezed_no_adjacent(merged(m), 0);
}

} // verus!
