//! Why a run of line ends comes out as one marker.
//!
//! The text between two words, where it holds nothing but control
//! characters and white space, and one control character at least, is what
//! [`cleanup_newlines`](crate::sanitize::cleanup_newlines) shows as a single
//! marker. The proof follows the text through the three steps of the
//! clean-up.

use vstd::prelude::*;
use crate::sanitize::{
    chain_end, cleaned, is_blank, lemma_chain_end, lemma_run_end, lemma_run_end_is,
    lemma_trimmed_fixed, marked, marked_from, marker, merged, merged_from, pilcrow, run_end,
    squeezed, squeezed_from,
};
use crate::text::{is_control, is_whitespace};

verus! {

/// Whether `c` is part of a word: no white space, no control character and
/// no pilcrow.
pub open spec fn is_solid(c: char) -> bool {
    !is_whitespace(c) && !is_control(c) && c != pilcrow()
}

/// Whether `s` is made of characters of words.
pub open spec fn all_solid(s: Seq<char>) -> bool {
    forall|i: int| 0 <= i < s.len() ==> is_solid(#[trigger] s[i])
}

/// Whether `s` is made of white space.
pub open spec fn all_whitespace(s: Seq<char>) -> bool {
    forall|i: int| 0 <= i < s.len() ==> is_whitespace(#[trigger] s[i])
}

/// Whether `r` is a run of line ends: nothing but control characters and
/// white space, with one control character at least.
pub open spec fn is_gap(r: Seq<char>) -> bool {
    (forall|i: int| 0 <= i < r.len() ==> is_blank(#[trigger] r[i])) && exists|i: int|
        0 <= i < r.len() && is_control(#[trigger] r[i])
}

/// Whether `x` is made of white space and pilcrows.
pub open spec fn all_filler(x: Seq<char>) -> bool {
    forall|i: int| 0 <= i < x.len() ==> (is_whitespace(#[trigger] x[i]) || x[i] == pilcrow())
}

/// Whether a space stands on either side of every pilcrow of `x`.
pub open spec fn markers_spaced(x: Seq<char>) -> bool {
    forall|k: int|
        0 <= k < x.len() && #[trigger] x[k] == pilcrow() ==> 1 <= k < x.len() - 1 && x[k - 1] == ' '
            && x[k + 1] == ' '
}

/// Whether a pilcrow stands in `x`.
pub open spec fn has_pilcrow(x: Seq<char>) -> bool {
    exists|k: int| 0 <= k < x.len() && #[trigger] x[k] == pilcrow()
}

proof fn lemma_marked_shift(x: Seq<char>, y: Seq<char>, j: int)
    requires
        0 <= j <= y.len(),
    ensures
        marked_from(x + y, x.len() + j) == marked_from(y, j),
    decreases y.len() - j,
{
    if j < y.len() {
        assert((x + y)[x.len() + j] == y[j]);
        lemma_marked_shift(x, y, j + 1);
    }
}

proof fn lemma_marked_concat(x: Seq<char>, y: Seq<char>, i: int)
    requires
        0 <= i <= x.len(),
    ensures
        marked_from(x + y, i) == marked_from(x, i) + marked(y),
    decreases x.len() - i,
{
    if i < x.len() {
        assert((x + y)[i] == x[i]);
        lemma_marked_concat(x, y, i + 1);
        if is_control(x[i]) {
            assert(marker() + (marked_from(x, i + 1) + marked(y)) =~= (marker() + marked_from(
                x,
                i + 1,
            )) + marked(y));
        } else {
            assert(seq![x[i]] + (marked_from(x, i + 1) + marked(y)) =~= (seq![x[i]]
                + marked_from(x, i + 1)) + marked(y));
        }
    } else {
        lemma_marked_shift(x, y, 0);
        assert(marked_from(x, i) + marked(y) =~= marked(y));
    }
}

proof fn lemma_marked_plain(a: Seq<char>, i: int)
    requires
        0 <= i <= a.len(),
        forall|k: int| 0 <= k < a.len() ==> !is_control(#[trigger] a[k]),
    ensures
        marked_from(a, i) == a.skip(i),
    decreases a.len() - i,
{
    if i < a.len() {
        lemma_marked_plain(a, i + 1);
        assert(seq![a[i]] + a.skip(i + 1) =~= a.skip(i));
    } else {
        assert(a.skip(i) =~= Seq::<char>::empty());
    }
}

/// What comes of marking a run of blank characters is white space and
/// pilcrows, each pilcrow between two spaces, and holds a pilcrow where the
/// run holds a control character.
proof fn lemma_marked_gap(r: Seq<char>, i: int)
    requires
        0 <= i <= r.len(),
        forall|k: int| 0 <= k < r.len() ==> is_blank(#[trigger] r[k]),
    ensures
        all_filler(marked_from(r, i)),
        markers_spaced(marked_from(r, i)),
        (exists|k: int| i <= k < r.len() && is_control(#[trigger] r[k])) ==> has_pilcrow(
            marked_from(r, i),
        ),
    decreases r.len() - i,
{
    if i < r.len() {
        lemma_marked_gap(r, i + 1);
        let rest = marked_from(r, i + 1);
        let out = marked_from(r, i);
        assert(is_blank(r[i]));
        if is_control(r[i]) {
            assert(out == marker() + rest);
            assert(out[1] == pilcrow());
            assert forall|k: int| 0 <= k < out.len() implies (is_whitespace(#[trigger] out[k])
                || out[k] == pilcrow()) by {
                if k >= 3 {
                    assert(out[k] == rest[k - 3]);
                }
            }
            assert forall|k: int| 0 <= k < out.len() && #[trigger] out[k] == pilcrow() implies 1
                <= k < out.len() - 1 && out[k - 1] == ' ' && out[k + 1] == ' ' by {
                if k >= 3 {
                    assert(out[k] == rest[k - 3]);
                    assert(out[k + 1] == rest[k - 2]);
                    if k > 3 {
                        assert(out[k - 1] == rest[k - 4]);
                    }
                }
            }
        } else {
            assert(out == seq![r[i]] + rest);
            assert(out[0] == r[i]);
            assert forall|k: int| 0 <= k < out.len() implies (is_whitespace(#[trigger] out[k])
                || out[k] == pilcrow()) by {
                if k >= 1 {
                    assert(out[k] == rest[k - 1]);
                }
            }
            assert forall|k: int| 0 <= k < out.len() && #[trigger] out[k] == pilcrow() implies 1
                <= k < out.len() - 1 && out[k - 1] == ' ' && out[k + 1] == ' ' by {
                assert(k >= 1);
                assert(out[k] == rest[k - 1]);
                assert(out[k + 1] == rest[k]);
                assert(k - 1 >= 1);
                assert(out[k - 1] == rest[k - 2]);
            }
            if exists|k: int| i <= k < r.len() && is_control(#[trigger] r[k]) {
                let k = choose|k: int| i <= k < r.len() && is_control(#[trigger] r[k]);
                assert(i + 1 <= k);
                let j = choose|j: int| 0 <= j < rest.len() && #[trigger] rest[j] == pilcrow();
                assert(out[j + 1] == pilcrow());
            }
        }
    }
}

/// Merging copies what holds no pilcrow.
proof fn lemma_merged_copy(s: Seq<char>, i: int, j: int)
    requires
        0 <= i <= j <= s.len(),
        forall|k: int| i <= k < j ==> #[trigger] s[k] != pilcrow(),
    ensures
        merged_from(s, i) == s.subrange(i, j) + merged_from(s, j),
    decreases j - i,
{
    if i < j {
        lemma_merged_copy(s, i + 1, j);
        assert(seq![s[i]] + (s.subrange(i + 1, j) + merged_from(s, j)) =~= s.subrange(i, j)
            + merged_from(s, j));
    } else {
        assert(s.subrange(i, j) + merged_from(s, j) =~= merged_from(s, j));
    }
}

/// Squeezing copies what holds no white space.
proof fn lemma_squeezed_copy(s: Seq<char>, i: int, j: int)
    requires
        0 <= i <= j <= s.len(),
        forall|k: int| i <= k < j ==> !is_whitespace(#[trigger] s[k]),
    ensures
        squeezed_from(s, i) == s.subrange(i, j) + squeezed_from(s, j),
    decreases j - i,
{
    if i < j {
        lemma_squeezed_copy(s, i + 1, j);
        assert(run_end(s, i) == i);
        assert(seq![s[i]] + (s.subrange(i + 1, j) + squeezed_from(s, j)) =~= s.subrange(i, j)
            + squeezed_from(s, j));
    } else {
        assert(s.subrange(i, j) + squeezed_from(s, j) =~= squeezed_from(s, j));
    }
}

/// Squeezing makes one space of a run of white space that is longer than
/// one character, or is a space.
proof fn lemma_squeezed_run(s: Seq<char>, i: int, e: int)
    requires
        0 <= i < e <= s.len(),
        forall|k: int| i <= k < e ==> is_whitespace(#[trigger] s[k]),
        e < s.len() ==> !is_whitespace(s[e]),
        e - i >= 2 || s[i] == ' ',
    ensures
        squeezed_from(s, i) == seq![' '] + squeezed_from(s, e),
{
    lemma_run_end_is(s, i, e);
}

/// Where the first pilcrow of `x` stands; the length of `x` if it has none.
spec fn first_pilcrow(x: Seq<char>, from: int) -> int
    decreases x.len() - from,
{
    if from < 0 || from >= x.len() {
        x.len() as int
    } else if x[from] == pilcrow() {
        from
    } else {
        first_pilcrow(x, from + 1)
    }
}

/// Where the last pilcrow of the first `upto` characters of `x` stands; -1
/// if there is none.
spec fn last_pilcrow(x: Seq<char>, upto: int) -> int
    decreases upto,
{
    if upto <= 0 || upto > x.len() {
        -1
    } else if x[upto - 1] == pilcrow() {
        upto - 1
    } else {
        last_pilcrow(x, upto - 1)
    }
}

proof fn lemma_first_pilcrow(x: Seq<char>, from: int)
    requires
        0 <= from <= x.len(),
    ensures
        from <= first_pilcrow(x, from) <= x.len(),
        first_pilcrow(x, from) < x.len() ==> x[first_pilcrow(x, from)] == pilcrow(),
        forall|k: int| from <= k < first_pilcrow(x, from) ==> #[trigger] x[k] != pilcrow(),
    decreases x.len() - from,
{
    if from < x.len() && x[from] != pilcrow() {
        lemma_first_pilcrow(x, from + 1);
    }
}

proof fn lemma_last_pilcrow(x: Seq<char>, upto: int)
    requires
        0 <= upto <= x.len(),
    ensures
        -1 <= last_pilcrow(x, upto) < upto,
        last_pilcrow(x, upto) >= 0 ==> x[last_pilcrow(x, upto)] == pilcrow(),
        forall|k: int| last_pilcrow(x, upto) < k < upto ==> #[trigger] x[k] != pilcrow(),
    decreases upto,
{
    if upto > 0 && x[upto - 1] != pilcrow() {
        lemma_last_pilcrow(x, upto - 1);
    }
}

/// The chain of pilcrows that begins at `p` runs up to the last pilcrow, if
/// nothing but white space and pilcrows stands in between.
proof fn lemma_chain_reaches(s: Seq<char>, p: int, q: int)
    requires
        0 <= p <= q < s.len(),
        s[p] == pilcrow(),
        s[q] == pilcrow(),
        forall|k: int| p <= k <= q ==> (is_whitespace(#[trigger] s[k]) || s[k] == pilcrow()),
        forall|k: int| q < k < s.len() ==> #[trigger] s[k] != pilcrow(),
    ensures
        chain_end(s, p) == q + 1,
{
    lemma_chain_end(s, p);
    let e = chain_end(s, p);
    assert(s[e - 1] == pilcrow());
    assert(e - 1 <= q);
    if e - 1 < q {
        lemma_run_end(s, e);
        let n = run_end(s, e);
        if n > q {
            assert(is_whitespace(s[q]));
        }
        assert(n <= q);
        assert(is_whitespace(s[n]) || s[n] == pilcrow());
        assert(false);
    }
}

/// What merging makes of two words with white space and spaced pilcrows
/// between them: the words, and between them white space around one
/// marker.
proof fn lemma_merged_between(a: Seq<char>, x: Seq<char>, b: Seq<char>) -> (parts: (
    Seq<char>,
    Seq<char>,
))
    requires
        all_solid(a),
        all_solid(b),
        all_filler(x),
        markers_spaced(x),
        has_pilcrow(x),
    ensures
        all_whitespace(parts.0),
        all_whitespace(parts.1),
        merged(a + x + b) == a + parts.0 + marker() + parts.1 + b,
{
    let s = a + x + b;
    let n = a.len() as int;
    lemma_first_pilcrow(x, 0);
    lemma_last_pilcrow(x, x.len() as int);
    let p = first_pilcrow(x, 0);
    let q = last_pilcrow(x, x.len() as int);
    let witness = choose|k: int| 0 <= k < x.len() && #[trigger] x[k] == pilcrow();
    assert(p <= witness <= q);
    assert(x[p] == pilcrow() && x[q] == pilcrow());
    assert(1 <= p && q < x.len() - 1 && x[p - 1] == ' ' && x[q + 1] == ' ');
    assert forall|k: int| 0 <= k < n + p implies #[trigger] s[k] != pilcrow() by {
        if k < n {
            assert(s[k] == a[k]);
        } else {
            assert(s[k] == x[k - n]);
        }
    }
    assert forall|k: int| n + q < k < s.len() implies #[trigger] s[k] != pilcrow() by {
        if k < n + x.len() {
            assert(s[k] == x[k - n]);
        } else {
            assert(s[k] == b[k - n - x.len()]);
        }
    }
    assert forall|k: int| n + p <= k <= n + q implies (is_whitespace(#[trigger] s[k]) || s[k]
        == pilcrow()) by {
        assert(s[k] == x[k - n]);
    }
    assert(s[n + p] == x[p]);
    assert(s[n + q] == x[q]);
    lemma_merged_copy(s, 0, n + p);
    lemma_chain_reaches(s, n + p, n + q);
    lemma_merged_copy(s, n + q + 1, s.len() as int);
    assert(merged_from(s, s.len() as int) =~= Seq::<char>::empty());
    let tail = s.subrange(n + q + 1, s.len() as int);
    assert(merged_from(s, n + q + 1) =~= tail);
    if p == q {
        let u = x.take(p - 1);
        let v = x.skip(p + 2);
        assert(merged_from(s, n + p) == seq![s[n + p]] + merged_from(s, n + p + 1));
        assert forall|k: int| 0 <= k < u.len() implies is_whitespace(#[trigger] u[k]) by {
            assert(u[k] == x[k]);
        }
        assert forall|k: int| 0 <= k < v.len() implies is_whitespace(#[trigger] v[k]) by {
            assert(v[k] == x[k + p + 2]);
        }
        assert(s.subrange(0, n + p) + (seq![s[n + p]] + tail) =~= a + u + marker() + v + b);
        (u, v)
    } else {
        let u = x.take(p);
        let v = x.skip(q + 1);
        assert(merged_from(s, n + p) == marker() + merged_from(s, n + q + 1));
        assert forall|k: int| 0 <= k < u.len() implies is_whitespace(#[trigger] u[k]) by {
            assert(u[k] == x[k]);
        }
        assert forall|k: int| 0 <= k < v.len() implies is_whitespace(#[trigger] v[k]) by {
            assert(v[k] == x[k + q + 1]);
        }
        assert(s.subrange(0, n + p) + (marker() + tail) =~= a + u + marker() + v + b);
        (u, v)
    }
}

/// What squeezing makes of two words with white space around one marker
/// between them: the words with the marker between them.
proof fn lemma_squeezed_between(a: Seq<char>, u: Seq<char>, v: Seq<char>, b: Seq<char>)
    requires
        all_solid(a),
        all_solid(b),
        b.len() > 0,
        all_whitespace(u),
        all_whitespace(v),
    ensures
        squeezed(a + u + marker() + v + b) == a + marker() + b,
{
    let s = a + u + marker() + v + b;
    let n = a.len() as int;
    let k = n + u.len() + 1;
    let e = k + 2 + v.len();
    assert(s[k] == pilcrow());
    assert(s[k - 1] == ' ');
    assert(s[k + 1] == ' ');
    assert(s[e] == b[0]);
    assert forall|j: int| 0 <= j < n implies !is_whitespace(#[trigger] s[j]) by {
        assert(s[j] == a[j]);
    }
    assert forall|j: int| n <= j < k implies is_whitespace(#[trigger] s[j]) by {
        if j < k - 1 {
            assert(s[j] == u[j - n]);
        }
    }
    assert forall|j: int| k + 1 <= j < e implies is_whitespace(#[trigger] s[j]) by {
        if j > k + 1 {
            assert(s[j] == v[j - k - 2]);
        }
    }
    assert forall|j: int| e <= j < s.len() implies !is_whitespace(#[trigger] s[j]) by {
        assert(s[j] == b[j - e]);
    }
    lemma_squeezed_copy(s, 0, n);
    lemma_squeezed_run(s, n, k);
    lemma_squeezed_copy(s, k, k + 1);
    lemma_squeezed_run(s, k + 1, e);
    lemma_squeezed_copy(s, e, s.len() as int);
    assert(squeezed_from(s, s.len() as int) =~= Seq::<char>::empty());
    assert(s.subrange(0, n) =~= a);
    assert(s.subrange(k, k + 1) =~= seq![pilcrow()]);
    assert(s.subrange(e, s.len() as int) =~= b);
    assert(a + (seq![' '] + (seq![pilcrow()] + (seq![' '] + (b + Seq::<char>::empty()))))
        =~= a + marker() + b);
}

/// A run of line ends between two words comes out as a single marker: where
/// `a` and `b` are words, and `r` holds nothing but control characters and
/// white space, with one control character at least, the clean-up of the
/// three in a row is `a`, the marker, and `b`.
pub proof fn law_cleanup_newlines_collapses_run(a: Seq<char>, r: Seq<char>, b: Seq<char>)
    requires
        a.len() > 0,
        b.len() > 0,
        all_solid(a),
        all_solid(b),
        is_gap(r),
    ensures
        cleaned(a + r + b) == a + marker() + b,
{
    let s = a + r + b;
    assert(s[0] == a[0]);
    assert(s.last() == b.last());
    lemma_trimmed_fixed(s);
    lemma_marked_concat(a + r, b, 0);
    lemma_marked_concat(a, r, 0);
    lemma_marked_plain(a, 0);
    lemma_marked_plain(b, 0);
    assert(a.skip(0) =~= a);
    assert(b.skip(0) =~= b);
    let x = marked(r);
    assert(marked(s) == a + x + b);
    lemma_marked_gap(r, 0);
    let (u, v) = lemma_merged_between(a, x, b);
    lemma_squeezed_between(a, u, v, b);
}

} // verus!
