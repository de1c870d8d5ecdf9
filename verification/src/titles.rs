//! Finding the links in a line of chat and telling which provider each of
//! them belongs to.
//!
//! Every provider is known by the shape of its links. The shapes are tried
//! in a fixed order and the first that fits decides; a link that fits none
//! is an ordinary web page.

use vstd::prelude::*;
use vstd::string::StringSliceAdditionalSpecFns;
use vstd::utf8::encode_utf8;
use crate::html::{result_text, TitleModel, TitleResult};
use crate::reply::{limit_length, limited};
use crate::sanitize::{strip_whitespace, stripped};
use crate::text::{
    alphanumeric, decimal, is_alphanumeric, is_control, is_decimal, push_chars, to_chars,
};

verus! {

/// A link that was found in a line: where it begins and ends, counted in
/// characters, and its text.
#[derive(Debug, Clone, PartialEq, Eq)]
pub struct CandidateUrl {
    pub start: usize,
    pub end: usize,
    pub text: String,
}

/// The provider that a link belongs to, with what names the thing that the
/// link leads to.
#[derive(Debug, Clone, PartialEq, Eq)]
pub enum ProviderMatch {
    ImageHost { id: String },
    GalleryHost { id: String },
    StreamingVideoHost { id: String },
    MusicMetadata { kind: String, id: String },
    ShortPost { id: String },
    VideoPlatform { id: String },
    Generic,
}

/// A provider match, as contracts speak of it.
pub enum MatchModel {
    ImageHost { id: Seq<char> },
    GalleryHost { id: Seq<char> },
    StreamingVideoHost { id: Seq<char> },
    MusicMetadata { kind: Seq<char>, id: Seq<char> },
    ShortPost { id: Seq<char> },
    VideoPlatform { id: Seq<char> },
    Generic,
}

impl View for ProviderMatch {
    type V = MatchModel;

    open spec fn view(&self) -> MatchModel {
        match *self {
            ProviderMatch::ImageHost { id } => MatchModel::ImageHost { id: id@ },
            ProviderMatch::GalleryHost { id } => MatchModel::GalleryHost { id: id@ },
            ProviderMatch::StreamingVideoHost { id } => MatchModel::StreamingVideoHost { id: id@ },
            ProviderMatch::MusicMetadata { kind, id } => MatchModel::MusicMetadata {
                kind: kind@,
                id: id@,
            },
            ProviderMatch::ShortPost { id } => MatchModel::ShortPost { id: id@ },
            ProviderMatch::VideoPlatform { id } => MatchModel::VideoPlatform { id: id@ },
            ProviderMatch::Generic => MatchModel::Generic,
        }
    }
}

/// The kinds of characters that the shapes of links are made of.
#[derive(Clone, Copy, Debug, PartialEq, Eq, Structural)]
pub enum CharClass {
    /// ASCII letters and digits.
    Alphanumeric,
    /// ASCII digits.
    Digit,
    /// Word characters of Unicode.
    Word,
    /// ASCII letters and digits, the underscore and the hyphen.
    VideoId,
    /// Anything but a slash.
    NotSlash,
    /// Anything but a space.
    NotSpace,
}

/// Whether `c` is a word character of Unicode, as `regex_syntax` tells it.
pub uninterp spec fn is_word(c: char) -> bool;

/// `regex_syntax::is_word_character` tells whether a character is a word
/// character of Unicode: a letter, a mark, a decimal digit, a connector
/// such as the underscore, or a join control. It depends on the character
/// alone.
#[verifier::external_body]
fn word_character(c: char) -> (b: bool)
    ensures
        b == is_word(c),
{
    regex_syntax::is_word_character(c)
}

/// Whether `c` is of the kind `class`.
pub open spec fn in_class(class: CharClass, c: char) -> bool {
    match class {
        CharClass::Alphanumeric => is_alphanumeric(c),
        CharClass::Digit => is_decimal(c),
        CharClass::Word => is_word(c),
        CharClass::VideoId => is_alphanumeric(c) || c == '_' || c == '-',
        CharClass::NotSlash => c != '/',
        CharClass::NotSpace => c != ' ',
    }
}

/// Whether `c` is of the kind `class`.
pub fn class_holds(class: CharClass, c: char) -> (b: bool)
    ensures
        b == in_class(class, c),
{
    match class {
        CharClass::Alphanumeric => alphanumeric(c),
        CharClass::Digit => decimal(c),
        CharClass::Word => word_character(c),
        CharClass::VideoId => alphanumeric(c) || c == '_' || c == '-',
        CharClass::NotSlash => c != '/',
        CharClass::NotSpace => c != ' ',
    }
}

/// Where the run of characters of the kind `class` that begins at `i` ends.
pub open spec fn class_end(s: Seq<char>, i: int, class: CharClass) -> int
    decreases s.len() - i,
{
    if 0 <= i < s.len() && in_class(class, s[i]) {
        class_end(s, i + 1, class)
    } else {
        i
    }
}

/// Whether one character of a link fits one character of a shape. In a
/// loose shape a dot stands for any character but a line feed.
pub open spec fn fits(c: char, wanted: char, loose: bool) -> bool {
    if loose && wanted == '.' {
        c != '\n'
    } else {
        c == wanted
    }
}

/// Whether the text `pat` stands at `i`.
pub open spec fn lit_at(s: Seq<char>, i: int, pat: Seq<char>, loose: bool) -> bool {
    0 <= i && i + pat.len() <= s.len() && forall|k: int|
        0 <= k < pat.len() ==> fits(#[trigger] s[i + k], pat[k], loose)
}

/// Where the run of characters of the kind `class` that begins at `i` ends.
pub(crate) fn find_class_end(v: &Vec<char>, i: usize, class: CharClass) -> (e: usize)
    requires
        i <= v.len(),
    ensures
        e == class_end(v@, i as int, class),
        i <= e <= v.len(),
{
    let mut e: usize = i;
    while e < v.len() && class_holds(class, v[e])
        invariant
            i <= e <= v.len(),
            class_end(v@, e as int, class) == class_end(v@, i as int, class),
        decreases v.len() - e,
    {
        e += 1;
    }
    e
}

/// Whether the text `pat` stands at `i`.
pub(crate) fn literal_at(v: &Vec<char>, i: usize, pat: &str, loose: bool) -> (b: bool)
    requires
        i <= v.len(),
    ensures
        b == lit_at(v@, i as int, pat@, loose),
{
    let p = to_chars(pat);
    if p.len() > v.len() - i {
        return false;
    }
    let mut k: usize = 0;
    while k < p.len()
        invariant
            k <= p.len(),
            i + p.len() <= v.len(),
            p@ == pat@,
            forall|j: int| 0 <= j < k ==> fits(#[trigger] v@[i + j], p@[j], loose),
        decreases p.len() - k,
    {
        let c = v[i + k];
        let w = p[k];
        let ok = if loose && w == '.' {
            c != '\n'
        } else {
            c == w
        };
        if !ok {
            assert(!fits(v@[i + k], p@[k as int], loose));
            return false;
        }
        k += 1;
    }
    true
}

/// Where the scheme of a link ends: behind `http://` or `https://`.
pub open spec fn scheme_end(u: Seq<char>) -> Option<int> {
    if lit_at(u, 0, "https://"@, false) {
        Some(8)
    } else if lit_at(u, 0, "http://"@, false) {
        Some(7)
    } else {
        None
    }
}

/// The place behind the text `pat` where it stands at `i`, else `i`.
pub open spec fn skip_opt(u: Seq<char>, i: int, pat: Seq<char>) -> int {
    if lit_at(u, i, pat, false) {
        i + pat.len()
    } else {
        i
    }
}

/// The lesser of two numbers.
pub open spec fn at_most(n: int, cap: int) -> int {
    if n > cap {
        cap
    } else {
        n
    }
}

/// Whether the ending of a picture or film stands at `i`.
pub open spec fn media_ending_at(u: Seq<char>, i: int) -> bool {
    lit_at(u, i, "jpg"@, false) || lit_at(u, i, "mp4"@, false) || lit_at(u, i, "webm"@, false)
        || lit_at(u, i, "png"@, false) || lit_at(u, i, "gif"@, false)
}

/// Where the name of an image stands in a link to the image host: behind
/// the host, five to nine letters and digits, before a dot and the ending
/// of a picture or film.
pub open spec fn image_span(u: Seq<char>) -> Option<(int, int)> {
    match scheme_end(u) {
        None => None,
        Some(p) => {
            let host = skip_opt(u, p, "i."@);
            let q = host + 10;
            let e = class_end(u, q, CharClass::Alphanumeric);
            if lit_at(u, host, "imgur.com/"@, false) && 5 <= e - q <= 9 && lit_at(
                u,
                e,
                "."@,
                false,
            ) && media_ending_at(u, e + 1) {
                Some((q, e))
            } else {
                None
            }
        },
    }
}

/// Where the name of an album stands in a link to the image host: behind
/// `a/` or `gallery/`, the first seven at most of five or more letters and
/// digits.
pub open spec fn gallery_span(u: Seq<char>) -> Option<(int, int)> {
    match scheme_end(u) {
        None => None,
        Some(p) => {
            let host = skip_opt(u, p, "www."@);
            let dir = host + 10;
            let q = if lit_at(u, dir, "a/"@, false) {
                dir + 2
            } else {
                dir + 8
            };
            let e = class_end(u, q, CharClass::Alphanumeric);
            if lit_at(u, host, "imgur.com/"@, false) && (lit_at(u, dir, "a/"@, false) || lit_at(
                u,
                dir,
                "gallery/"@,
                false,
            )) && 5 <= e - q {
                Some((q, q + at_most(e - q, 7)))
            } else {
                None
            }
        },
    }
}

/// Where the name of a video stands in a link to the streaming host: the
/// word characters behind the host.
pub open spec fn stream_span(u: Seq<char>) -> Option<(int, int)> {
    match scheme_end(u) {
        None => None,
        Some(p) => {
            let q = p + 10;
            let e = class_end(u, q, CharClass::Word);
            if lit_at(u, p, "v.redd.it/"@, true) && q < e {
                Some((q, e))
            } else {
                None
            }
        },
    }
}

/// Where the kind and the name stand in a link to the music service: the
/// kind is the word characters behind the host, up to a slash, and the
/// name the first 25 at most of 20 or more letters and digits behind it.
pub open spec fn music_spans(u: Seq<char>) -> Option<((int, int), (int, int))> {
    let q = 25;
    let e = class_end(u, q, CharClass::Word);
    let r = e + 1;
    let f = class_end(u, r, CharClass::Alphanumeric);
    if lit_at(u, 0, "https://"@, false) && lit_at(u, 8, "open.spotify.com/"@, true) && q < e
        && lit_at(u, e, "/"@, false) && 20 <= f - r {
        Some(((q, e), (r, r + at_most(f - r, 25))))
    } else {
        None
    }
}

/// Where the number of a post stands in a link to the short-post host:
/// behind the name of a user and `/status/`, the first 25 at most of 16 or
/// more digits.
pub open spec fn post_span(u: Seq<char>) -> Option<(int, int)> {
    match scheme_end(u) {
        None => None,
        Some(p) => {
            let host = skip_opt(u, p, "www."@);
            let q = host + 12;
            let e = class_end(u, q, CharClass::NotSlash);
            let r = e + 8;
            let f = class_end(u, r, CharClass::Digit);
            if lit_at(u, host, "twitter.com/"@, true) && q < e && lit_at(
                u,
                e,
                "/status/"@,
                false,
            ) && 16 <= f - r {
                Some((r, r + at_most(f - r, 25)))
            } else {
                None
            }
        },
    }
}

/// Where the name of a video begins in a link to the video platform:
/// behind `watch?v=` of the long form, or behind the host of the short one.
pub open spec fn clip_start(u: Seq<char>) -> Option<int> {
    match scheme_end(u) {
        None => None,
        Some(p) => {
            let host = skip_opt(u, p, "www."@);
            if lit_at(u, host, "youtube.com/watch?v="@, false) {
                Some(host + 20)
            } else if lit_at(u, p, "youtu.be/"@, true) {
                Some(p + 9)
            } else {
                None
            }
        },
    }
}

/// Where the name of a video stands in a link to the video platform: eleven
/// characters of a name.
pub open spec fn clip_span(u: Seq<char>) -> Option<(int, int)> {
    match clip_start(u) {
        None => None,
        Some(q) => if class_end(u, q, CharClass::VideoId) - q >= 11 {
            Some((q, q + 11))
        } else {
            None
        },
    }
}

/// The provider that the link `u` belongs to. The shapes are tried in this
/// order: image, album, streamed video, music, short post, video; a link
/// of none of these shapes is an ordinary page.
pub open spec fn classified(u: Seq<char>) -> MatchModel {
    if let Some((a, b)) = image_span(u) {
        MatchModel::ImageHost { id: u.subrange(a, b) }
    } else if let Some((a, b)) = gallery_span(u) {
        MatchModel::GalleryHost { id: u.subrange(a, b) }
    } else if let Some((a, b)) = stream_span(u) {
        MatchModel::StreamingVideoHost { id: u.subrange(a, b) }
    } else if let Some(((a, b), (c, d))) = music_spans(u) {
        MatchModel::MusicMetadata { kind: u.subrange(a, b), id: u.subrange(c, d) }
    } else if let Some((a, b)) = post_span(u) {
        MatchModel::ShortPost { id: u.subrange(a, b) }
    } else if let Some((a, b)) = clip_span(u) {
        MatchModel::VideoPlatform { id: u.subrange(a, b) }
    } else {
        MatchModel::Generic
    }
}

fn find_scheme_end(v: &Vec<char>) -> (r: Option<usize>)
    ensures
        match r {
            Some(p) => scheme_end(v@) == Some(p as int) && p <= v.len(),
            None => scheme_end(v@) is None,
        },
{
    proof {
        reveal_strlit("https://");
        reveal_strlit("http://");
    }
    if literal_at(v, 0, "https://", false) {
        Some(8)
    } else if literal_at(v, 0, "http://", false) {
        Some(7)
    } else {
        None
    }
}

fn skip_optional(v: &Vec<char>, i: usize, pat: &str) -> (r: usize)
    requires
        i <= v.len(),
    ensures
        r == skip_opt(v@, i as int, pat@),
        i <= r <= v.len(),
{
    if literal_at(v, i, pat, false) {
        i + to_chars(pat).len()
    } else {
        i
    }
}

fn find_image(v: &Vec<char>) -> (r: Option<(usize, usize)>)
    ensures
        match r {
            Some((a, b)) => image_span(v@) == Some((a as int, b as int)) && a <= b <= v.len(),
            None => image_span(v@) is None,
        },
{
    proof {
        reveal_strlit("imgur.com/");
        reveal_strlit(".");
        reveal_strlit("jpg");
        reveal_strlit("mp4");
        reveal_strlit("webm");
        reveal_strlit("png");
        reveal_strlit("gif");
    }
    let p = match find_scheme_end(v) {
        Some(p) => p,
        None => {
            return None;
        },
    };
    let host = skip_optional(v, p, "i.");
    if !literal_at(v, host, "imgur.com/", false) {
        return None;
    }
    let q = host + 10;
    let e = find_class_end(v, q, CharClass::Alphanumeric);
    if e - q < 5 || e - q > 9 || !literal_at(v, e, ".", false) {
        return None;
    }
    let x = e + 1;
    if literal_at(v, x, "jpg", false) || literal_at(v, x, "mp4", false) || literal_at(
        v,
        x,
        "webm",
        false,
    ) || literal_at(v, x, "png", false) || literal_at(v, x, "gif", false) {
        Some((q, e))
    } else {
        None
    }
}

fn find_gallery(v: &Vec<char>) -> (r: Option<(usize, usize)>)
    ensures
        match r {
            Some((a, b)) => gallery_span(v@) == Some((a as int, b as int)) && a <= b <= v.len(),
            None => gallery_span(v@) is None,
        },
{
    proof {
        reveal_strlit("imgur.com/");
        reveal_strlit("a/");
        reveal_strlit("gallery/");
    }
    let p = match find_scheme_end(v) {
        Some(p) => p,
        None => {
            return None;
        },
    };
    let host = skip_optional(v, p, "www.");
    if !literal_at(v, host, "imgur.com/", false) {
        return None;
    }
    let dir = host + 10;
    let q = if literal_at(v, dir, "a/", false) {
        dir + 2
    } else if literal_at(v, dir, "gallery/", false) {
        dir + 8
    } else {
        return None;
    };
    let e = find_class_end(v, q, CharClass::Alphanumeric);
    if e - q < 5 {
        return None;
    }
    let n = if e - q > 7 {
        7
    } else {
        e - q
    };
    Some((q, q + n))
}

fn find_stream(v: &Vec<char>) -> (r: Option<(usize, usize)>)
    ensures
        match r {
            Some((a, b)) => stream_span(v@) == Some((a as int, b as int)) && a <= b <= v.len(),
            None => stream_span(v@) is None,
        },
{
    proof {
        reveal_strlit("v.redd.it/");
    }
    let p = match find_scheme_end(v) {
        Some(p) => p,
        None => {
            return None;
        },
    };
    if !literal_at(v, p, "v.redd.it/", true) {
        return None;
    }
    let q = p + 10;
    let e = find_class_end(v, q, CharClass::Word);
    if q < e {
        Some((q, e))
    } else {
        None
    }
}

fn find_music(v: &Vec<char>) -> (r: Option<((usize, usize), (usize, usize))>)
    ensures
        match r {
            Some(((a, b), (c, d))) => music_spans(v@) == Some(
                ((a as int, b as int), (c as int, d as int)),
            ) && a <= b <= v.len() && c <= d <= v.len(),
            None => music_spans(v@) is None,
        },
{
    proof {
        reveal_strlit("https://");
        reveal_strlit("open.spotify.com/");
        reveal_strlit("/");
    }
    if !literal_at(v, 0, "https://", false) {
        return None;
    }
    if !literal_at(v, 8, "open.spotify.com/", true) {
        return None;
    }
    let q: usize = 25;
    let e = find_class_end(v, q, CharClass::Word);
    if e <= q || !literal_at(v, e, "/", false) {
        return None;
    }
    let r = e + 1;
    let f = find_class_end(v, r, CharClass::Alphanumeric);
    if f - r < 20 {
        return None;
    }
    let n = if f - r > 25 {
        25
    } else {
        f - r
    };
    Some(((q, e), (r, r + n)))
}

fn find_post(v: &Vec<char>) -> (r: Option<(usize, usize)>)
    ensures
        match r {
            Some((a, b)) => post_span(v@) == Some((a as int, b as int)) && a <= b <= v.len(),
            None => post_span(v@) is None,
        },
{
    proof {
        reveal_strlit("twitter.com/");
        reveal_strlit("/status/");
    }
    let p = match find_scheme_end(v) {
        Some(p) => p,
        None => {
            return None;
        },
    };
    let host = skip_optional(v, p, "www.");
    if !literal_at(v, host, "twitter.com/", true) {
        return None;
    }
    let q = host + 12;
    let e = find_class_end(v, q, CharClass::NotSlash);
    if e <= q || !literal_at(v, e, "/status/", false) {
        return None;
    }
    let r = e + 8;
    let f = find_class_end(v, r, CharClass::Digit);
    if f - r < 16 {
        return None;
    }
    let n = if f - r > 25 {
        25
    } else {
        f - r
    };
    Some((r, r + n))
}

fn find_clip(v: &Vec<char>) -> (r: Option<(usize, usize)>)
    ensures
        match r {
            Some((a, b)) => clip_span(v@) == Some((a as int, b as int)) && a <= b <= v.len(),
            None => clip_span(v@) is None,
        },
{
    proof {
        reveal_strlit("youtube.com/watch?v=");
        reveal_strlit("youtu.be/");
    }
    let p = match find_scheme_end(v) {
        Some(p) => p,
        None => {
            return None;
        },
    };
    let host = skip_optional(v, p, "www.");
    let q = if literal_at(v, host, "youtube.com/watch?v=", false) {
        host + 20
    } else if literal_at(v, p, "youtu.be/", true) {
        p + 9
    } else {
        return None;
    };
    let e = find_class_end(v, q, CharClass::VideoId);
    if e - q >= 11 {
        Some((q, q + 11))
    } else {
        None
    }
}

/// The text `v[from..to]` as a string.
pub(crate) fn text_of(v: &Vec<char>, from: usize, to: usize) -> (s: String)
    requires
        from <= to <= v.len(),
    ensures
        s@ == v@.subrange(from as int, to as int),
{
    let mut s = String::new();
    push_chars(&mut s, v, from, to);
    assert(Seq::<char>::empty() + v@.subrange(from as int, to as int) =~= v@.subrange(
        from as int,
        to as int,
    ));
    s
}

/// Tells which provider a link belongs to.
pub fn classify(url: &str) -> (m: ProviderMatch)
    ensures
        m@ == classified(url@),
{
    let v = to_chars(url);
    if let Some((a, b)) = find_image(&v) {
        return ProviderMatch::ImageHost { id: text_of(&v, a, b) };
    }
    if let Some((a, b)) = find_gallery(&v) {
        return ProviderMatch::GalleryHost { id: text_of(&v, a, b) };
    }
    if let Some((a, b)) = find_stream(&v) {
        return ProviderMatch::StreamingVideoHost { id: text_of(&v, a, b) };
    }
    if let Some(((a, b), (c, d))) = find_music(&v) {
        return ProviderMatch::MusicMetadata { kind: text_of(&v, a, b), id: text_of(&v, c, d) };
    }
    if let Some((a, b)) = find_post(&v) {
        return ProviderMatch::ShortPost { id: text_of(&v, a, b) };
    }
    if let Some((a, b)) = find_clip(&v) {
        return ProviderMatch::VideoPlatform { id: text_of(&v, a, b) };
    }
    ProviderMatch::Generic
}

/// Where the link that begins at `i` ends, if one begins there: the scheme
/// `http` or `https`, `://`, and then everything up to the next space, of
/// which there must be something.
pub open spec fn url_end_at(s: Seq<char>, i: int) -> Option<int> {
    let body = if lit_at(s, i, "https://"@, false) {
        i + 8
    } else {
        i + 7
    };
    let e = class_end(s, body, CharClass::NotSpace);
    if (lit_at(s, i, "https://"@, false) || lit_at(s, i, "http://"@, false)) && body < e {
        Some(e)
    } else {
        None
    }
}

/// Where the links of `s` stand from `i` on, from left to right. A link
/// begins at the first place where one can begin, and the next is looked
/// for behind it.
pub open spec fn url_spans(s: Seq<char>, i: int) -> Seq<(int, int)>
    decreases s.len() - i,
{
    if i < 0 || i >= s.len() {
        Seq::empty()
    } else {
        match url_end_at(s, i) {
            Some(e) => if i < e <= s.len() {
                seq![(i, e)] + url_spans(s, e)
            } else {
                url_spans(s, i + 1)
            },
            None => url_spans(s, i + 1),
        }
    }
}

/// Whether `found` are the links that stand at `spans` in `s`.
pub open spec fn are_links(found: Seq<CandidateUrl>, s: Seq<char>, spans: Seq<(int, int)>) -> bool {
    found.len() == spans.len() && forall|k: int|
        0 <= k < found.len() ==> (#[trigger] found[k]).start == spans[k].0 && found[k].end
            == spans[k].1 && found[k].text@ == s.subrange(spans[k].0, spans[k].1)
}

/// Finds the links in a line, from left to right.
pub fn find_urls(line: &str) -> (found: Vec<CandidateUrl>)
    ensures
        are_links(found@, line@, url_spans(line@, 0)),
{
    proof {
        reveal_strlit("https://");
        reveal_strlit("http://");
    }
    let v = to_chars(line);
    let n = v.len();
    let mut found: Vec<CandidateUrl> = Vec::new();
    let ghost mut done: Seq<(int, int)> = Seq::empty();
    let mut i: usize = 0;
    assert(done + url_spans(v@, 0) =~= url_spans(v@, 0));
    while i < n
        invariant
            i <= n,
            n == v.len(),
            v@ == line@,
            done + url_spans(v@, i as int) == url_spans(v@, 0),
            are_links(found@, v@, done),
        decreases n - i,
    {
        proof {
            reveal_strlit("https://");
            reveal_strlit("http://");
        }
        let secure = literal_at(&v, i, "https://", false);
        let plain = !secure && literal_at(&v, i, "http://", false);
        let mut next = i + 1;
        if secure || plain {
            let body = if secure {
                i + 8
            } else {
                i + 7
            };
            let e = find_class_end(&v, body, CharClass::NotSpace);
            if body < e {
                let text = text_of(&v, i, e);
                let ghost before = found@;
                found.push(CandidateUrl { start: i, end: e, text });
                proof {
                    let span = (i as int, e as int);
                    assert(url_end_at(v@, i as int) == Some(e as int));
                    assert(done.push(span) + url_spans(v@, e as int) =~= done + (seq![span]
                        + url_spans(v@, e as int)));
                    let grown = done.push(span);
                    assert forall|k: int| 0 <= k < found@.len() implies (
                    #[trigger] found@[k]).start == grown[k].0 && found@[k].end == grown[k].1
                        && found@[k].text@ == v@.subrange(grown[k].0, grown[k].1) by {
                        if k < before.len() {
                            assert(found@[k] == before[k]);
                        }
                    }
                    done = grown;
                }
                next = e;
            }
        }
        i = next;
    }
    assert(done + url_spans(v@, n as int) =~= done);
    found
}

/// The host of a link as the `url` crate reads it, `None` where the text is
/// no link or a link without host.
pub uninterp spec fn url_host(url: Seq<char>) -> Option<Seq<char>>;

/// `url::Url::parse` (through `str::parse`) reads a link, and
/// `Url::host_str` is the host of it as the link is then written: a domain
/// in lower case, and in ASCII where it was not, or an address. What comes
/// out depends on the text alone.
#[verifier::external_body]
fn host_of(url: &str) -> (host: Option<String>)
    ensures
        match host {
            Some(h) => url_host(url@) == Some(h@),
            None => url_host(url@) is None,
        },
{
    url.parse::<url::Url>().ok().and_then(|u| u.host_str().map(|h| h.to_owned()))
}

/// The host to show for a link; a placeholder where it has none.
pub open spec fn host_text(url: Seq<char>) -> Seq<char> {
    match url_host(url) {
        Some(h) => h,
        None => "[invalid url]"@,
    }
}

/// Chooses what to show as the host of a link.
pub fn host_or_placeholder(host: Option<String>) -> (s: String)
    ensures
        s@ == match host {
            Some(h) => h@,
            None => "[invalid url]"@,
        },
{
    match host {
        Some(h) => h,
        None => String::from_str("[invalid url]"),
    }
}

/// The host to show for a link.
pub fn hostname(url: &str) -> (s: String)
    ensures
        s@ == host_text(url@),
{
    host_or_placeholder(host_of(url))
}

/// A title in its brackets, behind the host that it comes from.
pub open spec fn wrapped(host: Seq<char>, title: Seq<char>) -> Seq<char> {
    "[ "@ + host + " - "@ + title + " ]"@
}

/// The host as it is shown: on one line, without blank characters other
/// than single spaces, and the placeholder where nothing is left of it.
pub open spec fn shown_host(host: Seq<char>) -> Seq<char> {
    if stripped(host).len() == 0 {
        "[invalid url]"@
    } else {
        stripped(host)
    }
}

/// The line that reports `title` for a link with the host `host`: nothing
/// where the title holds no more than blank characters, else the stripped
/// title in its brackets behind the host, capped in length.
pub open spec fn reply_model(host: Seq<char>, title: Seq<char>) -> Option<Seq<u8>> {
    if stripped(title).len() == 0 {
        None
    } else {
        Some(limited(encode_utf8(wrapped(shown_host(host), stripped(title)))))
    }
}

/// Whether `r` is the line that the model `m` asks for.
pub open spec fn matches_reply(r: Option<String>, m: Option<Seq<u8>>) -> bool {
    match r {
        Some(line) => m == Some(encode_utf8(line@)),
        None => m is None,
    }
}

/// Whether no control character stands in `s`.
pub open spec fn free_of_controls(s: Seq<char>) -> bool {
    forall|i: int| 0 <= i < s.len() ==> !is_control(#[trigger] s[i])
}

/// A stripped text holds no control character.
pub proof fn lemma_stripped_free_of_controls(s: Seq<char>)
    ensures
        free_of_controls(stripped(s)),
{
    crate::sanitize::lemma_stripped_shape(s);
    let plain = stripped(s);
    assert forall|i: int| 0 <= i < plain.len() implies !is_control(#[trigger] plain[i]) by {
        assert(crate::sanitize::is_plain(plain[i]));
    }
}

/// The host as it is shown holds no control character.
pub proof fn lemma_shown_host_free_of_controls(host: Seq<char>)
    ensures
        free_of_controls(shown_host(host)),
{
    reveal_strlit("[invalid url]");
    lemma_stripped_free_of_controls(host);
}

/// A title in its brackets holds no control character, if neither the host
/// nor the title does.
pub proof fn lemma_wrapped_free_of_controls(host: Seq<char>, title: Seq<char>)
    requires
        free_of_controls(host),
        free_of_controls(title),
    ensures
        free_of_controls(wrapped(host, title)),
{
    reveal_strlit("[ ");
    reveal_strlit(" - ");
    reveal_strlit(" ]");
    let w = wrapped(host, title);
    assert forall|i: int| 0 <= i < w.len() implies !is_control(#[trigger] w[i]) by {
        if i < 2 {
            assert(w[i] == "[ "@[i]);
        } else if i < 2 + host.len() {
            assert(w[i] == host[i - 2]);
        } else if i < 5 + host.len() {
            assert(w[i] == " - "@[i - 2 - host.len()]);
        } else if i < 5 + host.len() + title.len() {
            assert(w[i] == title[i - 5 - host.len()]);
        } else {
            assert(w[i] == " ]"@[i - 5 - host.len() - title.len()]);
        }
    }
}

/// Makes the line that reports a title for a link whose host is `host`.
/// Host and title are put on one line each, so that the line holds no
/// control character whatever the two hold.
pub fn wrap_title(host: &str, title: &str) -> (r: Option<String>)
    ensures
        matches_reply(r, reply_model(host@, title@)),
        match r {
            Some(line) => line@ == wrapped(shown_host(host@), stripped(title@)).take(
                line@.len() as int,
            ) && free_of_controls(line@),
            None => true,
        },
{
    let plain = strip_whitespace(title);
    if plain.as_str().unicode_len() == 0 {
        return None;
    }
    let plain_host = strip_whitespace(host);
    let mut line = String::from_str("[ ");
    if plain_host.as_str().unicode_len() == 0 {
        line.append("[invalid url]");
    } else {
        line.append(plain_host.as_str());
    }
    line.append(" - ");
    line.append(plain.as_str());
    line.append(" ]");
    let capped = limit_length(line.as_str());
    proof {
        lemma_shown_host_free_of_controls(host@);
        lemma_stripped_free_of_controls(title@);
        lemma_wrapped_free_of_controls(shown_host(host@), stripped(title@));
        assert forall|i: int| 0 <= i < capped@.len() implies !is_control(
            #[trigger] capped@[i],
        ) by {
            assert(capped@[i] == line@[i]);
        }
    }
    Some(String::from_str(capped))
}

/// The line that reports what was found for the link `url`.
pub open spec fn reply_for_model(url: Seq<char>, result: TitleModel) -> Option<Seq<u8>> {
    match result {
        TitleModel::Suppressed => None,
        _ => reply_model(host_text(url), result_text(result)),
    }
}

/// Makes the line that reports what was found for a link; `None` where
/// nothing is to be said.
pub fn reply_for(url: &str, result: &TitleResult) -> (r: Option<String>)
    ensures
        matches_reply(r, reply_for_model(url@, result@)),
        r matches Some(line) ==> free_of_controls(line@),
{
    match result {
        TitleResult::Suppressed => None,
        _ => {
            let host = hostname(url);
            let text = result.text();
            wrap_title(host.as_str(), text.as_str())
        },
    }
}

/// What a provider found, as a result: the summary as a title, and
/// nothing to say where the provider failed or gave an empty summary.
pub fn provider_result(summary: Option<String>) -> (r: TitleResult)
    ensures
        r@ == match summary {
            Some(s) => if stripped(s@).len() > 0 {
                TitleModel::Title(s@)
            } else {
                TitleModel::Suppressed
            },
            None => TitleModel::Suppressed,
        },
{
    match summary {
        Some(s) => {
            let plain = strip_whitespace(s.as_str());
            if plain.as_str().unicode_len() > 0 {
                TitleResult::Title(s)
            } else {
                TitleResult::Suppressed
            }
        },
        None => TitleResult::Suppressed,
    }
}

/// The lines that report `results` for `urls` from `k` on, in the order of
/// the links; a link without result, or with nothing to say, has no line.
pub open spec fn replies_from(urls: Seq<CandidateUrl>, results: Seq<TitleResult>, k: int) -> Seq<
    Seq<u8>,
>
    decreases urls.len() - k,
{
    if k < 0 || k >= urls.len() || k >= results.len() {
        Seq::empty()
    } else {
        match reply_for_model(urls[k].text@, results[k]@) {
            Some(line) => seq![line] + replies_from(urls, results, k + 1),
            None => replies_from(urls, results, k + 1),
        }
    }
}

/// The bytes of each of `lines`.
pub open spec fn line_bytes(lines: Seq<String>) -> Seq<Seq<u8>> {
    lines.map_values(|l: String| encode_utf8(l@))
}

/// Makes the lines of reply for the links of one message, from what was
/// found for each of them. The lines stand in the order of the links, and
/// none of them holds a control character.
pub fn titles_for(urls: &Vec<CandidateUrl>, results: &Vec<TitleResult>) -> (lines: Vec<String>)
    ensures
        line_bytes(lines@) == replies_from(urls@, results@, 0),
        forall|i: int| 0 <= i < lines@.len() ==> free_of_controls(#[trigger] lines@[i]@),
{
    let mut lines: Vec<String> = Vec::new();
    let mut k: usize = 0;
    assert(line_bytes(lines@) =~= Seq::<Seq<u8>>::empty());
    while k < urls.len() && k < results.len()
        invariant
            k <= urls.len(),
            k <= results.len(),
            forall|i: int| 0 <= i < lines@.len() ==> free_of_controls(#[trigger] lines@[i]@),
            line_bytes(lines@) + replies_from(urls@, results@, k as int) == replies_from(
                urls@,
                results@,
                0,
            ),
        decreases urls.len() - k,
    {
        let ghost before = lines@;
        match reply_for(urls[k].text.as_str(), &results[k]) {
            Some(line) => {
                let ghost bytes = encode_utf8(line@);
                lines.push(line);
                assert forall|i: int| 0 <= i < lines@.len() implies free_of_controls(
                    #[trigger] lines@[i]@,
                ) by {
                    if i < before.len() {
                        assert(lines@[i] == before[i]);
                    }
                }
                assert(line_bytes(lines@) =~= line_bytes(before).push(bytes));
                assert(line_bytes(before).push(bytes) + replies_from(urls@, results@, k + 1)
                    =~= line_bytes(before) + (seq![bytes] + replies_from(urls@, results@, k + 1)));
            },
            None => {},
        }
        k += 1;
    }
    assert(line_bytes(lines@) + Seq::<Seq<u8>>::empty() =~= line_bytes(lines@));
    lines
}

} // verus!
