//! Finding the title of a web page in the first bytes of it.
//!
//! The page is not parsed. The bytes are searched for the opening tag of a
//! title, and the title is what stands between the end of that tag and the
//! next tag. Each piece that may be missing has an error of its own.

use vstd::prelude::*;
use vstd::slice::slice_subrange;
use crate::sanitize::{strip_whitespace, stripped};
use crate::text::ascii_bytes;
use crate::units::{show_size, size_text};
use crate::webs::{errors, is_success};

verus! {

/// Why a page has no title that could be read.
#[derive(Clone, Copy, Debug, PartialEq, Eq, Structural)]
pub enum TitleError {
    /// The bytes hold no `<title`, in any mix of upper and lower case.
    NoTitleTag,
    /// No `>` follows the `<title`.
    Unterminated,
    /// The `>` that ends the tag is the last byte that was read.
    AtWindowEnd,
    /// No `<` follows the tag.
    Unclosed,
}

/// The lower-case form of an ASCII letter; any other byte as it is.
pub open spec fn lowered(b: u8) -> u8 {
    if 0x41 <= b && b <= 0x5a {
        (b + 0x20) as u8
    } else {
        b
    }
}

/// The opening of a title tag, in lower case.
pub open spec fn title_tag() -> Seq<u8> {
    ascii_bytes("<title"@)
}

/// Whether the opening of a title tag stands at `i`, in any mix of upper
/// and lower case.
pub open spec fn tag_at(buf: Seq<u8>, i: int) -> bool {
    0 <= i && i + 6 <= buf.len() && forall|k: int|
        0 <= k < 6 ==> lowered(#[trigger] buf[i + k]) == title_tag()[k]
}

/// Whether the opening of a title tag stands anywhere in `buf`.
pub open spec fn has_title_tag(buf: Seq<u8>) -> bool {
    exists|i: int| tag_at(buf, i)
}

/// The first place at or after `from` where the opening of a title tag
/// stands; the length of `buf` where it stands nowhere.
pub open spec fn first_tag(buf: Seq<u8>, from: int) -> int
    decreases buf.len() - from,
{
    if from < 0 || from + 6 > buf.len() {
        buf.len() as int
    } else if tag_at(buf, from) {
        from
    } else {
        first_tag(buf, from + 1)
    }
}

/// The first place at or after `from` where the byte `b` stands; the length
/// of `buf` where it stands nowhere.
pub open spec fn byte_position(buf: Seq<u8>, b: u8, from: int) -> int
    decreases buf.len() - from,
{
    if from < 0 || from >= buf.len() {
        buf.len() as int
    } else if buf[from] == b {
        from
    } else {
        byte_position(buf, b, from + 1)
    }
}

/// Where the text of the title begins and ends: behind the first `>` that
/// follows the first `<title`, and before the next `<`.
pub open spec fn title_span(buf: Seq<u8>) -> Result<(int, int), TitleError> {
    let tag = first_tag(buf, 0);
    if tag >= buf.len() {
        Err(TitleError::NoTitleTag)
    } else {
        let close = byte_position(buf, 0x3e, tag + 6);
        if close >= buf.len() {
            Err(TitleError::Unterminated)
        } else if close + 1 == buf.len() {
            Err(TitleError::AtWindowEnd)
        } else {
            let open = byte_position(buf, 0x3c, close + 1);
            if open >= buf.len() {
                Err(TitleError::Unclosed)
            } else {
                Ok((close + 1, open))
            }
        }
    }
}

/// The first tag stands where a tag stands, and none stands before it.
pub proof fn lemma_first_tag(buf: Seq<u8>, from: int)
    requires
        0 <= from,
    ensures
        first_tag(buf, from) < buf.len() ==> from <= first_tag(buf, from) && tag_at(
            buf,
            first_tag(buf, from),
        ),
        first_tag(buf, from) >= buf.len() ==> first_tag(buf, from) == buf.len(),
        forall|i: int| from <= i < first_tag(buf, from) ==> !tag_at(buf, i),
    decreases buf.len() - from,
{
    if from + 6 <= buf.len() && !tag_at(buf, from) {
        lemma_first_tag(buf, from + 1);
    }
}

proof fn lemma_byte_position_is(buf: Seq<u8>, b: u8, from: int, n: int)
    requires
        0 <= from <= n <= buf.len(),
        forall|i: int| from <= i < n ==> #[trigger] buf[i] != b,
        n < buf.len() ==> buf[n] == b,
    ensures
        byte_position(buf, b, from) == n,
    decreases n - from,
{
    if from < n {
        lemma_byte_position_is(buf, b, from + 1, n);
    }
}

proof fn lemma_first_tag_is(buf: Seq<u8>, from: int, n: int)
    requires
        0 <= from <= n,
        forall|i: int| from <= i < n ==> !tag_at(buf, i),
        tag_at(buf, n) || n + 6 > buf.len(),
    ensures
        first_tag(buf, from) == (if tag_at(buf, n) {
            n
        } else {
            buf.len() as int
        }),
    decreases n - from,
{
    if from < n {
        if from + 6 <= buf.len() {
            lemma_first_tag_is(buf, from + 1, n);
        }
    }
}

/// A page whose bytes hold no `<title` has no title, and the reason given
/// is that the tag is missing.
pub proof fn law_no_title_without_tag(buf: Seq<u8>)
    requires
        !has_title_tag(buf),
    ensures
        title_span(buf) == Err::<(int, int), TitleError>(TitleError::NoTitleTag),
{
    lemma_first_tag(buf, 0);
}

/// The lower-case form of an ASCII letter; any other byte as it is.
fn to_lower(b: u8) -> (r: u8)
    ensures
        r == lowered(b),
{
    if 0x41 <= b && b <= 0x5a {
        b + 0x20
    } else {
        b
    }
}

/// Whether the opening of a title tag stands at `i`.
fn is_tag_at(buf: &[u8], i: usize) -> (r: bool)
    requires
        i + 6 <= buf.len(),
    ensures
        r == tag_at(buf@, i as int),
{
    proof {
        reveal_strlit("<title");
    }
    let r = to_lower(buf[i]) == 0x3c && to_lower(buf[i + 1]) == 0x74 && to_lower(buf[i + 2])
        == 0x69 && to_lower(buf[i + 3]) == 0x74 && to_lower(buf[i + 4]) == 0x6c && to_lower(
        buf[i + 5],
    ) == 0x65;
    proof {
        let tag = title_tag();
        assert(tag.len() == 6);
        assert(tag[0] == 0x3c && tag[1] == 0x74 && tag[2] == 0x69 && tag[3] == 0x74 && tag[4]
            == 0x6c && tag[5] == 0x65);
        if r {
            assert forall|k: int| 0 <= k < 6 implies lowered(#[trigger] buf@[i + k])
                == tag[k] by {
                if k == 0 {
                } else if k == 1 {
                } else if k == 2 {
                } else if k == 3 {
                } else if k == 4 {
                } else {
                }
            }
        } else {
            if tag_at(buf@, i as int) {
                assert(lowered(buf@[i + 0]) == tag[0]);
                assert(lowered(buf@[i + 1]) == tag[1]);
                assert(lowered(buf@[i + 2]) == tag[2]);
                assert(lowered(buf@[i + 3]) == tag[3]);
                assert(lowered(buf@[i + 4]) == tag[4]);
                assert(lowered(buf@[i + 5]) == tag[5]);
            }
        }
    }
    r
}

/// The first place at or after `from` where the byte `b` stands.
pub(crate) fn find_byte(buf: &[u8], b: u8, from: usize) -> (p: usize)
    requires
        from <= buf.len(),
    ensures
        p == byte_position(buf@, b, from as int),
        from <= p <= buf.len(),
{
    let mut p: usize = from;
    while p < buf.len() && buf[p] != b
        invariant
            from <= p <= buf.len(),
            forall|i: int| from <= i < p ==> #[trigger] buf@[i] != b,
        decreases buf.len() - p,
    {
        p += 1;
    }
    proof {
        lemma_byte_position_is(buf@, b, from as int, p as int);
    }
    p
}

/// Finds where the text of the title stands in the bytes of a page.
pub fn find_title(buf: &[u8]) -> (r: Result<(usize, usize), TitleError>)
    ensures
        match r {
            Ok((from, to)) => title_span(buf@) == Ok::<(int, int), TitleError>(
                (from as int, to as int),
            ) && from <= to < buf.len(),
            Err(e) => title_span(buf@) == Err::<(int, int), TitleError>(e),
        },
        !has_title_tag(buf@) ==> r == Err::<(usize, usize), TitleError>(TitleError::NoTitleTag),
{
    let n = buf.len();
    let mut tag: usize = 0;
    let mut found = false;
    while n >= 6 && tag <= n - 6
        invariant_except_break
            !found,
        invariant
            n == buf.len(),
            forall|i: int| 0 <= i < tag ==> !tag_at(buf@, i),
        ensures
            n == buf.len(),
            forall|i: int| 0 <= i < tag ==> !tag_at(buf@, i),
            found ==> tag_at(buf@, tag as int),
            !found ==> tag + 6 > n,
        decreases n - tag,
    {
        if is_tag_at(buf, tag) {
            found = true;
            break ;
        }
        tag += 1;
    }
    proof {
        lemma_first_tag_is(buf@, 0, tag as int);
        if !has_title_tag(buf@) {
            assert(!tag_at(buf@, tag as int));
        }
    }
    if !found {
        return Err(TitleError::NoTitleTag);
    }
    let close = find_byte(buf, 0x3e, tag + 6);
    if close >= n {
        return Err(TitleError::Unterminated);
    }
    if close + 1 == n {
        return Err(TitleError::AtWindowEnd);
    }
    let open = find_byte(buf, 0x3c, close + 1);
    if open >= n {
        return Err(TitleError::Unclosed);
    }
    Ok((close + 1, open))
}

/// The text that `String::from_utf8_lossy` reads from bytes.
pub uninterp spec fn utf8_lossy(bytes: Seq<u8>) -> Seq<char>;

/// What `htmlescape::decode_html` makes of a text, `None` where it refuses
/// the text.
pub uninterp spec fn html_decoded(text: Seq<char>) -> Option<Seq<char>>;

/// `String::from_utf8_lossy` of the standard library reads bytes as UTF-8
/// and puts U+FFFD where they are not. What it gives depends on the bytes
/// alone.
#[verifier::external_body]
pub(crate) fn lossy_text(bytes: &[u8]) -> (text: String)
    ensures
        text@ == utf8_lossy(bytes@),
{
    String::from_utf8_lossy(bytes).into_owned()
}

/// `htmlescape::decode_html` puts the character in place of every named or
/// numeric character reference, and refuses a text in which a reference is
/// unknown, malformed or unfinished. What it gives depends on the text
/// alone.
#[verifier::external_body]
fn decode_entities(text: &str) -> (decoded: Option<String>)
    ensures
        match decoded {
            Some(d) => html_decoded(text@) == Some(d@),
            None => html_decoded(text@) is None,
        },
{
    htmlescape::decode_html(text).ok()
}

/// The title that the raw text `raw` stands for: the text with its
/// character references resolved, or the raw text where they cannot be.
pub open spec fn title_text(raw: Seq<char>) -> Seq<char> {
    match html_decoded(raw) {
        Some(decoded) => decoded,
        None => raw,
    }
}

/// The title of the page whose first bytes are `buf`.
pub open spec fn page_title(buf: Seq<u8>) -> Result<Seq<char>, TitleError> {
    match title_span(buf) {
        Ok((from, to)) => Ok(title_text(utf8_lossy(buf.subrange(from, to)))),
        Err(e) => Err(e),
    }
}

/// Chooses between the raw text of a title and what came of resolving its
/// character references.
pub fn resolve_title(raw: String, decoded: Option<String>) -> (title: String)
    ensures
        title@ == match decoded {
            Some(d) => d@,
            None => raw@,
        },
{
    match decoded {
        Some(d) => d,
        None => raw,
    }
}

/// Reads the title of a page from its first bytes.
pub fn parse_html(buf: &[u8]) -> (r: Result<String, TitleError>)
    ensures
        match r {
            Ok(title) => page_title(buf@) == Ok::<Seq<char>, TitleError>(title@),
            Err(e) => page_title(buf@) == Err::<Seq<char>, TitleError>(e),
        },
        !has_title_tag(buf@) ==> r == Err::<String, TitleError>(TitleError::NoTitleTag),
{
    match find_title(buf) {
        Ok((from, to)) => {
            let raw = lossy_text(slice_subrange(buf, from, to));
            let decoded = decode_entities(raw.as_str());
            Ok(resolve_title(raw, decoded))
        },
        Err(e) => Err(e),
    }
}

/// How many bytes of a page are read at most.
pub const PREVIEW_BYTES: usize = 262144;

/// Why a page is reported without a title.
#[derive(Clone, Copy, Debug, PartialEq, Eq, Structural)]
pub enum NoTitleReason {
    /// No title could be found in the bytes.
    Missing,
    /// A title was found, and it holds nothing but blank characters.
    Empty,
}

/// What came of looking for the title of one link.
#[derive(Debug, PartialEq, Eq)]
pub enum TitleResult {
    /// The title, as it was found.
    Title(String),
    /// No title; the size and the type of what was fetched, as far as they
    /// are known, are reported in its place.
    NoTitle { reason: NoTitleReason, observed_size: Option<u64>, content_type: Option<String> },
    /// Nothing is to be said about the link.
    Suppressed,
}

/// A result, as contracts speak of it.
pub enum TitleModel {
    Title(Seq<char>),
    NoTitle { reason: NoTitleReason, observed_size: Option<u64>, content_type: Option<Seq<char>> },
    Suppressed,
}

impl View for TitleResult {
    type V = TitleModel;

    open spec fn view(&self) -> TitleModel {
        match *self {
            TitleResult::Title(t) => TitleModel::Title(t@),
            TitleResult::NoTitle { reason, observed_size, content_type } => TitleModel::NoTitle {
                reason,
                observed_size,
                content_type: match content_type {
                    Some(c) => Some(c@),
                    None => None,
                },
            },
            TitleResult::Suppressed => TitleModel::Suppressed,
        }
    }
}

/// The size of a page of which `len` bytes were read: the number of bytes
/// where the page ended within the window, else the length that the server
/// declared, if it declared one.
pub open spec fn observed_size(len: nat, declared: Option<u64>) -> Option<u64> {
    if len < PREVIEW_BYTES {
        Some(len as u64)
    } else {
        declared
    }
}

/// What is to be said about a page whose first bytes are `buf`.
pub open spec fn page_result(
    buf: Seq<u8>,
    declared: Option<u64>,
    content_type: Option<Seq<char>>,
) -> TitleModel {
    match page_title(buf) {
        Ok(title) => if stripped(title).len() > 0 {
            TitleModel::Title(title)
        } else {
            TitleModel::NoTitle {
                reason: NoTitleReason::Empty,
                observed_size: observed_size(buf.len(), declared),
                content_type,
            }
        },
        Err(_) => TitleModel::NoTitle {
            reason: NoTitleReason::Missing,
            observed_size: observed_size(buf.len(), declared),
            content_type,
        },
    }
}

/// The sentence that reports the type of a page, if it is known.
pub open spec fn type_note(content_type: Option<Seq<char>>) -> Seq<char> {
    match content_type {
        Some(c) => " Content-type: "@ + c + "."@,
        None => Seq::empty(),
    }
}

/// The sentence that reports the size of a page, if it is known.
pub open spec fn size_note(size: Option<u64>) -> Seq<char> {
    match size {
        Some(n) => " Size: "@ + size_text(n as nat) + "."@,
        None => Seq::empty(),
    }
}

/// The text that stands for a result in a reply.
pub open spec fn result_text(r: TitleModel) -> Seq<char> {
    match r {
        TitleModel::Title(t) => t,
        TitleModel::NoTitle { reason, observed_size, content_type } => (if reason
            == NoTitleReason::Missing {
            "No title found."@
        } else {
            "Empty title found."@
        }) + type_note(content_type) + size_note(observed_size),
        TitleModel::Suppressed => Seq::empty(),
    }
}

/// Says what is known about a page: its title, or else why it has none,
/// with its type and size. `body` holds the bytes that were read, at most
/// [`PREVIEW_BYTES`] of them; `declared_length` and `content_type` are what
/// the headers of the answer said.
pub fn process(body: &[u8], declared_length: Option<u64>, content_type: Option<&str>) -> (r:
    TitleResult)
    ensures
        r@ == page_result(
            body@,
            declared_length,
            match content_type {
                Some(c) => Some(c@),
                None => None,
            },
        ),
        !has_title_tag(body@) ==> r@ is NoTitle && r@->reason == NoTitleReason::Missing,
{
    let reason = match parse_html(body) {
        Ok(title) => {
            let plain = strip_whitespace(title.as_str());
            if plain.as_str().unicode_len() > 0 {
                return TitleResult::Title(title);
            }
            NoTitleReason::Empty
        },
        Err(_) => NoTitleReason::Missing,
    };
    let observed_size = if body.len() < PREVIEW_BYTES {
        Some(body.len() as u64)
    } else {
        declared_length
    };
    let content_type = match content_type {
        Some(c) => Some(String::from_str(c)),
        None => None,
    };
    TitleResult::NoTitle { reason, observed_size, content_type }
}

/// What is to be said about the answer to the request for a page: what its
/// first bytes say where the status tells of success, and else that no
/// title was found, since only answers of success are read.
pub open spec fn outcome_of(
    status: u16,
    buf: Seq<u8>,
    declared: Option<u64>,
    content_type: Option<Seq<char>>,
) -> TitleModel {
    if is_success(status) {
        page_result(buf, declared, content_type)
    } else {
        TitleModel::NoTitle {
            reason: NoTitleReason::Missing,
            observed_size: observed_size(buf.len(), declared),
            content_type,
        }
    }
}

/// Says what is known about the answer to the request for a page. The
/// bytes of an answer whose status does not tell of success are not
/// searched for a title.
pub fn page_outcome(
    status: u16,
    body: &[u8],
    declared_length: Option<u64>,
    content_type: Option<&str>,
) -> (r: TitleResult)
    ensures
        r@ == outcome_of(
            status,
            body@,
            declared_length,
            match content_type {
                Some(c) => Some(c@),
                None => None,
            },
        ),
{
    match errors(status) {
        Ok(_) => process(body, declared_length, content_type),
        Err(_) => {
            let observed_size = if body.len() < PREVIEW_BYTES {
                Some(body.len() as u64)
            } else {
                declared_length
            };
            let content_type = match content_type {
                Some(c) => Some(String::from_str(c)),
                None => None,
            };
            TitleResult::NoTitle { reason: NoTitleReason::Missing, observed_size, content_type }
        },
    }
}

impl TitleResult {
    /// The text that stands for the result in a reply: the title, or the
    /// report that there is none.
    pub fn text(&self) -> (s: String)
        ensures
            s@ == result_text(self@),
    {
        match self {
            TitleResult::Title(t) => t.clone(),
            TitleResult::NoTitle { reason, observed_size, content_type } => {
                let mut out = match reason {
                    NoTitleReason::Missing => String::from_str("No title found."),
                    NoTitleReason::Empty => String::from_str("Empty title found."),
                };
                let ghost head = out@;
                match content_type {
                    Some(c) => {
                        out.append(" Content-type: ");
                        out.append(c.as_str());
                        out.append(".");
                        assert(out@ =~= head + type_note(Some(c@)));
                    },
                    None => {
                        assert(out@ =~= head + type_note(None));
                    },
                }
                let ghost middle = out@;
                match observed_size {
                    Some(n) => {
                        out.append(" Size: ");
                        let size = show_size(*n);
                        out.append(size.as_str());
                        out.append(".");
                        assert(out@ =~= middle + size_note(Some(*n)));
                    },
                    None => {
                        assert(out@ =~= middle + size_note(None));
                    },
                }
                out
            },
            TitleResult::Suppressed => String::new(),
        }
    }
}

} // verus!
