//! Summaries of videos of the video platform, from what its API answers.

use vstd::prelude::*;
use crate::json::Json;
use crate::text::{decimal, is_decimal, to_chars};
use crate::units::{duration_text, major_duration_unit};

verus! {

/// Why an answer about a video could not be summarised.
#[derive(Clone, Copy, Debug, PartialEq, Eq, Structural)]
pub enum VideoError {
    /// The answer has no member `items`.
    MissingItems,
    /// The list of items is empty, or no list.
    EmptyItems,
    /// The video has no member `snippet`.
    SnippetMissing,
    /// A member that should be a string is missing or is none.
    ExpectedString,
    /// The day of publication is no date and time of RFC 3339.
    BadDate,
    /// The video has no member `contentDetails`.
    NoContentDetails,
    /// The duration is no duration of ISO 8601, or is written too long.
    BadDuration,
}

/// The most digits that a number of a duration may have. Numbers of up to
/// this many digits never count more seconds than 64 bits hold.
pub const MAX_NUMBER_DIGITS: usize = 13;

/// Whether more digits than [`MAX_NUMBER_DIGITS`] stand in a row from `i`
/// on.
pub open spec fn long_number_at(s: Seq<char>, i: int) -> bool {
    0 <= i && i + MAX_NUMBER_DIGITS + 1 <= s.len() && forall|k: int|
        i <= k < i + MAX_NUMBER_DIGITS + 1 ==> is_decimal(#[trigger] s[k])
}

/// Whether a number of more digits than [`MAX_NUMBER_DIGITS`] stands in
/// `s`.
pub open spec fn has_long_number(s: Seq<char>) -> bool {
    exists|i: int| long_number_at(s, i)
}

/// The seconds that `time_parse::duration::parse` reads from a text, `None`
/// where it refuses the text.
pub uninterp spec fn iso8601_seconds(text: Seq<char>) -> Option<u64>;

/// The local day of the date and time that
/// `chrono::DateTime::parse_from_rfc3339` reads from a text, written as
/// year, month and day; `None` where it refuses the text.
pub uninterp spec fn rfc3339_day(text: Seq<char>) -> Option<Seq<char>>;

/// `time_parse::duration::parse` reads a duration such as `PT5M30S`: weeks,
/// days, hours, minutes and seconds, each a number before its letter. Its
/// whole seconds are handed on (`Duration::as_secs`). What it reads
/// depends on the text alone. It multiplies and adds without a check, so
/// texts with a number long enough to count more than 64 bits hold are
/// kept from it.
#[verifier::external_body]
fn parse_duration(text: &str) -> (secs: Option<u64>)
    requires
        !has_long_number(text@),
    ensures
        secs == iso8601_seconds(text@),
{
    time_parse::duration::parse(text).ok().map(|d| d.as_secs())
}

/// `chrono::DateTime::parse_from_rfc3339` reads a date and time with its
/// offset; `DateTime::date_naive` is the day on the calendar at that
/// offset, which is written as `NaiveDate` prints it. What comes out
/// depends on the text alone.
#[verifier::external_body]
fn parse_day(text: &str) -> (day: Option<String>)
    ensures
        match day {
            Some(d) => rfc3339_day(text@) == Some(d@),
            None => rfc3339_day(text@) is None,
        },
{
    chrono::DateTime::parse_from_rfc3339(text).ok().map(|d| d.date_naive().to_string())
}

/// The seconds of a duration as the platform writes it; none where a
/// number of it has more digits than [`MAX_NUMBER_DIGITS`].
pub open spec fn duration_of(text: Seq<char>) -> Option<u64> {
    if has_long_number(text) {
        None
    } else {
        iso8601_seconds(text)
    }
}

/// Whether a number of more digits than [`MAX_NUMBER_DIGITS`] stands in
/// `text`.
pub fn holds_long_number(text: &str) -> (r: bool)
    ensures
        r == has_long_number(text@),
{
    let v = to_chars(text);
    let n = v.len();
    let mut i: usize = 0;
    let mut run: usize = 0;
    while i < n
        invariant
            i <= n,
            n == v.len(),
            v@ == text@,
            run <= MAX_NUMBER_DIGITS,
            run <= i,
            forall|k: int| i - run <= k < i ==> is_decimal(#[trigger] v@[k]),
            i - run > 0 ==> !is_decimal(v@[i - run - 1]),
            forall|w: int| w + MAX_NUMBER_DIGITS + 1 <= i ==> !long_number_at(v@, w),
        decreases n - i,
    {
        if decimal(v[i]) {
            if run == MAX_NUMBER_DIGITS {
                assert(long_number_at(v@, i - MAX_NUMBER_DIGITS));
                return true;
            }
            run += 1;
        } else {
            run = 0;
        }
        i += 1;
        assert forall|w: int| w + MAX_NUMBER_DIGITS + 1 <= i implies !long_number_at(v@, w) by {
            if w + MAX_NUMBER_DIGITS + 1 == i && long_number_at(v@, w) {
                assert(is_decimal(v@[i - 1]));
                assert(is_decimal(v@[i - run - 1]));
            }
        }
    }
    assert forall|w: int| !long_number_at(v@, w) by {}
    false
}

/// Reads a duration as the platform writes it. A text with a number of
/// more digits than [`MAX_NUMBER_DIGITS`] is refused unread.
pub fn duration_seconds(text: &str) -> (secs: Option<u64>)
    ensures
        secs == duration_of(text@),
{
    if holds_long_number(text) {
        None
    } else {
        parse_duration(text)
    }
}

/// The text of a member that has to be a string.
pub open spec fn required_text(value: Option<Json>) -> Result<Seq<char>, VideoError> {
    match value {
        Some(v) => match v.text() {
            Some(t) => Ok(t),
            None => Err(VideoError::ExpectedString),
        },
        None => Err(VideoError::ExpectedString),
    }
}

/// The first item of the answer, which describes the video.
pub open spec fn first_item(resp: Json) -> Result<Json, VideoError> {
    match resp.field("items"@) {
        None => Err(VideoError::MissingItems),
        Some(list) => match list.items() {
            Some(items) => if items.len() > 0 {
                Ok(items[0])
            } else {
                Err(VideoError::EmptyItems)
            },
            None => Err(VideoError::EmptyItems),
        },
    }
}

/// What a summary is made of.
pub struct VideoFacts {
    pub title: Seq<char>,
    pub channel: Seq<char>,
    pub published: Seq<char>,
    pub duration: Seq<char>,
}

/// The members of the answer that the summary is made of, as they stand in
/// it, or the first reason why one of them cannot be had.
pub open spec fn video_facts(resp: Json) -> Result<VideoFacts, VideoError> {
    match first_item(resp) {
        Err(e) => Err(e),
        Ok(data) => match data.field("snippet"@) {
            None => Err(VideoError::SnippetMissing),
            Some(snippet) => match required_text(snippet.field("title"@)) {
                Err(e) => Err(e),
                Ok(title) => match required_text(snippet.field("channelTitle"@)) {
                    Err(e) => Err(e),
                    Ok(channel) => match required_text(snippet.field("publishedAt"@)) {
                        Err(e) => Err(e),
                        Ok(published) => if rfc3339_day(published) is None {
                            Err(VideoError::BadDate)
                        } else {
                            match data.field("contentDetails"@) {
                                None => Err(VideoError::NoContentDetails),
                                Some(details) => match required_text(details.field("duration"@)) {
                                    Err(e) => Err(e),
                                    Ok(duration) => Ok(
                                        VideoFacts { title, channel, published, duration },
                                    ),
                                },
                            }
                        },
                    },
                },
            },
        },
    }
}

/// The summary of a video: its length by the biggest unit, the day it was
/// published, its channel in brackets, and its title.
pub open spec fn described(secs: u64, day: Seq<char>, channel: Seq<char>, title: Seq<char>) -> Seq<
    char,
> {
    duration_text(secs as nat) + " "@ + day + " \u{1364} ["@ + channel + "] \u{1364} "@ + title
}

/// The summary of the answer to a request for one video.
pub open spec fn video_summary(resp: Json) -> Result<Seq<char>, VideoError> {
    match video_facts(resp) {
        Err(e) => Err(e),
        Ok(facts) => match duration_of(facts.duration) {
            None => Err(VideoError::BadDuration),
            Some(secs) => Ok(
                described(secs, rfc3339_day(facts.published)->Some_0, facts.channel, facts.title),
            ),
        },
    }
}

/// The text of a member that has to be a string.
pub fn string(value: Option<&Json>) -> (r: Result<&str, VideoError>)
    ensures
        match r {
            Ok(s) => required_text(
                match value {
                    Some(v) => Some(*v),
                    None => None,
                },
            ) == Ok::<Seq<char>, VideoError>(s@),
            Err(e) => required_text(
                match value {
                    Some(v) => Some(*v),
                    None => None,
                },
            ) == Err::<Seq<char>, VideoError>(e),
        },
{
    match value {
        Some(v) => match v.as_str() {
            Some(s) => Ok(s),
            None => Err(VideoError::ExpectedString),
        },
        None => Err(VideoError::ExpectedString),
    }
}

/// Puts the parts of a summary together.
pub fn describe(secs: u64, day: &str, channel: &str, title: &str) -> (s: String)
    ensures
        s@ == described(secs, day@, channel@, title@),
{
    let mut out = major_duration_unit(secs);
    out.append(" ");
    out.append(day);
    out.append(" \u{1364} [");
    out.append(channel);
    out.append("] \u{1364} ");
    out.append(title);
    out
}

/// Summarises the answer to a request for one video.
pub fn video(resp: &Json) -> (r: Result<String, VideoError>)
    ensures
        match r {
            Ok(s) => video_summary(*resp) == Ok::<Seq<char>, VideoError>(s@),
            Err(e) => video_summary(*resp) == Err::<Seq<char>, VideoError>(e),
        },
{
    let data = match resp.get("items") {
        None => {
            return Err(VideoError::MissingItems);
        },
        Some(list) => match list.as_array() {
            Some(items) => if items.len() > 0 {
                &items[0]
            } else {
                return Err(VideoError::EmptyItems);
            },
            None => {
                return Err(VideoError::EmptyItems);
            },
        },
    };
    let snippet = match data.get("snippet") {
        None => {
            return Err(VideoError::SnippetMissing);
        },
        Some(snippet) => snippet,
    };
    let title = match string(snippet.get("title")) {
        Ok(t) => t,
        Err(e) => {
            return Err(e);
        },
    };
    let channel = match string(snippet.get("channelTitle")) {
        Ok(t) => t,
        Err(e) => {
            return Err(e);
        },
    };
    let published = match string(snippet.get("publishedAt")) {
        Ok(t) => t,
        Err(e) => {
            return Err(e);
        },
    };
    let day = match parse_day(published) {
        Some(day) => day,
        None => {
            return Err(VideoError::BadDate);
        },
    };
    let details = match data.get("contentDetails") {
        None => {
            return Err(VideoError::NoContentDetails);
        },
        Some(details) => details,
    };
    let duration = match string(details.get("duration")) {
        Ok(t) => t,
        Err(e) => {
            return Err(e);
        },
    };
    let secs = match duration_seconds(duration) {
        Some(secs) => secs,
        None => {
            return Err(VideoError::BadDuration);
        },
    };
    Ok(describe(secs, day.as_str(), channel, title))
}

} // verus!
