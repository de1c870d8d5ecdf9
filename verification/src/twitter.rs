//! Summaries of short posts, from what the API of the host answers.

use vstd::prelude::*;
use crate::json::Json;
use crate::sanitize::{cleaned, cleanup_newlines};

verus! {

/// Why an answer about a post could not be summarised.
#[derive(Clone, Copy, Debug, PartialEq, Eq, Structural)]
pub enum TweetError {
    /// The answer has no member `full_text`.
    MissingText,
    /// The text of the post is no string.
    TextNotText,
    /// The answer has no member `user`.
    NoUser,
    /// The author of the post is no object.
    UserNotObject,
    /// The author has no name.
    UserLacksName,
    /// The name of the author is no string.
    NameNotText,
}

/// The text of the post, or why it cannot be had.
pub open spec fn tweet_text(resp: Json) -> Result<Seq<char>, TweetError> {
    match resp.field("full_text"@) {
        None => Err(TweetError::MissingText),
        Some(v) => match v.text() {
            None => Err(TweetError::TextNotText),
            Some(t) => Ok(t),
        },
    }
}

/// The name of the author of the post, or why it cannot be had.
pub open spec fn tweet_author(resp: Json) -> Result<Seq<char>, TweetError> {
    match resp.field("user"@) {
        None => Err(TweetError::NoUser),
        Some(user) => if !(user is Object) {
            Err(TweetError::UserNotObject)
        } else {
            match user.field("name"@) {
                None => Err(TweetError::UserLacksName),
                Some(v) => match v.text() {
                    None => Err(TweetError::NameNotText),
                    Some(name) => Ok(name),
                },
            }
        },
    }
}

/// The summary of a post: the name of its author, a dash, and its text on
/// one line.
pub open spec fn tweet_summary(resp: Json) -> Result<Seq<char>, TweetError> {
    match tweet_text(resp) {
        Err(e) => Err(e),
        Ok(text) => match tweet_author(resp) {
            Err(e) => Err(e),
            Ok(name) => Ok(name + " \u{2014} "@ + cleaned(text)),
        },
    }
}

/// Summarises the answer to a request for one post.
pub fn render_tweet(resp: &Json) -> (r: Result<String, TweetError>)
    ensures
        match r {
            Ok(s) => tweet_summary(*resp) == Ok::<Seq<char>, TweetError>(s@),
            Err(e) => tweet_summary(*resp) == Err::<Seq<char>, TweetError>(e),
        },
{
    let raw = match resp.get("full_text") {
        None => {
            return Err(TweetError::MissingText);
        },
        Some(v) => match v.as_str() {
            None => {
                return Err(TweetError::TextNotText);
            },
            Some(t) => t,
        },
    };
    let text = cleanup_newlines(raw);
    let user = match resp.get("user") {
        None => {
            return Err(TweetError::NoUser);
        },
        Some(user) => user,
    };
    match user {
        Json::Object(_) => {},
        _ => {
            return Err(TweetError::UserNotObject);
        },
    }
    let name = match user.get("name") {
        None => {
            return Err(TweetError::UserLacksName);
        },
        Some(v) => match v.as_str() {
            None => {
                return Err(TweetError::NameNotText);
            },
            Some(name) => name,
        },
    };
    let mut out = String::from_str(name);
    out.append(" \u{2014} ");
    out.append(text.as_str());
    Ok(out)
}

} // verus!
