//! What is said about a video of the streaming host: the address of its
//! best stream, and the title of its page.

use vstd::prelude::*;
use crate::dash::{document_events, highest_stream, selection, ManifestError, SelectorModel};

verus! {

/// The words that tell why no stream was chosen.
pub open spec fn error_text(e: ManifestError) -> Seq<char> {
    match e {
        ManifestError::NoRepresentation => "no matching representation found"@,
        ManifestError::Malformed => "manifest is not well-formed"@,
        ManifestError::Undecodable => "address in manifest is not text"@,
    }
}

/// The words that tell why no stream was chosen.
pub fn error_message(e: ManifestError) -> (s: &'static str)
    ensures
        s@ == error_text(e),
{
    match e {
        ManifestError::NoRepresentation => "no matching representation found",
        ManifestError::Malformed => "manifest is not well-formed",
        ManifestError::Undecodable => "address in manifest is not text",
    }
}

/// The address of the page of the video named `id`, with the slash that
/// ends it.
pub open spec fn base_of(id: Seq<char>) -> Seq<char> {
    "https://v.redd.it/"@ + id + "/"@
}

/// The address of the page of a video.
pub fn base_url(id: &str) -> (base: String)
    ensures
        base@ == base_of(id@),
{
    let mut base = String::from_str("https://v.redd.it/");
    base.append(id);
    base.append("/");
    base
}

/// The address of the manifest of a video.
pub fn manifest_url(id: &str) -> (url: String)
    ensures
        url@ == base_of(id@) + "DASHPlaylist.mpd"@,
{
    let mut url = base_url(id);
    url.append("DASHPlaylist.mpd");
    url
}

/// What is said about a video, by what was found: the stream and the
/// title; the stream alone; the title, and why there is no stream; or
/// neither.
pub open spec fn video_text(
    base: Seq<char>,
    title: Option<Seq<char>>,
    stream: Result<Seq<char>, ManifestError>,
) -> Seq<char> {
    match stream {
        Ok(mp4) => match title {
            Some(title) => base + mp4 + " - "@ + title,
            None => "Reddit 'dash' link without title: "@ + base + mp4,
        },
        Err(e) => match title {
            Some(title) => title + " [video link failed: "@ + base + " "@ + error_text(e) + "]"@,
            None => "Reddit 'dash' link mega-fail: "@ + base + " ["@ + error_text(e) + "]"@,
        },
    }
}

/// Puts together what is said about a video whose page is at `base`.
pub fn describe(base: &str, title: Option<&str>, stream: Result<String, ManifestError>) -> (s:
    String)
    ensures
        s@ == video_text(
            base@,
            match title {
                Some(t) => Some(t@),
                None => None,
            },
            match stream {
                Ok(mp4) => Ok(mp4@),
                Err(e) => Err(e),
            },
        ),
{
    match stream {
        Ok(mp4) => match title {
            Some(title) => {
                let mut out = String::from_str(base);
                out.append(mp4.as_str());
                out.append(" - ");
                out.append(title);
                out
            },
            None => {
                let mut out = String::from_str("Reddit 'dash' link without title: ");
                out.append(base);
                out.append(mp4.as_str());
                out
            },
        },
        Err(e) => match title {
            Some(title) => {
                let mut out = String::from_str(title);
                out.append(" [video link failed: ");
                out.append(base);
                out.append(" ");
                out.append(error_message(e));
                out.append("]");
                out
            },
            None => {
                let mut out = String::from_str("Reddit 'dash' link mega-fail: ");
                out.append(base);
                out.append(" [");
                out.append(error_message(e));
                out.append("]");
                out
            },
        },
    }
}

/// Says what was found about the video named `id`. `title` is the title of
/// its page, if one was found, and `playlist` is its manifest.
pub fn video(id: &str, title: Option<&str>, playlist: &str) -> (s: String)
    ensures
        s@ == video_text(
            base_of(id@),
            match title {
                Some(t) => Some(t@),
                None => None,
            },
            selection(SelectorModel::start(), document_events(playlist@)),
        ),
{
    let base = base_url(id);
    let stream = highest_stream(playlist);
    describe(base.as_str(), title, stream)
}

} // verus!
