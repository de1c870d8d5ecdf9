//! Summaries of tracks of the music service, from what its API answers.

use vstd::prelude::*;
use crate::text::{from_chars, range_is, to_chars};
use crate::units::{duration_text, major_duration_unit};

verus! {

/// A track as the service describes it, as far as it is read here.
pub struct SpotifyTrack {
    pub album: SpotifyAlbum,
    pub artists: Vec<SpotifyArtist>,
    pub duration_ms: u64,
    pub name: String,
    pub preview_url: Option<String>,
    pub disc_number: u64,
    pub track_number: u64,
}

/// The album of a track.
pub struct SpotifyAlbum {
    pub artists: Vec<SpotifyArtist>,
    pub name: String,
    /// The day of release, such as `2020-05-22`.
    pub release_date: String,
    pub total_tracks: u64,
}

/// One artist of a track or album.
pub struct SpotifyArtist {
    pub name: String,
}

/// Why a track could not be summarised.
#[derive(Clone, Copy, Debug, PartialEq, Eq, Structural)]
pub enum SpotifyError {
    /// The address of the preview still names a client after one client
    /// identifier was taken out of it.
    ClientIdRemains,
}

/// The names of `artists`, with a comma and a space between two of them.
pub open spec fn joined_names(artists: Seq<SpotifyArtist>) -> Seq<char>
    decreases artists.len(),
{
    if artists.len() == 0 {
        Seq::empty()
    } else if artists.len() == 1 {
        artists[0].name@
    } else {
        joined_names(artists.drop_last()) + ", "@ + artists.last().name@
    }
}

/// The names of the artists of a track in one line.
pub fn artist_names(artists: &Vec<SpotifyArtist>) -> (s: String)
    ensures
        s@ == joined_names(artists@),
{
    let mut out = String::new();
    let mut i: usize = 0;
    assert(artists@.take(0) =~= Seq::<SpotifyArtist>::empty());
    while i < artists.len()
        invariant
            i <= artists.len(),
            out@ == joined_names(artists@.take(i as int)),
        decreases artists.len() - i,
    {
        proof {
            assert(artists@.take(i + 1).drop_last() =~= artists@.take(i as int));
            assert(artists@.take(i + 1).last() == artists@[i as int]);
        }
        if i > 0 {
            out.append(", ");
        } else {
            assert(out@ + artists@[0].name@ =~= artists@[0].name@);
        }
        out.append(artists[i].name.as_str());
        i += 1;
    }
    assert(artists@.take(artists@.len() as int) =~= artists@);
    out
}

/// Whether `c` is a digit of a lower-case hexadecimal numeral.
pub open spec fn is_hex_lower(c: char) -> bool {
    let n = c as int;
    (0x30 <= n && n <= 0x39) || (0x61 <= n && n <= 0x66)
}

/// The key that names the client in the address of a preview.
pub open spec fn cid_key() -> Seq<char> {
    "cid="@
}

/// Whether the key that names the client stands at `i`.
pub open spec fn key_at(s: Seq<char>, i: int) -> bool {
    0 <= i && i + 4 <= s.len() && s.subrange(i, i + 4) == cid_key()
}

/// Where the run of hexadecimal digits that begins at `i` ends.
pub open spec fn hex_end(s: Seq<char>, i: int) -> int
    decreases s.len() - i,
{
    if 0 <= i < s.len() && is_hex_lower(s[i]) {
        hex_end(s, i + 1)
    } else {
        i
    }
}

/// Whether a client identifier stands at `i`: the key and at least 30
/// hexadecimal digits.
pub open spec fn cid_at(s: Seq<char>, i: int) -> bool {
    key_at(s, i) && hex_end(s, i + 4) - (i + 4) >= 30
}

/// Where the client identifier that stands at `i` ends: behind its digits,
/// of which it takes 34 at most.
pub open spec fn cid_end(s: Seq<char>, i: int) -> int {
    if hex_end(s, i + 4) - (i + 4) > 34 {
        i + 38
    } else {
        hex_end(s, i + 4)
    }
}

/// The first place at or after `from` where a client identifier stands; the
/// length of `s` where there is none.
pub open spec fn first_cid(s: Seq<char>, from: int) -> int
    decreases s.len() - from,
{
    if from < 0 || from >= s.len() {
        s.len() as int
    } else if cid_at(s, from) {
        from
    } else {
        first_cid(s, from + 1)
    }
}

/// `s` without its first client identifier.
pub open spec fn without_cid(s: Seq<char>) -> Seq<char> {
    let i = first_cid(s, 0);
    if i >= s.len() {
        s
    } else {
        s.take(i) + s.skip(cid_end(s, i))
    }
}

/// Whether the key that names the client stands anywhere in `s`.
pub open spec fn mentions_client(s: Seq<char>) -> bool {
    exists|i: int| key_at(s, i)
}

/// The address of a preview as it is shown: without its client identifier,
/// and refused where it names a client even then.
pub open spec fn shown_url(s: Seq<char>) -> Result<Seq<char>, SpotifyError> {
    if mentions_client(without_cid(s)) {
        Err(SpotifyError::ClientIdRemains)
    } else {
        Ok(without_cid(s))
    }
}

proof fn lemma_first_cid_is(s: Seq<char>, from: int, n: int)
    requires
        0 <= from <= n <= s.len(),
        forall|i: int| from <= i < n ==> !cid_at(s, i),
        n < s.len() ==> cid_at(s, n),
    ensures
        first_cid(s, from) == n,
    decreases n - from,
{
    if from < n {
        lemma_first_cid_is(s, from + 1, n);
    }
}

fn hex_lower(c: char) -> (r: bool)
    ensures
        r == is_hex_lower(c),
{
    let n: u32 = c as u32;
    (0x30 <= n && n <= 0x39) || (0x61 <= n && n <= 0x66)
}

/// Where the run of hexadecimal digits that begins at `i` ends.
fn find_hex_end(v: &Vec<char>, i: usize) -> (e: usize)
    requires
        i <= v.len(),
    ensures
        e == hex_end(v@, i as int),
        i <= e <= v.len(),
{
    let mut e: usize = i;
    while e < v.len() && hex_lower(v[e])
        invariant
            i <= e <= v.len(),
            hex_end(v@, e as int) == hex_end(v@, i as int),
        decreases v.len() - e,
    {
        e += 1;
    }
    e
}

/// Whether the key that names the client stands anywhere in `v`.
fn names_client(v: &Vec<char>) -> (r: bool)
    ensures
        r == mentions_client(v@),
{
    if v.len() < 4 {
        assert forall|i: int| !key_at(v@, i) by {}
        return false;
    }
    let mut i: usize = 0;
    while i <= v.len() - 4
        invariant
            v.len() >= 4,
            i <= v.len() - 3,
            forall|j: int| 0 <= j < i ==> !key_at(v@, j),
        decreases v.len() - i,
    {
        if range_is(v, i, i + 4, "cid=") {
            assert(key_at(v@, i as int));
            return true;
        }
        i += 1;
    }
    assert forall|j: int| !key_at(v@, j) by {}
    false
}

/// Takes the client identifier out of the address of a preview.
pub fn strip_url(url: &str) -> (r: Result<String, SpotifyError>)
    ensures
        match r {
            Ok(s) => shown_url(url@) == Ok::<Seq<char>, SpotifyError>(s@),
            Err(e) => shown_url(url@) == Err::<Seq<char>, SpotifyError>(e),
        },
{
    let v = to_chars(url);
    let n = v.len();
    let mut i: usize = 0;
    let mut end: usize = 0;
    let mut found = false;
    while i < n
        invariant_except_break
            !found,
        invariant
            n == v.len(),
            i <= n,
            forall|j: int| 0 <= j < i ==> !cid_at(v@, j),
        ensures
            i <= n,
            forall|j: int| 0 <= j < i ==> !cid_at(v@, j),
            found ==> i < n && cid_at(v@, i as int) && end == cid_end(v@, i as int) && i <= end
                <= n,
            !found ==> i == n,
        decreases n - i,
    {
        if n - i >= 4 && range_is(&v, i, i + 4, "cid=") {
            let e = find_hex_end(&v, i + 4);
            if e - (i + 4) >= 30 {
                end = if e - (i + 4) > 34 {
                    i + 38
                } else {
                    e
                };
                found = true;
                break ;
            }
        }
        i += 1;
    }
    proof {
        lemma_first_cid_is(v@, 0, i as int);
    }
    let mut w: Vec<char> = Vec::new();
    if found {
        let mut k: usize = 0;
        while k < i
            invariant
                k <= i <= end <= n,
                n == v.len(),
                w@ == v@.take(k as int),
            decreases i - k,
        {
            w.push(v[k]);
            assert(w@ =~= v@.take(k + 1));
            k += 1;
        }
        let mut k: usize = end;
        while k < n
            invariant
                i <= end <= k <= n,
                n == v.len(),
                w@ == v@.take(i as int) + v@.subrange(end as int, k as int),
            decreases n - k,
        {
            w.push(v[k]);
            assert(w@ =~= v@.take(i as int) + v@.subrange(end as int, k + 1));
            k += 1;
        }
        assert(v@.subrange(end as int, n as int) =~= v@.skip(end as int));
    } else {
        w = v;
    }
    assert(w@ == without_cid(url@));
    if names_client(&w) {
        Err(SpotifyError::ClientIdRemains)
    } else {
        Ok(from_chars(&w))
    }
}

/// The summary of a track without the address of its preview: its length
/// by the biggest unit, the day of its release, its artists and its name.
pub open spec fn track_head(track: SpotifyTrack) -> Seq<char> {
    duration_text((track.duration_ms / 1000) as nat) + " "@ + track.album.release_date@ + " "@
        + joined_names(track.artists@) + " - "@ + track.name@
}

/// The summary of a track, with the address of its preview where it has
/// one.
pub open spec fn track_summary(track: SpotifyTrack) -> Result<Seq<char>, SpotifyError> {
    match track.preview_url {
        None => Ok(track_head(track)),
        Some(url) => match shown_url(url@) {
            Ok(shown) => Ok(track_head(track) + " - "@ + shown),
            Err(e) => Err(e),
        },
    }
}

/// Summarises a track.
pub fn render_track(track: &SpotifyTrack) -> (r: Result<String, SpotifyError>)
    ensures
        match r {
            Ok(s) => track_summary(*track) == Ok::<Seq<char>, SpotifyError>(s@),
            Err(e) => track_summary(*track) == Err::<Seq<char>, SpotifyError>(e),
        },
{
    let mut msg = major_duration_unit(track.duration_ms / 1000);
    msg.append(" ");
    msg.append(track.album.release_date.as_str());
    msg.append(" ");
    let names = artist_names(&track.artists);
    msg.append(names.as_str());
    msg.append(" - ");
    msg.append(track.name.as_str());
    match &track.preview_url {
        None => Ok(msg),
        Some(url) => match strip_url(url.as_str()) {
            Ok(shown) => {
                msg.append(" - ");
                msg.append(shown.as_str());
                Ok(msg)
            },
            Err(e) => Err(e),
        },
    }
}

/// Whether a link of kind `kind` leads to a track, the one kind that is
/// summarised; what the service answers about any other kind is shown as
/// it is.
pub fn is_track(kind: &str) -> (r: bool)
    ensures
        r == (kind@ == "track"@),
{
    crate::text::same_text(kind, "track")
}

/// The path of the request for the thing of kind `kind` named `id`: the
/// kind in the plural, a slash, and the name.
pub fn api_path(kind: &str, id: &str) -> (path: String)
    ensures
        path@ == kind@ + "s/"@ + id@,
{
    let mut path = String::from_str(kind);
    path.append("s/");
    path.append(id);
    path
}

} // verus!
