use link_titles::spotify::{
    api_path, artist_names, is_track, render_track, strip_url, SpotifyAlbum, SpotifyArtist,
    SpotifyError, SpotifyTrack,
};
use regex::Regex;

fn artists(names: &[&str]) -> Vec<SpotifyArtist> {
    names
        .iter()
        .map(|n| SpotifyArtist {
            name: n.to_string(),
        })
        .collect()
}

fn track(
    names: &[&str],
    name: &str,
    release_date: &str,
    duration_ms: u64,
    preview_url: Option<&str>,
) -> SpotifyTrack {
    SpotifyTrack {
        album: SpotifyAlbum {
            artists: artists(names),
            name: "album".to_string(),
            release_date: release_date.to_string(),
            total_tracks: 1,
        },
        artists: artists(names),
        duration_ms,
        name: name.to_string(),
        preview_url: preview_url.map(|u| u.to_string()),
        disc_number: 1,
        track_number: 1,
    }
}

#[test]
fn json() {
    let track = track(
        &["Major Lazer", "Diplo", "Marcus Mumford", "Lost Frequencies"],
        "Lay Your Head On Me (feat. Marcus Mumford) - Lost Frequencies Remix",
        "2020-05-22",
        187096,
        Some("https://p.scdn.co/mp3-preview/92b4abe7d7e721dffdcf7744ee4d062ede55a648?cid=0123456789abcdef0123456789abcdef"),
    );
    assert_eq!(
        format!(
            "{}{}{}",
            "3m 2020-05-22 Major Lazer, Diplo, Marcus Mumford, Lost Frequencies",
            " - Lay Your Head On Me (feat. Marcus Mumford) - Lost Frequencies Remix",
            " - https://p.scdn.co/mp3-preview/92b4abe7d7e721dffdcf7744ee4d062ede55a648?"
        ),
        render_track(&track).unwrap()
    );
}

#[test]
fn no_preview() {
    let track = track(
        &["The Juan Maclean"],
        "Happy House",
        "2009-04-20",
        12 * 60 * 1000 + 30 * 1000,
        None,
    );
    assert_eq!(
        "12m 2009-04-20 The Juan Maclean - Happy House",
        render_track(&track).unwrap()
    );
}

#[test]
fn render_track_refuses_a_client_that_stays() {
    let track = track(&["a"], "n", "d", 0, Some("https://x/?cid=short"));
    assert_eq!(Err(SpotifyError::ClientIdRemains), render_track(&track));
}

#[test]
fn artist_names_joins_with_commas() {
    assert_eq!("", artist_names(&artists(&[])));
    assert_eq!("a", artist_names(&artists(&["a"])));
    assert_eq!("a, b, c", artist_names(&artists(&["a", "b", "c"])));
}

#[test]
fn strip_url_takes_one_identifier_out() {
    let hex30 = "0123456789abcdef0123456789abcd";
    assert_eq!(Ok("u?".to_string()), strip_url(&format!("u?cid={}", hex30)));
    assert_eq!(
        Ok("u?&x=1".to_string()),
        strip_url(&format!("u?cid={}abcd&x=1", hex30))
    );
    assert_eq!(
        Ok("u?f".to_string()),
        strip_url(&format!("u?cid={}abcdf", hex30))
    );
    assert_eq!(Ok("plain".to_string()), strip_url("plain"));
    assert_eq!(Ok("".to_string()), strip_url(""));
    assert_eq!(Err(SpotifyError::ClientIdRemains), strip_url("u?cid=abc"));
    assert_eq!(
        Err(SpotifyError::ClientIdRemains),
        strip_url(&format!("cid={}&cid={}", hex30, hex30))
    );
    assert_eq!(
        Ok(format!("id={}", hex30)),
        strip_url(&format!("cid={}cid={}", hex30, hex30))
    );
    assert_eq!(
        Err(SpotifyError::ClientIdRemains),
        strip_url(&format!("cid=Xcid={}", hex30))
    );
}

#[test]
fn strip_url_agrees_with_the_pattern() {
    let stripper = Regex::new("cid=[a-f0-9]{30,34}").unwrap();
    let pieces = [
        "cid=", "0123456789", "abcdef", "abcdefabcdefabcdefabcdefabcdef", "g", "?", "ci", "d=",
        "0123456789abcdef0123",
    ];
    let mut seed: u64 = 0x853c49e6748fea9b;
    for _ in 0..3000 {
        let mut s = String::new();
        for _ in 0..7 {
            seed ^= seed << 13;
            seed ^= seed >> 7;
            seed ^= seed << 17;
            s.push_str(pieces[(seed % pieces.len() as u64) as usize]);
        }
        let stripped = stripper.replace(&s, "").to_string();
        let expected = if stripped.contains("cid=") {
            Err(SpotifyError::ClientIdRemains)
        } else {
            Ok(stripped)
        };
        assert_eq!(expected, strip_url(&s), "{:?}", s);
    }
}

#[test]
fn api_path_puts_the_kind_in_the_plural() {
    assert_eq!("tracks/abc", api_path("track", "abc"));
    assert_eq!("albums/x", api_path("album", "x"));
    assert!(is_track("track"));
    assert!(!is_track("tracks"));
    assert!(!is_track("album"));
}
