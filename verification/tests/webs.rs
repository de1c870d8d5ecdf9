use link_titles::config::{default_port, Config, Keys, Server};
use link_titles::json::{Json, Member};
use link_titles::webs::{
    after_response, album_path, bearer, chrome_ua, chrome_ua_at, chrome_ua_from, clear_token, content_length,
    errors, extract_token, image_path, imgur_authorization, imgur_url, maybe_refresh,
    oauth_token, settle, spotify_url, token_request, twitter_url, youtube_url, BadStatus,
    Context, PreviewWindow, Provider, State, TokenError, TokenStep, Verdict, UA_EPOCH,
};

fn config() -> Config {
    Config {
        server: Server {
            hostname: "irc.example.org".to_string(),
            port: default_port(),
            nick: "bot".to_string(),
            user: None,
            real_name: None,
            password: None,
            nick_password: None,
            channels: vec!["#chan".to_string()],
        },
        keys: Keys {
            imgur_client_id: "imgur-id".to_string(),
            twitter_app_key: "tw-key".to_string(),
            twitter_app_secret: "tw-secret".to_string(),
            spotify_app_key: "sp-key".to_string(),
            spotify_app_secret: "sp-secret".to_string(),
            youtube_developer_key: "yt key&1".to_string(),
        },
    }
}

fn object(members: Vec<(&str, Json)>) -> Json {
    Json::Object(
        members
            .into_iter()
            .map(|(k, v)| Member {
                name: k.to_string(),
                value: v,
                written: String::new(),
            })
            .collect(),
    )
}

#[test]
fn default_port_is_the_tls_port() {
    assert_eq!(6697, default_port());
}

#[test]
fn context_starts_without_tokens() {
    let context = Context::new(config());
    assert_eq!(None, context.state.twitter_token);
    assert_eq!(None, context.state.spotify_token);
    assert_eq!("bot", context.config.server.nick);
    let state = State::default();
    assert_eq!(TokenStep::Fetch, maybe_refresh(&state, Provider::Twitter));
    assert_eq!(TokenStep::Fetch, maybe_refresh(&state, Provider::Spotify));
}

#[test]
fn tokens_are_kept_for_each_provider() {
    let mut state = State::default();
    state.store(Provider::Spotify, "Bearer s".to_string());
    assert_eq!(
        TokenStep::Use("Bearer s".to_string()),
        maybe_refresh(&state, Provider::Spotify)
    );
    assert_eq!(TokenStep::Fetch, maybe_refresh(&state, Provider::Twitter));
    state.store(Provider::Twitter, "Bearer t".to_string());
    state.clear(Provider::Spotify);
    assert_eq!(None, state.token(Provider::Spotify));
    assert_eq!(Some(&"Bearer t".to_string()), state.token(Provider::Twitter));
}

#[test]
fn clear_token_forgets_the_music_token_only() {
    let mut context = Context::new(config());
    context.state.store(Provider::Spotify, "s".to_string());
    context.state.store(Provider::Twitter, "t".to_string());
    clear_token(&mut context);
    assert_eq!(None, context.state.spotify_token);
    assert_eq!(Some("t".to_string()), context.state.twitter_token);
}

#[test]
fn errors_lets_success_through() {
    assert_eq!(Ok(()), errors(200));
    assert_eq!(Ok(()), errors(204));
    assert_eq!(Ok(()), errors(299));
    assert_eq!(Err(BadStatus { status: 199 }), errors(199));
    assert_eq!(Err(BadStatus { status: 300 }), errors(300));
    assert_eq!(Err(BadStatus { status: 404 }), errors(404));
}

#[test]
fn a_refused_token_is_tried_again_once() {
    assert_eq!(Verdict::Deliver, after_response(200, true));
    assert_eq!(Verdict::Deliver, after_response(200, false));
    assert_eq!(Verdict::Retry, after_response(401, true));
    assert_eq!(
        Verdict::Fail(BadStatus { status: 401 }),
        after_response(401, false)
    );
    assert_eq!(
        Verdict::Fail(BadStatus { status: 500 }),
        after_response(500, true)
    );
    assert_eq!(
        Verdict::Fail(BadStatus { status: 403 }),
        after_response(403, false)
    );
}

#[test]
fn settle_forgets_a_refused_token() {
    let mut state = State::default();
    state.store(Provider::Spotify, "s".to_string());
    state.store(Provider::Twitter, "t".to_string());
    assert_eq!(Verdict::Deliver, settle(&mut state, Provider::Spotify, 200, true));
    assert_eq!(Some("s".to_string()), state.spotify_token);
    assert_eq!(Verdict::Retry, settle(&mut state, Provider::Spotify, 401, true));
    assert_eq!(None, state.spotify_token);
    assert_eq!(Some("t".to_string()), state.twitter_token);
    assert_eq!(
        Verdict::Fail(BadStatus { status: 401 }),
        settle(&mut state, Provider::Twitter, 401, false)
    );
    assert_eq!(Some("t".to_string()), state.twitter_token);
}

#[test]
fn extract_token_reads_a_bearer_token() {
    let text = |s: &str| Json::Text(s.to_string());
    let body = object(vec![("token_type", text("bearer")), ("access_token", text("AAAA"))]);
    assert_eq!(Ok("AAAA".to_string()), extract_token(&body));
    assert_eq!(Ok("Bearer AAAA".to_string()), oauth_token(&body));
    let body = object(vec![("token_type", text("BeArEr")), ("access_token", text("b"))]);
    assert_eq!(Ok("b".to_string()), extract_token(&body));
    assert_eq!("Bearer x", bearer("x"));
}

#[test]
fn extract_token_errors() {
    let text = |s: &str| Json::Text(s.to_string());
    assert_eq!(Err(TokenError::NoTokenType), extract_token(&object(vec![])));
    assert_eq!(Err(TokenError::NoTokenType), oauth_token(&Json::Null));
    assert_eq!(
        Err(TokenError::TokenTypeNotText),
        extract_token(&object(vec![("token_type", Json::Bool(true))]))
    );
    for other in ["basic", "bearer ", "bearers", "", "ßearer"] {
        assert_eq!(
            Err(TokenError::NotBearer),
            extract_token(&object(vec![
                ("token_type", text(other)),
                ("access_token", text("a"))
            ]))
        );
    }
    assert_eq!(
        Err(TokenError::NoAccessToken),
        extract_token(&object(vec![("token_type", text("bearer"))]))
    );
    assert_eq!(
        Err(TokenError::AccessTokenNotText),
        extract_token(&object(vec![
            ("token_type", text("bearer")),
            ("access_token", Json::Null)
        ]))
    );
}

#[test]
fn token_requests_name_the_endpoint_and_the_keys() {
    let config = config();
    let r = token_request(&config, Provider::Twitter);
    assert_eq!("https://api.twitter.com/oauth2/token", r.url);
    assert_eq!(("tw-key", "tw-secret"), (r.key.as_str(), r.secret.as_str()));
    assert_eq!("application/x-www-form-urlencoded", r.content_type);
    assert_eq!("grant_type=client_credentials", r.body);
    let r = token_request(&config, Provider::Spotify);
    assert_eq!("https://accounts.spotify.com/api/token", r.url);
    assert_eq!(("sp-key", "sp-secret"), (r.key.as_str(), r.secret.as_str()));
}

#[test]
fn request_addresses() {
    let config = config();
    assert_eq!("https://api.imgur.com/3/image/abc", imgur_url(&image_path("abc")));
    assert_eq!("https://api.imgur.com/3/album/abc", imgur_url(&album_path("abc")));
    assert_eq!("Client-ID imgur-id", imgur_authorization(&config));
    assert_eq!(
        "https://api.twitter.com/1.1/statuses/show.json?id=12&tweet_mode=extended",
        twitter_url("12")
    );
    assert_eq!("https://api.spotify.com/v1/tracks/abc", spotify_url("tracks/abc"));
    assert_eq!(
        Some(
            "https://www.googleapis.com/youtube/v3/videos?id=JwhjqdSPw5g&part=snippet%2CcontentDetails&key=yt+key%261"
                .to_string()
        ),
        youtube_url(&config, "JwhjqdSPw5g")
    );
}

#[test]
fn content_length_reads_numerals() {
    assert_eq!(Some(1234), content_length(Some("1234")));
    assert_eq!(None, content_length(Some("12.5")));
    assert_eq!(None, content_length(Some(" 12")));
    assert_eq!(None, content_length(Some("")));
    assert_eq!(None, content_length(None));
}

#[test]
fn preview_window_takes_what_fits() {
    let mut w = PreviewWindow::new(5);
    assert!(!w.is_full());
    assert!(!w.read_many(b"ab"));
    assert!(!w.read_many(b""));
    assert_eq!(b"ab".to_vec(), w.bytes);
    assert!(w.read_many(b"cdefg"));
    assert_eq!(b"abcde".to_vec(), w.bytes);
    assert!(w.is_full());
    assert!(w.read_many(b"xyz"));
    assert_eq!(b"abcde".to_vec(), w.bytes);
    let mut exact = PreviewWindow::new(3);
    assert!(exact.read_many(b"abc"));
    let mut none = PreviewWindow::new(0);
    assert!(none.is_full());
    assert!(none.read_many(b"a"));
    assert!(none.bytes.is_empty());
}

#[test]
fn chrome_ua_grows_with_time() {
    assert_eq!(
        "Mozilla/5.0 (X11; Linux x86_64) AppleWebKit/310.36 (KHTML, like Gecko) Chrome/0.0.3538.110 Safari/310.36",
        chrome_ua_at(UA_EPOCH)
    );
    assert_eq!(
        "Mozilla/5.0 (X11; Linux x86_64) AppleWebKit/571.36 (KHTML, like Gecko) Chrome/83.0.3538.110 Safari/571.36",
        chrome_ua_at(1_600_000_000)
    );
    let now = chrome_ua().unwrap();
    assert!(now.starts_with("Mozilla/5.0 (X11; Linux x86_64) AppleWebKit/"));
    assert!(now.ends_with(".36"));
}

#[test]
fn chrome_ua_from_wants_a_clock_of_our_days() {
    assert_eq!(None, chrome_ua_from(None));
    assert_eq!(None, chrome_ua_from(Some(0)));
    assert_eq!(None, chrome_ua_from(Some(UA_EPOCH - 1)));
    assert_eq!(Some(chrome_ua_at(UA_EPOCH)), chrome_ua_from(Some(UA_EPOCH)));
    assert_eq!(
        Some(chrome_ua_at(1_600_000_000)),
        chrome_ua_from(Some(1_600_000_000))
    );
    assert_eq!(Some(chrome_ua_at(u64::MAX)), chrome_ua_from(Some(u64::MAX)));
}
