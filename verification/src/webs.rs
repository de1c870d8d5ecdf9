//! What is kept between two requests: the configuration and the tokens that
//! the providers handed out.

use vstd::prelude::*;
use vstd::string::StringSliceAdditionalSpecFns;
use crate::config::Config;
use crate::json::Json;
use crate::numbers::{decimal_text, parse_u64, parsed_u64, push_decimal};
use crate::text::to_chars;

verus! {

/// The tokens that are held at the moment, one for each provider that asks
/// for one. A token is the whole value of the `Authorization` header.
pub struct State {
    pub twitter_token: Option<String>,
    pub spotify_token: Option<String>,
}

/// What a request is made with: the configuration, and the tokens held.
pub struct Context {
    pub config: Config,
    pub state: State,
}

impl Default for State {
    /// The state at startup: no token is held.
    fn default() -> (state: State)
        ensures
            state.twitter_token is None,
            state.spotify_token is None,
    {
        State { twitter_token: None, spotify_token: None }
    }
}

impl Context {
    /// The context at startup: the configuration as given, and no token.
    pub fn new(config: Config) -> (context: Context)
        ensures
            context.config == config,
            context.state.twitter_token is None,
            context.state.spotify_token is None,
    {
        Context { config, state: State::default() }
    }
}

/// Forgets the token of the music provider, so that the next request
/// fetches a new one. The other token stays.
pub fn clear_token(context: &mut Context)
    ensures
        final(context).state.spotify_token is None,
        final(context).state.twitter_token == old(context).state.twitter_token,
        final(context).config == old(context).config,
{
    context.state.spotify_token = None;
}

/// The providers that hand out tokens.
#[derive(Clone, Copy, Debug, PartialEq, Eq, Structural)]
pub enum Provider {
    Twitter,
    Spotify,
}

impl State {
    /// The token that is held for `provider`.
    pub open spec fn held(self, provider: Provider) -> Option<String> {
        match provider {
            Provider::Twitter => self.twitter_token,
            Provider::Spotify => self.spotify_token,
        }
    }

    /// The token that is held for `provider`, if there is one.
    pub fn token(&self, provider: Provider) -> (r: Option<&String>)
        ensures
            match r {
                Some(t) => self.held(provider) == Some(*t),
                None => self.held(provider) is None,
            },
    {
        match provider {
            Provider::Twitter => self.twitter_token.as_ref(),
            Provider::Spotify => self.spotify_token.as_ref(),
        }
    }

    /// Keeps `token` for `provider`. The token of the other provider stays.
    pub fn store(&mut self, provider: Provider, token: String)
        ensures
            final(self).held(provider) == Some(token),
            forall|other: Provider| other != provider ==> final(self).held(other) == old(self).held(other),
    {
        match provider {
            Provider::Twitter => {
                self.twitter_token = Some(token);
            },
            Provider::Spotify => {
                self.spotify_token = Some(token);
            },
        }
    }

    /// Forgets the token of `provider`. The token of the other provider
    /// stays.
    pub fn clear(&mut self, provider: Provider)
        ensures
            final(self).held(provider) is None,
            forall|other: Provider| other != provider ==> final(self).held(other) == old(self).held(other),
    {
        match provider {
            Provider::Twitter => {
                self.twitter_token = None;
            },
            Provider::Spotify => {
                self.spotify_token = None;
            },
        }
    }
}

/// Whether a status code tells of success: 200 to 299.
pub open spec fn is_success(status: u16) -> bool {
    200 <= status && status <= 299
}

/// The answer of a provider was not one of success.
#[derive(Clone, Copy, Debug, PartialEq, Eq, Structural)]
pub struct BadStatus {
    pub status: u16,
}

/// Lets an answer through if its status tells of success.
pub fn errors(status: u16) -> (r: Result<(), BadStatus>)
    ensures
        r == (if is_success(status) {
            Ok::<(), BadStatus>(())
        } else {
            Err::<(), BadStatus>(BadStatus { status })
        }),
{
    if 200 <= status && status <= 299 {
        Ok(())
    } else {
        Err(BadStatus { status })
    }
}

/// What to do before a request that needs a token.
#[derive(Debug, PartialEq, Eq)]
pub enum TokenStep {
    /// Send the request with this token.
    Use(String),
    /// No token is held: fetch one, store it, and send the request with it.
    Fetch,
}

/// Decides whether a request can go out with the token that is held.
pub fn maybe_refresh(state: &State, provider: Provider) -> (step: TokenStep)
    ensures
        match step {
            TokenStep::Use(t) => state.held(provider) == Some(t),
            TokenStep::Fetch => state.held(provider) is None,
        },
{
    match state.token(provider) {
        Some(t) => TokenStep::Use(t.clone()),
        None => TokenStep::Fetch,
    }
}

/// What to do with the answer to a request that went out with a token.
#[derive(Clone, Copy, Debug, PartialEq, Eq, Structural)]
pub enum Verdict {
    /// The answer is the one that was asked for.
    Deliver,
    /// The token was refused: forget it, fetch a new one, and ask once more.
    Retry,
    /// Give up.
    Fail(BadStatus),
}

/// The verdict on an answer with the status `status`. `first` tells whether
/// this was the first attempt.
pub open spec fn verdict_of(status: u16, first: bool) -> Verdict {
    if is_success(status) {
        Verdict::Deliver
    } else if status == 401 && first {
        Verdict::Retry
    } else {
        Verdict::Fail(BadStatus { status })
    }
}

/// Decides what to do with the answer to a request that went out with a
/// token. An answer of 401 to the first attempt asks for one more attempt
/// with a new token, and to the second for none.
pub fn after_response(status: u16, first: bool) -> (v: Verdict)
    ensures
        v == verdict_of(status, first),
{
    if 200 <= status && status <= 299 {
        Verdict::Deliver
    } else if status == 401 && first {
        Verdict::Retry
    } else {
        Verdict::Fail(BadStatus { status })
    }
}

/// Takes the verdict on an answer into the state: where it asks for one
/// more attempt, the token of `provider` is forgotten.
pub fn settle(state: &mut State, provider: Provider, status: u16, first: bool) -> (v: Verdict)
    ensures
        v == verdict_of(status, first),
        v == Verdict::Retry ==> final(state).held(provider) is None,
        v != Verdict::Retry ==> final(state).held(provider) == old(state).held(provider),
        forall|other: Provider| other != provider ==> final(state).held(other) == old(state).held(other),
{
    let v = after_response(status, first);
    match v {
        Verdict::Retry => {
            state.clear(provider);
        },
        _ => {},
    }
    v
}

/// Why the answer to a request for a token holds no token.
#[derive(Clone, Copy, Debug, PartialEq, Eq, Structural)]
pub enum TokenError {
    NoTokenType,
    TokenTypeNotText,
    /// The token is of another type than `bearer`.
    NotBearer,
    NoAccessToken,
    AccessTokenNotText,
}

/// The lower-case form of an ASCII letter; any other character as it is.
pub open spec fn lowered(c: char) -> char {
    if 0x41 <= c as int && c as int <= 0x5a {
        ((c as int + 0x20) as u8) as char
    } else {
        c
    }
}

/// Whether `s` is the word `bearer`, in any mix of upper and lower case.
pub open spec fn is_bearer(s: Seq<char>) -> bool {
    s.len() == 6 && s.map_values(|c: char| lowered(c)) == "bearer"@
}

/// The token in the answer to a request for one.
pub open spec fn token_of(body: Json) -> Result<Seq<char>, TokenError> {
    match body.field("token_type"@) {
        None => Err(TokenError::NoTokenType),
        Some(kind) => match kind.text() {
            None => Err(TokenError::TokenTypeNotText),
            Some(kind) => if !is_bearer(kind) {
                Err(TokenError::NotBearer)
            } else {
                match body.field("access_token"@) {
                    None => Err(TokenError::NoAccessToken),
                    Some(token) => match token.text() {
                        None => Err(TokenError::AccessTokenNotText),
                        Some(token) => Ok(token),
                    },
                }
            },
        },
    }
}

fn to_lower(c: char) -> (r: char)
    ensures
        r == lowered(c),
{
    let n: u32 = c as u32;
    if 0x41 <= n && n <= 0x5a {
        ((n + 0x20) as u8) as char
    } else {
        c
    }
}

fn bearer_word(kind: &str) -> (r: bool)
    ensures
        r == is_bearer(kind@),
{
    proof {
        reveal_strlit("bearer");
    }
    let v = to_chars(kind);
    let w = to_chars("bearer");
    if v.len() != 6 {
        return false;
    }
    let ghost low = kind@.map_values(|c: char| lowered(c));
    let mut i: usize = 0;
    while i < 6
        invariant
            i <= 6,
            v@ == kind@,
            v.len() == 6,
            w@ == "bearer"@,
            w.len() == 6,
            low == kind@.map_values(|c: char| lowered(c)),
            forall|j: int| 0 <= j < i ==> low[j] == w@[j],
        decreases 6 - i,
    {
        if to_lower(v[i]) != w[i] {
            assert(low[i as int] != w@[i as int]);
            return false;
        }
        i += 1;
    }
    assert(low =~= w@);
    true
}

/// Reads the token from the answer to a request for one.
pub fn extract_token(token_body: &Json) -> (r: Result<String, TokenError>)
    ensures
        match r {
            Ok(t) => token_of(*token_body) == Ok::<Seq<char>, TokenError>(t@),
            Err(e) => token_of(*token_body) == Err::<Seq<char>, TokenError>(e),
        },
{
    let kind = match token_body.get("token_type") {
        None => {
            return Err(TokenError::NoTokenType);
        },
        Some(kind) => match kind.as_str() {
            None => {
                return Err(TokenError::TokenTypeNotText);
            },
            Some(kind) => kind,
        },
    };
    if !bearer_word(kind) {
        return Err(TokenError::NotBearer);
    }
    match token_body.get("access_token") {
        None => Err(TokenError::NoAccessToken),
        Some(token) => match token.as_str() {
            None => Err(TokenError::AccessTokenNotText),
            Some(token) => Ok(String::from_str(token)),
        },
    }
}

/// The value of the `Authorization` header for a token.
pub fn bearer(token: &str) -> (value: String)
    ensures
        value@ == "Bearer "@ + token@,
{
    let mut value = String::from_str("Bearer ");
    value.append(token);
    value
}

/// Reads the answer to a request for a token into the value of the
/// `Authorization` header.
pub fn oauth_token(token_body: &Json) -> (r: Result<String, TokenError>)
    ensures
        match r {
            Ok(value) => token_of(*token_body) is Ok && value@ == "Bearer "@ + token_of(
                *token_body,
            )->Ok_0,
            Err(e) => token_of(*token_body) == Err::<Seq<char>, TokenError>(e),
        },
{
    match extract_token(token_body) {
        Ok(token) => Ok(bearer(token.as_str())),
        Err(e) => Err(e),
    }
}

/// A request for a token: where it goes, who asks, and what it says.
pub struct TokenRequest {
    pub url: String,
    pub key: String,
    pub secret: String,
    pub content_type: String,
    pub body: String,
}

/// The request for a token of `provider`, with the key and secret that the
/// configuration holds for it.
pub fn token_request(config: &Config, provider: Provider) -> (request: TokenRequest)
    ensures
        request.url@ == (match provider {
            Provider::Twitter => "https://api.twitter.com/oauth2/token"@,
            Provider::Spotify => "https://accounts.spotify.com/api/token"@,
        }),
        request.key@ == (match provider {
            Provider::Twitter => config.keys.twitter_app_key@,
            Provider::Spotify => config.keys.spotify_app_key@,
        }),
        request.secret@ == (match provider {
            Provider::Twitter => config.keys.twitter_app_secret@,
            Provider::Spotify => config.keys.spotify_app_secret@,
        }),
        request.content_type@ == "application/x-www-form-urlencoded"@,
        request.body@ == "grant_type=client_credentials"@,
{
    let (url, key, secret) = match provider {
        Provider::Twitter => (
            "https://api.twitter.com/oauth2/token",
            config.keys.twitter_app_key.as_str(),
            config.keys.twitter_app_secret.as_str(),
        ),
        Provider::Spotify => (
            "https://accounts.spotify.com/api/token",
            config.keys.spotify_app_key.as_str(),
            config.keys.spotify_app_secret.as_str(),
        ),
    };
    TokenRequest {
        url: String::from_str(url),
        key: String::from_str(key),
        secret: String::from_str(secret),
        content_type: String::from_str("application/x-www-form-urlencoded"),
        body: String::from_str("grant_type=client_credentials"),
    }
}

/// The address of a request to the image host for `sub`, such as
/// `image/abc`.
pub fn imgur_url(sub: &str) -> (url: String)
    ensures
        url@ == "https://api.imgur.com/3/"@ + sub@,
{
    let mut url = String::from_str("https://api.imgur.com/3/");
    url.append(sub);
    url
}

/// The path of the request for the image named `id`.
pub fn image_path(id: &str) -> (sub: String)
    ensures
        sub@ == "image/"@ + id@,
{
    let mut sub = String::from_str("image/");
    sub.append(id);
    sub
}

/// The path of the request for the album named `id`.
pub fn album_path(id: &str) -> (sub: String)
    ensures
        sub@ == "album/"@ + id@,
{
    let mut sub = String::from_str("album/");
    sub.append(id);
    sub
}

/// The value of the `Authorization` header for the image host.
pub fn imgur_authorization(config: &Config) -> (value: String)
    ensures
        value@ == "Client-ID "@ + config.keys.imgur_client_id@,
{
    let mut value = String::from_str("Client-ID ");
    value.append(config.keys.imgur_client_id.as_str());
    value
}

/// The address of the request for the post numbered `id`, with its text in
/// full.
pub fn twitter_url(id: &str) -> (url: String)
    ensures
        url@ == "https://api.twitter.com/1.1/statuses/show.json?id="@ + id@
            + "&tweet_mode=extended"@,
{
    let mut url = String::from_str("https://api.twitter.com/1.1/statuses/show.json?id=");
    url.append(id);
    url.append("&tweet_mode=extended");
    url
}

/// The address of a request to the music service for `sub`, such as
/// `tracks/abc`.
pub fn spotify_url(sub: &str) -> (url: String)
    ensures
        url@ == "https://api.spotify.com/v1/"@ + sub@,
{
    let mut url = String::from_str("https://api.spotify.com/v1/");
    url.append(sub);
    url
}

/// The address that `url::Url::parse_with_params` makes of an address and
/// parameters for its query; `None` where it refuses the address.
pub uninterp spec fn url_with_query(base: Seq<char>, params: Seq<(Seq<char>, Seq<char>)>) -> Option<
    Seq<char>,
>;

/// The names and values of `params` as texts.
pub open spec fn param_views(params: Seq<(String, String)>) -> Seq<(Seq<char>, Seq<char>)> {
    params.map_values(|p: (String, String)| (p.0@, p.1@))
}

/// `url::Url::parse_with_params` reads an address and appends parameters to
/// its query, in the order given, each as `name=value` with what may not
/// stand in a query written in percent form. What comes out depends on the
/// texts alone.
#[verifier::external_body]
fn url_with_params(base: &str, params: &Vec<(String, String)>) -> (url: Option<String>)
    ensures
        match url {
            Some(u) => url_with_query(base@, param_views(params@)) == Some(u@),
            None => url_with_query(base@, param_views(params@)) is None,
        },
{
    url::Url::parse_with_params(base, params).ok().map(|u| u.as_str().to_owned())
}

/// The parameters of the request for the video named `id`: the video, the
/// parts of its description that are asked for, and the key of the
/// developer.
pub open spec fn video_params(id: Seq<char>, key: Seq<char>) -> Seq<(Seq<char>, Seq<char>)> {
    seq![("id"@, id), ("part"@, "snippet,contentDetails"@), ("key"@, key)]
}

/// The address of the video API with the parameters of the request for the
/// video named `id`.
pub open spec fn video_request(id: Seq<char>, key: Seq<char>) -> Option<Seq<char>> {
    url_with_query("https://www.googleapis.com/youtube/v3/videos"@, video_params(id, key))
}

/// The address of the request for the video named `id`, which asks for its
/// snippet and its content details.
pub fn youtube_url(config: &Config, id: &str) -> (url: Option<String>)
    ensures
        match url {
            Some(u) => video_request(id@, config.keys.youtube_developer_key@) == Some(u@),
            None => video_request(id@, config.keys.youtube_developer_key@) is None,
        },
{
    let mut params: Vec<(String, String)> = Vec::new();
    params.push((String::from_str("id"), String::from_str(id)));
    params.push((String::from_str("part"), String::from_str("snippet,contentDetails")));
    params.push(
        (String::from_str("key"), String::from_str(config.keys.youtube_developer_key.as_str())),
    );
    assert(param_views(params@) =~= video_params(id@, config.keys.youtube_developer_key@));
    url_with_params("https://www.googleapis.com/youtube/v3/videos", &params)
}

/// The length that a `Content-Length` header declares, if it is a numeral.
pub fn content_length(header: Option<&str>) -> (r: Option<u64>)
    ensures
        r == (match header {
            Some(h) => parsed_u64(h.spec_bytes()),
            None => None,
        }),
{
    match header {
        Some(h) => parse_u64(h.as_bytes()),
        None => None,
    }
}

/// The first bytes of an answer, up to a limit.
pub struct PreviewWindow {
    pub bytes: Vec<u8>,
    pub limit: usize,
}

impl PreviewWindow {
    /// How many bytes still fit.
    pub open spec fn room(self) -> nat {
        if self.bytes@.len() <= self.limit {
            (self.limit - self.bytes@.len()) as nat
        } else {
            0
        }
    }

    /// How much of a chunk of `len` bytes still fits.
    pub open spec fn room_for(self, len: nat) -> nat {
        if len <= self.room() {
            len
        } else {
            self.room()
        }
    }

    /// An empty window that takes up to `limit` bytes.
    pub fn new(limit: usize) -> (w: PreviewWindow)
        ensures
            w.bytes@.len() == 0,
            w.limit == limit,
    {
        PreviewWindow { bytes: Vec::new(), limit }
    }

    /// Whether the window is filled.
    pub fn is_full(&self) -> (full: bool)
        ensures
            full == (self.room() == 0),
    {
        self.bytes.len() >= self.limit
    }

    /// Takes the next chunk of the answer: as much of it as still fits. The
    /// result tells whether the window is filled, so that reading can stop.
    pub fn read_many(&mut self, chunk: &[u8]) -> (full: bool)
        ensures
            final(self).limit == old(self).limit,
            final(self).bytes@ == old(self).bytes@ + chunk@.take(
                old(self).room_for(chunk@.len()) as int,
            ),
            full == (final(self).room() == 0),
    {
        let room = if self.bytes.len() <= self.limit {
            self.limit - self.bytes.len()
        } else {
            0
        };
        let to_put = if chunk.len() <= room {
            chunk.len()
        } else {
            room
        };
        let mut i: usize = 0;
        assert(self.bytes@ =~= old(self).bytes@ + chunk@.take(0));
        while i < to_put
            invariant
                i <= to_put <= chunk.len(),
                self.limit == old(self).limit,
                self.bytes@ == old(self).bytes@ + chunk@.take(i as int),
                old(self).bytes@.len() + to_put <= self.limit || to_put == 0,
            decreases to_put - i,
        {
            self.bytes.push(chunk[i]);
            assert(chunk@.take(i + 1) =~= chunk@.take(i as int).push(chunk@[i as int]));
            assert(self.bytes@ =~= old(self).bytes@ + chunk@.take(i + 1));
            i += 1;
        }
        self.bytes.len() >= self.limit
    }
}

/// The seconds since the start of 1970, by the clock of the machine; `None`
/// where the clock stands before that.
#[verifier::external_body]
fn epoch_secs() -> (now: Option<u64>)
{
    std::time::SystemTime::now().duration_since(std::time::UNIX_EPOCH).ok().map(|d| d.as_secs())
}

/// The earliest time for which a browser is made up.
pub const UA_EPOCH: u64 = 1_234_567_890;

/// The name of a browser of the time `now`: its version numbers grow with
/// the seconds since the start of 1970.
pub open spec fn ua_text(now: u64) -> Seq<char> {
    let apple = decimal_text(((now - 800_000_000) / 1_400_212) as nat);
    let chrome = decimal_text(((now - 1_234_567_890) / 4_400_212) as nat);
    "Mozilla/5.0 (X11; Linux x86_64) AppleWebKit/"@ + apple + ".36 (KHTML, like Gecko) Chrome/"@
        + chrome + ".0.3538.110 Safari/"@ + apple + ".36"@
}

/// Makes up the name of a browser of the time `now`.
pub fn chrome_ua_at(now: u64) -> (ua: String)
    requires
        now >= UA_EPOCH,
    ensures
        ua@ == ua_text(now),
{
    let apple = (now - 800_000_000) / 1_400_212;
    let chrome = (now - 1_234_567_890) / 4_400_212;
    let mut ua = String::from_str("Mozilla/5.0 (X11; Linux x86_64) AppleWebKit/");
    push_decimal(&mut ua, apple);
    ua.append(".36 (KHTML, like Gecko) Chrome/");
    push_decimal(&mut ua, chrome);
    ua.append(".0.3538.110 Safari/");
    push_decimal(&mut ua, apple);
    ua.append(".36");
    ua
}

/// The name of a browser for what the clock says: the name of the time it
/// tells, and none where it tells no time, or one before [`UA_EPOCH`].
pub open spec fn ua_for(clock: Option<u64>) -> Option<Seq<char>> {
    match clock {
        Some(now) => if now >= UA_EPOCH {
            Some(ua_text(now))
        } else {
            None
        },
        None => None,
    }
}

/// Makes up the name of a browser from what the clock said: `clock` holds
/// the seconds since the start of 1970, if the clock could tell them.
pub fn chrome_ua_from(clock: Option<u64>) -> (ua: Option<String>)
    ensures
        match ua {
            Some(ua) => ua_for(clock) == Some(ua@),
            None => ua_for(clock) is None,
        },
{
    match clock {
        Some(now) => if now >= UA_EPOCH {
            Some(chrome_ua_at(now))
        } else {
            None
        },
        None => None,
    }
}

/// Makes up the name of a browser of today; `None` where the clock of the
/// machine stands before [`UA_EPOCH`].
pub fn chrome_ua() -> (ua: Option<String>)
    ensures
        match ua {
            Some(ua) => exists|now: u64| now >= UA_EPOCH && ua@ == #[trigger] ua_text(now),
            None => true,
        },
{
    let clock = epoch_secs();
    let ua = chrome_ua_from(clock);
    proof {
        if ua is Some {
            assert(clock->Some_0 >= UA_EPOCH && ua->Some_0@ == ua_text(clock->Some_0));
        }
    }
    ua
}

} // verus!
