//! What the program is configured with: the chat server to join and the
//! keys of the providers.

use vstd::prelude::*;

verus! {

/// The whole configuration.
#[derive(Debug, Clone)]
pub struct Config {
    pub server: Server,
    pub keys: Keys,
}

/// The chat server to join, and as whom.
#[derive(Debug, Clone)]
pub struct Server {
    pub hostname: String,
    /// The port to connect to; [`default_port`] where the configuration names none.
    pub port: u16,
    pub nick: String,
    pub user: Option<String>,
    pub real_name: Option<String>,
    pub password: Option<String>,
    pub nick_password: Option<String>,
    pub channels: Vec<String>,
}

/// The port of a chat server that speaks TLS.
pub open spec fn spec_default_port() -> u16 {
    6697
}

/// The port that is used where the configuration names none.
#[verifier::when_used_as_spec(spec_default_port)]
pub fn default_port() -> (port: u16)
    ensures
        port == spec_default_port(),
{
    6697
}

/// The keys that the providers ask for.
#[derive(Debug, Clone)]
pub struct Keys {
    pub imgur_client_id: String,
    pub twitter_app_key: String,
    pub twitter_app_secret: String,
    pub spotify_app_key: String,
    pub spotify_app_secret: String,
    pub youtube_developer_key: String,
}

} // verus!
