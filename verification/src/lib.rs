//! Summaries for the links that turn up in a chat line.
//!
//! The crate finds the URLs in a line of text, recognises the provider behind
//! each of them, and turns what the provider answered into one line of reply.
//! Network traffic is left to the caller: every function here works on values
//! that the caller has already fetched.

pub mod collapse;
pub mod comms;
pub mod config;
pub mod dash;
pub mod html;
pub mod imgur;
pub mod json;
pub mod numbers;
pub mod parse;
pub mod qalc;
pub mod reddit;
pub mod reply;
pub mod sanitize;
pub mod spotify;
pub mod text;
pub mod titles;
pub mod twitter;
pub mod units;
pub mod webs;
pub mod youtube;
