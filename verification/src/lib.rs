//! Verified core of a Spotify statistics and playlist tool: the OAuth2
//! loopback callback protocol, playlist duplicate detection and removal
//! planning, request construction and the small text helpers around them.

pub mod apply;
pub mod authorize;
pub mod client;
pub mod duplicates;
pub mod flow;
pub mod helpers;
pub mod library;
pub mod mock_data;
pub mod models;
pub mod oauth;
pub mod ordering;
pub mod query;
pub mod recent;
pub mod removal;
pub mod snapshot;
pub mod text;
pub mod toast;
pub mod token;
pub mod transfer;
pub mod urlencode;
