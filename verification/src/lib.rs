//! Verified core of a command-line and MCP client for Fastmail's JMAP API.
pub mod text;


pub mod models;
pub mod addresses;
pub mod files;
pub mod vcard;
pub mod json;
pub mod error;
pub mod jmap;
pub mod projection;
pub mod config;
pub mod gql;
pub mod nonce;
pub mod html;
pub mod compose;
pub mod outgoing;
pub mod responses;
pub mod transport;
pub mod requests;
pub mod mutations;
pub mod carddav;
pub mod attachments;
pub mod session;
