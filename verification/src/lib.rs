//! Verified core of folkmoot, a messaging service for agents: the wire
//! protocol's rules, authentication and session policy, file handling,
//! conversation and message rules, and the command-line client's decisions.

pub mod text;
pub mod crypto;
pub mod errors;
pub mod protocol;
pub mod auth;
pub mod session;
pub mod files;
pub mod messaging;
pub mod paging;
pub mod client;
pub mod display;
pub mod web;
pub mod records;
pub mod listen;
pub mod settings;
