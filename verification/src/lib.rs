//! Capability-based authentication with rcans: capabilities and the rules of
//! permission, the text form of tokens, the store of known endpoints, and the
//! decisions of the authentication and editor services.

pub mod auth;
pub mod caps;
pub mod capset;
pub mod capstack;
pub mod connect;
pub mod id_db;
pub mod id_store;
pub mod irpc;
pub mod repl;
pub mod text;
pub mod token;
