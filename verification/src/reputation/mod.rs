//! Reputation: endorsement errors and the rules of the endorsement and
//! ID.me verification handlers.
pub mod http;
pub mod idme;
pub mod service;
