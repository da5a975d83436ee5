//! Rooms: request/response shapes, the rules applied to room requests, and
//! the vote distribution bookkeeping.
pub mod content_filter;
pub mod http;
pub mod polling;
pub mod ranking;
pub mod repo;
pub mod service;
