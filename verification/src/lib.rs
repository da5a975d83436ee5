//! Verified core of the TinyCongress service: trust-graph path diversity,
//! trust actions, room rules and content helpers.
pub mod trust;
pub mod text;
pub mod seed;
pub mod sim;
pub mod rooms;
pub mod reply;
pub mod ids;
pub mod codec;
pub mod reputation;
pub mod rest;
pub mod storage;
pub mod validation;
