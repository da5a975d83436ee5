//! Trust graph: endorsement weights, action types, and path diversity.
pub mod flow_theory;
pub mod max_flow;
pub mod service;
pub mod weight;
pub mod action_queue;
pub mod constraints;
pub mod engine;
pub mod worker;
pub mod http;
pub mod paths;
