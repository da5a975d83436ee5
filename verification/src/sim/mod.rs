//! Simulation worker: configuration, LLM prompts and mock data, and the
//! brand-ethics seeding rules.
pub mod brand;
pub mod client;
pub mod config;
pub mod content;
pub mod llm;
pub mod identity;
pub mod votes;
