//! Demo seed worker: configuration, LLM prompts, and content bookkeeping.
pub mod config;
pub mod content;
pub mod llm;
pub mod accounts;
