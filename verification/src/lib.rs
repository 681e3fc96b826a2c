//! Verified core of the `ds` DeepSeek command-line agent.
pub mod text;
pub mod order;
pub mod config;
pub mod terminal;
pub mod tools;
pub mod deepseek;
pub mod agent;
pub mod models;
pub mod guidance;
