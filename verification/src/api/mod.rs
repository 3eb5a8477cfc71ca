//! Configuration of the echo canceller.
pub mod config;
