//! Signal processing, decisions and buffers of an acoustic echo canceller and of an
//! adaptive gain controller, with machine-checked contracts.
//!
//! Signals are made of numbers of any type with arithmetic operators and an order,
//! such as the floating-point types. The contracts say which operations a result
//! comes from; see [`audio_processing::arithmetic`].
pub mod api;
pub mod audio_processing;
