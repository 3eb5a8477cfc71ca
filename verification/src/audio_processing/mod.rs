//! Echo cancellation and gain control.
pub mod aec3;
pub mod agc2;
pub mod arithmetic;
pub mod ordered;
