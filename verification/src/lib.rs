//! Structured errors of a bucket metadata service.
//!
//! Every failure the service reports has a kind with a stable canonical
//! name and a default message ([`kind`]), is carried in an envelope that
//! pairs the name with a message ([`error`]), and travels as a fixed
//! textual record ([`wire`]).

pub mod error;
pub mod kind;
pub mod wire;
