//! The audio backends.

pub mod laws;
pub mod pw_backend;
pub mod ringbuffer;
