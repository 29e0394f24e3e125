//! The request-to-response core of an echo server: every request is mirrored
//! back, except where control headers override the status or the body.

pub mod address;
pub mod echo;
pub mod headers;
pub mod ip;
pub mod text;
pub mod trace;
pub mod wire;
