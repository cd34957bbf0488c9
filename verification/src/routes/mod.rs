//! The order and timing in which a phone tries a paired computer's addresses.
//!
//! This is policy only: no sockets, clocks, or threads. Each app races the attempts with its own
//! transports and reports back what happened.
pub mod address;
pub mod ip;
pub mod plan;
pub mod advice;
pub mod fingerprint;
pub mod laws;
pub mod fingerprint_laws;
