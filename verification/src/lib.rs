//! Verified XMODEM / YMODEM file-transfer protocol engines.
//!
//! The engines are driven against an octet-oriented duplex channel with a
//! caller-configured receive timeout.  The channel, the payload producer and
//! the payload consumer are abstracted as traits whose behaviour is pinned
//! down by specifications; deterministic in-memory implementations backed by
//! `Vec` are provided for use in proofs and tests, while adapters over real
//! devices can live outside the verified core.

pub mod chan;
pub mod common;
pub mod laws;
pub mod model;
pub mod ymodem_spec;
pub mod xmodem;
pub mod variants;
