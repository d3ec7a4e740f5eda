//! The engine variants and their protocol constants.

pub mod api;
pub mod xmodem;
pub mod ymodem;
