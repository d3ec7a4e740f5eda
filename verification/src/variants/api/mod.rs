//! The engines behind the variant modules.

pub mod xmodem;
pub mod ymodem;
