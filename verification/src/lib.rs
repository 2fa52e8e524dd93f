//! Driver logic for HD44780-compatible character displays in 4-bit mode,
//! behind an I2C GPIO expander or on six discrete lines.
//!
//! The driver decides which bytes, line levels and delays go out and in
//! which order; it records them on a [`bus::Bus`], and whoever owns the
//! hardware carries them out.

pub mod bus;
pub mod consts;
pub mod error;
pub mod laws;
pub mod layout;
pub mod lcd;
pub mod plan;
pub mod protocol;
pub mod state;
