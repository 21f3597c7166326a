//! A verified core for a dictionary attack against a single SHA-1 target
//! hash: scanning candidate lines, hashing them, detecting the first match,
//! and reporting progress through an ordered stream of typed events.
//!
//! The scan itself is pure: callers feed it the wordlist lines (however they
//! were obtained) and forward the produced [`msg::Message`] values to
//! whatever consumer displays them.

pub mod app_state;
pub mod digest;
pub mod msg;
pub mod target;
pub mod scan;
pub mod text;

use vstd::prelude::*;

verus! {

/// Length of a SHA-1 digest written as hexadecimal text.
pub const SHA1_HEX_LENGTH: usize = 40;

} // verus!
