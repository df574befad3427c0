//! Verified core of a flight-data collector: a line-oriented decoding
//! protocol for IMU samples arriving over a serial link, with a two-tier
//! error taxonomy, per-field aggregation, and CSV / binary encodings.

use vstd::prelude::*;

pub mod binary;
pub mod connector;
pub mod csv;
pub mod parse;
pub mod sample;

verus! {

} // verus!
