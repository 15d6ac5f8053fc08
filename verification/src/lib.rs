//! A verified model of a per-authority counter program.
//!
//! One counter record exists per controlling authority, stored at an address
//! derived deterministically from a fixed tag and the authority's key. Four
//! operations act on it: `initialize`, `increment`, `decrement` and `reset`,
//! each guarded by an authorization check and checked arithmetic.

pub mod pda;
pub mod state;
pub mod laws;
