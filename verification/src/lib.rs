//! Reputation and abuse-tracking core of a caller-admission engine.
//!
//! Three fixed-size structures, each mutated in place through an exclusive
//! reference and owned by whoever admits callers:
//!
//! - `codec`: a caller's fingerprint, score and revoked flag in one word;
//! - `sketch` and `estimate`: 256 four-bit registers that stand for the
//!   number of distinct clients seen, and the estimate read from them;
//! - `ring`: the most recent caller entries, with a bounded side-list of
//!   fingerprints that outlive the ring's rotation.
//!
//! `params` holds the sizes and caps that the three share.

pub mod params;
pub mod codec;
pub mod sketch;
pub mod estimate;
pub mod ring;
