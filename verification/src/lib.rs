//! Change detection for syndication feeds.
//!
//! Polling a feed repeatedly raises one question worth getting right: which
//! entries are new since the last run? This crate answers it with a
//! content-addressed identity scheme. Each entry is fingerprinted by its
//! link alone, the fingerprints seen on the previous run are kept as a
//! persisted snapshot, and a diff of the two decides what to report. A
//! small escape-aware scanner turns a raw configuration string into the
//! ordered text-substitution rules applied to notification bodies.

pub mod chars;
pub mod describe;
pub mod diff;
pub mod fingerprint;
pub mod rules;
pub mod store;

pub use fingerprint::Entry;
