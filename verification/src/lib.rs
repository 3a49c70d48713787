//! A small score ledger: players record plays and item uses, each producing an
//! immutable entry with a score, and a ranked view of the best entries can be
//! rendered. The ledger is persisted as a JSON document; encoding and decoding
//! are verified to round-trip losslessly.

pub mod codec;
pub mod ledger;
pub mod rank;
pub mod sys;
