//! A scanner for legacy Bitcoin signature-hash modes.
//!
//! The library keeps a streaming view of unspent transaction outputs while
//! blocks are processed in height order, classifies each spent output's
//! script, and reads the one-byte signature-hash flag out of the spending
//! script.  A spend signed with SIGHASH_SINGLE (with or without
//! ANYONECANPAY) on a pay-to-public-key or pay-to-public-key-hash output is
//! reported as a finding.

pub mod ledger;
pub mod scan;
pub mod script;
pub mod sighash;
