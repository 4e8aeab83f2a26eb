//! Converts transaction exports of two payment providers into one canonical
//! personal-ledger CSV schema: per-row extraction, reclassification of the
//! transaction direction, account canonicalization with a household-member
//! suffix, category inference, merge, descending stable sort by date, and
//! structural validation before the ledger text is produced.
#![verifier::loop_isolation(false)]

pub mod arguments;
pub mod datefmt;
pub mod num;
pub mod output;
pub mod outside;
pub mod pipeline;
pub mod rowproc;
pub mod text;
pub mod weixin;
pub mod zhifubao;

use vstd::prelude::*;

verus! {

/// The error kinds of the converter.
///
/// `Io` is raised by the surrounding program when a file cannot be read or
/// written; the library itself reports `Format` for a malformed canonical row,
/// `Validation` when the merged record set fails the structural check, and
/// `Config` for an unrecognized household-member selector.
#[derive(Debug)]
pub enum ConvertError {
    Io(String),
    Format(String),
    Validation(Vec<String>),
    Config(String),
}

} // verus!
