//! Plain records that the checker hands to editors and command-line output.
use vstd::prelude::*;

verus! {

/// The errors reported for one call or construction site, by source offsets.
#[derive(Clone, Debug)]
pub struct EscCallReport {
    pub start: u32,
    pub end: u32,
    pub errors: Vec<String>,
    pub uncaught: Vec<String>,
}

/// A checker diagnostic covering a source range.
#[derive(Clone, Debug)]
pub struct EscCheckDiagnostic {
    pub start: u32,
    pub end: u32,
    pub message: String,
}

} // verus!
