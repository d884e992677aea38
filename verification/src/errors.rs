//! Error taxonomy. Upstream decode failures abort a run; a player-info
//! string-table payload that cannot be decoded at all is reported to the
//! caller; every other irregularity of the input is absorbed silently by
//! design.

use vstd::prelude::*;

verus! {

/// Declares bitbuffer's error type, the payload of a failed string-table
/// decode, so that it can be carried through the trusted boundary.
#[verifier::external_type_specification]
#[verifier::external_body]
pub struct ExBitError(bitbuffer::BitError);

/// An error the engine reports to its caller.
#[derive(Debug)]
pub enum DemoError {
    /// A player-info string-table payload that could not be decoded at all.
    StringTableDecode(bitbuffer::BitError),
}

impl DemoError {
    /// A short display name for the error kind.
    pub fn describe(&self) -> (r: &'static str)
        ensures
            r@ == "malformed player-info string-table payload"@,
    {
        match self {
            DemoError::StringTableDecode(_) => "malformed player-info string-table payload",
        }
    }
}

} // verus!
