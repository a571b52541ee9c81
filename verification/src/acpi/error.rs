//! What can go wrong reading the ACPI tables.
use vstd::prelude::*;

verus! {

/// An error reading the ACPI tables.
#[derive(Debug, Clone, Copy)]
pub enum AcpiError {
    InvalidChecksum,
    RsdpError(RsdpError),
}

/// An error reading the root system description pointer.
#[derive(Debug, Clone, Copy)]
pub enum RsdpError {
    NullPointer,
    InvalidRevision(u8),
    InvalidChecksum,
    InvalidSignature([u8; 8]),
}

impl From<RsdpError> for AcpiError {
    fn from(e: RsdpError) -> (r: Self) {
        AcpiError::RsdpError(e)
    }
}

impl vstd::std_specs::convert::FromSpecImpl<RsdpError> for AcpiError {
    open spec fn obeys_from_spec() -> bool {
        true
    }

    open spec fn from_spec(e: RsdpError) -> AcpiError {
        AcpiError::RsdpError(e)
    }
}

} // verus!
