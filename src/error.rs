//! Errors of RDR creation and decoding.
use vstd::prelude::*;

use crate::packet::PrimaryHeader;

verus! {

/// An error creating or manipulating an RDR granule.
#[derive(Debug, Clone, PartialEq, Eq)]
pub enum RdrError {
    /// An IET microseconds time value that cannot be used.
    InvalidTime(u64),
    /// A granule start before the spacecraft base time.
    InvalidGranuleStart(u64),
    /// A packet whose size or observation time does not fit the tracker fields.
    InvalidPacket(PrimaryHeader),
    /// A packet whose APID is not configured for the product it was routed to.
    InvalidPacketApid(u16),
    /// A count that does not fit its record field.
    IntError,
}

#[derive(Debug, Clone, PartialEq, Eq)]
pub enum Error {
    /// The clock could not be read.
    Failed,
    /// A buffer too short for the named fixed-layout structure.
    NotEnoughBytes(&'static str),
    /// A text field that is not UTF-8.
    Utf8Error,
    /// A configuration whose RDRs name unknown packed products.
    ConfigInvalid(String),
    RdrError(RdrError),
}

} // verus!
