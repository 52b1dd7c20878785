//! The space packets that RDR granules are made of.
use vstd::prelude::*;

verus! {

/// The fields of a CCSDS primary header that RDRs record.
#[derive(Debug, Clone, Copy, PartialEq, Eq)]
pub struct PrimaryHeader {
    /// Application process identifier.
    pub apid: u16,
    /// The 14-bit packet sequence count.
    pub sequence_id: u16,
}

/// A space packet: its primary header and its bytes, header included.
#[derive(Debug, Clone, PartialEq, Eq)]
pub struct Packet {
    pub header: PrimaryHeader,
    pub data: Vec<u8>,
}

} // verus!
