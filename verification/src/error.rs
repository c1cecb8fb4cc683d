//! Why a payload is rejected.

use vstd::prelude::*;

verus! {

/// The reasons for which a received payload is rejected.
#[derive(Debug, Clone, Copy, PartialEq, Eq, Structural)]
pub enum Error {
    /// The payload is too short to hold what its type announces.
    ShortPacket,
    /// A NAL unit of a STAP-A payload declares more bytes than are left.
    StapAUnitTooLarge { declared: usize, available: usize },
    /// The payload's NAL unit type is not one that is depacketized.
    UnhandledNaluType { nalu_type: u8 },
}

} // verus!
