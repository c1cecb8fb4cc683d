//! Telling whether a payload starts a new NAL unit.

use crate::buf::{as_slice, content};
use crate::nal::{
    nalu_type, FUA_NALU_TYPE, FUB_NALU_TYPE, FU_START_BITMASK, NALU_TYPE_BITMASK,
};
use bytes::Bytes;
use vstd::prelude::*;

verus! {

/// A payload is the head of a partition where it has at least two bytes and,
/// if it is a fragment (FU-A or FU-B), the start bit of its FU header is set.
pub open spec fn partition_head(packet: Seq<u8>) -> bool {
    &&& packet.len() >= 2
    &&& (nalu_type(packet[0]) == FUA_NALU_TYPE || nalu_type(packet[0]) == FUB_NALU_TYPE)
        ==> packet[1] & FU_START_BITMASK != 0
}

/// Checks whether a payload is the head of a partition.
pub struct H264PartitionHeadChecker;

impl H264PartitionHeadChecker {
    /// Whether `packet` starts a new NAL unit rather than going on with a
    /// fragmented one.
    pub fn is_partition_head(packet: &Bytes) -> (head: bool)
        ensures
            head == partition_head(content(packet)),
    {
        let data = as_slice(packet);
        if data.len() < 2 {
            return false;
        }
        if data[0] & NALU_TYPE_BITMASK == FUA_NALU_TYPE || data[0] & NALU_TYPE_BITMASK
            == FUB_NALU_TYPE {
            (data[1] & FU_START_BITMASK) != 0
        } else {
            true
        }
    }
}

} // verus!
