//! H.264 payload format for RTP (RFC 6184): splitting an elementary stream
//! into MTU-sized payloads, rebuilding NAL units from received payloads, and
//! telling whether a payload starts a new NAL unit.
//!
//! Every function is verified against a contract over the bytes that the
//! buffers hold; `laws` states what holds between the functions. The
//! contracts of the `bytes` crate, in `buf`, are assumed.

pub mod buf;
pub mod error;
pub mod laws;
pub mod nal;
pub mod packet;
pub mod partition;
pub mod payloader;
pub mod scan;

pub use error::Error;
pub use packet::H264Packet;
pub use partition::H264PartitionHeadChecker;
pub use payloader::H264Payloader;
