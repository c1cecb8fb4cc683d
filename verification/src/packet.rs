//! Rebuilding NAL units from received payloads.

use crate::buf::{as_slice, buffered, content, put, put_u8, slice};
use crate::error::Error;
use crate::nal::{
    framed, low32_of, low32_of_next, nalu_ref_idc, nalu_type, put_prefix, FUA_HEADER_SIZE,
    FUA_NALU_TYPE, FU_END_BITMASK, NALU_REF_IDC_BITMASK, NALU_TYPE_BITMASK, STAPA_HEADER_SIZE,
    STAPA_NALU_LENGTH_SIZE, STAPA_NALU_TYPE,
};
use bytes::{Bytes, BytesMut};
use vstd::prelude::*;

verus! {

/// The size that the two bytes at `off` of a STAP-A payload declare.
pub open spec fn stap_a_size(p: Seq<u8>, off: int) -> int {
    p[off] * 256 + p[off + 1]
}

/// The NAL units of a STAP-A payload from offset `off` on, each behind its
/// prefix, one after the other; or the reason for which the payload is
/// rejected: a size field cut short by the end of the payload, or a size that
/// is more than what is left after it.
pub open spec fn stap_a_units(is_avc: bool, p: Seq<u8>, off: int) -> Result<Seq<u8>, Error>
    decreases p.len() - off,
{
    if off < 0 || off >= p.len() {
        Ok(Seq::empty())
    } else if p.len() - off < 2 {
        Err(Error::ShortPacket)
    } else {
        let declared = stap_a_size(p, off);
        let available = p.len() - (off + 2);
        if available < declared {
            Err(
                Error::StapAUnitTooLarge {
                    declared: declared as usize,
                    available: available as usize,
                },
            )
        } else {
            match stap_a_units(is_avc, p, off + 2 + declared) {
                Ok(rest) => Ok(framed(is_avc, p.subrange(off + 2, off + 2 + declared)) + rest),
                Err(e) => Err(e),
            }
        }
    }
}

/// The header of the NAL unit that an FU-A payload is a fragment of:
/// `nal_ref_idc` from the FU indicator, the type from the FU header.
pub open spec fn fu_a_nalu_header(indicator: u8, fu_header: u8) -> u8 {
    nalu_ref_idc(indicator) | nalu_type(fu_header)
}

/// What one payload does to a depacketizer whose fragments so far are
/// `pending`: the output of the call and the fragments kept after it, or the
/// reason for which the payload is rejected.
pub open spec fn depacketized(is_avc: bool, pending: Seq<u8>, p: Seq<u8>) -> Result<
    (Seq<u8>, Seq<u8>),
    Error,
> {
    if p.len() <= 2 {
        Err(Error::ShortPacket)
    } else if 1 <= nalu_type(p[0]) <= 23 {
        Ok((framed(is_avc, p), pending))
    } else if nalu_type(p[0]) == STAPA_NALU_TYPE {
        match stap_a_units(is_avc, p, 1) {
            Ok(out) => Ok((out, pending)),
            Err(e) => Err(e),
        }
    } else if nalu_type(p[0]) == FUA_NALU_TYPE {
        let gathered = pending + p.subrange(2, p.len() as int);
        if p[1] & FU_END_BITMASK != 0 {
            Ok((framed(is_avc, seq![fu_a_nalu_header(p[0], p[1])] + gathered), Seq::empty()))
        } else {
            Ok((Seq::empty(), gathered))
        }
    } else {
        Err(Error::UnhandledNaluType { nalu_type: nalu_type(p[0]) })
    }
}

/// Unpacks the NAL units of a STAP-A payload, which has at least its
/// indicator byte.
fn unpack_stap_a(packet: &Bytes, is_avc: bool) -> (result: Result<Bytes, Error>)
    requires
        content(packet).len() >= STAPA_HEADER_SIZE,
    ensures
        match stap_a_units(is_avc, content(packet), STAPA_HEADER_SIZE as int) {
            Ok(units) => result matches Ok(out) && content(&out) == units,
            Err(e) => result matches Err(r) && r == e,
        },
{
    let data = as_slice(packet);
    let ghost p = content(packet);
    let mut out = BytesMut::new();
    let mut curr_offset: usize = STAPA_HEADER_SIZE;
    assert(buffered(&out) + Seq::<u8>::empty() =~= Seq::<u8>::empty());
    while curr_offset < data.len()
        invariant
            data@ == p,
            p == content(packet),
            1 <= curr_offset <= p.len(),
            stap_a_units(is_avc, p, 1) == match stap_a_units(is_avc, p, curr_offset as int) {
                Ok(rest) => Ok::<Seq<u8>, Error>(buffered(&out) + rest),
                Err(e) => Err(e),
            },
        decreases p.len() - curr_offset,
    {
        if data.len() - curr_offset < STAPA_NALU_LENGTH_SIZE {
            return Err(Error::ShortPacket);
        }
        let hi = data[curr_offset];
        let lo = data[curr_offset + 1];
        let nalu_size = ((hi as usize) << 8) | (lo as usize);
        assert(nalu_size == hi * 256 + lo) by (bit_vector)
            requires
                nalu_size == ((hi as usize) << 8) | (lo as usize),
        ;
        curr_offset += STAPA_NALU_LENGTH_SIZE;
        if data.len() - curr_offset < nalu_size {
            return Err(
                Error::StapAUnitTooLarge {
                    declared: nalu_size,
                    available: data.len() - curr_offset,
                },
            );
        }
        let ghost before = buffered(&out);
        let ghost unit = framed(is_avc, p.subrange(curr_offset as int, curr_offset + nalu_size));
        put_prefix(&mut out, is_avc, low32_of(nalu_size));
        let part = slice(packet, curr_offset, curr_offset + nalu_size);
        put(&mut out, as_slice(&part));
        curr_offset += nalu_size;
        proof {
            assert(buffered(&out) =~= before + unit);
            match stap_a_units(is_avc, p, curr_offset as int) {
                Ok(rest) => {
                    assert(before + (unit + rest) =~= (before + unit) + rest);
                },
                Err(e) => {},
            }
        }
    }
    assert(buffered(&out) + Seq::<u8>::empty() =~= buffered(&out));
    Ok(out.freeze())
}

/// What a depacketizer holds, as plain values.
pub struct PacketState {
    /// Whether a rebuilt NAL unit gets its length as prefix (AVC) or the
    /// Annex-B start code.
    pub is_avc: bool,
    /// What the last accepted payload gave.
    pub payload: Seq<u8>,
    /// The fragments of a NAL unit gathered so far; empty where none is in
    /// progress.
    pub pending: Seq<u8>,
}

/// A depacketizer for one stream of H.264 payloads, fed in the order in which
/// they were sent. `payload` is what the last accepted payload gave.
#[derive(PartialEq, Debug, Clone)]
pub struct H264Packet {
    pub is_avc: bool,
    pub payload: Bytes,
    fua_buffer: Option<BytesMut>,
}

impl View for H264Packet {
    type V = PacketState;

    closed spec fn view(&self) -> PacketState {
        PacketState {
            is_avc: self.is_avc,
            payload: content(&self.payload),
            pending: match self.fua_buffer {
                Some(b) => buffered(&b),
                None => Seq::empty(),
            },
        }
    }
}

impl Default for H264Packet {
    /// A depacketizer in Annex-B mode with nothing gathered and an empty
    /// `payload`.
    fn default() -> (packet: H264Packet)
        ensures
            packet@ == (PacketState {
                is_avc: false,
                payload: Seq::empty(),
                pending: Seq::empty(),
            }),
    {
        H264Packet { is_avc: false, payload: Bytes::new(), fua_buffer: None }
    }
}

impl H264Packet {
    /// A depacketizer with nothing gathered and an empty `payload`.
    pub fn new(is_avc: bool) -> (packet: H264Packet)
        ensures
            packet@ == (PacketState { is_avc, payload: Seq::empty(), pending: Seq::empty() }),
    {
        H264Packet { is_avc, payload: Bytes::new(), fua_buffer: None }
    }

    /// Whether rebuilt NAL units get their length as prefix.
    pub fn is_avc(&self) -> (is_avc: bool)
        ensures
            is_avc == self@.is_avc,
    {
        self.is_avc
    }

    /// What the last accepted payload gave.
    pub fn payload(&self) -> (payload: &Bytes)
        ensures
            content(payload) == self@.payload,
    {
        &self.payload
    }

    /// Takes the next payload of the stream. Where it is accepted, `payload`
    /// becomes what it gave: a NAL unit behind its prefix for a single NAL
    /// unit, all its NAL units for a STAP-A payload, the whole rebuilt NAL
    /// unit for the last fragment of an FU-A sequence, and nothing for an
    /// earlier fragment, which is kept. Where it is rejected, nothing
    /// changes.
    pub fn depacketize(&mut self, packet: &Bytes) -> (result: Result<(), Error>)
        ensures
            match depacketized(old(self)@.is_avc, old(self)@.pending, content(packet)) {
                Ok((payload, pending)) => result is Ok && final(self)@ == (PacketState {
                    is_avc: old(self)@.is_avc,
                    payload,
                    pending,
                }),
                Err(e) => result == Err::<(), Error>(e) && *final(self) == *old(self),
            },
    {
        let data = as_slice(packet);
        if data.len() <= 2 {
            return Err(Error::ShortPacket);
        }
        let b0 = data[0];
        let kind = b0 & NALU_TYPE_BITMASK;
        let mut out = BytesMut::new();
        if 1 <= kind && kind <= 23 {
            put_prefix(&mut out, self.is_avc, low32_of(data.len()));
            put(&mut out, data);
            assert(buffered(&out) =~= framed(self.is_avc, data@));
            self.payload = out.freeze();
            Ok(())
        } else if kind == STAPA_NALU_TYPE {
            match unpack_stap_a(packet, self.is_avc) {
                Ok(units) => {
                    self.payload = units;
                    Ok(())
                },
                Err(e) => Err(e),
            }
        } else if kind == FUA_NALU_TYPE {
            let mut gathered = match self.fua_buffer.take() {
                Some(b) => b,
                None => BytesMut::new(),
            };
            let part = slice(packet, FUA_HEADER_SIZE, data.len());
            put(&mut gathered, as_slice(&part));
            let b1 = data[1];
            if b1 & FU_END_BITMASK != 0 {
                let header = (b0 & NALU_REF_IDC_BITMASK) | (b1 & NALU_TYPE_BITMASK);
                let gathered = gathered.freeze();
                let ghost unit = seq![header] + content(&gathered);
                put_prefix(&mut out, self.is_avc, low32_of_next(gathered.len()));
                put_u8(&mut out, header);
                put(&mut out, as_slice(&gathered));
                assert(buffered(&out) =~= framed(self.is_avc, unit));
                self.payload = out.freeze();
            } else {
                self.fua_buffer = Some(gathered);
                self.payload = Bytes::new();
            }
            Ok(())
        } else {
            Err(Error::UnhandledNaluType { nalu_type: kind })
        }
    }
}

} // verus!
