//! Splitting an H.264 elementary stream into payloads of at most MTU bytes.

use crate::buf::{as_slice, buffered, content, put, put_u8, slice};
use crate::error::Error;
use crate::nal::{
    nalu_ref_idc, nalu_type, FUA_HEADER_SIZE, FUA_NALU_TYPE, FU_END_BITMASK, FU_START_BITMASK,
    NALU_REF_IDC_BITMASK, NALU_TYPE_BITMASK,
};
use crate::scan::{next_ind, next_start_code};
use bytes::{Bytes, BytesMut};
use vstd::prelude::*;

verus! {

/// What each payload of a list holds.
pub open spec fn fragments(payloads: Seq<Bytes>) -> Seq<Seq<u8>> {
    payloads.map_values(|b: Bytes| content(&b))
}

/// NAL units of these types (access unit delimiter, filler data) are not sent.
pub open spec fn is_dropped_type(kind: u8) -> bool {
    kind == 9 || kind == 12
}

/// How many fragments carry `data_len` bytes at up to `max` bytes each.
pub open spec fn fragment_count(data_len: int, max: int) -> int {
    (data_len + max - 1) / max
}

/// The FU header of a fragment: the type of the fragmented NAL unit, the
/// start bit on the first fragment, the end bit on the last.
pub open spec fn fu_header(header: u8, first: bool, last: bool) -> u8 {
    let kind = nalu_type(header);
    let started = if first {
        kind | FU_START_BITMASK
    } else {
        kind
    };
    if last {
        started | FU_END_BITMASK
    } else {
        started
    }
}

/// The FU indicator of the fragments of a NAL unit: type FU-A, with the
/// `nal_ref_idc` of the NAL unit.
pub open spec fn fu_indicator(header: u8) -> u8 {
    FUA_NALU_TYPE | nalu_ref_idc(header)
}

/// Fragment `k` of a NAL unit that is cut into fragments of `max` bytes (the
/// last one may be shorter): the two header bytes, then bytes
/// `1 + k * max ..` of the NAL unit. The header byte of the NAL unit itself is
/// not sent.
pub open spec fn fu_a_fragment(nalu: Seq<u8>, max: int, k: int) -> Seq<u8> {
    let count = fragment_count(nalu.len() - 1, max);
    let from = 1 + k * max;
    let to = if from + max < nalu.len() {
        from + max
    } else {
        nalu.len() as int
    };
    seq![fu_indicator(nalu[0]), fu_header(nalu[0], k == 0, k == count - 1)] + nalu.subrange(
        from,
        to,
    )
}

/// The payloads for one NAL unit: none for an empty one or one of a dropped
/// type; the NAL unit itself where it fits the MTU; else its FU-A fragments,
/// or none where the MTU leaves no room for a fragment's data.
pub open spec fn emitted(nalu: Seq<u8>, mtu: int) -> Seq<Seq<u8>> {
    let max = mtu - FUA_HEADER_SIZE;
    if nalu.len() == 0 || is_dropped_type(nalu_type(nalu[0])) {
        Seq::empty()
    } else if nalu.len() <= mtu {
        seq![nalu]
    } else if max <= 0 || nalu.len() - 1 <= 0 {
        Seq::empty()
    } else {
        Seq::new(
            fragment_count(nalu.len() - 1, max) as nat,
            |k: int| fu_a_fragment(nalu, max, k),
        )
    }
}

/// The payloads for the NAL units of `stream` that begin at `start` and after
/// each later start code.
pub open spec fn units_from(stream: Seq<u8>, start: int, mtu: int) -> Seq<Seq<u8>>
    decreases stream.len() - start,
{
    match next_start_code(stream, start) {
        Some((pos, len)) => emitted(stream.subrange(start, pos), mtu) + units_from(
            stream,
            pos + len,
            mtu,
        ),
        None => emitted(stream.subrange(start, stream.len() as int), mtu),
    }
}

/// The payloads for an elementary stream: none for an empty stream or an MTU
/// of zero; for a stream without a start code, those of the stream as one NAL
/// unit; else those of the NAL units after each start code, in order. What
/// stands before the first start code is not sent.
pub open spec fn payloads_of(stream: Seq<u8>, mtu: int) -> Seq<Seq<u8>> {
    if stream.len() == 0 || mtu == 0 {
        Seq::empty()
    } else {
        match next_start_code(stream, 0) {
            Some((pos, len)) => units_from(stream, pos + len, mtu),
            None => emitted(stream, mtu),
        }
    }
}

/// The last fragment is the one whose data reaches the end: with `n` bytes
/// at up to `max` each, fragment `k` is the last one exactly when `n` is at
/// most `(k + 1) * max`, and every fragment starts before the end.
pub proof fn lemma_fragment_count(n: int, max: int, k: int)
    requires
        0 < max,
        0 <= k,
        k * max < n,
    ensures
        k < fragment_count(n, max),
        (k + 1) * max >= n <==> k == fragment_count(n, max) - 1,
{
    let count = fragment_count(n, max);
    vstd::arithmetic::div_mod::lemma_fundamental_div_mod(n + max - 1, max);
    let r = (n + max - 1) % max;
    assert(n + max - 1 == max * count + r);
    assert(0 <= r < max);
    assert(max * count == count * max) by (nonlinear_arith);
    assert((k + 1) * max == k * max + max) by (nonlinear_arith);
    if k >= count {
        assert(k * max >= count * max) by (nonlinear_arith)
            requires
                k >= count,
                max > 0,
        ;
    }
    if k + 1 < count {
        assert((k + 1) * max <= (count - 1) * max) by (nonlinear_arith)
            requires
                k + 1 <= count - 1,
                max > 0,
        ;
        assert((count - 1) * max == count * max - max) by (nonlinear_arith);
    }
}

/// Once the fragments reach the end there are as many as the count says.
proof fn lemma_fragment_total(n: int, max: int, k: int)
    requires
        0 < max,
        0 < n,
        0 <= k <= fragment_count(n, max),
        k * max >= n,
    ensures
        k == fragment_count(n, max),
{
    let count = fragment_count(n, max);
    if k < count {
        vstd::arithmetic::div_mod::lemma_fundamental_div_mod(n + max - 1, max);
        assert(max * count == count * max) by (nonlinear_arith);
        assert((count - 1) * max == count * max - max) by (nonlinear_arith);
        assert(k * max <= (count - 1) * max) by (nonlinear_arith)
            requires
                k <= count - 1,
                max > 0,
        ;
    }
}

/// Appends to `payloads` the payloads for one NAL unit.
pub fn emit(nalu: &Bytes, mtu: usize, payloads: &mut Vec<Bytes>)
    ensures
        fragments(final(payloads)@) == fragments(old(payloads)@) + emitted(
            content(nalu),
            mtu as int,
        ),
{
    let ghost unit = content(nalu);
    let ghost before = fragments(payloads@);
    let data = as_slice(nalu);
    if data.len() == 0 {
        assert(before + emitted(unit, mtu as int) =~= before);
        return ;
    }
    let nalu_type = data[0] & NALU_TYPE_BITMASK;
    let nalu_ref_idc = data[0] & NALU_REF_IDC_BITMASK;
    if nalu_type == 9 || nalu_type == 12 {
        assert(before + emitted(unit, mtu as int) =~= before);
        return ;
    }
    if data.len() <= mtu {
        payloads.push(nalu.clone());
        assert(fragments(payloads@) =~= before + emitted(unit, mtu as int));
        return ;
    }
    if mtu <= FUA_HEADER_SIZE || data.len() <= 1 {
        assert(before + emitted(unit, mtu as int) =~= before);
        return ;
    }
    let max_fragment_size = mtu - FUA_HEADER_SIZE;
    let ghost max = max_fragment_size as int;
    let ghost count = fragment_count(unit.len() - 1, max);
    let mut nalu_data_index: usize = 1;
    let ghost mut k: int = 0;
    while nalu_data_index < data.len()
        invariant
            data@ == unit,
            unit == content(nalu),
            0 < max == max_fragment_size,
            max + FUA_HEADER_SIZE == mtu,
            count == fragment_count(unit.len() - 1, max),
            0 <= k <= count,
            nalu_data_index == if 1 + k * max < unit.len() {
                1 + k * max
            } else {
                unit.len() as int
            },
            1 < unit.len(),
            nalu_type == crate::nal::nalu_type(unit[0]),
            nalu_ref_idc == crate::nal::nalu_ref_idc(unit[0]),
            fragments(payloads@) == before + Seq::new(
                k as nat,
                |j: int| fu_a_fragment(unit, max, j),
            ),
        decreases unit.len() - nalu_data_index,
    {
        let remaining = data.len() - nalu_data_index;
        let current_fragment_size = if max_fragment_size < remaining {
            max_fragment_size
        } else {
            remaining
        };
        proof {
            lemma_fragment_count(unit.len() - 1, max, k);
            assert((k + 1) * max == k * max + max) by (nonlinear_arith);
        }
        let room = FUA_HEADER_SIZE + current_fragment_size;
        // A fragment is shorter than its NAL unit, so that the room asked
        // for stays within what `with_capacity` accepts on any real input.
        let mut out = if room <= isize::MAX as usize {
            BytesMut::with_capacity(room)
        } else {
            BytesMut::new()
        };
        put_u8(&mut out, FUA_NALU_TYPE | nalu_ref_idc);
        let mut b1 = nalu_type;
        if nalu_data_index == 1 {
            b1 |= FU_START_BITMASK;
        }
        if remaining == current_fragment_size {
            b1 |= FU_END_BITMASK;
        }
        put_u8(&mut out, b1);
        let chunk = slice(nalu, nalu_data_index, nalu_data_index + current_fragment_size);
        put(&mut out, as_slice(&chunk));
        let ghost fragment = buffered(&out);
        let ghost earlier = fragments(payloads@);
        payloads.push(out.freeze());
        proof {
            assert(nalu_data_index == 1 <==> k == 0) by {
                if k > 0 {
                    assert(k * max >= max) by (nonlinear_arith)
                        requires
                            k >= 1,
                            max > 0,
                    ;
                }
            }
            assert(fragment =~= fu_a_fragment(unit, max, k));
            assert(fragments(payloads@) =~= earlier.push(fragment));
            k = k + 1;
            assert(fragments(payloads@) =~= before + Seq::new(
                k as nat,
                |j: int| fu_a_fragment(unit, max, j),
            ));
        }
        nalu_data_index += current_fragment_size;
    }
    proof {
        lemma_fragment_total(unit.len() - 1, max, k);
    }
}

/// The payloader for H.264: it holds no state.
#[derive(Default, Debug, Copy, Clone)]
pub struct H264Payloader;

impl H264Payloader {
    /// Splits an elementary stream into payloads of at most `mtu` bytes, in
    /// the order of the stream. It never fails.
    pub fn payload(&mut self, mtu: usize, payload: &Bytes) -> (result: Result<Vec<Bytes>, Error>)
        ensures
            result matches Ok(payloads) && fragments(payloads@) == payloads_of(
                content(payload),
                mtu as int,
            ),
    {
        let ghost stream = content(payload);
        let mut payloads: Vec<Bytes> = Vec::new();
        if payload.is_empty() || mtu == 0 {
            assert(fragments(payloads@) =~= Seq::empty());
            return Ok(payloads);
        }
        let end = payload.len();
        let mut start: usize;
        match next_ind(payload, 0) {
            None => {
                assert(fragments(payloads@) =~= Seq::empty());
                emit(payload, mtu, &mut payloads);
                return Ok(payloads);
            },
            Some((pos, len)) => {
                start = pos + len;
            },
        }
        assert(fragments(payloads@) =~= Seq::empty());
        loop
            invariant
                stream == content(payload),
                end == stream.len(),
                start <= end,
                fragments(payloads@) + units_from(stream, start as int, mtu as int) == payloads_of(
                    stream,
                    mtu as int,
                ),
            decreases end - start,
        {
            let ghost earlier = fragments(payloads@);
            match next_ind(payload, start) {
                Some((pos, len)) => {
                    emit(&slice(payload, start, pos), mtu, &mut payloads);
                    proof {
                        let unit = emitted(stream.subrange(start as int, pos as int), mtu as int);
                        let rest = units_from(stream, pos + len, mtu as int);
                        assert((earlier + unit) + rest =~= earlier + (unit + rest));
                    }
                    start = pos + len;
                },
                None => {
                    emit(&slice(payload, start, end), mtu, &mut payloads);
                    return Ok(payloads);
                },
            }
        }
    }
}

} // verus!
