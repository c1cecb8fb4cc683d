//! What holds between the payloader, the depacketizer and the classifier.

use crate::error::Error;
use crate::nal::{
    framed, nalu_ref_idc, nalu_type, FUA_NALU_TYPE, FUB_NALU_TYPE, FU_END_BITMASK,
    FU_START_BITMASK, STAPA_NALU_TYPE,
};
use crate::packet::{depacketized, fu_a_nalu_header, stap_a_size, stap_a_units};
use crate::partition::partition_head;
use crate::payloader::{
    emitted, fragment_count, fu_a_fragment, is_dropped_type, lemma_fragment_count, payloads_of,
    units_from,
};
use crate::scan::next_start_code;
use vstd::prelude::*;

verus! {

/// The state of a depacketizer after a list of payloads, fed in order: what
/// each of them gave, and the fragments kept at the end; or the first
/// rejection.
pub open spec fn depacketized_all(is_avc: bool, pending: Seq<u8>, payloads: Seq<Seq<u8>>) -> Result<
    (Seq<Seq<u8>>, Seq<u8>),
    Error,
>
    decreases payloads.len(),
{
    if payloads.len() == 0 {
        Ok((Seq::empty(), pending))
    } else {
        match depacketized_all(is_avc, pending, payloads.drop_last()) {
            Ok((outputs, kept)) => match depacketized(is_avc, kept, payloads.last()) {
                Ok((output, kept_after)) => Ok((outputs.push(output), kept_after)),
                Err(e) => Err(e),
            },
            Err(e) => Err(e),
        }
    }
}

/// The header of a NAL unit without its forbidden bit: `nal_ref_idc` and type.
pub open spec fn nalu_header_fields(header: u8) -> u8 {
    nalu_ref_idc(header) | nalu_type(header)
}

/// A stream without a start code is sent as one NAL unit.
pub proof fn lemma_payloads_of_one_unit(stream: Seq<u8>, mtu: int)
    requires
        next_start_code(stream, 0) is None,
    ensures
        payloads_of(stream, mtu) == if stream.len() == 0 || mtu == 0 {
            Seq::empty()
        } else {
            emitted(stream, mtu)
        },
{
}

/// An empty stream gives no payload, and with an MTU of zero no stream does.
pub proof fn lemma_degenerate_input(stream: Seq<u8>, mtu: int)
    ensures
        payloads_of(Seq::empty(), mtu) == Seq::<Seq<u8>>::empty(),
        payloads_of(stream, 0) == Seq::<Seq<u8>>::empty(),
{
}

/// A NAL unit of a dropped type gives no payload, whatever the MTU; and so
/// does a stream that is one such NAL unit and holds no start code.
pub proof fn lemma_dropped_types(nalu: Seq<u8>, mtu: int)
    requires
        nalu.len() > 0,
        is_dropped_type(nalu_type(nalu[0])),
    ensures
        emitted(nalu, mtu) == Seq::<Seq<u8>>::empty(),
        next_start_code(nalu, 0) is None ==> payloads_of(nalu, mtu) == Seq::<Seq<u8>>::empty(),
{
}

/// A NAL unit of a type from 1 to 23 that is sent at all, holds no start code
/// and fits the MTU is sent as it is, in one payload; and from that payload,
/// if it has more than two bytes, a depacketizer gives the NAL unit back
/// behind its prefix and keeps what it had gathered.
pub proof fn lemma_single_nal_round_trip(nalu: Seq<u8>, mtu: int, is_avc: bool, pending: Seq<u8>)
    requires
        0 < nalu.len() <= mtu,
        1 <= nalu_type(nalu[0]) <= 23,
        !is_dropped_type(nalu_type(nalu[0])),
        next_start_code(nalu, 0) is None,
    ensures
        payloads_of(nalu, mtu) == seq![nalu],
        nalu.len() > 2 ==> depacketized(is_avc, pending, nalu) == Ok::<
            (Seq<u8>, Seq<u8>),
            Error,
        >((framed(is_avc, nalu), pending)),
{
}

/// How the bits of the two header bytes of a fragment combine.
proof fn lemma_fu_bits(h: u8)
    by (bit_vector)
    ensures
        (28u8 | (h & 0x60)) & 0x1f == 28,
        (28u8 | (h & 0x60)) & 0x60 == h & 0x60,
        (h & 0x1f) & 0x1f == h & 0x1f,
        (h & 0x1f) & 0x80 == 0,
        (h & 0x1f) & 0x40 == 0,
        ((h & 0x1f) | 0x80) & 0x1f == h & 0x1f,
        ((h & 0x1f) | 0x80) & 0x80 != 0,
        ((h & 0x1f) | 0x80) & 0x40 == 0,
        ((h & 0x1f) | 0x40) & 0x1f == h & 0x1f,
        ((h & 0x1f) | 0x40) & 0x80 == 0,
        ((h & 0x1f) | 0x40) & 0x40 != 0,
        (((h & 0x1f) | 0x80) | 0x40) & 0x1f == h & 0x1f,
        (((h & 0x1f) | 0x80) | 0x40) & 0x80 != 0,
        (((h & 0x1f) | 0x80) | 0x40) & 0x40 != 0,
{
}

/// The shape of fragment `k` of a NAL unit cut at `max` bytes: it is an FU-A
/// payload of at least three and at most `max + 2` bytes; its start bit is
/// set on the first fragment only and its end bit on the last only; its two
/// header bytes give back `nal_ref_idc` and type of the NAL unit; and its
/// data are the next `max` bytes of the NAL unit, or those that are left.
pub proof fn lemma_fragment_shape(nalu: Seq<u8>, max: int, k: int)
    requires
        0 < max,
        1 < nalu.len(),
        0 <= k < fragment_count(nalu.len() - 1, max),
    ensures
        ({
            let f = fu_a_fragment(nalu, max, k);
            let count = fragment_count(nalu.len() - 1, max);
            let from = 1 + k * max;
            let to = if k == count - 1 {
                nalu.len() as int
            } else {
                from + max
            };
            &&& 1 <= from < to <= nalu.len()
            &&& 3 <= f.len() <= max + 2
            &&& nalu_type(f[0]) == FUA_NALU_TYPE
            &&& (f[1] & FU_START_BITMASK != 0) <==> k == 0
            &&& (f[1] & FU_END_BITMASK != 0) <==> k == count - 1
            &&& fu_a_nalu_header(f[0], f[1]) == nalu_header_fields(nalu[0])
            &&& f.subrange(2, f.len() as int) == nalu.subrange(from, to)
        }),
{
    let f = fu_a_fragment(nalu, max, k);
    let n = nalu.len() - 1;
    let count = fragment_count(n, max);
    let from = 1 + k * max;
    assert(k * max >= 0) by (nonlinear_arith)
        requires
            k >= 0,
            max > 0,
    ;
    if k * max >= n {
        assert(k * max < n) by {
            vstd::arithmetic::div_mod::lemma_fundamental_div_mod(n + max - 1, max);
            assert(max * count == count * max) by (nonlinear_arith);
            assert((count - 1) * max == count * max - max) by (nonlinear_arith);
            assert(k * max <= (count - 1) * max) by (nonlinear_arith)
                requires
                    k <= count - 1,
                    max > 0,
            ;
        }
    }
    lemma_fragment_count(n, max, k);
    assert((k + 1) * max == k * max + max) by (nonlinear_arith);
    lemma_fu_bits(nalu[0]);
    let to = if k == count - 1 {
        nalu.len() as int
    } else {
        from + max
    };
    assert(f.subrange(2, f.len() as int) =~= nalu.subrange(from, to));
}

/// The fragments of a NAL unit cut at `max` bytes.
pub open spec fn fu_a_fragments(nalu: Seq<u8>, max: int) -> Seq<Seq<u8>> {
    Seq::new(fragment_count(nalu.len() - 1, max) as nat, |k: int| fu_a_fragment(nalu, max, k))
}

/// A depacketizer that has gathered nothing and is fed the first `j`
/// fragments of a NAL unit, the last one not among them, gives nothing for
/// each and has then gathered the first `j * max` bytes after the NAL unit's
/// header.
pub proof fn lemma_fragments_gathered(nalu: Seq<u8>, max: int, is_avc: bool, j: int)
    requires
        0 < max,
        1 < nalu.len(),
        0 <= j < fragment_count(nalu.len() - 1, max),
    ensures
        1 + j * max <= nalu.len(),
        depacketized_all(is_avc, Seq::empty(), fu_a_fragments(nalu, max).take(j)) == Ok::<
            (Seq<Seq<u8>>, Seq<u8>),
            Error,
        >((Seq::new(j as nat, |i: int| Seq::<u8>::empty()), nalu.subrange(1, 1 + j * max))),
    decreases j,
{
    let fragments = fu_a_fragments(nalu, max);
    if j == 0 {
        assert(0 * max == 0) by (nonlinear_arith);
        assert(fragments.take(0) =~= Seq::<Seq<u8>>::empty());
        assert(Seq::new(0 as nat, |i: int| Seq::<u8>::empty()) =~= Seq::<Seq<u8>>::empty());
        assert(nalu.subrange(1, 1) =~= Seq::<u8>::empty());
    } else {
        let k = j - 1;
        lemma_fragments_gathered(nalu, max, is_avc, k);
        lemma_fragment_shape(nalu, max, k);
        assert((k + 1) * max == k * max + max) by (nonlinear_arith);
        let f = fragments[k];
        assert(fragments.take(j).drop_last() =~= fragments.take(k));
        assert(fragments.take(j).last() == f);
        let gathered = nalu.subrange(1, 1 + k * max);
        assert(gathered + f.subrange(2, f.len() as int) =~= nalu.subrange(1, 1 + j * max));
        assert(Seq::new(k as nat, |i: int| Seq::<u8>::empty()).push(Seq::<u8>::empty())
            =~= Seq::new(j as nat, |i: int| Seq::<u8>::empty()));
    }
}

/// What a depacketizer gives for the fragments of a NAL unit: nothing for
/// each but the last, and then the NAL unit behind its prefix, its header
/// without the forbidden bit.
pub open spec fn rebuilt(is_avc: bool, nalu: Seq<u8>, count: int) -> Seq<Seq<u8>> {
    Seq::new(
        count as nat,
        |k: int|
            if k == count - 1 {
                framed(
                    is_avc,
                    seq![nalu_header_fields(nalu[0])] + nalu.subrange(1, nalu.len() as int),
                )
            } else {
                Seq::empty()
            },
    )
}

/// A NAL unit that does not fit the MTU, is of a type that is sent, holds no
/// start code and meets an MTU of at least three is sent as two or more FU-A
/// payloads, none longer than the MTU. The start bit is set on the first of
/// them only, the end bit on the last only. A depacketizer that has gathered
/// nothing and is fed them in order gives nothing for each but the last, and
/// for the last the NAL unit behind its prefix: the bytes after its header as
/// they were, and a header with its `nal_ref_idc` and type. It has then
/// gathered nothing again.
pub proof fn lemma_fragmentation_round_trip(nalu: Seq<u8>, mtu: int, is_avc: bool)
    requires
        2 < mtu < nalu.len(),
        !is_dropped_type(nalu_type(nalu[0])),
        next_start_code(nalu, 0) is None,
    ensures
        ({
            let payloads = payloads_of(nalu, mtu);
            let count = payloads.len() as int;
            &&& count == fragment_count(nalu.len() - 1, mtu - 2)
            &&& count >= 2
            &&& forall|k: int|
                0 <= k < count ==> {
                    &&& 3 <= (#[trigger] payloads[k]).len() <= mtu
                    &&& nalu_type(payloads[k][0]) == FUA_NALU_TYPE
                    &&& (payloads[k][1] & FU_START_BITMASK != 0) <==> k == 0
                    &&& (payloads[k][1] & FU_END_BITMASK != 0) <==> k == count - 1
                }
            &&& depacketized_all(is_avc, Seq::empty(), payloads) == Ok::<
                (Seq<Seq<u8>>, Seq<u8>),
                Error,
            >((rebuilt(is_avc, nalu, count), Seq::empty()))
        }),
{
    let max = mtu - 2;
    let n = nalu.len() - 1;
    let payloads = payloads_of(nalu, mtu);
    let count = fragment_count(n, max);
    assert(payloads == fu_a_fragments(nalu, max));
    assert(count >= 2) by {
        assert(0 * max == 0) by (nonlinear_arith);
        assert(1 * max == max) by (nonlinear_arith);
        lemma_fragment_count(n, max, 0);
        lemma_fragment_count(n, max, 1);
    }
    assert forall|k: int| 0 <= k < count implies {
        &&& 3 <= (#[trigger] payloads[k]).len() <= mtu
        &&& nalu_type(payloads[k][0]) == FUA_NALU_TYPE
        &&& (payloads[k][1] & FU_START_BITMASK != 0) <==> k == 0
        &&& (payloads[k][1] & FU_END_BITMASK != 0) <==> k == count - 1
    } by {
        lemma_fragment_shape(nalu, max, k);
    }
    let last = count - 1;
    lemma_fragments_gathered(nalu, max, is_avc, last);
    lemma_fragment_shape(nalu, max, last);
    let f = payloads[last];
    assert(payloads.drop_last() =~= payloads.take(last));
    assert(payloads.last() == f);
    let gathered = nalu.subrange(1, 1 + last * max);
    assert(gathered + f.subrange(2, f.len() as int) =~= nalu.subrange(1, nalu.len() as int));
    assert(Seq::new(last as nat, |i: int| Seq::<u8>::empty()).push(
        framed(is_avc, seq![nalu_header_fields(nalu[0])] + nalu.subrange(1, nalu.len() as int)),
    ) =~= rebuilt(is_avc, nalu, count));
}

/// The two bytes of a size field: the size, most significant byte first.
pub open spec fn be16(n: int) -> Seq<u8> {
    seq![(n / 256) as u8, (n % 256) as u8]
}

/// A STAP-A payload that holds two NAL units, each behind its size, gives
/// the first behind its prefix and then the second behind its own; what the
/// depacketizer had gathered stays.
pub proof fn lemma_stap_a_two_units(
    is_avc: bool,
    pending: Seq<u8>,
    indicator: u8,
    a: Seq<u8>,
    b: Seq<u8>,
)
    requires
        nalu_type(indicator) == STAPA_NALU_TYPE,
        a.len() <= 0xffff,
        b.len() <= 0xffff,
    ensures
        depacketized(
            is_avc,
            pending,
            seq![indicator] + be16(a.len() as int) + a + be16(b.len() as int) + b,
        ) == Ok::<(Seq<u8>, Seq<u8>), Error>((framed(is_avc, a) + framed(is_avc, b), pending)),
{
    let p = seq![indicator] + be16(a.len() as int) + a + be16(b.len() as int) + b;
    let second = 3 + a.len() as int;
    let end = p.len() as int;
    assert(end == a.len() + b.len() + 5);
    assert(stap_a_size(p, 1) == a.len());
    assert(stap_a_size(p, second) == b.len());
    assert(p.subrange(3, second) =~= a);
    assert(p.subrange(second + 2, end) =~= b);
    assert(stap_a_units(is_avc, p, end) == Ok::<Seq<u8>, Error>(Seq::empty()));
    assert(stap_a_units(is_avc, p, second) == Ok::<Seq<u8>, Error>(framed(is_avc, b))) by {
        assert(framed(is_avc, b) + Seq::<u8>::empty() =~= framed(is_avc, b));
    }
    assert(stap_a_units(is_avc, p, 1) == Ok::<Seq<u8>, Error>(
        framed(is_avc, a) + framed(is_avc, b),
    ));
}

/// A STAP-A payload whose first size field declares more than the bytes that
/// follow it is rejected, with the declared size and the number of bytes
/// that were left.
pub proof fn lemma_stap_a_unit_too_large(
    is_avc: bool,
    pending: Seq<u8>,
    indicator: u8,
    declared: int,
    a: Seq<u8>,
)
    requires
        nalu_type(indicator) == STAPA_NALU_TYPE,
        a.len() < declared <= 0xffff,
    ensures
        depacketized(is_avc, pending, seq![indicator] + be16(declared) + a) == Err::<
            (Seq<u8>, Seq<u8>),
            Error,
        >(Error::StapAUnitTooLarge { declared: declared as usize, available: a.len() as usize }),
{
    let p = seq![indicator] + be16(declared) + a;
    assert(p.len() == a.len() + 3);
    assert(stap_a_size(p, 1) == declared);
}

/// Which payloads are the head of a partition: none of fewer than two bytes;
/// of the longer ones every one that is no fragment, such as a single NAL
/// unit or a STAP-A payload, and a fragment exactly if its start bit is set.
pub proof fn lemma_partition_head_cases(packet: Seq<u8>)
    ensures
        packet.len() < 2 ==> !partition_head(packet),
        packet.len() >= 2 && nalu_type(packet[0]) != FUA_NALU_TYPE && nalu_type(packet[0])
            != FUB_NALU_TYPE ==> partition_head(packet),
        packet.len() >= 2 && 1 <= nalu_type(packet[0]) <= 23 ==> partition_head(packet),
        packet.len() >= 2 && nalu_type(packet[0]) == STAPA_NALU_TYPE ==> partition_head(packet),
        packet.len() >= 2 && (nalu_type(packet[0]) == FUA_NALU_TYPE || nalu_type(packet[0])
            == FUB_NALU_TYPE) ==> (partition_head(packet) <==> packet[1] & FU_START_BITMASK != 0),
{
}

/// Of the payloads of a fragmented NAL unit only the first is the head of a
/// partition.
pub proof fn lemma_fragments_partition_head(nalu: Seq<u8>, max: int, k: int)
    requires
        0 < max,
        1 < nalu.len(),
        0 <= k < fragment_count(nalu.len() - 1, max),
    ensures
        partition_head(fu_a_fragment(nalu, max, k)) <==> k == 0,
{
    lemma_fragment_shape(nalu, max, k);
}

/// What an accepted payload does to the fragments gathered so far: a
/// fragment that is not the last is added behind them, the last fragment
/// leaves none, and any other payload leaves them as they were.
pub proof fn lemma_pending_grows_or_resets(is_avc: bool, pending: Seq<u8>, packet: Seq<u8>)
    requires
        depacketized(is_avc, pending, packet) is Ok,
    ensures
        ({
            let kept = depacketized(is_avc, pending, packet)->Ok_0.1;
            if nalu_type(packet[0]) != FUA_NALU_TYPE {
                kept == pending
            } else if packet[1] & FU_END_BITMASK != 0 {
                kept == Seq::<u8>::empty()
            } else {
                &&& kept == pending + packet.subrange(2, packet.len() as int)
                &&& kept.len() > pending.len()
            }
        }),
{
}

/// No payload for a NAL unit is empty or longer than the MTU.
pub proof fn lemma_emitted_fits_mtu(nalu: Seq<u8>, mtu: int)
    ensures
        forall|i: int|
            0 <= i < emitted(nalu, mtu).len() ==> 0 < (#[trigger] emitted(nalu, mtu)[i]).len()
                <= mtu,
{
    assert forall|i: int| 0 <= i < emitted(nalu, mtu).len() implies 0 < (#[trigger] emitted(
        nalu,
        mtu,
    )[i]).len() <= mtu by {
        if nalu.len() > mtu {
            lemma_fragment_shape(nalu, mtu - 2, i);
        }
    }
}

/// No payload for the NAL units of a stream from `start` on is empty or
/// longer than the MTU.
pub proof fn lemma_units_fit_mtu(stream: Seq<u8>, start: int, mtu: int)
    requires
        0 <= start <= stream.len(),
    ensures
        forall|i: int|
            0 <= i < units_from(stream, start, mtu).len() ==> 0 < (#[trigger] units_from(
                stream,
                start,
                mtu,
            )[i]).len() <= mtu,
    decreases stream.len() - start,
{
    match next_start_code(stream, start) {
        Some((pos, len)) => {
            let first = emitted(stream.subrange(start, pos), mtu);
            let rest = units_from(stream, pos + len, mtu);
            lemma_emitted_fits_mtu(stream.subrange(start, pos), mtu);
            lemma_units_fit_mtu(stream, pos + len, mtu);
            assert forall|i: int| 0 <= i < (first + rest).len() implies 0 < (#[trigger] (first
                + rest)[i]).len() <= mtu by {
                if i < first.len() {
                    assert((first + rest)[i] == first[i]);
                } else {
                    assert((first + rest)[i] == rest[i - first.len()]);
                }
            }
        },
        None => {
            lemma_emitted_fits_mtu(stream.subrange(start, stream.len() as int), mtu);
        },
    }
}

/// No payload for a stream is empty or longer than the MTU.
pub proof fn lemma_payloads_fit_mtu(stream: Seq<u8>, mtu: int)
    ensures
        forall|i: int|
            0 <= i < payloads_of(stream, mtu).len() ==> 0 < (#[trigger] payloads_of(
                stream,
                mtu,
            )[i]).len() <= mtu,
{
    if stream.len() != 0 && mtu != 0 {
        match next_start_code(stream, 0) {
            Some((pos, len)) => {
                lemma_units_fit_mtu(stream, pos + len, mtu);
            },
            None => {
                lemma_emitted_fits_mtu(stream, mtu);
            },
        }
    }
}

} // verus!
