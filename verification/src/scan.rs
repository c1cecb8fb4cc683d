//! Finding Annex-B start codes: two or more zero bytes followed by a one.

use crate::buf::{as_slice, content};
use bytes::Bytes;
use vstd::prelude::*;

verus! {

/// A start code ends at index `j` of `s`, counting only bytes from `from` on:
/// `s[j]` is one and the two bytes before it are zero.
pub open spec fn code_ends_at(s: Seq<u8>, from: int, j: int) -> bool {
    &&& from + 2 <= j < s.len()
    &&& s[j] == 1
    &&& s[j - 1] == 0
    &&& s[j - 2] == 0
}

/// `pos` and `len` delimit the first start code of `s` at or after `from`:
/// the code is the whole run of zeros (not reaching back before `from`) with
/// the one that ends it, and no start code ends earlier.
pub open spec fn is_next_start_code(s: Seq<u8>, from: int, pos: int, len: int) -> bool {
    &&& 0 <= from <= pos
    &&& 3 <= len
    &&& pos + len <= s.len()
    &&& forall|k: int| pos <= k < pos + len - 1 ==> s[k] == 0
    &&& s[pos + len - 1] == 1
    &&& (pos == from || s[pos - 1] != 0)
    &&& forall|j: int| from <= j < pos + len - 1 ==> !code_ends_at(s, from, j)
}

/// Position and length of the first start code of `s` at or after `from`, if
/// there is one.
pub open spec fn next_start_code(s: Seq<u8>, from: int) -> Option<(int, int)> {
    if exists|pos: int, len: int| is_next_start_code(s, from, pos, len) {
        Some(choose|pos: int, len: int| is_next_start_code(s, from, pos, len))
    } else {
        None
    }
}

/// At most one pair delimits the next start code.
pub proof fn lemma_next_start_code_unique(
    s: Seq<u8>,
    from: int,
    pos_a: int,
    len_a: int,
    pos_b: int,
    len_b: int,
)
    requires
        is_next_start_code(s, from, pos_a, len_a),
        is_next_start_code(s, from, pos_b, len_b),
    ensures
        pos_a == pos_b,
        len_a == len_b,
{
    let end_a = pos_a + len_a - 1;
    let end_b = pos_b + len_b - 1;
    assert(code_ends_at(s, from, end_a));
    assert(code_ends_at(s, from, end_b));
    assert(end_a == end_b);
    if pos_a < pos_b {
        assert(s[pos_b - 1] == 0);
    }
    if pos_b < pos_a {
        assert(s[pos_a - 1] == 0);
    }
}

/// A pair that delimits the next start code is the value of `next_start_code`.
pub proof fn lemma_next_start_code_is(s: Seq<u8>, from: int, pos: int, len: int)
    requires
        is_next_start_code(s, from, pos, len),
    ensures
        next_start_code(s, from) == Some((pos, len)),
{
    let (p, l) = choose|p: int, l: int| is_next_start_code(s, from, p, l);
    lemma_next_start_code_unique(s, from, pos, len, p, l);
}

/// The value of `next_start_code`, where there is one, delimits the next
/// start code.
pub proof fn lemma_next_start_code_found(s: Seq<u8>, from: int)
    requires
        next_start_code(s, from) is Some,
    ensures
        is_next_start_code(
            s,
            from,
            next_start_code(s, from)->Some_0.0,
            next_start_code(s, from)->Some_0.1,
        ),
{
}

/// Where no start code ends at or after `from`, there is no next start code.
pub proof fn lemma_next_start_code_none(s: Seq<u8>, from: int)
    requires
        forall|j: int| from <= j < s.len() ==> !code_ends_at(s, from, j),
    ensures
        next_start_code(s, from) is None,
{
    assert forall|pos: int, len: int| !is_next_start_code(s, from, pos, len) by {
        if is_next_start_code(s, from, pos, len) {
            assert(code_ends_at(s, from, pos + len - 1));
        }
    }
}

/// Scans `nalu` from index `start` for the next start code and returns its
/// position and its length (the zeros and the one). The zeros before `start`
/// do not count. Returns `None` where there is none, and so for a `start`
/// past the end.
pub fn next_ind(nalu: &Bytes, start: usize) -> (found: Option<(usize, usize)>)
    ensures
        match found {
            Some((pos, len)) => next_start_code(content(nalu), start as int) == Some(
                (pos as int, len as int),
            ),
            None => next_start_code(content(nalu), start as int) is None,
        },
{
    let data = as_slice(nalu);
    let ghost s = content(nalu);
    if start > data.len() {
        proof {
            lemma_next_start_code_none(s, start as int);
        }
        return None;
    }
    let mut zero_count: usize = 0;
    let mut i: usize = start;
    while i < data.len()
        invariant
            data@ == s,
            s == content(nalu),
            start <= i <= data.len(),
            zero_count <= i - start,
            forall|k: int| i - zero_count <= k < i ==> s[k] == 0,
            i - zero_count == start || s[i - zero_count - 1] != 0,
            forall|j: int| start <= j < i ==> !code_ends_at(s, start as int, j),
        decreases data.len() - i,
    {
        let b = data[i];
        if b == 0 {
            zero_count += 1;
        } else if b == 1 && zero_count >= 2 {
            proof {
                lemma_next_start_code_is(
                    s,
                    start as int,
                    i - zero_count,
                    zero_count + 1,
                );
            }
            return Some((i - zero_count, zero_count + 1));
        } else {
            assert(!code_ends_at(s, start as int, i as int)) by {
                if b == 1 {
                    if zero_count == 1 {
                        assert(i - 2 < start || s[i - 2] != 0);
                    }
                }
            }
            zero_count = 0;
        }
        i += 1;
    }
    proof {
        lemma_next_start_code_none(s, start as int);
    }
    None
}

} // verus!
