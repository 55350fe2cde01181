//! Variable-length-quantity encoding of millisecond time deltas.
//!
//! A value is clamped to 28 bits, split into four 7-bit groups (most
//! significant first) and emitted in the minimal number of bytes; every byte
//! but the last carries the continuation bit `0x80`.

use vstd::prelude::*;

verus! {

/// Largest encodable value: four 7-bit groups.
pub const VLQ_MAX: u64 = 0x0FFF_FFFF;

/// The value that is actually encoded: the input held to the 28-bit maximum.
pub open spec fn vlq_clamp(x: u64) -> u64 {
    if x > VLQ_MAX {
        VLQ_MAX
    } else {
        x
    }
}

/// The byte sequence of the minimal big-endian 7-bit-per-byte encoding of
/// the clamped value. Non-terminal bytes carry the continuation bit.
pub open spec fn vlq_encode(x: u64) -> Seq<u8> {
    let c = vlq_clamp(x);
    let g3 = ((c >> 21) & 0x7f) as u8;
    let g2 = ((c >> 14) & 0x7f) as u8;
    let g1 = ((c >> 7) & 0x7f) as u8;
    let g0 = (c & 0x7f) as u8;
    if g3 != 0 {
        seq![g3 | 0x80, g2 | 0x80, g1 | 0x80, g0]
    } else if g2 != 0 {
        seq![g2 | 0x80, g1 | 0x80, g0]
    } else if g1 != 0 {
        seq![g1 | 0x80, g0]
    } else {
        seq![g0]
    }
}

/// The value denoted by a big-endian 7-bit-per-byte sequence, ignoring
/// continuation bits.
pub open spec fn vlq_decode(s: Seq<u8>) -> int
    decreases s.len(),
{
    if s.len() == 0 {
        0
    } else {
        vlq_decode(s.drop_last()) * 0x80 + (s.last() & 0x7f)
    }
}

/// Emits the variable-length-quantity encoding of `x`.
pub fn with_variable_length_encoding_bytes(x: u64) -> (r: Vec<u8>)
    ensures
        r@ == vlq_encode(x),
{
    let c: u64 = if x > VLQ_MAX {
        VLQ_MAX
    } else {
        x
    };
    let g3 = ((c >> 21) & 0x7f) as u8;
    let g2 = ((c >> 14) & 0x7f) as u8;
    let g1 = ((c >> 7) & 0x7f) as u8;
    let g0 = (c & 0x7f) as u8;
    let mut r: Vec<u8> = Vec::new();
    if g3 != 0 {
        r.push(g3 | 0x80);
        r.push(g2 | 0x80);
        r.push(g1 | 0x80);
    } else if g2 != 0 {
        r.push(g2 | 0x80);
        r.push(g1 | 0x80);
    } else if g1 != 0 {
        r.push(g1 | 0x80);
    }
    r.push(g0);
    proof {
        assert(r@ =~= vlq_encode(x));
    }
    r
}

/// Law: decoding an encoded value recovers the clamped value.
pub proof fn lemma_vlq_round_trip(x: u64)
    ensures
        vlq_decode(vlq_encode(x)) == vlq_clamp(x) as int,
{
    let c = vlq_clamp(x);
    let g3 = ((c >> 21) & 0x7f) as u8;
    let g2 = ((c >> 14) & 0x7f) as u8;
    let g1 = ((c >> 7) & 0x7f) as u8;
    let g0 = (c & 0x7f) as u8;
    assert((g3 | 0x80) & 0x7f == g3 && (g2 | 0x80) & 0x7f == g2 && (g1 | 0x80) & 0x7f == g1
        && g0 & 0x7f == g0) by (bit_vector)
        requires
            g3 == ((c >> 21) & 0x7f) as u8,
            g2 == ((c >> 14) & 0x7f) as u8,
            g1 == ((c >> 7) & 0x7f) as u8,
            g0 == (c & 0x7f) as u8,
    ;
    assert(((g3 as int * 0x80 + g2 as int) * 0x80 + g1 as int) * 0x80 + g0 as int == c
        && (g3 == 0 ==> (g2 as int * 0x80 + g1 as int) * 0x80 + g0 as int == c)
        && (g3 == 0 && g2 == 0 ==> g1 as int * 0x80 + g0 as int == c)
        && (g3 == 0 && g2 == 0 && g1 == 0 ==> g0 as int == c)) by (bit_vector)
        requires
            c <= 0x0FFF_FFFFu64,
            g3 == ((c >> 21) & 0x7f) as u8,
            g2 == ((c >> 14) & 0x7f) as u8,
            g1 == ((c >> 7) & 0x7f) as u8,
            g0 == (c & 0x7f) as u8,
    ;
    assert(vlq_decode(Seq::<u8>::empty()) == 0);
    if g3 != 0 {
        let s = seq![g3 | 0x80, g2 | 0x80, g1 | 0x80, g0];
        assert(s.drop_last() =~= seq![g3 | 0x80, g2 | 0x80, g1 | 0x80]);
        assert(seq![g3 | 0x80, g2 | 0x80, g1 | 0x80].drop_last() =~= seq![g3 | 0x80, g2 | 0x80]);
        assert(seq![g3 | 0x80, g2 | 0x80].drop_last() =~= seq![g3 | 0x80]);
        assert(seq![g3 | 0x80].drop_last() =~= Seq::<u8>::empty());
        assert(vlq_decode(seq![g3 | 0x80]) == g3 as int);
        assert(vlq_decode(seq![g3 | 0x80, g2 | 0x80]) == g3 as int * 0x80 + g2 as int);
        assert(vlq_decode(seq![g3 | 0x80, g2 | 0x80, g1 | 0x80]) == (g3 as int * 0x80
            + g2 as int) * 0x80 + g1 as int);
        assert(vlq_decode(s) == ((g3 as int * 0x80 + g2 as int) * 0x80 + g1 as int) * 0x80
            + g0 as int);
    } else if g2 != 0 {
        let s = seq![g2 | 0x80, g1 | 0x80, g0];
        assert(s.drop_last() =~= seq![g2 | 0x80, g1 | 0x80]);
        assert(seq![g2 | 0x80, g1 | 0x80].drop_last() =~= seq![g2 | 0x80]);
        assert(seq![g2 | 0x80].drop_last() =~= Seq::<u8>::empty());
        assert(vlq_decode(seq![g2 | 0x80]) == g2 as int);
        assert(vlq_decode(seq![g2 | 0x80, g1 | 0x80]) == g2 as int * 0x80 + g1 as int);
        assert(vlq_decode(s) == (g2 as int * 0x80 + g1 as int) * 0x80 + g0 as int);
    } else if g1 != 0 {
        let s = seq![g1 | 0x80, g0];
        assert(s.drop_last() =~= seq![g1 | 0x80]);
        assert(seq![g1 | 0x80].drop_last() =~= Seq::<u8>::empty());
        assert(vlq_decode(seq![g1 | 0x80]) == g1 as int);
        assert(vlq_decode(s) == g1 as int * 0x80 + g0 as int);
    } else {
        let s = seq![g0];
        assert(s.drop_last() =~= Seq::<u8>::empty());
        assert(vlq_decode(s) == g0 as int);
    }
}

/// Law: an encoding is one to four bytes; the terminal byte never has the
/// top bit set, and every non-terminal byte does.
pub proof fn lemma_vlq_encode_shape(x: u64)
    ensures
        1 <= vlq_encode(x).len() <= 4,
        forall|i: int| 0 <= i < vlq_encode(x).len() - 1 ==> vlq_encode(x)[i] >= 0x80,
        vlq_encode(x).last() < 0x80,
{
    let c = vlq_clamp(x);
    let g3 = ((c >> 21) & 0x7f) as u8;
    let g2 = ((c >> 14) & 0x7f) as u8;
    let g1 = ((c >> 7) & 0x7f) as u8;
    let g0 = (c & 0x7f) as u8;
    assert((g3 | 0x80) >= 0x80 && (g2 | 0x80) >= 0x80 && (g1 | 0x80) >= 0x80 && g0 < 0x80)
        by (bit_vector)
        requires
            g0 == (c & 0x7f) as u8,
    ;
}

} // verus!
