use vstd::prelude::*;
use vstd::arithmetic::power2::lemma2_to64;
use vstd::arithmetic::div_mod::lemma_small_mod;
use crate::bits::field_bits;
use crate::bits::lemma_field_bits_len;
use crate::bits::lemma_field_bits_order;
use crate::encode::logical_bits;
use crate::encode::wire_bits;
use crate::frame::FrameView;
use crate::stuff::lemma_stuff_from_first;
use crate::stuff::lemma_stuff_from_concat;
use crate::stuff::stuff_fin;
use crate::stuff::stuff_from;
use crate::stuff::stuff_spec;

verus! {

/// The destuffed streams of two same-format frames with different
/// identifiers agree up to a first differing bit, at which the frame with
/// the numerically smaller identifier holds the dominant level.
proof fn lemma_logical_first_diff(f1: FrameView, f2: FrameView) -> (m: int)
    requires
        f1.wf(),
        f2.wf(),
        f1.is_extended() == f2.is_extended(),
        f1.base_id() < f2.base_id(),
    ensures
        1 <= m,
        m < logical_bits(f1).len(),
        m < logical_bits(f2).len(),
        logical_bits(f1)[m] == false,
        logical_bits(f2)[m] == true,
        forall|j: int| 0 <= j < m ==> logical_bits(f1)[j] == logical_bits(f2)[j],
{
    lemma2_to64();
    let b1 = f1.base_id();
    let b2 = f2.base_id();
    let id1: u32 = f1.id;
    let id2: u32 = f2.id;
    let l1 = logical_bits(f1);
    let l2 = logical_bits(f2);
    if f1.is_extended() {
        assert((id1 & 0x1FFFFFFF) < 0x20000000) by (bit_vector);
        assert((id2 & 0x1FFFFFFF) < 0x20000000) by (bit_vector);
        let hi1: u32 = b1 >> 18;
        let hi2: u32 = b2 >> 18;
        let lo1: u32 = b1 & 0x3FFFF;
        let lo2: u32 = b2 & 0x3FFFF;
        assert(b1 >> 18 < 0x800 && b1 & 0x3FFFF < 0x40000) by (bit_vector)
            requires
                b1 < 0x20000000,
        ;
        assert(b2 >> 18 < 0x800 && b2 & 0x3FFFF < 0x40000) by (bit_vector)
            requires
                b2 < 0x20000000,
        ;
        assert((b1 >> 18 < b2 >> 18) || (b1 >> 18 == b2 >> 18 && (b1 & 0x3FFFF) < (b2
            & 0x3FFFF))) by (bit_vector)
            requires
                b1 < b2,
        ;
        lemma_field_bits_len(hi1, 11);
        lemma_field_bits_len(hi2, 11);
        lemma_field_bits_len(lo1, 18);
        lemma_field_bits_len(lo2, 18);
        lemma_field_bits_len(f1.dlc, 4);
        lemma_field_bits_len(f2.dlc, 4);
        if hi1 < hi2 {
            lemma_small_mod(hi1 as nat, 2048);
            lemma_small_mod(hi2 as nat, 2048);
            let k = lemma_field_bits_order(hi1, hi2, 11);
            let m = 1 + k;
            assert(l1[m] == field_bits(hi1, 11)[k]);
            assert(l2[m] == field_bits(hi2, 11)[k]);
            assert forall|j: int| 0 <= j < m implies l1[j] == l2[j] by {
                if j >= 1 {
                    assert(l1[j] == field_bits(hi1, 11)[j - 1]);
                    assert(l2[j] == field_bits(hi2, 11)[j - 1]);
                }
            }
            m
        } else {
            lemma_small_mod(lo1 as nat, 0x40000);
            lemma_small_mod(lo2 as nat, 0x40000);
            let k = lemma_field_bits_order(lo1, lo2, 18);
            let m = 14 + k;
            assert(field_bits(hi1, 11) == field_bits(hi2, 11));
            assert(l1[m] == field_bits(lo1, 18)[k]);
            assert(l2[m] == field_bits(lo2, 18)[k]);
            assert forall|j: int| 0 <= j < m implies l1[j] == l2[j] by {
                if 1 <= j < 12 {
                    assert(l1[j] == field_bits(hi1, 11)[j - 1]);
                    assert(l2[j] == field_bits(hi2, 11)[j - 1]);
                } else if 12 <= j < 14 {
                    assert(l1[j] == true && l2[j] == true);
                } else if 14 <= j {
                    assert(l1[j] == field_bits(lo1, 18)[j - 14]);
                    assert(l2[j] == field_bits(lo2, 18)[j - 14]);
                }
            }
            m
        }
    } else {
        assert((id1 & 0x7FF) < 0x800) by (bit_vector);
        assert((id2 & 0x7FF) < 0x800) by (bit_vector);
        lemma_small_mod(b1 as nat, 2048);
        lemma_small_mod(b2 as nat, 2048);
        lemma_field_bits_len(b1, 11);
        lemma_field_bits_len(b2, 11);
        lemma_field_bits_len(f1.dlc, 4);
        lemma_field_bits_len(f2.dlc, 4);
        let k = lemma_field_bits_order(b1, b2, 11);
        let m = 1 + k;
        assert(l1[m] == field_bits(b1, 11)[k]);
        assert(l2[m] == field_bits(b2, 11)[k]);
        assert forall|j: int| 0 <= j < m implies l1[j] == l2[j] by {
            if j >= 1 {
                assert(l1[j] == field_bits(b1, 11)[j - 1]);
                assert(l2[j] == field_bits(b2, 11)[j - 1]);
            }
        }
        m
    }
}

/// Arbitration determinism: two simultaneously transmitted same-format
/// frames with different identifiers drive identical raw bits up to a
/// first differing position, where the frame with the numerically smaller
/// (more dominant) identifier sends dominant and the other recessive.
/// On a wired-AND bus the dominant transmitter therefore observes its own
/// bit at every position through `k`, while the other transmits recessive
/// and observes dominant at `k` — the arbitration-loss condition — and at
/// no earlier position.
pub proof fn lemma_arbitration_determinism(f1: FrameView, f2: FrameView) -> (k: int)
    requires
        f1.wf(),
        f2.wf(),
        f1.is_extended() == f2.is_extended(),
        f1.base_id() < f2.base_id(),
    ensures
        1 <= k,
        k < wire_bits(f1).len(),
        k < wire_bits(f2).len(),
        forall|j: int| 0 <= j < k ==> wire_bits(f1)[j] == wire_bits(f2)[j],
        wire_bits(f1)[k] == false,
        wire_bits(f2)[k] == true,
        forall|j: int|
            0 <= j <= k ==> (wire_bits(f1)[j] && wire_bits(f2)[j]) == wire_bits(f1)[j],
{
    let m = lemma_logical_first_diff(f1, f2);
    let k = lemma_wire_first_diff(f1, f2, m);
    k
}

/// A first difference of the destuffed streams carries over to the raw
/// streams: the common prefix stuffs identically, so the raw streams
/// agree up to the stuffed image of the prefix and then show the two
/// differing destuffed bits unchanged.
proof fn lemma_wire_first_diff(f1: FrameView, f2: FrameView, m: int) -> (k: int)
    requires
        0 <= m,
        m < logical_bits(f1).len(),
        m < logical_bits(f2).len(),
        forall|j: int| 0 <= j < m ==> logical_bits(f1)[j] == logical_bits(f2)[j],
    ensures
        m <= k,
        k < wire_bits(f1).len(),
        k < wire_bits(f2).len(),
        forall|j: int| 0 <= j < k ==> wire_bits(f1)[j] == wire_bits(f2)[j],
        wire_bits(f1)[k] == logical_bits(f1)[m],
        wire_bits(f2)[k] == logical_bits(f2)[m],
{
    let l1 = logical_bits(f1);
    let l2 = logical_bits(f2);
    let p = l1.take(m);
    assert(l2.take(m) =~= p);
    assert(l1 =~= p + l1.skip(m));
    assert(l2 =~= p + l2.skip(m));
    lemma_stuff_from_concat(p, l1.skip(m), true, 0);
    lemma_stuff_from_concat(p, l2.skip(m), true, 0);
    let fin = stuff_fin(p, true, 0);
    let sp = stuff_from(p, true, 0).len() as int;
    lemma_stuff_from_first(p, true, 0);
    lemma_stuff_from_first(l1.skip(m), fin.0, fin.1);
    lemma_stuff_from_first(l2.skip(m), fin.0, fin.1);
    assert(stuff_spec(l1) == stuff_from(p, true, 0) + stuff_from(l1.skip(m), fin.0, fin.1));
    assert(stuff_spec(l2) == stuff_from(p, true, 0) + stuff_from(l2.skip(m), fin.0, fin.1));
    assert(l1.skip(m).len() > 0);
    assert(l2.skip(m).len() > 0);
    assert(l1.skip(m)[0] == l1[m]);
    assert(l2.skip(m)[0] == l2[m]);
    assert(stuff_spec(l1)[sp] == l1[m]);
    assert(stuff_spec(l2)[sp] == l2[m]);
    assert(wire_bits(f1)[sp] == l1[m]);
    assert(wire_bits(f2)[sp] == l2[m]);
    assert(sp >= m);
    assert forall|j: int| 0 <= j < sp implies wire_bits(f1)[j] == wire_bits(f2)[j] by {
        assert(wire_bits(f1)[j] == stuff_from(p, true, 0)[j]);
        assert(wire_bits(f2)[j] == stuff_from(p, true, 0)[j]);
    }
    sp
}

/// First destuffed difference between a standard and an extended frame:
/// they arbitrate on the 11 identifier bits both transmit first; on a tie
/// the standard frame's RTR or IDE bit is dominant against the extended
/// frame's recessive SRR and IDE bits.
proof fn lemma_logical_first_diff_mixed(f1: FrameView, f2: FrameView) -> (m: int)
    requires
        f1.wf(),
        f2.wf(),
        !f1.is_extended(),
        f2.is_extended(),
    ensures
        1 <= m,
        m < logical_bits(f1).len(),
        m < logical_bits(f2).len(),
        forall|j: int| 0 <= j < m ==> logical_bits(f1)[j] == logical_bits(f2)[j],
        f1.base_id() <= f2.base_id() >> 18 ==> logical_bits(f1)[m] == false && logical_bits(
            f2,
        )[m] == true,
        f1.base_id() > f2.base_id() >> 18 ==> logical_bits(f1)[m] == true && logical_bits(
            f2,
        )[m] == false,
{
    lemma2_to64();
    let b1 = f1.base_id();
    let b2 = f2.base_id();
    let id1: u32 = f1.id;
    let id2: u32 = f2.id;
    let l1 = logical_bits(f1);
    let l2 = logical_bits(f2);
    assert((id1 & 0x7FF) < 0x800) by (bit_vector);
    assert((id2 & 0x1FFFFFFF) < 0x20000000) by (bit_vector);
    let hi2: u32 = b2 >> 18;
    let lo2: u32 = b2 & 0x3FFFF;
    assert(b2 >> 18 < 0x800 && b2 & 0x3FFFF < 0x40000) by (bit_vector)
        requires
            b2 < 0x20000000,
    ;
    lemma_field_bits_len(b1, 11);
    lemma_field_bits_len(hi2, 11);
    lemma_field_bits_len(lo2, 18);
    lemma_field_bits_len(f1.dlc, 4);
    lemma_field_bits_len(f2.dlc, 4);
    if b1 < hi2 {
        lemma_small_mod(b1 as nat, 2048);
        lemma_small_mod(hi2 as nat, 2048);
        let k = lemma_field_bits_order(b1, hi2, 11);
        let m = 1 + k;
        assert(l1[m] == field_bits(b1, 11)[k]);
        assert(l2[m] == field_bits(hi2, 11)[k]);
        assert forall|j: int| 0 <= j < m implies l1[j] == l2[j] by {
            if j >= 1 {
                assert(l1[j] == field_bits(b1, 11)[j - 1]);
                assert(l2[j] == field_bits(hi2, 11)[j - 1]);
            }
        }
        m
    } else if b1 > hi2 {
        lemma_small_mod(b1 as nat, 2048);
        lemma_small_mod(hi2 as nat, 2048);
        let k = lemma_field_bits_order(hi2, b1, 11);
        let m = 1 + k;
        assert(l1[m] == field_bits(b1, 11)[k]);
        assert(l2[m] == field_bits(hi2, 11)[k]);
        assert forall|j: int| 0 <= j < m implies l1[j] == l2[j] by {
            if j >= 1 {
                assert(l1[j] == field_bits(b1, 11)[j - 1]);
                assert(l2[j] == field_bits(hi2, 11)[j - 1]);
            }
        }
        m
    } else {
        // identical 11 high bits: the standard frame's RTR (if dominant)
        // or its dominant IDE bit decides against SRR and IDE, both
        // recessive in the extended frame
        assert(field_bits(b1, 11) == field_bits(hi2, 11));
        let m: int = if f1.is_rtr() {
            13
        } else {
            12
        };
        assert(l1[12] == f1.is_rtr());
        assert(l2[12] == true);
        assert(l1[13] == false);
        assert(l2[13] == true);
        assert forall|j: int| 0 <= j < m implies l1[j] == l2[j] by {
            if 1 <= j < 12 {
                assert(l1[j] == field_bits(b1, 11)[j - 1]);
                assert(l2[j] == field_bits(hi2, 11)[j - 1]);
            }
        }
        m
    }
}

/// Arbitration between a standard and an extended frame: the raw streams
/// agree up to a first differing position, decided by the 11 identifier
/// bits both transmit first — the numerically smaller value wins, and the
/// standard frame wins a tie through its dominant IDE bit. The winner
/// observes its own bits through `k` on a wired-AND bus; the loser
/// transmits recessive and observes dominant at `k` and at no earlier
/// position.
pub proof fn lemma_arbitration_mixed_format(f1: FrameView, f2: FrameView) -> (k: int)
    requires
        f1.wf(),
        f2.wf(),
        !f1.is_extended(),
        f2.is_extended(),
    ensures
        1 <= k,
        k < wire_bits(f1).len(),
        k < wire_bits(f2).len(),
        forall|j: int| 0 <= j < k ==> wire_bits(f1)[j] == wire_bits(f2)[j],
        f1.base_id() <= f2.base_id() >> 18 ==> wire_bits(f1)[k] == false && wire_bits(f2)[k]
            == true && (forall|j: int|
            0 <= j <= k ==> (wire_bits(f1)[j] && wire_bits(f2)[j]) == wire_bits(f1)[j]),
        f1.base_id() > f2.base_id() >> 18 ==> wire_bits(f1)[k] == true && wire_bits(f2)[k]
            == false && (forall|j: int|
            0 <= j <= k ==> (wire_bits(f1)[j] && wire_bits(f2)[j]) == wire_bits(f2)[j]),
{
    let m = lemma_logical_first_diff_mixed(f1, f2);
    let k = lemma_wire_first_diff(f1, f2, m);
    k
}

} // verus!
