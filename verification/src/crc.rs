use vstd::prelude::*;

verus! {

/// The CAN CRC generator polynomial, x^15 + x^14 + x^10 + x^8 + x^7 + x^4 +
/// x^3 + 1, written over the low 15 bits of a register.
pub const CRC_POLY: u16 = 0x4599;

pub open spec fn bit2u(b: bool) -> u16 {
    if b {
        1
    } else {
        0
    }
}

/// One shift-register step of the 15-bit CAN CRC: shift the register up by
/// one and fold in the polynomial when the incoming bit differs from the
/// register's top bit.
pub open spec fn crc_step(r: u16, b: bool) -> u16 {
    ((r << 1) & 0x7fff) ^ (if (r >> 14) & 1 != bit2u(b) {
        CRC_POLY
    } else {
        0u16
    })
}

/// The register after feeding every bit of `s` in order, starting from `r`.
pub open spec fn crc_run(r: u16, s: Seq<bool>) -> u16
    decreases s.len(),
{
    if s.len() == 0 {
        r
    } else {
        crc_run(crc_step(r, s[0]), s.skip(1))
    }
}

/// The 15-bit CRC of a destuffed bit sequence, as transmitted after the
/// data field.
pub open spec fn crc15(s: Seq<bool>) -> u16 {
    crc_run(0, s)
}

/// The CRC unit: a 15-bit shift register fed one destuffed bit at a time,
/// used identically by the transmit and receive paths.
#[derive(Clone, Copy, PartialEq, Eq, Structural, Debug)]
pub struct Crc15 {
    pub reg: u16,
}

impl Crc15 {
    pub fn new() -> (r: Crc15)
        ensures
            r.reg == 0,
    {
        Crc15 { reg: 0 }
    }

    /// Feed one destuffed bit into the shift register.
    pub fn feed(&mut self, b: bool)
        ensures
            final(self).reg == crc_step(old(self).reg, b),
    {
        let t: bool = (self.reg >> 14) & 1 != (if b { 1u16 } else { 0u16 });
        self.reg = ((self.reg << 1) & 0x7fff) ^ (if t { CRC_POLY } else { 0u16 });
    }

    /// The current CRC value.
    pub fn value(&self) -> (r: u16)
        ensures
            r == self.reg,
    {
        self.reg
    }
}

pub proof fn lemma_crc_step_bound(r: u16, b: bool)
    ensures
        crc_step(r, b) < 0x8000,
{
    let x = bit2u(b);
    assert(((r << 1) & 0x7fff) ^ (if (r >> 14) & 1 != x {
        0x4599u16
    } else {
        0u16
    }) < 0x8000) by (bit_vector);
}

pub proof fn lemma_crc_run_bound(r: u16, s: Seq<bool>)
    requires
        r < 0x8000,
    ensures
        crc_run(r, s) < 0x8000,
    decreases s.len(),
{
    if s.len() > 0 {
        lemma_crc_step_bound(r, s[0]);
        lemma_crc_run_bound(crc_step(r, s[0]), s.skip(1));
    }
}

/// The CRC step is injective on 15-bit register states: distinct states
/// stay distinct whatever bit is fed.
pub proof fn lemma_crc_step_inject(r1: u16, r2: u16, b: bool)
    requires
        r1 < 0x8000,
        r2 < 0x8000,
        r1 != r2,
    ensures
        crc_step(r1, b) != crc_step(r2, b),
{
    let x = bit2u(b);
    assert(r1 < 0x8000 && r2 < 0x8000 && r1 != r2 && x <= 1 ==> ((r1 << 1) & 0x7fff) ^ (if (r1 >> 14) & 1
        != x {
        0x4599u16
    } else {
        0u16
    }) != ((r2 << 1) & 0x7fff) ^ (if (r2 >> 14) & 1 != x {
        0x4599u16
    } else {
        0u16
    })) by (bit_vector);
}

/// Feeding complementary bits from the same state lands in distinct states.
pub proof fn lemma_crc_step_flip(r: u16, b: bool)
    ensures
        crc_step(r, b) != crc_step(r, !b),
{
    let x = bit2u(b);
    let y = bit2u(!b);
    assert(x <= 1 && y <= 1 && x != y ==> ((r << 1) & 0x7fff) ^ (if (r >> 14) & 1 != x {
        0x4599u16
    } else {
        0u16
    }) != ((r << 1) & 0x7fff) ^ (if (r >> 14) & 1 != y {
        0x4599u16
    } else {
        0u16
    })) by (bit_vector);
}

/// Distinct 15-bit CRC states remain distinct over any common suffix.
pub proof fn lemma_crc_run_inject(r1: u16, r2: u16, s: Seq<bool>)
    requires
        r1 < 0x8000,
        r2 < 0x8000,
        r1 != r2,
    ensures
        crc_run(r1, s) != crc_run(r2, s),
    decreases s.len(),
{
    if s.len() > 0 {
        lemma_crc_step_inject(r1, r2, s[0]);
        lemma_crc_step_bound(r1, s[0]);
        lemma_crc_step_bound(r2, s[0]);
        lemma_crc_run_inject(crc_step(r1, s[0]), crc_step(r2, s[0]), s.skip(1));
    }
}

pub proof fn lemma_crc_run_concat(r: u16, x: Seq<bool>, y: Seq<bool>)
    ensures
        crc_run(r, x + y) == crc_run(crc_run(r, x), y),
    decreases x.len(),
{
    if x.len() == 0 {
        assert(x + y =~= y);
    } else {
        assert((x + y).skip(1) =~= x.skip(1) + y);
        lemma_crc_run_concat(crc_step(r, x[0]), x.skip(1), y);
    }
}

/// CRC sensitivity to single-bit corruption: flipping any one bit of the
/// covered sequence always changes the 15-bit CRC, so a receiver comparing
/// against the transmitted CRC detects every single-bit error.
pub proof fn lemma_crc15_single_flip(s: Seq<bool>, i: int)
    requires
        0 <= i < s.len(),
    ensures
        crc15(s.update(i, !s[i])) != crc15(s),
{
    let s2 = s.update(i, !s[i]);
    assert(s =~= s.take(i) + s.skip(i));
    assert(s2 =~= s2.take(i) + s2.skip(i));
    assert(s2.take(i) =~= s.take(i));
    lemma_crc_run_concat(0, s.take(i), s.skip(i));
    lemma_crc_run_concat(0, s.take(i), s2.skip(i));
    let r0 = crc_run(0, s.take(i));
    lemma_crc_run_bound(0, s.take(i));
    assert(s.skip(i)[0] == s[i]);
    assert(s2.skip(i)[0] == !s[i]);
    assert(crc_run(r0, s.skip(i)) == crc_run(crc_step(r0, s[i]), s.skip(i).skip(1)));
    assert(crc_run(r0, s2.skip(i)) == crc_run(crc_step(r0, !s[i]), s2.skip(i).skip(1)));
    assert(s2.skip(i).skip(1) =~= s.skip(i).skip(1));
    lemma_crc_step_flip(r0, s[i]);
    lemma_crc_step_bound(r0, s[i]);
    lemma_crc_step_bound(r0, !s[i]);
    lemma_crc_run_inject(crc_step(r0, s[i]), crc_step(r0, !s[i]), s.skip(i).skip(1));
}

} // verus!
