use vstd::prelude::*;
use vstd::arithmetic::power2::pow2;
use vstd::arithmetic::power2::lemma_pow2_adds;
use vstd::arithmetic::power2::lemma_pow2_pos;
use vstd::arithmetic::power2::lemma2_to64;
use vstd::arithmetic::div_mod::lemma_mod_breakdown;
use vstd::arithmetic::div_mod::lemma_small_mod;
use vstd::arithmetic::div_mod::lemma_mod_bound;
use vstd::bits::lemma_u32_shr_is_div;

verus! {

/// The `n` low bits of `v` as wire bits, most significant first: element `i`
/// is bit `n-1-i` of `v`, with `true` for a set bit (recessive level).
pub open spec fn field_bits(v: u32, n: nat) -> Seq<bool>
    decreases n,
{
    if n == 0 {
        Seq::empty()
    } else {
        seq![(v as int / pow2((n - 1) as nat) as int) % 2 == 1] + field_bits(v, (n - 1) as nat)
    }
}

/// Left fold of wire bits into a numeric accumulator, most significant
/// bit first: the value a receiver shifts together while reading a field.
pub open spec fn acc_bits(a: int, s: Seq<bool>) -> int
    decreases s.len(),
{
    if s.len() == 0 {
        a
    } else {
        acc_bits(2 * a + if s[0] { 1int } else { 0int }, s.skip(1))
    }
}

pub proof fn lemma_field_bits_len(v: u32, n: nat)
    ensures
        field_bits(v, n).len() == n,
    decreases n,
{
    if n > 0 {
        lemma_field_bits_len(v, (n - 1) as nat);
    }
}

/// Folding the most-significant-first bits of `v` onto an accumulator `a`
/// shifts `a` up by `n` bits and adds the `n` low bits of `v`.
pub proof fn lemma_acc_field_bits(a: int, v: u32, n: nat)
    ensures
        acc_bits(a, field_bits(v, n)) == a * pow2(n) + (v as int) % (pow2(n) as int),
    decreases n,
{
    lemma_pow2_pos(n);
    if n == 0 {
        lemma2_to64();
        assert((v as int) % 1int == 0);
    } else {
        let m: nat = (n - 1) as nat;
        lemma_pow2_pos(m);
        let b: int = (v as int / pow2(m) as int) % 2;
        let s = field_bits(v, n);
        assert(s.skip(1) =~= field_bits(v, m));
        lemma_acc_field_bits(2 * a + b, v, m);
        lemma_mod_breakdown(v as int, pow2(m) as int, 2);
        lemma_pow2_adds(m, 1);
        lemma2_to64();
        assert(pow2(n) == pow2(m) * 2);
        assert((2 * a + b) * (pow2(m) as int) == a * (pow2(m) as int * 2) + (pow2(m) as int) * b)
            by (nonlinear_arith);
        assert(acc_bits(a, s) == (2 * a + b) * pow2(m) + (v as int) % (pow2(m) as int));
    }
}

/// With the accumulator started at zero and `v` within range, the fold
/// recovers `v` exactly.
pub proof fn lemma_acc_field_bits_exact(v: u32, n: nat)
    requires
        v < pow2(n),
    ensures
        acc_bits(0, field_bits(v, n)) == v,
{
    lemma_acc_field_bits(0, v, n);
    lemma_pow2_pos(n);
    lemma_small_mod(v as nat, pow2(n));
}

pub proof fn lemma_field_bits_index(v: u32, n: nat, i: int)
    requires
        0 <= i < n,
    ensures
        field_bits(v, n)[i] == ((v as int / pow2((n - 1 - i) as nat) as int) % 2 == 1),
    decreases n,
{
    lemma_field_bits_len(v, (n - 1) as nat);
    if i > 0 {
        lemma_field_bits_index(v, (n - 1) as nat, i - 1);
    }
}

/// Append the `n` low bits of `v`, most significant first, to `out`.
pub fn push_field_bits(out: &mut Vec<bool>, v: u32, n: u32)
    requires
        n <= 32,
    ensures
        final(out)@ == old(out)@ + field_bits(v, n as nat),
{
    let ghost fb = field_bits(v, n as nat);
    proof {
        lemma_field_bits_len(v, n as nat);
    }
    let mut k: u32 = 0;
    while k < n
        invariant
            k <= n <= 32,
            fb == field_bits(v, n as nat),
            fb.len() == n,
            out@ == old(out)@ + fb.take(k as int),
        decreases n - k,
    {
        let sh: u32 = n - 1 - k;
        let bit: bool = ((v >> sh) & 1) == 1;
        proof {
            lemma_u32_shr_is_div(v, sh);
            assert((v >> sh) & 1 == (v >> sh) % 2) by (bit_vector);
            lemma_field_bits_index(v, n as nat, k as int);
            assert(fb.take(k as int + 1) =~= fb.take(k as int) + seq![fb[k as int]]);
        }
        out.push(bit);
        k = k + 1;
    }
    proof {
        assert(fb.take(n as int) =~= fb);
    }
}

/// Numeric order of field values appears on the wire as dominance order:
/// the smaller value's bits match the larger's up to a first position where
/// the smaller sends dominant (a zero bit) and the larger sends recessive.
pub proof fn lemma_field_bits_order(v1: u32, v2: u32, n: nat) -> (k: int)
    requires
        (v1 as int) % (pow2(n) as int) < (v2 as int) % (pow2(n) as int),
    ensures
        0 <= k < n,
        field_bits(v1, n)[k] == false,
        field_bits(v2, n)[k] == true,
        forall|j: int| 0 <= j < k ==> field_bits(v1, n)[j] == field_bits(v2, n)[j],
    decreases n,
{
    lemma_pow2_pos(n);
    lemma_field_bits_len(v1, n);
    lemma_field_bits_len(v2, n);
    if n == 0 {
        lemma2_to64();
        assert((v1 as int) % 1int == 0 && (v2 as int) % 1int == 0);
        assert(false);
        0
    } else {
        let m = (n - 1) as nat;
        lemma_pow2_pos(m);
        let b1: int = (v1 as int / pow2(m) as int) % 2;
        let b2: int = (v2 as int / pow2(m) as int) % 2;
        let r1: int = (v1 as int) % (pow2(m) as int);
        let r2: int = (v2 as int) % (pow2(m) as int);
        lemma_mod_breakdown(v1 as int, pow2(m) as int, 2);
        lemma_mod_breakdown(v2 as int, pow2(m) as int, 2);
        lemma_pow2_adds(m, 1);
        lemma2_to64();
        assert(pow2(n) == pow2(m) * 2);
        lemma_mod_bound(v1 as int, pow2(m) as int);
        lemma_mod_bound(v2 as int, pow2(m) as int);
        lemma_mod_bound(v1 as int / pow2(m) as int, 2);
        lemma_mod_bound(v2 as int / pow2(m) as int, 2);
        assert(field_bits(v1, n) == seq![b1 == 1] + field_bits(v1, m));
        assert(field_bits(v2, n) == seq![b2 == 1] + field_bits(v2, m));
        if b1 == b2 {
            assert(pow2(m) as int * b1 == pow2(m) as int * b2);
            assert(r1 < r2);
            let k0 = lemma_field_bits_order(v1, v2, m);
            lemma_field_bits_len(v1, m);
            lemma_field_bits_len(v2, m);
            let k = k0 + 1;
            assert(field_bits(v1, n)[k] == field_bits(v1, m)[k0]);
            assert(field_bits(v2, n)[k] == field_bits(v2, m)[k0]);
            assert forall|j: int| 0 <= j < k implies field_bits(v1, n)[j] == field_bits(
                v2,
                n,
            )[j] by {
                if j == 0 {
                } else {
                    assert(field_bits(v1, n)[j] == field_bits(v1, m)[j - 1]);
                    assert(field_bits(v2, n)[j] == field_bits(v2, m)[j - 1]);
                }
            }
            k
        } else {
            assert(pow2(m) as int * 1 == pow2(m) as int) by (nonlinear_arith);
            assert(pow2(m) as int * 0 == 0) by (nonlinear_arith);
            if b1 == 1 && b2 == 0 {
                assert((v1 as int) % (pow2(n) as int) == pow2(m) as int + r1);
                assert((v2 as int) % (pow2(n) as int) == r2);
                assert(false);
            }
            assert(b1 == 0 && b2 == 1);
            0
        }
    }
}

} // verus!
