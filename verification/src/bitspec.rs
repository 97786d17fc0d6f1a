//! Specification-level model of fixed-width words as bit sequences.
//!
//! A word of N bits is modelled as a `Seq<bool>` of length N, least
//! significant bit first.  All bitwise operations, shifts, masks and the
//! little-endian byte serialization of the library are specified against
//! this model; `bits_to_nat` and `nat_to_bits` connect it to the numeric
//! value of the word.

use vstd::prelude::*;

verus! {

use vstd::arithmetic::power2::{
    pow2,
    lemma_pow2_unfold,
    lemma_pow2_adds,
    lemma_pow2_pos,
    lemma_pow2_strictly_increases,
    lemma2_to64,
};
use vstd::arithmetic::div_mod::{
    lemma_mod_breakdown,
    lemma_div_denominator,
    lemma_small_mod,
    lemma_mod_bound,
};

/// The all-zero word of the given width.
pub open spec fn zero_bits(len: nat) -> Seq<bool> {
    Seq::new(len, |i: int| false)
}

/// The word of width `len` whose low `n` bits are set.
pub open spec fn mask_bits(len: nat, n: nat) -> Seq<bool> {
    Seq::new(len, |i: int| i < n)
}

/// Pointwise complement.
pub open spec fn not_bits(a: Seq<bool>) -> Seq<bool> {
    Seq::new(a.len(), |i: int| !a[i])
}

/// Pointwise conjunction (the operands must have equal widths).
pub open spec fn and_bits(a: Seq<bool>, b: Seq<bool>) -> Seq<bool>
    recommends
        a.len() == b.len(),
{
    Seq::new(a.len(), |i: int| a[i] && b[i])
}

/// Pointwise disjunction (the operands must have equal widths).
pub open spec fn or_bits(a: Seq<bool>, b: Seq<bool>) -> Seq<bool>
    recommends
        a.len() == b.len(),
{
    Seq::new(a.len(), |i: int| a[i] || b[i])
}

/// Pointwise exclusive or (the operands must have equal widths).
pub open spec fn xor_bits(a: Seq<bool>, b: Seq<bool>) -> Seq<bool>
    recommends
        a.len() == b.len(),
{
    Seq::new(a.len(), |i: int| a[i] != b[i])
}

/// Left shift by `s` places inside a fixed width: bit `i` of the result is
/// bit `i - s` of the input, and the `s` low bits are zero.  Bits shifted
/// past the width are discarded.
pub open spec fn shl_bits(a: Seq<bool>, s: nat) -> Seq<bool> {
    Seq::new(a.len(), |i: int| i >= s && a[i - s])
}

/// Right shift by `s` places inside a fixed width: bit `i` of the result is
/// bit `i + s` of the input, and the high bits fill with zero.
pub open spec fn shr_bits(a: Seq<bool>, s: nat) -> Seq<bool> {
    Seq::new(a.len(), |i: int| i + s < a.len() && a[i + s])
}

/// The numeric value of a bit sequence, least significant bit first.
pub open spec fn bits_to_nat(a: Seq<bool>) -> nat
    decreases a.len(),
{
    if a.len() == 0 {
        0
    } else {
        (if a[0] {
            1nat
        } else {
            0nat
        }) + 2 * bits_to_nat(a.skip(1))
    }
}

/// The `len` low bits of the numeric value `v`, least significant bit first.
pub open spec fn nat_to_bits(v: nat, len: nat) -> Seq<bool>
    decreases len,
{
    if len == 0 {
        Seq::empty()
    } else {
        seq![v % 2 == 1] + nat_to_bits(v / 2, (len - 1) as nat)
    }
}

/// Packs a bit sequence into bytes, least significant byte and bit first;
/// a trailing group of fewer than eight bits fills its byte from the bottom.
pub open spec fn pack_bits(a: Seq<bool>) -> Seq<u8> {
    Seq::new(
        (a.len() + 7) / 8,
        |j: int|
            (bits_to_nat(
                a.subrange(
                    8 * j,
                    if 8 * j + 8 <= a.len() {
                        8 * j + 8
                    } else {
                        a.len() as int
                    },
                ),
            )) as u8,
    )
}

/// A word of width `len` holding a single boolean in its lowest bit.
pub open spec fn bit_word(b: bool, len: nat) -> Seq<bool> {
    Seq::new(len, |i: int| i == 0 && b)
}

/// `nat_to_bits` produces a sequence of the requested length.
pub proof fn lemma_nat_to_bits_len(v: nat, len: nat)
    ensures
        nat_to_bits(v, len).len() == len,
    decreases len,
{
    if len > 0 {
        lemma_nat_to_bits_len(v / 2, (len - 1) as nat);
    }
}

/// The value of a bit sequence is below `2^len`.
pub proof fn lemma_bits_to_nat_bound(a: Seq<bool>)
    ensures
        bits_to_nat(a) < pow2(a.len()),
    decreases a.len(),
{
    if a.len() == 0 {
        lemma2_to64();
    } else {
        lemma_bits_to_nat_bound(a.skip(1));
        lemma_pow2_unfold(a.len());
    }
}

/// Reading the bits of `v` and evaluating them again gives `v` modulo `2^len`.
pub proof fn lemma_nat_to_bits_to_nat(v: nat, len: nat)
    ensures
        bits_to_nat(nat_to_bits(v, len)) == v % pow2(len),
    decreases len,
{
    if len == 0 {
        lemma2_to64();
    } else {
        let rest = nat_to_bits(v / 2, (len - 1) as nat);
        let whole = seq![v % 2 == 1] + rest;
        lemma_nat_to_bits_len(v / 2, (len - 1) as nat);
        assert(whole.skip(1) =~= rest);
        lemma_nat_to_bits_to_nat(v / 2, (len - 1) as nat);
        lemma_pow2_pos((len - 1) as nat);
        lemma_mod_breakdown(v as int, 2, pow2((len - 1) as nat) as int);
        lemma_pow2_unfold(len);
        assert((if v % 2 == 1 {
            1nat
        } else {
            0nat
        }) == v % 2);
    }
}

/// Evaluating a bit sequence and re-reading its bits gives the sequence back.
pub proof fn lemma_bits_to_nat_to_bits(a: Seq<bool>)
    ensures
        nat_to_bits(bits_to_nat(a), a.len()) == a,
    decreases a.len(),
{
    if a.len() > 0 {
        let v = bits_to_nat(a);
        let b0: nat = if a[0] {
            1
        } else {
            0
        };
        let r = bits_to_nat(a.skip(1));
        assert(v == b0 + 2 * r);
        assert(v % 2 == b0 % 2) by {
            assert((b0 + 2 * r) % 2 == b0 % 2) by (nonlinear_arith);
        }
        assert(v / 2 == r) by {
            assert((b0 + 2 * r) / 2 == r) by (nonlinear_arith)
                requires
                    b0 < 2,
            ;
        }
        lemma_bits_to_nat_to_bits(a.skip(1));
        assert(nat_to_bits(v, a.len()) =~= a);
    } else {
        assert(nat_to_bits(bits_to_nat(a), 0) =~= a);
    }
}

/// Bit `i` of the `len`-bit reading of `v` is the parity of `v / 2^i`.
pub proof fn lemma_nat_to_bits_index(v: nat, len: nat, i: int)
    requires
        0 <= i < len,
    ensures
        nat_to_bits(v, len)[i] == ((v / pow2(i as nat)) % 2 == 1),
    decreases len,
{
    lemma_nat_to_bits_len(v / 2, (len - 1) as nat);
    if i == 0 {
        lemma2_to64();
    } else {
        lemma_nat_to_bits_index(v / 2, (len - 1) as nat, i - 1);
        lemma_pow2_pos((i - 1) as nat);
        lemma_div_denominator(v as int, 2, pow2((i - 1) as nat) as int);
        lemma_pow2_unfold(i as nat);
    }
}

/// Concatenation splits the value: the right part is weighted by `2^|a|`.
pub proof fn lemma_bits_to_nat_append(a: Seq<bool>, b: Seq<bool>)
    ensures
        bits_to_nat(a + b) == bits_to_nat(a) + pow2(a.len()) * bits_to_nat(b),
    decreases a.len(),
{
    if a.len() == 0 {
        assert(a + b =~= b);
        lemma2_to64();
    } else {
        assert((a + b).skip(1) =~= a.skip(1) + b);
        lemma_bits_to_nat_append(a.skip(1), b);
        lemma_pow2_unfold(a.len());
        let b0: nat = if a[0] {
            1
        } else {
            0
        };
        assert(bits_to_nat(a + b) == b0 + 2 * (bits_to_nat(a.skip(1)) + pow2((a.len() - 1) as nat)
            * bits_to_nat(b)));
        assert(2 * (bits_to_nat(a.skip(1)) + pow2((a.len() - 1) as nat) * bits_to_nat(b)) == 2
            * bits_to_nat(a.skip(1)) + (2 * pow2((a.len() - 1) as nat)) * bits_to_nat(b))
            by (nonlinear_arith);
    }
}

/// Reading `len` bits of `v` splits at any point `k` into low and high parts.
pub proof fn lemma_nat_to_bits_split(v: nat, len: nat, k: nat)
    requires
        k <= len,
    ensures
        nat_to_bits(v, len) == nat_to_bits(v % pow2(k), k) + nat_to_bits(v / pow2(k), (len - k) as nat),
{
    let lo = nat_to_bits(v % pow2(k), k);
    let hi = nat_to_bits(v / pow2(k), (len - k) as nat);
    lemma_nat_to_bits_len(v % pow2(k), k);
    lemma_nat_to_bits_len(v / pow2(k), (len - k) as nat);
    lemma_nat_to_bits_to_nat(v % pow2(k), k);
    lemma_nat_to_bits_to_nat(v / pow2(k), (len - k) as nat);
    lemma_pow2_pos(k);
    lemma_pow2_pos((len - k) as nat);
    lemma_bits_to_nat_append(lo, hi);
    // v % 2^k % 2^k == v % 2^k.
    lemma_mod_breakdown(v as int, pow2(k) as int, pow2((len - k) as nat) as int);
    lemma_pow2_adds(k, (len - k) as nat);
    lemma_mod_bound(v as int, pow2(k) as int);
    lemma_small_mod(v % pow2(k), pow2(k));
    assert(bits_to_nat(lo + hi) == v % pow2(k) + pow2(k) * ((v / pow2(k)) % pow2(
        (len - k) as nat,
    )));
    assert(bits_to_nat(lo + hi) == v % pow2(len));
    lemma_bits_to_nat_to_bits(lo + hi);
    lemma_nat_to_bits_to_nat(v, len);
    lemma_bits_to_nat_to_bits(nat_to_bits(v, len));
    lemma_nat_to_bits_len(v, len);
    assert(nat_to_bits(bits_to_nat(nat_to_bits(v, len)), len) == nat_to_bits(v % pow2(len), len));
}

/// Reading the same value at the same width modulo `2^len` changes nothing.
pub proof fn lemma_nat_to_bits_mod(v: nat, len: nat)
    ensures
        nat_to_bits(v % pow2(len), len) == nat_to_bits(v, len),
    decreases len,
{
    lemma_nat_to_bits_to_nat(v, len);
    lemma_bits_to_nat_to_bits(nat_to_bits(v, len));
    lemma_nat_to_bits_len(v, len);
}

/// Zero reads as the all-zero word.
pub proof fn lemma_nat_to_bits_zero(len: nat)
    ensures
        nat_to_bits(0, len) == zero_bits(len),
    decreases len,
{
    if len > 0 {
        lemma_nat_to_bits_zero((len - 1) as nat);
    }
    lemma_nat_to_bits_len(0, len);
    assert(nat_to_bits(0, len) =~= zero_bits(len));
}

/// Byte `j` of the packed form of `len` bits read from `v`: the byte holds
/// `v / 2^(8j)` modulo 256.
pub proof fn lemma_pack_byte(v: nat, len: nat, j: int)
    requires
        0 <= j,
        8 * j + 8 <= len,
    ensures
        pack_bits(nat_to_bits(v, len))[j] == ((v / pow2((8 * j) as nat)) % 256) as u8,
{
    let k = (8 * j) as nat;
    let q = v / pow2(k);
    lemma_nat_to_bits_len(v, len);
    lemma_nat_to_bits_split(v, len, k);
    lemma_nat_to_bits_split(q, (len - k) as nat, 8);
    lemma2_to64();
    assert(pow2(8) == 256);
    let lo = nat_to_bits(v % pow2(k), k);
    let mid = nat_to_bits(q % 256, 8);
    let hi = nat_to_bits(q / 256, (len - k - 8) as nat);
    lemma_nat_to_bits_len(v % pow2(k), k);
    lemma_nat_to_bits_len(q % 256, 8);
    lemma_nat_to_bits_len(q / 256, (len - k - 8) as nat);
    assert(nat_to_bits(v, len) == lo + (mid + hi));
    assert((lo + (mid + hi)).subrange(8 * j, 8 * j + 8) =~= mid);
    lemma_nat_to_bits_to_nat(q % 256, 8);
    lemma_mod_bound(q as int, 256);
    lemma_small_mod(q % 256, 256);
    assert(bits_to_nat(mid) == q % 256);
}

/// Bit `t` of byte `j` of a packed bit sequence is bit `8j + t` of the
/// sequence.
pub proof fn lemma_pack_bits_bit(a: Seq<bool>, j: int, t: int)
    requires
        0 <= j,
        0 <= t < 8,
        8 * j + t < a.len(),
    ensures
        ((pack_bits(a)[j] >> (t as u8)) & 1) == (if a[8 * j + t] {
            1u8
        } else {
            0u8
        }),
{
    let n = a.len() as int;
    let hi = if 8 * j + 8 <= n {
        8 * j + 8
    } else {
        n
    };
    let sub = a.subrange(8 * j, hi);
    let v = bits_to_nat(sub);
    lemma_bits_to_nat_bound(sub);
    lemma2_to64();
    if sub.len() < 8 {
        lemma_pow2_strictly_increases(sub.len(), 8);
    }
    assert(v < 256);
    let byte = pack_bits(a)[j];
    assert(byte == v as u8);
    lemma_bits_to_nat_to_bits(sub);
    lemma_nat_to_bits_index(v, sub.len(), t);
    assert(sub[t] == ((v / pow2(t as nat)) % 2 == 1));
    let tv = t as u8;
    vstd::bits::lemma_u8_shr_is_div(byte, tv);
    assert((byte >> tv) & 1 == (byte >> tv) % 2) by (bit_vector);
    assert(sub[t] == a[8 * j + t]);
}

/// Packing distributes over concatenation at a byte boundary.
pub proof fn lemma_pack_bits_append(a: Seq<bool>, b: Seq<bool>)
    requires
        a.len() % 8 == 0,
    ensures
        pack_bits(a + b) == pack_bits(a) + pack_bits(b),
{
    let whole = pack_bits(a + b);
    let parts = pack_bits(a) + pack_bits(b);
    assert(whole.len() == parts.len()) by {
        assert((a.len() + b.len() + 7) / 8 == a.len() / 8 + (b.len() + 7) / 8);
    }
    assert forall|j: int| 0 <= j < whole.len() implies whole[j] == parts[j] by {
        let n = (a + b).len() as int;
        let hi = if 8 * j + 8 <= n {
            8 * j + 8
        } else {
            n
        };
        if j < a.len() / 8 {
            assert(8 * j + 8 <= a.len());
            assert((a + b).subrange(8 * j, hi) =~= a.subrange(8 * j, 8 * j + 8));
        } else {
            let aj = j - a.len() / 8;
            let bn = b.len() as int;
            let bhi = if 8 * aj + 8 <= bn {
                8 * aj + 8
            } else {
                bn
            };
            assert(8 * (j - aj) == a.len());
            assert((a + b).subrange(8 * j, hi) =~= b.subrange(8 * aj, bhi));
        }
    }
    assert(whole =~= parts);
}

/// Complement distributes over concatenation.
pub proof fn lemma_not_bits_append(a: Seq<bool>, b: Seq<bool>)
    ensures
        not_bits(a + b) == not_bits(a) + not_bits(b),
{
    assert(not_bits(a + b) =~= not_bits(a) + not_bits(b));
}

/// Conjunction distributes over concatenation of equal-length parts.
pub proof fn lemma_and_bits_append(a: Seq<bool>, b: Seq<bool>, c: Seq<bool>, d: Seq<bool>)
    requires
        a.len() == c.len(),
        b.len() == d.len(),
    ensures
        and_bits(a + b, c + d) == and_bits(a, c) + and_bits(b, d),
{
    assert(and_bits(a + b, c + d) =~= and_bits(a, c) + and_bits(b, d));
}

/// Disjunction distributes over concatenation of equal-length parts.
pub proof fn lemma_or_bits_append(a: Seq<bool>, b: Seq<bool>, c: Seq<bool>, d: Seq<bool>)
    requires
        a.len() == c.len(),
        b.len() == d.len(),
    ensures
        or_bits(a + b, c + d) == or_bits(a, c) + or_bits(b, d),
{
    assert(or_bits(a + b, c + d) =~= or_bits(a, c) + or_bits(b, d));
}

/// Exclusive or distributes over concatenation of equal-length parts.
pub proof fn lemma_xor_bits_append(a: Seq<bool>, b: Seq<bool>, c: Seq<bool>, d: Seq<bool>)
    requires
        a.len() == c.len(),
        b.len() == d.len(),
    ensures
        xor_bits(a + b, c + d) == xor_bits(a, c) + xor_bits(b, d),
{
    assert(xor_bits(a + b, c + d) =~= xor_bits(a, c) + xor_bits(b, d));
}

/// Equal concatenations of equal-length parts have equal parts.
pub proof fn lemma_append_parts_eq(a: Seq<bool>, b: Seq<bool>, c: Seq<bool>, d: Seq<bool>)
    requires
        a.len() == c.len(),
        b.len() == d.len(),
        a + b == c + d,
    ensures
        a == c,
        b == d,
{
    assert forall|i: int| 0 <= i < a.len() implies a[i] == c[i] by {
        assert((a + b)[i] == a[i]);
        assert((c + d)[i] == c[i]);
    }
    assert forall|i: int| 0 <= i < b.len() implies b[i] == d[i] by {
        assert((a + b)[a.len() + i] == b[i]);
        assert((c + d)[c.len() + i] == d[i]);
    }
    assert(a =~= c);
    assert(b =~= d);
}

/// One more left shift extends the shift distance by one.
pub proof fn lemma_shl_bits_step(a: Seq<bool>, s: nat)
    ensures
        shl_bits(shl_bits(a, s), 1) == shl_bits(a, s + 1),
{
    assert(shl_bits(shl_bits(a, s), 1) =~= shl_bits(a, s + 1));
}

/// One more right shift extends the shift distance by one.
pub proof fn lemma_shr_bits_step(a: Seq<bool>, s: nat)
    ensures
        shr_bits(shr_bits(a, s), 1) == shr_bits(a, s + 1),
{
    assert(shr_bits(shr_bits(a, s), 1) =~= shr_bits(a, s + 1));
}

/// Shifting by nothing changes nothing.
pub proof fn lemma_shift_bits_zero(a: Seq<bool>)
    ensures
        shl_bits(a, 0) == a,
        shr_bits(a, 0) == a,
{
    assert(shl_bits(a, 0) =~= a);
    assert(shr_bits(a, 0) =~= a);
}

/// A single bit evaluates to one exactly when it is set.
pub proof fn lemma_bits_to_nat_single(b: bool)
    ensures
        bits_to_nat(seq![b]) == if b {
            1nat
        } else {
            0nat
        },
{
    assert(seq![b].skip(1) =~= Seq::<bool>::empty());
    assert(bits_to_nat(Seq::<bool>::empty()) == 0);
}

/// The complement of a bit sequence evaluates to `2^len - 1` minus its value.
pub proof fn lemma_bits_to_nat_not(a: Seq<bool>)
    ensures
        bits_to_nat(not_bits(a)) == pow2(a.len()) - 1 - bits_to_nat(a),
    decreases a.len(),
{
    if a.len() == 0 {
        lemma2_to64();
        assert(not_bits(a) =~= a);
    } else {
        assert(not_bits(a).skip(1) =~= not_bits(a.skip(1)));
        lemma_bits_to_nat_not(a.skip(1));
        lemma_pow2_unfold(a.len());
        lemma_bits_to_nat_bound(a.skip(1));
        assert(not_bits(a).len() == a.len());
        assert(not_bits(a)[0] == !a[0]);
    }
}

/// The limb-wise carry chain of the wide addition: limb `i` of the result
/// is the wrapping sum of the operand limbs and the incoming carry, and the
/// carry out of a limb is set exactly when that wrapping sum is numerically
/// less than either operand limb.
pub open spec fn carry_add_rec(a: Seq<nat>, b: Seq<nat>, cin: nat, w: nat) -> Seq<nat>
    decreases a.len(),
{
    if a.len() == 0 {
        Seq::empty()
    } else {
        let s = (a[0] + b[0] + cin) % pow2(w);
        let c: nat = if s < a[0] || s < b[0] {
            1
        } else {
            0
        };
        seq![s] + carry_add_rec(a.skip(1), b.skip(1), c, w)
    }
}

} // verus!