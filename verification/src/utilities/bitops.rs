//! Module implementing additional bitwise operations.

use vstd::prelude::*;

verus! {

use vstd::arithmetic::power2::{pow2, lemma2_to64, lemma_pow2_unfold};
use vstd::bits::{
    lemma_u8_shl_is_mul,
    lemma_u16_shr_is_div,
    lemma_u32_shr_is_div,
    lemma_u64_shr_is_div,
    lemma_u128_shr_is_div,
    lemma_usize_shr_is_div,
};
use crate::bitspec::{
    or_bits,
    shl_bits,
    shr_bits,
    bits_to_nat,
    pack_bits,
    lemma_bits_to_nat_append,
};
use crate::word::StateWord;
use crate::utilities::ToLeBytes;

/// Unsigned integer rotation: the bits shifted out on the left re-enter on
/// the right.
pub fn urot<U: StateWord>(value: U, shift: usize) -> (r: U)
    requires
        shift as nat <= U::width(),
    ensures
        r.bv() == or_bits(
            shl_bits(value.bv(), shift as nat),
            shr_bits(value.bv(), (U::width() - shift as nat) as nat),
        ),
{
    let size: usize = U::width_exec();
    value.shift_left(shift).bit_or(value.shift_right(size - shift))
}

/// Extending an accumulated byte by its next bit adds that bit's weight.
proof fn lemma_pack_step(bools: Seq<bool>, lo: int, i: int, accv: nat, bitv: nat)
    requires
        0 <= lo,
        0 <= i,
        lo + i + 1 <= bools.len(),
        accv == bits_to_nat(bools.subrange(lo, lo + i)),
        bitv == (if bools[lo + i] {
            1nat
        } else {
            0nat
        }),
    ensures
        accv + bitv * pow2(i as nat) == bits_to_nat(bools.subrange(lo, lo + i + 1)),
{
    let pre = bools.subrange(lo, lo + i);
    let one = seq![bools[lo + i]];
    assert(bools.subrange(lo, lo + i + 1) =~= pre + one);
    lemma_bits_to_nat_append(pre, one);
    crate::bitspec::lemma_bits_to_nat_single(bools[lo + i]);
}

/// The bits described by a sequence of `0`/`1` bytes, first byte first.
pub open spec fn bools_of_bits(s: Seq<u8>) -> Seq<bool> {
    Seq::new(s.len(), |i: int| s[i] == 1)
}

/// Converts a slice of bits (0s and 1s) into a vector of bytes, packing
/// eight bits per byte, least significant bit first; a trailing group of
/// fewer than eight bits fills its byte from the bottom.
pub fn bits_to_bytes(bits: &[u8]) -> (r: Vec<u8>)
    requires
        forall|i: int| 0 <= i < bits@.len() ==> bits@[i] <= 1,
        bits@.len() + 7 <= usize::MAX,
    ensures
        r@ == pack_bits(bools_of_bits(bits@)),
{
    let ghost bools = bools_of_bits(bits@);
    let n = bits.len();
    let mut r: Vec<u8> = Vec::new();
    let mut j: usize = 0;
    while 8 * j < n
        invariant
            forall|t: int| 0 <= t < bits@.len() ==> bits@[t] <= 1,
            bits@.len() + 7 <= usize::MAX,
            bools == bools_of_bits(bits@),
            n == bits@.len(),
            8 * j <= n + 7,
            r@.len() == j,
            forall|t: int| 0 <= t < j ==> r@[t] == pack_bits(bools)[t],
        decreases n + 7 - 8 * j,
    {
        let mut acc: u8 = 0;
        let mut i: usize = 0;
        proof {
            lemma2_to64();
            assert(bools.subrange(8 * j as int, 8 * j as int) =~= Seq::<bool>::empty());
        }
        while i < 8 && 8 * j + i < n
            invariant
                forall|t: int| 0 <= t < bits@.len() ==> bits@[t] <= 1,
                bools == bools_of_bits(bits@),
                n == bits@.len(),
                8 * j < n,
                i <= 8,
                8 * j + i <= n,
                acc as nat == bits_to_nat(bools.subrange(8 * j as int, 8 * j + i)),
                acc < pow2(i as nat),
                pow2(i as nat) <= 256,
            decreases 8 - i,
        {
            let bit = bits[8 * j + i];
            proof {
                let iv = i as u8;
                lemma2_to64();
                if i < 7 {
                    vstd::arithmetic::power2::lemma_pow2_strictly_increases(i as nat, 7);
                }
                assert(pow2(iv as nat) <= 128);
                assert(bit * pow2(iv as nat) <= pow2(iv as nat)) by (nonlinear_arith)
                    requires
                        bit <= 1,
                ;
                lemma_u8_shl_is_mul(bit, iv);
                lemma_u8_shl_is_mul(1u8, iv);
                assert((bit << iv) as nat == bit as nat * pow2(i as nat));
                lemma_pack_step(bools, 8 * j as int, i as int, acc as nat, bit as nat);
                lemma_pow2_unfold(i as nat + 1);
                if i + 1 < 8 {
                    vstd::arithmetic::power2::lemma_pow2_strictly_increases(i as nat + 1, 8);
                }
                assert(pow2(i as nat + 1) <= 256);
            }
            acc = acc + (bit << (i as u8));
            i += 1;
        }
        proof {
            let hi = if 8 * (j as int) + 8 <= n {
                8 * (j as int) + 8
            } else {
                n as int
            };
            assert(hi == 8 * j + i);
            assert(pack_bits(bools)[j as int] == bits_to_nat(
                bools.subrange(8 * j as int, 8 * j + i),
            ) as u8);
        }
        r.push(acc);
        j += 1;
    }
    proof {
        assert((bools.len() + 7) / 8 == j as int);
        assert(r@ =~= pack_bits(bools));
    }
    r
}

impl ToLeBytes for u8 {
    open spec fn le_spec(&self) -> Seq<u8> {
        Seq::new(1, |i: int| (((*self as nat) / pow2((8 * i) as nat)) % 256) as u8)
    }

    fn to_le_bytes(&self) -> (r: Vec<u8>) {
        let mut r: Vec<u8> = Vec::new();
        r.push(*self);
        proof {
            lemma2_to64();
            assert((*self as nat) / pow2(0) == *self as nat);
            assert(r@ =~= self.le_spec());
        }
        r
    }
}

impl ToLeBytes for u16 {
    open spec fn le_spec(&self) -> Seq<u8> {
        Seq::new(2, |i: int| (((*self as nat) / pow2((8 * i) as nat)) % 256) as u8)
    }

    fn to_le_bytes(&self) -> (r: Vec<u8>) {
        let x = *self;
        let mut r: Vec<u8> = Vec::new();
        let mut j: usize = 0;
        while j < 2
            invariant
                j <= 2,
                r@.len() == j,
                forall|t: int| 0 <= t < j ==> r@[t] == x.le_spec()[t],
            decreases 2 - j,
        {
            let b = (x >> ((8 * j) as u16)) as u8;
            proof {
                lemma_u16_shr_is_div(x, (8 * j) as u16);
                let q = x >> ((8 * j) as u16);
                assert(((q as u8) as u16) == q % 256) by (bit_vector);
            }
            r.push(b);
            j += 1;
        }
        proof {
            assert(r@ =~= x.le_spec());
        }
        r
    }
}

impl ToLeBytes for u32 {
    open spec fn le_spec(&self) -> Seq<u8> {
        Seq::new(4, |i: int| (((*self as nat) / pow2((8 * i) as nat)) % 256) as u8)
    }

    fn to_le_bytes(&self) -> (r: Vec<u8>) {
        let x = *self;
        let mut r: Vec<u8> = Vec::new();
        let mut j: usize = 0;
        while j < 4
            invariant
                j <= 4,
                r@.len() == j,
                forall|t: int| 0 <= t < j ==> r@[t] == x.le_spec()[t],
            decreases 4 - j,
        {
            let b = (x >> ((8 * j) as u32)) as u8;
            proof {
                lemma_u32_shr_is_div(x, (8 * j) as u32);
                let q = x >> ((8 * j) as u32);
                assert(((q as u8) as u32) == q % 256) by (bit_vector);
            }
            r.push(b);
            j += 1;
        }
        proof {
            assert(r@ =~= x.le_spec());
        }
        r
    }
}

impl ToLeBytes for u64 {
    open spec fn le_spec(&self) -> Seq<u8> {
        Seq::new(8, |i: int| (((*self as nat) / pow2((8 * i) as nat)) % 256) as u8)
    }

    fn to_le_bytes(&self) -> (r: Vec<u8>) {
        let x = *self;
        let mut r: Vec<u8> = Vec::new();
        let mut j: usize = 0;
        while j < 8
            invariant
                j <= 8,
                r@.len() == j,
                forall|t: int| 0 <= t < j ==> r@[t] == x.le_spec()[t],
            decreases 8 - j,
        {
            let b = (x >> ((8 * j) as u64)) as u8;
            proof {
                lemma_u64_shr_is_div(x, (8 * j) as u64);
                let q = x >> ((8 * j) as u64);
                assert(((q as u8) as u64) == q % 256) by (bit_vector);
            }
            r.push(b);
            j += 1;
        }
        proof {
            assert(r@ =~= x.le_spec());
        }
        r
    }
}

impl ToLeBytes for u128 {
    open spec fn le_spec(&self) -> Seq<u8> {
        Seq::new(16, |i: int| (((*self as nat) / pow2((8 * i) as nat)) % 256) as u8)
    }

    fn to_le_bytes(&self) -> (r: Vec<u8>) {
        let x = *self;
        let mut r: Vec<u8> = Vec::new();
        let mut j: usize = 0;
        while j < 16
            invariant
                j <= 16,
                r@.len() == j,
                forall|t: int| 0 <= t < j ==> r@[t] == x.le_spec()[t],
            decreases 16 - j,
        {
            let b = (x >> ((8 * j) as u128)) as u8;
            proof {
                lemma_u128_shr_is_div(x, (8 * j) as u128);
                let q = x >> ((8 * j) as u128);
                assert(((q as u8) as u128) == q % 256) by (bit_vector);
            }
            r.push(b);
            j += 1;
        }
        proof {
            assert(r@ =~= x.le_spec());
        }
        r
    }
}

impl ToLeBytes for usize {
    open spec fn le_spec(&self) -> Seq<u8> {
        Seq::new(
            (usize::BITS / 8) as nat,
            |i: int| (((*self as nat) / pow2((8 * i) as nat)) % 256) as u8,
        )
    }

    fn to_le_bytes(&self) -> (r: Vec<u8>) {
        let x = *self;
        let nb: usize = (usize::BITS / 8) as usize;
        let mut r: Vec<u8> = Vec::new();
        let mut j: usize = 0;
        while j < nb
            invariant
                nb == (usize::BITS / 8) as nat,
                j <= nb,
                r@.len() == j,
                forall|t: int| 0 <= t < j ==> r@[t] == x.le_spec()[t],
            decreases nb - j,
        {
            let b = (x >> (8 * j)) as u8;
            proof {
                lemma_usize_shr_is_div(x, (8 * j) as usize);
                let q = x >> (8 * j);
                assert(((q as u8) as usize) == q % 256) by (bit_vector);
            }
            r.push(b);
            j += 1;
        }
        proof {
            assert(r@ =~= x.le_spec());
        }
        r
    }
}

} // verus!
