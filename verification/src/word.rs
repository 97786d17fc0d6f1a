//! Fixed-width word abstraction.
//!
//! `StateWord` is the bitwise interface every state shape offers: widths,
//! bitwise operators, shifts, masks, equality and little-endian byte
//! serialization, all specified against the bit-sequence model of
//! [`crate::bitspec`].  `Limb` extends it with the wrapping arithmetic and
//! comparison that multi-limb carry chains and ARX rounds need.  The
//! unsigned primitives are limbs; a four-limb register is a `StateWord`
//! again.

use vstd::prelude::*;

verus! {

use vstd::arithmetic::power2::{pow2, lemma2_to64, lemma2_to64_rest};
use vstd::bits::{lemma_u64_shr_is_div, lemma_u32_shr_is_div, lemma_u8_shr_is_div};
use crate::bitspec::{
    zero_bits,
    mask_bits,
    not_bits,
    and_bits,
    or_bits,
    xor_bits,
    shl_bits,
    shr_bits,
    bits_to_nat,
    nat_to_bits,
    pack_bits,
    lemma_nat_to_bits_len,
    lemma_nat_to_bits_index,
    lemma_nat_to_bits_to_nat,
    lemma_nat_to_bits_zero,
    lemma_nat_to_bits_mod,
    lemma_pack_byte,
};

/// A fixed-width unsigned word: the state shape of every construction in
/// this crate.  `bv()` is the word as a bit sequence, least significant
/// bit first, and every operation is specified pointwise against it.
pub trait StateWord: Sized + Copy {
    /// Width of the word in bits.
    spec fn width() -> nat;

    /// The bits of the word, least significant first.
    spec fn bv(self) -> Seq<bool>;

    /// The width is a positive multiple of eight, small enough that bit
    /// counts fit comfortably in a `usize`.
    proof fn lemma_width()
        ensures
            8 <= Self::width(),
            Self::width() % 8 == 0,
            Self::width() <= 16384,
    ;

    /// Every word has exactly `width()` bits.
    proof fn lemma_bv_len(self)
        ensures
            self.bv().len() == Self::width(),
    ;

    /// Words with the same bits are the same word.
    proof fn lemma_bv_injective(self, other: Self)
        requires
            self.bv() == other.bv(),
        ensures
            self == other,
    ;

    /// The width, as a runtime value.
    fn width_exec() -> (r: usize)
        ensures
            r == Self::width(),
    ;

    /// The word whose low eight bits are `x` and whose other bits are zero.
    fn from_u8(x: u8) -> (r: Self)
        ensures
            r.bv() == nat_to_bits(x as nat, Self::width()),
    ;

    /// The all-zero word.
    fn zero() -> (r: Self)
        ensures
            r.bv() == zero_bits(Self::width()),
    ;

    /// Bitwise complement.
    fn complement(self) -> (r: Self)
        ensures
            r.bv() == not_bits(self.bv()),
    ;

    /// Bitwise conjunction.
    fn bit_and(self, o: Self) -> (r: Self)
        ensures
            r.bv() == and_bits(self.bv(), o.bv()),
    ;

    /// Bitwise disjunction.
    fn bit_or(self, o: Self) -> (r: Self)
        ensures
            r.bv() == or_bits(self.bv(), o.bv()),
    ;

    /// Bitwise exclusive or.
    fn bit_xor(self, o: Self) -> (r: Self)
        ensures
            r.bv() == xor_bits(self.bv(), o.bv()),
    ;

    /// Left shift inside the fixed width; shifting by the width or more
    /// gives zero.
    fn shift_left(self, s: usize) -> (r: Self)
        ensures
            r.bv() == shl_bits(self.bv(), s as nat),
    ;

    /// Right shift inside the fixed width; shifting by the width or more
    /// gives zero.
    fn shift_right(self, s: usize) -> (r: Self)
        ensures
            r.bv() == shr_bits(self.bv(), s as nat),
    ;

    /// The word whose low `n` bits are set.
    fn low_mask(n: usize) -> (r: Self)
        requires
            n as nat <= Self::width(),
        ensures
            r.bv() == mask_bits(Self::width(), n as nat),
    ;

    /// Bit-exact equality test.
    fn equals(self, o: Self) -> (r: bool)
        ensures
            r == (self.bv() == o.bv()),
    ;

    /// The word as `width() / 8` bytes, least significant byte first.
    fn le_bytes(self) -> (r: Vec<u8>)
        ensures
            r@ == pack_bits(self.bv()),
    ;
}

/// A single machine word that can serve as one limb of a wider register:
/// a `StateWord` with wrapping addition and an order on its numeric value.
pub trait Limb: StateWord {
    /// A single limb is narrow enough that four of them still make an
    /// acceptable `StateWord` width.
    proof fn lemma_limb_width()
        ensures
            Self::width() <= 4096,
    ;

    /// Addition modulo `2^width()`.
    fn wrapping_add_word(self, o: Self) -> (r: Self)
        ensures
            bits_to_nat(r.bv()) == (bits_to_nat(self.bv()) + bits_to_nat(o.bv())) % pow2(
                Self::width(),
            ),
            r.bv() == nat_to_bits(
                (bits_to_nat(self.bv()) + bits_to_nat(o.bv())) % pow2(Self::width()),
                Self::width(),
            ),
    ;

    /// Strict comparison of the numeric values.
    fn less_than(self, o: Self) -> (r: bool)
        ensures
            r == (bits_to_nat(self.bv()) < bits_to_nat(o.bv())),
    ;
}

/// The bit sequences of a sequence of words.
pub open spec fn bvs_of<W: StateWord>(v: Seq<W>) -> Seq<Seq<bool>> {
    Seq::new(v.len(), |i: int| v[i].bv())
}

/// The bits of a `u64`, least significant first.
pub open spec fn u64_bv(x: u64) -> Seq<bool> {
    Seq::new(64, |i: int| (x >> (i as u64)) & 1 == 1)
}

/// Single-index readings of the bitwise operators on `u64`.
proof fn u64_bit_facts(x: u64, y: u64, i: u64)
    by (bit_vector)
    requires
        i < 64,
    ensures
        (x >> i) & 1 == (x >> i) % 2,
        (((!x) >> i) & 1 == 1) == !((x >> i) & 1 == 1),
        (((x & y) >> i) & 1 == 1) == (((x >> i) & 1 == 1) && ((y >> i) & 1 == 1)),
        (((x | y) >> i) & 1 == 1) == (((x >> i) & 1 == 1) || ((y >> i) & 1 == 1)),
        (((x ^ y) >> i) & 1 == 1) == (((x >> i) & 1 == 1) != ((y >> i) & 1 == 1)),
        (0 as u64 >> i) & 1 != 1,
        (u64::MAX >> i) & 1 == 1,
{
}

/// A left-shifted bit read back above the shift distance.
proof fn u64_shl_fact(x: u64, s: u64, i: u64, j: u64)
    by (bit_vector)
    requires
        s < 64,
        i < 64,
        i == j + s,
    ensures
        (((x << s) >> i) & 1 == 1) == ((x >> j) & 1 == 1),
{
}

/// A right-shifted bit read back below the width.
proof fn u64_shr_fact(x: u64, s: u64, i: u64, k: u64)
    by (bit_vector)
    requires
        s < 64,
        k < 64,
        k == i + s,
    ensures
        (((x >> s) >> i) & 1 == 1) == ((x >> k) & 1 == 1),
{
}

/// The vacated positions of a shift read as zero.
proof fn u64_shift_bounds(x: u64, s: u64, i: u64)
    by (bit_vector)
    requires
        s < 64,
        i < 64,
    ensures
        i < s ==> (((x << s) >> i) & 1 != 1),
        i + s >= 64 ==> (((x >> s) >> i) & 1 != 1),
{
}

/// The low-bits mask built by shifting the all-ones word down.
proof fn u64_mask_fact(n: u64, i: u64)
    by (bit_vector)
    requires
        0 < n <= 64,
        i < 64,
    ensures
        (((u64::MAX >> ((64 - n) as u64)) >> i) & 1 == 1) == (i < n),
{
}

/// The shift-based reading of a `u64` agrees with `nat_to_bits`, so its
/// numeric value is the word itself.
pub proof fn lemma_u64_bv_chars(x: u64)
    ensures
        u64_bv(x) == nat_to_bits(x as nat, 64),
        bits_to_nat(u64_bv(x)) == x as nat,
{
    lemma_nat_to_bits_len(x as nat, 64);
    assert forall|i: int| 0 <= i < 64 implies u64_bv(x)[i] == nat_to_bits(x as nat, 64)[i] by {
        let iv = i as u64;
        lemma_nat_to_bits_index(x as nat, 64, i);
        lemma_u64_shr_is_div(x, iv);
        u64_bit_facts(x, x, iv);
    }
    assert(u64_bv(x) =~= nat_to_bits(x as nat, 64));
    lemma_nat_to_bits_to_nat(x as nat, 64);
    lemma2_to64_rest();
}

impl StateWord for u64 {
    open spec fn width() -> nat {
        64
    }

    open spec fn bv(self) -> Seq<bool> {
        u64_bv(self)
    }

    proof fn lemma_width() {
    }

    proof fn lemma_bv_len(self) {
    }

    proof fn lemma_bv_injective(self, other: Self) {
        lemma_u64_bv_chars(self);
        lemma_u64_bv_chars(other);
    }

    fn width_exec() -> (r: usize) {
        64
    }

    fn from_u8(x: u8) -> (r: Self) {
        proof {
            lemma_u64_bv_chars(x as u64);
        }
        x as u64
    }

    fn zero() -> (r: Self) {
        proof {
            lemma_u64_bv_chars(0 as u64);
            lemma_nat_to_bits_zero(64);
        }
        0 as u64
    }

    fn complement(self) -> (r: Self) {
        let r = !self;
        proof {
            assert forall|i: int| 0 <= i < 64 implies u64_bv(r)[i] == not_bits(u64_bv(self))[i] by {
                u64_bit_facts(self, self, i as u64);
            }
            assert(u64_bv(r) =~= not_bits(u64_bv(self)));
        }
        r
    }

    fn bit_and(self, o: Self) -> (r: Self) {
        let r = self & o;
        proof {
            assert forall|i: int| 0 <= i < 64 implies u64_bv(r)[i] == and_bits(
                u64_bv(self),
                u64_bv(o),
            )[i] by {
                u64_bit_facts(self, o, i as u64);
            }
            assert(u64_bv(r) =~= and_bits(u64_bv(self), u64_bv(o)));
        }
        r
    }

    fn bit_or(self, o: Self) -> (r: Self) {
        let r = self | o;
        proof {
            assert forall|i: int| 0 <= i < 64 implies u64_bv(r)[i] == or_bits(
                u64_bv(self),
                u64_bv(o),
            )[i] by {
                u64_bit_facts(self, o, i as u64);
            }
            assert(u64_bv(r) =~= or_bits(u64_bv(self), u64_bv(o)));
        }
        r
    }

    fn bit_xor(self, o: Self) -> (r: Self) {
        let r = self ^ o;
        proof {
            assert forall|i: int| 0 <= i < 64 implies u64_bv(r)[i] == xor_bits(
                u64_bv(self),
                u64_bv(o),
            )[i] by {
                u64_bit_facts(self, o, i as u64);
            }
            assert(u64_bv(r) =~= xor_bits(u64_bv(self), u64_bv(o)));
        }
        r
    }

    fn shift_left(self, s: usize) -> (r: Self) {
        if s >= 64 {
            let r = 0 as u64;
            proof {
                assert forall|i: int| 0 <= i < 64 implies u64_bv(r)[i] == shl_bits(
                    u64_bv(self),
                    s as nat,
                )[i] by {
                    u64_bit_facts(self, self, i as u64);
                }
                assert(u64_bv(r) =~= shl_bits(u64_bv(self), s as nat));
            }
            r
        } else {
            let sv = s as u64;
            let r = self << sv;
            proof {
                assert forall|i: int| 0 <= i < 64 implies u64_bv(r)[i] == shl_bits(
                    u64_bv(self),
                    s as nat,
                )[i] by {
                    let iv = i as u64;
                    if i < s {
                        u64_shift_bounds(self, sv, iv);
                    } else {
                        u64_shl_fact(self, sv, iv, (i - s) as u64);
                    }
                }
                assert(u64_bv(r) =~= shl_bits(u64_bv(self), s as nat));
            }
            r
        }
    }

    fn shift_right(self, s: usize) -> (r: Self) {
        if s >= 64 {
            let r = 0 as u64;
            proof {
                assert forall|i: int| 0 <= i < 64 implies u64_bv(r)[i] == shr_bits(
                    u64_bv(self),
                    s as nat,
                )[i] by {
                    u64_bit_facts(self, self, i as u64);
                }
                assert(u64_bv(r) =~= shr_bits(u64_bv(self), s as nat));
            }
            r
        } else {
            let sv = s as u64;
            let r = self >> sv;
            proof {
                assert forall|i: int| 0 <= i < 64 implies u64_bv(r)[i] == shr_bits(
                    u64_bv(self),
                    s as nat,
                )[i] by {
                    let iv = i as u64;
                    if i + s < 64 {
                        u64_shr_fact(self, sv, iv, (i + s) as u64);
                    } else {
                        u64_shift_bounds(self, sv, iv);
                    }
                }
                assert(u64_bv(r) =~= shr_bits(u64_bv(self), s as nat));
            }
            r
        }
    }

    fn low_mask(n: usize) -> (r: Self) {
        if n == 0 {
            let r = 0 as u64;
            proof {
                assert forall|i: int| 0 <= i < 64 implies u64_bv(r)[i] == mask_bits(64, 0)[i] by {
                    u64_bit_facts(r, r, i as u64);
                }
                assert(u64_bv(r) =~= mask_bits(64, n as nat));
            }
            r
        } else {
            let nv = n as u64;
            let r = u64::MAX >> ((64 - n) as u64);
            proof {
                assert forall|i: int| 0 <= i < 64 implies u64_bv(r)[i] == mask_bits(64, n as nat)[i]
                    by {
                    u64_mask_fact(nv, i as u64);
                }
                assert(u64_bv(r) =~= mask_bits(64, n as nat));
            }
            r
        }
    }

    fn equals(self, o: Self) -> (r: bool) {
        proof {
            lemma_u64_bv_chars(self);
            lemma_u64_bv_chars(o);
        }
        self == o
    }

    fn le_bytes(self) -> (r: Vec<u8>) {
        let mut r: Vec<u8> = Vec::new();
        let mut j: usize = 0;
        proof {
            lemma_u64_bv_chars(self);
        }
        while j < 8
            invariant
                j <= 8,
                r@.len() == j,
                forall|t: int|
                    0 <= t < j ==> r@[t] == pack_bits(u64_bv(self))[t],
            decreases 8 - j,
        {
            let b = (self >> ((8 * j) as u64)) as u8;
            proof {
                let jj = j as int;
                lemma_u64_bv_chars(self);
                lemma_pack_byte(self as nat, 64, jj);
                lemma_u64_shr_is_div(self, (8 * j) as u64);
                let q = self >> ((8 * j) as u64);
                assert(((q as u8) as u64) == q % 256) by (bit_vector);
                lemma2_to64();
                assert(pack_bits(u64_bv(self))[jj] == b);
            }
            r.push(b);
            j += 1;
        }
        proof {
            assert(r@ =~= pack_bits(u64_bv(self)));
        }
        r
    }
}

impl Limb for u64 {
    proof fn lemma_limb_width() {
    }

    fn wrapping_add_word(self, o: Self) -> (r: Self) {
        let r = if self <= u64::MAX - o {
            self + o
        } else {
            self - (u64::MAX - o) - 1
        };
        proof {
            lemma_u64_bv_chars(self);
            lemma_u64_bv_chars(o);
            lemma_u64_bv_chars(r);
            lemma2_to64_rest();
            let m = pow2(64);
            assert(m == 0x10000000000000000);
            if self <= u64::MAX - o {
                assert((self as nat + o as nat) % m == self as nat + o as nat) by {
                    vstd::arithmetic::div_mod::lemma_small_mod((self as nat + o as nat), m);
                }
            } else {
                assert(r as nat + m == self as nat + o as nat);
                assert((self as nat + o as nat) % m == r as nat) by {
                    vstd::arithmetic::div_mod::lemma_mod_multiples_vanish(1, r as int, m as int);
                }
            }
            lemma_nat_to_bits_mod((self as nat + o as nat), 64);
        }
        r
    }

    fn less_than(self, o: Self) -> (r: bool) {
        proof {
            lemma_u64_bv_chars(self);
            lemma_u64_bv_chars(o);
        }
        self < o
    }
}

/// The bits of a `u32`, least significant first.
pub open spec fn u32_bv(x: u32) -> Seq<bool> {
    Seq::new(32, |i: int| (x >> (i as u32)) & 1 == 1)
}

/// Single-index readings of the bitwise operators on `u32`.
proof fn u32_bit_facts(x: u32, y: u32, i: u32)
    by (bit_vector)
    requires
        i < 32,
    ensures
        (x >> i) & 1 == (x >> i) % 2,
        (((!x) >> i) & 1 == 1) == !((x >> i) & 1 == 1),
        (((x & y) >> i) & 1 == 1) == (((x >> i) & 1 == 1) && ((y >> i) & 1 == 1)),
        (((x | y) >> i) & 1 == 1) == (((x >> i) & 1 == 1) || ((y >> i) & 1 == 1)),
        (((x ^ y) >> i) & 1 == 1) == (((x >> i) & 1 == 1) != ((y >> i) & 1 == 1)),
        (0 as u32 >> i) & 1 != 1,
        (u32::MAX >> i) & 1 == 1,
{
}

/// A left-shifted bit read back above the shift distance.
proof fn u32_shl_fact(x: u32, s: u32, i: u32, j: u32)
    by (bit_vector)
    requires
        s < 32,
        i < 32,
        i == j + s,
    ensures
        (((x << s) >> i) & 1 == 1) == ((x >> j) & 1 == 1),
{
}

/// A right-shifted bit read back below the width.
proof fn u32_shr_fact(x: u32, s: u32, i: u32, k: u32)
    by (bit_vector)
    requires
        s < 32,
        k < 32,
        k == i + s,
    ensures
        (((x >> s) >> i) & 1 == 1) == ((x >> k) & 1 == 1),
{
}

/// The vacated positions of a shift read as zero.
proof fn u32_shift_bounds(x: u32, s: u32, i: u32)
    by (bit_vector)
    requires
        s < 32,
        i < 32,
    ensures
        i < s ==> (((x << s) >> i) & 1 != 1),
        i + s >= 32 ==> (((x >> s) >> i) & 1 != 1),
{
}

/// The low-bits mask built by shifting the all-ones word down.
proof fn u32_mask_fact(n: u32, i: u32)
    by (bit_vector)
    requires
        0 < n <= 32,
        i < 32,
    ensures
        (((u32::MAX >> ((32 - n) as u32)) >> i) & 1 == 1) == (i < n),
{
}

/// The shift-based reading of a `u32` agrees with `nat_to_bits`, so its
/// numeric value is the word itself.
pub proof fn lemma_u32_bv_chars(x: u32)
    ensures
        u32_bv(x) == nat_to_bits(x as nat, 32),
        bits_to_nat(u32_bv(x)) == x as nat,
{
    lemma_nat_to_bits_len(x as nat, 32);
    assert forall|i: int| 0 <= i < 32 implies u32_bv(x)[i] == nat_to_bits(x as nat, 32)[i] by {
        let iv = i as u32;
        lemma_nat_to_bits_index(x as nat, 32, i);
        lemma_u32_shr_is_div(x, iv);
        u32_bit_facts(x, x, iv);
    }
    assert(u32_bv(x) =~= nat_to_bits(x as nat, 32));
    lemma_nat_to_bits_to_nat(x as nat, 32);
    lemma2_to64();
}

impl StateWord for u32 {
    open spec fn width() -> nat {
        32
    }

    open spec fn bv(self) -> Seq<bool> {
        u32_bv(self)
    }

    proof fn lemma_width() {
    }

    proof fn lemma_bv_len(self) {
    }

    proof fn lemma_bv_injective(self, other: Self) {
        lemma_u32_bv_chars(self);
        lemma_u32_bv_chars(other);
    }

    fn width_exec() -> (r: usize) {
        32
    }

    fn from_u8(x: u8) -> (r: Self) {
        proof {
            lemma_u32_bv_chars(x as u32);
        }
        x as u32
    }

    fn zero() -> (r: Self) {
        proof {
            lemma_u32_bv_chars(0 as u32);
            lemma_nat_to_bits_zero(32);
        }
        0 as u32
    }

    fn complement(self) -> (r: Self) {
        let r = !self;
        proof {
            assert forall|i: int| 0 <= i < 32 implies u32_bv(r)[i] == not_bits(u32_bv(self))[i] by {
                u32_bit_facts(self, self, i as u32);
            }
            assert(u32_bv(r) =~= not_bits(u32_bv(self)));
        }
        r
    }

    fn bit_and(self, o: Self) -> (r: Self) {
        let r = self & o;
        proof {
            assert forall|i: int| 0 <= i < 32 implies u32_bv(r)[i] == and_bits(
                u32_bv(self),
                u32_bv(o),
            )[i] by {
                u32_bit_facts(self, o, i as u32);
            }
            assert(u32_bv(r) =~= and_bits(u32_bv(self), u32_bv(o)));
        }
        r
    }

    fn bit_or(self, o: Self) -> (r: Self) {
        let r = self | o;
        proof {
            assert forall|i: int| 0 <= i < 32 implies u32_bv(r)[i] == or_bits(
                u32_bv(self),
                u32_bv(o),
            )[i] by {
                u32_bit_facts(self, o, i as u32);
            }
            assert(u32_bv(r) =~= or_bits(u32_bv(self), u32_bv(o)));
        }
        r
    }

    fn bit_xor(self, o: Self) -> (r: Self) {
        let r = self ^ o;
        proof {
            assert forall|i: int| 0 <= i < 32 implies u32_bv(r)[i] == xor_bits(
                u32_bv(self),
                u32_bv(o),
            )[i] by {
                u32_bit_facts(self, o, i as u32);
            }
            assert(u32_bv(r) =~= xor_bits(u32_bv(self), u32_bv(o)));
        }
        r
    }

    fn shift_left(self, s: usize) -> (r: Self) {
        if s >= 32 {
            let r = 0 as u32;
            proof {
                assert forall|i: int| 0 <= i < 32 implies u32_bv(r)[i] == shl_bits(
                    u32_bv(self),
                    s as nat,
                )[i] by {
                    u32_bit_facts(self, self, i as u32);
                }
                assert(u32_bv(r) =~= shl_bits(u32_bv(self), s as nat));
            }
            r
        } else {
            let sv = s as u32;
            let r = self << sv;
            proof {
                assert forall|i: int| 0 <= i < 32 implies u32_bv(r)[i] == shl_bits(
                    u32_bv(self),
                    s as nat,
                )[i] by {
                    let iv = i as u32;
                    if i < s {
                        u32_shift_bounds(self, sv, iv);
                    } else {
                        u32_shl_fact(self, sv, iv, (i - s) as u32);
                    }
                }
                assert(u32_bv(r) =~= shl_bits(u32_bv(self), s as nat));
            }
            r
        }
    }

    fn shift_right(self, s: usize) -> (r: Self) {
        if s >= 32 {
            let r = 0 as u32;
            proof {
                assert forall|i: int| 0 <= i < 32 implies u32_bv(r)[i] == shr_bits(
                    u32_bv(self),
                    s as nat,
                )[i] by {
                    u32_bit_facts(self, self, i as u32);
                }
                assert(u32_bv(r) =~= shr_bits(u32_bv(self), s as nat));
            }
            r
        } else {
            let sv = s as u32;
            let r = self >> sv;
            proof {
                assert forall|i: int| 0 <= i < 32 implies u32_bv(r)[i] == shr_bits(
                    u32_bv(self),
                    s as nat,
                )[i] by {
                    let iv = i as u32;
                    if i + s < 32 {
                        u32_shr_fact(self, sv, iv, (i + s) as u32);
                    } else {
                        u32_shift_bounds(self, sv, iv);
                    }
                }
                assert(u32_bv(r) =~= shr_bits(u32_bv(self), s as nat));
            }
            r
        }
    }

    fn low_mask(n: usize) -> (r: Self) {
        if n == 0 {
            let r = 0 as u32;
            proof {
                assert forall|i: int| 0 <= i < 32 implies u32_bv(r)[i] == mask_bits(32, 0)[i] by {
                    u32_bit_facts(r, r, i as u32);
                }
                assert(u32_bv(r) =~= mask_bits(32, n as nat));
            }
            r
        } else {
            let nv = n as u32;
            let r = u32::MAX >> ((32 - n) as u32);
            proof {
                assert forall|i: int| 0 <= i < 32 implies u32_bv(r)[i] == mask_bits(32, n as nat)[i]
                    by {
                    u32_mask_fact(nv, i as u32);
                }
                assert(u32_bv(r) =~= mask_bits(32, n as nat));
            }
            r
        }
    }

    fn equals(self, o: Self) -> (r: bool) {
        proof {
            lemma_u32_bv_chars(self);
            lemma_u32_bv_chars(o);
        }
        self == o
    }

    fn le_bytes(self) -> (r: Vec<u8>) {
        let mut r: Vec<u8> = Vec::new();
        let mut j: usize = 0;
        proof {
            lemma_u32_bv_chars(self);
        }
        while j < 4
            invariant
                j <= 4,
                r@.len() == j,
                forall|t: int|
                    0 <= t < j ==> r@[t] == pack_bits(u32_bv(self))[t],
            decreases 4 - j,
        {
            let b = (self >> ((8 * j) as u32)) as u8;
            proof {
                let jj = j as int;
                lemma_u32_bv_chars(self);
                lemma_pack_byte(self as nat, 32, jj);
                lemma_u32_shr_is_div(self, (8 * j) as u32);
                let q = self >> ((8 * j) as u32);
                assert(((q as u8) as u32) == q % 256) by (bit_vector);
                lemma2_to64();
                assert(pack_bits(u32_bv(self))[jj] == b);
            }
            r.push(b);
            j += 1;
        }
        proof {
            assert(r@ =~= pack_bits(u32_bv(self)));
        }
        r
    }
}

impl Limb for u32 {
    proof fn lemma_limb_width() {
    }

    fn wrapping_add_word(self, o: Self) -> (r: Self) {
        let r = if self <= u32::MAX - o {
            self + o
        } else {
            self - (u32::MAX - o) - 1
        };
        proof {
            lemma_u32_bv_chars(self);
            lemma_u32_bv_chars(o);
            lemma_u32_bv_chars(r);
            lemma2_to64();
            let m = pow2(32);
            assert(m == 0x100000000);
            if self <= u32::MAX - o {
                assert((self as nat + o as nat) % m == self as nat + o as nat) by {
                    vstd::arithmetic::div_mod::lemma_small_mod((self as nat + o as nat), m);
                }
            } else {
                assert(r as nat + m == self as nat + o as nat);
                assert((self as nat + o as nat) % m == r as nat) by {
                    vstd::arithmetic::div_mod::lemma_mod_multiples_vanish(1, r as int, m as int);
                }
            }
            lemma_nat_to_bits_mod((self as nat + o as nat), 32);
        }
        r
    }

    fn less_than(self, o: Self) -> (r: bool) {
        proof {
            lemma_u32_bv_chars(self);
            lemma_u32_bv_chars(o);
        }
        self < o
    }
}

/// The bits of a `u8`, least significant first.
pub open spec fn u8_bv(x: u8) -> Seq<bool> {
    Seq::new(8, |i: int| (x >> (i as u8)) & 1 == 1)
}

/// Single-index readings of the bitwise operators on `u8`.
proof fn u8_bit_facts(x: u8, y: u8, i: u8)
    by (bit_vector)
    requires
        i < 8,
    ensures
        (x >> i) & 1 == (x >> i) % 2,
        (((!x) >> i) & 1 == 1) == !((x >> i) & 1 == 1),
        (((x & y) >> i) & 1 == 1) == (((x >> i) & 1 == 1) && ((y >> i) & 1 == 1)),
        (((x | y) >> i) & 1 == 1) == (((x >> i) & 1 == 1) || ((y >> i) & 1 == 1)),
        (((x ^ y) >> i) & 1 == 1) == (((x >> i) & 1 == 1) != ((y >> i) & 1 == 1)),
        (0 as u8 >> i) & 1 != 1,
        (u8::MAX >> i) & 1 == 1,
{
}

/// A left-shifted bit read back above the shift distance.
proof fn u8_shl_fact(x: u8, s: u8, i: u8, j: u8)
    by (bit_vector)
    requires
        s < 8,
        i < 8,
        i == j + s,
    ensures
        (((x << s) >> i) & 1 == 1) == ((x >> j) & 1 == 1),
{
}

/// A right-shifted bit read back below the width.
proof fn u8_shr_fact(x: u8, s: u8, i: u8, k: u8)
    by (bit_vector)
    requires
        s < 8,
        k < 8,
        k == i + s,
    ensures
        (((x >> s) >> i) & 1 == 1) == ((x >> k) & 1 == 1),
{
}

/// The vacated positions of a shift read as zero.
proof fn u8_shift_bounds(x: u8, s: u8, i: u8)
    by (bit_vector)
    requires
        s < 8,
        i < 8,
    ensures
        i < s ==> (((x << s) >> i) & 1 != 1),
        i + s >= 8 ==> (((x >> s) >> i) & 1 != 1),
{
}

/// The low-bits mask built by shifting the all-ones word down.
proof fn u8_mask_fact(n: u8, i: u8)
    by (bit_vector)
    requires
        0 < n <= 8,
        i < 8,
    ensures
        (((u8::MAX >> ((8 - n) as u8)) >> i) & 1 == 1) == (i < n),
{
}

/// The shift-based reading of a `u8` agrees with `nat_to_bits`, so its
/// numeric value is the word itself.
pub proof fn lemma_u8_bv_chars(x: u8)
    ensures
        u8_bv(x) == nat_to_bits(x as nat, 8),
        bits_to_nat(u8_bv(x)) == x as nat,
{
    lemma_nat_to_bits_len(x as nat, 8);
    assert forall|i: int| 0 <= i < 8 implies u8_bv(x)[i] == nat_to_bits(x as nat, 8)[i] by {
        let iv = i as u8;
        lemma_nat_to_bits_index(x as nat, 8, i);
        lemma_u8_shr_is_div(x, iv);
        u8_bit_facts(x, x, iv);
    }
    assert(u8_bv(x) =~= nat_to_bits(x as nat, 8));
    lemma_nat_to_bits_to_nat(x as nat, 8);
    lemma2_to64();
}

impl StateWord for u8 {
    open spec fn width() -> nat {
        8
    }

    open spec fn bv(self) -> Seq<bool> {
        u8_bv(self)
    }

    proof fn lemma_width() {
    }

    proof fn lemma_bv_len(self) {
    }

    proof fn lemma_bv_injective(self, other: Self) {
        lemma_u8_bv_chars(self);
        lemma_u8_bv_chars(other);
    }

    fn width_exec() -> (r: usize) {
        8
    }

    fn from_u8(x: u8) -> (r: Self) {
        proof {
            lemma_u8_bv_chars(x as u8);
        }
        x as u8
    }

    fn zero() -> (r: Self) {
        proof {
            lemma_u8_bv_chars(0 as u8);
            lemma_nat_to_bits_zero(8);
        }
        0 as u8
    }

    fn complement(self) -> (r: Self) {
        let r = !self;
        proof {
            assert forall|i: int| 0 <= i < 8 implies u8_bv(r)[i] == not_bits(u8_bv(self))[i] by {
                u8_bit_facts(self, self, i as u8);
            }
            assert(u8_bv(r) =~= not_bits(u8_bv(self)));
        }
        r
    }

    fn bit_and(self, o: Self) -> (r: Self) {
        let r = self & o;
        proof {
            assert forall|i: int| 0 <= i < 8 implies u8_bv(r)[i] == and_bits(
                u8_bv(self),
                u8_bv(o),
            )[i] by {
                u8_bit_facts(self, o, i as u8);
            }
            assert(u8_bv(r) =~= and_bits(u8_bv(self), u8_bv(o)));
        }
        r
    }

    fn bit_or(self, o: Self) -> (r: Self) {
        let r = self | o;
        proof {
            assert forall|i: int| 0 <= i < 8 implies u8_bv(r)[i] == or_bits(
                u8_bv(self),
                u8_bv(o),
            )[i] by {
                u8_bit_facts(self, o, i as u8);
            }
            assert(u8_bv(r) =~= or_bits(u8_bv(self), u8_bv(o)));
        }
        r
    }

    fn bit_xor(self, o: Self) -> (r: Self) {
        let r = self ^ o;
        proof {
            assert forall|i: int| 0 <= i < 8 implies u8_bv(r)[i] == xor_bits(
                u8_bv(self),
                u8_bv(o),
            )[i] by {
                u8_bit_facts(self, o, i as u8);
            }
            assert(u8_bv(r) =~= xor_bits(u8_bv(self), u8_bv(o)));
        }
        r
    }

    fn shift_left(self, s: usize) -> (r: Self) {
        if s >= 8 {
            let r = 0 as u8;
            proof {
                assert forall|i: int| 0 <= i < 8 implies u8_bv(r)[i] == shl_bits(
                    u8_bv(self),
                    s as nat,
                )[i] by {
                    u8_bit_facts(self, self, i as u8);
                }
                assert(u8_bv(r) =~= shl_bits(u8_bv(self), s as nat));
            }
            r
        } else {
            let sv = s as u8;
            let r = self << sv;
            proof {
                assert forall|i: int| 0 <= i < 8 implies u8_bv(r)[i] == shl_bits(
                    u8_bv(self),
                    s as nat,
                )[i] by {
                    let iv = i as u8;
                    if i < s {
                        u8_shift_bounds(self, sv, iv);
                    } else {
                        u8_shl_fact(self, sv, iv, (i - s) as u8);
                    }
                }
                assert(u8_bv(r) =~= shl_bits(u8_bv(self), s as nat));
            }
            r
        }
    }

    fn shift_right(self, s: usize) -> (r: Self) {
        if s >= 8 {
            let r = 0 as u8;
            proof {
                assert forall|i: int| 0 <= i < 8 implies u8_bv(r)[i] == shr_bits(
                    u8_bv(self),
                    s as nat,
                )[i] by {
                    u8_bit_facts(self, self, i as u8);
                }
                assert(u8_bv(r) =~= shr_bits(u8_bv(self), s as nat));
            }
            r
        } else {
            let sv = s as u8;
            let r = self >> sv;
            proof {
                assert forall|i: int| 0 <= i < 8 implies u8_bv(r)[i] == shr_bits(
                    u8_bv(self),
                    s as nat,
                )[i] by {
                    let iv = i as u8;
                    if i + s < 8 {
                        u8_shr_fact(self, sv, iv, (i + s) as u8);
                    } else {
                        u8_shift_bounds(self, sv, iv);
                    }
                }
                assert(u8_bv(r) =~= shr_bits(u8_bv(self), s as nat));
            }
            r
        }
    }

    fn low_mask(n: usize) -> (r: Self) {
        if n == 0 {
            let r = 0 as u8;
            proof {
                assert forall|i: int| 0 <= i < 8 implies u8_bv(r)[i] == mask_bits(8, 0)[i] by {
                    u8_bit_facts(r, r, i as u8);
                }
                assert(u8_bv(r) =~= mask_bits(8, n as nat));
            }
            r
        } else {
            let nv = n as u8;
            let r = u8::MAX >> ((8 - n) as u8);
            proof {
                assert forall|i: int| 0 <= i < 8 implies u8_bv(r)[i] == mask_bits(8, n as nat)[i]
                    by {
                    u8_mask_fact(nv, i as u8);
                }
                assert(u8_bv(r) =~= mask_bits(8, n as nat));
            }
            r
        }
    }

    fn equals(self, o: Self) -> (r: bool) {
        proof {
            lemma_u8_bv_chars(self);
            lemma_u8_bv_chars(o);
        }
        self == o
    }

    fn le_bytes(self) -> (r: Vec<u8>) {
        let mut r: Vec<u8> = Vec::new();
        r.push(self);
        proof {
            lemma_u8_bv_chars(self);
            lemma_pack_byte(self as nat, 8, 0);
            lemma2_to64();
            assert(r@ =~= pack_bits(u8_bv(self)));
        }
        r
    }
}

impl Limb for u8 {
    proof fn lemma_limb_width() {
    }

    fn wrapping_add_word(self, o: Self) -> (r: Self) {
        let r = if self <= u8::MAX - o {
            self + o
        } else {
            self - (u8::MAX - o) - 1
        };
        proof {
            lemma_u8_bv_chars(self);
            lemma_u8_bv_chars(o);
            lemma_u8_bv_chars(r);
            lemma2_to64();
            let m = pow2(8);
            assert(m == 0x100);
            if self <= u8::MAX - o {
                assert((self as nat + o as nat) % m == self as nat + o as nat) by {
                    vstd::arithmetic::div_mod::lemma_small_mod((self as nat + o as nat), m);
                }
            } else {
                assert(r as nat + m == self as nat + o as nat);
                assert((self as nat + o as nat) % m == r as nat) by {
                    vstd::arithmetic::div_mod::lemma_mod_multiples_vanish(1, r as int, m as int);
                }
            }
            lemma_nat_to_bits_mod((self as nat + o as nat), 8);
        }
        r
    }

    fn less_than(self, o: Self) -> (r: bool) {
        proof {
            lemma_u8_bv_chars(self);
            lemma_u8_bv_chars(o);
        }
        self < o
    }
}

} // verus!
