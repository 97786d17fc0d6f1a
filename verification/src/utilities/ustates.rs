//! Multi-register states.
//!
//! `Ux4` holds four equal-width limbs and behaves as one wide unsigned
//! integer: limb 0 carries the least significant bits.  The bitwise
//! operations, the shifts and the byte serialization come from the
//! [`StateWord`] implementation and act exactly as on a `4N`-bit register;
//! the wide addition runs a limb-wise carry chain and the subtraction adds
//! the two's complement of its operand.

use vstd::prelude::*;

verus! {

use vstd::arithmetic::power2::pow2;
use crate::bitspec::{
    zero_bits,
    mask_bits,
    shl_bits,
    shr_bits,
    bits_to_nat,
    nat_to_bits,
    carry_add_rec,
    lemma_nat_to_bits_split,
    lemma_nat_to_bits_zero,
    lemma_nat_to_bits_to_nat,
    lemma_not_bits_append,
    lemma_and_bits_append,
    lemma_or_bits_append,
    lemma_xor_bits_append,
    lemma_append_parts_eq,
    lemma_shl_bits_step,
    lemma_shr_bits_step,
    lemma_shift_bits_zero,
    lemma_pack_bits_append,
};
use crate::word::{StateWord, Limb};

/// Structure for four-register states.
#[derive(Clone, Copy, Debug)]
pub struct Ux4<U>(pub [U; 4]);

impl<U: Limb> Ux4<U> {
    /// The numeric values of the four limbs, least significant limb first.
    pub open spec fn limb_vals(self) -> Seq<nat> {
        Seq::new(4, |i: int| bits_to_nat(self.0@[i].bv()))
    }

    /// Return a new `Ux4` with values `state`.
    pub fn new(state: [U; 4]) -> (r: Self)
        ensures
            r.0 == state,
    {
        Ux4(state)
    }

    /// Return a new zero-formatted `Ux4`.
    pub fn zero() -> (r: Self)
        ensures
            r.bv() == zero_bits(Self::width()),
    {
        let z = U::zero();
        let r = Ux4([z, z, z, z]);
        proof {
            U::lemma_width();
            assert(r.bv() =~= zero_bits(Self::width()));
        }
        r
    }

    /// Getter for the state values.
    pub fn get(&self) -> (r: [U; 4])
        ensures
            r == self.0,
    {
        [self.0[0], self.0[1], self.0[2], self.0[3]]
    }

    /// Setter for the state values.
    pub fn set(&mut self, i: [U; 4])
        ensures
            final(self).0 == i,
    {
        *self = Ux4(i);
    }

    /// Wide addition: limb-wise wrapping sums with an explicit carry chain;
    /// the carry into the next limb is set exactly when a limb's wrapping
    /// sum is numerically less than either operand limb, and no carry leaves
    /// the most significant limb.
    pub fn wrapping_add(self, rhs: Self) -> (r: Self)
        ensures
            r.limb_vals() == carry_add_rec(self.limb_vals(), rhs.limb_vals(), 0, U::width()),
    {
        let ghost w = U::width();
        let ghost m = pow2(U::width());
        proof {
            U::lemma_width();
            vstd::arithmetic::power2::lemma_pow2_pos(w);
            vstd::arithmetic::power2::lemma_pow2_strictly_increases(0, w);
            vstd::arithmetic::power2::lemma2_to64();
        }
        let mut carry: U = U::zero();
        proof {
            lemma_nat_to_bits_zero(w);
            lemma_nat_to_bits_to_nat(0, w);
            vstd::arithmetic::div_mod::lemma_small_mod(0, m);
            assert(bits_to_nat(carry.bv()) == 0nat);
        }
        let s0 = self.0[0].wrapping_add_word(rhs.0[0]).wrapping_add_word(carry);
        proof {
            lemma_mod_add_chain(
                bits_to_nat(self.0@[0].bv()) + bits_to_nat(rhs.0@[0].bv()),
                bits_to_nat(carry.bv()),
                m,
            );
        }
        carry = if s0.less_than(self.0[0]) || s0.less_than(rhs.0[0]) {
            U::from_u8(1)
        } else {
            U::from_u8(0)
        };
        proof {
            lemma_carry_value::<U>(carry);
        }
        let ghost c0 = bits_to_nat(carry.bv());
        let s1 = self.0[1].wrapping_add_word(rhs.0[1]).wrapping_add_word(carry);
        proof {
            lemma_mod_add_chain(
                bits_to_nat(self.0@[1].bv()) + bits_to_nat(rhs.0@[1].bv()),
                bits_to_nat(carry.bv()),
                m,
            );
        }
        carry = if s1.less_than(self.0[1]) || s1.less_than(rhs.0[1]) {
            U::from_u8(1)
        } else {
            U::from_u8(0)
        };
        proof {
            lemma_carry_value::<U>(carry);
        }
        let ghost c1 = bits_to_nat(carry.bv());
        let s2 = self.0[2].wrapping_add_word(rhs.0[2]).wrapping_add_word(carry);
        proof {
            lemma_mod_add_chain(
                bits_to_nat(self.0@[2].bv()) + bits_to_nat(rhs.0@[2].bv()),
                bits_to_nat(carry.bv()),
                m,
            );
        }
        carry = if s2.less_than(self.0[2]) || s2.less_than(rhs.0[2]) {
            U::from_u8(1)
        } else {
            U::from_u8(0)
        };
        proof {
            lemma_carry_value::<U>(carry);
        }
        let ghost c2 = bits_to_nat(carry.bv());
        let s3 = self.0[3].wrapping_add_word(rhs.0[3]).wrapping_add_word(carry);
        proof {
            lemma_mod_add_chain(
                bits_to_nat(self.0@[3].bv()) + bits_to_nat(rhs.0@[3].bv()),
                bits_to_nat(carry.bv()),
                m,
            );
        }
        let r = Ux4([s0, s1, s2, s3]);
        proof {
            let av = self.limb_vals();
            let bv = rhs.limb_vals();
            assert(bits_to_nat(r.0@[0].bv()) == (av[0] + bv[0] + 0) % m);
            assert(bits_to_nat(r.0@[1].bv()) == (av[1] + bv[1] + c0) % m);
            assert(bits_to_nat(r.0@[2].bv()) == (av[2] + bv[2] + c1) % m);
            assert(bits_to_nat(r.0@[3].bv()) == (av[3] + bv[3] + c2) % m);
            lemma_carry_add_rec_four(av, bv, w);
            assert(r.limb_vals() =~= carry_add_rec(av, bv, 0, w));
        }
        r
    }

    /// The limb values with every bit flipped: each limb becomes
    /// `2^width - 1` minus its value.
    pub open spec fn complement_vals(self) -> Seq<nat> {
        Seq::new(4, |i: int| (pow2(U::width()) - 1 - self.limb_vals()[i]) as nat)
    }

    /// Wide subtraction, computed as the wide addition of the two's
    /// complement of `rhs`: its bitwise complement with one added to the
    /// least significant limb, the carry propagating through the addition.
    pub fn wrapping_sub(self, rhs: Self) -> (r: Self)
        ensures
            r.limb_vals() == carry_add_rec(
                self.limb_vals(),
                carry_add_rec(rhs.complement_vals(), Ux4::<U>::unit_vals(), 0, U::width()),
                0,
                U::width(),
            ),
    {
        let one = Ux4([U::from_u8(1), U::zero(), U::zero(), U::zero()]);
        proof {
            U::lemma_width();
            lemma_nat_to_bits_to_nat(1, U::width());
            lemma_nat_to_bits_to_nat(0, U::width());
            lemma_nat_to_bits_zero(U::width());
            vstd::arithmetic::power2::lemma_pow2_pos(U::width());
            vstd::arithmetic::power2::lemma_pow2_strictly_increases(0, U::width());
            vstd::arithmetic::power2::lemma2_to64();
            vstd::arithmetic::div_mod::lemma_small_mod(1, pow2(U::width()));
            vstd::arithmetic::div_mod::lemma_small_mod(0, pow2(U::width()));
            assert(one.limb_vals() =~= Ux4::<U>::unit_vals());
        }
        let comp = Ux4(
            [
                rhs.0[0].complement(),
                rhs.0[1].complement(),
                rhs.0[2].complement(),
                rhs.0[3].complement(),
            ],
        );
        proof {
            lemma_limbs_bv_len(rhs);
            crate::bitspec::lemma_bits_to_nat_not(rhs.0@[0].bv());
            crate::bitspec::lemma_bits_to_nat_not(rhs.0@[1].bv());
            crate::bitspec::lemma_bits_to_nat_not(rhs.0@[2].bv());
            crate::bitspec::lemma_bits_to_nat_not(rhs.0@[3].bv());
            assert(comp.limb_vals() =~= rhs.complement_vals());
        }
        let two_complement = comp.wrapping_add(one);
        self.wrapping_add(two_complement)
    }

    /// The limb values of the constant one: a one in the least significant
    /// limb, zero elsewhere.
    pub open spec fn unit_vals() -> Seq<nat> {
        seq![1nat, 0nat, 0nat, 0nat]
    }
}

/// Adding a small carry to a reduced sum reduces the whole sum.
proof fn lemma_mod_add_chain(x: nat, c: nat, m: nat)
    requires
        0 < m,
        c < m,
    ensures
        ((x % m) + c) % m == (x + c) % m,
{
    vstd::arithmetic::div_mod::lemma_add_mod_noop(x as int, c as int, m as int);
    vstd::arithmetic::div_mod::lemma_small_mod(c, m);
    vstd::arithmetic::div_mod::lemma_mod_bound(x as int, m as int);
    vstd::arithmetic::div_mod::lemma_small_mod(x % m, m);
}

/// A freshly built carry word holds zero or one, and exactly one when it
/// was built from one.
proof fn lemma_carry_value<U: Limb>(c: U)
    requires
        c.bv() == nat_to_bits(1, U::width()) || c.bv() == nat_to_bits(0, U::width()),
    ensures
        c.bv() == nat_to_bits(1, U::width()) ==> bits_to_nat(c.bv()) == 1,
        c.bv() == nat_to_bits(0, U::width()) ==> bits_to_nat(c.bv()) == 0,
        bits_to_nat(c.bv()) < pow2(U::width()),
{
    U::lemma_width();
    lemma_nat_to_bits_to_nat(1, U::width());
    lemma_nat_to_bits_to_nat(0, U::width());
    vstd::arithmetic::power2::lemma_pow2_strictly_increases(0, U::width());
    vstd::arithmetic::power2::lemma2_to64();
    vstd::arithmetic::div_mod::lemma_small_mod(1, pow2(U::width()));
    vstd::arithmetic::div_mod::lemma_small_mod(0, pow2(U::width()));
}

/// Relates the four unrolled carry steps of `wrapping_add` to the
/// recursive carry chain.
proof fn lemma_wide_add_chain<U: Limb>(a: Ux4<U>, b: Ux4<U>, r: Ux4<U>)
    requires
        ({
            let w = U::width();
            let av = a.limb_vals();
            let bv = b.limb_vals();
            let s0 = (av[0] + bv[0] + 0) % pow2(w);
            let c0: nat = if s0 < av[0] || s0 < bv[0] {
                1
            } else {
                0
            };
            let s1 = (av[1] + bv[1] + c0) % pow2(w);
            let c1: nat = if s1 < av[1] || s1 < bv[1] {
                1
            } else {
                0
            };
            let s2 = (av[2] + bv[2] + c1) % pow2(w);
            let c2: nat = if s2 < av[2] || s2 < bv[2] {
                1
            } else {
                0
            };
            let s3 = (av[3] + bv[3] + c2) % pow2(w);
            r.limb_vals() =~= seq![s0, s1, s2, s3]
        }),
    ensures
        r.limb_vals() == carry_add_rec(a.limb_vals(), b.limb_vals(), 0, U::width()),
{
    let w = U::width();
    let av = a.limb_vals();
    let bv = b.limb_vals();
    assert(av =~= seq![av[0], av[1], av[2], av[3]]);
    assert(bv =~= seq![bv[0], bv[1], bv[2], bv[3]]);
    lemma_carry_add_rec_four(seq![av[0], av[1], av[2], av[3]], seq![bv[0], bv[1], bv[2], bv[3]], w);
}

/// Unrolls `carry_add_rec` on four-limb sequences.
#[verifier::rlimit(50)]
proof fn lemma_carry_add_rec_four(a: Seq<nat>, b: Seq<nat>, w: nat)
    requires
        a.len() == 4,
        b.len() == 4,
    ensures
        ({
            let s0 = (a[0] + b[0] + 0) % pow2(w);
            let c0: nat = if s0 < a[0] || s0 < b[0] {
                1
            } else {
                0
            };
            let s1 = (a[1] + b[1] + c0) % pow2(w);
            let c1: nat = if s1 < a[1] || s1 < b[1] {
                1
            } else {
                0
            };
            let s2 = (a[2] + b[2] + c1) % pow2(w);
            let c2: nat = if s2 < a[2] || s2 < b[2] {
                1
            } else {
                0
            };
            let s3 = (a[3] + b[3] + c2) % pow2(w);
            carry_add_rec(a, b, 0, w) == seq![s0, s1, s2, s3]
        }),
{
    reveal_with_fuel(carry_add_rec, 6);
    vstd::arithmetic::power2::lemma_pow2_pos(w);
    assert(a.skip(1).len() == 3 && a.skip(1).skip(1).len() == 2 && a.skip(1).skip(1).skip(
        1,
    ).len() == 1);
    assert(b.skip(1).len() == 3 && b.skip(1).skip(1).len() == 2 && b.skip(1).skip(1).skip(
        1,
    ).len() == 1);
    let s0 = (a[0] + b[0] + 0) % pow2(w);
    let c0: nat = if s0 < a[0] || s0 < b[0] {
        1
    } else {
        0
    };
    let a1 = a.skip(1);
    let b1 = b.skip(1);
    let s1 = (a1[0] + b1[0] + c0) % pow2(w);
    let c1: nat = if s1 < a1[0] || s1 < b1[0] {
        1
    } else {
        0
    };
    let a2 = a1.skip(1);
    let b2 = b1.skip(1);
    let s2 = (a2[0] + b2[0] + c1) % pow2(w);
    let c2: nat = if s2 < a2[0] || s2 < b2[0] {
        1
    } else {
        0
    };
    let a3 = a2.skip(1);
    let b3 = b2.skip(1);
    let s3 = (a3[0] + b3[0] + c2) % pow2(w);
    let c3: nat = if s3 < a3[0] || s3 < b3[0] {
        1
    } else {
        0
    };
    assert(a3.skip(1).len() == 0);
    assert(carry_add_rec(a3.skip(1), b3.skip(1), c3, w) == Seq::<nat>::empty());
    assert(carry_add_rec(a3, b3, c2, w) == seq![s3] + carry_add_rec(a3.skip(1), b3.skip(1), c3, w));
    assert(carry_add_rec(a3, b3, c2, w) =~= seq![s3]);
    assert(carry_add_rec(a2, b2, c1, w) == seq![s2] + carry_add_rec(a3, b3, c2, w));
    assert(carry_add_rec(a2, b2, c1, w) =~= seq![s2, s3]);
    assert(carry_add_rec(a1, b1, c0, w) == seq![s1] + carry_add_rec(a2, b2, c1, w));
    assert(carry_add_rec(a1, b1, c0, w) =~= seq![s1, s2, s3]);
    assert(carry_add_rec(a, b, 0, w) == seq![s0] + carry_add_rec(a1, b1, c0, w));
    assert(carry_add_rec(a, b, 0, w) =~= seq![s0, s1, s2, s3]);
}

impl<U: Limb> PartialEq for Ux4<U> {
    /// Equality holds exactly when all four limbs are pairwise equal.
    fn eq(&self, other: &Self) -> (r: bool) {
        let r = self.0[0].equals(other.0[0]) && self.0[1].equals(other.0[1]) && self.0[2].equals(
            other.0[2],
        ) && self.0[3].equals(other.0[3]);
        proof {
            if r {
                U::lemma_bv_injective(self.0@[0], other.0@[0]);
                U::lemma_bv_injective(self.0@[1], other.0@[1]);
                U::lemma_bv_injective(self.0@[2], other.0@[2]);
                U::lemma_bv_injective(self.0@[3], other.0@[3]);
                broadcast use vstd::array::axiom_array_ext_equal;

                assert(self.0 =~= other.0);
            }
        }
        r
    }
}

impl<U: Limb> vstd::std_specs::cmp::PartialEqSpecImpl for Ux4<U> {
    open spec fn obeys_eq_spec() -> bool {
        true
    }

    open spec fn eq_spec(&self, other: &Self) -> bool {
        self.0@ == other.0@
    }
}

impl<U: Limb> StateWord for Ux4<U> {
    open spec fn width() -> nat {
        4 * U::width()
    }

    open spec fn bv(self) -> Seq<bool> {
        self.0@[0].bv() + self.0@[1].bv() + self.0@[2].bv() + self.0@[3].bv()
    }

    proof fn lemma_width() {
        U::lemma_width();
        U::lemma_limb_width();
    }

    proof fn lemma_bv_len(self) {
        self.0@[0].lemma_bv_len();
        self.0@[1].lemma_bv_len();
        self.0@[2].lemma_bv_len();
        self.0@[3].lemma_bv_len();
    }

    proof fn lemma_bv_injective(self, other: Self) {
        let w = U::width();
        lemma_limbs_bv_len(self);
        lemma_limbs_bv_len(other);
        lemma_bv_reassoc(self);
        lemma_bv_reassoc(other);
        lemma_append_parts_eq(
            self.0@[0].bv(),
            self.0@[1].bv() + self.0@[2].bv() + self.0@[3].bv(),
            other.0@[0].bv(),
            other.0@[1].bv() + other.0@[2].bv() + other.0@[3].bv(),
        );
        lemma_append_parts_eq(
            self.0@[1].bv(),
            self.0@[2].bv() + self.0@[3].bv(),
            other.0@[1].bv(),
            other.0@[2].bv() + other.0@[3].bv(),
        );
        lemma_append_parts_eq(self.0@[2].bv(), self.0@[3].bv(), other.0@[2].bv(), other.0@[3].bv());
        U::lemma_bv_injective(self.0@[0], other.0@[0]);
        U::lemma_bv_injective(self.0@[1], other.0@[1]);
        U::lemma_bv_injective(self.0@[2], other.0@[2]);
        U::lemma_bv_injective(self.0@[3], other.0@[3]);
        broadcast use vstd::array::axiom_array_ext_equal;

        assert(self.0 =~= other.0);
    }

    fn width_exec() -> (r: usize) {
        proof {
            U::lemma_width();
        }
        4 * U::width_exec()
    }

    fn from_u8(x: u8) -> (r: Self) {
        let r = Ux4([U::from_u8(x), U::zero(), U::zero(), U::zero()]);
        proof {
            U::lemma_width();
            let w = U::width();
            lemma_nat_to_bits_split(x as nat, 4 * w, w);
            vstd::arithmetic::power2::lemma2_to64();
            vstd::arithmetic::power2::lemma_pow2_adds(8, (w - 8) as nat);
            vstd::arithmetic::power2::lemma_pow2_pos((w - 8) as nat);
            assert(pow2(w) >= 256) by (nonlinear_arith)
                requires
                    pow2(w) == 256 * pow2((w - 8) as nat),
                    pow2((w - 8) as nat) >= 1,
            ;
            vstd::arithmetic::div_mod::lemma_small_mod(x as nat, pow2(w));
            assert(x as nat / pow2(w) == 0) by {
                vstd::arithmetic::div_mod::lemma_basic_div(x as int, pow2(w) as int);
            }
            lemma_nat_to_bits_split(0, 3 * w, w);
            vstd::arithmetic::div_mod::lemma_small_mod(0, pow2(w));
            assert(0nat / pow2(w) == 0) by {
                vstd::arithmetic::div_mod::lemma_basic_div(0, pow2(w) as int);
            }
            lemma_nat_to_bits_split(0, 2 * w, w);
            lemma_nat_to_bits_zero(w);
            assert(r.bv() =~= nat_to_bits(x as nat, w) + (nat_to_bits(0, w) + (nat_to_bits(0, w)
                + nat_to_bits(0, w))));
            assert(nat_to_bits(x as nat, Self::width()) == nat_to_bits(x as nat, w) + (nat_to_bits(
                0,
                w,
            ) + (nat_to_bits(0, w) + nat_to_bits(0, w)))) by {
                assert(nat_to_bits(0, 3 * w) == nat_to_bits(0, w) + nat_to_bits(0, 2 * w));
                assert(nat_to_bits(0, 2 * w) == nat_to_bits(0, w) + nat_to_bits(0, w));
                assert(4 * w - w == 3 * w && 3 * w - w == 2 * w && 2 * w - w == w);
            }
        }
        r
    }

    fn zero() -> (r: Self) {
        Ux4::<U>::zero()
    }

    fn complement(self) -> (r: Self) {
        let r = Ux4(
            [
                self.0[0].complement(),
                self.0[1].complement(),
                self.0[2].complement(),
                self.0[3].complement(),
            ],
        );
        proof {
            lemma_limbs_bv_len(self);
            lemma_not_bits_append(
                self.0@[0].bv() + self.0@[1].bv() + self.0@[2].bv(),
                self.0@[3].bv(),
            );
            lemma_not_bits_append(self.0@[0].bv() + self.0@[1].bv(), self.0@[2].bv());
            lemma_not_bits_append(self.0@[0].bv(), self.0@[1].bv());
        }
        r
    }

    fn bit_and(self, o: Self) -> (r: Self) {
        let r = Ux4(
            [
                self.0[0].bit_and(o.0[0]),
                self.0[1].bit_and(o.0[1]),
                self.0[2].bit_and(o.0[2]),
                self.0[3].bit_and(o.0[3]),
            ],
        );
        proof {
            lemma_limbs_bv_len(self);
            lemma_limbs_bv_len(o);
            lemma_and_bits_append(
                self.0@[0].bv() + self.0@[1].bv() + self.0@[2].bv(),
                self.0@[3].bv(),
                o.0@[0].bv() + o.0@[1].bv() + o.0@[2].bv(),
                o.0@[3].bv(),
            );
            lemma_and_bits_append(
                self.0@[0].bv() + self.0@[1].bv(),
                self.0@[2].bv(),
                o.0@[0].bv() + o.0@[1].bv(),
                o.0@[2].bv(),
            );
            lemma_and_bits_append(self.0@[0].bv(), self.0@[1].bv(), o.0@[0].bv(), o.0@[1].bv());
        }
        r
    }

    fn bit_or(self, o: Self) -> (r: Self) {
        let r = Ux4(
            [
                self.0[0].bit_or(o.0[0]),
                self.0[1].bit_or(o.0[1]),
                self.0[2].bit_or(o.0[2]),
                self.0[3].bit_or(o.0[3]),
            ],
        );
        proof {
            lemma_limbs_bv_len(self);
            lemma_limbs_bv_len(o);
            lemma_or_bits_append(
                self.0@[0].bv() + self.0@[1].bv() + self.0@[2].bv(),
                self.0@[3].bv(),
                o.0@[0].bv() + o.0@[1].bv() + o.0@[2].bv(),
                o.0@[3].bv(),
            );
            lemma_or_bits_append(
                self.0@[0].bv() + self.0@[1].bv(),
                self.0@[2].bv(),
                o.0@[0].bv() + o.0@[1].bv(),
                o.0@[2].bv(),
            );
            lemma_or_bits_append(self.0@[0].bv(), self.0@[1].bv(), o.0@[0].bv(), o.0@[1].bv());
        }
        r
    }

    fn bit_xor(self, o: Self) -> (r: Self) {
        let r = Ux4(
            [
                self.0[0].bit_xor(o.0[0]),
                self.0[1].bit_xor(o.0[1]),
                self.0[2].bit_xor(o.0[2]),
                self.0[3].bit_xor(o.0[3]),
            ],
        );
        proof {
            lemma_limbs_bv_len(self);
            lemma_limbs_bv_len(o);
            lemma_xor_bits_append(
                self.0@[0].bv() + self.0@[1].bv() + self.0@[2].bv(),
                self.0@[3].bv(),
                o.0@[0].bv() + o.0@[1].bv() + o.0@[2].bv(),
                o.0@[3].bv(),
            );
            lemma_xor_bits_append(
                self.0@[0].bv() + self.0@[1].bv(),
                self.0@[2].bv(),
                o.0@[0].bv() + o.0@[1].bv(),
                o.0@[2].bv(),
            );
            lemma_xor_bits_append(self.0@[0].bv(), self.0@[1].bv(), o.0@[0].bv(), o.0@[1].bv());
        }
        r
    }

    fn shift_left(self, s: usize) -> (r: Self) {
        let mut result = self;
        let mut done: usize = 0;
        proof {
            lemma_shift_bits_zero(self.bv());
        }
        while done < s
            invariant
                done <= s,
                result.bv() == shl_bits(self.bv(), done as nat),
            decreases s - done,
        {
            result = result.shl1();
            proof {
                lemma_shl_bits_step(self.bv(), done as nat);
            }
            done += 1;
        }
        result
    }

    fn shift_right(self, s: usize) -> (r: Self) {
        let mut result = self;
        let mut done: usize = 0;
        proof {
            lemma_shift_bits_zero(self.bv());
        }
        while done < s
            invariant
                done <= s,
                result.bv() == shr_bits(self.bv(), done as nat),
            decreases s - done,
        {
            result = result.shr1();
            proof {
                lemma_shr_bits_step(self.bv(), done as nat);
            }
            done += 1;
        }
        result
    }

    fn low_mask(n: usize) -> (r: Self) {
        let w = U::width_exec();
        proof {
            U::lemma_width();
        }
        let m0 = if n >= w {
            w
        } else {
            n
        };
        let m1 = if n >= 2 * w {
            w
        } else if n > w {
            n - w
        } else {
            0
        };
        let m2 = if n >= 3 * w {
            w
        } else if n > 2 * w {
            n - 2 * w
        } else {
            0
        };
        let m3 = if n >= 4 * w {
            w
        } else if n > 3 * w {
            n - 3 * w
        } else {
            0
        };
        let r = Ux4([U::low_mask(m0), U::low_mask(m1), U::low_mask(m2), U::low_mask(m3)]);
        proof {
            assert(r.bv() =~= mask_bits(Self::width(), n as nat));
        }
        r
    }

    fn equals(self, o: Self) -> (r: bool) {
        let r = self.0[0].equals(o.0[0]) && self.0[1].equals(o.0[1]) && self.0[2].equals(o.0[2])
            && self.0[3].equals(o.0[3]);
        proof {
            lemma_limbs_bv_len(self);
            lemma_limbs_bv_len(o);
            if r {
            } else {
                if self.bv() == o.bv() {
                    lemma_bv_reassoc(self);
                    lemma_bv_reassoc(o);
                    lemma_append_parts_eq(
                        self.0@[0].bv(),
                        self.0@[1].bv() + self.0@[2].bv() + self.0@[3].bv(),
                        o.0@[0].bv(),
                        o.0@[1].bv() + o.0@[2].bv() + o.0@[3].bv(),
                    );
                    lemma_append_parts_eq(
                        self.0@[1].bv(),
                        self.0@[2].bv() + self.0@[3].bv(),
                        o.0@[1].bv(),
                        o.0@[2].bv() + o.0@[3].bv(),
                    );
                    lemma_append_parts_eq(
                        self.0@[2].bv(),
                        self.0@[3].bv(),
                        o.0@[2].bv(),
                        o.0@[3].bv(),
                    );
                }
            }
        }
        r
    }

    fn le_bytes(self) -> (r: Vec<u8>) {
        let mut r = self.0[0].le_bytes();
        let mut r1 = self.0[1].le_bytes();
        let mut r2 = self.0[2].le_bytes();
        let mut r3 = self.0[3].le_bytes();
        r.append(&mut r1);
        r.append(&mut r2);
        r.append(&mut r3);
        proof {
            lemma_limbs_bv_len(self);
            U::lemma_width();
            lemma_pack_bits_append(
                self.0@[0].bv() + self.0@[1].bv() + self.0@[2].bv(),
                self.0@[3].bv(),
            );
            lemma_pack_bits_append(self.0@[0].bv() + self.0@[1].bv(), self.0@[2].bv());
            lemma_pack_bits_append(self.0@[0].bv(), self.0@[1].bv());
        }
        r
    }
}

/// Each limb of a state has exactly the limb width of bits.
proof fn lemma_limbs_bv_len<U: Limb>(s: Ux4<U>)
    ensures
        s.0@[0].bv().len() == U::width(),
        s.0@[1].bv().len() == U::width(),
        s.0@[2].bv().len() == U::width(),
        s.0@[3].bv().len() == U::width(),
        s.bv().len() == 4 * U::width(),
{
    s.0@[0].lemma_bv_len();
    s.0@[1].lemma_bv_len();
    s.0@[2].lemma_bv_len();
    s.0@[3].lemma_bv_len();
}

/// The register's bits re-associated for splitting off limbs from the left.
proof fn lemma_bv_reassoc<U: Limb>(s: Ux4<U>)
    ensures
        s.bv() == s.0@[0].bv() + (s.0@[1].bv() + s.0@[2].bv() + s.0@[3].bv()),
        s.0@[1].bv() + s.0@[2].bv() + s.0@[3].bv() == s.0@[1].bv() + (s.0@[2].bv()
            + s.0@[3].bv()),
{
    assert(s.bv() =~= s.0@[0].bv() + (s.0@[1].bv() + s.0@[2].bv() + s.0@[3].bv()));
    assert(s.0@[1].bv() + s.0@[2].bv() + s.0@[3].bv() =~= s.0@[1].bv() + (s.0@[2].bv()
        + s.0@[3].bv()));
}

impl<U: Limb> Ux4<U> {
    /// One left shift of the whole register: each limb shifts up one bit
    /// and receives the top bit of the limb below it.
    fn shl1(self) -> (r: Self)
        ensures
            r.bv() == shl_bits(self.bv(), 1),
    {
        let w = U::width_exec();
        proof {
            U::lemma_width();
        }
        let c0 = self.0[0].shift_right(w - 1);
        let c1 = self.0[1].shift_right(w - 1);
        let c2 = self.0[2].shift_right(w - 1);
        let r = Ux4(
            [
                self.0[0].shift_left(1),
                self.0[1].shift_left(1).bit_or(c0),
                self.0[2].shift_left(1).bit_or(c1),
                self.0[3].shift_left(1).bit_or(c2),
            ],
        );
        proof {
            lemma_limbs_bv_len(self);
            lemma_limbs_bv_len(r);
            assert(r.bv() =~= shl_bits(self.bv(), 1));
        }
        r
    }

    /// One right shift of the whole register: each limb shifts down one bit
    /// and receives the bottom bit of the limb above it.
    fn shr1(self) -> (r: Self)
        ensures
            r.bv() == shr_bits(self.bv(), 1),
    {
        let w = U::width_exec();
        proof {
            U::lemma_width();
        }
        let c1 = self.0[1].shift_left(w - 1);
        let c2 = self.0[2].shift_left(w - 1);
        let c3 = self.0[3].shift_left(w - 1);
        let r = Ux4(
            [
                self.0[0].shift_right(1).bit_or(c1),
                self.0[1].shift_right(1).bit_or(c2),
                self.0[2].shift_right(1).bit_or(c3),
                self.0[3].shift_right(1),
            ],
        );
        proof {
            lemma_limbs_bv_len(self);
            lemma_limbs_bv_len(r);
            assert(r.bv() =~= shr_bits(self.bv(), 1));
        }
        r
    }
}

} // verus!
