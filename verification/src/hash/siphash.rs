//! Module implementing the SipHash and Half-SipHash ARX round
//! permutations over four-limb states, and the `SipHash` digest state
//! that collects input for them.
//!
//! Both round permutations are public; the finalization schedule of the
//! digest is not part of this crate.

#![allow(non_snake_case)]

use vstd::prelude::*;

verus! {

use vstd::arithmetic::power2::pow2;
use crate::bitspec::{
    or_bits,
    xor_bits,
    shl_bits,
    shr_bits,
    bits_to_nat,
    nat_to_bits,
    lemma_nat_to_bits_len,
};
use crate::word::{StateWord, Limb};
use crate::utilities::ustates::Ux4;
use crate::utilities::bitops::urot;
use crate::perm::Permutation;
use crate::errors::CtError;

/// Addition of two equal-width words modulo their width.
pub open spec fn wadd_bits(x: Seq<bool>, y: Seq<bool>) -> Seq<bool> {
    nat_to_bits((bits_to_nat(x) + bits_to_nat(y)) % pow2(x.len()), x.len())
}

/// Left rotation of a word by `s` places.
pub open spec fn rot_bits(x: Seq<bool>, s: nat) -> Seq<bool> {
    or_bits(shl_bits(x, s), shr_bits(x, (x.len() - s) as nat))
}

/// One ARX round on four limbs with rotation schedule `(a, b, c, d, e)`:
/// two add-rotate-xor passes that cross the limb pairs.
pub open spec fn sip_round_bits(
    p0: Seq<bool>,
    p1: Seq<bool>,
    p2: Seq<bool>,
    p3: Seq<bool>,
    a: nat,
    b: nat,
    c: nat,
    d: nat,
    e: nat,
) -> (Seq<bool>, Seq<bool>, Seq<bool>, Seq<bool>) {
    let v0 = wadd_bits(p0, p1);
    let v1 = xor_bits(rot_bits(p1, a), v0);
    let v0b = rot_bits(v0, e);
    let v2 = wadd_bits(p2, p3);
    let v3 = xor_bits(rot_bits(p3, b), v2);
    let v0c = wadd_bits(v0b, v3);
    let v3b = xor_bits(rot_bits(v3, d), v0c);
    let v2b = wadd_bits(v2, v1);
    let v1b = xor_bits(rot_bits(v1, c), v2b);
    let v2c = rot_bits(v2b, e);
    (v0c, v1b, v2c, v3b)
}

/// The round preserves the width of every limb.
pub proof fn lemma_sip_round_bits_len(
    p0: Seq<bool>,
    p1: Seq<bool>,
    p2: Seq<bool>,
    p3: Seq<bool>,
    a: nat,
    b: nat,
    c: nat,
    d: nat,
    e: nat,
    w: nat,
)
    requires
        p0.len() == w,
        p1.len() == w,
        p2.len() == w,
        p3.len() == w,
    ensures
        ({
            let t = sip_round_bits(p0, p1, p2, p3, a, b, c, d, e);
            t.0.len() == w && t.1.len() == w && t.2.len() == w && t.3.len() == w
        }),
{
    lemma_nat_to_bits_len((bits_to_nat(p0) + bits_to_nat(p1)) % pow2(w), w);
    lemma_nat_to_bits_len((bits_to_nat(p2) + bits_to_nat(p3)) % pow2(w), w);
    let v0 = wadd_bits(p0, p1);
    let v1 = xor_bits(rot_bits(p1, a), v0);
    let v0b = rot_bits(v0, e);
    let v2 = wadd_bits(p2, p3);
    let v3 = xor_bits(rot_bits(p3, b), v2);
    lemma_nat_to_bits_len((bits_to_nat(v0b) + bits_to_nat(v3)) % pow2(w), w);
    lemma_nat_to_bits_len((bits_to_nat(v2) + bits_to_nat(v1)) % pow2(w), w);
}

/// General ARX round function for four-limb states.
#[allow(non_snake_case)]
fn SipRound<U: Limb>(state: &Ux4<U>, params: [usize; 5]) -> (r: Ux4<U>)
    requires
        forall|i: int| 0 <= i < 5 ==> params@[i] as nat <= U::width(),
    ensures
        ({
            let t = sip_round_bits(
                state.0@[0].bv(),
                state.0@[1].bv(),
                state.0@[2].bv(),
                state.0@[3].bv(),
                params@[0] as nat,
                params@[1] as nat,
                params@[2] as nat,
                params@[3] as nat,
                params@[4] as nat,
            );
            r.0@[0].bv() == t.0 && r.0@[1].bv() == t.1 && r.0@[2].bv() == t.2 && r.0@[3].bv()
                == t.3
        }),
{
    let a = params[0];
    let b = params[1];
    let c = params[2];
    let d = params[3];
    let e = params[4];
    let p = state.get();
    let mut p0 = p[0];
    let mut p1 = p[1];
    let mut p2 = p[2];
    let mut p3 = p[3];
    proof {
        p0.lemma_bv_len();
        p1.lemma_bv_len();
        p2.lemma_bv_len();
        p3.lemma_bv_len();
    }
    p0 = p0.wrapping_add_word(p1);
    proof {
        lemma_nat_to_bits_len(bits_to_nat(p0.bv()), U::width());
        p0.lemma_bv_len();
    }
    p1 = urot(p1, a).bit_xor(p0);
    p0 = urot(p0, e);
    p2 = p2.wrapping_add_word(p3);
    proof {
        p2.lemma_bv_len();
    }
    p3 = urot(p3, b).bit_xor(p2);
    proof {
        p0.lemma_bv_len();
        p3.lemma_bv_len();
    }
    p0 = p0.wrapping_add_word(p3);
    p3 = urot(p3, d).bit_xor(p0);
    proof {
        p1.lemma_bv_len();
        p2.lemma_bv_len();
    }
    p2 = p2.wrapping_add_word(p1);
    p1 = urot(p1, c).bit_xor(p2);
    proof {
        p2.lemma_bv_len();
    }
    p2 = urot(p2, e);
    Ux4::new([p0, p1, p2, p3])
}

/// The round permutation for `u32`-limb states, with the Half-SipHash
/// rotation schedule.
#[allow(non_snake_case)]
pub fn Half_SipHash_perm(state: &Ux4<u32>) -> (r: Ux4<u32>)
    ensures
        ({
            let t = sip_round_bits(
                state.0@[0].bv(),
                state.0@[1].bv(),
                state.0@[2].bv(),
                state.0@[3].bv(),
                5,
                8,
                7,
                13,
                16,
            );
            r.0@[0].bv() == t.0 && r.0@[1].bv() == t.1 && r.0@[2].bv() == t.2 && r.0@[3].bv()
                == t.3
        }),
{
    SipRound(state, [5, 8, 7, 13, 16])
}

/// The round permutation for `u64`-limb states, with the SipHash rotation
/// schedule.
#[allow(non_snake_case)]
pub fn SipHash_perm(state: &Ux4<u64>) -> (r: Ux4<u64>)
    ensures
        ({
            let t = sip_round_bits(
                state.0@[0].bv(),
                state.0@[1].bv(),
                state.0@[2].bv(),
                state.0@[3].bv(),
                13,
                16,
                17,
                21,
                32,
            );
            r.0@[0].bv() == t.0 && r.0@[1].bv() == t.1 && r.0@[2].bv() == t.2 && r.0@[3].bv()
                == t.3
        }),
{
    SipRound(state, [13, 16, 17, 21, 32])
}

/// One SipHash round on the bits of a whole 256-bit register of `u64`
/// limbs; on any other width the bits pass through unchanged.
pub open spec fn sip64_round(s: Seq<bool>) -> Seq<bool> {
    if s.len() == 256 {
        let t = sip_round_bits(
            s.subrange(0, 64),
            s.subrange(64, 128),
            s.subrange(128, 192),
            s.subrange(192, 256),
            13,
            16,
            17,
            21,
            32,
        );
        t.0 + t.1 + t.2 + t.3
    } else {
        s
    }
}

/// `n` SipHash rounds on the bits of a whole register.
pub open spec fn sip64_iter(s: Seq<bool>, n: nat) -> Seq<bool>
    decreases n,
{
    if n == 0 {
        s
    } else {
        sip64_round(sip64_iter(s, (n - 1) as nat))
    }
}

/// One round keeps the shape of the register.
pub proof fn lemma_sip64_round_len(s: Seq<bool>)
    ensures
        sip64_round(s).len() == s.len(),
{
    if s.len() == 256 {
        lemma_sip_round_bits_len(
            s.subrange(0, 64),
            s.subrange(64, 128),
            s.subrange(128, 192),
            s.subrange(192, 256),
            13,
            16,
            17,
            21,
            32,
            64,
        );
    }
}

/// Any number of rounds keeps the shape of the register.
pub proof fn lemma_sip64_iter_len(s: Seq<bool>, n: nat)
    ensures
        sip64_iter(s, n).len() == s.len(),
    decreases n,
{
    if n != 0 {
        lemma_sip64_iter_len(s, (n - 1) as nat);
        lemma_sip64_round_len(sip64_iter(s, (n - 1) as nat));
    }
}

/// A fixed number of SipHash rounds as a permutation of 256-bit states.
pub struct SipPermutation {
    /// How many rounds one `transform` applies.
    pub rounds: usize,
}

impl Permutation<Ux4<u64>> for SipPermutation {
    open spec fn pmap(&self, s: Seq<bool>) -> Seq<bool> {
        sip64_iter(s, self.rounds as nat)
    }

    proof fn lemma_pmap_len(&self, s: Seq<bool>) {
        lemma_sip64_iter_len(s, self.rounds as nat);
    }

    fn transform(&self, s: Ux4<u64>) -> (r: Ux4<u64>) {
        let mut cur = s;
        let mut i: usize = 0;
        while i < self.rounds
            invariant
                i <= self.rounds,
                cur.bv() == sip64_iter(s.bv(), i as nat),
            decreases self.rounds - i,
        {
            let stepped = SipHash_perm(&cur);
            proof {
                lemma_limb_subranges(cur);
                lemma_limb_subranges(stepped);
                assert(sip64_round(cur.bv()) == stepped.bv());
            }
            cur = stepped;
            i += 1;
        }
        cur
    }
}

/// The four quarters of a 256-bit register's bits are its limbs' bits.
proof fn lemma_limb_subranges(s: Ux4<u64>)
    ensures
        s.bv().len() == 256,
        s.bv().subrange(0, 64) == s.0@[0].bv(),
        s.bv().subrange(64, 128) == s.0@[1].bv(),
        s.bv().subrange(128, 192) == s.0@[2].bv(),
        s.bv().subrange(192, 256) == s.0@[3].bv(),
{
    s.lemma_bv_len();
    s.0@[0].lemma_bv_len();
    s.0@[1].lemma_bv_len();
    s.0@[2].lemma_bv_len();
    s.0@[3].lemma_bv_len();
    assert(s.bv().subrange(0, 64) =~= s.0@[0].bv());
    assert(s.bv().subrange(64, 128) =~= s.0@[1].bv());
    assert(s.bv().subrange(128, 192) =~= s.0@[2].bv());
    assert(s.bv().subrange(192, 256) =~= s.0@[3].bv());
}

/// Structure holding the state and collected input of the SipHash ARX
/// hash function; the finalization schedule is out of scope.
pub struct SipHash<U> {
    /// Size of one limb of the state in bits.
    pub n: usize,
    /// Number of compression rounds.
    pub c: usize,
    /// Number of finalization rounds.
    pub d: usize,
    /// Inner state.
    pub state: Ux4<U>,
    /// Input buffer.
    pub inputs: Vec<u8>,
}

impl SipHash<u32> {
    /// Setup function for Half-SipHash with a `u32`-limb state; the
    /// initial state holds the variant's published constants.  A missing
    /// or zero round count is rejected and nothing is constructed.
    pub fn new(params: Vec<usize>) -> (result: Result<Self, CtError>)
        ensures
            match result {
                Ok(h) => {
                    &&& params@.len() == 2 && params@[0] > 0 && params@[1] > 0
                    &&& h.n == 32
                    &&& h.c == params@[0]
                    &&& h.d == params@[1]
                    &&& h.state.0@ == seq![0u32, 0u32, 0x6c796765u32, 0x74656462u32]
                    &&& h.inputs@.len() == 0
                },
                Err(e) => e == CtError::InvalidParameters && !(params@.len() == 2 && params@[0] > 0
                    && params@[1] > 0),
            },
    {
        if params.len() != 2 {
            return Err(CtError::InvalidParameters);
        }
        let c = params[0];
        let d = params[1];
        if c == 0 || d == 0 {
            return Err(CtError::InvalidParameters);
        }
        let state = Ux4::<u32>::new([0x0, 0x0, 0x6c796765, 0x74656462]);
        proof {
            assert(state.0@ =~= seq![0u32, 0u32, 0x6c796765u32, 0x74656462u32]);
        }
        Ok(SipHash { n: 32, c, d, state, inputs: Vec::new() })
    }
}

impl SipHash<u64> {
    /// Setup function for SipHash with a `u64`-limb state; the initial
    /// state holds the published constants.  A missing or zero round
    /// count is rejected and nothing is constructed.
    pub fn new(params: Vec<usize>) -> (result: Result<Self, CtError>)
        ensures
            match result {
                Ok(h) => {
                    &&& params@.len() == 2 && params@[0] > 0 && params@[1] > 0
                    &&& h.n == 64
                    &&& h.c == params@[0]
                    &&& h.d == params@[1]
                    &&& h.state.0@ == seq![
                        0x736f6d6570736575u64,
                        0x646f72616e646f6du64,
                        0x6c7967656e657261u64,
                        0x7465646279746573u64,
                    ]
                    &&& h.inputs@.len() == 0
                },
                Err(e) => e == CtError::InvalidParameters && !(params@.len() == 2 && params@[0] > 0
                    && params@[1] > 0),
            },
    {
        if params.len() != 2 {
            return Err(CtError::InvalidParameters);
        }
        let c = params[0];
        let d = params[1];
        if c == 0 || d == 0 {
            return Err(CtError::InvalidParameters);
        }
        let state = Ux4::<u64>::new(
            [0x736f6d6570736575, 0x646f72616e646f6d, 0x6c7967656e657261, 0x7465646279746573],
        );
        proof {
            assert(state.0@ =~= seq![
                0x736f6d6570736575u64,
                0x646f72616e646f6du64,
                0x6c7967656e657261u64,
                0x7465646279746573u64,
            ]);
        }
        Ok(SipHash { n: 64, c, d, state, inputs: Vec::new() })
    }

    /// Resets the state to the published constants and clears the
    /// collected input.
    pub fn reset(&mut self)
        ensures
            final(self).n == old(self).n,
            final(self).c == old(self).c,
            final(self).d == old(self).d,
            final(self).state.0@ == seq![
                0x736f6d6570736575u64,
                0x646f72616e646f6du64,
                0x6c7967656e657261u64,
                0x7465646279746573u64,
            ],
            final(self).inputs@.len() == 0,
    {
        self.state.set(
            [0x736f6d6570736575, 0x646f72616e646f6d, 0x6c7967656e657261, 0x7465646279746573],
        );
        self.inputs = Vec::new();
        proof {
            assert(self.state.0@ =~= seq![
                0x736f6d6570736575u64,
                0x646f72616e646f6du64,
                0x6c7967656e657261u64,
                0x7465646279746573u64,
            ]);
        }
    }

    /// Collects more input bytes for a later finalization.
    pub fn update(&mut self, data: &[u8])
        ensures
            final(self).n == old(self).n,
            final(self).c == old(self).c,
            final(self).d == old(self).d,
            final(self).state == old(self).state,
            final(self).inputs@ == old(self).inputs@ + data@,
    {
        let mut i: usize = 0;
        while i < data.len()
            invariant
                i <= data@.len(),
                self.n == old(self).n,
                self.c == old(self).c,
                self.d == old(self).d,
                self.state == old(self).state,
                self.inputs@ == old(self).inputs@ + data@.take(i as int),
            decreases data@.len() - i,
        {
            let byte = data[i];
            self.inputs.push(byte);
            proof {
                assert(self.inputs@ =~= old(self).inputs@ + data@.take(i as int + 1));
            }
            i += 1;
        }
        proof {
            assert(old(self).inputs@ + data@.take(data@.len() as int) =~= old(self).inputs@
                + data@);
        }
    }
}

} // verus!
