//! Module implementing a sponge-based refresh/next pseudorandom
//! generator with forward-secure squeezing.
//!
//! Note that the state of the sponge is reversed for easier use of the
//! outputs: the outer part is stored in the lower bits.

use vstd::prelude::*;

verus! {

use crate::bitspec::{mask_bits, not_bits, and_bits, xor_bits};
use crate::word::{StateWord, bvs_of};
use crate::perm::Permutation;
use crate::rng::RandomSource;
use crate::errors::CtError;
use crate::prng::PRNG;

/// The state after the first `n` inputs have been absorbed: each step
/// xors the rate-masked combination of one input and the seed word at the
/// rolling position into the state and permutes.
pub open spec fn sprng_refresh_state<W: StateWord, P: Permutation<W>>(
    p: &P,
    st: Seq<bool>,
    seeds: Seq<Seq<bool>>,
    mask: Seq<bool>,
    j: nat,
    inputs: Seq<Seq<bool>>,
    n: nat,
) -> Seq<bool>
    decreases n,
{
    if n == 0 || seeds.len() == 0 {
        st
    } else {
        let prev = sprng_refresh_state(p, st, seeds, mask, j, inputs, (n - 1) as nat);
        p.pmap(
            xor_bits(
                prev,
                and_bits(
                    xor_bits(inputs[n - 1], seeds[(j as int + n as int - 1) % (seeds.len() as int)]),
                    mask,
                ),
            ),
        )
    }
}

/// The state after `n` forward-secure truncation steps: each step clears
/// the rate bits to zero and permutes again, denying any later caller a
/// way to correlate later outputs with the revealed rate.
pub open spec fn sprng_truncate<W: StateWord, P: Permutation<W>>(
    p: &P,
    st: Seq<bool>,
    mask: Seq<bool>,
    n: nat,
) -> Seq<bool>
    decreases n,
{
    if n == 0 {
        st
    } else {
        p.pmap(and_bits(sprng_truncate(p, st, mask, (n - 1) as nat), not_bits(mask)))
    }
}

/// The setup parameters the generator accepts: exactly four values
/// `(n, r, t, s)` with `n` the width of the word shape, `r` no larger
/// than `n`, and more than one seed word.
pub open spec fn sprng_params_ok<W: StateWord>(p: Seq<usize>) -> bool {
    &&& p.len() == 4
    &&& p[0] == W::width()
    &&& p[1] <= p[0]
    &&& p[3] > 1
}

/// Structure implementing the sponge-based refresh/next generator.
/// Note that the state of the sponge is reversed for easier use of the
/// outputs.  The outer part is stored in the lower bits.
pub struct SPRNG<W, P> {
    /// Number of permutation rounds consumed by one `next` call.
    pub t: usize,
    /// Length of the seed.
    pub s: usize,
    /// Seed iterator.
    pub j: usize,
    /// Outer part mask.
    pub mask: W,
    /// Permutation instance.
    pub perm: P,
    /// Seed vector.
    pub seed: Vec<W>,
    /// Inner state.
    pub state: W,
}

impl<W: StateWord, P: Permutation<W>> SPRNG<W, P> {
    /// The seed has the configured length and the rolling position stays
    /// inside it.
    pub open spec fn wf(&self) -> bool {
        &&& self.s > 1
        &&& self.j < self.s
        &&& self.seed@.len() == self.s
    }

    /// The configuration (counters, mask, seed and permutation) of two
    /// instances agrees; only the rolling position and state may differ.
    pub open spec fn same_config(&self, other: &Self) -> bool {
        &&& self.t == other.t
        &&& self.s == other.s
        &&& self.mask == other.mask
        &&& self.seed == other.seed
        &&& self.perm == other.perm
    }

    /// Setup function: draws `s` rate-masked seed words and an initial
    /// state whose capacity bits are random and whose rate bits are zero.
    /// Parameters out of range are rejected and nothing is constructed.
    pub fn new<R: RandomSource<W>>(params: Vec<usize>, func: P, rng: &mut R) -> (result: Result<
        Self,
        CtError,
    >)
        ensures
            match result {
                Ok(g) => {
                    &&& sprng_params_ok::<W>(params@)
                    &&& g.wf()
                    &&& g.t == params@[2]
                    &&& g.s == params@[3]
                    &&& g.j == 1
                    &&& g.mask.bv() == mask_bits(W::width(), params@[1] as nat)
                    &&& g.perm == func
                    &&& forall|i: int, q: int|
                        0 <= i < g.seed@.len() && params@[1] <= q < W::width()
                            ==> !g.seed@[i].bv()[q]
                    &&& forall|q: int| 0 <= q < params@[1] ==> !g.state.bv()[q]
                },
                Err(e) => e == CtError::InvalidParameters && !sprng_params_ok::<W>(params@),
            },
    {
        if params.len() != 4 {
            return Err(CtError::InvalidParameters);
        }
        let n = params[0];
        let r = params[1];
        let t = params[2];
        let s = params[3];
        let w = W::width_exec();
        if n != w || r > n || s <= 1 {
            return Err(CtError::InvalidParameters);
        }
        let mask = W::low_mask(r);
        let mut seed_vec: Vec<W> = Vec::new();
        let mut i: usize = 0;
        while i < s
            invariant
                i <= s,
                seed_vec@.len() == i,
                r <= W::width(),
                mask.bv() == mask_bits(W::width(), r as nat),
                forall|q: int, b: int|
                    0 <= q < i && r <= b < W::width() ==> !seed_vec@[q].bv()[b],
            decreases s - i,
        {
            let raw = rng.sample();
            let masked = raw.bit_and(mask);
            proof {
                raw.lemma_bv_len();
            }
            seed_vec.push(masked);
            i += 1;
        }
        let raw_state = rng.sample();
        let state = W::zero().bit_or(raw_state.bit_and(mask.complement()));
        proof {
            raw_state.lemma_bv_len();
        }
        Ok(SPRNG { t, s, j: 1, mask, perm: func, seed: seed_vec, state })
    }

    /// Reseeds the state using all inputs in order, cycling through the
    /// seed vector from the current rolling position.
    pub fn refresh(&mut self, inputs: Vec<W>) -> (result: Result<(), CtError>)
        requires
            old(self).wf(),
        ensures
            final(self).wf(),
            inputs@.len() == 0 ==> result == Err::<(), CtError>(CtError::InvalidParameters)
                && *final(self) == *old(self),
            inputs@.len() > 0 ==> result == Ok::<(), CtError>(()) && final(self).same_config(
                old(self),
            ) && final(self).state.bv() == sprng_refresh_state(
                &old(self).perm,
                old(self).state.bv(),
                bvs_of(old(self).seed@),
                old(self).mask.bv(),
                old(self).j as nat,
                bvs_of(inputs@),
                inputs@.len(),
            ) && final(self).j == (old(self).j + inputs@.len()) % (old(self).s as int),
    {
        let l = inputs.len();
        if l == 0 {
            return Err(CtError::InvalidParameters);
        }
        let mut i: usize = 0;
        proof {
            vstd::arithmetic::div_mod::lemma_small_mod(old(self).j as nat, old(self).s as nat);
        }
        while i < l
            invariant
                old(self).wf(),
                self.wf(),
                self.same_config(old(self)),
                i <= l,
                l == inputs@.len(),
                self.j == (old(self).j + i) % (old(self).s as int),
                self.state.bv() == sprng_refresh_state(
                    &old(self).perm,
                    old(self).state.bv(),
                    bvs_of(old(self).seed@),
                    old(self).mask.bv(),
                    old(self).j as nat,
                    bvs_of(inputs@),
                    i as nat,
                ),
            decreases l - i,
        {
            proof {
                assert(bvs_of(old(self).seed@)[self.j as int] == self.seed@[self.j as int].bv());
                assert(bvs_of(inputs@)[i as int] == inputs@[i as int].bv());
                assert(((old(self).j + i) % (old(self).s as int)) == ((old(self).j as int + (i
                    as int + 1) - 1) % (bvs_of(old(self).seed@).len() as int)));
            }
            let mixed = inputs[i].bit_xor(self.seed[self.j]).bit_and(self.mask);
            let new_state = self.perm.transform(self.state.bit_xor(mixed));
            self.state = new_state;
            self.j = (self.j + 1) % self.s;
            proof {
                vstd::arithmetic::div_mod::lemma_add_mod_noop(
                    old(self).j as int + i as int,
                    1,
                    old(self).s as int,
                );
                vstd::arithmetic::div_mod::lemma_small_mod(1nat, old(self).s as nat);
                vstd::arithmetic::div_mod::lemma_mod_bound(
                    old(self).j as int + i as int,
                    old(self).s as int,
                );
            }
            i += 1;
        }
        Ok(())
    }

    /// Computes the next output: permutes once and captures the rate bits
    /// as the result, then performs the forward-secure truncation `t - 1`
    /// more times and resets the rolling seed position.
    pub fn next(&mut self) -> (result: Result<W, CtError>)
        requires
            old(self).wf(),
        ensures
            final(self).wf(),
            final(self).same_config(old(self)),
            final(self).j == 1,
            (result matches Ok(w) && w.bv() == and_bits(
                old(self).perm.pmap(old(self).state.bv()),
                old(self).mask.bv(),
            )),
            final(self).state.bv() == sprng_truncate(
                &old(self).perm,
                old(self).perm.pmap(old(self).state.bv()),
                old(self).mask.bv(),
                if old(self).t == 0 {
                    0nat
                } else {
                    (old(self).t - 1) as nat
                },
            ),
    {
        let new_state = self.perm.transform(self.state);
        self.state = new_state;
        let blk = self.state.bit_and(self.mask);
        let ghost base = self.state.bv();
        let not_mask = self.mask.complement();
        let mut i: usize = 1;
        while i < self.t
            invariant
                old(self).wf(),
                self.wf(),
                self.same_config(old(self)),
                self.j == old(self).j,
                1 <= i,
                self.t > 0 ==> i <= self.t,
                self.t == 0 ==> i == 1,
                not_mask.bv() == not_bits(self.mask.bv()),
                self.state.bv() == sprng_truncate(
                    &old(self).perm,
                    base,
                    old(self).mask.bv(),
                    (i - 1) as nat,
                ),
            decreases self.t - i,
        {
            let cleared = self.state.bit_and(not_mask);
            let stepped = self.perm.transform(cleared);
            self.state = stepped;
            i += 1;
        }
        self.j = 1;
        Ok(blk)
    }
}

impl<W: StateWord, P: Permutation<W>> PRNG for SPRNG<W, P> {
    type Input = W;

    type Output = W;

    /// General refresh function: checks the instance shape at run time
    /// and forwards to the verified inherent operation.
    fn refresh(&mut self, inputs: Vec<W>) -> (result: Result<(), CtError>) {
        if self.s <= 1 || self.seed.len() != self.s || self.j >= self.s {
            return Err(CtError::InvalidParameters);
        }
        SPRNG::refresh(self, inputs)
    }

    /// General next function: checks the instance shape at run time and
    /// forwards to the verified inherent operation.
    fn next(&mut self) -> (result: Result<W, CtError>) {
        if self.s <= 1 || self.seed.len() != self.s || self.j >= self.s {
            return Err(CtError::InvalidParameters);
        }
        SPRNG::next(self)
    }
}

/// Determinism of the generator: two instances holding the same seed,
/// mask, rolling position, state and permutation produce the same output
/// and the same successor state for the same refresh batch or next call,
/// because every transition is a function of exactly those components.
pub proof fn lemma_prng_determinism<W: StateWord, P: Permutation<W>>(
    g1: SPRNG<W, P>,
    g2: SPRNG<W, P>,
    inputs: Seq<Seq<bool>>,
    n: nat,
)
    requires
        g1.state.bv() == g2.state.bv(),
        g1.mask.bv() == g2.mask.bv(),
        bvs_of(g1.seed@) == bvs_of(g2.seed@),
        g1.j == g2.j,
        g1.t == g2.t,
        g1.perm == g2.perm,
    ensures
        and_bits(g1.perm.pmap(g1.state.bv()), g1.mask.bv()) == and_bits(
            g2.perm.pmap(g2.state.bv()),
            g2.mask.bv(),
        ),
        sprng_refresh_state(
            &g1.perm,
            g1.state.bv(),
            bvs_of(g1.seed@),
            g1.mask.bv(),
            g1.j as nat,
            inputs,
            n,
        ) == sprng_refresh_state(
            &g2.perm,
            g2.state.bv(),
            bvs_of(g2.seed@),
            g2.mask.bv(),
            g2.j as nat,
            inputs,
            n,
        ),
        sprng_truncate(&g1.perm, g1.perm.pmap(g1.state.bv()), g1.mask.bv(), n) == sprng_truncate(
            &g2.perm,
            g2.perm.pmap(g2.state.bv()),
            g2.mask.bv(),
            n,
        ),
{
}

} // verus!
