//! Module implementing an earlier revision of the sponge-based
//! refresh/next generator, kept with its own interface: the setup takes
//! the state size explicitly, `refresh` returns nothing and feeds all but
//! the last input, and `next` truncates by permuting first and clearing
//! the rate afterwards.

use vstd::prelude::*;

verus! {

use crate::bitspec::{mask_bits, not_bits, and_bits};
use crate::word::{StateWord, bvs_of};
use crate::perm::Permutation;
use crate::rng::RandomSource;
use crate::errors::CtError;

/// The state after `n` truncation steps of this revision: each step
/// permutes and then clears the rate bits of the result.
pub open spec fn sprg_truncate<W: StateWord, P: Permutation<W>>(
    p: &P,
    st: Seq<bool>,
    mask: Seq<bool>,
    n: nat,
) -> Seq<bool>
    decreases n,
{
    if n == 0 {
        st
    } else {
        and_bits(p.pmap(sprg_truncate(p, st, mask, (n - 1) as nat)), not_bits(mask))
    }
}

/// The setup parameters this revision accepts.
pub open spec fn sprg_params_ok<W: StateWord>(p: Seq<usize>) -> bool {
    &&& p.len() >= 4
    &&& p[0] == W::width()
    &&& p[1] <= p[0]
    &&& p[3] > 1
}

/// Structure implementing the earlier generator revision.
pub struct SPRG<W, P> {
    /// Size of the state in bits.
    pub n: usize,
    /// Size of the outer part (n = c + r).
    pub r: usize,
    /// Number of permutation rounds in `next`.
    pub t: usize,
    /// Length of the seed vector.
    pub s: usize,
    /// Seed iterator.
    pub j: usize,
    /// Outer part mask.
    pub mask: W,
    /// Permutation instance.
    pub perm: P,
    /// Seed vector.
    pub seed: Vec<W>,
    /// Inner state.
    pub state: W,
}

impl<W: StateWord, P: Permutation<W>> SPRG<W, P> {
    /// The sizes match the word shape and the rolling position stays
    /// inside the seed.
    pub open spec fn wf(&self) -> bool {
        &&& self.n == W::width()
        &&& self.r <= self.n
        &&& self.s > 1
        &&& self.j < self.s
        &&& self.seed@.len() == self.s
        &&& self.mask.bv() == mask_bits(W::width(), self.r as nat)
    }

    /// Getter for the parameters `(n, r, t, s)`.
    pub fn get_params(&self) -> (result: Vec<usize>)
        ensures
            result@ == seq![self.n, self.r, self.t, self.s],
    {
        let mut v: Vec<usize> = Vec::new();
        v.push(self.n);
        v.push(self.r);
        v.push(self.t);
        v.push(self.s);
        proof {
            assert(v@ =~= seq![self.n, self.r, self.t, self.s]);
        }
        v
    }

    /// Getter for the seed.
    pub fn get_seed(&self) -> (result: Vec<W>)
        ensures
            result@ == self.seed@,
    {
        let mut v: Vec<W> = Vec::new();
        let mut i: usize = 0;
        while i < self.seed.len()
            invariant
                i <= self.seed@.len(),
                v@.len() == i,
                forall|q: int| 0 <= q < i ==> v@[q] == self.seed@[q],
            decreases self.seed@.len() - i,
        {
            let w = self.seed[i];
            v.push(w);
            i += 1;
        }
        proof {
            assert(v@ =~= self.seed@);
        }
        v
    }

    /// Getter for the mask.
    pub fn get_mask(&self) -> (result: W)
        ensures
            result == self.mask,
    {
        self.mask
    }

    /// General setup function: draws `s` rate-masked seed words and an
    /// initial state with zero rate bits and random capacity bits.
    pub fn setup<R: RandomSource<W>>(params: Vec<usize>, func: P, rng: &mut R) -> (result: Result<
        Self,
        CtError,
    >)
        ensures
            match result {
                Ok(g) => {
                    &&& sprg_params_ok::<W>(params@)
                    &&& g.wf()
                    &&& g.n == params@[0]
                    &&& g.r == params@[1]
                    &&& g.t == params@[2]
                    &&& g.s == params@[3]
                    &&& g.j == 1
                    &&& g.perm == func
                    &&& forall|i: int, q: int|
                        0 <= i < g.seed@.len() && params@[1] <= q < W::width()
                            ==> !g.seed@[i].bv()[q]
                    &&& forall|q: int| 0 <= q < params@[1] ==> !g.state.bv()[q]
                },
                Err(e) => e == CtError::InvalidParameters && !sprg_params_ok::<W>(params@),
            },
    {
        if params.len() < 4 {
            return Err(CtError::InvalidParameters);
        }
        let n = params[0];
        let r = params[1];
        let t = params[2];
        let s = params[3];
        let w = W::width_exec();
        if n != w || r > n || s <= 1 {
            return Err(CtError::InvalidParameters);
        }
        let mask = W::low_mask(r);
        let mut seed: Vec<W> = Vec::new();
        let mut i: usize = 0;
        while i < s
            invariant
                i <= s,
                seed@.len() == i,
                r <= W::width(),
                mask.bv() == mask_bits(W::width(), r as nat),
                forall|q: int, b: int| 0 <= q < i && r <= b < W::width() ==> !seed@[q].bv()[b],
            decreases s - i,
        {
            let raw = rng.sample();
            let masked = raw.bit_and(mask);
            proof {
                raw.lemma_bv_len();
            }
            seed.push(masked);
            i += 1;
        }
        let raw_state = rng.sample();
        let state = W::zero().bit_or(raw_state.bit_and(mask.complement()));
        proof {
            raw_state.lemma_bv_len();
        }
        Ok(SPRG { n, r, t, s, j: 1, mask, perm: func, seed, state })
    }

    /// General refresh function of this revision: feeds all inputs but
    /// the last one into the state, cycling through the seed vector from
    /// the current rolling position; with fewer than two inputs nothing
    /// happens.
    pub fn refresh(&mut self, inputs: Vec<W>)
        requires
            old(self).wf(),
        ensures
            final(self).wf(),
            final(self).n == old(self).n && final(self).r == old(self).r && final(self).t == old(
                self,
            ).t && final(self).s == old(self).s && final(self).mask == old(self).mask && final(self).seed == old(self).seed && final(self).perm == old(self).perm,
            final(self).state.bv() == crate::prng::sprng::sprng_refresh_state(
                &old(self).perm,
                old(self).state.bv(),
                bvs_of(old(self).seed@),
                old(self).mask.bv(),
                old(self).j as nat,
                bvs_of(inputs@),
                if inputs@.len() == 0 {
                    0nat
                } else {
                    (inputs@.len() - 1) as nat
                },
            ),
            final(self).j == (old(self).j + (if inputs@.len() == 0 {
                0int
            } else {
                inputs@.len() - 1
            })) % (old(self).s as int),
    {
        let l = inputs.len();
        let mut i: usize = 1;
        proof {
            vstd::arithmetic::div_mod::lemma_small_mod(old(self).j as nat, old(self).s as nat);
        }
        while i < l
            invariant
                old(self).wf(),
                self.wf(),
                self.n == old(self).n && self.r == old(self).r && self.t == old(self).t && self.s
                    == old(self).s && self.mask == old(self).mask && self.seed == old(self).seed
                    && self.perm == old(self).perm,
                1 <= i,
                l > 1 ==> i <= l,
                l <= 1 ==> i == 1,
                l == inputs@.len(),
                self.j == (old(self).j + (i - 1)) % (old(self).s as int),
                self.state.bv() == crate::prng::sprng::sprng_refresh_state(
                    &old(self).perm,
                    old(self).state.bv(),
                    bvs_of(old(self).seed@),
                    old(self).mask.bv(),
                    old(self).j as nat,
                    bvs_of(inputs@),
                    (i - 1) as nat,
                ),
            decreases l - i,
        {
            proof {
                assert(bvs_of(old(self).seed@)[self.j as int] == self.seed@[self.j as int].bv());
                assert(bvs_of(inputs@)[i - 1] == inputs@[i - 1].bv());
                assert(((old(self).j + (i - 1)) % (old(self).s as int)) == ((old(self).j as int + (
                i as int) - 1) % (bvs_of(old(self).seed@).len() as int)));
            }
            let mixed = inputs[i - 1].bit_xor(self.seed[self.j]).bit_and(self.mask);
            let new_state = self.perm.transform(self.state.bit_xor(mixed));
            self.state = new_state;
            self.j = (self.j + 1) % self.s;
            proof {
                vstd::arithmetic::div_mod::lemma_add_mod_noop(
                    old(self).j as int + i as int - 1,
                    1,
                    old(self).s as int,
                );
                vstd::arithmetic::div_mod::lemma_small_mod(1nat, old(self).s as nat);
                vstd::arithmetic::div_mod::lemma_mod_bound(
                    old(self).j as int + i as int - 1,
                    old(self).s as int,
                );
            }
            i += 1;
        }
    }

    /// General next function of this revision: permutes and captures the
    /// rate bits as the result, then `t - 1` more times permutes and
    /// clears the rate bits of the result, and resets the rolling seed
    /// position.
    pub fn next(&mut self) -> (result: W)
        requires
            old(self).wf(),
        ensures
            final(self).wf(),
            final(self).n == old(self).n && final(self).r == old(self).r && final(self).t == old(
                self,
            ).t && final(self).s == old(self).s && final(self).mask == old(self).mask && final(self).seed == old(self).seed && final(self).perm == old(self).perm,
            final(self).j == 1,
            result.bv() == and_bits(old(self).perm.pmap(old(self).state.bv()), old(self).mask.bv()),
            final(self).state.bv() == sprg_truncate(
                &old(self).perm,
                old(self).perm.pmap(old(self).state.bv()),
                old(self).mask.bv(),
                if old(self).t == 0 {
                    0nat
                } else {
                    (old(self).t - 1) as nat
                },
            ),
    {
        let new_state = self.perm.transform(self.state);
        self.state = new_state;
        let blk = self.state.bit_and(self.mask);
        let ghost base = self.state.bv();
        let not_mask = self.mask.complement();
        let mut i: usize = 1;
        while i < self.t
            invariant
                old(self).wf(),
                self.wf(),
                self.n == old(self).n && self.r == old(self).r && self.t == old(self).t && self.s
                    == old(self).s && self.mask == old(self).mask && self.seed == old(self).seed
                    && self.perm == old(self).perm,
                self.j == old(self).j,
                1 <= i,
                self.t > 0 ==> i <= self.t,
                self.t == 0 ==> i == 1,
                not_mask.bv() == not_bits(self.mask.bv()),
                self.state.bv() == sprg_truncate(
                    &old(self).perm,
                    base,
                    old(self).mask.bv(),
                    (i - 1) as nat,
                ),
            decreases self.t - i,
        {
            let stepped = self.perm.transform(self.state);
            let cleared = stepped.bit_and(not_mask);
            self.state = cleared;
            i += 1;
        }
        self.j = 1;
        blk
    }
}

} // verus!
