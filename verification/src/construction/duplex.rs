//! Module implementing a keyed duplex construction.
//!
//! Note that the state is reversed for easier use of the outputs.
//! The outer part is stored in the lower bits.

use vstd::prelude::*;

verus! {

use crate::bitspec::{zero_bits, mask_bits, not_bits, and_bits, or_bits, xor_bits, shl_bits, shr_bits};
use crate::word::StateWord;
use crate::perm::Permutation;
use crate::rng::RandomSource;
use crate::errors::CtError;

/// The setup parameters the duplex accepts: five values
/// `(b, r, k, u, alpha)` with `b` the width of the word shape, positive
/// `r` and `k` no larger than `b`, at least one key, and a rotation
/// distance no larger than `b`.
pub open spec fn duplex_params_ok<W: StateWord>(p: Seq<usize>) -> bool {
    &&& p.len() >= 5
    &&& p[0] == W::width()
    &&& 0 < p[1] <= p[0]
    &&& 0 < p[2] <= p[0]
    &&& 0 < p[3]
    &&& p[4] <= p[0]
}

/// Structure implementing the keyed duplex.
/// Note that the state is reversed for easier use of the outputs.
/// The outer part is stored in the lower bits.
pub struct Duplex<W, P> {
    /// Size of the state in bits.
    pub b: usize,
    /// Size of the outer part (b = c + r).
    pub r: usize,
    /// Size of the key (k <= b).
    pub k: usize,
    /// Number of keys (u >= 1).
    pub u: usize,
    /// Rotation value.
    pub alpha: usize,
    /// Permutation instance.
    pub perm: P,
    /// Keys vector.
    pub keys: Vec<W>,
    /// Key mask.
    pub kmask: W,
    /// Outer part mask.
    pub mask: W,
    /// Inner state.
    pub state: W,
}

impl<W: StateWord, P: Permutation<W>> Duplex<W, P> {
    /// The masks match the configured sizes, the sizes match the word
    /// shape, and the key list has the configured length.
    pub open spec fn wf(&self) -> bool {
        &&& self.b == W::width()
        &&& 0 < self.r <= self.b
        &&& 0 < self.k <= self.b
        &&& 0 < self.u
        &&& self.alpha <= self.b
        &&& self.keys@.len() == self.u
        &&& self.kmask.bv() == mask_bits(W::width(), self.k as nat)
        &&& self.mask.bv() == mask_bits(W::width(), self.r as nat)
    }

    /// The configuration (sizes, masks, keys and permutation) of two
    /// instances agrees; only the state may differ.
    pub open spec fn same_config(&self, other: &Self) -> bool {
        &&& self.b == other.b
        &&& self.r == other.r
        &&& self.k == other.k
        &&& self.u == other.u
        &&& self.alpha == other.alpha
        &&& self.keys == other.keys
        &&& self.kmask == other.kmask
        &&& self.mask == other.mask
        &&& self.perm == other.perm
    }

    /// Getter for the parameters `(b, r, k, u)`.
    pub fn get_params(&self) -> (result: Vec<usize>)
        ensures
            result@ == seq![self.b, self.r, self.k, self.u],
    {
        let mut v: Vec<usize> = Vec::new();
        v.push(self.b);
        v.push(self.r);
        v.push(self.k);
        v.push(self.u);
        proof {
            assert(v@ =~= seq![self.b, self.r, self.k, self.u]);
        }
        v
    }

    /// Getter for the mask.
    pub fn get_mask(&self) -> (result: W)
        ensures
            result == self.mask,
    {
        self.mask
    }

    /// Setup function, part of the init phase: draws `u` independent
    /// keys, each masked to the low `k` bits, sets the rate and key
    /// masks, and starts from the all-zero state.  Parameters out of
    /// range are rejected and nothing is constructed.
    pub fn setup<R: RandomSource<W>>(params: Vec<usize>, func: P, rng: &mut R) -> (result: Result<
        Self,
        CtError,
    >)
        ensures
            match result {
                Ok(d) => {
                    &&& duplex_params_ok::<W>(params@)
                    &&& d.wf()
                    &&& d.b == params@[0]
                    &&& d.r == params@[1]
                    &&& d.k == params@[2]
                    &&& d.u == params@[3]
                    &&& d.alpha == params@[4]
                    &&& d.perm == func
                    &&& forall|i: int, q: int|
                        0 <= i < d.keys@.len() && params@[2] <= q < W::width()
                            ==> !d.keys@[i].bv()[q]
                    &&& d.state.bv() == zero_bits(W::width())
                },
                Err(e) => e == CtError::InvalidParameters && !duplex_params_ok::<W>(params@),
            },
    {
        if params.len() < 5 {
            return Err(CtError::InvalidParameters);
        }
        let b = params[0];
        let r = params[1];
        let k = params[2];
        let u = params[3];
        let alpha = params[4];
        let w = W::width_exec();
        if b != w || r == 0 || r > b || k == 0 || k > b || u == 0 || alpha > b {
            return Err(CtError::InvalidParameters);
        }
        let mask = W::low_mask(r);
        let kmask = W::low_mask(k);
        let mut keys: Vec<W> = Vec::new();
        let mut i: usize = 0;
        while i < u
            invariant
                i <= u,
                keys@.len() == i,
                k <= W::width(),
                kmask.bv() == mask_bits(W::width(), k as nat),
                forall|q: int, t: int| 0 <= q < i && k <= t < W::width() ==> !keys@[q].bv()[t],
            decreases u - i,
        {
            let raw = rng.sample();
            let masked = raw.bit_and(kmask);
            proof {
                raw.lemma_bv_len();
            }
            keys.push(masked);
            i += 1;
        }
        let state = W::zero();
        Ok(Duplex { b, r, k, u, alpha, perm: func, keys, kmask, mask, state })
    }

    /// Reset function, part of the init phase: selects the key indexed by
    /// `delta` cyclically, ors a freshly sampled value restricted to the
    /// bits above the key into it, rotates the combination left by
    /// `alpha` bits and permutes once.  This reseeds a session without
    /// re-deriving keys.
    pub fn reset<R: RandomSource<W>>(&mut self, delta: usize, rng: &mut R)
        requires
            old(self).wf(),
        ensures
            final(self).wf(),
            final(self).same_config(old(self)),
            exists|ivb: Seq<bool>|
                #![auto]
                ivb.len() == W::width() && final(self).state.bv() == old(self).perm.pmap(
                    or_bits(
                        shl_bits(
                            or_bits(
                                old(self).keys@[(delta as int) % (old(self).u as int)].bv(),
                                and_bits(ivb, not_bits(mask_bits(W::width(), old(self).k as nat))),
                            ),
                            old(self).alpha as nat,
                        ),
                        shr_bits(
                            or_bits(
                                old(self).keys@[(delta as int) % (old(self).u as int)].bv(),
                                and_bits(ivb, not_bits(mask_bits(W::width(), old(self).k as nat))),
                            ),
                            (W::width() - old(self).alpha as nat) as nat,
                        ),
                    ),
                ),
    {
        let raw = rng.sample();
        let initialization_vector = raw.bit_and(self.kmask.complement());
        let combined = self.keys[delta % self.u].bit_or(initialization_vector);
        proof {
            raw.lemma_bv_len();
            combined.lemma_bv_len();
            vstd::arithmetic::div_mod::lemma_mod_bound(delta as int, self.u as int);
        }
        let rotated = crate::utilities::bitops::urot(combined, self.alpha);
        let permuted = self.perm.transform(rotated);
        self.state = permuted;
        proof {
            assert(initialization_vector.bv() == and_bits(
                raw.bv(),
                not_bits(mask_bits(W::width(), old(self).k as nat)),
            ));
        }
    }

    /// General duplex function: returns the current rate bits as output;
    /// if the flag is set, the rate bits are cleared before absorbing
    /// (full overwrite), otherwise the new input is additively xored onto
    /// whatever rate bits remain; then the input is xored into the entire
    /// state and the state is permuted.  The output always reflects the
    /// state as it stood before this call's permutation.
    pub fn duplex(&mut self, flag: bool, input: W) -> (output: W)
        requires
            old(self).wf(),
        ensures
            final(self).wf(),
            final(self).same_config(old(self)),
            output.bv() == and_bits(
                old(self).state.bv(),
                mask_bits(W::width(), old(self).r as nat),
            ),
            final(self).state.bv() == old(self).perm.pmap(
                xor_bits(
                    if flag {
                        and_bits(
                            old(self).state.bv(),
                            not_bits(mask_bits(W::width(), old(self).r as nat)),
                        )
                    } else {
                        old(self).state.bv()
                    },
                    input.bv(),
                ),
            ),
    {
        let output = self.state.bit_and(self.mask);
        if flag {
            let cleared = self.state.bit_and(self.mask.complement());
            self.state = cleared;
        }
        let mixed = self.state.bit_xor(input);
        let permuted = self.perm.transform(mixed);
        self.state = permuted;
        output
    }
}

} // verus!
