//! The permutation contract.
//!
//! Every stateful construction in this crate takes a permutation instance
//! at construction time and only ever calls its `transform` method: any
//! deterministic, shape-preserving function over the state satisfies the
//! contract and may be substituted without changing the surrounding
//! protocol logic.

use vstd::prelude::*;

verus! {

use crate::bitspec::{or_bits, shl_bits, shr_bits};
use crate::word::StateWord;

/// A deterministic, shape-preserving state permutation.  `pmap` is the
/// function it computes on the bits of the state; `transform` computes
/// exactly that function.
pub trait Permutation<W: StateWord>: Sized {
    /// The permutation as a function on bit sequences.
    spec fn pmap(&self, s: Seq<bool>) -> Seq<bool>;

    /// The permutation preserves the shape of the state.
    proof fn lemma_pmap_len(&self, s: Seq<bool>)
        ensures
            self.pmap(s).len() == s.len(),
    ;

    /// Applies the permutation to one state value.
    fn transform(&self, s: W) -> (r: W)
        ensures
            r.bv() == self.pmap(s.bv()),
    ;
}

/// A rotation of the whole state by a fixed distance: the simplest
/// permutation, useful for demonstrations and tests.  The distance is
/// taken modulo the state width.
pub struct RotationPermutation {
    /// The rotation distance in bits.
    pub alpha: usize,
}

impl<W: StateWord> Permutation<W> for RotationPermutation {
    open spec fn pmap(&self, s: Seq<bool>) -> Seq<bool> {
        or_bits(
            shl_bits(s, (self.alpha as nat) % s.len()),
            shr_bits(s, (s.len() - (self.alpha as nat) % s.len()) as nat),
        )
    }

    proof fn lemma_pmap_len(&self, s: Seq<bool>) {
    }

    fn transform(&self, s: W) -> (r: W) {
        let w = W::width_exec();
        proof {
            W::lemma_width();
            s.lemma_bv_len();
        }
        crate::utilities::bitops::urot(s, self.alpha % w)
    }
}

} // verus!
