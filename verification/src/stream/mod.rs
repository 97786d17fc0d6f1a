//! Module implementing stream ciphers.
//!
//! Both ciphers share the keyed initialization procedure — the masked key
//! placed in the high bits, the nonce absorbed one bit at a time, the low
//! key-width bits overwritten with the raw nonce — and the squeezing
//! schedule that retains the first `r` valid bits of each block until
//! enough keystream has been collected.

use vstd::prelude::*;

pub mod asakey;
pub mod dss;

verus! {

use crate::bitspec::{
    zero_bits,
    mask_bits,
    not_bits,
    and_bits,
    or_bits,
    xor_bits,
    shl_bits,
    bit_word,
};
use crate::word::StateWord;
use crate::perm::Permutation;

/// The state after the nonce's `n` lowest bits have been absorbed, one bit
/// at a time: each step xors one nonce bit into the whole state and
/// permutes.
pub open spec fn absorb_iter<W: StateWord, P: Permutation<W>>(
    p: &P,
    st: Seq<bool>,
    nonce: Seq<bool>,
    n: nat,
) -> Seq<bool>
    decreases n,
{
    if n == 0 {
        st
    } else {
        let prev = absorb_iter(p, st, nonce, (n - 1) as nat);
        p.pmap(xor_bits(prev, bit_word(nonce[n - 1], prev.len())))
    }
}

/// The session state after `rekey`/`init`: the masked key is placed in the
/// high bits and permuted once, the nonce is absorbed bit by bit over the
/// key width, and then the low `k` bits are overwritten with the raw nonce
/// while the bits above the rate keep what the absorption produced.
pub open spec fn keyed_init_state<W: StateWord, P: Permutation<W>>(
    p: &P,
    key: Seq<bool>,
    nonce: Seq<bool>,
    b: nat,
    r: nat,
    k: nat,
) -> Seq<bool> {
    let st0 = p.pmap(shl_bits(and_bits(key, mask_bits(b, k)), (b - k) as nat));
    let sta = absorb_iter(p, st0, nonce, k);
    or_bits(and_bits(nonce, mask_bits(b, k)), and_bits(sta, not_bits(mask_bits(b, r))))
}

/// The initialized session state has the shape of the nonce word.
pub proof fn lemma_keyed_init_state_len<W: StateWord, P: Permutation<W>>(
    p: &P,
    key: Seq<bool>,
    nonce: Seq<bool>,
    b: nat,
    r: nat,
    k: nat,
)
    ensures
        keyed_init_state(p, key, nonce, b, r, k).len() == nonce.len(),
{
}

/// How many keystream bits one squeeze contributes: a full rate's worth,
/// or only what is still needed.
pub open spec fn stream_chunk(r: nat, needed: nat) -> nat {
    if r <= needed {
        r
    } else {
        needed
    }
}

/// The next `needed` keystream bits squeezed from state `st`: each round
/// permutes and reveals the low `r` bits of the new state.
pub open spec fn stream_bits<W: StateWord, P: Permutation<W>>(
    p: &P,
    st: Seq<bool>,
    r: nat,
    needed: nat,
) -> Seq<bool>
    decreases needed,
{
    if needed == 0 || r == 0 {
        Seq::empty()
    } else {
        let st1 = p.pmap(st);
        st1.take(stream_chunk(r, needed) as int) + stream_bits(
            p,
            st1,
            r,
            (needed - stream_chunk(r, needed)) as nat,
        )
    }
}

/// The state left behind after squeezing `needed` keystream bits.
pub open spec fn stream_state<W: StateWord, P: Permutation<W>>(
    p: &P,
    st: Seq<bool>,
    r: nat,
    needed: nat,
) -> Seq<bool>
    decreases needed,
{
    if needed == 0 || r == 0 {
        st
    } else {
        stream_state(p, p.pmap(st), r, (needed - stream_chunk(r, needed)) as nat)
    }
}

/// Squeezing a positive rate yields exactly the requested number of bits.
pub proof fn lemma_stream_bits_len<W: StateWord, P: Permutation<W>>(
    p: &P,
    st: Seq<bool>,
    r: nat,
    needed: nat,
)
    requires
        0 < r <= st.len(),
    ensures
        stream_bits(p, st, r, needed).len() == needed,
    decreases needed,
{
    if needed != 0 {
        p.lemma_pmap_len(st);
        lemma_stream_bits_len(p, p.pmap(st), r, (needed - stream_chunk(r, needed)) as nat);
    }
}

/// The byte-wise exclusive or of two byte strings, over the length of the
/// first.
pub open spec fn xor_bytes(a: Seq<u8>, b: Seq<u8>) -> Seq<u8>
    recommends
        b.len() >= a.len(),
{
    Seq::new(a.len(), |i: int| a[i] ^ b[i])
}

} // verus!
