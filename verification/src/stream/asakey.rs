//! Module implementing the Asakey construction: a nonce-keyed
//! single-sponge stream cipher.
//!
//! The state is reversed for easier use of the outputs: the outer part
//! (the rate) is stored in the lower bits.

use vstd::prelude::*;

verus! {

use crate::bitspec::{zero_bits, mask_bits, and_bits, bit_word, xor_bits, pack_bits};
use crate::bitspec::lemma_pack_bits_bit;
use crate::word::StateWord;
use crate::perm::Permutation;
use crate::errors::CtError;
use crate::stream::{
    absorb_iter,
    keyed_init_state,
    stream_chunk,
    stream_bits,
    stream_state,
    lemma_stream_bits_len,
    xor_bytes,
};

/// Structure implementing the Asakey nonce-keyed stream cipher.
///
/// Note that the state is reversed for easier use of the outputs.
/// The outer part is stored in the lower bits.
pub struct Asakey<W, P> {
    /// Size of the state in bits.
    pub b: usize,
    /// Size of the outer part (b = c + r).
    pub r: usize,
    /// Size of the inner part (b = c + r).
    pub c: usize,
    /// Size of the key (k <= b).
    pub k: usize,
    /// Key mask.
    pub kmask: W,
    /// Outer part mask.
    pub rmask: W,
    /// Permutation instance.
    pub perm: P,
    /// Secret key.
    pub key: Option<W>,
    /// Inner state.
    pub state: Option<W>,
}

/// The setup parameters Asakey accepts: the state size must be the width
/// of the word shape, and rate and key size must be positive and no larger
/// than the state.
pub open spec fn asakey_params_ok<W: StateWord>(p: Seq<usize>) -> bool {
    &&& p.len() >= 3
    &&& p[0] == W::width()
    &&& 0 < p[1] <= p[0]
    &&& 0 < p[2] <= p[0]
}

/// The keystream bytes a session under `(key, nonce)` produces for `len`
/// bytes of data.
pub open spec fn asakey_keystream<W: StateWord, P: Permutation<W>>(
    p: &P,
    key: Seq<bool>,
    nonce: Seq<bool>,
    b: nat,
    r: nat,
    k: nat,
    len: nat,
) -> Seq<u8> {
    pack_bits(stream_bits(p, keyed_init_state(p, key, nonce, b, r, k), r, len * 8))
}

impl<W: StateWord, P: Permutation<W>> Asakey<W, P> {
    /// The masks match the configured sizes and the sizes match the word
    /// shape.
    pub open spec fn wf(&self) -> bool {
        &&& self.b == W::width()
        &&& 0 < self.r <= self.b
        &&& 0 < self.k <= self.b
        &&& self.c == self.b - self.r
        &&& self.kmask.bv() == mask_bits(W::width(), self.k as nat)
        &&& self.rmask.bv() == mask_bits(W::width(), self.r as nat)
    }

    /// The configuration (sizes, masks and permutation) of two instances
    /// agrees; only key and session state may differ.
    pub open spec fn same_config(&self, other: &Self) -> bool {
        &&& self.b == other.b
        &&& self.r == other.r
        &&& self.c == other.c
        &&& self.k == other.k
        &&& self.kmask == other.kmask
        &&& self.rmask == other.rmask
        &&& self.perm == other.perm
    }

    /// Getter for the state size.
    pub fn b(&self) -> (r: usize)
        ensures
            r == self.b,
    {
        self.b
    }

    /// Getter for the rate.
    pub fn r(&self) -> (r: usize)
        ensures
            r == self.r,
    {
        self.r
    }

    /// Getter for the capacity.
    pub fn c(&self) -> (r: usize)
        ensures
            r == self.c,
    {
        self.c
    }

    /// Getter for the key size.
    pub fn k(&self) -> (r: usize)
        ensures
            r == self.k,
    {
        self.k
    }

    /// Creates a new Asakey instance from `(b, r, k)` parameters and a
    /// permutation; parameters out of range are rejected and nothing is
    /// constructed.
    pub fn new(params: Vec<usize>, perm: P) -> (result: Result<Self, CtError>)
        ensures
            match result {
                Ok(a) => {
                    &&& asakey_params_ok::<W>(params@)
                    &&& a.wf()
                    &&& a.b == params@[0]
                    &&& a.r == params@[1]
                    &&& a.k == params@[2]
                    &&& a.c == a.b - a.r
                    &&& a.perm == perm
                    &&& a.key is None
                    &&& a.state is None
                },
                Err(e) => e == CtError::InvalidParameters && !asakey_params_ok::<W>(params@),
            },
    {
        if params.len() < 3 {
            return Err(CtError::InvalidParameters);
        }
        let b = params[0];
        let r = params[1];
        let k = params[2];
        let w = W::width_exec();
        if b != w || r == 0 || r > b || k == 0 || k > b {
            return Err(CtError::InvalidParameters);
        }
        let c = b - r;
        let kmask = W::low_mask(k);
        let rmask = W::low_mask(r);
        Ok(Asakey { b, r, c, k, kmask, rmask, perm, key: None, state: None })
    }

    /// Rekeys the instance: stores the new key and discards any active
    /// session.  The all-zero key is an invalid domain value and is
    /// rejected with the instance unchanged.
    pub fn rekey(&mut self, key: W) -> (result: Result<(), CtError>)
        requires
            old(self).wf(),
        ensures
            final(self).wf(),
            key.bv() == zero_bits(W::width()) ==> result == Err::<(), CtError>(
                CtError::InvalidDomainValue,
            ) && *final(self) == *old(self),
            key.bv() != zero_bits(W::width()) ==> result == Ok::<(), CtError>(()) && final(self).same_config(old(self)) && final(self).key == Some(key) && final(self).state is None,
    {
        let z = W::zero();
        if key.equals(z) {
            return Err(CtError::InvalidDomainValue);
        }
        self.key = Some(key);
        self.state = None;
        Ok(())
    }

    /// Initializes the session from a nonce: the masked key is permuted
    /// into place, the nonce is absorbed one bit at a time over the key
    /// width, and the low key-width bits are overwritten with the raw
    /// nonce.  A zero nonce is rejected first; without a key the
    /// sequencing error is returned.
    pub fn init(&mut self, nonce: W) -> (result: Result<(), CtError>)
        requires
            old(self).wf(),
        ensures
            final(self).wf(),
            nonce.bv() == zero_bits(W::width()) ==> result == Err::<(), CtError>(
                CtError::InvalidDomainValue,
            ) && *final(self) == *old(self),
            nonce.bv() != zero_bits(W::width()) && old(self).key is None ==> result == Err::<
                (),
                CtError,
            >(CtError::NotKeyed) && *final(self) == *old(self),
            old(self).key matches Some(kk) ==> (nonce.bv() != zero_bits(W::width()) ==> (result
                == Ok::<(), CtError>(()) && final(self).same_config(old(self)) && final(self).key
                == old(self).key && (final(self).state matches Some(st) && st.bv()
                == keyed_init_state(
                &old(self).perm,
                kk.bv(),
                nonce.bv(),
                old(self).b as nat,
                old(self).r as nat,
                old(self).k as nat,
            )))),
    {
        let z = W::zero();
        if nonce.equals(z) {
            return Err(CtError::InvalidDomainValue);
        }
        let key = match self.key {
            Some(kk) => kk,
            None => {
                return Err(CtError::NotKeyed);
            },
        };
        let mut state = self.perm.transform(key.bit_and(self.kmask).shift_left(self.b - self.k));
        let ghost st0 = state.bv();
        proof {
            nonce.lemma_bv_len();
            key.lemma_bv_len();
        }
        let one_mask = W::low_mask(1);
        let mut i: usize = 0;
        while i < self.k
            invariant
                *self == *old(self),
                old(self).wf(),
                nonce.bv().len() == W::width(),
                i <= self.k,
                one_mask.bv() == mask_bits(W::width(), 1),
                state.bv() == absorb_iter(&self.perm, st0, nonce.bv(), i as nat),
            decreases self.k - i,
        {
            let bit = nonce.shift_right(i).bit_and(one_mask);
            proof {
                let prev = absorb_iter(&self.perm, st0, nonce.bv(), i as nat);
                state.lemma_bv_len();
                assert(prev.len() == W::width());
                assert(bit.bv() =~= bit_word(nonce.bv()[i as int], prev.len()));
                assert(absorb_iter(&self.perm, st0, nonce.bv(), i as nat + 1) == self.perm.pmap(
                    xor_bits(prev, bit_word(nonce.bv()[i as int], prev.len())),
                ));
            }
            state = self.perm.transform(state.bit_xor(bit));
            i += 1;
        }
        let final_state = nonce.bit_and(self.kmask).bit_or(state.bit_and(self.rmask.complement()));
        self.state = Some(final_state);
        Ok(())
    }

    /// Squeezes one block: permutes once and returns the masked rate bits
    /// as `ceil(r / 8)` bytes, least significant byte and bit first, with
    /// the unused high bits of the final byte zero.  Without an active
    /// session the sequencing error is returned.
    pub fn next(&mut self) -> (result: Result<Vec<u8>, CtError>)
        requires
            old(self).wf(),
        ensures
            final(self).wf(),
            old(self).state is None ==> result == Err::<Vec<u8>, CtError>(CtError::NotInitialized)
                && *final(self) == *old(self),
            old(self).state matches Some(st) ==> final(self).same_config(old(self)) && final(self).key == old(self).key && (final(self).state matches Some(st2) && st2.bv() == old(
                self,
            ).perm.pmap(st.bv())) && (result matches Ok(bytes) && bytes@ == pack_bits(
                and_bits(
                    old(self).perm.pmap(st.bv()),
                    mask_bits(W::width(), old(self).r as nat),
                ),
            ).take(((old(self).r + 7) / 8) as int)),
    {
        let st = match self.state {
            Some(s) => s,
            None => {
                return Err(CtError::NotInitialized);
            },
        };
        proof {
            W::lemma_width();
        }
        let st2 = self.perm.transform(st);
        self.state = Some(st2);
        let masked = st2.bit_and(self.rmask);
        let outer = masked.le_bytes();
        let r_bits = (self.r + 7) / 8;
        proof {
            st.lemma_bv_len();
            self.perm.lemma_pmap_len(st.bv());
            masked.lemma_bv_len();
            assert(outer@.len() == (W::width() + 7) / 8);
            assert(r_bits <= outer@.len());
        }
        let mut block: Vec<u8> = Vec::new();
        let mut j: usize = 0;
        while j < r_bits
            invariant
                j <= r_bits,
                r_bits <= outer@.len(),
                block@.len() == j,
                forall|t: int| 0 <= t < j ==> block@[t] == outer@[t],
            decreases r_bits - j,
        {
            let byte = outer[j];
            block.push(byte);
            j += 1;
        }
        proof {
            assert(block@ =~= outer@.take(r_bits as int));
        }
        Ok(block)
    }

    /// Collects `p` bytes of keystream, assuming an active session: each
    /// squeeze contributes its first `r` valid bits (the rate need not be
    /// byte-aligned) until `8 p` bits are collected, which are then packed
    /// into bytes; the superfluous bits are discarded.
    fn next_p_bytes(&mut self, p: usize) -> (result: Result<Vec<u8>, CtError>)
        requires
            old(self).wf(),
            p * 8 + 7 <= usize::MAX,
        ensures
            final(self).wf(),
            old(self).state is None ==> result == Err::<Vec<u8>, CtError>(CtError::NotInitialized)
                && *final(self) == *old(self),
            old(self).state matches Some(st) ==> final(self).same_config(old(self)) && final(self).key == old(self).key && (result matches Ok(bytes) && bytes@ == pack_bits(
                stream_bits(&old(self).perm, st.bv(), old(self).r as nat, (p * 8) as nat),
            )) && (final(self).state matches Some(stf) && stf.bv() == stream_state(
                &old(self).perm,
                st.bv(),
                old(self).r as nat,
                (p * 8) as nat,
            )),
    {
        if self.state.is_none() {
            return Err(CtError::NotInitialized);
        }
        let ghost st_begin = self.state.unwrap().bv();
        let ghost rr = self.r as nat;
        let ghost total = (p * 8) as nat;
        let p_bits = p * 8;
        let mut keystream_bits: Vec<u8> = Vec::new();
        while keystream_bits.len() < p_bits
            invariant
                self.wf(),
                self.same_config(old(self)),
                self.key == old(self).key,
                old(self).wf(),
                rr == old(self).r as nat,
                total == p_bits,
                p_bits == p * 8,
                p * 8 + 7 <= usize::MAX,
                keystream_bits@.len() <= p_bits,
                forall|t: int|
                    0 <= t < keystream_bits@.len() ==> keystream_bits@[t] == 0 || keystream_bits@[t]
                        == 1,
                self.state is Some,
                crate::utilities::bitops::bools_of_bits(keystream_bits@) + stream_bits(
                    &old(self).perm,
                    self.state.unwrap().bv(),
                    rr,
                    (total - keystream_bits@.len()) as nat,
                ) == stream_bits(&old(self).perm, st_begin, rr, total),
                stream_state(
                    &old(self).perm,
                    self.state.unwrap().bv(),
                    rr,
                    (total - keystream_bits@.len()) as nat,
                ) == stream_state(&old(self).perm, st_begin, rr, total),
            decreases p_bits - keystream_bits@.len(),
        {
            let ghost cur = self.state.unwrap().bv();
            let ghost remaining = (total - keystream_bits@.len()) as nat;
            let collected_before = keystream_bits.len();
            let ghost ks_pre = keystream_bits@;
            let output = match self.next() {
                Ok(o) => o,
                Err(_) => {
                    return Err(CtError::NotInitialized);
                },
            };
            let ghost st1 = old(self).perm.pmap(cur);
            let remaining_now = p_bits - collected_before;
            let chunk = if self.r <= remaining_now {
                self.r
            } else {
                remaining_now
            };
            proof {
                assert(chunk == stream_chunk(rr, remaining));
                W::lemma_width();
                assert(st1.len() == W::width()) by {
                    old(self).perm.lemma_pmap_len(cur);
                    self.state.unwrap().lemma_bv_len();
                }
                assert(crate::utilities::bitops::bools_of_bits(keystream_bits@)
                    =~= crate::utilities::bitops::bools_of_bits(ks_pre) + st1.take(0));
            }
            let mut t: usize = 0;
            while t < chunk
                invariant
                    t <= chunk,
                    chunk <= self.r,
                    self.wf(),
                    st1.len() == W::width(),
                    output@ == pack_bits(and_bits(st1, mask_bits(W::width(), self.r as nat))).take(
                        ((self.r + 7) / 8) as int,
                    ),
                    ks_pre.len() == collected_before,
                    keystream_bits@.len() == collected_before + t,
                    collected_before + chunk <= p_bits,
                    forall|q: int|
                        0 <= q < keystream_bits@.len() ==> keystream_bits@[q] == 0
                            || keystream_bits@[q] == 1,
                    crate::utilities::bitops::bools_of_bits(keystream_bits@)
                        == crate::utilities::bitops::bools_of_bits(ks_pre) + st1.take(t as int),
                decreases chunk - t,
            {
                let j = t / 8;
                let s = t % 8;
                let byte = output[j];
                let bitv = (byte >> (s as u8)) & 1;
                proof {
                    let masked = and_bits(st1, mask_bits(W::width(), self.r as nat));
                    assert(8 * (j as int) + (s as int) == t as int);
                    assert(j < ((self.r + 7) / 8));
                    assert(output@[j as int] == pack_bits(masked)[j as int]);
                    lemma_pack_bits_bit(masked, j as int, s as int);
                    assert(masked[t as int] == st1[t as int]);
                    assert(bitv == (if st1[t as int] {
                        1u8
                    } else {
                        0u8
                    }));
                }
                let ghost ks_old = keystream_bits@;
                keystream_bits.push(bitv);
                proof {
                    assert(keystream_bits@ == ks_old.push(bitv));
                    let full = crate::utilities::bitops::bools_of_bits(keystream_bits@);
                    let prev = crate::utilities::bitops::bools_of_bits(ks_old);
                    let target = crate::utilities::bitops::bools_of_bits(ks_pre) + st1.take(
                        t as int + 1,
                    );
                    assert forall|q: int| 0 <= q < full.len() implies full[q] == target[q] by {
                        if q < collected_before + t {
                            assert(full[q] == prev[q]);
                            assert(prev[q] == (crate::utilities::bitops::bools_of_bits(ks_pre)
                                + st1.take(t as int))[q]);
                            if q >= collected_before {
                                assert(st1.take(t as int)[q - collected_before] == st1[q
                                    - collected_before]);
                                assert(st1.take(t as int + 1)[q - collected_before] == st1[q
                                    - collected_before]);
                            }
                        } else {
                            assert(q == collected_before + t);
                            assert(full[q] == (bitv == 1));
                            assert(st1.take(t as int + 1)[t as int] == st1[t as int]);
                        }
                    }
                    assert(full =~= target);
                }
                t += 1;
            }
            proof {
                let ghost p_ref = &old(self).perm;
                let done = crate::utilities::bitops::bools_of_bits(ks_pre);
                assert(stream_bits(p_ref, cur, rr, remaining) == st1.take(chunk as int)
                    + stream_bits(p_ref, st1, rr, (remaining - chunk) as nat));
                assert(stream_state(p_ref, cur, rr, remaining) == stream_state(
                    p_ref,
                    st1,
                    rr,
                    (remaining - chunk) as nat,
                ));
                assert(crate::utilities::bitops::bools_of_bits(keystream_bits@) + stream_bits(
                    p_ref,
                    st1,
                    rr,
                    (remaining - chunk) as nat,
                ) =~= done + stream_bits(p_ref, cur, rr, remaining));
            }
        }
        proof {
            assert(keystream_bits@.len() == p_bits);
            assert(stream_bits(&old(self).perm, self.state.unwrap().bv(), rr, 0)
                == Seq::<bool>::empty());
            assert(crate::utilities::bitops::bools_of_bits(keystream_bits@) =~= stream_bits(
                &old(self).perm,
                st_begin,
                rr,
                total,
            ));
        }
        let packed = crate::utilities::bitops::bits_to_bytes(keystream_bits.as_slice());
        Ok(packed)
    }

    /// Encrypts (or, identically, decrypts) `input` under `(key, nonce)`:
    /// rekeys, initializes, collects exactly `input.len()` bytes of
    /// keystream and xors them byte-wise onto the data.
    pub fn encrypt(&mut self, key: W, nonce: W, input: &[u8]) -> (result: Result<Vec<u8>, CtError>)
        requires
            old(self).wf(),
            input@.len() * 8 + 7 <= usize::MAX,
        ensures
            final(self).wf(),
            key.bv() == zero_bits(W::width()) ==> result == Err::<Vec<u8>, CtError>(
                CtError::InvalidDomainValue,
            ) && *final(self) == *old(self),
            key.bv() != zero_bits(W::width()) && nonce.bv() == zero_bits(W::width()) ==> result
                == Err::<Vec<u8>, CtError>(CtError::InvalidDomainValue) && final(self).same_config(
                old(self),
            ) && final(self).key == Some(key) && final(self).state is None,
            key.bv() != zero_bits(W::width()) && nonce.bv() != zero_bits(W::width()) ==> final(self).same_config(old(self)) && final(self).key == Some(key) && (result matches Ok(ct)
                && ct@ == xor_bytes(
                input@,
                asakey_keystream(
                    &old(self).perm,
                    key.bv(),
                    nonce.bv(),
                    old(self).b as nat,
                    old(self).r as nat,
                    old(self).k as nat,
                    input@.len(),
                ),
            )),
    {
        match self.rekey(key) {
            Ok(()) => {},
            Err(e) => {
                return Err(e);
            },
        }
        match self.init(nonce) {
            Ok(()) => {},
            Err(e) => {
                return Err(e);
            },
        }
        let plaintext_len = input.len();
        let keystream_bytes = match self.next_p_bytes(plaintext_len) {
            Ok(v) => v,
            Err(e) => {
                return Err(e);
            },
        };
        proof {
            nonce.lemma_bv_len();
            crate::stream::lemma_keyed_init_state_len(
                &old(self).perm,
                key.bv(),
                nonce.bv(),
                old(self).b as nat,
                old(self).r as nat,
                old(self).k as nat,
            );
            lemma_stream_bits_len(
                &old(self).perm,
                keyed_init_state(
                    &old(self).perm,
                    key.bv(),
                    nonce.bv(),
                    old(self).b as nat,
                    old(self).r as nat,
                    old(self).k as nat,
                ),
                old(self).r as nat,
                (plaintext_len * 8) as nat,
            );
            assert(keystream_bytes@.len() == plaintext_len);
        }
        let mut ciphertext: Vec<u8> = Vec::new();
        let mut i: usize = 0;
        while i < plaintext_len
            invariant
                i <= plaintext_len,
                plaintext_len == input@.len(),
                keystream_bytes@.len() == plaintext_len,
                ciphertext@.len() == i,
                forall|q: int|
                    0 <= q < i ==> ciphertext@[q] == (input@[q] ^ keystream_bytes@[q]),
            decreases plaintext_len - i,
        {
            let c = input[i] ^ keystream_bytes[i];
            ciphertext.push(c);
            i += 1;
        }
        proof {
            assert(ciphertext@ =~= xor_bytes(input@, keystream_bytes@));
        }
        Ok(ciphertext)
    }
}

/// Encryption is an involution: for any key, nonce and plaintext, applying
/// the keystream of the same session parameters twice returns the
/// plaintext, because the keystream depends only on the key, the nonce,
/// the sizes and the permutation, and a byte-wise exclusive or undoes
/// itself.
pub proof fn lemma_encrypt_involution<W: StateWord, P: Permutation<W>>(
    p: &P,
    key: Seq<bool>,
    nonce: Seq<bool>,
    b: nat,
    r: nat,
    k: nat,
    pt: Seq<u8>,
)
    requires
        0 < r <= nonce.len(),
    ensures
        xor_bytes(
            xor_bytes(pt, asakey_keystream(p, key, nonce, b, r, k, pt.len())),
            asakey_keystream(p, key, nonce, b, r, k, pt.len()),
        ) == pt,
{
    let ks = asakey_keystream(p, key, nonce, b, r, k, pt.len());
    crate::stream::lemma_keyed_init_state_len(p, key, nonce, b, r, k);
    lemma_stream_bits_len(p, keyed_init_state(p, key, nonce, b, r, k), r, pt.len() * 8);
    assert forall|i: int| 0 <= i < pt.len() implies xor_bytes(xor_bytes(pt, ks), ks)[i] == pt[i] by {
        let a = pt[i];
        let x = ks[i];
        assert(((a ^ x) ^ x) == a) by (bit_vector);
    }
    assert(xor_bytes(xor_bytes(pt, ks), ks) =~= pt);
}

} // verus!
