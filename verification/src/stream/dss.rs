//! Module implementing the DSS construction: a double-sponge stream
//! cipher that keeps two branches of the same keyed state, distinguished
//! only by one fixed domain bit, and cross-mixes them at every squeeze.
//!
//! Note that the state is reversed for easier use of the outputs.
//! The outer part is stored in the lower bits.

use vstd::prelude::*;

verus! {

use crate::bitspec::{
    zero_bits,
    mask_bits,
    not_bits,
    and_bits,
    or_bits,
    xor_bits,
    bit_word,
    pack_bits,
    lemma_pack_bits_bit,
};
use vstd::arithmetic::power2::pow2;
use crate::word::StateWord;
use crate::perm::Permutation;
use crate::errors::CtError;
use crate::stream::{
    absorb_iter,
    keyed_init_state,
    lemma_keyed_init_state_len,
    stream_chunk,
    xor_bytes,
};

/// The domain mask: only the highest bit of the state is set.
pub open spec fn dmask_bits(b: nat) -> Seq<bool> {
    Seq::new(b, |i: int| i == b - 1)
}

/// The shared value written back into both branches after one squeeze:
/// the subkey read from the "up" branch in the rate position, and the
/// xor of the two branches' capacity bits elsewhere.
pub open spec fn dss_mixed<W: StateWord, P: Permutation<W>>(
    p: &P,
    up: Seq<bool>,
    down: Seq<bool>,
    b: nat,
    r: nat,
) -> Seq<bool> {
    let u1 = p.pmap(up);
    let d1 = p.pmap(down);
    let sub_key = and_bits(u1, mask_bits(b, r));
    let mixed_c = xor_bits(
        and_bits(d1, not_bits(mask_bits(b, r))),
        and_bits(u1, not_bits(mask_bits(b, r))),
    );
    or_bits(sub_key, mixed_c)
}

/// The keystream bits of the double sponge: each round permutes both
/// branches, reveals the rate of the "down" branch, and writes the mixed
/// value back into both branches with the domain bit forced to zero
/// ("up") and one ("down").
pub open spec fn dss_stream_bits<W: StateWord, P: Permutation<W>>(
    p: &P,
    up: Seq<bool>,
    down: Seq<bool>,
    b: nat,
    r: nat,
    needed: nat,
) -> Seq<bool>
    decreases needed,
{
    if needed == 0 || r == 0 {
        Seq::empty()
    } else {
        let d1 = p.pmap(down);
        let mixed = dss_mixed(p, up, down, b, r);
        let chunk = stream_chunk(r, needed);
        d1.take(chunk as int) + dss_stream_bits(
            p,
            and_bits(mixed, not_bits(dmask_bits(b))),
            or_bits(mixed, dmask_bits(b)),
            b,
            r,
            (needed - chunk) as nat,
        )
    }
}

/// The pair of branch states left behind after squeezing `needed` bits.
pub open spec fn dss_stream_pair<W: StateWord, P: Permutation<W>>(
    p: &P,
    up: Seq<bool>,
    down: Seq<bool>,
    b: nat,
    r: nat,
    needed: nat,
) -> (Seq<bool>, Seq<bool>)
    decreases needed,
{
    if needed == 0 || r == 0 {
        (up, down)
    } else {
        let mixed = dss_mixed(p, up, down, b, r);
        let chunk = stream_chunk(r, needed);
        dss_stream_pair(
            p,
            and_bits(mixed, not_bits(dmask_bits(b))),
            or_bits(mixed, dmask_bits(b)),
            b,
            r,
            (needed - chunk) as nat,
        )
    }
}

/// Squeezing a positive rate yields exactly the requested number of bits.
pub proof fn lemma_dss_stream_bits_len<W: StateWord, P: Permutation<W>>(
    p: &P,
    up: Seq<bool>,
    down: Seq<bool>,
    b: nat,
    r: nat,
    needed: nat,
)
    requires
        0 < r <= b,
        up.len() == b,
        down.len() == b,
    ensures
        dss_stream_bits(p, up, down, b, r, needed).len() == needed,
    decreases needed,
{
    if needed != 0 {
        p.lemma_pmap_len(down);
        p.lemma_pmap_len(up);
        let mixed = dss_mixed(p, up, down, b, r);
        let chunk = stream_chunk(r, needed);
        lemma_dss_stream_bits_len(
            p,
            and_bits(mixed, not_bits(dmask_bits(b))),
            or_bits(mixed, dmask_bits(b)),
            b,
            r,
            (needed - chunk) as nat,
        );
    }
}

/// The keystream bytes a DSS session under `(key, nonce)` produces for
/// `len` bytes of data.
pub open spec fn dss_keystream<W: StateWord, P: Permutation<W>>(
    p: &P,
    key: Seq<bool>,
    nonce: Seq<bool>,
    b: nat,
    r: nat,
    k: nat,
    len: nat,
) -> Seq<u8> {
    let st = keyed_init_state(p, key, nonce, b, r, k);
    pack_bits(
        dss_stream_bits(
            p,
            and_bits(st, not_bits(dmask_bits(b))),
            or_bits(st, dmask_bits(b)),
            b,
            r,
            len * 8,
        ),
    )
}

/// The setup parameters DSS accepts, identical to Asakey's.
pub open spec fn dss_params_ok<W: StateWord>(p: Seq<usize>) -> bool {
    crate::stream::asakey::asakey_params_ok::<W>(p)
}

/// Structure implementing the double-sponge stream cipher.
///
/// Note that the state is reversed for easier use of the outputs.
/// The outer part is stored in the lower bits.
pub struct DSS<W, P> {
    /// Size of the state in bits.
    pub b: usize,
    /// Size of the outer part (b = c + r).
    pub r: usize,
    /// Size of the inner part (b = c + r).
    pub c: usize,
    /// Size of the key (k <= b).
    pub k: usize,
    /// Key mask.
    pub kmask: W,
    /// Outer part (rate) mask.
    pub rmask: W,
    /// Domain mask.
    pub dmask: W,
    /// Permutation instance.
    pub perm: P,
    /// Secret key.
    pub key: Option<W>,
    /// Inner state, top branch.
    pub state_up: Option<W>,
    /// Inner state, bottom branch.
    pub state_down: Option<W>,
}

impl<W: StateWord, P: Permutation<W>> DSS<W, P> {
    /// The masks match the configured sizes, the sizes match the word
    /// shape, and the two branches are present or absent together.
    pub open spec fn wf(&self) -> bool {
        &&& self.b == W::width()
        &&& 0 < self.r <= self.b
        &&& 0 < self.k <= self.b
        &&& self.c == self.b - self.r
        &&& self.kmask.bv() == mask_bits(W::width(), self.k as nat)
        &&& self.rmask.bv() == mask_bits(W::width(), self.r as nat)
        &&& self.dmask.bv() == dmask_bits(W::width())
        &&& (self.state_up is Some <==> self.state_down is Some)
    }

    /// The configuration (sizes, masks and permutation) of two instances
    /// agrees; only key and session state may differ.
    pub open spec fn same_config(&self, other: &Self) -> bool {
        &&& self.b == other.b
        &&& self.r == other.r
        &&& self.c == other.c
        &&& self.k == other.k
        &&& self.kmask == other.kmask
        &&& self.rmask == other.rmask
        &&& self.dmask == other.dmask
        &&& self.perm == other.perm
    }

    /// Getter for the state size.
    pub fn b(&self) -> (r: usize)
        ensures
            r == self.b,
    {
        self.b
    }

    /// Getter for the rate.
    pub fn r(&self) -> (r: usize)
        ensures
            r == self.r,
    {
        self.r
    }

    /// Getter for the capacity.
    pub fn c(&self) -> (r: usize)
        ensures
            r == self.c,
    {
        self.c
    }

    /// Getter for the key size.
    pub fn k(&self) -> (r: usize)
        ensures
            r == self.k,
    {
        self.k
    }

    /// Creates a new DSS instance from `(b, r, k)` parameters and a
    /// permutation; parameters out of range are rejected and nothing is
    /// constructed.
    pub fn new(params: Vec<usize>, perm: P) -> (result: Result<Self, CtError>)
        ensures
            match result {
                Ok(a) => {
                    &&& dss_params_ok::<W>(params@)
                    &&& a.wf()
                    &&& a.b == params@[0]
                    &&& a.r == params@[1]
                    &&& a.k == params@[2]
                    &&& a.c == a.b - a.r
                    &&& a.perm == perm
                    &&& a.key is None
                    &&& a.state_up is None
                    &&& a.state_down is None
                },
                Err(e) => e == CtError::InvalidParameters && !dss_params_ok::<W>(params@),
            },
    {
        if params.len() < 3 {
            return Err(CtError::InvalidParameters);
        }
        let b = params[0];
        let r = params[1];
        let k = params[2];
        let w = W::width_exec();
        if b != w || r == 0 || r > b || k == 0 || k > b {
            return Err(CtError::InvalidParameters);
        }
        let c = b - r;
        let kmask = W::low_mask(k);
        let rmask = W::low_mask(r);
        let dmask = W::from_u8(1).shift_left(b - 1);
        proof {
            W::lemma_width();
            crate::bitspec::lemma_nat_to_bits_len(1, W::width());
            let ww = W::width();
            assert forall|i: int| 0 <= i < ww implies dmask.bv()[i] == dmask_bits(ww)[i] by {
                if i >= b - 1 {
                    let q = i - (b - 1);
                    crate::bitspec::lemma_nat_to_bits_index(1, ww, q);
                    vstd::arithmetic::power2::lemma2_to64();
                    if q > 0 {
                        vstd::arithmetic::power2::lemma_pow2_strictly_increases(0, q as nat);
                        vstd::arithmetic::div_mod::lemma_basic_div(1, pow2(q as nat) as int);
                    }
                }
            }
            assert(dmask.bv() =~= dmask_bits(ww));
        }
        Ok(
            DSS {
                b,
                r,
                c,
                k,
                kmask,
                rmask,
                dmask,
                perm,
                key: None,
                state_up: None,
                state_down: None,
            },
        )
    }

    /// Rekeys the instance: stores the new key and discards any active
    /// session.  The all-zero key is an invalid domain value and is
    /// rejected with the instance unchanged.
    pub fn rekey(&mut self, key: W) -> (result: Result<(), CtError>)
        requires
            old(self).wf(),
        ensures
            final(self).wf(),
            key.bv() == zero_bits(W::width()) ==> result == Err::<(), CtError>(
                CtError::InvalidDomainValue,
            ) && *final(self) == *old(self),
            key.bv() != zero_bits(W::width()) ==> result == Ok::<(), CtError>(()) && final(self).same_config(old(self)) && final(self).key == Some(key) && final(self).state_up is None
                && final(self).state_down is None,
    {
        let z = W::zero();
        if key.equals(z) {
            return Err(CtError::InvalidDomainValue);
        }
        self.key = Some(key);
        self.state_up = None;
        self.state_down = None;
        Ok(())
    }

    /// Initializes the session from a nonce exactly as Asakey does, then
    /// writes the post-absorption value into the two branches, with the
    /// domain bit forced to zero in "up" and to one in "down".
    pub fn init(&mut self, nonce: W) -> (result: Result<(), CtError>)
        requires
            old(self).wf(),
        ensures
            final(self).wf(),
            nonce.bv() == zero_bits(W::width()) ==> result == Err::<(), CtError>(
                CtError::InvalidDomainValue,
            ) && *final(self) == *old(self),
            nonce.bv() != zero_bits(W::width()) && old(self).key is None ==> result == Err::<
                (),
                CtError,
            >(CtError::NotKeyed) && *final(self) == *old(self),
            old(self).key matches Some(kk) ==> (nonce.bv() != zero_bits(W::width()) ==> (result
                == Ok::<(), CtError>(()) && final(self).same_config(old(self)) && final(self).key
                == old(self).key && (final(self).state_up matches Some(su) && su.bv() == and_bits(
                keyed_init_state(
                    &old(self).perm,
                    kk.bv(),
                    nonce.bv(),
                    old(self).b as nat,
                    old(self).r as nat,
                    old(self).k as nat,
                ),
                not_bits(dmask_bits(W::width())),
            )) && (final(self).state_down matches Some(sd) && sd.bv() == or_bits(
                keyed_init_state(
                    &old(self).perm,
                    kk.bv(),
                    nonce.bv(),
                    old(self).b as nat,
                    old(self).r as nat,
                    old(self).k as nat,
                ),
                dmask_bits(W::width()),
            )))),
    {
        let z = W::zero();
        if nonce.equals(z) {
            return Err(CtError::InvalidDomainValue);
        }
        let key = match self.key {
            Some(kk) => kk,
            None => {
                return Err(CtError::NotKeyed);
            },
        };
        let mut state = self.perm.transform(key.bit_and(self.kmask).shift_left(self.b - self.k));
        let ghost st0 = state.bv();
        proof {
            nonce.lemma_bv_len();
            key.lemma_bv_len();
        }
        let one_mask = W::low_mask(1);
        let mut i: usize = 0;
        while i < self.k
            invariant
                *self == *old(self),
                old(self).wf(),
                nonce.bv().len() == W::width(),
                i <= self.k,
                one_mask.bv() == mask_bits(W::width(), 1),
                state.bv() == absorb_iter(&self.perm, st0, nonce.bv(), i as nat),
            decreases self.k - i,
        {
            let bit = nonce.shift_right(i).bit_and(one_mask);
            proof {
                let prev = absorb_iter(&self.perm, st0, nonce.bv(), i as nat);
                state.lemma_bv_len();
                assert(prev.len() == W::width());
                assert(bit.bv() =~= bit_word(nonce.bv()[i as int], prev.len()));
                assert(absorb_iter(&self.perm, st0, nonce.bv(), i as nat + 1) == self.perm.pmap(
                    xor_bits(prev, bit_word(nonce.bv()[i as int], prev.len())),
                ));
            }
            state = self.perm.transform(state.bit_xor(bit));
            i += 1;
        }
        let shared = nonce.bit_and(self.kmask).bit_or(state.bit_and(self.rmask.complement()));
        self.state_up = Some(shared.bit_and(self.dmask.complement()));
        self.state_down = Some(shared.bit_or(self.dmask));
        Ok(())
    }

    /// Squeezes one block: permutes both branches, reads the rate of the
    /// "up" branch as a subkey and the rate of the "down" branch as the
    /// output, xors the two branches' capacities, writes the recombined
    /// value into both branches with the domain bit forced, and returns
    /// the output as `ceil(r / 8)` bytes.  Both permutations are computed
    /// before either branch is rewritten.
    pub fn next(&mut self) -> (result: Result<Vec<u8>, CtError>)
        requires
            old(self).wf(),
        ensures
            final(self).wf(),
            old(self).state_up is None ==> result == Err::<Vec<u8>, CtError>(
                CtError::NotInitialized,
            ) && *final(self) == *old(self),
            old(self).state_up matches Some(su) ==> (old(self).state_down matches Some(sd) ==> {
                let b = W::width();
                let r = old(self).r as nat;
                let p = &old(self).perm;
                let mixed = dss_mixed(p, su.bv(), sd.bv(), b, r);
                &&& final(self).same_config(old(self))
                &&& final(self).key == old(self).key
                &&& (final(self).state_up matches Some(nu) && nu.bv() == and_bits(
                    mixed,
                    not_bits(dmask_bits(b)),
                ))
                &&& (final(self).state_down matches Some(nd) && nd.bv() == or_bits(
                    mixed,
                    dmask_bits(b),
                ))
                &&& (result matches Ok(bytes) && bytes@ == pack_bits(
                    and_bits(p.pmap(sd.bv()), mask_bits(b, r)),
                ).take(((old(self).r + 7) / 8) as int))
            }),
    {
        proof {
            W::lemma_width();
        }
        let su = match self.state_up {
            Some(s) => s,
            None => {
                return Err(CtError::NotInitialized);
            },
        };
        let sd = match self.state_down {
            Some(s) => s,
            None => {
                return Err(CtError::NotInitialized);
            },
        };
        let state_up = self.perm.transform(su);
        let state_down = self.perm.transform(sd);
        let sub_key = state_up.bit_and(self.rmask);
        let r_bits = (self.r + 7) / 8;
        let output = state_down.bit_and(self.rmask);
        let not_rmask = self.rmask.complement();
        let mixed_c = state_down.bit_and(not_rmask).bit_xor(state_up.bit_and(not_rmask));
        let mixed_state = sub_key.bit_or(mixed_c);
        self.state_up = Some(mixed_state.bit_and(self.dmask.complement()));
        self.state_down = Some(mixed_state.bit_or(self.dmask));
        let outer = output.le_bytes();
        proof {
            sd.lemma_bv_len();
            self.perm.lemma_pmap_len(sd.bv());
            output.lemma_bv_len();
            assert(outer@.len() == (W::width() + 7) / 8);
            assert(r_bits <= outer@.len());
        }
        let mut block: Vec<u8> = Vec::new();
        let mut j: usize = 0;
        while j < r_bits
            invariant
                j <= r_bits,
                r_bits <= outer@.len(),
                block@.len() == j,
                forall|t: int| 0 <= t < j ==> block@[t] == outer@[t],
            decreases r_bits - j,
        {
            let byte = outer[j];
            block.push(byte);
            j += 1;
        }
        proof {
            assert(block@ =~= outer@.take(r_bits as int));
        }
        Ok(block)
    }

    /// Collects `p` bytes of keystream, assuming an active session: each
    /// squeeze contributes its first `r` valid bits until `8 p` bits are
    /// collected, which are then packed into bytes; the superfluous bits
    /// are discarded.
    fn next_p_bytes(&mut self, p: usize) -> (result: Result<Vec<u8>, CtError>)
        requires
            old(self).wf(),
            p * 8 + 7 <= usize::MAX,
        ensures
            final(self).wf(),
            old(self).state_up is None ==> result == Err::<Vec<u8>, CtError>(
                CtError::NotInitialized,
            ) && *final(self) == *old(self),
            old(self).state_up matches Some(su) ==> (old(self).state_down matches Some(sd) ==> {
                let b = W::width();
                let r = old(self).r as nat;
                let p_ref = &old(self).perm;
                let pair = dss_stream_pair(p_ref, su.bv(), sd.bv(), b, r, (p * 8) as nat);
                &&& final(self).same_config(old(self))
                &&& final(self).key == old(self).key
                &&& (result matches Ok(bytes) && bytes@ == pack_bits(
                    dss_stream_bits(p_ref, su.bv(), sd.bv(), b, r, (p * 8) as nat),
                ))
                &&& (final(self).state_up matches Some(nu) && nu.bv() == pair.0)
                &&& (final(self).state_down matches Some(nd) && nd.bv() == pair.1)
            }),
    {
        if self.state_up.is_none() {
            return Err(CtError::NotInitialized);
        }
        let ghost up_begin = self.state_up.unwrap().bv();
        let ghost down_begin = self.state_down.unwrap().bv();
        let ghost rr = self.r as nat;
        let ghost bb = W::width();
        let ghost total = (p * 8) as nat;
        let p_bits = p * 8;
        let mut keystream_bits: Vec<u8> = Vec::new();
        while keystream_bits.len() < p_bits
            invariant
                self.wf(),
                self.same_config(old(self)),
                self.key == old(self).key,
                old(self).wf(),
                rr == old(self).r as nat,
                bb == W::width(),
                total == p_bits,
                p_bits == p * 8,
                p * 8 + 7 <= usize::MAX,
                keystream_bits@.len() <= p_bits,
                forall|t: int|
                    0 <= t < keystream_bits@.len() ==> keystream_bits@[t] == 0 || keystream_bits@[t]
                        == 1,
                self.state_up is Some,
                self.state_down is Some,
                crate::utilities::bitops::bools_of_bits(keystream_bits@) + dss_stream_bits(
                    &old(self).perm,
                    self.state_up.unwrap().bv(),
                    self.state_down.unwrap().bv(),
                    bb,
                    rr,
                    (total - keystream_bits@.len()) as nat,
                ) == dss_stream_bits(&old(self).perm, up_begin, down_begin, bb, rr, total),
                dss_stream_pair(
                    &old(self).perm,
                    self.state_up.unwrap().bv(),
                    self.state_down.unwrap().bv(),
                    bb,
                    rr,
                    (total - keystream_bits@.len()) as nat,
                ) == dss_stream_pair(&old(self).perm, up_begin, down_begin, bb, rr, total),
            decreases p_bits - keystream_bits@.len(),
        {
            let ghost cu = self.state_up.unwrap().bv();
            let ghost cd = self.state_down.unwrap().bv();
            let ghost remaining = (total - keystream_bits@.len()) as nat;
            let collected_before = keystream_bits.len();
            let ghost ks_pre = keystream_bits@;
            proof {
                self.state_up.unwrap().lemma_bv_len();
                self.state_down.unwrap().lemma_bv_len();
            }
            let output = match self.next() {
                Ok(o) => o,
                Err(_) => {
                    return Err(CtError::NotInitialized);
                },
            };
            let ghost st1 = old(self).perm.pmap(cd);
            let remaining_now = p_bits - collected_before;
            let chunk = if self.r <= remaining_now {
                self.r
            } else {
                remaining_now
            };
            proof {
                assert(chunk == stream_chunk(rr, remaining));
                W::lemma_width();
                assert(st1.len() == W::width()) by {
                    old(self).perm.lemma_pmap_len(cd);
                    self.state_down.unwrap().lemma_bv_len();
                }
                assert(crate::utilities::bitops::bools_of_bits(keystream_bits@)
                    =~= crate::utilities::bitops::bools_of_bits(ks_pre) + st1.take(0));
            }
            let mut t: usize = 0;
            while t < chunk
                invariant
                    t <= chunk,
                    chunk <= self.r,
                    self.wf(),
                    st1.len() == W::width(),
                    output@ == pack_bits(and_bits(st1, mask_bits(W::width(), self.r as nat))).take(
                        ((self.r + 7) / 8) as int,
                    ),
                    ks_pre.len() == collected_before,
                    keystream_bits@.len() == collected_before + t,
                    collected_before + chunk <= p_bits,
                    forall|q: int|
                        0 <= q < keystream_bits@.len() ==> keystream_bits@[q] == 0
                            || keystream_bits@[q] == 1,
                    crate::utilities::bitops::bools_of_bits(keystream_bits@)
                        == crate::utilities::bitops::bools_of_bits(ks_pre) + st1.take(t as int),
                decreases chunk - t,
            {
                let j = t / 8;
                let s = t % 8;
                let byte = output[j];
                let bitv = (byte >> (s as u8)) & 1;
                proof {
                    let masked = and_bits(st1, mask_bits(W::width(), self.r as nat));
                    assert(8 * (j as int) + (s as int) == t as int);
                    assert(j < ((self.r + 7) / 8));
                    assert(output@[j as int] == pack_bits(masked)[j as int]);
                    lemma_pack_bits_bit(masked, j as int, s as int);
                    assert(masked[t as int] == st1[t as int]);
                    assert(bitv == (if st1[t as int] {
                        1u8
                    } else {
                        0u8
                    }));
                }
                let ghost ks_old = keystream_bits@;
                keystream_bits.push(bitv);
                proof {
                    assert(keystream_bits@ == ks_old.push(bitv));
                    let full = crate::utilities::bitops::bools_of_bits(keystream_bits@);
                    let prev = crate::utilities::bitops::bools_of_bits(ks_old);
                    let target = crate::utilities::bitops::bools_of_bits(ks_pre) + st1.take(
                        t as int + 1,
                    );
                    assert forall|q: int| 0 <= q < full.len() implies full[q] == target[q] by {
                        if q < collected_before + t {
                            assert(full[q] == prev[q]);
                            assert(prev[q] == (crate::utilities::bitops::bools_of_bits(ks_pre)
                                + st1.take(t as int))[q]);
                            if q >= collected_before {
                                assert(st1.take(t as int)[q - collected_before] == st1[q
                                    - collected_before]);
                                assert(st1.take(t as int + 1)[q - collected_before] == st1[q
                                    - collected_before]);
                            }
                        } else {
                            assert(q == collected_before + t);
                            assert(full[q] == (bitv == 1));
                            assert(st1.take(t as int + 1)[t as int] == st1[t as int]);
                        }
                    }
                    assert(full =~= target);
                }
                t += 1;
            }
            proof {
                let ghost p_ref = &old(self).perm;
                let done = crate::utilities::bitops::bools_of_bits(ks_pre);
                assert(dss_stream_bits(p_ref, cu, cd, bb, rr, remaining) == st1.take(chunk as int)
                    + dss_stream_bits(
                    p_ref,
                    and_bits(dss_mixed(p_ref, cu, cd, bb, rr), not_bits(dmask_bits(bb))),
                    or_bits(dss_mixed(p_ref, cu, cd, bb, rr), dmask_bits(bb)),
                    bb,
                    rr,
                    (remaining - chunk) as nat,
                ));
                assert(dss_stream_pair(p_ref, cu, cd, bb, rr, remaining) == dss_stream_pair(
                    p_ref,
                    and_bits(dss_mixed(p_ref, cu, cd, bb, rr), not_bits(dmask_bits(bb))),
                    or_bits(dss_mixed(p_ref, cu, cd, bb, rr), dmask_bits(bb)),
                    bb,
                    rr,
                    (remaining - chunk) as nat,
                ));
                assert(self.state_up.unwrap().bv() == and_bits(
                    dss_mixed(p_ref, cu, cd, bb, rr),
                    not_bits(dmask_bits(bb)),
                ));
                assert(self.state_down.unwrap().bv() == or_bits(
                    dss_mixed(p_ref, cu, cd, bb, rr),
                    dmask_bits(bb),
                ));
                assert(crate::utilities::bitops::bools_of_bits(keystream_bits@) + dss_stream_bits(
                    p_ref,
                    self.state_up.unwrap().bv(),
                    self.state_down.unwrap().bv(),
                    bb,
                    rr,
                    (remaining - chunk) as nat,
                ) =~= done + dss_stream_bits(p_ref, cu, cd, bb, rr, remaining));
            }
        }
        proof {
            assert(keystream_bits@.len() == p_bits);
            assert(dss_stream_bits(
                &old(self).perm,
                self.state_up.unwrap().bv(),
                self.state_down.unwrap().bv(),
                bb,
                rr,
                0,
            ) == Seq::<bool>::empty());
            assert(crate::utilities::bitops::bools_of_bits(keystream_bits@) =~= dss_stream_bits(
                &old(self).perm,
                up_begin,
                down_begin,
                bb,
                rr,
                total,
            ));
        }
        let packed = crate::utilities::bitops::bits_to_bytes(keystream_bits.as_slice());
        Ok(packed)
    }

    /// Encrypts (or, identically, decrypts) `input` under `(key, nonce)`:
    /// rekeys, initializes, collects exactly `input.len()` bytes of
    /// keystream and xors them byte-wise onto the data.
    pub fn encrypt(&mut self, key: W, nonce: W, input: &[u8]) -> (result: Result<Vec<u8>, CtError>)
        requires
            old(self).wf(),
            input@.len() * 8 + 7 <= usize::MAX,
        ensures
            final(self).wf(),
            key.bv() == zero_bits(W::width()) ==> result == Err::<Vec<u8>, CtError>(
                CtError::InvalidDomainValue,
            ) && *final(self) == *old(self),
            key.bv() != zero_bits(W::width()) && nonce.bv() == zero_bits(W::width()) ==> result
                == Err::<Vec<u8>, CtError>(CtError::InvalidDomainValue) && final(self).same_config(
                old(self),
            ) && final(self).key == Some(key) && final(self).state_up is None && final(self).state_down is None,
            key.bv() != zero_bits(W::width()) && nonce.bv() != zero_bits(W::width()) ==> final(self).same_config(old(self)) && final(self).key == Some(key) && (result matches Ok(ct)
                && ct@ == xor_bytes(
                input@,
                dss_keystream(
                    &old(self).perm,
                    key.bv(),
                    nonce.bv(),
                    old(self).b as nat,
                    old(self).r as nat,
                    old(self).k as nat,
                    input@.len(),
                ),
            )),
    {
        match self.rekey(key) {
            Ok(()) => {},
            Err(e) => {
                return Err(e);
            },
        }
        match self.init(nonce) {
            Ok(()) => {},
            Err(e) => {
                return Err(e);
            },
        }
        let plaintext_len = input.len();
        let keystream_bytes = match self.next_p_bytes(plaintext_len) {
            Ok(v) => v,
            Err(e) => {
                return Err(e);
            },
        };
        proof {
            nonce.lemma_bv_len();
            W::lemma_width();
            lemma_keyed_init_state_len(
                &old(self).perm,
                key.bv(),
                nonce.bv(),
                old(self).b as nat,
                old(self).r as nat,
                old(self).k as nat,
            );
            lemma_dss_stream_bits_len(
                &old(self).perm,
                and_bits(
                    keyed_init_state(
                        &old(self).perm,
                        key.bv(),
                        nonce.bv(),
                        old(self).b as nat,
                        old(self).r as nat,
                        old(self).k as nat,
                    ),
                    not_bits(dmask_bits(W::width())),
                ),
                or_bits(
                    keyed_init_state(
                        &old(self).perm,
                        key.bv(),
                        nonce.bv(),
                        old(self).b as nat,
                        old(self).r as nat,
                        old(self).k as nat,
                    ),
                    dmask_bits(W::width()),
                ),
                W::width(),
                old(self).r as nat,
                (plaintext_len * 8) as nat,
            );
            assert(keystream_bytes@.len() == plaintext_len);
        }
        let mut ciphertext: Vec<u8> = Vec::new();
        let mut i: usize = 0;
        while i < plaintext_len
            invariant
                i <= plaintext_len,
                plaintext_len == input@.len(),
                keystream_bytes@.len() == plaintext_len,
                ciphertext@.len() == i,
                forall|q: int|
                    0 <= q < i ==> ciphertext@[q] == (input@[q] ^ keystream_bytes@[q]),
            decreases plaintext_len - i,
        {
            let c = input[i] ^ keystream_bytes[i];
            ciphertext.push(c);
            i += 1;
        }
        proof {
            assert(ciphertext@ =~= xor_bytes(input@, keystream_bytes@));
        }
        Ok(ciphertext)
    }
}

/// Encryption is an involution for the double sponge too: applying the
/// keystream of the same session parameters twice returns the plaintext.
pub proof fn lemma_dss_encrypt_involution<W: StateWord, P: Permutation<W>>(
    p: &P,
    key: Seq<bool>,
    nonce: Seq<bool>,
    b: nat,
    r: nat,
    k: nat,
    pt: Seq<u8>,
)
    requires
        0 < r <= W::width(),
        nonce.len() == W::width(),
        b == W::width(),
    ensures
        xor_bytes(
            xor_bytes(pt, dss_keystream(p, key, nonce, b, r, k, pt.len())),
            dss_keystream(p, key, nonce, b, r, k, pt.len()),
        ) == pt,
{
    let ks = dss_keystream::<W, P>(p, key, nonce, b, r, k, pt.len());
    lemma_keyed_init_state_len(p, key, nonce, b, r, k);
    let st = keyed_init_state(p, key, nonce, b, r, k);
    lemma_dss_stream_bits_len(
        p,
        and_bits(st, not_bits(dmask_bits(b))),
        or_bits(st, dmask_bits(b)),
        b,
        r,
        pt.len() * 8,
    );
    assert forall|i: int| 0 <= i < pt.len() implies xor_bytes(xor_bytes(pt, ks), ks)[i] == pt[i] by {
        let a = pt[i];
        let x = ks[i];
        assert(((a ^ x) ^ x) == a) by (bit_vector);
    }
    assert(xor_bytes(xor_bytes(pt, ks), ks) =~= pt);
}

} // verus!
