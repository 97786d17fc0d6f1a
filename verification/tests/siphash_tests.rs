use crypto_tools::errors::CtError;
use crypto_tools::hash::siphash::{Half_SipHash_perm, SipHash, SipHash_perm, SipPermutation};
use crypto_tools::perm::Permutation;
use crypto_tools::utilities::ustates::Ux4;

#[test]
fn siphash_new_u64_sets_published_constants() {
    let h = SipHash::<u64>::new(vec![2, 4]).unwrap();
    assert_eq!(h.n, 64);
    assert_eq!(h.c, 2);
    assert_eq!(h.d, 4);
    assert!(
        h.state
            == Ux4::<u64>::new([
                0x736f6d6570736575,
                0x646f72616e646f6d,
                0x6c7967656e657261,
                0x7465646279746573,
            ])
    );
    assert!(h.inputs.is_empty());
}

#[test]
fn siphash_new_u32_sets_published_constants() {
    let h = SipHash::<u32>::new(vec![1, 3]).unwrap();
    assert_eq!(h.n, 32);
    assert!(h.state == Ux4::<u32>::new([0x0, 0x0, 0x6c796765, 0x74656462]));
}

#[test]
fn siphash_new_rejects_bad_parameters() {
    assert!(matches!(SipHash::<u64>::new(vec![2]), Err(CtError::InvalidParameters)));
    assert!(matches!(SipHash::<u64>::new(vec![0, 4]), Err(CtError::InvalidParameters)));
    assert!(matches!(SipHash::<u32>::new(vec![2, 0]), Err(CtError::InvalidParameters)));
}

#[test]
fn siphash_update_collects_and_reset_clears() {
    let mut h = SipHash::<u64>::new(vec![2, 4]).unwrap();
    h.update(&[1, 2, 3]);
    h.update(&[4]);
    assert_eq!(h.inputs, vec![1, 2, 3, 4]);
    h.reset();
    assert!(h.inputs.is_empty());
    assert!(
        h.state
            == Ux4::<u64>::new([
                0x736f6d6570736575,
                0x646f72616e646f6d,
                0x6c7967656e657261,
                0x7465646279746573,
            ])
    );
}

#[test]
fn sip_round_permutations_mix_the_state() {
    let x = Ux4::<u64>::new([1, 2, 3, 4]);
    let once = SipHash_perm(&x);
    let again = SipHash_perm(&x);
    assert!(once == again);
    assert!(!(once == x));

    let y = Ux4::<u32>::new([5, 6, 7, 8]);
    let half = Half_SipHash_perm(&y);
    assert!(half == Half_SipHash_perm(&y));
    assert!(!(half == y));
}

#[test]
fn sip_permutation_iterates_the_round() {
    let x = Ux4::<u64>::new([9, 8, 7, 6]);
    let zero_rounds = SipPermutation { rounds: 0 };
    assert!(zero_rounds.transform(x) == x);

    let two = SipPermutation { rounds: 2 };
    let expected = SipHash_perm(&SipHash_perm(&x));
    assert!(two.transform(x) == expected);
}
