use crypto_tools::rng::{RandomSource, ThreadRandom};
use crypto_tools::utilities::ustates::Ux4;

#[test]
fn thread_random_draws_words() {
    let mut src = ThreadRandom;
    let a: u64 = src.sample();
    let b: u64 = src.sample();
    let c: u64 = src.sample();
    // Three identical draws from a uniform 64-bit source are not credible.
    assert!(!(a == b && b == c));
    let _small: u8 = src.sample();
    let _mid: u32 = src.sample();
    let wide: Ux4<u64> = src.sample();
    let wide2: Ux4<u64> = src.sample();
    assert!(!(wide == wide2));
}

#[test]
fn ux4_rand_draws_fresh_states() {
    let a = Ux4::<u64>::rand();
    let b = Ux4::<u64>::rand();
    assert!(!(a == b));
}
