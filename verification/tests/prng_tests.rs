use crypto_tools::errors::CtError;
use crypto_tools::perm::RotationPermutation;
use crypto_tools::prng::gt2016::SPRG;
use crypto_tools::prng::sprng::SPRNG;
use crypto_tools::prng::PRNG;
use crypto_tools::rng::RandomSource;

/// A deterministic word source for tests: a fixed linear sequence.
struct FixedSource {
    state: u64,
}

impl FixedSource {
    fn new() -> Self {
        FixedSource { state: 0x243F6A8885A308D3 }
    }
}

impl RandomSource<u64> for FixedSource {
    fn sample(&mut self) -> u64 {
        self.state = self.state.wrapping_mul(6364136223846793005).wrapping_add(1442695040888963407);
        self.state
    }
}

#[test]
fn sprng_rejects_bad_parameters() {
    let mut src = FixedSource::new();
    assert!(matches!(
        SPRNG::<u64, RotationPermutation>::new(vec![64, 8, 1], RotationPermutation { alpha: 19 }, &mut src),
        Err(CtError::InvalidParameters)
    ));
    assert!(matches!(
        SPRNG::<u64, RotationPermutation>::new(
            vec![64, 65, 1, 3],
            RotationPermutation { alpha: 19 },
            &mut src
        ),
        Err(CtError::InvalidParameters)
    ));
    assert!(matches!(
        SPRNG::<u64, RotationPermutation>::new(
            vec![64, 8, 1, 1],
            RotationPermutation { alpha: 19 },
            &mut src
        ),
        Err(CtError::InvalidParameters)
    ));
}

#[test]
fn sprng_refresh_rejects_empty_input() {
    let mut src = FixedSource::new();
    let mut g =
        SPRNG::<u64, RotationPermutation>::new(vec![64, 8, 1, 3], RotationPermutation { alpha: 19 }, &mut src)
            .unwrap();
    assert!(matches!(g.refresh(vec![]), Err(CtError::InvalidParameters)));
}

#[test]
fn sprng_determinism() {
    let mut src1 = FixedSource::new();
    let mut src2 = FixedSource::new();
    let perm = RotationPermutation { alpha: 19 };
    let perm2 = RotationPermutation { alpha: 19 };
    let mut g1 = SPRNG::<u64, RotationPermutation>::new(vec![64, 8, 2, 3], perm, &mut src1).unwrap();
    let mut g2 = SPRNG::<u64, RotationPermutation>::new(vec![64, 8, 2, 3], perm2, &mut src2).unwrap();

    for round in 0u64..4 {
        let inputs: Vec<u64> = vec![round, round + 17, round + 99];
        g1.refresh(inputs.clone()).unwrap();
        g2.refresh(inputs).unwrap();
        for _ in 0..3 {
            let a = g1.next().unwrap();
            let b = g2.next().unwrap();
            assert_eq!(a, b);
        }
    }
}

#[test]
fn sprng_output_is_rate_masked() {
    let mut src = FixedSource::new();
    let mut g =
        SPRNG::<u64, RotationPermutation>::new(vec![64, 8, 1, 3], RotationPermutation { alpha: 19 }, &mut src)
            .unwrap();
    g.refresh(vec![42]).unwrap();
    let out = g.next().unwrap();
    assert_eq!(out & !0xFF, 0);
}

#[test]
fn sprng_trait_interface_matches_inherent() {
    let mut src1 = FixedSource::new();
    let mut src2 = FixedSource::new();
    let mut g1 = SPRNG::<u64, RotationPermutation>::new(
        vec![64, 8, 1, 3],
        RotationPermutation { alpha: 19 },
        &mut src1,
    )
    .unwrap();
    let mut g2 = SPRNG::<u64, RotationPermutation>::new(
        vec![64, 8, 1, 3],
        RotationPermutation { alpha: 19 },
        &mut src2,
    )
    .unwrap();
    PRNG::refresh(&mut g1, vec![7, 8]).unwrap();
    g2.refresh(vec![7, 8]).unwrap();
    let a = PRNG::next(&mut g1).unwrap();
    let b = g2.next().unwrap();
    assert_eq!(a, b);
}

#[test]
fn sprg_getters() {
    let mut src = FixedSource::new();
    let g =
        SPRG::<u64, RotationPermutation>::setup(vec![64, 8, 1, 3], RotationPermutation { alpha: 17 }, &mut src)
            .unwrap();
    assert_eq!(g.get_params(), vec![64, 8, 1, 3]);
    assert_eq!(g.get_seed().len(), 3);
    assert_eq!(g.get_mask(), 0xFF);
    assert!(g.get_seed().iter().all(|&s| s & !0xFF == 0));
}

#[test]
fn sprg_refresh_skips_the_last_input() {
    let mut src1 = FixedSource::new();
    let mut src2 = FixedSource::new();
    let mut g1 =
        SPRG::<u64, RotationPermutation>::setup(vec![64, 8, 1, 3], RotationPermutation { alpha: 17 }, &mut src1)
            .unwrap();
    let mut g2 =
        SPRG::<u64, RotationPermutation>::setup(vec![64, 8, 1, 3], RotationPermutation { alpha: 17 }, &mut src2)
            .unwrap();
    // The last input of this revision's refresh is never absorbed, so
    // batches differing only there behave identically.
    g1.refresh(vec![1, 2, 1111]);
    g2.refresh(vec![1, 2, 2222]);
    assert_eq!(g1.next(), g2.next());
}

#[test]
fn sprg_setup_rejects_bad_parameters() {
    let mut src = FixedSource::new();
    assert!(matches!(
        SPRG::<u64, RotationPermutation>::setup(vec![64, 8, 1], RotationPermutation { alpha: 17 }, &mut src),
        Err(CtError::InvalidParameters)
    ));
    assert!(matches!(
        SPRG::<u64, RotationPermutation>::setup(
            vec![64, 8, 1, 0],
            RotationPermutation { alpha: 17 },
            &mut src
        ),
        Err(CtError::InvalidParameters)
    ));
}
