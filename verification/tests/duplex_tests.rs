use crypto_tools::errors::CtError;
use crypto_tools::perm::RotationPermutation;
use crypto_tools::rng::RandomSource;

/// A deterministic word source for tests.
struct FixedSource {
    state: u64,
}

impl FixedSource {
    fn new() -> Self {
        FixedSource { state: 0x9E3779B97F4A7C15 }
    }
}

impl RandomSource<u64> for FixedSource {
    fn sample(&mut self) -> u64 {
        self.state = self.state.wrapping_mul(6364136223846793005).wrapping_add(1442695040888963407);
        self.state
    }
}

#[test]
fn construction_duplex_setup_and_getters() {
    let mut src = FixedSource::new();
    let d = crypto_tools::construction::duplex::Duplex::<u64, RotationPermutation>::setup(
        vec![64, 4, 4, 3, 17],
        RotationPermutation { alpha: 17 },
        &mut src,
    )
    .unwrap();
    assert_eq!(d.get_params(), vec![64, 4, 4, 3]);
    assert_eq!(d.get_mask(), 0xF);
}

#[test]
fn construction_duplex_rejects_bad_parameters() {
    let mut src = FixedSource::new();
    assert!(matches!(
        crypto_tools::construction::duplex::Duplex::<u64, RotationPermutation>::setup(
            vec![64, 4, 4, 0, 17],
            RotationPermutation { alpha: 17 },
            &mut src,
        ),
        Err(CtError::InvalidParameters)
    ));
    assert!(matches!(
        crypto_tools::construction::duplex::Duplex::<u64, RotationPermutation>::setup(
            vec![64, 65, 4, 3, 17],
            RotationPermutation { alpha: 17 },
            &mut src,
        ),
        Err(CtError::InvalidParameters)
    ));
}

#[test]
fn construction_duplex_is_deterministic_per_source() {
    let mut src1 = FixedSource::new();
    let mut src2 = FixedSource::new();
    let mut d1 = crypto_tools::construction::duplex::Duplex::<u64, RotationPermutation>::setup(
        vec![64, 4, 4, 3, 17],
        RotationPermutation { alpha: 17 },
        &mut src1,
    )
    .unwrap();
    let mut d2 = crypto_tools::construction::duplex::Duplex::<u64, RotationPermutation>::setup(
        vec![64, 4, 4, 3, 17],
        RotationPermutation { alpha: 17 },
        &mut src2,
    )
    .unwrap();
    d1.reset(1, &mut src1);
    d2.reset(1, &mut src2);
    for i in 0u64..16 {
        let a = d1.duplex(true, i);
        let b = d2.duplex(true, i);
        assert_eq!(a, b);
        assert_eq!(a & !0xF, 0);
    }
}

#[test]
fn other_duplex_new_and_getters() {
    let mut src = FixedSource::new();
    let d = crypto_tools::other::duplex::Duplex::<u64, RotationPermutation>::new(
        vec![64, 4, 4, 3, 17],
        RotationPermutation { alpha: 17 },
        &mut src,
    )
    .unwrap();
    assert_eq!(d.b(), 64);
    assert_eq!(d.r(), 4);
    assert_eq!(d.k(), 4);
    assert_eq!(d.u(), 3);
    assert_eq!(d.mask(), 0xF);
}

#[test]
fn other_duplex_output_reflects_prior_state() {
    let mut src = FixedSource::new();
    let mut d = crypto_tools::other::duplex::Duplex::<u64, RotationPermutation>::new(
        vec![64, 8, 8, 2, 9],
        RotationPermutation { alpha: 9 },
        &mut src,
    )
    .unwrap();
    // The initial state is all-zero, so the first duplex call reveals a
    // zero rate regardless of its input.
    let first = d.duplex(false, 0xDEAD);
    assert_eq!(first, 0);
    // The next output reveals the rate of the state as it stood before
    // that call's permutation.
    let second = d.duplex(false, 0);
    assert_eq!(second & !0xFF, 0);
}
