use crypto_tools::errors::CtError;
use crypto_tools::hash::siphash::SipPermutation;
use crypto_tools::perm::RotationPermutation;
use crypto_tools::stream::asakey::Asakey;
use crypto_tools::stream::dss::DSS;
use crypto_tools::utilities::ustates::Ux4;

fn small_asakey() -> Asakey<u64, RotationPermutation> {
    Asakey::new(vec![64, 12, 20], RotationPermutation { alpha: 17 }).unwrap()
}

fn small_dss() -> DSS<u64, RotationPermutation> {
    DSS::new(vec![64, 12, 20], RotationPermutation { alpha: 17 }).unwrap()
}

#[test]
fn asakey_new_rejects_bad_parameters() {
    assert!(matches!(
        Asakey::<u64, RotationPermutation>::new(vec![64, 12], RotationPermutation { alpha: 1 }),
        Err(CtError::InvalidParameters)
    ));
    assert!(matches!(
        Asakey::<u64, RotationPermutation>::new(vec![64, 0, 20], RotationPermutation { alpha: 1 }),
        Err(CtError::InvalidParameters)
    ));
    assert!(matches!(
        Asakey::<u64, RotationPermutation>::new(vec![64, 12, 65], RotationPermutation { alpha: 1 }),
        Err(CtError::InvalidParameters)
    ));
    assert!(matches!(
        Asakey::<u64, RotationPermutation>::new(vec![32, 12, 20], RotationPermutation { alpha: 1 }),
        Err(CtError::InvalidParameters)
    ));
}

#[test]
fn asakey_zero_key_is_invalid_domain() {
    let mut a = small_asakey();
    assert!(matches!(a.rekey(0), Err(CtError::InvalidDomainValue)));
}

#[test]
fn asakey_zero_nonce_is_invalid_domain() {
    let mut a = small_asakey();
    a.rekey(5).unwrap();
    assert!(matches!(a.init(0), Err(CtError::InvalidDomainValue)));
}

#[test]
fn asakey_init_without_key_is_not_keyed() {
    let mut a = small_asakey();
    assert!(matches!(a.init(9), Err(CtError::NotKeyed)));
}

#[test]
fn asakey_next_without_init_is_not_initialized() {
    let mut a = small_asakey();
    assert!(matches!(a.next(), Err(CtError::NotInitialized)));
}

#[test]
fn asakey_session_invalidation_after_rekey() {
    let mut a = small_asakey();
    a.rekey(5).unwrap();
    a.init(9).unwrap();
    a.next().unwrap();
    a.rekey(7).unwrap();
    assert!(matches!(a.next(), Err(CtError::NotInitialized)));
}

#[test]
fn asakey_next_block_length_is_rate_rounded_up() {
    let mut a = small_asakey();
    a.rekey(5).unwrap();
    a.init(9).unwrap();
    let block = a.next().unwrap();
    assert_eq!(block.len(), 2);
    assert_eq!(block[1] & 0xF0, 0);
}

#[test]
fn asakey_encrypt_involution() {
    let mut a = small_asakey();
    for pt in [&b""[..], &b"a"[..], &b"Hello, world!"[..]] {
        let ct = a.encrypt(5, 9, pt).unwrap();
        assert_eq!(ct.len(), pt.len());
        let back = a.encrypt(5, 9, &ct).unwrap();
        assert_eq!(back, pt.to_vec());
    }
}

#[test]
fn asakey_keystream_is_deterministic() {
    let mut a1 = small_asakey();
    let mut a2 = small_asakey();
    let ct1 = a1.encrypt(5, 9, b"payload bytes").unwrap();
    let ct2 = a2.encrypt(5, 9, b"payload bytes").unwrap();
    assert_eq!(ct1, ct2);
}

#[test]
fn asakey_keystream_differs_from_plaintext() {
    let mut a = small_asakey();
    let pt = b"some longer plaintext with structure";
    let ct = a.encrypt(5, 9, pt).unwrap();
    assert_ne!(ct, pt.to_vec());
}

#[test]
fn dss_new_rejects_bad_parameters() {
    assert!(matches!(
        DSS::<u64, RotationPermutation>::new(vec![64], RotationPermutation { alpha: 1 }),
        Err(CtError::InvalidParameters)
    ));
    assert!(matches!(
        DSS::<u64, RotationPermutation>::new(vec![64, 65, 20], RotationPermutation { alpha: 1 }),
        Err(CtError::InvalidParameters)
    ));
}

#[test]
fn dss_sequencing_errors() {
    let mut d = small_dss();
    assert!(matches!(d.next(), Err(CtError::NotInitialized)));
    assert!(matches!(d.init(9), Err(CtError::NotKeyed)));
    assert!(matches!(d.rekey(0), Err(CtError::InvalidDomainValue)));
    d.rekey(5).unwrap();
    assert!(matches!(d.init(0), Err(CtError::InvalidDomainValue)));
    d.init(9).unwrap();
    d.next().unwrap();
    d.rekey(7).unwrap();
    assert!(matches!(d.next(), Err(CtError::NotInitialized)));
}

#[test]
fn dss_encrypt_involution() {
    let mut d = small_dss();
    for pt in [&b""[..], &b"x"[..], &b"Hello, world!"[..]] {
        let ct = d.encrypt(5, 9, pt).unwrap();
        assert_eq!(ct.len(), pt.len());
        let back = d.encrypt(5, 9, &ct).unwrap();
        assert_eq!(back, pt.to_vec());
    }
}

#[test]
fn dss_and_asakey_streams_differ() {
    let perm = SipPermutation { rounds: 4 };
    let mut a = Asakey::<Ux4<u64>, SipPermutation>::new(vec![256, 16, 32], perm).unwrap();
    let perm2 = SipPermutation { rounds: 4 };
    let mut d = DSS::<Ux4<u64>, SipPermutation>::new(vec![256, 16, 32], perm2).unwrap();

    let key = Ux4::<u64>::new([0x1234, 0x5678, 0x9abc, 0xdef0]);
    let nonce = Ux4::<u64>::new([0x1111, 0x2222, 0x3333, 0x4444]);

    a.rekey(key).unwrap();
    a.init(nonce).unwrap();
    d.rekey(key).unwrap();
    d.init(nonce).unwrap();

    let mut asakey_stream: Vec<u8> = Vec::new();
    let mut dss_stream: Vec<u8> = Vec::new();
    for _ in 0..4 {
        asakey_stream.extend(a.next().unwrap());
        dss_stream.extend(d.next().unwrap());
    }
    assert_ne!(asakey_stream, dss_stream);
}

#[test]
fn wide_state_encrypt_involution() {
    let perm = SipPermutation { rounds: 2 };
    let mut a = Asakey::<Ux4<u64>, SipPermutation>::new(vec![256, 20, 32], perm).unwrap();
    let key = Ux4::<u64>::new([7, 0, 0, 1]);
    let nonce = Ux4::<u64>::new([3, 0, 0, 9]);
    let pt = b"not a multiple of the byte-rate";
    let ct = a.encrypt(key, nonce, pt).unwrap();
    let back = a.encrypt(key, nonce, &ct).unwrap();
    assert_eq!(back, pt.to_vec());
}

#[test]
fn encrypt_rejects_zero_domain_values() {
    let mut a = small_asakey();
    assert!(matches!(a.encrypt(0, 9, b"data"), Err(CtError::InvalidDomainValue)));
    assert!(matches!(a.encrypt(5, 0, b"data"), Err(CtError::InvalidDomainValue)));
    let mut d = small_dss();
    assert!(matches!(d.encrypt(0, 9, b"data"), Err(CtError::InvalidDomainValue)));
    assert!(matches!(d.encrypt(5, 0, b"data"), Err(CtError::InvalidDomainValue)));
}

#[test]
fn full_rate_state_still_encrypts() {
    let mut a = Asakey::<u64, RotationPermutation>::new(vec![64, 64, 64], RotationPermutation {
        alpha: 11,
    })
    .unwrap();
    let pt = b"rate as wide as the state";
    let ct = a.encrypt(0xFEED, 0xBEEF, pt).unwrap();
    let back = a.encrypt(0xFEED, 0xBEEF, &ct).unwrap();
    assert_eq!(back, pt.to_vec());
}

#[test]
fn getters_report_configuration() {
    let a = small_asakey();
    assert_eq!(a.b(), 64);
    assert_eq!(a.r(), 12);
    assert_eq!(a.c(), 52);
    assert_eq!(a.k(), 20);
    let d = small_dss();
    assert_eq!(d.b(), 64);
    assert_eq!(d.r(), 12);
    assert_eq!(d.c(), 52);
    assert_eq!(d.k(), 20);
}
