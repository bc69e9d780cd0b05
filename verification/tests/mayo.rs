use mayo_scheme::certificate::Certificate;
use mayo_scheme::generic::{Generic, Message};
use mayo_scheme::params::Parameter;
use mayo_scheme::participants::{Faults, ParticipantSet, N3f1};
use mayo_scheme::scheme::{PrivateKey, PublicKey, Signature};
use mayo_scheme::{Mayo1, Mayo2, Mayo3, Mayo5};
use rand::rngs::StdRng;
use rand::SeedableRng;

const NAMESPACE: &[u8] = b"test-mayo";
const MESSAGE: &[u8] = b"test message";

fn test_rng() -> StdRng {
    StdRng::seed_from_u64(0)
}

fn sign_and_verify<P: Parameter>() {
    let signer = PrivateKey::<P>::random(&mut test_rng());
    let public_key = signer.public_key();
    let signature = signer.sign(b"test-mayo", b"hello mayo").unwrap();

    assert!(public_key.verify(b"test-mayo", b"hello mayo", &signature));
    assert!(!public_key.verify(b"test-mayo", b"wrong message", &signature));
    assert!(!public_key.verify(b"wrong namespace", b"hello mayo", &signature));
}

fn codec_roundtrip<P: Parameter>() {
    let signer = PrivateKey::<P>::random(&mut test_rng());
    let public_key = signer.public_key();
    let signature = signer.sign(b"test-mayo", b"hello mayo").unwrap();

    let signer_decoded = PrivateKey::<P>::decode(&signer.encode()).unwrap();
    let public_key_decoded = PublicKey::<P>::decode(&public_key.encode()).unwrap();
    let signature_decoded = Signature::<P>::decode(&signature.encode()).unwrap();

    assert!(signer == signer_decoded);
    assert!(public_key == public_key_decoded);
    assert!(signature == signature_decoded);
    assert!(public_key_decoded.verify(b"test-mayo", b"hello mayo", &signature_decoded));
}

#[test]
fn mayo1_sign_and_verify() {
    sign_and_verify::<Mayo1>();
}

#[test]
fn mayo2_sign_and_verify() {
    sign_and_verify::<Mayo2>();
}

#[test]
fn mayo3_sign_and_verify() {
    sign_and_verify::<Mayo3>();
}

#[test]
fn mayo5_sign_and_verify() {
    sign_and_verify::<Mayo5>();
}

#[test]
fn mayo1_codec_roundtrip() {
    codec_roundtrip::<Mayo1>();
}

fn setup_signers<P: Parameter>(
    rng: &mut StdRng,
    n: u32,
) -> (Vec<Generic<P, Vec<u8>>>, Generic<P, Vec<u8>>) {
    let private_keys: Vec<PrivateKey<P>> = (0..n).map(|_| PrivateKey::<P>::random(rng)).collect();
    let participants =
        ParticipantSet::from_keys(private_keys.iter().map(|sk| sk.public_key()).collect()).unwrap();

    let signers = private_keys
        .into_iter()
        .map(|sk| Generic::signer(NAMESPACE, participants.clone(), sk).unwrap())
        .collect();

    let verifier = Generic::new_verifier(NAMESPACE, participants);

    (signers, verifier)
}

#[test]
fn test_is_attributable() {
    assert!(Generic::<Mayo1, Vec<u8>>::is_attributable());
}

#[test]
fn test_is_not_batchable() {
    assert!(!Generic::<Mayo1, Vec<u8>>::is_batchable());
}

#[test]
fn test_sign_vote_roundtrip() {
    let mut rng = test_rng();
    let (schemes, _) = setup_signers::<Mayo1>(&mut rng, 4);
    let scheme = &schemes[0];

    let attestation = scheme
        .sign(Message {
            message: MESSAGE.to_vec(),
        })
        .unwrap();
    assert!(scheme.verify_attestation(
        Message {
            message: MESSAGE.to_vec(),
        },
        &attestation,
    ));
}

#[test]
fn test_certificate_roundtrip() {
    let mut rng = test_rng();
    let (schemes, verifier) = setup_signers::<Mayo1>(&mut rng, 4);
    let quorum = N3f1::quorum(schemes.len() as u32) as usize;

    let subject = Message {
        message: MESSAGE.to_vec(),
    };
    let attestations: Vec<_> = schemes
        .iter()
        .take(quorum)
        .map(|s| s.sign(subject.clone()).unwrap())
        .collect();

    let certificate = verifier.assemble::<N3f1>(attestations).unwrap();
    assert!(verifier.verify_certificate::<_, N3f1>(subject.clone(), &certificate));

    let encoded = certificate.encode();
    let decoded =
        Certificate::<Mayo1>::decode(&encoded, verifier.certificate_codec_config()).unwrap();
    assert!(certificate == decoded);
}
