use mayo_scheme::certificate::Certificate;
use mayo_scheme::codec::{union_unique, CodecError};
use mayo_scheme::generic::{Attestation, Generic, Message};
use mayo_scheme::hex::hex;
use mayo_scheme::params::{Parameter, Variant};
use mayo_scheme::participants::{Faults, Participant, ParticipantSet, SetError, N3f1};
use mayo_scheme::scheme::{PrivateKey, PublicKey, Signature};
use mayo_scheme::signers::Signers;
use mayo_scheme::varint::{read_u32, u32_encode_size, write_u32};
use mayo_scheme::{Mayo1, Mayo2, Mayo3, Mayo5, MayoParameter};
use rand::rngs::StdRng;
use rand::SeedableRng;
use signature::Signer;

const NAMESPACE: &[u8] = b"test-mayo";

fn rng(seed: u64) -> StdRng {
    StdRng::seed_from_u64(seed)
}

fn keys(n: u64) -> Vec<PrivateKey<Mayo1>> {
    (0..n).map(|i| PrivateKey::<Mayo1>::random(&mut rng(100 + i))).collect()
}

fn committee(sks: &[PrivateKey<Mayo1>]) -> ParticipantSet<Mayo1> {
    ParticipantSet::from_keys(sks.iter().map(|k| k.public_key()).collect()).unwrap()
}

fn message(m: &[u8]) -> Message {
    Message { message: m.to_vec() }
}

fn sizes_match<P: Parameter + MayoParameter>(v: Variant) {
    assert!(P::which() == v);
    assert_eq!(P::csk_len(), P::CSK_BYTES);
    assert_eq!(P::cpk_len(), P::CPK_BYTES);
    assert_eq!(P::sig_len(), P::SIG_BYTES);
    assert_eq!(P::seed_len(), P::SK_SEED_BYTES);
    assert_eq!(P::name(), P::NAME);
    assert_eq!(PrivateKey::<P>::size(), P::CSK_BYTES);
    assert_eq!(PublicKey::<P>::size(), P::CPK_BYTES);
    assert_eq!(Signature::<P>::size(), P::SIG_BYTES);
}

#[test]
fn parameter_sizes_are_those_of_pq_mayo() {
    sizes_match::<Mayo1>(Variant::Mayo1);
    sizes_match::<Mayo2>(Variant::Mayo2);
    sizes_match::<Mayo3>(Variant::Mayo3);
    sizes_match::<Mayo5>(Variant::Mayo5);
}

#[test]
fn union_unique_prefixes_the_namespace_length() {
    assert_eq!(union_unique(b"ab", b"c"), vec![2u8, b'a', b'b', b'c']);
    assert_eq!(union_unique(b"", b"xy"), vec![0u8, b'x', b'y']);
    let ns = vec![7u8; 300];
    let joined = union_unique(&ns, b"m");
    assert_eq!(&joined[..2], &[0xACu8, 0x02u8]);
    assert_eq!(joined.len(), 2 + 300 + 1);
    // The same bytes split differently give different payloads.
    assert_ne!(union_unique(b"a", b"bc"), union_unique(b"ab", b"c"));
}

#[test]
fn varint_encodes_and_decodes() {
    for (n, bytes) in [
        (0u32, vec![0x00u8]),
        (127, vec![0x7F]),
        (128, vec![0x80, 0x01]),
        (300, vec![0xAC, 0x02]),
        (u32::MAX, vec![0xFF, 0xFF, 0xFF, 0xFF, 0x0F]),
    ] {
        let mut buf = Vec::new();
        write_u32(&mut buf, n);
        assert_eq!(buf, bytes);
        assert_eq!(u32_encode_size(n), bytes.len());
        assert_eq!(read_u32(&buf, 0), Ok((n, bytes.len())));
    }
    assert_eq!(read_u32(&[0x80, 0x00], 0), Err(CodecError::InvalidVarint));
    assert_eq!(read_u32(&[0xFF, 0xFF, 0xFF, 0xFF, 0x10], 0), Err(CodecError::InvalidVarint));
    assert_eq!(read_u32(&[0x80, 0x80], 0), Err(CodecError::EndOfBuffer));
    assert_eq!(read_u32(&[], 0), Err(CodecError::EndOfBuffer));
    assert_eq!(read_u32(&[0x05, 0x81, 0x01], 1), Ok((129, 3)));
}

#[test]
fn hex_is_lower_case() {
    assert_eq!(hex(&[0x00, 0xAB, 0x1F]), "00ab1f");
    assert_eq!(hex(&[]), "");
}

#[test]
fn keys_render_as_text() {
    let sk = PrivateKey::<Mayo1>::random(&mut rng(1));
    assert_eq!(
        sk.to_string(),
        "PrivateKey { variant: \"MAYO_1\", bytes: \"**FILTERED**\", .. }"
    );
    let sk5 = PrivateKey::<Mayo5>::random(&mut rng(1));
    assert_eq!(
        sk5.to_string(),
        "PrivateKey { variant: \"MAYO_5\", bytes: \"**FILTERED**\", .. }"
    );
    let pk = sk.public_key();
    assert_eq!(pk.to_string(), hex(pk.as_bytes()));
    assert_eq!(pk.to_string().len(), 2 * 1420);
    let sig = sk.sign(b"ns", b"msg").unwrap();
    assert_eq!(sig.to_string(), hex(sig.as_bytes()));
}

#[test]
fn key_generation_follows_the_seed() {
    let seed = [42u8; 24];
    let a = PrivateKey::<Mayo1>::from_seed(&seed).unwrap();
    let b = PrivateKey::<Mayo1>::from_seed(&seed).unwrap();
    assert_eq!(a.as_bytes(), &seed[..]);
    assert!(a == b);
    assert!(a.public_key() == b.public_key());
    assert_ne!(a.public_key().as_bytes(), &seed[..]);
    let c = PrivateKey::<Mayo2>::from_seed(&seed).unwrap();
    assert_eq!(c.public_key().as_bytes().len(), 4368);
    assert!(PrivateKey::<Mayo1>::from_seed(&[0u8; 23]).is_none());
    assert!(PrivateKey::<Mayo3>::from_seed(&[0u8; 24]).is_none());
    assert!(PrivateKey::<Mayo3>::from_seed(&[0u8; 32]).is_some());
    // The derived public key is that of pq-mayo.
    let kp = pq_mayo::KeyPair::<Mayo1>::from_seed(&seed).unwrap();
    assert_eq!(a.public_key().as_bytes(), kp.verifying_key().as_ref());
}

#[test]
fn random_keys_differ() {
    let a = PrivateKey::<Mayo1>::random(&mut rng(1));
    let b = PrivateKey::<Mayo1>::random(&mut rng(2));
    assert!(a != b);
    assert!(a.public_key() != b.public_key());
    let c = PrivateKey::<Mayo1>::random(&mut rng(1));
    assert!(a == c);
}

#[test]
fn signature_from_one_key_fails_under_another() {
    let a = PrivateKey::<Mayo2>::random(&mut rng(1));
    let b = PrivateKey::<Mayo2>::random(&mut rng(2));
    let sig = a.sign(NAMESPACE, b"payload").unwrap();
    assert!(a.public_key().verify(NAMESPACE, b"payload", &sig));
    assert!(!b.public_key().verify(NAMESPACE, b"payload", &sig));
    // Moving a byte between namespace and message changes the payload.
    let sig2 = a.sign(b"ab", b"c").unwrap();
    assert!(a.public_key().verify(b"ab", b"c", &sig2));
    assert!(!a.public_key().verify(b"a", b"bc", &sig2));
    // A signature of pq-mayo over the framed payload is accepted.
    let sk = pq_mayo::SigningKey::<Mayo2>::try_from(a.as_bytes()).unwrap();
    let raw = sk.try_sign(&union_unique(b"ns", b"m")).unwrap();
    let decoded = Signature::<Mayo2>::decode(raw.as_ref()).unwrap();
    assert!(a.public_key().verify(b"ns", b"m", &decoded));
}

#[test]
fn fixed_size_codec_errors() {
    assert_eq!(PublicKey::<Mayo1>::decode(&[0u8; 10]).err(), Some(CodecError::EndOfBuffer));
    assert_eq!(
        PublicKey::<Mayo1>::decode(&[0u8; 1421]).err(),
        Some(CodecError::ExtraData(1))
    );
    assert!(PublicKey::<Mayo1>::decode(&[0u8; 1420]).is_ok());
    assert_eq!(Signature::<Mayo1>::decode(&[0u8; 453]).err(), Some(CodecError::EndOfBuffer));
    assert_eq!(
        Signature::<Mayo1>::decode(&[0u8; 456]).err(),
        Some(CodecError::ExtraData(2))
    );
    assert_eq!(PrivateKey::<Mayo1>::decode(&[0u8; 23]).err(), Some(CodecError::EndOfBuffer));
    assert_eq!(
        PrivateKey::<Mayo1>::decode(&[0u8; 25]).err(),
        Some(CodecError::ExtraData(1))
    );
    let sk = PrivateKey::<Mayo1>::decode(&[9u8; 24]).unwrap();
    assert!(sk == PrivateKey::<Mayo1>::from_seed(&[9u8; 24]).unwrap());
    // The decoded key derives the same public key as pq-mayo does.
    let kp = pq_mayo::KeyPair::<Mayo1>::from_seed(&[9u8; 24]).unwrap();
    assert_eq!(sk.public_key().as_bytes(), kp.verifying_key().as_ref());
    let sk5 = PrivateKey::<Mayo5>::decode(&[4u8; 40]).unwrap();
    let kp5 = pq_mayo::KeyPair::<Mayo5>::from_seed(&[4u8; 40]).unwrap();
    assert_eq!(sk5.public_key().as_bytes(), kp5.verifying_key().as_ref());
    // Reading at an offset leaves what follows.
    let mut buf = vec![1u8, 2u8];
    sk.public_key().write(&mut buf);
    buf.push(3);
    let (pk, end) = PublicKey::<Mayo1>::read(&buf, 2).unwrap();
    assert!(pk == sk.public_key());
    assert_eq!(end, 2 + 1420);
}

#[test]
fn public_key_order_is_byte_order() {
    let a = PrivateKey::<Mayo1>::random(&mut rng(1)).public_key();
    let b = PrivateKey::<Mayo1>::random(&mut rng(2)).public_key();
    assert_eq!(a < b, a.as_bytes() < b.as_bytes());
    assert_eq!(a.less_than(&b), a.as_bytes() < b.as_bytes());
    assert_eq!(a.partial_cmp(&a), Some(core::cmp::Ordering::Equal));
    assert!(!a.less_than(&a));
}

#[test]
fn n3f1_quorums() {
    for (n, f, q) in [(0u32, 0u32, 0u32), (1, 0, 1), (3, 0, 3), (4, 1, 3), (7, 2, 5), (10, 3, 7)] {
        assert_eq!(N3f1::max_faults(n), f);
        assert_eq!(N3f1::quorum(n), q);
    }
}

#[test]
fn participant_set_orders_and_finds_keys() {
    let sks = keys(5);
    let pks: Vec<PublicKey<Mayo1>> = sks.iter().map(|k| k.public_key()).collect();
    let set = ParticipantSet::from_keys(pks.clone()).unwrap();
    assert_eq!(set.len(), 5);
    for i in 0..4u32 {
        let a = set.key(Participant::new(i)).unwrap();
        let b = set.key(Participant::new(i + 1)).unwrap();
        assert!(a.as_bytes() < b.as_bytes());
    }
    for pk in &pks {
        let index = set.index(pk).unwrap();
        assert!(set.key(index).unwrap() == pk);
    }
    assert!(set.key(Participant::new(5)).is_none());
    let outsider = PrivateKey::<Mayo1>::random(&mut rng(999)).public_key();
    assert!(set.index(&outsider).is_none());
    assert_eq!(set.quorum::<N3f1>(), 4);
    assert_eq!(set.max_faults::<N3f1>(), 1);

    let mut dup = pks.clone();
    dup.push(pks[2].clone());
    assert_eq!(ParticipantSet::from_keys(dup).err(), Some(SetError::DuplicateKey));
    assert_eq!(ParticipantSet::<Mayo1>::from_keys(Vec::new()).unwrap().len(), 0);
}

#[test]
fn signers_bitmap() {
    let signers = Signers::from(10, &[Participant::new(7), Participant::new(0), Participant::new(3)]);
    assert_eq!(signers.len(), 10);
    assert_eq!(signers.count(), 3);
    assert_eq!(
        signers.signers(),
        vec![Participant::new(0), Participant::new(3), Participant::new(7)]
    );
    assert!(signers.get(3));
    assert!(!signers.get(4));
    assert!(!signers.get(100));
    let mut buf = Vec::new();
    signers.write(&mut buf);
    assert_eq!(buf, vec![10u8, 0b1000_1001, 0b0000_0000]);
    assert_eq!(signers.encode_size(), 3);
    let (read, end) = Signers::read(&buf, 0, 10).unwrap();
    assert!(read == signers);
    assert_eq!(end, 3);
    assert_eq!(Signers::read(&buf, 0, 9).err(), Some(CodecError::InvalidLength(10)));
    assert_eq!(Signers::read(&[10u8, 0], 0, 10).err(), Some(CodecError::EndOfBuffer));
    assert_eq!(Signers::read(&[3u8, 0b0000_1000], 0, 10).err(), Some(CodecError::InvalidPadding));
    assert_eq!(Signers::read(&[0u8], 0, 10).map(|(s, e)| (s.len(), e)), Ok((0, 1)));
}

fn setup(n: u64) -> (Vec<PrivateKey<Mayo1>>, Vec<Generic<Mayo1, Vec<u8>>>, Generic<Mayo1, Vec<u8>>) {
    let sks = keys(n);
    let set = committee(&sks);
    let schemes = sks
        .iter()
        .map(|sk| Generic::signer(NAMESPACE, set.clone(), sk.clone()).unwrap())
        .collect();
    let verifier = Generic::new_verifier(NAMESPACE, set);
    (sks, schemes, verifier)
}

#[test]
fn signer_and_verifier_schemes() {
    let (sks, schemes, verifier) = setup(4);
    for (sk, scheme) in sks.iter().zip(&schemes) {
        let me = scheme.me().unwrap();
        assert!(scheme.participants.key(me).unwrap() == &sk.public_key());
        assert_eq!(scheme.namespace, NAMESPACE.to_vec());
    }
    assert!(verifier.me().is_none());
    assert!(verifier.sign(message(b"m")).is_none());
    let outsider = PrivateKey::<Mayo1>::random(&mut rng(999));
    assert!(Generic::<Mayo1, Vec<u8>>::signer(NAMESPACE, verifier.participants.clone(), outsider).is_none());
    assert_eq!(verifier.certificate_codec_config(), 4);
    assert_eq!(Generic::<Mayo1, Vec<u8>>::certificate_codec_config_unbounded(), u32::MAX as usize);
}

#[test]
fn attestations_verify_only_for_their_signer_and_subject() {
    let (_, schemes, verifier) = setup(4);
    let att = schemes[1].sign(message(b"vote")).unwrap();
    assert!(verifier.verify_attestation(message(b"vote"), &att));
    assert!(!verifier.verify_attestation(message(b"other"), &att));
    let moved = Attestation {
        signer: Participant::new((att.signer.get() + 1) % 4),
        signature: att.signature.clone(),
    };
    assert!(!verifier.verify_attestation(message(b"vote"), &moved));
    let out_of_range = Attestation {
        signer: Participant::new(4),
        signature: att.signature.clone(),
    };
    assert!(!verifier.verify_attestation(message(b"vote"), &out_of_range));
}

#[test]
fn assemble_and_verify_certificates() {
    let (_, schemes, verifier) = setup(4);
    let subject = message(b"block");
    let atts: Vec<Attestation<Mayo1>> =
        schemes.iter().rev().take(3).map(|s| s.sign(subject.clone()).unwrap()).collect();
    let signers: Vec<u32> = atts.iter().map(|a| a.signer.get()).collect();

    // Too few attestations.
    let two: Vec<Attestation<Mayo1>> = atts
        .iter()
        .take(2)
        .map(|a| Attestation { signer: a.signer, signature: a.signature.clone() })
        .collect();
    assert!(verifier.assemble::<N3f1>(two).is_none());

    // An attestation naming no participant.
    let mut bad: Vec<Attestation<Mayo1>> = atts
        .iter()
        .map(|a| Attestation { signer: a.signer, signature: a.signature.clone() })
        .collect();
    bad.push(Attestation { signer: Participant::new(9), signature: atts[0].signature.clone() });
    assert!(verifier.assemble::<N3f1>(bad).is_none());

    let copy: Vec<Attestation<Mayo1>> = atts
        .iter()
        .map(|a| Attestation { signer: a.signer, signature: a.signature.clone() })
        .collect();
    let certificate = verifier.assemble::<N3f1>(copy).unwrap();
    assert_eq!(certificate.signers.len(), 4);
    assert_eq!(certificate.signers.count(), 3);
    let mut sorted = signers.clone();
    sorted.sort();
    let listed: Vec<u32> = certificate.signers.signers().iter().map(|p| p.get()).collect();
    assert_eq!(listed, sorted);
    for (p, sig) in certificate.signers.signers().iter().zip(&certificate.signatures) {
        let att = atts.iter().find(|a| a.signer == *p).unwrap();
        assert!(att.signature == *sig);
    }
    assert!(verifier.verify_certificate::<_, N3f1>(subject.clone(), &certificate));
    assert!(!verifier.verify_certificate::<_, N3f1>(message(b"other"), &certificate));

    // Swapping two signatures breaks the certificate.
    let mut swapped = certificate.clone();
    swapped.signatures.swap(0, 1);
    assert!(!verifier.verify_certificate::<_, N3f1>(subject.clone(), &swapped));

    // Dropping a signature breaks the count.
    let mut short = certificate.clone();
    short.signatures.pop();
    assert!(!verifier.verify_certificate::<_, N3f1>(subject.clone(), &short));

    // A bitmap for another committee size is refused.
    let mut wide = certificate.clone();
    wide.signers = Signers::from(5, &certificate.signers.signers());
    assert!(!verifier.verify_certificate::<_, N3f1>(subject.clone(), &wide));

    // Fewer than a quorum of signers is refused.
    let mut few = certificate.clone();
    let kept = certificate.signers.signers();
    few.signers = Signers::from(4, &kept[..2]);
    few.signatures.pop();
    assert!(!verifier.verify_certificate::<_, N3f1>(subject.clone(), &few));

    // Encoding.
    let encoded = certificate.encode();
    assert_eq!(encoded.len(), certificate.encode_size());
    assert_eq!(encoded.len(), 2 + 1 + 3 * 454);
    let decoded = Certificate::<Mayo1>::decode(&encoded, 4).unwrap();
    assert!(decoded == certificate);
    assert!(verifier.verify_certificate::<_, N3f1>(subject, &decoded));
    let mut longer = encoded.clone();
    longer.push(0);
    assert_eq!(Certificate::<Mayo1>::decode(&longer, 4).err(), Some(CodecError::ExtraData(1)));
    assert_eq!(
        Certificate::<Mayo1>::decode(&encoded[..encoded.len() - 1], 4).err(),
        Some(CodecError::EndOfBuffer)
    );
    assert_eq!(Certificate::<Mayo1>::decode(&encoded, 3).err(), Some(CodecError::InvalidLength(4)));
}

#[test]
fn certificate_decoding_errors() {
    assert_eq!(Certificate::<Mayo1>::decode(&[], 4).err(), Some(CodecError::EndOfBuffer));
    // Four participants, nobody signed.
    assert_eq!(Certificate::<Mayo1>::decode(&[4, 0, 0], 4).err(), Some(CodecError::NoSigners));
    // One signer, but no signatures.
    assert_eq!(Certificate::<Mayo1>::decode(&[4, 1, 0], 4).err(), Some(CodecError::CountMismatch));
    // One signer, more signatures announced than participants.
    assert_eq!(Certificate::<Mayo1>::decode(&[4, 1, 5], 4).err(), Some(CodecError::InvalidLength(5)));
    // One signer, one signature announced, none present.
    assert_eq!(Certificate::<Mayo1>::decode(&[4, 1, 1], 4).err(), Some(CodecError::EndOfBuffer));
    // One signer, one signature.
    let mut buf = vec![4u8, 1, 1];
    buf.extend_from_slice(&[0u8; 454]);
    let c = Certificate::<Mayo1>::decode(&buf, 4).unwrap();
    assert_eq!(c.signers.signers(), vec![Participant::new(0)]);
    assert_eq!(c.signatures.len(), 1);
}

#[test]
fn assembling_ignores_attestation_order() {
    let (_, schemes, verifier) = setup(4);
    let subject = message(b"order");
    let atts: Vec<Attestation<Mayo1>> =
        schemes.iter().take(3).map(|s| s.sign(subject.clone()).unwrap()).collect();
    let reversed: Vec<Attestation<Mayo1>> = atts
        .iter()
        .rev()
        .map(|a| Attestation { signer: a.signer, signature: a.signature.clone() })
        .collect();
    let a = verifier.assemble::<N3f1>(atts).unwrap();
    let b = verifier.assemble::<N3f1>(reversed).unwrap();
    assert!(a == b);
    assert!(a.encode() == b.encode());
}

fn hash_of<T: std::hash::Hash>(value: &T) -> u64 {
    let mut state = std::collections::hash_map::DefaultHasher::new();
    value.hash(&mut state);
    std::hash::Hasher::finish(&state)
}

#[test]
fn equal_values_hash_alike() {
    let (sks, schemes, verifier) = setup(4);
    let pk = sks[0].public_key();
    let pk_decoded = PublicKey::<Mayo1>::decode(&pk.encode()).unwrap();
    assert_eq!(hash_of(&pk), hash_of(&pk_decoded));
    assert_ne!(hash_of(&pk), hash_of(&sks[1].public_key()));

    let sig = sks[0].sign(NAMESPACE, b"m").unwrap();
    let sig_decoded = Signature::<Mayo1>::decode(&sig.encode()).unwrap();
    assert_eq!(hash_of(&sig), hash_of(&sig_decoded));

    let atts: Vec<_> = schemes.iter().take(3).map(|s| s.sign(message(b"m")).unwrap()).collect();
    let cert = verifier.assemble::<N3f1>(atts).unwrap();
    let cert_decoded =
        Certificate::<Mayo1>::decode(&cert.encode(), verifier.certificate_codec_config()).unwrap();
    assert_eq!(hash_of(&cert), hash_of(&cert_decoded));

    let keys: std::collections::HashSet<PublicKey<Mayo1>> =
        vec![pk.clone(), pk_decoded, sks[1].public_key()].into_iter().collect();
    assert_eq!(keys.len(), 2);
}
