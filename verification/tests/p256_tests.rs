use ecdsa::signature::Verifier;
use p256::ecdsa::{DerSignature, VerifyingKey};
use pkcs8::DecodePublicKey;
use sha2::{Digest, Sha256};
use x509_cert::der::{Decode, Encode};
use x509_cert::request::CertReq;
use zmanager_core::device_identity::{
    ensure_recipient_key_is_distinct_from_signing_key, format_sha256_fingerprint, generate_device_csr_from_private_key,
    generate_device_signing_key_and_csr, generate_recipient_encryption_key, TzapDeviceCsrOptions, DEVICE_CSR_COMMON_NAME,
    RECIPIENT_ENCRYPTION_KEY_ALGORITHM,
};
use zmanager_core::p256_signature::{
    decode_p256_p1363_signature, encode_p256_p1363_signature, parse_p256_private_key_der, parse_p256_public_key_cert_der,
    parse_p256_public_key_spki_der, sign_p256_sha256_p1363, verify_p256_sha256_p1363, P256SignatureError, P256VerifyingKey,
    P256_P1363_SIGNATURE_LENGTH,
};

const ORDER: [u8; 32] = [
    0xff, 0xff, 0xff, 0xff, 0x00, 0x00, 0x00, 0x00, 0xff, 0xff, 0xff, 0xff, 0xff, 0xff, 0xff, 0xff, 0xbc, 0xe6, 0xfa, 0xad, 0xa7, 0x17, 0x9e, 0x84,
    0xf3, 0xb9, 0xca, 0xc2, 0xfc, 0x63, 0x25, 0x51,
];

fn test_keys() -> (Vec<u8>, P256VerifyingKey) {
    let material = generate_device_signing_key_and_csr(&TzapDeviceCsrOptions::default()).unwrap();
    let public = parse_p256_public_key_spki_der(&material.public_key_spki_der).unwrap();
    (material.private_key_der, public)
}

fn is_sha256_fingerprint(text: &str) -> bool {
    match text.strip_prefix("sha256:") {
        Some(hex) => hex.len() == 64 && hex.bytes().all(|b| b.is_ascii_digit() || (b'a'..=b'f').contains(&b)),
        None => false,
    }
}

/// `ORDER - value` over 32 big-endian bytes.
fn order_minus(value: &[u8]) -> [u8; 32] {
    let mut out = [0u8; 32];
    let mut borrow = 0i16;
    for i in (0..32).rev() {
        let mut d = ORDER[i] as i16 - value[i] as i16 - borrow;
        if d < 0 {
            d += 256;
            borrow = 1;
        } else {
            borrow = 0;
        }
        out[i] = d as u8;
    }
    out
}

fn csr_verifies(csr_der: &[u8]) -> (bool, Vec<u8>) {
    let csr = CertReq::from_der(csr_der).unwrap();
    let spki = csr.info.public_key.to_der().unwrap();
    let key = VerifyingKey::from_public_key_der(&spki).unwrap();
    let signature = DerSignature::from_bytes(csr.signature.raw_bytes()).unwrap();
    let info = csr.info.to_der().unwrap();
    (key.verify(&info, &signature).is_ok(), spki)
}

#[test]
fn p256_signature_is_64_bytes_and_rejects_wrong_key_or_tamper() {
    let (private, public) = test_keys();
    let payload = b"deterministic payload";

    let signature = sign_p256_sha256_p1363(&private, payload).unwrap();
    assert_eq!(signature.len(), P256_P1363_SIGNATURE_LENGTH);

    assert!(verify_p256_sha256_p1363(&public, payload, &signature).unwrap());
    assert!(!verify_p256_sha256_p1363(&public, &Sha256::digest(payload), &signature).unwrap());

    let tampered_payload = b"tampered payload";
    assert!(!verify_p256_sha256_p1363(&public, tampered_payload, &signature).unwrap());

    let (_other_private, other_public) = test_keys();
    assert!(!verify_p256_sha256_p1363(&other_public, payload, &signature).unwrap());
}

#[test]
fn p256_p1363_decode_requires_fixed_width() {
    let (private, _public) = test_keys();
    let signature = sign_p256_sha256_p1363(&private, b"p1363 payload").unwrap();
    let decoded = decode_p256_p1363_signature(&signature).unwrap();

    assert_eq!(encode_p256_p1363_signature(&decoded), signature);
    assert!(matches!(
        decode_p256_p1363_signature(&signature[..P256_P1363_SIGNATURE_LENGTH - 1]),
        Err(P256SignatureError::InvalidSignatureLength { actual })
            if actual == P256_P1363_SIGNATURE_LENGTH - 1
    ));
}

#[test]
fn p256_signature_nonces_are_csprng_non_deterministic() {
    let (private, _public) = test_keys();
    let payload = b"nonce check payload";

    let first = sign_p256_sha256_p1363(&private, payload).unwrap();
    let second = sign_p256_sha256_p1363(&private, payload).unwrap();

    assert_ne!(first, second);
}

#[test]
fn p256_verification_rejects_high_s_signature() {
    let (private, public) = test_keys();
    let payload = b"high-s check payload";

    let signature = sign_p256_sha256_p1363(&private, payload).unwrap();

    let mut high_signature = signature;
    let high_s = order_minus(&signature[P256_P1363_SIGNATURE_LENGTH / 2..]);
    high_signature[P256_P1363_SIGNATURE_LENGTH / 2..].copy_from_slice(&high_s);

    let result = verify_p256_sha256_p1363(&public, payload, &high_signature);
    assert!(matches!(result, Err(P256SignatureError::NonCanonicalLowS)));
}

#[test]
fn p1363_scalars_out_of_range_are_refused() {
    let (_private, public) = test_keys();
    let zeros = [0u8; 64];
    assert!(matches!(decode_p256_p1363_signature(&zeros), Err(P256SignatureError::Crypto(_))));
    let mut order_r = [1u8; 64];
    order_r[..32].copy_from_slice(&ORDER);
    assert!(matches!(decode_p256_p1363_signature(&order_r), Err(P256SignatureError::Crypto(_))));
    assert!(matches!(verify_p256_sha256_p1363(&public, b"x", &order_r), Err(P256SignatureError::Crypto(_))));
    assert!(matches!(
        verify_p256_sha256_p1363(&public, b"x", &[1u8; 65]),
        Err(P256SignatureError::InvalidSignatureLength { actual: 65 })
    ));
}

#[test]
fn public_keys_that_are_not_p256_spki_are_refused() {
    assert!(matches!(parse_p256_public_key_spki_der(&[0x30, 0x00]), Err(P256SignatureError::Crypto(_))));
    assert!(matches!(parse_p256_public_key_cert_der(b"not a certificate"), Err(P256SignatureError::Crypto(_))));
    assert!(parse_p256_private_key_der(b"not a key").is_err());
}

#[test]
fn device_signing_key_generation_returns_p256_key_and_csr() {
    let material = generate_device_signing_key_and_csr(&TzapDeviceCsrOptions::default()).unwrap();

    assert!(!material.private_key_der.is_empty());
    assert!(!material.public_key_spki_der.is_empty());
    assert!(is_sha256_fingerprint(&material.public_key_fingerprint));
    assert!(is_sha256_fingerprint(&material.csr_sha256));

    assert!(parse_p256_private_key_der(&material.private_key_der).is_ok());

    let (verifies, spki) = csr_verifies(&material.csr_der);
    assert!(verifies);
    assert_eq!(spki, material.public_key_spki_der);
    let csr = CertReq::from_der(&material.csr_der).unwrap();
    assert!(csr.info.subject.to_string().contains(DEVICE_CSR_COMMON_NAME));

    let csr_digest: [u8; 32] = Sha256::digest(&material.csr_der).into();
    assert_eq!(material.csr_sha256, format_sha256_fingerprint(&csr_digest));
}

#[test]
fn existing_device_key_can_rebuild_a_valid_csr() {
    let material = generate_device_signing_key_and_csr(&TzapDeviceCsrOptions::default()).unwrap();

    let rebuilt = generate_device_csr_from_private_key(&material.private_key_der, &TzapDeviceCsrOptions::default()).unwrap();
    let (verifies, spki) = csr_verifies(&rebuilt);

    assert!(verifies);
    assert_eq!(spki, material.public_key_spki_der);
}

#[test]
fn recipient_encryption_key_generation_is_separate_from_signing_keys() {
    let signing_key = generate_device_signing_key_and_csr(&TzapDeviceCsrOptions::default()).unwrap();
    let recipient_key = generate_recipient_encryption_key().unwrap();

    assert_eq!(recipient_key.algorithm, RECIPIENT_ENCRYPTION_KEY_ALGORITHM);
    assert!(!recipient_key.private_key_der.is_empty());
    assert!(!recipient_key.public_key_spki_der.is_empty());
    assert!(is_sha256_fingerprint(&recipient_key.public_key_fingerprint));
    ensure_recipient_key_is_distinct_from_signing_key(&signing_key.public_key_fingerprint, &recipient_key.public_key_fingerprint).unwrap();

    assert!(parse_p256_private_key_der(&recipient_key.private_key_der).is_ok());
}

fn der(tag: u8, contents: &[u8]) -> Vec<u8> {
    let mut out = vec![tag];
    let len = contents.len();
    if len < 0x80 {
        out.push(len as u8);
    } else if len < 0x100 {
        out.extend_from_slice(&[0x81, len as u8]);
    } else {
        out.extend_from_slice(&[0x82, (len >> 8) as u8, len as u8]);
    }
    out.extend_from_slice(contents);
    out
}

/// A minimal version-1 certificate for the key: serial 1, empty names, a
/// fixed validity and a placeholder signature.
fn certificate_with_key(spki: &[u8]) -> Vec<u8> {
    let algorithm = [0x30, 0x0a, 0x06, 0x08, 0x2a, 0x86, 0x48, 0xce, 0x3d, 0x04, 0x03, 0x02];
    let mut validity = der(0x17, b"250101000000Z");
    validity.extend(der(0x17, b"350101000000Z"));
    let mut tbs = vec![0x02, 0x01, 0x01];
    tbs.extend_from_slice(&algorithm);
    tbs.extend_from_slice(&[0x30, 0x00]);
    tbs.extend(der(0x30, &validity));
    tbs.extend_from_slice(&[0x30, 0x00]);
    tbs.extend_from_slice(spki);
    let mut certificate = der(0x30, &tbs);
    certificate.extend_from_slice(&algorithm);
    certificate.extend_from_slice(&[0x03, 0x02, 0x00, 0x00]);
    der(0x30, &certificate)
}

#[test]
fn certificate_public_key_verifies_the_keys_signatures() {
    let material = generate_device_signing_key_and_csr(&TzapDeviceCsrOptions::default()).unwrap();
    let certificate = certificate_with_key(&material.public_key_spki_der);
    let public = parse_p256_public_key_cert_der(&certificate).unwrap();
    let signature = sign_p256_sha256_p1363(&material.private_key_der, b"certified payload").unwrap();
    assert!(verify_p256_sha256_p1363(&public, b"certified payload", &signature).unwrap());
    let mut trailing = certificate.clone();
    trailing.push(0);
    assert!(matches!(parse_p256_public_key_cert_der(&trailing), Err(P256SignatureError::Crypto(_))));
}
