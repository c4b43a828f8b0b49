//! ECDSA P-256 SHA-256 signing and verification with fixed-width P-1363
//! `r || s` signatures. Private keys are handed around as their SEC1 DER,
//! public keys as their SEC1 point encoding.
//!
//! The signing and verification helpers take payload bytes, not digests:
//! they compute the SHA-256 digest themselves.
use crate::device_identity::public_key_spki_der_of;
use crate::digest::{sha256, sha256_digest};
use ecdsa::signature::hazmat::{PrehashVerifier, RandomizedPrehashSigner};
use p256::elliptic_curve::scalar::IsHigh;
use pkcs8::{DecodePrivateKey, DecodePublicKey};
use vstd::prelude::*;
use x509_cert::der::{Decode, Encode};

verus! {

/// Fixed-width signature length for P-1363 `(r || s)` on P-256.
pub const P256_P1363_SIGNATURE_LENGTH: usize = 64;

/// Errors returned by the P-256 helpers.
#[derive(Debug, Clone)]
pub enum P256SignatureError {
    /// Signature input is not exactly 64 bytes.
    InvalidSignatureLength { actual: usize },
    /// Signature rejected because `s` is not canonical low-S.
    NonCanonicalLowS,
    /// The `RustCrypto` stack rejected an operation.
    Crypto(String),
}

/// The SEC1 DER of the P-256 key that a PKCS#8 DER blob holds, as
/// `p256::SecretKey::from_pkcs8_der` and `to_sec1_der` compute it; `None`
/// where either fails.
pub uninterp spec fn pkcs8_key_as_sec1_of(der: Seq<u8>) -> Option<Seq<u8>>;

/// Calls `p256::SecretKey::from_pkcs8_der` and re-encodes the key with
/// `to_sec1_der`. The contract says that the result is the named function
/// of `der`; the error's text is not stated.
#[verifier::external_body]
fn pkcs8_key_as_sec1(der: &[u8]) -> (r: Result<Vec<u8>, String>)
    ensures
        match r {
            Ok(key) => pkcs8_key_as_sec1_of(der@) == Some(key@),
            Err(_) => pkcs8_key_as_sec1_of(der@) is None,
        },
{
    let key = p256::SecretKey::from_pkcs8_der(der).map_err(|error| error.to_string())?;
    key.to_sec1_der().map(|sec1| sec1.to_vec()).map_err(|error| error.to_string())
}

/// The SEC1 DER of the P-256 key that a SEC1 DER blob holds, as
/// `p256::SecretKey::from_sec1_der` and `to_sec1_der` compute it; `None`
/// where either fails.
pub uninterp spec fn sec1_key_as_sec1_of(der: Seq<u8>) -> Option<Seq<u8>>;

/// Calls `p256::SecretKey::from_sec1_der` and re-encodes the key with
/// `to_sec1_der`. The contract says that the result is the named function
/// of `der`; the error's text is not stated.
#[verifier::external_body]
fn sec1_key_as_sec1(der: &[u8]) -> (r: Result<Vec<u8>, String>)
    ensures
        match r {
            Ok(key) => sec1_key_as_sec1_of(der@) == Some(key@),
            Err(_) => sec1_key_as_sec1_of(der@) is None,
        },
{
    let key = p256::SecretKey::from_sec1_der(der).map_err(|error| error.to_string())?;
    key.to_sec1_der().map(|sec1| sec1.to_vec()).map_err(|error| error.to_string())
}

/// The key a stored private-key DER blob holds: PKCS#8 first, SEC1 second.
pub open spec fn parsed_private_key(der: Seq<u8>) -> Option<Seq<u8>> {
    match pkcs8_key_as_sec1_of(der) {
        Some(key) => Some(key),
        None => sec1_key_as_sec1_of(der),
    }
}

/// Parses a stored device signing key (SEC1, or PKCS#8 for converted
/// records) and returns it as SEC1 DER. The error is SEC1's.
pub fn parse_p256_private_key_der(der: &[u8]) -> (r: Result<Vec<u8>, P256SignatureError>)
    ensures
        match parsed_private_key(der@) {
            Some(key) => r matches Ok(k) && k@ == key,
            None => r matches Err(P256SignatureError::Crypto(_)),
        },
{
    match pkcs8_key_as_sec1(der) {
        Ok(key) => Ok(key),
        Err(_) => match sec1_key_as_sec1(der) {
            Ok(key) => Ok(key),
            Err(reason) => Err(P256SignatureError::Crypto(reason)),
        },
    }
}

/// The number that a big-endian byte string denotes.
pub open spec fn be_value(bytes: Seq<u8>) -> nat
    decreases bytes.len(),
{
    if bytes.len() == 0 {
        0
    } else {
        be_value(bytes.drop_last()) * 256 + bytes.last() as nat
    }
}

/// The order `n` of the P-256 group.
pub open spec fn p256_order() -> nat {
    0xffffffff00000000ffffffffffffffffbce6faada7179e84f3b9cac2fc632551nat
}

/// The `r` half of a P-1363 signature.
pub open spec fn p1363_r(signature: Seq<u8>) -> Seq<u8> {
    signature.subrange(0, 32)
}

/// The `s` half of a P-1363 signature.
pub open spec fn p1363_s(signature: Seq<u8>) -> Seq<u8> {
    signature.subrange(32, 64)
}

/// A P-1363 signature as P-256 takes it: 64 bytes, and both scalars in
/// `1..n`.
pub open spec fn p1363_well_formed(signature: Seq<u8>) -> bool {
    &&& signature.len() == P256_P1363_SIGNATURE_LENGTH
    &&& 0 < be_value(p1363_r(signature)) < p256_order()
    &&& 0 < be_value(p1363_s(signature)) < p256_order()
}

/// Whether `s` is in the canonical low half: at most `n / 2`.
pub open spec fn p1363_low_s(signature: Seq<u8>) -> bool {
    be_value(p1363_s(signature)) <= p256_order() / 2
}

/// A decoded P-256 ECDSA signature: its fixed-width `r || s` bytes.
#[derive(Debug, Clone, Copy)]
pub struct P256Signature {
    bytes: [u8; 64],
}

impl View for P256Signature {
    type V = Seq<u8>;

    closed spec fn view(&self) -> Seq<u8> {
        self.bytes@
    }
}

/// A P-256 verifying key: the SEC1 encoding of its public point.
#[derive(Debug, Clone)]
pub struct P256VerifyingKey {
    point: Vec<u8>,
}

impl View for P256VerifyingKey {
    type V = Seq<u8>;

    closed spec fn view(&self) -> Seq<u8> {
        self.point@
    }
}

/// Calls `p256::ecdsa::Signature::from_slice` and gives back the bytes of
/// the decoded signature (`to_bytes`). The contract says, as the source
/// shows, that decoding succeeds exactly on 64 bytes whose two big-endian
/// scalars lie in `1..n`, and that it keeps the bytes.
#[verifier::external_body]
fn p1363_from_slice(signature: &[u8]) -> (r: Result<[u8; 64], String>)
    ensures
        match r {
            Ok(bytes) => p1363_well_formed(signature@) && bytes@ == signature@,
            Err(_) => !p1363_well_formed(signature@),
        },
{
    let decoded = p256::ecdsa::Signature::from_slice(signature).map_err(|error| error.to_string())?;
    Ok(decoded.to_bytes().into())
}

/// Calls `is_high` on the `s` scalar of a decoded signature. The contract
/// says, as the source shows, that `s` is high when it exceeds `n / 2`.
#[verifier::external_body]
fn p1363_s_is_high(signature: &[u8; 64]) -> (r: bool)
    requires
        p1363_well_formed(signature@),
    ensures
        r == !p1363_low_s(signature@),
{
    match p256::ecdsa::Signature::from_slice(signature) {
        Ok(decoded) => decoded.s().is_high().into(),
        Err(_) => false,
    }
}

/// Whether `VerifyingKey::verify_prehash` of `p256::ecdsa` accepts the
/// signature of the prehash under the public point (false where the point
/// or the signature does not decode).
pub uninterp spec fn p256_prehash_verifies_of(point: Seq<u8>, prehash: Seq<u8>, signature: Seq<u8>) -> bool;

/// Decodes the point and the signature and calls `verify_prehash`. The
/// contract says that the answer is the named function of the arguments.
#[verifier::external_body]
fn p256_verify_prehash(point: &[u8], prehash: &[u8], signature: &[u8; 64]) -> (r: bool)
    ensures
        r == p256_prehash_verifies_of(point@, prehash@, signature@),
{
    let key = match p256::ecdsa::VerifyingKey::from_sec1_bytes(point) {
        Ok(key) => key,
        Err(_) => return false,
    };
    match p256::ecdsa::Signature::from_slice(signature) {
        Ok(decoded) => key.verify_prehash(prehash, &decoded).is_ok(),
        Err(_) => false,
    }
}

/// The SEC1 point of the P-256 public key that a SubjectPublicKeyInfo DER
/// blob holds, as `p256::PublicKey::from_public_key_der` and
/// `to_sec1_bytes` compute it; `None` where decoding fails.
pub uninterp spec fn spki_public_point_of(spki_der: Seq<u8>) -> Option<Seq<u8>>;

/// Calls `p256::PublicKey::from_public_key_der` and `to_sec1_bytes`. The
/// contract says that the point is the named function of the DER; the
/// error's text is not stated.
#[verifier::external_body]
fn spki_public_point(spki_der: &[u8]) -> (r: Result<Vec<u8>, String>)
    ensures
        match r {
            Ok(point) => spki_public_point_of(spki_der@) == Some(point@),
            Err(_) => spki_public_point_of(spki_der@) is None,
        },
{
    let key = p256::PublicKey::from_public_key_der(spki_der).map_err(|error| error.to_string())?;
    Ok(key.to_sec1_bytes().to_vec())
}

/// The DER SubjectPublicKeyInfo of the subject of a DER X.509 certificate,
/// as `x509_cert::Certificate::from_der` decodes it (trailing bytes are
/// refused) and `to_der` encodes it; `None` where either fails.
pub uninterp spec fn certificate_spki_der_of(cert_der: Seq<u8>) -> Option<Seq<u8>>;

/// Decodes the certificate with `x509-cert` and re-encodes its subject's
/// public key info. The contract says that the DER is the named function of
/// the certificate; the error's text is not stated.
#[verifier::external_body]
fn certificate_spki_der(cert_der: &[u8]) -> (r: Result<Vec<u8>, String>)
    ensures
        match r {
            Ok(spki) => certificate_spki_der_of(cert_der@) == Some(spki@),
            Err(_) => certificate_spki_der_of(cert_der@) is None,
        },
{
    let certificate = x509_cert::Certificate::from_der(cert_der).map_err(|error| error.to_string())?;
    certificate.tbs_certificate().subject_public_key_info().to_der().map_err(|error| error.to_string())
}

/// `signature` is one that the P-256 key with SEC1 DER `private_key` made
/// over `prehash`: well formed, low-S, and (for a 32-byte prehash) accepted
/// under the key's own public point.
pub open spec fn p1363_signed_by(private_key: Seq<u8>, prehash: Seq<u8>, signature: Seq<u8>) -> bool {
    &&& p1363_well_formed(signature)
    &&& p1363_low_s(signature)
    &&& prehash.len() == 32 ==> forall|spki: Seq<u8>, point: Seq<u8>|
        public_key_spki_der_of(private_key) == Some(spki) && #[trigger] spki_public_point_of(spki) == Some(point)
            ==> #[trigger] p256_prehash_verifies_of(point, prehash, signature)
}

/// Decodes the SEC1 DER key and calls `sign_prehash_with_rng` of
/// `p256::ecdsa::SigningKey` with the operating system's generator, then
/// `normalize_s`. The signature is randomised: the contract states what
/// holds of every one the key makes (ECDSA signatures verify under the
/// signer's public key, and `normalize_s` leaves `s` low), not which one
/// comes back, nor the error's text.
#[verifier::external_body]
pub(crate) fn sign_prehash_p1363(private_key: &[u8], prehash: &[u8]) -> (r: Result<[u8; 64], String>)
    ensures
        r matches Ok(signature) ==> p1363_signed_by(private_key@, prehash@, signature@),
{
    let key = p256::SecretKey::from_sec1_der(private_key).map_err(|error| error.to_string())?;
    let signing_key = p256::ecdsa::SigningKey::from(key);
    let signature: p256::ecdsa::Signature =
        signing_key.sign_prehash_with_rng(&mut rand::rngs::SysRng, prehash).map_err(|error| error.to_string())?;
    Ok(signature.normalize_s().to_bytes().into())
}

/// The ASN.1 DER encoding of a well-formed P-1363 signature, as
/// `p256::ecdsa::Signature::to_der` computes it.
pub uninterp spec fn p1363_der_of(signature: Seq<u8>) -> Seq<u8>;

/// Decodes the signature and calls `to_der`. The contract says that the
/// DER is the named function of the signature.
#[verifier::external_body]
pub(crate) fn p1363_signature_der(signature: &[u8; 64]) -> (r: Vec<u8>)
    requires
        p1363_well_formed(signature@),
    ensures
        r@ == p1363_der_of(signature@),
{
    match p256::ecdsa::Signature::from_slice(signature) {
        Ok(decoded) => decoded.to_der().as_bytes().to_vec(),
        Err(_) => Vec::new(),
    }
}

/// Signs `payload` bytes with SHA-256 + P-256 and returns fixed-width
/// P-1363 bytes with a canonical low `s`. The nonce is random.
pub fn sign_p256_sha256_p1363(private_key: &[u8], payload: &[u8]) -> (r: Result<[u8; 64], P256SignatureError>)
    ensures
        match r {
            Ok(signature) => p1363_signed_by(private_key@, sha256_digest(payload@), signature@),
            Err(e) => e is Crypto,
        },
{
    let digest = sha256(payload);
    match sign_prehash_p1363(private_key, &digest) {
        Ok(signature) => Ok(signature),
        Err(reason) => Err(P256SignatureError::Crypto(reason)),
    }
}

/// Encodes an ECDSA P-256 signature as fixed-width P-1363 `r || s` bytes.
pub fn encode_p256_p1363_signature(signature: &P256Signature) -> (r: [u8; 64])
    ensures
        r@ == signature@,
{
    signature.bytes
}

/// Decodes fixed-width P-1363 `r || s` bytes into an ECDSA P-256
/// signature: the length must be 64 and both scalars must lie in `1..n`.
pub fn decode_p256_p1363_signature(signature: &[u8]) -> (r: Result<P256Signature, P256SignatureError>)
    ensures
        signature@.len() != P256_P1363_SIGNATURE_LENGTH ==> (r matches Err(P256SignatureError::InvalidSignatureLength { actual })
            && actual == signature@.len()),
        signature@.len() == P256_P1363_SIGNATURE_LENGTH ==> match r {
            Ok(decoded) => p1363_well_formed(signature@) && decoded@ == signature@,
            Err(e) => !p1363_well_formed(signature@) && e is Crypto,
        },
{
    if signature.len() != P256_P1363_SIGNATURE_LENGTH {
        return Err(P256SignatureError::InvalidSignatureLength { actual: signature.len() });
    }
    match p1363_from_slice(signature) {
        Ok(bytes) => Ok(P256Signature { bytes }),
        Err(reason) => Err(P256SignatureError::Crypto(reason)),
    }
}

/// Whether verification accepts: a well-formed low-S signature that the
/// key's point accepts over the payload's SHA-256 digest.
pub open spec fn p1363_accepts(point: Seq<u8>, payload: Seq<u8>, signature: Seq<u8>) -> bool {
    &&& p1363_well_formed(signature)
    &&& p1363_low_s(signature)
    &&& p256_prehash_verifies_of(point, sha256_digest(payload), signature)
}

/// Verifies a SHA-256 + P-256 P-1363 signature. A signature of the wrong
/// length, with a scalar out of range, or with a high `s` is an error;
/// otherwise the answer is whether the key accepts it.
pub fn verify_p256_sha256_p1363(public_key: &P256VerifyingKey, payload: &[u8], signature: &[u8]) -> (r: Result<
    bool,
    P256SignatureError,
>)
    ensures
        signature@.len() != P256_P1363_SIGNATURE_LENGTH ==> (r matches Err(P256SignatureError::InvalidSignatureLength { actual })
            && actual == signature@.len()),
        signature@.len() == P256_P1363_SIGNATURE_LENGTH && !p1363_well_formed(signature@) ==> r matches Err(
            P256SignatureError::Crypto(_),
        ),
        p1363_well_formed(signature@) && !p1363_low_s(signature@) ==> r matches Err(P256SignatureError::NonCanonicalLowS),
        p1363_well_formed(signature@) && p1363_low_s(signature@) ==> r == Ok::<bool, P256SignatureError>(
            p256_prehash_verifies_of(public_key@, sha256_digest(payload@), signature@),
        ),
        r == Ok::<bool, P256SignatureError>(true) <==> p1363_accepts(public_key@, payload@, signature@),
{
    let decoded = decode_p256_p1363_signature(signature)?;
    let bytes = encode_p256_p1363_signature(&decoded);
    if p1363_s_is_high(&bytes) {
        return Err(P256SignatureError::NonCanonicalLowS);
    }
    let digest = sha256(payload);
    Ok(p256_verify_prehash(&public_key.point, &digest, &bytes))
}

/// Parses a `SubjectPublicKeyInfo` DER blob into a P-256 verifying key.
pub fn parse_p256_public_key_spki_der(spki_der: &[u8]) -> (r: Result<P256VerifyingKey, P256SignatureError>)
    ensures
        match spki_public_point_of(spki_der@) {
            Some(point) => r matches Ok(key) && key@ == point,
            None => r matches Err(P256SignatureError::Crypto(_)),
        },
{
    match spki_public_point(spki_der) {
        Ok(point) => Ok(P256VerifyingKey { point }),
        Err(reason) => Err(P256SignatureError::Crypto(reason)),
    }
}

/// Extracts the P-256 verifying key from a DER X.509 certificate: the
/// subject's public key info must be `id-ecPublicKey` on P-256.
pub fn parse_p256_public_key_cert_der(cert_der: &[u8]) -> (r: Result<P256VerifyingKey, P256SignatureError>)
    ensures
        match certificate_spki_der_of(cert_der@) {
            Some(spki) => match spki_public_point_of(spki) {
                Some(point) => r matches Ok(key) && key@ == point,
                None => r matches Err(P256SignatureError::Crypto(_)),
            },
            None => r matches Err(P256SignatureError::Crypto(_)),
        },
{
    let spki = match certificate_spki_der(cert_der) {
        Ok(spki) => spki,
        Err(reason) => return Err(P256SignatureError::Crypto(reason)),
    };
    parse_p256_public_key_spki_der(&spki)
}

/// A signature that `sign_p256_sha256_p1363` makes with a key is accepted by
/// `verify_p256_sha256_p1363` under that key's public key, read from the
/// key's SubjectPublicKeyInfo.
pub proof fn lemma_signed_payload_verifies(
    private_key: Seq<u8>,
    payload: Seq<u8>,
    signature: Seq<u8>,
    spki: Seq<u8>,
    point: Seq<u8>,
)
    requires
        p1363_signed_by(private_key, sha256_digest(payload), signature),
        sha256_digest(payload).len() == 32,
        public_key_spki_der_of(private_key) == Some(spki),
        spki_public_point_of(spki) == Some(point),
    ensures
        p1363_accepts(point, payload, signature),
{
}

} // verus!
