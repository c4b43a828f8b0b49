//! Local TZAP device-signing key generation and CSR helpers.
use crate::digest::{sha256, sha256_digest};
use crate::hex::{hex_lower, hex_lower_spec};
use crate::p256_signature::{
    lemma_signed_payload_verifies, p1363_accepts, p1363_der_of, p1363_signature_der, p1363_signed_by, parse_p256_private_key_der,
    sign_prehash_p1363, spki_public_point_of, P256SignatureError,
};
use crate::text::{chars_of, concat_chars, string_from_chars};
use p256::elliptic_curve::Generate;
use pkcs8::EncodePublicKey;
use vstd::prelude::*;
use x509_cert::attr::AttributeTypeAndValue;
use x509_cert::der::asn1::{BitString, ObjectIdentifier, Utf8StringRef};
use x509_cert::der::{Decode, Encode, Error as DerError};
use x509_cert::name::{Name, RdnSequence, RelativeDistinguishedName};
use x509_cert::request::{CertReq, CertReqInfo, Version};
use x509_cert::spki::{AlgorithmIdentifierOwned, SubjectPublicKeyInfoOwned};

verus! {

/// Object identifier of the X.520 `commonName` attribute.
pub const OID_COMMON_NAME: &'static str = "2.5.4.3";

/// Object identifier of `ecdsa-with-SHA256`.
pub const OID_ECDSA_WITH_SHA256: &'static str = "1.2.840.10045.4.3.2";

/// The common name a device CSR carries by default.
pub const DEVICE_CSR_COMMON_NAME: &'static str = "TZAP Device Signing Key";

/// The algorithm label of a recipient encryption key.
pub const RECIPIENT_ENCRYPTION_KEY_ALGORITHM: &'static str = "P-256-SPKI";

/// Options for a device certificate signing request.
#[derive(Debug, Clone)]
pub struct TzapDeviceCsrOptions {
    pub common_name: String,
}

impl Default for TzapDeviceCsrOptions {
    fn default() -> (r: Self)
        ensures
            r.common_name@ == DEVICE_CSR_COMMON_NAME@,
    {
        TzapDeviceCsrOptions { common_name: DEVICE_CSR_COMMON_NAME.to_string() }
    }
}

/// A freshly generated device signing key with its CSR.
#[derive(Debug, Clone)]
pub struct TzapDeviceSigningKeyMaterial {
    /// SEC1 DER of the private key.
    pub private_key_der: Vec<u8>,
    pub public_key_spki_der: Vec<u8>,
    pub public_key_fingerprint: String,
    pub csr_der: Vec<u8>,
    pub csr_sha256: String,
}

/// A freshly generated recipient encryption key.
#[derive(Debug, Clone)]
pub struct TzapRecipientEncryptionKeyMaterial {
    pub algorithm: &'static str,
    /// SEC1 DER of the private key.
    pub private_key_der: Vec<u8>,
    pub public_key_spki_der: Vec<u8>,
    pub public_key_fingerprint: String,
}

/// Device identity errors.
#[derive(Debug, Clone)]
pub enum TzapDeviceIdentityError {
    EmptyCommonName,
    RecipientKeyReusesSigningKey,
    Crypto(String),
}

/// The message of a device identity error.
pub open spec fn identity_error_text(e: TzapDeviceIdentityError) -> Seq<char> {
    match e {
        TzapDeviceIdentityError::EmptyCommonName => "device CSR common name is empty"@,
        TzapDeviceIdentityError::RecipientKeyReusesSigningKey => "recipient encryption key reuses signing key material"@,
        TzapDeviceIdentityError::Crypto(reason) => "device identity crypto operation failed: "@ + reason@,
    }
}

impl TzapDeviceIdentityError {
    /// The error's message.
    pub fn to_text(&self) -> (r: String)
        ensures
            r@ == identity_error_text(*self),
    {
        match self {
            TzapDeviceIdentityError::EmptyCommonName => "device CSR common name is empty".to_string(),
            TzapDeviceIdentityError::RecipientKeyReusesSigningKey => {
                "recipient encryption key reuses signing key material".to_string()
            },
            TzapDeviceIdentityError::Crypto(reason) => {
                let a = chars_of("device identity crypto operation failed: ");
                let b = chars_of(reason.as_str());
                string_from_chars(&concat_chars(&a, &b))
            },
        }
    }
}

/// The fingerprint text of a SHA-256 digest: `sha256:` and the lower-case
/// hex digits.
pub open spec fn sha256_fingerprint_text(digest: Seq<u8>) -> Seq<char> {
    "sha256:"@ + hex_lower_spec(digest)
}

/// The fingerprint of a DER blob: its SHA-256 digest as fingerprint text.
pub open spec fn der_fingerprint(der: Seq<u8>) -> Seq<char> {
    sha256_fingerprint_text(crate::digest::sha256_digest(der))
}

/// Formats a SHA-256 digest as fingerprint text.
pub fn format_sha256_fingerprint(digest: &[u8]) -> (r: String)
    ensures
        r@ == sha256_fingerprint_text(digest@),
{
    let prefix = chars_of("sha256:");
    let hex = hex_lower(digest);
    let digits = chars_of(hex.as_str());
    string_from_chars(&concat_chars(&prefix, &digits))
}

pub(crate) fn spki_fingerprint(spki_der: &[u8]) -> (r: String)
    ensures
        r@ == der_fingerprint(spki_der@),
{
    let digest = sha256(spki_der);
    format_sha256_fingerprint(&digest)
}

/// The fingerprint of a DER certificate signing request.
pub fn csr_fingerprint(csr_der: &[u8]) -> (r: String)
    ensures
        r@ == der_fingerprint(csr_der@),
{
    let digest = sha256(csr_der);
    format_sha256_fingerprint(&digest)
}

/// Calls `p256::SecretKey::try_generate_from_rng` with the operating
/// system's generator and encodes the key with `to_sec1_der`. The key is
/// random: of it is stated only that its encoding, the DER of an
/// `ECPrivateKey` sequence, is not empty, that `from_sec1_der` reads it back
/// to the same key (so re-encoding gives the same bytes), and that it has a
/// public key; nothing of the error's text.
#[verifier::external_body]
fn generate_p256_private_key() -> (r: Result<Vec<u8>, String>)
    ensures
        r matches Ok(key) ==> key@.len() > 0,
        r matches Ok(key) ==> crate::p256_signature::sec1_key_as_sec1_of(key@) == Some(key@),
        r matches Ok(key) ==> public_key_spki_der_of(key@) is Some,
{
    let key = p256::SecretKey::try_generate_from_rng(&mut rand::rngs::SysRng).map_err(|error| error.to_string())?;
    key.to_sec1_der().map(|der| der.to_vec()).map_err(|error| error.to_string())
}

/// The SubjectPublicKeyInfo DER of the public key of the P-256 key given by
/// its SEC1 DER, as `from_sec1_der` and `to_public_key_der` compute it;
/// `None` where either fails.
pub uninterp spec fn public_key_spki_der_of(private_key: Seq<u8>) -> Option<Seq<u8>>;

/// Calls `p256::SecretKey::from_sec1_der` and `to_public_key_der` on its
/// public key. The contract says that the DER is the named function of the
/// key; the error's text is not stated.
#[verifier::external_body]
pub(crate) fn public_key_spki_der(private_key: &[u8]) -> (r: Result<Vec<u8>, String>)
    ensures
        match r {
            Ok(der) => public_key_spki_der_of(private_key@) == Some(der@),
            Err(_) => public_key_spki_der_of(private_key@) is None,
        },
{
    let key = p256::SecretKey::from_sec1_der(private_key).map_err(|error| error.to_string())?;
    key.public_key().to_public_key_der().map(|der| der.as_bytes().to_vec()).map_err(|error| error.to_string())
}

/// The DER X.501 name made of one relative name holding the one attribute
/// `oid = value` as a UTF8String, as `x509-cert` encodes it; `None` where
/// that fails.
pub uninterp spec fn single_attribute_name_der_of(oid: Seq<char>, value: Seq<char>) -> Option<Seq<u8>>;

/// Builds and encodes an `RdnSequence` through `x509-cert`. The contract
/// says that the DER is the named function of the arguments; the error's
/// text is not stated.
#[verifier::external_body]
fn single_attribute_name_der(oid: &str, value: &str) -> (r: Result<Vec<u8>, String>)
    ensures
        match r {
            Ok(der) => single_attribute_name_der_of(oid@, value@) == Some(der@),
            Err(_) => single_attribute_name_der_of(oid@, value@) is None,
        },
{
    let e = |error: DerError| error.to_string();
    let text = Utf8StringRef::new(value).map_err(e)?;
    let oid = ObjectIdentifier::new(oid).map_err(|error| error.to_string())?;
    let attribute = AttributeTypeAndValue { oid, value: x509_cert::der::asn1::Any::encode_from(&text).map_err(e)? };
    let mut names = RdnSequence::default();
    names.push(RelativeDistinguishedName::try_from(vec![attribute]).map_err(e)?);
    names.to_der().map_err(e)
}

/// The DER `CertificationRequestInfo` (version 1, no attributes) for the
/// DER subject name and the DER SubjectPublicKeyInfo, as `x509-cert`
/// encodes it; `None` where that fails.
pub uninterp spec fn csr_info_der_of(spki_der: Seq<u8>, subject_der: Seq<u8>) -> Option<Seq<u8>>;

/// Decodes the parts and encodes a `CertReqInfo` through `x509-cert`. The
/// contract says that the DER is the named function of the arguments; the
/// error's text is not stated.
#[verifier::external_body]
fn csr_info_der(spki_der: &[u8], subject_der: &[u8]) -> (r: Result<Vec<u8>, String>)
    ensures
        match r {
            Ok(der) => csr_info_der_of(spki_der@, subject_der@) == Some(der@),
            Err(_) => csr_info_der_of(spki_der@, subject_der@) is None,
        },
{
    let e = |error: DerError| error.to_string();
    let public_key = SubjectPublicKeyInfoOwned::from_der(spki_der).map_err(e)?;
    let subject = Name::from_der(subject_der).map_err(e)?;
    CertReqInfo { version: Version::V1, subject, public_key, attributes: Default::default() }.to_der().map_err(e)
}

/// The DER `CertificationRequest` made of a DER `CertificationRequestInfo`,
/// the signature algorithm `oid` without parameters and a DER signature, as
/// `x509-cert` encodes it; `None` where that fails.
pub uninterp spec fn csr_der_of(info_der: Seq<u8>, oid: Seq<char>, signature_der: Seq<u8>) -> Option<Seq<u8>>;

/// Assembles and encodes a `CertReq` through `x509-cert`. The contract says
/// that the DER is the named function of the arguments; the error's text is
/// not stated.
#[verifier::external_body]
fn csr_der(info_der: &[u8], oid: &str, signature_der: &[u8]) -> (r: Result<Vec<u8>, String>)
    ensures
        match r {
            Ok(der) => csr_der_of(info_der@, oid@, signature_der@) == Some(der@),
            Err(_) => csr_der_of(info_der@, oid@, signature_der@) is None,
        },
{
    let e = |error: DerError| error.to_string();
    let info = CertReqInfo::from_der(info_der).map_err(e)?;
    let oid = ObjectIdentifier::new(oid).map_err(|error| error.to_string())?;
    let algorithm = AlgorithmIdentifierOwned { oid, parameters: None };
    let signature = BitString::from_bytes(signature_der).map_err(e)?;
    CertReq { info, algorithm, signature }.to_der().map_err(e)
}

/// `csr` is a device CSR of the key (given by its SEC1 DER) and the common
/// name: the request info for the key's public key and the name, with the
/// ECDSA-with-SHA-256 algorithm and a low-S signature that the key made
/// over the info's SHA-256 digest (the signature is randomised), in DER.
pub open spec fn signed_device_csr(private_key: Seq<u8>, common_name: Seq<char>, csr: Seq<u8>) -> bool {
    &&& public_key_spki_der_of(private_key) matches Some(spki)
    &&& single_attribute_name_der_of(OID_COMMON_NAME@, common_name) matches Some(subject)
    &&& csr_info_der_of(spki, subject) matches Some(info)
    &&& sha256_digest(info).len() == 32
    &&& exists|signature: Seq<u8>|
        #[trigger] p1363_signed_by(private_key, sha256_digest(info), signature)
            && csr_der_of(info, OID_ECDSA_WITH_SHA256@, p1363_der_of(signature)) == Some(csr)
}

/// Builds the device CSR: the request info for the key's public key and
/// the common name, signed over its SHA-256 digest.
fn build_device_csr(private_key: &[u8], options: &TzapDeviceCsrOptions) -> (r: Result<
    Vec<u8>,
    TzapDeviceIdentityError,
>)
    ensures
        r is Ok ==> signed_device_csr(private_key@, options.common_name@, r->Ok_0@),
        r is Err ==> r->Err_0 is Crypto,
{
    let spki = match public_key_spki_der(private_key) {
        Ok(der) => der,
        Err(reason) => return Err(TzapDeviceIdentityError::Crypto(reason)),
    };
    let subject = match single_attribute_name_der(OID_COMMON_NAME, options.common_name.as_str()) {
        Ok(der) => der,
        Err(reason) => return Err(TzapDeviceIdentityError::Crypto(reason)),
    };
    let info = match csr_info_der(&spki, &subject) {
        Ok(der) => der,
        Err(reason) => return Err(TzapDeviceIdentityError::Crypto(reason)),
    };
    let digest = sha256(&info);
    let signature = match sign_prehash_p1363(private_key, &digest) {
        Ok(signature) => signature,
        Err(reason) => return Err(TzapDeviceIdentityError::Crypto(reason)),
    };
    let signature_der = p1363_signature_der(&signature);
    match csr_der(&info, OID_ECDSA_WITH_SHA256, &signature_der) {
        Ok(der) => Ok(der),
        Err(reason) => Err(TzapDeviceIdentityError::Crypto(reason)),
    }
}

/// Generates a new device signing key and its CSR. An empty common name is
/// refused before any key is made.
pub fn generate_device_signing_key_and_csr(options: &TzapDeviceCsrOptions) -> (r: Result<
    TzapDeviceSigningKeyMaterial,
    TzapDeviceIdentityError,
>)
    ensures
        options.common_name@.len() == 0 <==> r matches Err(TzapDeviceIdentityError::EmptyCommonName),
        r is Ok ==> ({
            let m = r->Ok_0;
            &&& m.private_key_der@.len() > 0
            &&& crate::p256_signature::parsed_private_key(m.private_key_der@) is Some
            &&& public_key_spki_der_of(m.private_key_der@) == Some(m.public_key_spki_der@)
            &&& m.public_key_fingerprint@ == der_fingerprint(m.public_key_spki_der@)
            &&& signed_device_csr(m.private_key_der@, options.common_name@, m.csr_der@)
            &&& m.csr_sha256@ == der_fingerprint(m.csr_der@)
        }),
        r is Err && options.common_name@.len() > 0 ==> r->Err_0 is Crypto,
{
    if options.common_name.as_str().is_empty() {
        return Err(TzapDeviceIdentityError::EmptyCommonName);
    }
    let private_key_der = match generate_p256_private_key() {
        Ok(key) => key,
        Err(reason) => return Err(TzapDeviceIdentityError::Crypto(reason)),
    };
    let public_key_spki_der = match public_key_spki_der(&private_key_der) {
        Ok(der) => der,
        Err(reason) => return Err(TzapDeviceIdentityError::Crypto(reason)),
    };
    let public_key_fingerprint = spki_fingerprint(&public_key_spki_der);
    let csr_der = build_device_csr(&private_key_der, options)?;
    let csr_sha256 = csr_fingerprint(&csr_der);
    Ok(TzapDeviceSigningKeyMaterial { private_key_der, public_key_spki_der, public_key_fingerprint, csr_der, csr_sha256 })
}

/// Rebuilds a device CSR from an existing private key, so that a retried
/// enrollment presents the same device identity.
pub fn generate_device_csr_from_private_key(private_key_der: &[u8], options: &TzapDeviceCsrOptions) -> (r: Result<
    Vec<u8>,
    TzapDeviceIdentityError,
>)
    ensures
        options.common_name@.len() == 0 <==> r matches Err(TzapDeviceIdentityError::EmptyCommonName),
        r is Ok ==> (crate::p256_signature::parsed_private_key(private_key_der@) matches Some(key) && signed_device_csr(
            key,
            options.common_name@,
            r->Ok_0@,
        )),
        r is Err && options.common_name@.len() > 0 ==> r->Err_0 is Crypto,
{
    if options.common_name.as_str().is_empty() {
        return Err(TzapDeviceIdentityError::EmptyCommonName);
    }
    let private_key = match parse_p256_private_key_der(private_key_der) {
        Ok(key) => key,
        Err(P256SignatureError::Crypto(reason)) => return Err(TzapDeviceIdentityError::Crypto(reason)),
        Err(_) => return Err(TzapDeviceIdentityError::Crypto("unexpected key error".to_string())),
    };
    build_device_csr(&private_key, options)
}

/// Generates a recipient encryption key, separate from any signing key.
pub fn generate_recipient_encryption_key() -> (r: Result<TzapRecipientEncryptionKeyMaterial, TzapDeviceIdentityError>)
    ensures
        r is Ok ==> ({
            let m = r->Ok_0;
            &&& m.algorithm@ == RECIPIENT_ENCRYPTION_KEY_ALGORITHM@
            &&& m.private_key_der@.len() > 0
            &&& crate::p256_signature::parsed_private_key(m.private_key_der@) is Some
            &&& public_key_spki_der_of(m.private_key_der@) == Some(m.public_key_spki_der@)
            &&& m.public_key_fingerprint@ == der_fingerprint(m.public_key_spki_der@)
        }),
        r is Err ==> r->Err_0 is Crypto,
{
    let private_key_der = match generate_p256_private_key() {
        Ok(key) => key,
        Err(reason) => return Err(TzapDeviceIdentityError::Crypto(reason)),
    };
    let public_key_spki_der = match public_key_spki_der(&private_key_der) {
        Ok(der) => der,
        Err(reason) => return Err(TzapDeviceIdentityError::Crypto(reason)),
    };
    let public_key_fingerprint = spki_fingerprint(&public_key_spki_der);
    Ok(
        TzapRecipientEncryptionKeyMaterial {
            algorithm: RECIPIENT_ENCRYPTION_KEY_ALGORITHM,
            private_key_der,
            public_key_spki_der,
            public_key_fingerprint,
        },
    )
}

/// Refuses a recipient key whose fingerprint is the signing key's.
pub fn ensure_recipient_key_is_distinct_from_signing_key(
    signing_public_key_fingerprint: &str,
    recipient_public_key_fingerprint: &str,
) -> (r: Result<(), TzapDeviceIdentityError>)
    ensures
        r is Ok <==> signing_public_key_fingerprint@ != recipient_public_key_fingerprint@,
        r is Err ==> r->Err_0 is RecipientKeyReusesSigningKey,
{
    if crate::text::str_eq(signing_public_key_fingerprint, recipient_public_key_fingerprint) {
        Err(TzapDeviceIdentityError::RecipientKeyReusesSigningKey)
    } else {
        Ok(())
    }
}

/// A device signing request verifies with the public half of the key that
/// made it: its signature over the request info is accepted under the
/// key's public point.
pub proof fn lemma_device_csr_verifies(
    private_key: Seq<u8>,
    common_name: Seq<char>,
    csr: Seq<u8>,
    spki: Seq<u8>,
    point: Seq<u8>,
)
    requires
        signed_device_csr(private_key, common_name, csr),
        public_key_spki_der_of(private_key) == Some(spki),
        spki_public_point_of(spki) == Some(point),
    ensures
        exists|info: Seq<u8>, signature: Seq<u8>|
            #[trigger] csr_der_of(info, OID_ECDSA_WITH_SHA256@, p1363_der_of(signature)) == Some(csr)
                && csr_info_der_of(spki, single_attribute_name_der_of(OID_COMMON_NAME@, common_name)->0) == Some(info)
                && p1363_accepts(point, info, signature),
{
    let subject = single_attribute_name_der_of(OID_COMMON_NAME@, common_name)->0;
    let info = csr_info_der_of(spki, subject)->0;
    let signature = choose|signature: Seq<u8>|
        #[trigger] p1363_signed_by(private_key, sha256_digest(info), signature)
            && csr_der_of(info, OID_ECDSA_WITH_SHA256@, p1363_der_of(signature)) == Some(csr);
    lemma_signed_payload_verifies(private_key, info, signature, spki, point);
    assert(csr_der_of(info, OID_ECDSA_WITH_SHA256@, p1363_der_of(signature)) == Some(csr));
}

} // verus!
