//! Migration of a legacy identity inventory into the public catalog: the
//! inventory's records become public catalog records and opaque secret
//! references, and the private bytes move into a secret store.
use crate::device_identity::{der_fingerprint, public_key_spki_der, public_key_spki_der_of, spki_fingerprint};
use crate::identity_catalog::{
    base64_url_no_pad,
    has_pending_legacy_migration, pending_legacy_migration, recipient_refs_of, same_summary, signing_refs_of, TzapIdentityCatalogStore, TzapLegacyMigrationReport, TzapSecretMaterialStore,
    TzapSecretPurpose, TzapSecretStoreError,
    catalog_defect, invalid, valid_secret_reference, PendingMutation, TzapIdentityCatalog, TzapIdentityCatalogError,
    TzapPublicContactRecord, TzapPublicEmergencyBlocklist, TzapPublicRecipientKeyRecord, TzapPublicSigningIdentityRecord,
    TzapPublicStatusCacheRecord, TzapSecretRef,
};
use crate::p256_signature::{parse_p256_private_key_der, parsed_private_key};
use crate::text::{chars_of, decimal_string, decimal_text, parse_u64_chars, parse_u64_spec, str_eq};
use base64::Engine;
use vstd::prelude::*;

verus! {

/// A legacy device signing key record.
#[derive(Debug, Clone)]
pub struct TzapDeviceSigningKeyRecord {
    pub key_id: String,
    pub public_key_fingerprint: String,
    pub private_key_der: Vec<u8>,
    pub created_at_unix_seconds: u64,
    pub label: Option<String>,
}

/// A legacy recipient encryption key record.
#[derive(Debug, Clone)]
pub struct TzapRecipientEncryptionKeyRecord {
    pub key_id: String,
    pub algorithm: String,
    pub public_key_fingerprint: String,
    pub public_key_der: Vec<u8>,
    pub private_key_der: Vec<u8>,
    pub created_at_unix_seconds: u64,
    pub label: Option<String>,
}

/// A legacy enrolled certificate record, with its public metadata and
/// state as text.
#[derive(Debug, Clone)]
pub struct TzapEnrolledCertificateRecord {
    pub certificate_id: String,
    pub signing_key_id: String,
    pub certificate_sha256: String,
    pub issuer_certificate_sha256: String,
    pub issuer_key_identifier: String,
    pub serial_number: String,
    pub leaf_certificate_der: Vec<u8>,
    pub intermediate_chain_der: Vec<Vec<u8>>,
    pub not_before_unix_seconds: u64,
    pub not_after_unix_seconds: u64,
    pub public_signer_id: String,
    pub public_org_id: Option<String>,
    pub public_device_id: String,
    pub assurance_level: String,
    pub sign_device_id: String,
    pub metadata_version: u64,
    pub policy_oid: String,
    pub state: String,
}

/// A legacy contact record. `recipient_public_key` is the
/// `recipient_public_key` text of the contact card payload, if it has one.
#[derive(Debug, Clone)]
pub struct TzapContactRecord {
    pub contact_id: String,
    pub display_name: String,
    pub signing_certificate_sha256: String,
    pub recipient_public_key_fingerprint: String,
    pub recipient_public_key: Option<String>,
    pub contact_card_payload: String,
    pub trust_anchor_type: String,
    pub verification_state: String,
    pub missing_status_caveat: bool,
    pub accepted_at_unix_seconds: u64,
}

/// A legacy certificate status cache record.
#[derive(Debug, Clone)]
pub struct TzapCertificateStatusCacheRecord {
    pub certificate_sha256: String,
    pub status: String,
    pub this_update_unix_seconds: u64,
    pub next_update_unix_seconds: u64,
}

/// A legacy identity inventory.
#[derive(Debug, Clone)]
pub struct TzapLocalIdentityInventory {
    pub device_signing_keys: Vec<TzapDeviceSigningKeyRecord>,
    pub recipient_encryption_keys: Vec<TzapRecipientEncryptionKeyRecord>,
    pub enrolled_certificates: Vec<TzapEnrolledCertificateRecord>,
    pub contacts: Vec<TzapContactRecord>,
    pub certificate_status_cache: Vec<TzapCertificateStatusCacheRecord>,
    pub emergency_blocklist: TzapPublicEmergencyBlocklist,
}

/// The unpadded URL-safe base64 decoding of `text`, as
/// `URL_SAFE_NO_PAD.decode` computes it; `None` where it fails.
pub uninterp spec fn base64_url_no_pad_decode_of(text: Seq<char>) -> Option<Seq<u8>>;

/// Calls `URL_SAFE_NO_PAD.decode`. The contract says that the result is the
/// named decoding of `text`, and, as the engine accepts neither padding nor
/// trailing bits, that it decodes exactly the texts the encoding gives: the
/// bytes decoded encode back to `text`, and a refused text is no encoding.
#[verifier::external_body]
fn base64_url_no_pad_decode(text: &str) -> (r: Option<Vec<u8>>)
    ensures
        match r {
            Some(bytes) => base64_url_no_pad_decode_of(text@) == Some(bytes@)
                && crate::identity_catalog::base64_url_no_pad_of(bytes@) == text@,
            None => base64_url_no_pad_decode_of(text@) is None
                && forall|b: Seq<u8>| #[trigger] crate::identity_catalog::base64_url_no_pad_of(b) != text@,
        },
{
    base64::engine::general_purpose::URL_SAFE_NO_PAD.decode(text).ok()
}

/// The public key DER of a stored private key (SEC1 or PKCS#8 P-256).
pub open spec fn key_public_der(private_der: Seq<u8>) -> Option<Seq<u8>> {
    match parsed_private_key(private_der) {
        Some(sec1) => public_key_spki_der_of(sec1),
        None => None,
    }
}

/// Why a signing key record cannot be migrated: its private key cannot be
/// read, or its public key's fingerprint is not the recorded one.
pub open spec fn signing_key_defect(k: TzapDeviceSigningKeyRecord) -> Option<Seq<char>> {
    match key_public_der(k.private_key_der@) {
        None => Some("private_key_der"@),
        Some(p) => if der_fingerprint(p) == k.public_key_fingerprint@ {
            None
        } else {
            Some("private_key_public_key_match"@)
        },
    }
}

/// Why a recipient key record cannot be migrated: its private key cannot be
/// read, or its public key is not the recorded one.
pub open spec fn recipient_key_defect(k: TzapRecipientEncryptionKeyRecord) -> Option<Seq<char>> {
    match key_public_der(k.private_key_der@) {
        None => Some("private_key_der"@),
        Some(p) => if p == k.public_key_der@ {
            None
        } else {
            Some("private_key_public_key_match"@)
        },
    }
}

/// Checks a signing key record.
fn verify_signing_key(k: &TzapDeviceSigningKeyRecord) -> (r: Result<(), TzapIdentityCatalogError>)
    ensures
        match signing_key_defect(*k) {
            None => r is Ok,
            Some(f) => r matches Err(TzapIdentityCatalogError::InvalidCatalog { field }) && field@ == f,
        },
{
    let sec1 = match parse_p256_private_key_der(&k.private_key_der) {
        Ok(key) => key,
        Err(_) => return Err(invalid("private_key_der")),
    };
    let public = match public_key_spki_der(&sec1) {
        Ok(der) => der,
        Err(_) => return Err(invalid("private_key_der")),
    };
    let fingerprint = spki_fingerprint(&public);
    if str_eq(fingerprint.as_str(), k.public_key_fingerprint.as_str()) {
        Ok(())
    } else {
        Err(invalid("private_key_public_key_match"))
    }
}

/// Checks a recipient key record.
fn verify_recipient_key(k: &TzapRecipientEncryptionKeyRecord) -> (r: Result<(), TzapIdentityCatalogError>)
    ensures
        match recipient_key_defect(*k) {
            None => r is Ok,
            Some(f) => r matches Err(TzapIdentityCatalogError::InvalidCatalog { field }) && field@ == f,
        },
{
    let sec1 = match parse_p256_private_key_der(&k.private_key_der) {
        Ok(key) => key,
        Err(_) => return Err(invalid("private_key_der")),
    };
    let public = match public_key_spki_der(&sec1) {
        Ok(der) => der,
        Err(_) => return Err(invalid("private_key_der")),
    };
    if bytes_eq(&public, &k.public_key_der) {
        Ok(())
    } else {
        Err(invalid("private_key_public_key_match"))
    }
}

fn bytes_eq(a: &[u8], b: &[u8]) -> (r: bool)
    ensures
        r == (a@ == b@),
{
    if a.len() != b.len() {
        return false;
    }
    let mut i: usize = 0;
    while i < a.len()
        invariant
            a@.len() == b@.len(),
            i <= a@.len(),
            forall|j: int| 0 <= j < i ==> a@[j] == b@[j],
        decreases a@.len() - i,
    {
        if a[i] != b[i] {
            return false;
        }
        i += 1;
    }
    assert(a@ =~= b@);
    true
}

/// The secret reference recorded for a legacy key id: the last one
/// recorded, as a map that is written in order keeps.
pub open spec fn ref_for(refs: Seq<(String, TzapSecretRef)>, id: Seq<char>) -> Option<Seq<char>>
    decreases refs.len(),
{
    if refs.len() == 0 {
        None
    } else if refs.last().0@ == id {
        Some(refs.last().1@)
    } else {
        ref_for(refs.drop_last(), id)
    }
}

fn lookup_ref(refs: &Vec<(String, TzapSecretRef)>, id: &str) -> (r: Option<TzapSecretRef>)
    ensures
        match ref_for(refs@, id@) {
            Some(x) => r matches Some(s) && s@ == x,
            None => r is None,
        },
{
    let mut k = refs.len();
    assert(refs@.take(k as int) =~= refs@);
    while k > 0
        invariant
            k <= refs@.len(),
            ref_for(refs@.take(k as int), id@) == ref_for(refs@, id@),
        decreases k,
    {
        assert(refs@.take(k as int).drop_last() =~= refs@.take(k - 1));
        assert(refs@.take(k as int).last() == refs@[k - 1]);
        if str_eq(refs[k - 1].0.as_str(), id) {
            return Some(refs[k - 1].1.duplicate());
        }
        k -= 1;
    }
    assert(refs@.take(0) =~= Seq::<(String, TzapSecretRef)>::empty());
    None
}

/// A fresh valid reference for each record, keyed by its id, in order.
pub open spec fn fresh_refs_for(refs: Seq<(String, TzapSecretRef)>, ids: Seq<Seq<char>>) -> bool {
    &&& refs.len() == ids.len()
    &&& forall|i: int| 0 <= i < refs.len() ==> (#[trigger] refs[i]).0@ == ids[i] && valid_secret_reference(refs[i].1@)
}

/// The first of the signing key records that cannot be migrated.
pub open spec fn first_signing_key_defect(keys: Seq<TzapDeviceSigningKeyRecord>) -> Option<Seq<char>>
    decreases keys.len(),
{
    if keys.len() == 0 {
        None
    } else if signing_key_defect(keys[0]) is Some {
        signing_key_defect(keys[0])
    } else {
        first_signing_key_defect(keys.drop_first())
    }
}

/// The first of the recipient key records that cannot be migrated.
pub open spec fn first_recipient_key_defect(keys: Seq<TzapRecipientEncryptionKeyRecord>) -> Option<Seq<char>>
    decreases keys.len(),
{
    if keys.len() == 0 {
        None
    } else if recipient_key_defect(keys[0]) is Some {
        recipient_key_defect(keys[0])
    } else {
        first_recipient_key_defect(keys.drop_first())
    }
}

pub open spec fn signing_key_ids(keys: Seq<TzapDeviceSigningKeyRecord>) -> Seq<Seq<char>> {
    Seq::new(keys.len(), |i: int| keys[i].key_id@)
}

pub open spec fn recipient_key_ids(keys: Seq<TzapRecipientEncryptionKeyRecord>) -> Seq<Seq<char>> {
    Seq::new(keys.len(), |i: int| keys[i].key_id@)
}

/// Checks every signing key record and gives each a fresh reference.
fn signing_refs(keys: &Vec<TzapDeviceSigningKeyRecord>) -> (r: Result<Vec<(String, TzapSecretRef)>, TzapIdentityCatalogError>)
    ensures
        match first_signing_key_defect(keys@) {
            Some(f) => r matches Err(TzapIdentityCatalogError::InvalidCatalog { field }) && field@ == f,
            None => r matches Ok(refs) && fresh_refs_for(refs@, signing_key_ids(keys@)),
        },
{
    let mut refs: Vec<(String, TzapSecretRef)> = Vec::new();
    let mut i: usize = 0;
    assert(keys@.subrange(0, keys@.len() as int) =~= keys@);
    while i < keys.len()
        invariant
            i <= keys@.len(),
            first_signing_key_defect(keys@.subrange(i as int, keys@.len() as int)) == first_signing_key_defect(keys@),
            fresh_refs_for(refs@, signing_key_ids(keys@).take(i as int)),
        decreases keys@.len() - i,
    {
        let ghost tail = keys@.subrange(i as int, keys@.len() as int);
        assert(tail[0] == keys@[i as int]);
        assert(tail.drop_first() =~= keys@.subrange(i + 1, keys@.len() as int));
        match verify_signing_key(&keys[i]) {
            Ok(()) => {},
            Err(e) => {
                return Err(e);
            },
        }
        refs.push((keys[i].key_id.clone(), TzapSecretRef::generate()));
        assert(signing_key_ids(keys@).take(i as int + 1) =~= signing_key_ids(keys@).take(i as int).push(keys@[i as int].key_id@));
        i += 1;
    }
    assert(keys@.subrange(i as int, keys@.len() as int) =~= Seq::<TzapDeviceSigningKeyRecord>::empty());
    assert(signing_key_ids(keys@).take(i as int) =~= signing_key_ids(keys@));
    Ok(refs)
}

/// Checks every recipient key record and gives each a fresh reference.
fn recipient_refs(keys: &Vec<TzapRecipientEncryptionKeyRecord>) -> (r: Result<
    Vec<(String, TzapSecretRef)>,
    TzapIdentityCatalogError,
>)
    ensures
        match first_recipient_key_defect(keys@) {
            Some(f) => r matches Err(TzapIdentityCatalogError::InvalidCatalog { field }) && field@ == f,
            None => r matches Ok(refs) && fresh_refs_for(refs@, recipient_key_ids(keys@)),
        },
{
    let mut refs: Vec<(String, TzapSecretRef)> = Vec::new();
    let mut i: usize = 0;
    assert(keys@.subrange(0, keys@.len() as int) =~= keys@);
    while i < keys.len()
        invariant
            i <= keys@.len(),
            first_recipient_key_defect(keys@.subrange(i as int, keys@.len() as int)) == first_recipient_key_defect(keys@),
            fresh_refs_for(refs@, recipient_key_ids(keys@).take(i as int)),
        decreases keys@.len() - i,
    {
        let ghost tail = keys@.subrange(i as int, keys@.len() as int);
        assert(tail[0] == keys@[i as int]);
        assert(tail.drop_first() =~= keys@.subrange(i + 1, keys@.len() as int));
        match verify_recipient_key(&keys[i]) {
            Ok(()) => {},
            Err(e) => {
                return Err(e);
            },
        }
        refs.push((keys[i].key_id.clone(), TzapSecretRef::generate()));
        assert(recipient_key_ids(keys@).take(i as int + 1) =~= recipient_key_ids(keys@).take(i as int).push(
            keys@[i as int].key_id@,
        ));
        i += 1;
    }
    assert(keys@.subrange(i as int, keys@.len() as int) =~= Seq::<TzapRecipientEncryptionKeyRecord>::empty());
    assert(recipient_key_ids(keys@).take(i as int) =~= recipient_key_ids(keys@));
    Ok(refs)
}

proof fn lemma_ref_for(refs: Seq<(String, TzapSecretRef)>, ids: Seq<Seq<char>>, id: Seq<char>)
    requires
        fresh_refs_for(refs, ids),
    ensures
        ref_for(refs, id) is Some <==> ids.contains(id),
        ref_for(refs, id) matches Some(x) ==> valid_secret_reference(x),
    decreases refs.len(),
{
    if refs.len() > 0 {
        let ids2 = ids.drop_last();
        assert(fresh_refs_for(refs.drop_last(), ids2)) by {
            assert forall|i: int| 0 <= i < refs.drop_last().len() implies (#[trigger] refs.drop_last()[i]).0@ == ids2[i]
                && valid_secret_reference(refs.drop_last()[i].1@) by {
                assert(refs.drop_last()[i] == refs[i]);
            }
        }
        lemma_ref_for(refs.drop_last(), ids2, id);
        let last = refs.len() - 1;
        assert(refs[last].0@ == ids[last]);
        if ids.contains(id) && refs.last().0@ != id {
            let j = choose|j: int| 0 <= j < ids.len() && ids[j] == id;
            assert(j != last);
            assert(ids2[j] == id);
        }
        if ids2.contains(id) {
            let j = choose|j: int| 0 <= j < ids2.len() && ids2[j] == id;
            assert(ids[j] == id);
        }
    }
}

/// `Option<String>` by its text.
pub open spec fn opt_text(o: Option<String>) -> Option<Seq<char>> {
    match o {
        Some(s) => Some(s@),
        None => None,
    }
}

fn copy_opt_string(o: &Option<String>) -> (r: Option<String>)
    ensures
        opt_text(r) == opt_text(*o),
{
    match o {
        Some(s) => Some(s.clone()),
        None => None,
    }
}

fn copy_bytes(v: &Vec<u8>) -> (r: Vec<u8>)
    ensures
        r@ == v@,
{
    let mut out: Vec<u8> = Vec::new();
    let mut i: usize = 0;
    while i < v.len()
        invariant
            i <= v@.len(),
            out@ == v@.take(i as int),
        decreases v@.len() - i,
    {
        out.push(v[i]);
        assert(out@ =~= v@.take(i as int + 1));
        i += 1;
    }
    assert(v@.take(i as int) =~= v@);
    out
}

/// The position of the first key record with the id.
pub open spec fn first_key_index(keys: Seq<TzapDeviceSigningKeyRecord>, id: Seq<char>) -> Option<int>
    decreases keys.len(),
{
    if keys.len() == 0 {
        None
    } else if keys[0].key_id@ == id {
        Some(0)
    } else {
        match first_key_index(keys.drop_first(), id) {
            Some(i) => Some(i + 1),
            None => None,
        }
    }
}

fn find_key(keys: &Vec<TzapDeviceSigningKeyRecord>, id: &str) -> (r: Option<usize>)
    ensures
        match first_key_index(keys@, id@) {
            Some(i) => r matches Some(k) && k == i && k < keys@.len(),
            None => r is None,
        },
{
    let mut i: usize = 0;
    assert(keys@.subrange(0, keys@.len() as int) =~= keys@);
    while i < keys.len()
        invariant
            i <= keys@.len(),
            forall|j: int| 0 <= j < i ==> keys@[j].key_id@ != id@,
            match first_key_index(keys@.subrange(i as int, keys@.len() as int), id@) {
                Some(k) => first_key_index(keys@, id@) == Some(k + i),
                None => first_key_index(keys@, id@) is None,
            },
        decreases keys@.len() - i,
    {
        let ghost tail = keys@.subrange(i as int, keys@.len() as int);
        assert(tail[0] == keys@[i as int]);
        assert(tail.drop_first() =~= keys@.subrange(i + 1, keys@.len() as int));
        if str_eq(keys[i].key_id.as_str(), id) {
            return Some(i);
        }
        i += 1;
    }
    assert(keys@.subrange(i as int, keys@.len() as int) =~= Seq::<TzapDeviceSigningKeyRecord>::empty());
    None
}

/// `rec` is the signing identity migrated from the enrolled certificate
/// `cert` with secret reference `sref`: the certificate's facts, the chain
/// from the leaf on, and the label and creation time of the first key
/// record with the certificate's key id.
pub open spec fn certificate_identity(
    rec: TzapPublicSigningIdentityRecord,
    cert: TzapEnrolledCertificateRecord,
    keys: Seq<TzapDeviceSigningKeyRecord>,
    sref: Seq<char>,
) -> bool {
    let backing = first_key_index(keys, cert.signing_key_id@);
    &&& rec.id@ == cert.certificate_id@
    &&& opt_text(rec.local_alias) == match backing {
        Some(i) => opt_text(keys[i].label),
        None => None,
    }
    &&& opt_text(rec.certificate_id) == Some(cert.certificate_id@)
    &&& opt_text(rec.certificate_sha256) == Some(cert.certificate_sha256@)
    &&& opt_text(rec.issuer_certificate_sha256) == Some(cert.issuer_certificate_sha256@)
    &&& opt_text(rec.issuer_key_identifier) == Some(cert.issuer_key_identifier@)
    &&& opt_text(rec.serial_number) == Some(cert.serial_number@)
    &&& rec.certificate_chain_der@.len() == cert.intermediate_chain_der@.len() + 1
    &&& rec.certificate_chain_der@[0]@ == cert.leaf_certificate_der@
    &&& forall|i: int|
        0 <= i < cert.intermediate_chain_der@.len() ==> (#[trigger] rec.certificate_chain_der@[i + 1])@
            == cert.intermediate_chain_der@[i]@
    &&& rec.not_before_unix_seconds == Some(cert.not_before_unix_seconds)
    &&& rec.not_after_unix_seconds == Some(cert.not_after_unix_seconds)
    &&& opt_text(rec.public_signer_id) == Some(cert.public_signer_id@)
    &&& opt_text(rec.public_org_id) == opt_text(cert.public_org_id)
    &&& opt_text(rec.public_device_id) == Some(cert.public_device_id@)
    &&& opt_text(rec.assurance_level) == Some(cert.assurance_level@)
    &&& opt_text(rec.sign_device_id) == Some(cert.sign_device_id@)
    &&& rec.signing_key_created_at_unix_seconds == match backing {
        Some(i) => Some(keys[i].created_at_unix_seconds),
        None => None,
    }
    &&& opt_text(rec.legacy_key_id) == Some(cert.signing_key_id@)
    &&& rec.metadata_version == Some(cert.metadata_version)
    &&& opt_text(rec.policy_oid) == Some(cert.policy_oid@)
    &&& rec.signing_key_ref@ == sref
    &&& rec.lifecycle@ == cert.state@
}

/// Whether some certificate names a key that no key record has.
pub open spec fn certificate_without_key(certs: Seq<TzapEnrolledCertificateRecord>, key_ids: Seq<Seq<char>>) -> bool {
    exists|i: int| 0 <= i < certs.len() && !key_ids.contains(#[trigger] certs[i].signing_key_id@)
}

fn certificate_chain(cert: &TzapEnrolledCertificateRecord) -> (r: Vec<Vec<u8>>)
    ensures
        r@.len() == cert.intermediate_chain_der@.len() + 1,
        r@[0]@ == cert.leaf_certificate_der@,
        forall|i: int| 0 <= i < cert.intermediate_chain_der@.len() ==> (#[trigger] r@[i + 1])@ == cert.intermediate_chain_der@[i]@,
{
    let mut chain: Vec<Vec<u8>> = Vec::new();
    chain.push(copy_bytes(&cert.leaf_certificate_der));
    let mut i: usize = 0;
    while i < cert.intermediate_chain_der.len()
        invariant
            i <= cert.intermediate_chain_der@.len(),
            chain@.len() == i + 1,
            chain@[0]@ == cert.leaf_certificate_der@,
            forall|j: int| 0 <= j < i ==> (#[trigger] chain@[j + 1])@ == cert.intermediate_chain_der@[j]@,
        decreases cert.intermediate_chain_der@.len() - i,
    {
        chain.push(copy_bytes(&cert.intermediate_chain_der[i]));
        i += 1;
    }
    chain
}

fn certificate_identity_of(
    cert: &TzapEnrolledCertificateRecord,
    keys: &Vec<TzapDeviceSigningKeyRecord>,
    signing_key_ref: TzapSecretRef,
) -> (r: TzapPublicSigningIdentityRecord)
    ensures
        certificate_identity(r, *cert, keys@, signing_key_ref@),
{
    let backing = find_key(keys, cert.signing_key_id.as_str());
    let (local_alias, created) = match backing {
        Some(k) => (copy_opt_string(&keys[k].label), Some(keys[k].created_at_unix_seconds)),
        None => (None, None),
    };
    TzapPublicSigningIdentityRecord {
        id: cert.certificate_id.clone(),
        local_alias,
        certificate_id: Some(cert.certificate_id.clone()),
        certificate_sha256: Some(cert.certificate_sha256.clone()),
        issuer_certificate_sha256: Some(cert.issuer_certificate_sha256.clone()),
        issuer_key_identifier: Some(cert.issuer_key_identifier.clone()),
        serial_number: Some(cert.serial_number.clone()),
        certificate_chain_der: certificate_chain(cert),
        not_before_unix_seconds: Some(cert.not_before_unix_seconds),
        not_after_unix_seconds: Some(cert.not_after_unix_seconds),
        public_signer_id: Some(cert.public_signer_id.clone()),
        public_org_id: copy_opt_string(&cert.public_org_id),
        public_device_id: Some(cert.public_device_id.clone()),
        assurance_level: Some(cert.assurance_level.clone()),
        sign_device_id: Some(cert.sign_device_id.clone()),
        signing_key_created_at_unix_seconds: created,
        legacy_key_id: Some(cert.signing_key_id.clone()),
        metadata_version: Some(cert.metadata_version),
        policy_oid: Some(cert.policy_oid.clone()),
        signing_key_ref,
        lifecycle: cert.state.clone(),
    }
}

pub open spec fn certificate_key_ids(certs: Seq<TzapEnrolledCertificateRecord>) -> Seq<Seq<char>> {
    Seq::new(certs.len(), |i: int| certs[i].signing_key_id@)
}

/// The key records that no certificate names, in order.
pub open spec fn unbacked_keys(keys: Seq<TzapDeviceSigningKeyRecord>, cert_ids: Seq<Seq<char>>) -> Seq<TzapDeviceSigningKeyRecord>
    decreases keys.len(),
{
    if keys.len() == 0 {
        Seq::empty()
    } else {
        let rest = unbacked_keys(keys.drop_last(), cert_ids);
        if cert_ids.contains(keys.last().key_id@) {
            rest
        } else {
            rest.push(keys.last())
        }
    }
}

/// `rec` is the pending signing identity migrated from a key record that no
/// certificate names.
pub open spec fn pending_identity(rec: TzapPublicSigningIdentityRecord, key: TzapDeviceSigningKeyRecord, sref: Seq<char>) -> bool {
    &&& rec.id@ == key.key_id@
    &&& opt_text(rec.local_alias) == opt_text(key.label)
    &&& rec.certificate_id is None
    &&& rec.certificate_sha256 is None
    &&& rec.issuer_certificate_sha256 is None
    &&& rec.issuer_key_identifier is None
    &&& rec.serial_number is None
    &&& rec.certificate_chain_der@.len() == 0
    &&& rec.not_before_unix_seconds is None
    &&& rec.not_after_unix_seconds is None
    &&& rec.public_signer_id is None
    &&& rec.public_org_id is None
    &&& rec.public_device_id is None
    &&& rec.assurance_level is None
    &&& rec.sign_device_id is None
    &&& rec.signing_key_created_at_unix_seconds == Some(key.created_at_unix_seconds)
    &&& rec.legacy_key_id is None
    &&& rec.metadata_version is None
    &&& rec.policy_oid is None
    &&& rec.signing_key_ref@ == sref
    &&& rec.lifecycle@ == "pending"@
}

/// The signing identities of a migration: one per certificate, then one
/// pending identity per key record that no certificate names.
pub open spec fn migrated_identities(
    ids: Seq<TzapPublicSigningIdentityRecord>,
    certs: Seq<TzapEnrolledCertificateRecord>,
    keys: Seq<TzapDeviceSigningKeyRecord>,
    srefs: Seq<(String, TzapSecretRef)>,
) -> bool {
    let unbacked = unbacked_keys(keys, certificate_key_ids(certs));
    &&& ids.len() == certs.len() + unbacked.len()
    &&& forall|i: int|
        0 <= i < certs.len() ==> certificate_identity(#[trigger] ids[i], certs[i], keys, ref_for(srefs, certs[i].signing_key_id@)->0)
    &&& forall|j: int|
        0 <= j < unbacked.len() ==> pending_identity(
            #[trigger] ids[certs.len() + j],
            unbacked[j],
            ref_for(srefs, unbacked[j].key_id@)->0,
        )
}

fn contains_text(list: &Vec<&str>, text: &str) -> (r: bool)
    ensures
        r == Seq::new(list@.len(), |i: int| list@[i]@).contains(text@),
{
    let ghost view = Seq::new(list@.len(), |i: int| list@[i]@);
    let mut i: usize = 0;
    while i < list.len()
        invariant
            i <= list@.len(),
            view == Seq::new(list@.len(), |k: int| list@[k]@),
            forall|j: int| 0 <= j < i ==> view[j] != text@,
        decreases list@.len() - i,
    {
        if str_eq(list[i], text) {
            assert(view[i as int] == text@);
            return true;
        }
        i += 1;
    }
    false
}

/// Migrates the certificates and key records into signing identities.
fn signing_identities(
    certs: &Vec<TzapEnrolledCertificateRecord>,
    keys: &Vec<TzapDeviceSigningKeyRecord>,
    srefs: &Vec<(String, TzapSecretRef)>,
) -> (r: Result<Vec<TzapPublicSigningIdentityRecord>, TzapIdentityCatalogError>)
    requires
        fresh_refs_for(srefs@, signing_key_ids(keys@)),
    ensures
        certificate_without_key(certs@, signing_key_ids(keys@)) ==> (r matches Err(
            TzapIdentityCatalogError::InvalidCatalog { field },
        ) && field@ == "enrolled_certificates.signing_key_id"@),
        !certificate_without_key(certs@, signing_key_ids(keys@)) ==> (r matches Ok(ids) && migrated_identities(
            ids@,
            certs@,
            keys@,
            srefs@,
        )),
{
    let mut out: Vec<TzapPublicSigningIdentityRecord> = Vec::new();
    let mut cert_ids: Vec<&str> = Vec::new();
    let mut i: usize = 0;
    while i < certs.len()
        invariant
            i <= certs@.len(),
            fresh_refs_for(srefs@, signing_key_ids(keys@)),
            out@.len() == i,
            cert_ids@.len() == i,
            forall|k: int| 0 <= k < i ==> (#[trigger] cert_ids@[k])@ == certs@[k].signing_key_id@,
            forall|k: int| 0 <= k < i ==> signing_key_ids(keys@).contains(#[trigger] certs@[k].signing_key_id@),
            forall|k: int|
                0 <= k < i ==> certificate_identity(#[trigger] out@[k], certs@[k], keys@, ref_for(srefs@, certs@[k].signing_key_id@)->0),
        decreases certs@.len() - i,
    {
        let cert = &certs[i];
        proof {
            lemma_ref_for(srefs@, signing_key_ids(keys@), cert.signing_key_id@);
        }
        let signing_key_ref = match lookup_ref(srefs, cert.signing_key_id.as_str()) {
            Some(r) => r,
            None => {
                assert(certificate_without_key(certs@, signing_key_ids(keys@)));
                return Err(invalid("enrolled_certificates.signing_key_id"));
            },
        };
        out.push(certificate_identity_of(cert, keys, signing_key_ref));
        cert_ids.push(cert.signing_key_id.as_str());
        i += 1;
    }
    assert(!certificate_without_key(certs@, signing_key_ids(keys@)));
    assert(Seq::new(cert_ids@.len(), |k: int| cert_ids@[k]@) =~= certificate_key_ids(certs@));
    let ghost cids = certificate_key_ids(certs@);
    let ghost ncerts = certs@.len();
    let mut j: usize = 0;
    while j < keys.len()
        invariant
            j <= keys@.len(),
            ncerts == certs@.len(),
            cids == certificate_key_ids(certs@),
            Seq::new(cert_ids@.len(), |k: int| cert_ids@[k]@) == cids,
            fresh_refs_for(srefs@, signing_key_ids(keys@)),
            out@.len() == ncerts + unbacked_keys(keys@.take(j as int), cids).len(),
            forall|k: int|
                0 <= k < ncerts ==> certificate_identity(#[trigger] out@[k], certs@[k], keys@, ref_for(srefs@, certs@[k].signing_key_id@)->0),
            forall|k: int|
                0 <= k < unbacked_keys(keys@.take(j as int), cids).len() ==> pending_identity(
                    #[trigger] out@[ncerts + k],
                    unbacked_keys(keys@.take(j as int), cids)[k],
                    ref_for(srefs@, unbacked_keys(keys@.take(j as int), cids)[k].key_id@)->0,
                ),
        decreases keys@.len() - j,
    {
        let key = &keys[j];
        assert(keys@.take(j as int + 1).drop_last() =~= keys@.take(j as int));
        assert(keys@.take(j as int + 1).last() == keys@[j as int]);
        if !contains_text(&cert_ids, key.key_id.as_str()) {
            proof {
                lemma_ref_for(srefs@, signing_key_ids(keys@), key.key_id@);
                assert(signing_key_ids(keys@)[j as int] == key.key_id@);
            }
            let signing_key_ref = match lookup_ref(srefs, key.key_id.as_str()) {
                Some(r) => r,
                None => {
                    return Err(invalid("migration.signing_refs"));
                },
            };
            let ghost before = out@;
            out.push(
                TzapPublicSigningIdentityRecord {
                    id: key.key_id.clone(),
                    local_alias: copy_opt_string(&key.label),
                    certificate_id: None,
                    certificate_sha256: None,
                    issuer_certificate_sha256: None,
                    issuer_key_identifier: None,
                    serial_number: None,
                    certificate_chain_der: Vec::new(),
                    not_before_unix_seconds: None,
                    not_after_unix_seconds: None,
                    public_signer_id: None,
                    public_org_id: None,
                    public_device_id: None,
                    assurance_level: None,
                    sign_device_id: None,
                    signing_key_created_at_unix_seconds: Some(key.created_at_unix_seconds),
                    legacy_key_id: None,
                    metadata_version: None,
                    policy_oid: None,
                    signing_key_ref,
                    lifecycle: "pending".to_string(),
                },
            );
            assert forall|k: int| 0 <= k < ncerts implies certificate_identity(
                #[trigger] out@[k],
                certs@[k],
                keys@,
                ref_for(srefs@, certs@[k].signing_key_id@)->0,
            ) by {
                assert(out@[k] == before[k]);
            }
            let ghost un = unbacked_keys(keys@.take(j as int + 1), cids);
            assert forall|k: int| 0 <= k < un.len() implies pending_identity(
                #[trigger] out@[ncerts + k],
                un[k],
                ref_for(srefs@, un[k].key_id@)->0,
            ) by {
                if k < un.len() - 1 {
                    assert(out@[ncerts + k] == before[ncerts + k]);
                }
            }
        }
        j += 1;
    }
    assert(keys@.take(j as int) =~= keys@);
    Ok(out)
}

/// `rec` is the recipient key record migrated from `key` with secret
/// reference `sref`.
pub open spec fn recipient_record(rec: TzapPublicRecipientKeyRecord, key: TzapRecipientEncryptionKeyRecord, sref: Seq<char>) -> bool {
    &&& rec.id@ == key.key_id@
    &&& opt_text(rec.local_label) == opt_text(key.label)
    &&& rec.algorithm@ == key.algorithm@
    &&& rec.public_key_der@ == key.public_key_der@
    &&& rec.fingerprint@ == key.public_key_fingerprint@
    &&& rec.private_key_ref@ == sref
    &&& rec.lifecycle@ == "active"@
    &&& rec.created_at_unix_seconds == key.created_at_unix_seconds
    &&& rec.retired_at_unix_seconds is None
}

fn recipient_records(keys: &Vec<TzapRecipientEncryptionKeyRecord>, rrefs: &Vec<(String, TzapSecretRef)>) -> (r: Result<
    Vec<TzapPublicRecipientKeyRecord>,
    TzapIdentityCatalogError,
>)
    requires
        fresh_refs_for(rrefs@, recipient_key_ids(keys@)),
    ensures
        r matches Ok(v) && v@.len() == keys@.len() && forall|i: int|
            0 <= i < keys@.len() ==> recipient_record(#[trigger] v@[i], keys@[i], ref_for(rrefs@, keys@[i].key_id@)->0),
{
    let mut out: Vec<TzapPublicRecipientKeyRecord> = Vec::new();
    let mut i: usize = 0;
    while i < keys.len()
        invariant
            i <= keys@.len(),
            fresh_refs_for(rrefs@, recipient_key_ids(keys@)),
            out@.len() == i,
            forall|k: int| 0 <= k < i ==> recipient_record(#[trigger] out@[k], keys@[k], ref_for(rrefs@, keys@[k].key_id@)->0),
        decreases keys@.len() - i,
    {
        let key = &keys[i];
        proof {
            lemma_ref_for(rrefs@, recipient_key_ids(keys@), key.key_id@);
            assert(recipient_key_ids(keys@)[i as int] == key.key_id@);
        }
        let private_key_ref = match lookup_ref(rrefs, key.key_id.as_str()) {
            Some(r) => r,
            None => {
                return Err(invalid("migration.recipient_refs"));
            },
        };
        out.push(
            TzapPublicRecipientKeyRecord {
                id: key.key_id.clone(),
                local_label: copy_opt_string(&key.label),
                algorithm: key.algorithm.clone(),
                public_key_der: copy_bytes(&key.public_key_der),
                fingerprint: key.public_key_fingerprint.clone(),
                private_key_ref,
                lifecycle: "active".to_string(),
                created_at_unix_seconds: key.created_at_unix_seconds,
                retired_at_unix_seconds: None,
            },
        );
        i += 1;
    }
    Ok(out)
}

/// The recipient public key a contact card carries, decoded.
pub open spec fn contact_public_key(c: TzapContactRecord) -> Option<Seq<u8>> {
    match c.recipient_public_key {
        Some(t) => base64_url_no_pad_decode_of(t@),
        None => None,
    }
}

/// `rec` is the contact record migrated from `c`.
pub open spec fn contact_record(rec: TzapPublicContactRecord, c: TzapContactRecord) -> bool {
    &&& rec.contact_id@ == c.contact_id@
    &&& rec.display_name@ == c.display_name@
    &&& rec.signing_certificate_sha256@ == c.signing_certificate_sha256@
    &&& rec.recipient_public_key_fingerprint@ == c.recipient_public_key_fingerprint@
    &&& contact_public_key(c) == Some(rec.recipient_public_key_der@)
    &&& rec.trust_source@ == c.trust_anchor_type@
    &&& rec.verification_state@ == c.verification_state@
    &&& rec.missing_status_caveat == c.missing_status_caveat
    &&& rec.contact_card_payload@ == c.contact_card_payload@
    &&& rec.accepted_at_unix_seconds == c.accepted_at_unix_seconds
}

fn contact_records(contacts: &Vec<TzapContactRecord>) -> (r: Result<Vec<TzapPublicContactRecord>, TzapIdentityCatalogError>)
    ensures
        (exists|i: int| 0 <= i < contacts@.len() && contact_public_key(#[trigger] contacts@[i]) is None) ==> (r matches Err(
            TzapIdentityCatalogError::InvalidCatalog { field },
        ) && field@ == "contacts.recipient_public_key"@),
        (forall|i: int| 0 <= i < contacts@.len() ==> contact_public_key(#[trigger] contacts@[i]) is Some) ==> (r matches Ok(v)
            && v@.len() == contacts@.len() && forall|i: int| 0 <= i < contacts@.len() ==> contact_record(#[trigger] v@[i], contacts@[i])),
{
    let mut out: Vec<TzapPublicContactRecord> = Vec::new();
    let mut i: usize = 0;
    while i < contacts.len()
        invariant
            i <= contacts@.len(),
            out@.len() == i,
            forall|k: int| 0 <= k < i ==> contact_public_key(#[trigger] contacts@[k]) is Some,
            forall|k: int| 0 <= k < i ==> contact_record(#[trigger] out@[k], contacts@[k]),
        decreases contacts@.len() - i,
    {
        let c = &contacts[i];
        let der = match &c.recipient_public_key {
            Some(text) => match base64_url_no_pad_decode(text.as_str()) {
                Some(bytes) => bytes,
                None => {
                    return Err(invalid("contacts.recipient_public_key"));
                },
            },
            None => {
                return Err(invalid("contacts.recipient_public_key"));
            },
        };
        out.push(
            TzapPublicContactRecord {
                contact_id: c.contact_id.clone(),
                display_name: c.display_name.clone(),
                signing_certificate_sha256: c.signing_certificate_sha256.clone(),
                recipient_public_key_fingerprint: c.recipient_public_key_fingerprint.clone(),
                recipient_public_key_der: der,
                trust_source: c.trust_anchor_type.clone(),
                verification_state: c.verification_state.clone(),
                missing_status_caveat: c.missing_status_caveat,
                contact_card_payload: c.contact_card_payload.clone(),
                accepted_at_unix_seconds: c.accepted_at_unix_seconds,
            },
        );
        i += 1;
    }
    Ok(out)
}

/// `rec` is the status cache record migrated from `s`: times in decimal.
pub open spec fn status_record(rec: TzapPublicStatusCacheRecord, s: TzapCertificateStatusCacheRecord) -> bool {
    &&& rec.lookup_id@ == s.certificate_sha256@
    &&& rec.status@ == s.status@
    &&& rec.this_update@ == decimal_string(s.this_update_unix_seconds as nat)
    &&& rec.next_update@ == decimal_string(s.next_update_unix_seconds as nat)
}

fn status_records(cache: &Vec<TzapCertificateStatusCacheRecord>) -> (r: Vec<TzapPublicStatusCacheRecord>)
    ensures
        r@.len() == cache@.len(),
        forall|i: int| 0 <= i < cache@.len() ==> status_record(#[trigger] r@[i], cache@[i]),
{
    let mut out: Vec<TzapPublicStatusCacheRecord> = Vec::new();
    let mut i: usize = 0;
    while i < cache.len()
        invariant
            i <= cache@.len(),
            out@.len() == i,
            forall|k: int| 0 <= k < i ==> status_record(#[trigger] out@[k], cache@[k]),
        decreases cache@.len() - i,
    {
        let s = &cache[i];
        out.push(
            TzapPublicStatusCacheRecord {
                lookup_id: s.certificate_sha256.clone(),
                status: s.status.clone(),
                this_update: decimal_text(s.this_update_unix_seconds),
                next_update: decimal_text(s.next_update_unix_seconds),
            },
        );
        i += 1;
    }
    out
}

pub open spec fn texts(v: Seq<String>) -> Seq<Seq<char>> {
    Seq::new(v.len(), |i: int| v[i]@)
}

fn copy_strings(v: &Vec<String>) -> (r: Vec<String>)
    ensures
        texts(r@) == texts(v@),
{
    let mut out: Vec<String> = Vec::new();
    let mut i: usize = 0;
    while i < v.len()
        invariant
            i <= v@.len(),
            out@.len() == i,
            forall|k: int| 0 <= k < i ==> (#[trigger] out@[k])@ == v@[k]@,
        decreases v@.len() - i,
    {
        out.push(v[i].clone());
        i += 1;
    }
    assert(texts(out@) =~= texts(v@));
    out
}

/// Why a legacy inventory cannot be migrated, checked in this order: a
/// signing key record, a recipient key record, a certificate naming no key
/// record, a contact without a readable recipient key.
pub open spec fn inventory_defect(inv: TzapLocalIdentityInventory) -> Option<Seq<char>> {
    if first_signing_key_defect(inv.device_signing_keys@) is Some {
        first_signing_key_defect(inv.device_signing_keys@)
    } else if first_recipient_key_defect(inv.recipient_encryption_keys@) is Some {
        first_recipient_key_defect(inv.recipient_encryption_keys@)
    } else if certificate_without_key(inv.enrolled_certificates@, signing_key_ids(inv.device_signing_keys@)) {
        Some("enrolled_certificates.signing_key_id"@)
    } else if exists|i: int| 0 <= i < inv.contacts@.len() && contact_public_key(#[trigger] inv.contacts@[i]) is None {
        Some("contacts.recipient_public_key"@)
    } else {
        None
    }
}

/// `c` is the catalog migrated at time `now` from `inv`, with the secret
/// references `srefs` (signing keys) and `rrefs` (recipient keys): revision
/// one, every record carried over, and a pending migration marker.
pub open spec fn migrated_catalog(
    c: TzapIdentityCatalog,
    inv: TzapLocalIdentityInventory,
    now: u64,
    srefs: Seq<(String, TzapSecretRef)>,
    rrefs: Seq<(String, TzapSecretRef)>,
) -> bool {
    &&& c.schema_version == crate::identity_catalog::PUBLIC_CATALOG_SCHEMA_VERSION
    &&& c.catalog_id@.len() > 0
    &&& c.revision == 1
    &&& c.default_signing_identity_id is None
    &&& migrated_identities(c.signing_identities@, inv.enrolled_certificates@, inv.device_signing_keys@, srefs)
    &&& c.recipient_keys@.len() == inv.recipient_encryption_keys@.len()
    &&& forall|i: int|
        0 <= i < c.recipient_keys@.len() ==> recipient_record(
            #[trigger] c.recipient_keys@[i],
            inv.recipient_encryption_keys@[i],
            ref_for(rrefs, inv.recipient_encryption_keys@[i].key_id@)->0,
        )
    &&& c.contacts@.len() == inv.contacts@.len()
    &&& forall|i: int| 0 <= i < c.contacts@.len() ==> contact_record(#[trigger] c.contacts@[i], inv.contacts@[i])
    &&& c.status_cache@.len() == inv.certificate_status_cache@.len()
    &&& forall|i: int|
        0 <= i < c.status_cache@.len() ==> status_record(#[trigger] c.status_cache@[i], inv.certificate_status_cache@[i])
    &&& texts(c.emergency_blocklist.blocked_root_sha256@) == texts(inv.emergency_blocklist.blocked_root_sha256@)
    &&& texts(c.emergency_blocklist.blocked_issuer_sha256@) == texts(inv.emergency_blocklist.blocked_issuer_sha256@)
    &&& c.emergency_blocklist.updated_at_unix_seconds == inv.emergency_blocklist.updated_at_unix_seconds
    &&& c.pending_mutations@ == seq![PendingMutation::LegacyMigration { started_at_unix_seconds: now }]
}

/// Builds the public catalog, and a fresh secret reference for each key
/// record, from a legacy inventory, without writing to any store. The
/// catalog must then pass validation.
pub fn build_catalog_from_legacy(inventory: &TzapLocalIdentityInventory, now_unix_seconds: u64) -> (r: Result<
    (TzapIdentityCatalog, Vec<(String, TzapSecretRef)>, Vec<(String, TzapSecretRef)>),
    TzapIdentityCatalogError,
>)
    ensures
        match inventory_defect(*inventory) {
            Some(f) => r matches Err(TzapIdentityCatalogError::InvalidCatalog { field }) && field@ == f,
            None => match r {
                Ok((c, srefs, rrefs)) => {
                    &&& migrated_catalog(c, *inventory, now_unix_seconds, srefs@, rrefs@)
                    &&& fresh_refs_for(srefs@, signing_key_ids(inventory.device_signing_keys@))
                    &&& fresh_refs_for(rrefs@, recipient_key_ids(inventory.recipient_encryption_keys@))
                    &&& catalog_defect(c) is None
                },
                Err(e) => exists|c: TzapIdentityCatalog, srefs: Seq<(String, TzapSecretRef)>, rrefs: Seq<(String, TzapSecretRef)>|
                    #[trigger] migrated_catalog(c, *inventory, now_unix_seconds, srefs, rrefs)
                        && fresh_refs_for(srefs, signing_key_ids(inventory.device_signing_keys@))
                        && fresh_refs_for(rrefs, recipient_key_ids(inventory.recipient_encryption_keys@))
                        && (e matches TzapIdentityCatalogError::InvalidCatalog { field } && catalog_defect(c) == Some(field@)),
            },
        },
{
    let srefs = signing_refs(&inventory.device_signing_keys)?;
    let rrefs = recipient_refs(&inventory.recipient_encryption_keys)?;
    let signing_identities = signing_identities(&inventory.enrolled_certificates, &inventory.device_signing_keys, &srefs)?;
    let recipient_keys = recipient_records(&inventory.recipient_encryption_keys, &rrefs)?;
    let contacts = contact_records(&inventory.contacts)?;
    let status_cache = status_records(&inventory.certificate_status_cache);
    let emergency_blocklist = TzapPublicEmergencyBlocklist {
        blocked_root_sha256: copy_strings(&inventory.emergency_blocklist.blocked_root_sha256),
        blocked_issuer_sha256: copy_strings(&inventory.emergency_blocklist.blocked_issuer_sha256),
        updated_at_unix_seconds: inventory.emergency_blocklist.updated_at_unix_seconds,
    };
    let empty = TzapIdentityCatalog::empty();
    let mut pending_mutations: Vec<PendingMutation> = Vec::new();
    pending_mutations.push(PendingMutation::LegacyMigration { started_at_unix_seconds: now_unix_seconds });
    let catalog = TzapIdentityCatalog {
        schema_version: empty.schema_version,
        catalog_id: empty.catalog_id,
        revision: 1,
        default_signing_identity_id: None,
        signing_identities,
        recipient_keys,
        contacts,
        status_cache,
        emergency_blocklist,
        pending_mutations,
    };
    assert(catalog.pending_mutations@ =~= seq![PendingMutation::LegacyMigration { started_at_unix_seconds: now_unix_seconds }]);
    assert(migrated_catalog(catalog, *inventory, now_unix_seconds, srefs@, rrefs@));
    match catalog.validate() {
        Ok(()) => Ok((catalog, srefs, rrefs)),
        Err(e) => Err(e),
    }
}

/// Every secret reference of the catalog resolves in `secrets`: the signing
/// identities' under the signing-key purpose, the recipient keys' under the
/// recipient-key purpose.
pub open spec fn refs_stored(c: TzapIdentityCatalog, secrets: Map<(TzapSecretPurpose, Seq<char>), Seq<u8>>) -> bool {
    &&& forall|i: int|
        0 <= i < signing_refs_of(c).len() ==> secrets.dom().contains((TzapSecretPurpose::SigningKey, #[trigger] signing_refs_of(c)[i]))
    &&& forall|i: int|
        0 <= i < recipient_refs_of(c).len() ==> secrets.dom().contains((TzapSecretPurpose::RecipientKey, #[trigger] recipient_refs_of(c)[i]))
}

/// The revision after `r`, saturating.
pub open spec fn next_revision(r: u64) -> u64 {
    if r < u64::MAX {
        (r + 1) as u64
    } else {
        u64::MAX
    }
}

/// The catalog saved under `key` is committed: no mutation is pending and
/// every reference it holds resolves in `secrets`.
pub open spec fn committed(
    catalogs: Map<Seq<char>, TzapIdentityCatalog>,
    key: Seq<char>,
    secrets: Map<(TzapSecretPurpose, Seq<char>), Seq<u8>>,
) -> bool {
    &&& catalogs.dom().contains(key)
    &&& catalogs[key].pending_mutations@.len() == 0
    &&& refs_stored(catalogs[key], secrets)
}

fn secret_error(e: TzapSecretStoreError) -> (r: TzapIdentityCatalogError)
    ensures
        r == TzapIdentityCatalogError::Secret(e),
{
    TzapIdentityCatalogError::Secret(e)
}

/// Commits a built catalog: the public intent is written first, then every
/// private key goes into the secret store under its recorded reference, the
/// stored references are checked, and the pending-migration marker is
/// cleared under the next revision.
fn commit_migration<C: TzapIdentityCatalogStore, S: TzapSecretMaterialStore>(
    catalog_store: &mut C,
    secret_store: &mut S,
    account_key: &str,
    catalog: TzapIdentityCatalog,
    inventory: &TzapLocalIdentityInventory,
    srefs: &Vec<(String, TzapSecretRef)>,
    rrefs: &Vec<(String, TzapSecretRef)>,
) -> (r: Result<(), TzapIdentityCatalogError>)
    ensures
        final(catalog_store).keeps_catalogs() == old(catalog_store).keeps_catalogs(),
        final(secret_store).keeps_secrets() == old(secret_store).keeps_secrets(),
        r is Ok && old(catalog_store).keeps_catalogs() && old(secret_store).keeps_secrets() ==> {
            let saved = final(catalog_store).catalogs()[account_key@];
            &&& committed(final(catalog_store).catalogs(), account_key@, final(secret_store).secrets())
            &&& saved.revision == next_revision(catalog.revision)
            &&& signing_refs_of(saved) == signing_refs_of(catalog)
            &&& recipient_refs_of(saved) == recipient_refs_of(catalog)
        },
{
    let ghost first = catalog;
    catalog_store.save_catalog(account_key, None, catalog)?;
    let mut i: usize = 0;
    while i < inventory.device_signing_keys.len()
        invariant
            i <= inventory.device_signing_keys@.len(),
            catalog_store.keeps_catalogs() == old(catalog_store).keeps_catalogs(),
            secret_store.keeps_secrets() == old(secret_store).keeps_secrets(),
        decreases inventory.device_signing_keys@.len() - i,
    {
        let record = &inventory.device_signing_keys[i];
        let reference = match lookup_ref(srefs, record.key_id.as_str()) {
            Some(reference) => reference,
            None => {
                return Err(invalid("migration.signing_refs"));
            },
        };
        if let Err(e) = secret_store.put_at(TzapSecretPurpose::SigningKey, &reference, copy_bytes(&record.private_key_der)) {
            return Err(secret_error(e));
        }
        i += 1;
    }
    let mut i: usize = 0;
    while i < inventory.recipient_encryption_keys.len()
        invariant
            i <= inventory.recipient_encryption_keys@.len(),
            catalog_store.keeps_catalogs() == old(catalog_store).keeps_catalogs(),
            secret_store.keeps_secrets() == old(secret_store).keeps_secrets(),
        decreases inventory.recipient_encryption_keys@.len() - i,
    {
        let record = &inventory.recipient_encryption_keys[i];
        let reference = match lookup_ref(rrefs, record.key_id.as_str()) {
            Some(reference) => reference,
            None => {
                return Err(invalid("migration.recipient_refs"));
            },
        };
        if let Err(e) = secret_store.put_at(TzapSecretPurpose::RecipientKey, &reference, copy_bytes(&record.private_key_der)) {
            return Err(secret_error(e));
        }
        i += 1;
    }
    let mut committed = match catalog_store.load_catalog(account_key)? {
        Some(c) => c,
        None => {
            return Err(invalid("migration.catalog"));
        },
    };
    resolve_all(secret_store, &committed)?;
    committed.pending_mutations = Vec::new();
    let expected_revision = committed.revision;
    committed.revision = committed.revision.saturating_add(1);
    catalog_store.save_catalog(account_key, Some(expected_revision), committed)
}

/// Checks that every reference of the catalog resolves in the secret store.
fn resolve_all<S: TzapSecretMaterialStore>(secret_store: &S, catalog: &TzapIdentityCatalog) -> (r: Result<(), TzapIdentityCatalogError>)
    ensures
        secret_store.keeps_secrets() ==> (r is Ok ==> refs_stored(*catalog, secret_store.secrets())),
        secret_store.keeps_secrets() && !refs_stored(*catalog, secret_store.secrets()) ==> r is Err,
{
    let mut i: usize = 0;
    while i < catalog.signing_identities.len()
        invariant
            i <= catalog.signing_identities@.len(),
            secret_store.keeps_secrets() ==> forall|k: int|
                0 <= k < i ==> secret_store.secrets().dom().contains(
                    (TzapSecretPurpose::SigningKey, #[trigger] signing_refs_of(*catalog)[k]),
                ),
        decreases catalog.signing_identities@.len() - i,
    {
        if let Err(e) = secret_store.resolve(TzapSecretPurpose::SigningKey, &catalog.signing_identities[i].signing_key_ref) {
            return Err(secret_error(e));
        }
        assert(signing_refs_of(*catalog)[i as int] == catalog.signing_identities@[i as int].signing_key_ref@);
        i += 1;
    }
    let mut i: usize = 0;
    while i < catalog.recipient_keys.len()
        invariant
            i <= catalog.recipient_keys@.len(),
            secret_store.keeps_secrets() ==> forall|k: int|
                0 <= k < signing_refs_of(*catalog).len() ==> secret_store.secrets().dom().contains(
                    (TzapSecretPurpose::SigningKey, #[trigger] signing_refs_of(*catalog)[k]),
                ),
            secret_store.keeps_secrets() ==> forall|k: int|
                0 <= k < i ==> secret_store.secrets().dom().contains(
                    (TzapSecretPurpose::RecipientKey, #[trigger] recipient_refs_of(*catalog)[k]),
                ),
        decreases catalog.recipient_keys@.len() - i,
    {
        if let Err(e) = secret_store.resolve(TzapSecretPurpose::RecipientKey, &catalog.recipient_keys[i].private_key_ref) {
            return Err(secret_error(e));
        }
        assert(recipient_refs_of(*catalog)[i as int] == catalog.recipient_keys@[i as int].private_key_ref@);
        i += 1;
    }
    Ok(())
}

/// Position of the last of `ids` equal to `id`.
pub open spec fn last_index_of_id(ids: Seq<Seq<char>>, id: Seq<char>) -> Option<int>
    decreases ids.len(),
{
    if ids.len() == 0 {
        None
    } else if ids.last() == id {
        Some(ids.len() - 1)
    } else {
        last_index_of_id(ids.drop_last(), id)
    }
}

/// Scanning back from the end: when nothing from `k` on is `id`, the last
/// `id` is at `k - 1` if that one is, and there is none when `k` is zero.
proof fn lemma_last_index_from_end(ids: Seq<Seq<char>>, id: Seq<char>, k: int)
    requires
        0 <= k <= ids.len(),
        forall|j: int| k <= j < ids.len() ==> ids[j] != id,
    ensures
        k > 0 && ids[k - 1] == id ==> last_index_of_id(ids, id) == Some(k - 1),
        k == 0 ==> last_index_of_id(ids, id) is None,
    decreases ids.len(),
{
    if ids.len() > k {
        assert(ids[ids.len() - 1] != id);
        assert forall|j: int| k <= j < ids.drop_last().len() implies ids.drop_last()[j] != id by {
            assert(ids.drop_last()[j] == ids[j]);
        }
        lemma_last_index_from_end(ids.drop_last(), id, k);
        if k > 0 {
            assert(ids.drop_last()[k - 1] == ids[k - 1]);
        }
    } else if ids.len() > 0 && k == 0 {
        assert(ids[ids.len() - 1] != id);
        assert forall|j: int| 0 <= j < ids.drop_last().len() implies ids.drop_last()[j] != id by {
            assert(ids.drop_last()[j] == ids[j]);
        }
        lemma_last_index_from_end(ids.drop_last(), id, 0);
    }
}

pub open spec fn signing_key_ids_of(keys: Seq<TzapDeviceSigningKeyRecord>) -> Seq<Seq<char>> {
    keys.map_values(|k: TzapDeviceSigningKeyRecord| k.key_id@)
}

pub open spec fn recipient_key_ids_of(keys: Seq<TzapRecipientEncryptionKeyRecord>) -> Seq<Seq<char>> {
    keys.map_values(|k: TzapRecipientEncryptionKeyRecord| k.key_id@)
}

pub open spec fn certificate_ids_of(certs: Seq<TzapEnrolledCertificateRecord>) -> Seq<Seq<char>> {
    certs.map_values(|c: TzapEnrolledCertificateRecord| c.certificate_id@)
}

/// The private key of the last signing key record with the id `id`.
pub open spec fn signing_material_of(keys: Seq<TzapDeviceSigningKeyRecord>, id: Seq<char>) -> Option<Seq<u8>> {
    match last_index_of_id(signing_key_ids_of(keys), id) {
        Some(j) => Some(keys[j].private_key_der@),
        None => None,
    }
}

/// The private key of the last recipient key record with the id `id`.
pub open spec fn recipient_material_of(keys: Seq<TzapRecipientEncryptionKeyRecord>, id: Seq<char>) -> Option<Seq<u8>> {
    match last_index_of_id(recipient_key_ids_of(keys), id) {
        Some(j) => Some(keys[j].private_key_der@),
        None => None,
    }
}

/// The key a signing identity's secret comes from: the signing key of the
/// last enrolled certificate with the identity's id, or the identity's own
/// id when no certificate has it.
pub open spec fn identity_source_key(certs: Seq<TzapEnrolledCertificateRecord>, id: Seq<char>) -> Seq<char> {
    match last_index_of_id(certificate_ids_of(certs), id) {
        Some(j) => certs[j].signing_key_id@,
        None => id,
    }
}

/// The private key of the last signing key record with the id.
fn signing_key_material(keys: &Vec<TzapDeviceSigningKeyRecord>, id: &str) -> (r: Option<Vec<u8>>)
    ensures
        match signing_material_of(keys@, id@) {
            Some(m) => r matches Some(v) && v@ == m,
            None => r is None,
        },
{
    let ghost ids = signing_key_ids_of(keys@);
    let mut k = keys.len();
    while k > 0
        invariant
            k <= keys@.len(),
            ids == signing_key_ids_of(keys@),
            forall|j: int| k <= j < ids.len() ==> ids[j] != id@,
        decreases k,
    {
        if str_eq(keys[k - 1].key_id.as_str(), id) {
            proof {
                lemma_last_index_from_end(ids, id@, k as int);
            }
            return Some(copy_bytes(&keys[k - 1].private_key_der));
        }
        k -= 1;
    }
    proof {
        lemma_last_index_from_end(ids, id@, 0);
    }
    None
}

/// The private key of the last recipient key record with the id.
fn recipient_key_material(keys: &Vec<TzapRecipientEncryptionKeyRecord>, id: &str) -> (r: Option<Vec<u8>>)
    ensures
        match recipient_material_of(keys@, id@) {
            Some(m) => r matches Some(v) && v@ == m,
            None => r is None,
        },
{
    let ghost ids = recipient_key_ids_of(keys@);
    let mut k = keys.len();
    while k > 0
        invariant
            k <= keys@.len(),
            ids == recipient_key_ids_of(keys@),
            forall|j: int| k <= j < ids.len() ==> ids[j] != id@,
        decreases k,
    {
        if str_eq(keys[k - 1].key_id.as_str(), id) {
            proof {
                lemma_last_index_from_end(ids, id@, k as int);
            }
            return Some(copy_bytes(&keys[k - 1].private_key_der));
        }
        k -= 1;
    }
    proof {
        lemma_last_index_from_end(ids, id@, 0);
    }
    None
}

/// The signing key id of the last certificate with the id.
fn certificate_signing_key(certs: &Vec<TzapEnrolledCertificateRecord>, id: &str) -> (r: Option<String>)
    ensures
        match last_index_of_id(certificate_ids_of(certs@), id@) {
            Some(j) => r matches Some(s) && s@ == certs@[j].signing_key_id@,
            None => r is None,
        },
{
    let ghost ids = certificate_ids_of(certs@);
    let mut k = certs.len();
    while k > 0
        invariant
            k <= certs@.len(),
            ids == certificate_ids_of(certs@),
            forall|j: int| k <= j < ids.len() ==> ids[j] != id@,
        decreases k,
    {
        if str_eq(certs[k - 1].certificate_id.as_str(), id) {
            proof {
                lemma_last_index_from_end(ids, id@, k as int);
            }
            return Some(certs[k - 1].signing_key_id.clone());
        }
        k -= 1;
    }
    proof {
        lemma_last_index_from_end(ids, id@, 0);
    }
    None
}

/// What restoring one secret of a pending migration does.
pub enum SecretRestore {
    /// The secret is stored already: nothing is written.
    Present,
    /// The secret is missing: these bytes are written under its reference.
    Write(Vec<u8>),
}

/// The restore step for the secret of a signing identity, given whether
/// the secret store reports it missing: a stored secret is kept; a missing
/// one is written from the inventory's key for the identity, and its
/// absence from the inventory is an invalid signing key reference.
pub fn restore_signing_secret(
    identity: &TzapPublicSigningIdentityRecord,
    inventory: &TzapLocalIdentityInventory,
    missing: bool,
) -> (r: Result<SecretRestore, TzapIdentityCatalogError>)
    ensures
        !missing ==> r matches Ok(SecretRestore::Present),
        missing ==> match signing_material_of(
            inventory.device_signing_keys@,
            identity_source_key(inventory.enrolled_certificates@, identity.id@),
        ) {
            Some(m) => r matches Ok(SecretRestore::Write(w)) && w@ == m,
            None => r matches Err(TzapIdentityCatalogError::InvalidCatalog { field }) && field@
                == "legacy_migration.signing_key_ref"@,
        },
{
    if !missing {
        return Ok(SecretRestore::Present);
    }
    let key_id = match certificate_signing_key(&inventory.enrolled_certificates, identity.id.as_str()) {
        Some(id) => id,
        None => identity.id.clone(),
    };
    match signing_key_material(&inventory.device_signing_keys, key_id.as_str()) {
        Some(m) => Ok(SecretRestore::Write(m)),
        None => Err(invalid("legacy_migration.signing_key_ref")),
    }
}

/// The restore step for the secret of a recipient key, given whether the
/// secret store reports it missing: a stored secret is kept; a missing one
/// is written from the inventory's key with the same id, and its absence
/// from the inventory is an invalid recipient key reference.
pub fn restore_recipient_secret(
    key: &TzapPublicRecipientKeyRecord,
    inventory: &TzapLocalIdentityInventory,
    missing: bool,
) -> (r: Result<SecretRestore, TzapIdentityCatalogError>)
    ensures
        !missing ==> r matches Ok(SecretRestore::Present),
        missing ==> match recipient_material_of(inventory.recipient_encryption_keys@, key.id@) {
            Some(m) => r matches Ok(SecretRestore::Write(w)) && w@ == m,
            None => r matches Err(TzapIdentityCatalogError::InvalidCatalog { field }) && field@
                == "legacy_migration.recipient_key_ref"@,
        },
{
    if !missing {
        return Ok(SecretRestore::Present);
    }
    match recipient_key_material(&inventory.recipient_encryption_keys, key.id.as_str()) {
        Some(m) => Ok(SecretRestore::Write(m)),
        None => Err(invalid("legacy_migration.recipient_key_ref")),
    }
}

/// Whether the store reports the reference missing.
fn is_missing<S: TzapSecretMaterialStore>(secret_store: &S, purpose: TzapSecretPurpose, reference: &TzapSecretRef) -> (r: bool)
    ensures
        secret_store.keeps_secrets() ==> r == !secret_store.secrets().dom().contains((purpose, reference@)),
{
    match secret_store.resolve(purpose, reference) {
        Err(TzapSecretStoreError::Missing { .. }) => true,
        _ => false,
    }
}

/// The secret store after restoring the secrets of `ids` in order, from
/// one holding `secrets`: a stored secret is kept, a missing one is written
/// from the inventory; `None` at the first missing secret the inventory
/// has no key for.
pub open spec fn restore_signing_spec(
    secrets: Map<(TzapSecretPurpose, Seq<char>), Seq<u8>>,
    ids: Seq<TzapPublicSigningIdentityRecord>,
    inventory: TzapLocalIdentityInventory,
) -> Option<Map<(TzapSecretPurpose, Seq<char>), Seq<u8>>>
    decreases ids.len(),
{
    if ids.len() == 0 {
        Some(secrets)
    } else {
        match restore_signing_spec(secrets, ids.drop_last(), inventory) {
            None => None,
            Some(m) => {
                let k = (TzapSecretPurpose::SigningKey, ids.last().signing_key_ref@);
                if m.dom().contains(k) {
                    Some(m)
                } else {
                    match signing_material_of(
                        inventory.device_signing_keys@,
                        identity_source_key(inventory.enrolled_certificates@, ids.last().id@),
                    ) {
                        Some(material) => Some(m.insert(k, material)),
                        None => None,
                    }
                }
            },
        }
    }
}

/// The same for the secrets of recipient keys.
pub open spec fn restore_recipient_spec(
    secrets: Map<(TzapSecretPurpose, Seq<char>), Seq<u8>>,
    keys: Seq<TzapPublicRecipientKeyRecord>,
    inventory: TzapLocalIdentityInventory,
) -> Option<Map<(TzapSecretPurpose, Seq<char>), Seq<u8>>>
    decreases keys.len(),
{
    if keys.len() == 0 {
        Some(secrets)
    } else {
        match restore_recipient_spec(secrets, keys.drop_last(), inventory) {
            None => None,
            Some(m) => {
                let k = (TzapSecretPurpose::RecipientKey, keys.last().private_key_ref@);
                if m.dom().contains(k) {
                    Some(m)
                } else {
                    match recipient_material_of(inventory.recipient_encryption_keys@, keys.last().id@) {
                        Some(material) => Some(m.insert(k, material)),
                        None => None,
                    }
                }
            },
        }
    }
}

/// The secret store after a pending migration of `catalog` restores its
/// secrets: those of the signing identities, then those of the recipient
/// keys.
pub open spec fn restored_secrets(
    secrets: Map<(TzapSecretPurpose, Seq<char>), Seq<u8>>,
    catalog: TzapIdentityCatalog,
    inventory: TzapLocalIdentityInventory,
) -> Option<Map<(TzapSecretPurpose, Seq<char>), Seq<u8>>> {
    match restore_signing_spec(secrets, catalog.signing_identities@, inventory) {
        None => None,
        Some(m) => restore_recipient_spec(m, catalog.recipient_keys@, inventory),
    }
}

/// Resumes a migration whose public catalog was committed but whose secret
/// writes did not finish: each missing secret is written again from the
/// intact legacy inventory under the catalog's own reference, so no second
/// set of references is made.
fn resume_pending_migration<C: TzapIdentityCatalogStore, S: TzapSecretMaterialStore>(
    inventory: &TzapLocalIdentityInventory,
    catalog_store: &mut C,
    secret_store: &mut S,
    account_key: &str,
    catalog: TzapIdentityCatalog,
) -> (r: Result<TzapLegacyMigrationReport, TzapIdentityCatalogError>)
    ensures
        final(catalog_store).keeps_catalogs() == old(catalog_store).keeps_catalogs(),
        final(secret_store).keeps_secrets() == old(secret_store).keeps_secrets(),
        r is Ok ==> r->Ok_0.migrated,
        old(secret_store).keeps_secrets() && r is Ok ==> restored_secrets(old(secret_store).secrets(), catalog, *inventory)
            == Some(final(secret_store).secrets()),
        old(secret_store).keeps_secrets() && restored_secrets(old(secret_store).secrets(), catalog, *inventory) is None ==> r is Err,
        r matches Ok(report) ==> (old(catalog_store).keeps_catalogs() && old(secret_store).keeps_secrets() ==> {
            let saved = final(catalog_store).catalogs()[account_key@];
            &&& report.migrated
            &&& committed(final(catalog_store).catalogs(), account_key@, final(secret_store).secrets())
            &&& saved.revision == next_revision(catalog.revision)
            &&& signing_refs_of(saved) == signing_refs_of(catalog)
            &&& recipient_refs_of(saved) == recipient_refs_of(catalog)
            &&& report.signing_identity_count == signing_refs_of(catalog).len()
            &&& report.recipient_key_count == recipient_refs_of(catalog).len()
        }),
{
    let ghost start = secret_store.secrets();
    let mut catalog = catalog;
    let ghost first = catalog;
    let mut i: usize = 0;
    while i < catalog.signing_identities.len()
        invariant
            i <= catalog.signing_identities@.len(),
            catalog == first,
            secret_store.keeps_secrets() == old(secret_store).keeps_secrets(),
            start == old(secret_store).secrets(),
            secret_store.keeps_secrets() ==> restore_signing_spec(start, catalog.signing_identities@.take(i as int), *inventory)
                == Some(secret_store.secrets()),
        decreases catalog.signing_identities@.len() - i,
    {
        let identity = &catalog.signing_identities[i];
        let missing = is_missing(secret_store, TzapSecretPurpose::SigningKey, &identity.signing_key_ref);
        proof {
            assert(catalog.signing_identities@.take(i as int + 1).drop_last() =~= catalog.signing_identities@.take(i as int));
        }
        match restore_signing_secret(identity, inventory, missing) {
            Ok(SecretRestore::Present) => {},
            Ok(SecretRestore::Write(material)) => {
                if let Err(e) = secret_store.put_at(TzapSecretPurpose::SigningKey, &identity.signing_key_ref, material) {
                    return Err(secret_error(e));
                }
            },
            Err(e) => {
                return Err(e);
            },
        }
        i += 1;
    }
    proof {
        assert(catalog.signing_identities@.take(i as int) =~= catalog.signing_identities@);
    }
    let ghost middle = secret_store.secrets();
    let mut i: usize = 0;
    while i < catalog.recipient_keys.len()
        invariant
            i <= catalog.recipient_keys@.len(),
            catalog == first,
            secret_store.keeps_secrets() == old(secret_store).keeps_secrets(),
            start == old(secret_store).secrets(),
            secret_store.keeps_secrets() ==> restore_signing_spec(start, catalog.signing_identities@, *inventory) == Some(middle),
            secret_store.keeps_secrets() ==> restore_recipient_spec(middle, catalog.recipient_keys@.take(i as int), *inventory)
                == Some(secret_store.secrets()),
        decreases catalog.recipient_keys@.len() - i,
    {
        let key = &catalog.recipient_keys[i];
        let missing = is_missing(secret_store, TzapSecretPurpose::RecipientKey, &key.private_key_ref);
        proof {
            assert(catalog.recipient_keys@.take(i as int + 1).drop_last() =~= catalog.recipient_keys@.take(i as int));
        }
        match restore_recipient_secret(key, inventory, missing) {
            Ok(SecretRestore::Present) => {},
            Ok(SecretRestore::Write(material)) => {
                if let Err(e) = secret_store.put_at(TzapSecretPurpose::RecipientKey, &key.private_key_ref, material) {
                    return Err(secret_error(e));
                }
            },
            Err(e) => {
                return Err(e);
            },
        }
        i += 1;
    }
    proof {
        assert(catalog.recipient_keys@.take(i as int) =~= catalog.recipient_keys@);
    }
    resolve_all(secret_store, &catalog)?;
    catalog.pending_mutations = Vec::new();
    let expected_revision = catalog.revision;
    catalog.revision = catalog.revision.saturating_add(1);
    let signing_identity_count = catalog.signing_identities.len();
    let recipient_key_count = catalog.recipient_keys.len();
    catalog_store.save_catalog(account_key, Some(expected_revision), catalog)?;
    Ok(TzapLegacyMigrationReport { migrated: true, signing_identity_count, recipient_key_count })
}

/// How a legacy migration goes on from what the catalog store holds for
/// the account.
pub enum MigrationStart {
    /// A completed catalog: nothing is written, and this is the report.
    Done(TzapLegacyMigrationReport),
    /// A catalog with a pending migration marker: the migration resumes.
    Resume(TzapIdentityCatalog),
    /// No catalog: the inventory is migrated.
    Migrate,
}

/// Decides how a migration goes on from the catalog loaded for the account
/// (`None` when there is none): a completed catalog is reported, unmigrated,
/// with its counts; a pending one resumes; none is migrated.
pub fn migration_start(loaded: Option<TzapIdentityCatalog>) -> (r: MigrationStart)
    ensures
        match loaded {
            None => r is Migrate,
            Some(c) => if pending_legacy_migration(c) {
                r matches MigrationStart::Resume(d) && d == c
            } else {
                r matches MigrationStart::Done(report) && !report.migrated && report.signing_identity_count
                    == c.signing_identities@.len() && report.recipient_key_count == c.recipient_keys@.len()
            },
        },
{
    match loaded {
        None => MigrationStart::Migrate,
        Some(catalog) => {
            if has_pending_legacy_migration(&catalog) {
                MigrationStart::Resume(catalog)
            } else {
                MigrationStart::Done(
                    TzapLegacyMigrationReport {
                        migrated: false,
                        signing_identity_count: catalog.signing_identities.len(),
                        recipient_key_count: catalog.recipient_keys.len(),
                    },
                )
            }
        },
    }
}

/// Moves the private bytes of a legacy inventory into the secret store and
/// writes only public metadata and opaque references to the catalog. An
/// already completed catalog makes this a no-op; a catalog marked with a
/// pending migration is resumed from the intact inventory.
pub fn migrate_legacy_inventory<C: TzapIdentityCatalogStore, S: TzapSecretMaterialStore>(
    inventory: &TzapLocalIdentityInventory,
    catalog_store: &mut C,
    secret_store: &mut S,
    account_key: &str,
    now_unix_seconds: u64,
) -> (r: Result<TzapLegacyMigrationReport, TzapIdentityCatalogError>)
    ensures
        final(catalog_store).keeps_catalogs() == old(catalog_store).keeps_catalogs(),
        final(secret_store).keeps_secrets() == old(secret_store).keeps_secrets(),
        r matches Ok(report) ==> (old(catalog_store).keeps_catalogs() && old(secret_store).keeps_secrets() ==> if report.migrated {
            let saved = final(catalog_store).catalogs()[account_key@];
            &&& committed(final(catalog_store).catalogs(), account_key@, final(secret_store).secrets())
            &&& report.signing_identity_count == signing_refs_of(saved).len()
            &&& report.recipient_key_count == recipient_refs_of(saved).len()
        } else {
            let stored = old(catalog_store).catalogs()[account_key@];
            &&& old(catalog_store).catalogs().dom().contains(account_key@)
            &&& !pending_legacy_migration(stored)
            &&& report.signing_identity_count == signing_refs_of(stored).len()
            &&& report.recipient_key_count == recipient_refs_of(stored).len()
        }),
        r is Ok && old(catalog_store).keeps_catalogs() && !old(catalog_store).catalogs().dom().contains(account_key@)
            ==> inventory_defect(*inventory) is None && r->Ok_0.migrated,
        r is Ok && old(catalog_store).keeps_catalogs() && old(catalog_store).catalogs().dom().contains(account_key@)
            && pending_legacy_migration(old(catalog_store).catalogs()[account_key@]) ==> r->Ok_0.migrated,
        old(catalog_store).keeps_catalogs() && !old(catalog_store).catalogs().dom().contains(account_key@)
            && inventory_defect(*inventory) is Some ==> {
            &&& r is Err
            &&& *final(catalog_store) == *old(catalog_store)
            &&& *final(secret_store) == *old(secret_store)
        },
{
    let loaded = catalog_store.load_catalog(account_key)?;
    proof {
        if loaded is Some {
            let catalog = loaded->0;
            let stored = catalog_store.catalogs()[account_key@];
            crate::identity_catalog::lemma_pending_iff_any(catalog);
            crate::identity_catalog::lemma_pending_iff_any(stored);
        }
    }
    match migration_start(loaded) {
        MigrationStart::Done(report) => {
            return Ok(report);
        },
        MigrationStart::Resume(catalog) => {
            return resume_pending_migration(inventory, catalog_store, secret_store, account_key, catalog);
        },
        MigrationStart::Migrate => {},
    }
    let (catalog, srefs, rrefs) = build_catalog_from_legacy(inventory, now_unix_seconds)?;
    commit_migration(catalog_store, secret_store, account_key, catalog, inventory, &srefs, &rrefs)?;
    let committed = match catalog_store.load_catalog(account_key)? {
        Some(c) => c,
        None => {
            return Err(invalid("migration.catalog"));
        },
    };
    Ok(
        TzapLegacyMigrationReport {
            migrated: true,
            signing_identity_count: committed.signing_identities.len(),
            recipient_key_count: committed.recipient_keys.len(),
        },
    )
}

/// The key whose secret a signing identity holds: the key it was migrated
/// from, or, for a pending identity, its own id.
pub open spec fn identity_key(rec: TzapPublicSigningIdentityRecord) -> Seq<char> {
    match rec.legacy_key_id {
        Some(k) => k@,
        None => rec.id@,
    }
}

/// The reference of the last stored signing identity migrated from key `k`.
pub open spec fn kept_signing_ref(existing: Seq<TzapPublicSigningIdentityRecord>, k: Seq<char>) -> Option<Seq<char>>
    decreases existing.len(),
{
    if existing.len() == 0 {
        None
    } else if opt_text(existing.last().legacy_key_id) == Some(k) {
        Some(existing.last().signing_key_ref@)
    } else {
        kept_signing_ref(existing.drop_last(), k)
    }
}

/// The reference of the last stored recipient key with id `k`.
pub open spec fn kept_recipient_ref(existing: Seq<TzapPublicRecipientKeyRecord>, k: Seq<char>) -> Option<Seq<char>>
    decreases existing.len(),
{
    if existing.len() == 0 {
        None
    } else if existing.last().id@ == k {
        Some(existing.last().private_key_ref@)
    } else {
        kept_recipient_ref(existing.drop_last(), k)
    }
}

/// The reference a key keeps: the stored one where there is one, else the
/// fresh one.
pub open spec fn stable_ref(kept: Option<Seq<char>>, fresh: Seq<char>) -> Seq<char> {
    match kept {
        Some(e) => e,
        None => fresh,
    }
}

fn kept_signing(existing: &Vec<TzapPublicSigningIdentityRecord>, k: &str) -> (r: Option<TzapSecretRef>)
    ensures
        match kept_signing_ref(existing@, k@) {
            Some(x) => r matches Some(s) && s@ == x,
            None => r is None,
        },
{
    let mut n = existing.len();
    assert(existing@.take(n as int) =~= existing@);
    while n > 0
        invariant
            n <= existing@.len(),
            kept_signing_ref(existing@.take(n as int), k@) == kept_signing_ref(existing@, k@),
        decreases n,
    {
        assert(existing@.take(n as int).drop_last() =~= existing@.take(n - 1));
        assert(existing@.take(n as int).last() == existing@[n - 1]);
        let matches = match &existing[n - 1].legacy_key_id {
            Some(id) => str_eq(id.as_str(), k),
            None => false,
        };
        if matches {
            return Some(existing[n - 1].signing_key_ref.duplicate());
        }
        n -= 1;
    }
    assert(existing@.take(0) =~= Seq::<TzapPublicSigningIdentityRecord>::empty());
    None
}

fn kept_recipient(existing: &Vec<TzapPublicRecipientKeyRecord>, k: &str) -> (r: Option<TzapSecretRef>)
    ensures
        match kept_recipient_ref(existing@, k@) {
            Some(x) => r matches Some(s) && s@ == x,
            None => r is None,
        },
{
    let mut n = existing.len();
    assert(existing@.take(n as int) =~= existing@);
    while n > 0
        invariant
            n <= existing@.len(),
            kept_recipient_ref(existing@.take(n as int), k@) == kept_recipient_ref(existing@, k@),
        decreases n,
    {
        assert(existing@.take(n as int).drop_last() =~= existing@.take(n - 1));
        assert(existing@.take(n as int).last() == existing@[n - 1]);
        if str_eq(existing[n - 1].id.as_str(), k) {
            return Some(existing[n - 1].private_key_ref.duplicate());
        }
        n -= 1;
    }
    assert(existing@.take(0) =~= Seq::<TzapPublicRecipientKeyRecord>::empty());
    None
}

/// `refs` with each key's reference replaced by the one it keeps.
pub open spec fn kept_refs(
    refs: Seq<(String, TzapSecretRef)>,
    out: Seq<(String, TzapSecretRef)>,
    kept: spec_fn(Seq<char>) -> Option<Seq<char>>,
) -> bool {
    &&& out.len() == refs.len()
    &&& forall|i: int|
        0 <= i < refs.len() ==> (#[trigger] out[i]).0@ == refs[i].0@ && out[i].1@ == stable_ref(kept(refs[i].0@), refs[i].1@)
}

/// Gives every key of `srefs` and `rrefs` the reference it keeps from the
/// stored catalog.
fn keep_stored_refs(
    srefs: Vec<(String, TzapSecretRef)>,
    rrefs: Vec<(String, TzapSecretRef)>,
    existing: &TzapIdentityCatalog,
) -> (r: (Vec<(String, TzapSecretRef)>, Vec<(String, TzapSecretRef)>))
    ensures
        kept_refs(srefs@, r.0@, |k: Seq<char>| kept_signing_ref(existing.signing_identities@, k)),
        kept_refs(rrefs@, r.1@, |k: Seq<char>| kept_recipient_ref(existing.recipient_keys@, k)),
{
    let ghost s0 = srefs@;
    let ghost r0 = rrefs@;
    let mut rest = srefs;
    let mut out_s: Vec<(String, TzapSecretRef)> = Vec::new();
    while rest.len() > 0
        invariant
            out_s@.len() + rest@.len() == s0.len(),
            rest@ == s0.subrange(out_s@.len() as int, s0.len() as int),
            forall|i: int|
                0 <= i < out_s@.len() ==> (#[trigger] out_s@[i]).0@ == s0[i].0@ && out_s@[i].1@ == stable_ref(
                    kept_signing_ref(existing.signing_identities@, s0[i].0@),
                    s0[i].1@,
                ),
        decreases rest@.len(),
    {
        let ghost k = out_s@.len();
        let (key, fresh) = rest.remove(0);
        assert(s0[k as int] == (key, fresh));
        let kept = match kept_signing(&existing.signing_identities, key.as_str()) {
            Some(e) => e,
            None => fresh,
        };
        out_s.push((key, kept));
        assert(rest@ =~= s0.subrange(out_s@.len() as int, s0.len() as int));
    }
    let mut rest = rrefs;
    let mut out_r: Vec<(String, TzapSecretRef)> = Vec::new();
    while rest.len() > 0
        invariant
            out_r@.len() + rest@.len() == r0.len(),
            rest@ == r0.subrange(out_r@.len() as int, r0.len() as int),
            forall|i: int|
                0 <= i < out_r@.len() ==> (#[trigger] out_r@[i]).0@ == r0[i].0@ && out_r@[i].1@ == stable_ref(
                    kept_recipient_ref(existing.recipient_keys@, r0[i].0@),
                    r0[i].1@,
                ),
        decreases rest@.len(),
    {
        let ghost k = out_r@.len();
        let (key, fresh) = rest.remove(0);
        assert(r0[k as int] == (key, fresh));
        let kept = match kept_recipient(&existing.recipient_keys, key.as_str()) {
            Some(e) => e,
            None => fresh,
        };
        out_r.push((key, kept));
        assert(rest@ =~= r0.subrange(out_r@.len() as int, r0.len() as int));
    }
    (out_s, out_r)
}

/// The refs handed out after keeping: a key's reference is the one it keeps
/// where the stored catalog had one, and its fresh one otherwise.
pub proof fn lemma_kept_ref_for(
    refs: Seq<(String, TzapSecretRef)>,
    out: Seq<(String, TzapSecretRef)>,
    kept: spec_fn(Seq<char>) -> Option<Seq<char>>,
    k: Seq<char>,
)
    requires
        kept_refs(refs, out, kept),
    ensures
        ref_for(out, k) == match ref_for(refs, k) {
            Some(fresh) => Some(stable_ref(kept(k), fresh)),
            None => None,
        },
    decreases refs.len(),
{
    if refs.len() > 0 {
        let last = refs.len() - 1;
        assert(out[last].0@ == refs[last].0@);
        assert(kept_refs(refs.drop_last(), out.drop_last(), kept)) by {
            assert forall|i: int| 0 <= i < refs.drop_last().len() implies (#[trigger] out.drop_last()[i]).0@ == refs.drop_last()[i].0@
                && out.drop_last()[i].1@ == stable_ref(kept(refs.drop_last()[i].0@), refs.drop_last()[i].1@) by {
                assert(out.drop_last()[i] == out[i]);
                assert(refs.drop_last()[i] == refs[i]);
            }
        }
        lemma_kept_ref_for(refs.drop_last(), out.drop_last(), kept, k);
    }
}

/// The secret reference a record takes from `refs`: its key's, where the
/// key has one.
pub open spec fn ref_from(refs: Seq<(String, TzapSecretRef)>, key: Seq<char>, current: Seq<char>) -> Seq<char> {
    match ref_for(refs, key) {
        Some(x) => x,
        None => current,
    }
}

/// `c` is `before` with each signing identity's and recipient key's
/// reference taken from `srefs` and `rrefs` by its key, and nothing else
/// changed.
pub open spec fn refs_applied(
    c: TzapIdentityCatalog,
    before: TzapIdentityCatalog,
    srefs: Seq<(String, TzapSecretRef)>,
    rrefs: Seq<(String, TzapSecretRef)>,
) -> bool {
    &&& c == (TzapIdentityCatalog { signing_identities: c.signing_identities, recipient_keys: c.recipient_keys, ..before })
    &&& c.signing_identities@.len() == before.signing_identities@.len()
    &&& forall|i: int|
        0 <= i < c.signing_identities@.len() ==> {
            let old_rec = before.signing_identities@[i];
            &&& #[trigger] c.signing_identities@[i] == (TzapPublicSigningIdentityRecord {
                signing_key_ref: c.signing_identities@[i].signing_key_ref,
                ..old_rec
            })
            &&& c.signing_identities@[i].signing_key_ref@ == ref_from(srefs, identity_key(old_rec), old_rec.signing_key_ref@)
        }
    &&& c.recipient_keys@.len() == before.recipient_keys@.len()
    &&& forall|i: int|
        0 <= i < c.recipient_keys@.len() ==> {
            let old_rec = before.recipient_keys@[i];
            &&& #[trigger] c.recipient_keys@[i] == (TzapPublicRecipientKeyRecord { private_key_ref: c.recipient_keys@[i].private_key_ref, ..old_rec })
            &&& c.recipient_keys@[i].private_key_ref@ == ref_from(rrefs, old_rec.id@, old_rec.private_key_ref@)
        }
}

fn identity_key_of(rec: &TzapPublicSigningIdentityRecord) -> (r: &str)
    ensures
        r@ == identity_key(*rec),
{
    match &rec.legacy_key_id {
        Some(k) => k.as_str(),
        None => rec.id.as_str(),
    }
}

/// Takes each record's reference from the refs by its key.
fn apply_refs(
    catalog: TzapIdentityCatalog,
    srefs: &Vec<(String, TzapSecretRef)>,
    rrefs: &Vec<(String, TzapSecretRef)>,
) -> (r: TzapIdentityCatalog)
    ensures
        refs_applied(r, catalog, srefs@, rrefs@),
{
    let ghost before = catalog;
    let TzapIdentityCatalog {
        schema_version,
        catalog_id,
        revision,
        default_signing_identity_id,
        signing_identities,
        recipient_keys,
        contacts,
        status_cache,
        emergency_blocklist,
        pending_mutations,
    } = catalog;
    let ghost s0 = signing_identities@;
    let mut rest = signing_identities;
    let mut out_s: Vec<TzapPublicSigningIdentityRecord> = Vec::new();
    while rest.len() > 0
        invariant
            out_s@.len() + rest@.len() == s0.len(),
            rest@ == s0.subrange(out_s@.len() as int, s0.len() as int),
            forall|i: int|
                0 <= i < out_s@.len() ==> {
                    &&& #[trigger] out_s@[i] == (TzapPublicSigningIdentityRecord { signing_key_ref: out_s@[i].signing_key_ref, ..s0[i] })
                    &&& out_s@[i].signing_key_ref@ == ref_from(srefs@, identity_key(s0[i]), s0[i].signing_key_ref@)
                },
        decreases rest@.len(),
    {
        let ghost k = out_s@.len();
        let mut rec = rest.remove(0);
        assert(s0[k as int] == rec);
        let found = lookup_ref(srefs, identity_key_of(&rec));
        match found {
            Some(x) => {
                rec.signing_key_ref = x;
            },
            None => {},
        }
        out_s.push(rec);
        assert(rest@ =~= s0.subrange(out_s@.len() as int, s0.len() as int));
    }
    let ghost r0 = recipient_keys@;
    let mut rest = recipient_keys;
    let mut out_r: Vec<TzapPublicRecipientKeyRecord> = Vec::new();
    while rest.len() > 0
        invariant
            out_r@.len() + rest@.len() == r0.len(),
            rest@ == r0.subrange(out_r@.len() as int, r0.len() as int),
            forall|i: int|
                0 <= i < out_r@.len() ==> {
                    &&& #[trigger] out_r@[i] == (TzapPublicRecipientKeyRecord { private_key_ref: out_r@[i].private_key_ref, ..r0[i] })
                    &&& out_r@[i].private_key_ref@ == ref_from(rrefs@, r0[i].id@, r0[i].private_key_ref@)
                },
        decreases rest@.len(),
    {
        let ghost k = out_r@.len();
        let mut rec = rest.remove(0);
        assert(r0[k as int] == rec);
        let found = lookup_ref(rrefs, rec.id.as_str());
        match found {
            Some(x) => {
                rec.private_key_ref = x;
            },
            None => {},
        }
        out_r.push(rec);
        assert(rest@ =~= r0.subrange(out_r@.len() as int, r0.len() as int));
    }
    TzapIdentityCatalog {
        schema_version,
        catalog_id,
        revision,
        default_signing_identity_id,
        signing_identities: out_s,
        recipient_keys: out_r,
        contacts,
        status_cache,
        emergency_blocklist,
        pending_mutations,
    }
}

/// Gives the keys of a freshly built catalog the secret references they
/// had in the stored catalog `existing`, so that references stay stable
/// across saves: every key that a stored signing identity was migrated from
/// (the last such identity), or that a stored recipient key has as its id,
/// keeps that identity's or key's reference, in the refs handed out and in
/// every record whose key it is; the other keys keep their fresh ones.
pub fn reuse_existing_refs(
    catalog: TzapIdentityCatalog,
    srefs: Vec<(String, TzapSecretRef)>,
    rrefs: Vec<(String, TzapSecretRef)>,
    existing: &TzapIdentityCatalog,
) -> (r: (TzapIdentityCatalog, Vec<(String, TzapSecretRef)>, Vec<(String, TzapSecretRef)>))
    ensures
        kept_refs(srefs@, r.1@, |k: Seq<char>| kept_signing_ref(existing.signing_identities@, k)),
        kept_refs(rrefs@, r.2@, |k: Seq<char>| kept_recipient_ref(existing.recipient_keys@, k)),
        refs_applied(r.0, catalog, r.1@, r.2@),
{
    let (srefs, rrefs) = keep_stored_refs(srefs, rrefs, existing);
    let catalog = apply_refs(catalog, &srefs, &rrefs);
    (catalog, srefs, rrefs)
}

/// Whether some signing identity holds the reference.
fn holds_signing_ref(ids: &Vec<TzapPublicSigningIdentityRecord>, reference: &TzapSecretRef) -> (r: bool)
    ensures
        r == exists|i: int| 0 <= i < ids@.len() && (#[trigger] ids@[i]).signing_key_ref@ == reference@,
{
    let mut i: usize = 0;
    while i < ids.len()
        invariant
            i <= ids@.len(),
            forall|j: int| 0 <= j < i ==> (#[trigger] ids@[j]).signing_key_ref@ != reference@,
        decreases ids@.len() - i,
    {
        if str_eq(ids[i].signing_key_ref.as_str(), reference.as_str()) {
            return true;
        }
        i += 1;
    }
    false
}

/// Whether some recipient key holds the reference.
fn holds_recipient_ref(keys: &Vec<TzapPublicRecipientKeyRecord>, reference: &TzapSecretRef) -> (r: bool)
    ensures
        r == exists|i: int| 0 <= i < keys@.len() && (#[trigger] keys@[i]).private_key_ref@ == reference@,
{
    let mut i: usize = 0;
    while i < keys.len()
        invariant
            i <= keys@.len(),
            forall|j: int| 0 <= j < i ==> (#[trigger] keys@[j]).private_key_ref@ != reference@,
        decreases keys@.len() - i,
    {
        if str_eq(keys[i].private_key_ref.as_str(), reference.as_str()) {
            return true;
        }
        i += 1;
    }
    false
}

/// A secret the stored catalog `existing` holds that the new catalog no
/// longer does.
pub open spec fn stale_secret(k: (TzapSecretPurpose, Seq<char>), existing: TzapIdentityCatalog, catalog: TzapIdentityCatalog) -> bool {
    ||| k.0 == TzapSecretPurpose::SigningKey && signing_refs_of(existing).contains(k.1) && !signing_refs_of(catalog).contains(k.1)
    ||| k.0 == TzapSecretPurpose::RecipientKey && recipient_refs_of(existing).contains(k.1) && !recipient_refs_of(catalog).contains(k.1)
}

/// `after` is `before` with some stale secrets removed and nothing else
/// changed.
pub open spec fn dropped_only_stale(
    before: Map<(TzapSecretPurpose, Seq<char>), Seq<u8>>,
    after: Map<(TzapSecretPurpose, Seq<char>), Seq<u8>>,
    existing: TzapIdentityCatalog,
    catalog: TzapIdentityCatalog,
) -> bool {
    &&& forall|k: (TzapSecretPurpose, Seq<char>)| #[trigger] after.dom().contains(k) ==> before.dom().contains(k) && after[k] == before[k]
    &&& forall|k: (TzapSecretPurpose, Seq<char>)|
        #[trigger] before.dom().contains(k) && !stale_secret(k, existing, catalog) ==> after.dom().contains(k)
}

/// Drops from the secret store the secrets of the stored catalog whose
/// references the new catalog no longer holds. A failed delete is passed
/// over: the secret is then only orphaned.
fn drop_stale_secrets<S: TzapSecretMaterialStore>(secret_store: &mut S, existing: &TzapIdentityCatalog, catalog: &TzapIdentityCatalog)
    ensures
        final(secret_store).keeps_secrets() == old(secret_store).keeps_secrets(),
        old(secret_store).keeps_secrets() ==> dropped_only_stale(old(secret_store).secrets(), final(secret_store).secrets(), *existing, *catalog),
{
    let mut i: usize = 0;
    while i < existing.signing_identities.len()
        invariant
            i <= existing.signing_identities@.len(),
            secret_store.keeps_secrets() == old(secret_store).keeps_secrets(),
            old(secret_store).keeps_secrets() ==> dropped_only_stale(old(secret_store).secrets(), secret_store.secrets(), *existing, *catalog),
        decreases existing.signing_identities@.len() - i,
    {
        let reference = &existing.signing_identities[i].signing_key_ref;
        if !holds_signing_ref(&catalog.signing_identities, reference) {
            proof {
                assert(signing_refs_of(*existing)[i as int] == reference@);
                assert forall|j: int| 0 <= j < signing_refs_of(*catalog).len() implies #[trigger] signing_refs_of(*catalog)[j] != reference@ by {
                    assert(catalog.signing_identities@[j].signing_key_ref@ != reference@);
                }
            }
            let _ = secret_store.delete(TzapSecretPurpose::SigningKey, reference);
        }
        i += 1;
    }
    let mut i: usize = 0;
    while i < existing.recipient_keys.len()
        invariant
            i <= existing.recipient_keys@.len(),
            secret_store.keeps_secrets() == old(secret_store).keeps_secrets(),
            old(secret_store).keeps_secrets() ==> dropped_only_stale(old(secret_store).secrets(), secret_store.secrets(), *existing, *catalog),
        decreases existing.recipient_keys@.len() - i,
    {
        let reference = &existing.recipient_keys[i].private_key_ref;
        if !holds_recipient_ref(&catalog.recipient_keys, reference) {
            proof {
                assert(recipient_refs_of(*existing)[i as int] == reference@);
                assert forall|j: int| 0 <= j < recipient_refs_of(*catalog).len() implies #[trigger] recipient_refs_of(*catalog)[j] != reference@ by {
                    assert(catalog.recipient_keys@[j].private_key_ref@ != reference@);
                }
            }
            let _ = secret_store.delete(TzapSecretPurpose::RecipientKey, reference);
        }
        i += 1;
    }
}

/// Persists a legacy inventory through the catalog, reusing the stored
/// secret references of keys that persist, so that references stay stable
/// across saves and no secret is orphaned: secrets whose references left
/// the catalog are deleted, every key's material is written under its
/// reference, and the catalog is saved under the next revision.
pub fn store_inventory_as_catalog<C: TzapIdentityCatalogStore, S: TzapSecretMaterialStore>(
    catalog_store: &mut C,
    secret_store: &mut S,
    account_key: &str,
    inventory: &TzapLocalIdentityInventory,
    now_unix_seconds: u64,
) -> (r: Result<(), TzapIdentityCatalogError>)
    ensures
        final(catalog_store).keeps_catalogs() == old(catalog_store).keeps_catalogs(),
        final(secret_store).keeps_secrets() == old(secret_store).keeps_secrets(),
        r is Ok ==> inventory_defect(*inventory) is None,
        r is Ok && old(catalog_store).keeps_catalogs() ==> {
            let saved = final(catalog_store).catalogs()[account_key@];
            &&& inventory_defect(*inventory) is None
            &&& final(catalog_store).catalogs().dom().contains(account_key@)
            &&& saved.pending_mutations@.len() == 0
            &&& saved.revision == if old(catalog_store).catalogs().dom().contains(account_key@) {
                next_revision(old(catalog_store).catalogs()[account_key@].revision)
            } else {
                1
            }
        },
        inventory_defect(*inventory) matches Some(f) ==> {
            &&& r matches Err(TzapIdentityCatalogError::InvalidCatalog { field }) && field@ == f
            &&& *final(catalog_store) == *old(catalog_store)
            &&& *final(secret_store) == *old(secret_store)
        },
{
    let (mut catalog, mut srefs, mut rrefs) = build_catalog_from_legacy(inventory, now_unix_seconds)?;
    // These writes are not migration transactions, and the legacy-migration
    // marker is the only pending mutation there is.
    catalog.pending_mutations = Vec::new();
    let existing = catalog_store.load_catalog(account_key)?;
    if let Some(stored) = &existing {
        let (kept, kept_srefs, kept_rrefs) = reuse_existing_refs(catalog, srefs, rrefs, stored);
        catalog = kept;
        srefs = kept_srefs;
        rrefs = kept_rrefs;
        drop_stale_secrets(secret_store, stored, &catalog);
    }
    let mut i: usize = 0;
    while i < inventory.device_signing_keys.len()
        invariant
            i <= inventory.device_signing_keys@.len(),
            secret_store.keeps_secrets() == old(secret_store).keeps_secrets(),
            inventory_defect(*inventory) is None,
        decreases inventory.device_signing_keys@.len() - i,
    {
        let record = &inventory.device_signing_keys[i];
        let reference = match lookup_ref(&srefs, record.key_id.as_str()) {
            Some(reference) => reference,
            None => {
                return Err(invalid("facade.signing_refs"));
            },
        };
        if let Err(e) = secret_store.put_at(TzapSecretPurpose::SigningKey, &reference, copy_bytes(&record.private_key_der)) {
            return Err(secret_error(e));
        }
        i += 1;
    }
    let mut i: usize = 0;
    while i < inventory.recipient_encryption_keys.len()
        invariant
            i <= inventory.recipient_encryption_keys@.len(),
            secret_store.keeps_secrets() == old(secret_store).keeps_secrets(),
            inventory_defect(*inventory) is None,
        decreases inventory.recipient_encryption_keys@.len() - i,
    {
        let record = &inventory.recipient_encryption_keys[i];
        let reference = match lookup_ref(&rrefs, record.key_id.as_str()) {
            Some(reference) => reference,
            None => {
                return Err(invalid("facade.recipient_refs"));
            },
        };
        if let Err(e) = secret_store.put_at(TzapSecretPurpose::RecipientKey, &reference, copy_bytes(&record.private_key_der)) {
            return Err(secret_error(e));
        }
        i += 1;
    }
    let expected_revision = match &existing {
        Some(stored) => Some(stored.revision),
        None => None,
    };
    catalog.revision = match expected_revision {
        Some(revision) => revision.saturating_add(1),
        None => 1,
    };
    catalog_store.save_catalog(account_key, expected_revision, catalog)
}

/// An optional text, or the empty text.
pub open spec fn text_or_empty(o: Option<String>) -> Seq<char> {
    match o {
        Some(t) => t@,
        None => Seq::empty(),
    }
}

/// `k` is the legacy key record of `identity`, whose private key is
/// `private_key` with the public key `public_der`.
pub open spec fn legacy_key_record(
    k: TzapDeviceSigningKeyRecord,
    identity: TzapPublicSigningIdentityRecord,
    private_key: Seq<u8>,
    public_der: Seq<u8>,
) -> bool {
    &&& k.key_id@ == identity_key(identity)
    &&& k.public_key_fingerprint@ == der_fingerprint(public_der)
    &&& k.private_key_der@ == private_key
    &&& k.created_at_unix_seconds == match identity.signing_key_created_at_unix_seconds {
        Some(t) => t,
        None => 0,
    }
    &&& opt_text(k.label) == opt_text(identity.local_alias)
}

/// `c` is the legacy certificate record of `identity`, enrolled under
/// `certificate_id`: the first certificate of the chain is the leaf (none
/// for an empty chain), the rest are intermediates, and absent public
/// metadata is empty, zero, or the given defaults.
pub open spec fn legacy_certificate_record(
    c: TzapEnrolledCertificateRecord,
    identity: TzapPublicSigningIdentityRecord,
    certificate_id: Seq<char>,
    default_metadata_version: u64,
    default_policy_oid: Seq<char>,
) -> bool {
    let chain = identity.certificate_chain_der@;
    &&& c.certificate_id@ == certificate_id
    &&& c.signing_key_id@ == identity_key(identity)
    &&& c.certificate_sha256@ == text_or_empty(identity.certificate_sha256)
    &&& c.issuer_certificate_sha256@ == text_or_empty(identity.issuer_certificate_sha256)
    &&& c.issuer_key_identifier@ == text_or_empty(identity.issuer_key_identifier)
    &&& c.serial_number@ == text_or_empty(identity.serial_number)
    &&& (if chain.len() == 0 {
        c.leaf_certificate_der@.len() == 0 && c.intermediate_chain_der@.len() == 0
    } else {
        &&& c.leaf_certificate_der@ == chain[0]@
        &&& c.intermediate_chain_der@.len() == chain.len() - 1
        &&& forall|i: int| 0 <= i < c.intermediate_chain_der@.len() ==> (#[trigger] c.intermediate_chain_der@[i])@ == chain[i + 1]@
    })
    &&& c.not_before_unix_seconds == match identity.not_before_unix_seconds {
        Some(t) => t,
        None => 0,
    }
    &&& c.not_after_unix_seconds == match identity.not_after_unix_seconds {
        Some(t) => t,
        None => 0,
    }
    &&& c.public_signer_id@ == text_or_empty(identity.public_signer_id)
    &&& opt_text(c.public_org_id) == opt_text(identity.public_org_id)
    &&& c.public_device_id@ == text_or_empty(identity.public_device_id)
    &&& opt_text(identity.assurance_level) == Some(c.assurance_level@)
    &&& c.sign_device_id@ == text_or_empty(identity.sign_device_id)
    &&& c.metadata_version == match identity.metadata_version {
        Some(v) => v,
        None => default_metadata_version,
    }
    &&& c.policy_oid@ == match opt_text(identity.policy_oid) {
        Some(p) => p,
        None => default_policy_oid,
    }
    &&& c.state@ == identity.lifecycle@
}

fn text_or_empty_of(o: &Option<String>) -> (r: String)
    ensures
        r@ == text_or_empty(*o),
{
    match o {
        Some(t) => t.clone(),
        None => String::new(),
    }
}

fn leaf_and_intermediates(chain: &Vec<Vec<u8>>) -> (r: (Vec<u8>, Vec<Vec<u8>>))
    ensures
        if chain@.len() == 0 {
            r.0@.len() == 0 && r.1@.len() == 0
        } else {
            &&& r.0@ == chain@[0]@
            &&& r.1@.len() == chain@.len() - 1
            &&& forall|i: int| 0 <= i < r.1@.len() ==> (#[trigger] r.1@[i])@ == chain@[i + 1]@
        },
{
    if chain.len() == 0 {
        return (Vec::new(), Vec::new());
    }
    let leaf = copy_bytes(&chain[0]);
    let mut rest: Vec<Vec<u8>> = Vec::new();
    let mut i: usize = 1;
    while i < chain.len()
        invariant
            1 <= i <= chain@.len(),
            rest@.len() == i - 1,
            forall|j: int| 0 <= j < rest@.len() ==> (#[trigger] rest@[j])@ == chain@[j + 1]@,
        decreases chain@.len() - i,
    {
        rest.push(copy_bytes(&chain[i]));
        i += 1;
    }
    (leaf, rest)
}

/// The legacy key record of a signing identity, and its certificate record
/// when the identity is enrolled. The private key must be readable, and an
/// enrolled identity must carry an assurance level.
pub fn legacy_records_of_identity(
    identity: &TzapPublicSigningIdentityRecord,
    private_key_der: Vec<u8>,
    default_metadata_version: u64,
    default_policy_oid: &str,
) -> (r: Result<(TzapDeviceSigningKeyRecord, Option<TzapEnrolledCertificateRecord>), TzapIdentityCatalogError>)
    ensures
        match key_public_der(private_key_der@) {
            None => r matches Err(TzapIdentityCatalogError::InvalidCatalog { field }) && field@ == "private_key_der"@,
            Some(public) => match identity.certificate_id {
                None => r matches Ok((k, None)) && legacy_key_record(k, *identity, private_key_der@, public),
                Some(cid) => if identity.assurance_level is None {
                    r matches Err(TzapIdentityCatalogError::InvalidCatalog { field }) && field@ == "assurance_level"@
                } else {
                    r matches Ok((k, Some(c))) && legacy_key_record(k, *identity, private_key_der@, public)
                        && legacy_certificate_record(c, *identity, cid@, default_metadata_version, default_policy_oid@)
                },
            },
        },
{
    let sec1 = match parse_p256_private_key_der(&private_key_der) {
        Ok(key) => key,
        Err(_) => return Err(invalid("private_key_der")),
    };
    let public = match public_key_spki_der(&sec1) {
        Ok(der) => der,
        Err(_) => return Err(invalid("private_key_der")),
    };
    let key_id = identity_key_of(identity).to_string();
    let key = TzapDeviceSigningKeyRecord {
        key_id,
        public_key_fingerprint: spki_fingerprint(&public),
        private_key_der,
        created_at_unix_seconds: match identity.signing_key_created_at_unix_seconds {
            Some(t) => t,
            None => 0,
        },
        label: copy_opt_string(&identity.local_alias),
    };
    let certificate_id = match &identity.certificate_id {
        Some(cid) => cid,
        None => return Ok((key, None)),
    };
    let assurance_level = match &identity.assurance_level {
        Some(level) => level.clone(),
        None => return Err(invalid("assurance_level")),
    };
    let (leaf, intermediates) = leaf_and_intermediates(&identity.certificate_chain_der);
    let certificate = TzapEnrolledCertificateRecord {
        certificate_id: certificate_id.clone(),
        signing_key_id: identity_key_of(identity).to_string(),
        certificate_sha256: text_or_empty_of(&identity.certificate_sha256),
        issuer_certificate_sha256: text_or_empty_of(&identity.issuer_certificate_sha256),
        issuer_key_identifier: text_or_empty_of(&identity.issuer_key_identifier),
        serial_number: text_or_empty_of(&identity.serial_number),
        leaf_certificate_der: leaf,
        intermediate_chain_der: intermediates,
        not_before_unix_seconds: match identity.not_before_unix_seconds {
            Some(t) => t,
            None => 0,
        },
        not_after_unix_seconds: match identity.not_after_unix_seconds {
            Some(t) => t,
            None => 0,
        },
        public_signer_id: text_or_empty_of(&identity.public_signer_id),
        public_org_id: copy_opt_string(&identity.public_org_id),
        public_device_id: text_or_empty_of(&identity.public_device_id),
        assurance_level,
        sign_device_id: text_or_empty_of(&identity.sign_device_id),
        metadata_version: match identity.metadata_version {
            Some(v) => v,
            None => default_metadata_version,
        },
        policy_oid: match &identity.policy_oid {
            Some(p) => p.clone(),
            None => default_policy_oid.to_string(),
        },
        state: identity.lifecycle.clone(),
    };
    Ok((key, Some(certificate)))
}

/// `k` is the legacy record of the recipient key `rec`, whose private key
/// is `private_key`.
pub open spec fn legacy_recipient_record(k: TzapRecipientEncryptionKeyRecord, rec: TzapPublicRecipientKeyRecord, private_key: Seq<u8>) -> bool {
    &&& k.key_id@ == rec.id@
    &&& k.algorithm@ == rec.algorithm@
    &&& k.public_key_fingerprint@ == rec.fingerprint@
    &&& k.public_key_der@ == rec.public_key_der@
    &&& k.private_key_der@ == private_key
    &&& k.created_at_unix_seconds == rec.created_at_unix_seconds
    &&& opt_text(k.label) == opt_text(rec.local_label)
}

/// The legacy record of a recipient key, with its private key.
pub fn legacy_recipient_of(rec: &TzapPublicRecipientKeyRecord, private_key_der: Vec<u8>) -> (r: TzapRecipientEncryptionKeyRecord)
    ensures
        legacy_recipient_record(r, *rec, private_key_der@),
{
    TzapRecipientEncryptionKeyRecord {
        key_id: rec.id.clone(),
        algorithm: rec.algorithm.clone(),
        public_key_fingerprint: rec.fingerprint.clone(),
        public_key_der: copy_bytes(&rec.public_key_der),
        private_key_der,
        created_at_unix_seconds: rec.created_at_unix_seconds,
        label: copy_opt_string(&rec.local_label),
    }
}

/// `c` is the legacy record of the contact `rec`; the card's recipient
/// public key is the DER key in unpadded URL-safe base64.
pub open spec fn legacy_contact_record(c: TzapContactRecord, rec: TzapPublicContactRecord) -> bool {
    &&& c.contact_id@ == rec.contact_id@
    &&& c.display_name@ == rec.display_name@
    &&& c.signing_certificate_sha256@ == rec.signing_certificate_sha256@
    &&& c.recipient_public_key_fingerprint@ == rec.recipient_public_key_fingerprint@
    &&& opt_text(c.recipient_public_key) == Some(crate::identity_catalog::base64_url_no_pad_of(rec.recipient_public_key_der@))
    &&& contact_public_key(c) == Some(rec.recipient_public_key_der@)
    &&& c.contact_card_payload@ == rec.contact_card_payload@
    &&& c.trust_anchor_type@ == rec.trust_source@
    &&& c.verification_state@ == rec.verification_state@
    &&& c.missing_status_caveat == rec.missing_status_caveat
    &&& c.accepted_at_unix_seconds == rec.accepted_at_unix_seconds
}

/// The legacy record of a contact.
pub fn legacy_contact_of(rec: &TzapPublicContactRecord) -> (r: TzapContactRecord)
    ensures
        legacy_contact_record(r, *rec),
{
    TzapContactRecord {
        contact_id: rec.contact_id.clone(),
        display_name: rec.display_name.clone(),
        signing_certificate_sha256: rec.signing_certificate_sha256.clone(),
        recipient_public_key_fingerprint: rec.recipient_public_key_fingerprint.clone(),
        recipient_public_key: Some(base64_url_no_pad(&rec.recipient_public_key_der)),
        contact_card_payload: rec.contact_card_payload.clone(),
        trust_anchor_type: rec.trust_source.clone(),
        verification_state: rec.verification_state.clone(),
        missing_status_caveat: rec.missing_status_caveat,
        accepted_at_unix_seconds: rec.accepted_at_unix_seconds,
    }
}

/// The legacy record of a cached status: its update times are decimal
/// `u64` texts.
pub open spec fn legacy_status_record(s: TzapCertificateStatusCacheRecord, rec: TzapPublicStatusCacheRecord) -> bool {
    &&& s.certificate_sha256@ == rec.lookup_id@
    &&& s.status@ == rec.status@
    &&& parse_u64_spec(rec.this_update@) == Some(s.this_update_unix_seconds)
    &&& parse_u64_spec(rec.next_update@) == Some(s.next_update_unix_seconds)
}

/// The legacy record of a cached status; an update time that is not a
/// `u64` is refused.
pub fn legacy_status_of(rec: &TzapPublicStatusCacheRecord) -> (r: Result<TzapCertificateStatusCacheRecord, TzapIdentityCatalogError>)
    ensures
        parse_u64_spec(rec.this_update@) is None ==> (r matches Err(TzapIdentityCatalogError::InvalidCatalog { field })
            && field@ == "status_cache.this_update"@),
        parse_u64_spec(rec.this_update@) is Some && parse_u64_spec(rec.next_update@) is None ==> (r matches Err(
            TzapIdentityCatalogError::InvalidCatalog { field },
        ) && field@ == "status_cache.next_update"@),
        parse_u64_spec(rec.this_update@) is Some && parse_u64_spec(rec.next_update@) is Some ==> (r matches Ok(s)
            && legacy_status_record(s, *rec)),
{
    let this_update = match parse_u64_chars(&chars_of(rec.this_update.as_str())) {
        Some(t) => t,
        None => return Err(invalid("status_cache.this_update")),
    };
    let next_update = match parse_u64_chars(&chars_of(rec.next_update.as_str())) {
        Some(t) => t,
        None => return Err(invalid("status_cache.next_update")),
    };
    Ok(
        TzapCertificateStatusCacheRecord {
            certificate_sha256: rec.lookup_id.clone(),
            status: rec.status.clone(),
            this_update_unix_seconds: this_update,
            next_update_unix_seconds: next_update,
        },
    )
}

/// The signing key records hold, in order, the private keys that `secrets`
/// keeps under the signing-key references `refs`.
pub open spec fn signing_keys_resolved(
    keys: Seq<TzapDeviceSigningKeyRecord>,
    refs: Seq<Seq<char>>,
    secrets: Map<(TzapSecretPurpose, Seq<char>), Seq<u8>>,
) -> bool {
    &&& keys.len() == refs.len()
    &&& forall|i: int|
        0 <= i < refs.len() ==> secrets.dom().contains((TzapSecretPurpose::SigningKey, #[trigger] refs[i]))
            && keys[i].private_key_der@ == secrets[(TzapSecretPurpose::SigningKey, refs[i])]
}

/// The recipient key records hold, in order, the private keys that
/// `secrets` keeps under the recipient-key references `refs`.
pub open spec fn recipient_keys_resolved(
    keys: Seq<TzapRecipientEncryptionKeyRecord>,
    refs: Seq<Seq<char>>,
    secrets: Map<(TzapSecretPurpose, Seq<char>), Seq<u8>>,
) -> bool {
    &&& keys.len() == refs.len()
    &&& forall|i: int|
        0 <= i < refs.len() ==> secrets.dom().contains((TzapSecretPurpose::RecipientKey, #[trigger] refs[i]))
            && keys[i].private_key_der@ == secrets[(TzapSecretPurpose::RecipientKey, refs[i])]
}

/// The inventory's key records hold, in order, the private keys that the
/// secret store keeps under the catalog's references: one signing key record
/// per signing identity, one recipient key record per recipient key.
pub open spec fn keys_resolved(
    inventory: TzapLocalIdentityInventory,
    c: TzapIdentityCatalog,
    secrets: Map<(TzapSecretPurpose, Seq<char>), Seq<u8>>,
) -> bool {
    &&& signing_keys_resolved(inventory.device_signing_keys@, signing_refs_of(c), secrets)
    &&& recipient_keys_resolved(inventory.recipient_encryption_keys@, recipient_refs_of(c), secrets)
}

/// Loads the legacy-shaped inventory of an account from the catalog, with
/// each private key resolved from the secret store. No catalog gives
/// `None`. The metadata version and policy OID fill in enrolled identities
/// that carry none.
pub fn load_inventory_from_catalog<C: TzapIdentityCatalogStore, S: TzapSecretMaterialStore>(
    catalog_store: &C,
    secret_store: &S,
    account_key: &str,
    default_metadata_version: u64,
    default_policy_oid: &str,
) -> (r: Result<Option<TzapLocalIdentityInventory>, TzapIdentityCatalogError>)
    ensures
        catalog_store.keeps_catalogs() ==> (r matches Ok(None) ==> !catalog_store.catalogs().dom().contains(account_key@)),
        r matches Ok(Some(inventory)) ==> catalog_store.keeps_catalogs() && secret_store.keeps_secrets() ==> catalog_store.catalogs().dom().contains(account_key@) && keys_resolved(
            inventory,
            catalog_store.catalogs()[account_key@],
            secret_store.secrets(),
        ),
        catalog_store.keeps_catalogs() && secret_store.keeps_secrets() && catalog_store.catalogs().dom().contains(account_key@)
            && !refs_stored(
            catalog_store.catalogs()[account_key@],
            secret_store.secrets(),
        ) ==> r is Err,
{
    let catalog = match catalog_store.load_catalog(account_key)? {
        Some(c) => c,
        None => return Ok(None),
    };
    let mut device_signing_keys: Vec<TzapDeviceSigningKeyRecord> = Vec::new();
    let mut enrolled_certificates: Vec<TzapEnrolledCertificateRecord> = Vec::new();
    let mut i: usize = 0;
    while i < catalog.signing_identities.len()
        invariant
            i <= catalog.signing_identities@.len(),
            secret_store.keeps_secrets() ==> signing_keys_resolved(
                device_signing_keys@,
                signing_refs_of(catalog).take(i as int),
                secret_store.secrets(),
            ),
        decreases catalog.signing_identities@.len() - i,
    {
        let identity = &catalog.signing_identities[i];
        let material = match secret_store.resolve(TzapSecretPurpose::SigningKey, &identity.signing_key_ref) {
            Ok(m) => m,
            Err(e) => return Err(secret_error(e)),
        };
        let ghost m = material@;
        let (key, certificate) = legacy_records_of_identity(identity, material, default_metadata_version, default_policy_oid)?;
        assert(key.private_key_der@ == m);
        let ghost before = device_signing_keys@;
        device_signing_keys.push(key);
        proof {
            if secret_store.keeps_secrets() {
                let refs = signing_refs_of(catalog).take(i as int + 1);
                assert(refs =~= signing_refs_of(catalog).take(i as int).push(identity.signing_key_ref@));
                assert forall|k: int| 0 <= k < refs.len() implies secret_store.secrets().dom().contains(
                    (TzapSecretPurpose::SigningKey, #[trigger] refs[k]),
                ) && device_signing_keys@[k].private_key_der@ == secret_store.secrets()[(TzapSecretPurpose::SigningKey, refs[k])] by {
                    if k < i {
                        assert(refs[k] == signing_refs_of(catalog).take(i as int)[k]);
                        assert(device_signing_keys@[k] == before[k]);
                    }
                }
            }
        }
        if let Some(c) = certificate {
            enrolled_certificates.push(c);
        }
        i += 1;
    }
    assert(signing_refs_of(catalog).take(i as int) =~= signing_refs_of(catalog));
    let mut recipient_encryption_keys: Vec<TzapRecipientEncryptionKeyRecord> = Vec::new();
    let mut i: usize = 0;
    assert(recipient_refs_of(catalog).take(0) =~= Seq::<Seq<char>>::empty());
    while i < catalog.recipient_keys.len()
        invariant
            i <= catalog.recipient_keys@.len(),
            secret_store.keeps_secrets() ==> signing_keys_resolved(device_signing_keys@, signing_refs_of(catalog), secret_store.secrets()),
            secret_store.keeps_secrets() ==> recipient_keys_resolved(
                recipient_encryption_keys@,
                recipient_refs_of(catalog).take(i as int),
                secret_store.secrets(),
            ),
        decreases catalog.recipient_keys@.len() - i,
    {
        let key = &catalog.recipient_keys[i];
        let material = match secret_store.resolve(TzapSecretPurpose::RecipientKey, &key.private_key_ref) {
            Ok(m) => m,
            Err(e) => return Err(secret_error(e)),
        };
        let ghost before = recipient_encryption_keys@;
        recipient_encryption_keys.push(legacy_recipient_of(key, material));
        proof {
            if secret_store.keeps_secrets() {
                let refs = recipient_refs_of(catalog).take(i as int + 1);
                assert(refs =~= recipient_refs_of(catalog).take(i as int).push(key.private_key_ref@));
                assert forall|k: int| 0 <= k < refs.len() implies secret_store.secrets().dom().contains(
                    (TzapSecretPurpose::RecipientKey, #[trigger] refs[k]),
                ) && recipient_encryption_keys@[k].private_key_der@ == secret_store.secrets()[(TzapSecretPurpose::RecipientKey, refs[k])] by {
                    if k < i {
                        assert(refs[k] == recipient_refs_of(catalog).take(i as int)[k]);
                        assert(recipient_encryption_keys@[k] == before[k]);
                    }
                }
            }
        }
        i += 1;
    }
    assert(recipient_refs_of(catalog).take(i as int) =~= recipient_refs_of(catalog));
    let mut contacts: Vec<TzapContactRecord> = Vec::new();
    let mut i: usize = 0;
    while i < catalog.contacts.len()
        invariant
            i <= catalog.contacts@.len(),
        decreases catalog.contacts@.len() - i,
    {
        contacts.push(legacy_contact_of(&catalog.contacts[i]));
        i += 1;
    }
    let mut certificate_status_cache: Vec<TzapCertificateStatusCacheRecord> = Vec::new();
    let mut i: usize = 0;
    while i < catalog.status_cache.len()
        invariant
            i <= catalog.status_cache@.len(),
        decreases catalog.status_cache@.len() - i,
    {
        certificate_status_cache.push(legacy_status_of(&catalog.status_cache[i])?);
        i += 1;
    }
    let emergency_blocklist = TzapPublicEmergencyBlocklist {
        blocked_root_sha256: copy_strings(&catalog.emergency_blocklist.blocked_root_sha256),
        blocked_issuer_sha256: copy_strings(&catalog.emergency_blocklist.blocked_issuer_sha256),
        updated_at_unix_seconds: catalog.emergency_blocklist.updated_at_unix_seconds,
    };
    Ok(
        Some(
            TzapLocalIdentityInventory {
                device_signing_keys,
                recipient_encryption_keys,
                enrolled_certificates,
                contacts,
                certificate_status_cache,
                emergency_blocklist,
            },
        ),
    )
}

/// Two signing key records with the same contents.
pub open spec fn same_signing_key(a: TzapDeviceSigningKeyRecord, b: TzapDeviceSigningKeyRecord) -> bool {
    &&& a.key_id@ == b.key_id@
    &&& a.public_key_fingerprint@ == b.public_key_fingerprint@
    &&& a.private_key_der@ == b.private_key_der@
    &&& a.created_at_unix_seconds == b.created_at_unix_seconds
    &&& opt_text(a.label) == opt_text(b.label)
}

/// Two certificate records with the same contents.
pub open spec fn same_certificate(a: TzapEnrolledCertificateRecord, b: TzapEnrolledCertificateRecord) -> bool {
    &&& a.certificate_id@ == b.certificate_id@
    &&& a.signing_key_id@ == b.signing_key_id@
    &&& a.certificate_sha256@ == b.certificate_sha256@
    &&& a.issuer_certificate_sha256@ == b.issuer_certificate_sha256@
    &&& a.issuer_key_identifier@ == b.issuer_key_identifier@
    &&& a.serial_number@ == b.serial_number@
    &&& a.leaf_certificate_der@ == b.leaf_certificate_der@
    &&& a.intermediate_chain_der@.len() == b.intermediate_chain_der@.len()
    &&& forall|i: int| 0 <= i < a.intermediate_chain_der@.len() ==> (#[trigger] a.intermediate_chain_der@[i])@ == b.intermediate_chain_der@[i]@
    &&& a.not_before_unix_seconds == b.not_before_unix_seconds
    &&& a.not_after_unix_seconds == b.not_after_unix_seconds
    &&& a.public_signer_id@ == b.public_signer_id@
    &&& opt_text(a.public_org_id) == opt_text(b.public_org_id)
    &&& a.public_device_id@ == b.public_device_id@
    &&& a.assurance_level@ == b.assurance_level@
    &&& a.sign_device_id@ == b.sign_device_id@
    &&& a.metadata_version == b.metadata_version
    &&& a.policy_oid@ == b.policy_oid@
    &&& a.state@ == b.state@
}

/// Two recipient key records with the same contents.
pub open spec fn same_recipient_key(a: TzapRecipientEncryptionKeyRecord, b: TzapRecipientEncryptionKeyRecord) -> bool {
    &&& a.key_id@ == b.key_id@
    &&& a.algorithm@ == b.algorithm@
    &&& a.public_key_fingerprint@ == b.public_key_fingerprint@
    &&& a.public_key_der@ == b.public_key_der@
    &&& a.private_key_der@ == b.private_key_der@
    &&& a.created_at_unix_seconds == b.created_at_unix_seconds
    &&& opt_text(a.label) == opt_text(b.label)
}

/// Two contact records with the same contents and the same card key (its
/// text may be spelled differently).
pub open spec fn same_contact(a: TzapContactRecord, b: TzapContactRecord) -> bool {
    &&& a.contact_id@ == b.contact_id@
    &&& a.display_name@ == b.display_name@
    &&& a.signing_certificate_sha256@ == b.signing_certificate_sha256@
    &&& a.recipient_public_key_fingerprint@ == b.recipient_public_key_fingerprint@
    &&& contact_public_key(a) == contact_public_key(b)
    &&& a.contact_card_payload@ == b.contact_card_payload@
    &&& a.trust_anchor_type@ == b.trust_anchor_type@
    &&& a.verification_state@ == b.verification_state@
    &&& a.missing_status_caveat == b.missing_status_caveat
    &&& a.accepted_at_unix_seconds == b.accepted_at_unix_seconds
}

/// A certificate stored in the catalog reads back as the certificate it was
/// migrated from.
pub proof fn lemma_certificate_round_trip(
    cert: TzapEnrolledCertificateRecord,
    keys: Seq<TzapDeviceSigningKeyRecord>,
    sref: Seq<char>,
    rec: TzapPublicSigningIdentityRecord,
    back: TzapEnrolledCertificateRecord,
    default_metadata_version: u64,
    default_policy_oid: Seq<char>,
)
    requires
        certificate_identity(rec, cert, keys, sref),
        legacy_certificate_record(back, rec, cert.certificate_id@, default_metadata_version, default_policy_oid),
    ensures
        same_certificate(back, cert),
{
    assert forall|i: int| 0 <= i < back.intermediate_chain_der@.len() implies (#[trigger] back.intermediate_chain_der@[i])@
        == cert.intermediate_chain_der@[i]@ by {
        assert(rec.certificate_chain_der@[i + 1]@ == cert.intermediate_chain_der@[i]@);
    }
}

/// A pending identity stored in the catalog reads back as its key record,
/// given the private key the secret store holds for it.
pub proof fn lemma_pending_key_round_trip(
    key: TzapDeviceSigningKeyRecord,
    sref: Seq<char>,
    rec: TzapPublicSigningIdentityRecord,
    back: TzapDeviceSigningKeyRecord,
    public_der: Seq<u8>,
)
    requires
        signing_key_defect(key) is None,
        pending_identity(rec, key, sref),
        key_public_der(key.private_key_der@) == Some(public_der),
        legacy_key_record(back, rec, key.private_key_der@, public_der),
    ensures
        same_signing_key(back, key),
{
}

/// An enrolled identity reads back as the key record of its certificate's
/// key, given the private key the secret store holds for it.
pub proof fn lemma_enrolled_key_round_trip(
    cert: TzapEnrolledCertificateRecord,
    keys: Seq<TzapDeviceSigningKeyRecord>,
    k: int,
    sref: Seq<char>,
    rec: TzapPublicSigningIdentityRecord,
    back: TzapDeviceSigningKeyRecord,
    public_der: Seq<u8>,
)
    requires
        0 <= k < keys.len(),
        first_key_index(keys, cert.signing_key_id@) == Some(k),
        signing_key_defect(keys[k]) is None,
        certificate_identity(rec, cert, keys, sref),
        key_public_der(keys[k].private_key_der@) == Some(public_der),
        legacy_key_record(back, rec, keys[k].private_key_der@, public_der),
    ensures
        same_signing_key(back, keys[k]),
{
    lemma_first_key_index(keys, cert.signing_key_id@);
}

/// A recipient key stored in the catalog reads back as itself, given the
/// private key the secret store holds for it.
pub proof fn lemma_recipient_key_round_trip(
    key: TzapRecipientEncryptionKeyRecord,
    sref: Seq<char>,
    rec: TzapPublicRecipientKeyRecord,
    back: TzapRecipientEncryptionKeyRecord,
)
    requires
        recipient_record(rec, key, sref),
        legacy_recipient_record(back, rec, key.private_key_der@),
    ensures
        same_recipient_key(back, key),
{
}

/// A contact stored in the catalog reads back as itself.
pub proof fn lemma_contact_round_trip(c: TzapContactRecord, rec: TzapPublicContactRecord, back: TzapContactRecord)
    requires
        contact_record(rec, c),
        legacy_contact_record(back, rec),
    ensures
        same_contact(back, c),
{
}

/// A cached status stored in the catalog reads back as itself.
pub proof fn lemma_status_round_trip(s: TzapCertificateStatusCacheRecord, rec: TzapPublicStatusCacheRecord, back: TzapCertificateStatusCacheRecord)
    requires
        status_record(rec, s),
        legacy_status_record(back, rec),
    ensures
        back.certificate_sha256@ == s.certificate_sha256@,
        back.status@ == s.status@,
        back.this_update_unix_seconds == s.this_update_unix_seconds,
        back.next_update_unix_seconds == s.next_update_unix_seconds,
{
    lemma_decimal_round_trip(s.this_update_unix_seconds);
    lemma_decimal_round_trip(s.next_update_unix_seconds);
}

/// Reading a `u64`'s decimal text gives the number back.
pub proof fn lemma_decimal_round_trip(n: u64)
    ensures
        parse_u64_spec(decimal_string(n as nat)) == Some(n),
{
    let digits = decimal_string(n as nat);
    crate::text::lemma_decimal_string_digits(n as nat);
    assert(digits[0] != '+') by {
        assert(crate::text::is_ascii_digit(digits[0]));
    }
    assert(crate::text::all_ascii_digits(digits));
}

proof fn lemma_first_key_index(keys: Seq<TzapDeviceSigningKeyRecord>, id: Seq<char>)
    ensures
        first_key_index(keys, id) matches Some(k) ==> 0 <= k < keys.len() && keys[k].key_id@ == id,
    decreases keys.len(),
{
    if keys.len() > 0 && keys[0].key_id@ != id {
        lemma_first_key_index(keys.drop_first(), id);
    }
}

} // verus!
