use zmanager_core::device_identity::{generate_device_signing_key_and_csr, generate_recipient_encryption_key, TzapDeviceCsrOptions};
use zmanager_core::identity_catalog::{
    InMemoryTzapIdentityCatalogStore, InMemoryTzapSecretMaterialStore, PendingMutation, TzapIdentityCatalogError,
    TzapIdentityCatalogStore, TzapPublicContactRecord, TzapPublicEmergencyBlocklist, TzapPublicStatusCacheRecord, TzapSecretMaterialStore, TzapSecretPurpose,
};
use zmanager_core::identity_legacy::{
    build_catalog_from_legacy, legacy_contact_of, legacy_status_of, load_inventory_from_catalog, migrate_legacy_inventory, reuse_existing_refs, store_inventory_as_catalog, TzapDeviceSigningKeyRecord, TzapLocalIdentityInventory,
    TzapEnrolledCertificateRecord, TzapRecipientEncryptionKeyRecord,
};

fn empty_inventory() -> TzapLocalIdentityInventory {
    TzapLocalIdentityInventory {
        device_signing_keys: Vec::new(),
        recipient_encryption_keys: Vec::new(),
        enrolled_certificates: Vec::new(),
        contacts: Vec::new(),
        certificate_status_cache: Vec::new(),
        emergency_blocklist: TzapPublicEmergencyBlocklist::default(),
    }
}

fn sample_inventory() -> TzapLocalIdentityInventory {
    let signing = generate_device_signing_key_and_csr(&TzapDeviceCsrOptions::default()).unwrap();
    let recipient = generate_recipient_encryption_key().unwrap();
    TzapLocalIdentityInventory {
        device_signing_keys: vec![TzapDeviceSigningKeyRecord {
            key_id: "signing-1".to_owned(),
            public_key_fingerprint: signing.public_key_fingerprint.clone(),
            private_key_der: signing.private_key_der.clone(),
            created_at_unix_seconds: 1,
            label: Some("Laptop".to_owned()),
        }],
        recipient_encryption_keys: vec![TzapRecipientEncryptionKeyRecord {
            key_id: "recipient-1".to_owned(),
            algorithm: recipient.algorithm.to_owned(),
            public_key_fingerprint: recipient.public_key_fingerprint.clone(),
            public_key_der: recipient.public_key_spki_der.clone(),
            private_key_der: recipient.private_key_der.clone(),
            created_at_unix_seconds: 2,
            label: None,
        }],
        ..empty_inventory()
    }
}

#[test]
fn migration_moves_private_material_and_is_idempotent() {
    let legacy = sample_inventory();
    let mut catalogs = InMemoryTzapIdentityCatalogStore::new();
    let mut secrets = InMemoryTzapSecretMaterialStore::new();
    let now = 1_700_000_000u64;
    let report = migrate_legacy_inventory(&legacy, &mut catalogs, &mut secrets, "default", now).unwrap();
    assert!(report.migrated);
    assert_eq!(report.signing_identity_count, 1);
    assert_eq!(report.recipient_key_count, 1);
    let second = migrate_legacy_inventory(&legacy, &mut catalogs, &mut secrets, "default", now).unwrap();
    assert!(!second.migrated);
    let catalog = catalogs.load_catalog("default").unwrap().unwrap();
    let signing_ref = catalog.signing_identities[0].signing_key_ref.clone();
    let recipient_ref = catalog.recipient_keys[0].private_key_ref.clone();
    assert_eq!(
        secrets.resolve(TzapSecretPurpose::SigningKey, &signing_ref).unwrap(),
        legacy.device_signing_keys[0].private_key_der
    );
    secrets.delete(TzapSecretPurpose::SigningKey, &signing_ref).unwrap();
    secrets.delete(TzapSecretPurpose::RecipientKey, &recipient_ref).unwrap();
    let mut interrupted = catalog.clone();
    interrupted.pending_mutations.push(PendingMutation::LegacyMigration { started_at_unix_seconds: 1 });
    let expected_revision = interrupted.revision;
    interrupted.revision += 1;
    catalogs.save_catalog("default", Some(expected_revision), interrupted).unwrap();
    let recovered = migrate_legacy_inventory(&legacy, &mut catalogs, &mut secrets, "default", now).unwrap();
    assert!(recovered.migrated);
    assert!(secrets.resolve(TzapSecretPurpose::SigningKey, &signing_ref).is_ok());
    assert!(secrets.resolve(TzapSecretPurpose::RecipientKey, &recipient_ref).is_ok());
    assert!(catalogs.load_catalog("default").unwrap().unwrap().pending_mutations.is_empty());
}

#[test]
fn migrated_catalog_holds_public_metadata_and_a_pending_marker() {
    let legacy = sample_inventory();
    let (catalog, srefs, rrefs) = build_catalog_from_legacy(&legacy, 42).unwrap();
    assert_eq!(catalog.revision, 1);
    assert_eq!(catalog.signing_identities.len(), 1);
    assert_eq!(catalog.signing_identities[0].id, "signing-1");
    assert_eq!(catalog.recipient_keys[0].id, "recipient-1");
    assert_eq!(catalog.recipient_keys[0].public_key_der, legacy.recipient_encryption_keys[0].public_key_der);
    assert_eq!(srefs.len(), 1);
    assert_eq!(rrefs.len(), 1);
    assert_eq!(srefs[0].0, "signing-1");
    assert_eq!(catalog.signing_identities[0].signing_key_ref.as_str(), srefs[0].1.as_str());
    assert_eq!(catalog.pending_mutations.len(), 1);
    assert!(matches!(catalog.pending_mutations[0], PendingMutation::LegacyMigration { started_at_unix_seconds: 42 }));
    assert!(catalog.validate().is_ok());
}

#[test]
fn migration_of_empty_inventory_commits_an_empty_catalog() {
    let legacy = empty_inventory();
    let mut catalogs = InMemoryTzapIdentityCatalogStore::new();
    let mut secrets = InMemoryTzapSecretMaterialStore::new();
    let report = migrate_legacy_inventory(&legacy, &mut catalogs, &mut secrets, "default", 5).unwrap();
    assert!(report.migrated);
    assert_eq!(report.signing_identity_count, 0);
    let catalog = catalogs.load_catalog("default").unwrap().unwrap();
    assert!(catalog.pending_mutations.is_empty());
    assert_eq!(catalog.revision, 2);
}

#[test]
fn migration_rejects_a_key_record_with_a_wrong_public_key() {
    let mut legacy = sample_inventory();
    legacy.recipient_encryption_keys[0].public_key_der = vec![1, 2, 3];
    let mut catalogs = InMemoryTzapIdentityCatalogStore::new();
    let mut secrets = InMemoryTzapSecretMaterialStore::new();
    let result = migrate_legacy_inventory(&legacy, &mut catalogs, &mut secrets, "default", 5);
    assert!(matches!(result, Err(TzapIdentityCatalogError::InvalidCatalog { .. })));
    assert!(catalogs.load_catalog("default").unwrap().is_none());
}

#[test]
fn stored_inventory_keeps_its_secret_references_across_saves() {
    let legacy = sample_inventory();
    let mut catalogs = InMemoryTzapIdentityCatalogStore::new();
    let mut secrets = InMemoryTzapSecretMaterialStore::new();
    store_inventory_as_catalog(&mut catalogs, &mut secrets, "default", &legacy, 10).unwrap();
    let first = catalogs.load_catalog("default").unwrap().unwrap();
    assert_eq!(first.revision, 1);
    assert!(first.pending_mutations.is_empty());
    store_inventory_as_catalog(&mut catalogs, &mut secrets, "default", &legacy, 11).unwrap();
    let second = catalogs.load_catalog("default").unwrap().unwrap();
    assert_eq!(second.revision, 2);
    assert_eq!(second.recipient_keys[0].private_key_ref.as_str(), first.recipient_keys[0].private_key_ref.as_str());
    // A pending identity was migrated from no key: it gets a fresh
    // reference, and the old secret is dropped.
    assert_ne!(second.signing_identities[0].signing_key_ref.as_str(), first.signing_identities[0].signing_key_ref.as_str());
    assert!(secrets.resolve(TzapSecretPurpose::SigningKey, &first.signing_identities[0].signing_key_ref).is_err());
    assert_eq!(
        secrets.resolve(TzapSecretPurpose::SigningKey, &second.signing_identities[0].signing_key_ref).unwrap(),
        legacy.device_signing_keys[0].private_key_der
    );
    assert_eq!(
        secrets.resolve(TzapSecretPurpose::RecipientKey, &second.recipient_keys[0].private_key_ref).unwrap(),
        legacy.recipient_encryption_keys[0].private_key_der
    );
}

#[test]
fn stored_inventory_drops_the_secrets_of_removed_keys() {
    let legacy = sample_inventory();
    let mut catalogs = InMemoryTzapIdentityCatalogStore::new();
    let mut secrets = InMemoryTzapSecretMaterialStore::new();
    store_inventory_as_catalog(&mut catalogs, &mut secrets, "default", &legacy, 10).unwrap();
    let first = catalogs.load_catalog("default").unwrap().unwrap();
    let recipient_ref = first.recipient_keys[0].private_key_ref.clone();
    let mut smaller = legacy.clone();
    smaller.recipient_encryption_keys.clear();
    store_inventory_as_catalog(&mut catalogs, &mut secrets, "default", &smaller, 11).unwrap();
    assert!(secrets.resolve(TzapSecretPurpose::RecipientKey, &recipient_ref).is_err());
    let second = catalogs.load_catalog("default").unwrap().unwrap();
    assert!(second.recipient_keys.is_empty());
    assert!(secrets.resolve(TzapSecretPurpose::SigningKey, &second.signing_identities[0].signing_key_ref).is_ok());
}

#[test]
fn reused_references_come_from_the_stored_catalog() {
    let legacy = sample_inventory();
    let (stored, _, _) = build_catalog_from_legacy(&legacy, 1).unwrap();
    let (fresh, srefs, rrefs) = build_catalog_from_legacy(&legacy, 2).unwrap();
    assert_ne!(fresh.recipient_keys[0].private_key_ref.as_str(), stored.recipient_keys[0].private_key_ref.as_str());
    let (kept, kept_srefs, kept_rrefs) = reuse_existing_refs(fresh, srefs, rrefs, &stored);
    // A pending identity was migrated from no key, so its fresh reference stays.
    assert_ne!(kept.signing_identities[0].signing_key_ref.as_str(), stored.signing_identities[0].signing_key_ref.as_str());
    assert_eq!(kept.recipient_keys[0].private_key_ref.as_str(), stored.recipient_keys[0].private_key_ref.as_str());
    assert_eq!(kept_rrefs[0].1.as_str(), stored.recipient_keys[0].private_key_ref.as_str());
    assert_eq!(kept_srefs[0].1.as_str(), kept.signing_identities[0].signing_key_ref.as_str());
}

fn certificate_for(key_id: &str) -> TzapEnrolledCertificateRecord {
    TzapEnrolledCertificateRecord {
        certificate_id: "certificate-1".to_owned(),
        signing_key_id: key_id.to_owned(),
        certificate_sha256: "sha256:aa".to_owned(),
        issuer_certificate_sha256: "sha256:bb".to_owned(),
        issuer_key_identifier: "issuer".to_owned(),
        serial_number: "01".to_owned(),
        leaf_certificate_der: vec![0x30, 0x00],
        intermediate_chain_der: vec![vec![0x30, 0x01]],
        not_before_unix_seconds: 1,
        not_after_unix_seconds: 2,
        public_signer_id: "signer".to_owned(),
        public_org_id: None,
        public_device_id: "device".to_owned(),
        assurance_level: "individual".to_owned(),
        sign_device_id: "sign-device".to_owned(),
        metadata_version: 1,
        policy_oid: "1.2.3".to_owned(),
        state: "active".to_owned(),
    }
}

#[test]
fn enrolled_keys_keep_their_signing_reference_across_saves() {
    let mut legacy = sample_inventory();
    legacy.enrolled_certificates.push(certificate_for("signing-1"));
    let mut catalogs = InMemoryTzapIdentityCatalogStore::new();
    let mut secrets = InMemoryTzapSecretMaterialStore::new();
    store_inventory_as_catalog(&mut catalogs, &mut secrets, "default", &legacy, 10).unwrap();
    let first = catalogs.load_catalog("default").unwrap().unwrap();
    assert_eq!(first.signing_identities.len(), 1);
    assert_eq!(first.signing_identities[0].legacy_key_id.as_deref(), Some("signing-1"));
    store_inventory_as_catalog(&mut catalogs, &mut secrets, "default", &legacy, 11).unwrap();
    let second = catalogs.load_catalog("default").unwrap().unwrap();
    assert_eq!(second.signing_identities[0].signing_key_ref.as_str(), first.signing_identities[0].signing_key_ref.as_str());
    assert_eq!(
        secrets.resolve(TzapSecretPurpose::SigningKey, &second.signing_identities[0].signing_key_ref).unwrap(),
        legacy.device_signing_keys[0].private_key_der
    );
}

#[test]
fn stored_inventory_reads_back_losslessly() {
    let mut legacy = sample_inventory();
    legacy.enrolled_certificates.push(certificate_for("signing-1"));
    let mut catalogs = InMemoryTzapIdentityCatalogStore::new();
    let mut secrets = InMemoryTzapSecretMaterialStore::new();
    assert!(load_inventory_from_catalog(&catalogs, &secrets, "default", 1, "1.2.3").unwrap().is_none());
    store_inventory_as_catalog(&mut catalogs, &mut secrets, "default", &legacy, 10).unwrap();
    let back = load_inventory_from_catalog(&catalogs, &secrets, "default", 1, "1.2.3").unwrap().unwrap();
    assert_eq!(back.device_signing_keys.len(), 1);
    let key = &back.device_signing_keys[0];
    assert_eq!(key.key_id, "signing-1");
    assert_eq!(key.public_key_fingerprint, legacy.device_signing_keys[0].public_key_fingerprint);
    assert_eq!(key.private_key_der, legacy.device_signing_keys[0].private_key_der);
    assert_eq!(key.label.as_deref(), Some("Laptop"));
    assert_eq!(back.enrolled_certificates.len(), 1);
    let certificate = &back.enrolled_certificates[0];
    assert_eq!(certificate.certificate_id, "certificate-1");
    assert_eq!(certificate.leaf_certificate_der, vec![0x30, 0x00]);
    assert_eq!(certificate.intermediate_chain_der, vec![vec![0x30, 0x01]]);
    assert_eq!(certificate.assurance_level, "individual");
    assert_eq!(certificate.state, "active");
    let recipient = &back.recipient_encryption_keys[0];
    assert_eq!(recipient.key_id, "recipient-1");
    assert_eq!(recipient.public_key_der, legacy.recipient_encryption_keys[0].public_key_der);
    assert_eq!(recipient.private_key_der, legacy.recipient_encryption_keys[0].private_key_der);
}

#[test]
fn status_cache_times_must_be_decimal() {
    let record = TzapPublicStatusCacheRecord {
        lookup_id: "sha256:cc".to_owned(),
        status: "good".to_owned(),
        this_update: "12".to_owned(),
        next_update: "x".to_owned(),
    };
    assert!(matches!(
        legacy_status_of(&record),
        Err(TzapIdentityCatalogError::InvalidCatalog { field: "status_cache.next_update" })
    ));
    let good = TzapPublicStatusCacheRecord { next_update: "+40".to_owned(), ..record };
    let status = legacy_status_of(&good).unwrap();
    assert_eq!(status.this_update_unix_seconds, 12);
    assert_eq!(status.next_update_unix_seconds, 40);
}

#[test]
fn contact_card_key_reads_back_as_url_safe_base64() {
    let record = TzapPublicContactRecord {
        contact_id: "contact-1".to_owned(),
        display_name: "Ada".to_owned(),
        signing_certificate_sha256: "sha256:dd".to_owned(),
        recipient_public_key_fingerprint: "sha256:ee".to_owned(),
        recipient_public_key_der: vec![0xfb, 0xff, 0x01],
        trust_source: "official".to_owned(),
        verification_state: "verified".to_owned(),
        missing_status_caveat: false,
        contact_card_payload: "{}".to_owned(),
        accepted_at_unix_seconds: 7,
    };
    let contact = legacy_contact_of(&record);
    assert_eq!(contact.recipient_public_key.as_deref(), Some("-_8B"));
    assert_eq!(contact.trust_anchor_type, "official");
    assert_eq!(contact.accepted_at_unix_seconds, 7);
}

#[test]
fn loading_fails_when_a_referenced_secret_is_gone() {
    let legacy = sample_inventory();
    let mut catalogs = InMemoryTzapIdentityCatalogStore::new();
    let mut secrets = InMemoryTzapSecretMaterialStore::new();
    store_inventory_as_catalog(&mut catalogs, &mut secrets, "default", &legacy, 10).unwrap();
    let stored = catalogs.load_catalog("default").unwrap().unwrap();
    secrets.delete(TzapSecretPurpose::RecipientKey, &stored.recipient_keys[0].private_key_ref).unwrap();
    assert!(load_inventory_from_catalog(&catalogs, &secrets, "default", 1, "1.2.3").is_err());
}

#[test]
fn storing_a_defective_inventory_changes_nothing() {
    let mut legacy = sample_inventory();
    legacy.recipient_encryption_keys[0].public_key_der = vec![1, 2, 3];
    let mut catalogs = InMemoryTzapIdentityCatalogStore::new();
    let mut secrets = InMemoryTzapSecretMaterialStore::new();
    let result = store_inventory_as_catalog(&mut catalogs, &mut secrets, "default", &legacy, 10);
    assert!(matches!(result, Err(TzapIdentityCatalogError::InvalidCatalog { .. })));
    assert!(catalogs.load_catalog("default").unwrap().is_none());
}
