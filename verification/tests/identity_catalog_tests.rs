use zmanager_core::identity_catalog::{
    check_revision, has_pending_legacy_migration, lock_is_stale, next_lock_steal, validate_account_key, FileTzapIdentityCatalogStore, InMemoryTzapIdentityCatalogStore,
    InMemoryTzapSecretMaterialStore, PendingMutation, TzapIdentityCatalog, TzapIdentityCatalogError, TzapIdentityCatalogStore,
    TzapPublicRecipientKeyRecord, TzapSecretMaterialStore, TzapSecretPurpose, TzapSecretRef, TzapSecretStoreError,
};

fn recipient(id: &str, reference: &TzapSecretRef) -> TzapPublicRecipientKeyRecord {
    TzapPublicRecipientKeyRecord {
        id: id.to_owned(),
        local_label: None,
        algorithm: "P-256-SPKI".to_owned(),
        public_key_der: vec![1, 2, 3],
        fingerprint: "sha256:00".to_owned(),
        private_key_ref: reference.clone(),
        lifecycle: "active".to_owned(),
        created_at_unix_seconds: 2,
        retired_at_unix_seconds: None,
    }
}

#[test]
fn empty_catalog_validates() {
    let catalog = TzapIdentityCatalog::empty();
    assert!(catalog.catalog_id.starts_with("catalog_"));
    assert_eq!(catalog.revision, 0);
    assert!(catalog.validate().is_ok());
}

/// The catalog's rendering names every field it has, as its serialised
/// form does: neither a private key nor a session token is among them.
#[test]
fn empty_catalog_is_public_and_has_no_secret_fields() {
    let catalog = TzapIdentityCatalog::empty();
    let rendered = format!("{catalog:?}");
    assert!(!rendered.contains("private_key_der"));
    assert!(!rendered.contains("session_token"));
    assert!(catalog.validate().is_ok());
}

#[test]
fn in_memory_catalog_store_enforces_revision() {
    let mut store = InMemoryTzapIdentityCatalogStore::new();
    let mut catalog = TzapIdentityCatalog::empty();
    catalog.revision = 1;
    store.save_catalog("default", None, catalog.clone()).unwrap();
    assert!(matches!(
        store.save_catalog("default", None, catalog.clone()),
        Err(TzapIdentityCatalogError::RevisionConflict { expected: None, actual: Some(1) })
    ));
    let mut next = catalog.clone();
    next.revision = 2;
    store.save_catalog("default", Some(1), next).unwrap();
    assert_eq!(store.load_catalog("default").unwrap().unwrap().revision, 2);
    store.clear_catalog("default").unwrap();
    assert!(store.load_catalog("default").unwrap().is_none());
}

#[test]
fn invalid_catalogs_name_the_first_bad_field() {
    let mut catalog = TzapIdentityCatalog::empty();
    catalog.schema_version = 2;
    assert!(matches!(catalog.validate(), Err(TzapIdentityCatalogError::InvalidCatalog { field: "schema_version" })));

    let reference = TzapSecretRef::generate();
    let mut catalog = TzapIdentityCatalog::empty();
    catalog.recipient_keys = vec![recipient("r1", &reference), recipient("r1", &reference)];
    assert!(matches!(catalog.validate(), Err(TzapIdentityCatalogError::InvalidCatalog { field: "recipient_keys.id" })));

    let mut catalog = TzapIdentityCatalog::empty();
    let mut broken = recipient("r1", &reference);
    broken.public_key_der.clear();
    catalog.recipient_keys = vec![broken];
    assert!(matches!(catalog.validate(), Err(TzapIdentityCatalogError::InvalidCatalog { field: "recipient_keys.public_key_der" })));

    let mut catalog = TzapIdentityCatalog::empty();
    catalog.default_signing_identity_id = Some("missing".to_owned());
    assert!(matches!(catalog.validate(), Err(TzapIdentityCatalogError::InvalidCatalog { field: "default_signing_identity_id" })));
}

#[test]
fn secret_references_need_the_prefix_and_a_body() {
    assert!(TzapSecretRef::parse("secret_abc".to_owned()).is_ok());
    assert!(matches!(TzapSecretRef::parse("secret_".to_owned()), Err(TzapSecretStoreError::InvalidReference)));
    assert!(matches!(TzapSecretRef::parse("token_abc".to_owned()), Err(TzapSecretStoreError::InvalidReference)));
    let generated = TzapSecretRef::generate();
    assert!(generated.as_str().starts_with("secret_"));
    assert_eq!(generated.as_str().len(), "secret_".len() + 32);
}

#[test]
fn secret_store_gives_back_what_was_stored_and_forgets_deleted_material() {
    let mut store = InMemoryTzapSecretMaterialStore::new();
    let reference = TzapSecretRef::parse("secret_one".to_owned()).unwrap();
    store.put_at(TzapSecretPurpose::SigningKey, &reference, vec![7, 8]).unwrap();
    assert_eq!(store.resolve(TzapSecretPurpose::SigningKey, &reference).unwrap(), vec![7, 8]);
    assert!(matches!(store.resolve(TzapSecretPurpose::RecipientKey, &reference), Err(TzapSecretStoreError::Missing { .. })));
    store.put_at(TzapSecretPurpose::SigningKey, &reference, vec![9]).unwrap();
    assert_eq!(store.resolve(TzapSecretPurpose::SigningKey, &reference).unwrap(), vec![9]);
    store.delete(TzapSecretPurpose::SigningKey, &reference).unwrap();
    assert!(store.resolve(TzapSecretPurpose::SigningKey, &reference).is_err());
    assert!(matches!(store.delete(TzapSecretPurpose::SigningKey, &reference), Err(TzapSecretStoreError::Missing { .. })));
    assert!(matches!(store.put(TzapSecretPurpose::Session, Vec::new()), Err(TzapSecretStoreError::Corrupt)));
    let fresh = store.put(TzapSecretPurpose::Session, vec![1]).unwrap();
    assert_eq!(store.resolve(TzapSecretPurpose::Session, &fresh).unwrap(), vec![1]);
}

#[test]
fn pending_mutation_markers_round_trip() {
    let mutation = PendingMutation::LegacyMigration { started_at_unix_seconds: 1_700_000_000 };
    assert_eq!(mutation.wire_value(), "legacy-migration-1700000000");
    assert_eq!(PendingMutation::from_wire("legacy-migration-1700000000"), Some(mutation));
    assert_eq!(PendingMutation::from_wire("legacy-migration-x"), None);
    assert_eq!(PendingMutation::from_wire("other"), None);
    let mut catalog = TzapIdentityCatalog::empty();
    assert!(!has_pending_legacy_migration(&catalog));
    catalog.pending_mutations.push(mutation);
    assert!(has_pending_legacy_migration(&catalog));
}

#[test]
fn account_keys_cannot_escape_the_store() {
    assert!(validate_account_key("default"));
    assert!(!validate_account_key(""));
    assert!(!validate_account_key("a/b"));
    assert!(!validate_account_key("a\\b"));
    assert!(!validate_account_key(".."));
    let store = FileTzapIdentityCatalogStore::new("/var/lib/tzap".to_owned());
    assert_eq!(store.catalog_path("default").unwrap(), "/var/lib/tzap/default.identity-catalog.json");
    assert!(matches!(store.catalog_path("../x"), Err(TzapIdentityCatalogError::InvalidAccountKey)));
}

#[test]
fn catalog_errors_render_their_details() {
    let conflict = check_revision(None, Some(3)).err().unwrap();
    assert_eq!(conflict.to_text(), "identity catalog revision conflict (expected None, actual Some(3))");
    assert!(check_revision(Some(3), Some(3)).is_ok());
    let secret = TzapIdentityCatalogError::Secret(TzapSecretStoreError::Locked);
    assert_eq!(secret.to_text(), "secure secret migration failed: secure secret store is locked");
}

#[test]
fn stale_locks_are_stolen_a_bounded_number_of_times() {
    assert!(!lock_is_stale(None));
    assert!(!lock_is_stale(Some(29)));
    assert!(lock_is_stale(Some(30)));
    assert_eq!(next_lock_steal(0, false), None);
    assert_eq!(next_lock_steal(0, true), Some(1));
    assert_eq!(next_lock_steal(2, true), Some(3));
    assert_eq!(next_lock_steal(3, true), None);
    let mut attempts = 0;
    let mut steals = 0;
    while let Some(next) = next_lock_steal(attempts, true) {
        attempts = next;
        steals += 1;
    }
    assert_eq!(steals, 3);
}
