use zmanager_core::device_identity::{
    csr_fingerprint, ensure_recipient_key_is_distinct_from_signing_key, format_sha256_fingerprint, generate_device_csr_from_private_key,
    generate_device_signing_key_and_csr, TzapDeviceCsrOptions, TzapDeviceIdentityError, DEVICE_CSR_COMMON_NAME,
};

#[test]
fn device_csr_options_reject_empty_common_name() {
    assert!(matches!(
        generate_device_signing_key_and_csr(&TzapDeviceCsrOptions { common_name: String::new() }),
        Err(TzapDeviceIdentityError::EmptyCommonName)
    ));
}

#[test]
fn recipient_key_distinctness_rejects_reused_signing_fingerprint() {
    let fingerprint = format_sha256_fingerprint(&[0x42; 32]);

    assert!(matches!(
        ensure_recipient_key_is_distinct_from_signing_key(&fingerprint, &fingerprint),
        Err(TzapDeviceIdentityError::RecipientKeyReusesSigningKey)
    ));
}

#[test]
fn distinct_fingerprints_are_accepted() {
    let signing = format_sha256_fingerprint(&[0x42; 32]);
    let recipient = format_sha256_fingerprint(&[0x43; 32]);
    assert!(ensure_recipient_key_is_distinct_from_signing_key(&signing, &recipient).is_ok());
}

#[test]
fn default_options_use_the_device_common_name() {
    assert_eq!(TzapDeviceCsrOptions::default().common_name, DEVICE_CSR_COMMON_NAME);
}

#[test]
fn fingerprint_text_is_prefixed_lower_hex() {
    let text = format_sha256_fingerprint(&[0xab, 0x01]);
    assert_eq!(text, "sha256:ab01");
}

#[test]
fn csr_fingerprint_is_the_sha256_of_the_der() {
    // SHA-256 of the empty string.
    assert_eq!(csr_fingerprint(b""), "sha256:e3b0c44298fc1c149afbf4c8996fb92427ae41e4649b934ca495991b7852b855");
}

#[test]
fn generated_signing_key_carries_matching_fingerprints() {
    let material = generate_device_signing_key_and_csr(&TzapDeviceCsrOptions::default()).unwrap();
    assert!(!material.private_key_der.is_empty());
    assert!(!material.public_key_spki_der.is_empty());
    assert_eq!(material.csr_sha256, csr_fingerprint(&material.csr_der));
    let rebuilt = generate_device_csr_from_private_key(&material.private_key_der, &TzapDeviceCsrOptions::default()).unwrap();
    assert!(!rebuilt.is_empty());
}

#[test]
fn rebuilding_a_csr_from_garbage_is_a_crypto_error() {
    let error = generate_device_csr_from_private_key(b"not a key", &TzapDeviceCsrOptions::default()).err().unwrap();
    assert!(matches!(error, TzapDeviceIdentityError::Crypto(_)));
    assert!(error.to_text().starts_with("device identity crypto operation failed: "));
}
