use remitwise::migration::{check_version_compatibility, MigrationError, SCHEMA_VERSION};

#[test]
fn test_check_version_compatibility_succeeds() {
    assert!(check_version_compatibility(1).is_ok());
    assert!(check_version_compatibility(SCHEMA_VERSION).is_ok());
    assert!(check_version_compatibility(0).is_err());
    assert!(check_version_compatibility(SCHEMA_VERSION + 1).is_err());
}

#[test]
fn test_error_display_messages() {
    assert!(MigrationError::ChecksumMismatch
        .to_string()
        .contains("checksum mismatch"));
    assert!(MigrationError::UnknownHashAlgorithm
        .to_string()
        .contains("unknown hash algorithm"));
    assert!(MigrationError::IncompatibleVersion {
        found: 5,
        min: 1,
        max: 2,
    }
    .to_string()
    .contains("5"));
}
