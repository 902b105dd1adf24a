use weaver::config::envelope::ConfigError;
use weaver::config::snapshot::SnapshotError;
use weaver::crypto::keys::CertificateError;
use weaver::discovery::presence::DiscoveryError;
use weaver::net::config_state::ConfigStateError;
use weaver::net::identity::IdentityError;
use weaver::net::membership::MembershipError;
use weaver::net::peers::ConfigAuthorizationError;
use weaver::text::{decimal, joined};

#[test]
fn numbers_are_written_in_decimal() {
    assert_eq!(decimal(0), "0");
    assert_eq!(decimal(9), "9");
    assert_eq!(decimal(1_234_567_890), "1234567890");
    assert_eq!(decimal(u64::MAX), u64::MAX.to_string());
    assert_eq!(joined("a", "b"), "ab");
}

#[test]
fn messages_name_what_went_wrong() {
    assert_eq!(
        ConfigError::UnsupportedVersion(65_535).message(),
        "unsupported configuration envelope version 65535"
    );
    assert_eq!(
        SnapshotError::DuplicateEntry("relay endpoint").message(),
        "configuration snapshot contains duplicate relay endpoint"
    );
    assert_eq!(
        ConfigError::Snapshot(SnapshotError::Credential(CertificateError::Expired)).message(),
        "configuration snapshot failed validation: credential verification failed: \
         certificate or binding is expired"
    );
    assert_eq!(
        ConfigError::Signature(CertificateError::InvalidSignature).message(),
        "configuration signature failed: signature verification failed"
    );
    assert_eq!(
        DiscoveryError::Rollback.message(),
        "presence sequence would roll back or fork cached state"
    );
    assert_eq!(
        DiscoveryError::Crypto(CertificateError::MalformedKey).message(),
        "malformed public key"
    );
    assert_eq!(
        ConfigStateError::Config(ConfigError::ChainMismatch).message(),
        "configuration chain revision or previous hash does not match current head"
    );
    assert_eq!(
        IdentityError::CorruptRecord.message(),
        "persistent client identity record is corrupt"
    );
    assert_eq!(
        MembershipError::SecretMismatch("endpoint").message(),
        "stored endpoint secret differs from the prepared request"
    );
    assert_eq!(
        ConfigAuthorizationError::Credential(CertificateError::MalformedWire).message(),
        "credential bytes in validated configuration are malformed: \
         malformed certificate wire bytes"
    );
}
