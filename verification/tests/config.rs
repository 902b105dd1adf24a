use weaver::config::chain::{ChainExpectation, ConfigHead, ConfigUpdateBatch};
use weaver::config::envelope::{ConfigError, EncryptedConfigEnvelope, KeyWrap};
use weaver::config::sealing::MemberEncryptionKeypair;
use weaver::config::snapshot::{AdminKey, EpochSecrets, NetworkConfigV1, NetworkPolicy, SnapshotError};
use weaver::crypto::admin::{AdminCertificate, ADMIN_PERMISSION_CONFIG_WRITE};
use weaver::crypto::keys::{CertificateError, NetworkRootKey, OnlineAdminKey, SigningKeypair};
use weaver::crypto::member::{MemberCertificate, MemberRoles};

#[test]
fn envelope_round_trips_for_each_active_member_and_chains() {
    let root = NetworkRootKey::generate().unwrap();
    let network = root.public().network_id();
    let first_member = MemberEncryptionKeypair::generate().unwrap();
    let second_member = MemberEncryptionKeypair::generate().unwrap();
    let recipients = [first_member.public_bytes(), second_member.public_bytes()];
    let genesis = EncryptedConfigEnvelope::seal(
        &root,
        1,
        0,
        [0; 32],
        b"revision zero topology",
        &recipients,
    )
    .unwrap();
    let genesis = EncryptedConfigEnvelope::from_bytes(&genesis.to_bytes()).unwrap();
    let first_open = genesis
        .open(
            &root.public(),
            network,
            &first_member,
            ChainExpectation::Genesis,
        )
        .unwrap();
    let second_open = genesis
        .open(
            &root.public(),
            network,
            &second_member,
            ChainExpectation::Genesis,
        )
        .unwrap();
    assert_eq!(first_open.plaintext, b"revision zero topology"[..]);
    assert_eq!(first_open, second_open);

    let revision_one = EncryptedConfigEnvelope::seal(
        &root,
        1,
        1,
        first_open.head.hash,
        b"revision one topology",
        &recipients,
    )
    .unwrap();
    let opened = revision_one
        .open(
            &root.public(),
            network,
            &first_member,
            ChainExpectation::Next(first_open.head),
        )
        .unwrap();
    assert_eq!(opened.plaintext, b"revision one topology"[..]);
    assert_eq!(opened.head.revision, 1);

    let revision_two = EncryptedConfigEnvelope::seal(
        &root,
        1,
        2,
        opened.head.hash,
        b"revision two topology",
        &recipients,
    )
    .unwrap();
    let batch = ConfigUpdateBatch::new(
        network,
        first_open.head,
        vec![revision_one.to_bytes(), revision_two.to_bytes()],
    )
    .unwrap();
    assert_eq!(
        ConfigUpdateBatch::from_bytes(&batch.to_bytes().unwrap()).unwrap(),
        batch
    );
    let mut wrong_base = first_open.head;
    wrong_base.hash[0] ^= 1;
    assert!(matches!(
        ConfigUpdateBatch::new(network, wrong_base, vec![revision_one.to_bytes()]),
        Err(ConfigError::ChainMismatch)
    ));
}

#[test]
fn removed_member_cannot_open_future_epoch() {
    let root = NetworkRootKey::generate().unwrap();
    let network = root.public().network_id();
    let removed = MemberEncryptionKeypair::generate().unwrap();
    let active = MemberEncryptionKeypair::generate().unwrap();
    let envelope = EncryptedConfigEnvelope::seal(
        &root,
        2,
        0,
        [0; 32],
        b"post-revocation config",
        &[active.public_bytes()],
    )
    .unwrap();
    assert_eq!(
        envelope.open(&root.public(), network, &removed, ChainExpectation::Genesis),
        Err(ConfigError::NoRecipientWrap)
    );
    assert!(
        envelope
            .open(&root.public(), network, &active, ChainExpectation::Genesis)
            .is_ok()
    );
}

#[test]
fn tampering_wrong_network_and_rollback_fail_closed() {
    let root = NetworkRootKey::generate().unwrap();
    let other_root = NetworkRootKey::generate().unwrap();
    let member = MemberEncryptionKeypair::generate().unwrap();
    let envelope = EncryptedConfigEnvelope::seal(
        &root,
        1,
        0,
        [0; 32],
        b"protected config",
        &[member.public_bytes()],
    )
    .unwrap();
    assert_eq!(
        envelope.open(
            &root.public(),
            other_root.public().network_id(),
            &member,
            ChainExpectation::Genesis
        ),
        Err(ConfigError::WrongNetwork)
    );

    let head = envelope
        .open(
            &root.public(),
            root.public().network_id(),
            &member,
            ChainExpectation::Genesis,
        )
        .unwrap()
        .head;
    assert_eq!(
        envelope.open(
            &root.public(),
            root.public().network_id(),
            &member,
            ChainExpectation::Next(head)
        ),
        Err(ConfigError::ChainMismatch)
    );

    let mut wire = envelope.to_bytes().to_vec();
    let ciphertext_offset = 8 + 2 + 32 + 8 + 8 + 32 + 32 + 24 + 4;
    wire[ciphertext_offset] ^= 1;
    let tampered = EncryptedConfigEnvelope::from_bytes(&wire).unwrap();
    assert!(matches!(
        tampered.open(
            &root.public(),
            root.public().network_id(),
            &member,
            ChainExpectation::Genesis
        ),
        Err(ConfigError::Signature(CertificateError::InvalidSignature))
    ));
}

#[test]
fn member_encryption_key_restores_same_public_key() {
    let key = MemberEncryptionKeypair::generate().unwrap();
    let restored = MemberEncryptionKeypair::from_secret_bytes(key.secret_bytes()).unwrap();
    assert_eq!(restored.public_bytes(), key.public_bytes());
}

#[test]
fn online_admin_signs_only_monotonic_post_genesis_config() {
    let root = NetworkRootKey::generate().unwrap();
    let network = root.public().network_id();
    let admin = OnlineAdminKey::generate().unwrap();
    let admin_certificate = AdminCertificate::issue(
        &root,
        admin.public_bytes(),
        ADMIN_PERMISSION_CONFIG_WRITE,
        50,
        100,
        10_000,
    )
    .unwrap();
    let member_signing = SigningKeypair::generate().unwrap();
    let member_encryption = MemberEncryptionKeypair::generate().unwrap();
    let member = MemberCertificate::issue(
        &root,
        member_signing.public_bytes(),
        member_encryption.public_bytes(),
        MemberRoles::member(),
        51,
        100,
        10_000,
    )
    .unwrap();
    let genesis_config = NetworkConfigV1 {
        network_id: network,
        epoch: 0,
        revision: 0,
        previous_hash: [0; 32],
        issued_at_ms: 100,
        expires_at_ms: 9_000,
        admin_keys: vec![AdminKey {
            certificate: admin_certificate.to_bytes(),
        }],
        members: vec![member.to_bytes()],
        endpoint_bindings: Vec::new(),
        revoked_serials: Vec::new(),
        apps: Vec::new(),
        app_bindings: Vec::new(),
        virtual_dns: Vec::new(),
        relays: Vec::new(),
        presence_services: Vec::new(),
        epoch_secrets: EpochSecrets::from_bytes([[0x81; 32]; 4]),
        policies: NetworkPolicy::default(),
    };
    let genesis = EncryptedConfigEnvelope::seal_config(
        &root,
        &genesis_config,
        &[member_encryption.public_bytes()],
    )
    .unwrap();
    let opened_genesis = genesis
        .open_config(
            &root.public(),
            network,
            &member_encryption,
            ChainExpectation::Genesis,
            500,
        )
        .unwrap();

    let mut next_config = genesis_config;
    next_config.revision = 1;
    next_config.previous_hash = opened_genesis.head.hash;
    next_config.issued_at_ms = 101;
    let next = EncryptedConfigEnvelope::seal_next_config(
        &root.public(),
        &admin,
        &opened_genesis.config,
        opened_genesis.head,
        &next_config,
        &[member_encryption.public_bytes()],
        500,
    )
    .unwrap();
    let opened_next = next
        .open_next_config(
            &root.public(),
            &opened_genesis.config,
            &member_encryption,
            opened_genesis.head,
            500,
        )
        .unwrap();
    assert!(opened_next.config.as_config() == &next_config);
    assert_eq!(opened_next.head.revision, 1);
    assert_eq!(
        next.open(
            &root.public(),
            network,
            &member_encryption,
            ChainExpectation::Next(opened_genesis.head)
        ),
        Err(ConfigError::WrongSigner)
    );
}

#[test]
fn typed_config_requires_wrap_for_every_active_member_exactly_once() {
    let root = NetworkRootKey::generate().unwrap();
    let member_signing = SigningKeypair::generate().unwrap();
    let member_encryption = MemberEncryptionKeypair::generate().unwrap();
    let member = MemberCertificate::issue(
        &root,
        member_signing.public_bytes(),
        member_encryption.public_bytes(),
        MemberRoles::member(),
        1,
        100,
        1_000,
    )
    .unwrap();
    let config = NetworkConfigV1 {
        network_id: root.public().network_id(),
        epoch: 0,
        revision: 0,
        previous_hash: [0; 32],
        issued_at_ms: 100,
        expires_at_ms: 900,
        admin_keys: Vec::new(),
        members: vec![member.to_bytes()],
        endpoint_bindings: Vec::new(),
        revoked_serials: Vec::new(),
        apps: Vec::new(),
        app_bindings: Vec::new(),
        virtual_dns: Vec::new(),
        relays: Vec::new(),
        presence_services: Vec::new(),
        epoch_secrets: EpochSecrets::from_bytes([[0x91; 32]; 4]),
        policies: NetworkPolicy::default(),
    };
    let unrelated = MemberEncryptionKeypair::generate().unwrap();
    assert_eq!(
        EncryptedConfigEnvelope::seal_config(&root, &config, &[unrelated.public_bytes()]),
        Err(ConfigError::RecipientSetMismatch)
    );
}

fn member_config(
    root: &NetworkRootKey,
    admin: &OnlineAdminKey,
    permissions: u32,
    encryption: &MemberEncryptionKeypair,
) -> NetworkConfigV1 {
    let signing = SigningKeypair::from_bytes(&[0x21; 32]);
    let member = MemberCertificate::issue(
        root,
        signing.public_bytes(),
        encryption.public_bytes(),
        MemberRoles::member(),
        61,
        100,
        10_000,
    )
    .unwrap();
    let certificate =
        AdminCertificate::issue(root, admin.public_bytes(), permissions, 60, 100, 10_000).unwrap();
    NetworkConfigV1 {
        network_id: root.public().network_id(),
        epoch: 0,
        revision: 0,
        previous_hash: [0; 32],
        issued_at_ms: 100,
        expires_at_ms: 9_000,
        admin_keys: vec![AdminKey {
            certificate: certificate.to_bytes(),
        }],
        members: vec![member.to_bytes()],
        endpoint_bindings: Vec::new(),
        revoked_serials: Vec::new(),
        apps: Vec::new(),
        app_bindings: Vec::new(),
        virtual_dns: Vec::new(),
        relays: Vec::new(),
        presence_services: Vec::new(),
        epoch_secrets: EpochSecrets::from_bytes([[0x31; 32]; 4]),
        policies: NetworkPolicy::default(),
    }
}

#[test]
fn sealing_bounds_its_input() {
    let root = NetworkRootKey::from_bytes(&[1; 32]);
    let member = MemberEncryptionKeypair::from_secret_bytes([2; 32]).unwrap();
    assert_eq!(
        EncryptedConfigEnvelope::seal(&root, 0, 0, [0; 32], b"x", &[]),
        Err(ConfigError::InvalidRecipientCount)
    );
    assert_eq!(
        EncryptedConfigEnvelope::seal(&root, 0, 0, [0; 32], b"x", &vec![member.public_bytes(); 257]),
        Err(ConfigError::InvalidRecipientCount)
    );
    assert_eq!(
        EncryptedConfigEnvelope::seal(
            &root,
            0,
            0,
            [0; 32],
            &vec![0; 1_048_577],
            &[member.public_bytes()]
        ),
        Err(ConfigError::PayloadTooLarge)
    );
    assert_eq!(
        EncryptedConfigEnvelope::seal(&root, 0, 0, [0; 32], b"x", &[[0; 32]]),
        Err(ConfigError::KeyWrapFailed)
    );
}

#[test]
fn sealing_hides_the_plaintext_and_draws_afresh() {
    let root = NetworkRootKey::from_bytes(&[1; 32]);
    let member = MemberEncryptionKeypair::from_secret_bytes([2; 32]).unwrap();
    let text = b"a plaintext that nobody else may read";
    let first =
        EncryptedConfigEnvelope::seal(&root, 0, 0, [0; 32], text, &[member.public_bytes()]).unwrap();
    let second =
        EncryptedConfigEnvelope::seal(&root, 0, 0, [0; 32], text, &[member.public_bytes()]).unwrap();
    assert!(!first.to_bytes().windows(text.len()).any(|window| window == text));
    assert_ne!(first.nonce, second.nonce);
    assert_ne!(first.ciphertext, second.ciphertext);
    assert_eq!(first.payload_hash, *blake3::hash(text).as_bytes());
    assert_eq!(
        first.envelope_hash(),
        *blake3::hash(&first.to_bytes()).as_bytes()
    );
    assert_ne!(member.public_bytes(), member.secret_bytes());
}

#[test]
fn envelopes_of_other_versions_and_shapes_are_refused() {
    let root = NetworkRootKey::from_bytes(&[1; 32]);
    let member = MemberEncryptionKeypair::from_secret_bytes([2; 32]).unwrap();
    let envelope =
        EncryptedConfigEnvelope::seal(&root, 0, 0, [0; 32], b"x", &[member.public_bytes()]).unwrap();
    let mut wire = envelope.to_bytes();
    wire[9] = 2;
    assert_eq!(
        EncryptedConfigEnvelope::from_bytes(&wire),
        Err(ConfigError::UnsupportedVersion(2))
    );
    let mut wire = envelope.to_bytes();
    wire[0] = 0;
    assert_eq!(
        EncryptedConfigEnvelope::from_bytes(&wire),
        Err(ConfigError::MalformedWire)
    );
    assert_eq!(
        EncryptedConfigEnvelope::from_bytes(&[0; 63]),
        Err(ConfigError::MalformedWire)
    );
    let mut wire = envelope.to_bytes();
    wire.insert(100, 0);
    assert!(EncryptedConfigEnvelope::from_bytes(&wire).is_err());
}

#[test]
fn checkpoint_names_the_exact_envelope() {
    let root = NetworkRootKey::from_bytes(&[1; 32]);
    let member = MemberEncryptionKeypair::from_secret_bytes([2; 32]).unwrap();
    let envelope =
        EncryptedConfigEnvelope::seal(&root, 4, 9, [7; 32], b"x", &[member.public_bytes()]).unwrap();
    let head = ConfigHead {
        epoch: 4,
        revision: 9,
        hash: envelope.envelope_hash(),
    };
    let network = root.public().network_id();
    let opened = envelope
        .open(&root.public(), network, &member, ChainExpectation::Checkpoint(head))
        .unwrap();
    assert_eq!(opened.head, head);
    let other = ConfigHead {
        hash: [7; 32],
        ..head
    };
    assert_eq!(
        envelope.open(&root.public(), network, &member, ChainExpectation::Checkpoint(other)),
        Err(ConfigError::ChainMismatch)
    );
    assert_eq!(
        envelope.open(&root.public(), network, &member, ChainExpectation::Genesis),
        Err(ConfigError::ChainMismatch)
    );
}

#[test]
fn administrators_need_the_write_permission() {
    let root = NetworkRootKey::from_bytes(&[1; 32]);
    let admin = OnlineAdminKey::from_bytes(&[3; 32]);
    let stranger = OnlineAdminKey::from_bytes(&[4; 32]);
    let encryption = MemberEncryptionKeypair::from_secret_bytes([2; 32]).unwrap();
    let config = member_config(&root, &admin, 0, &encryption);
    let genesis =
        EncryptedConfigEnvelope::seal_config(&root, &config, &[encryption.public_bytes()]).unwrap();
    let opened = genesis
        .open_config(
            &root.public(),
            root.public().network_id(),
            &encryption,
            ChainExpectation::Genesis,
            500,
        )
        .unwrap();
    let mut next = config.clone();
    next.revision = 1;
    next.previous_hash = opened.head.hash;
    assert_eq!(
        EncryptedConfigEnvelope::seal_next_config(
            &root.public(),
            &admin,
            &opened.config,
            opened.head,
            &next,
            &[encryption.public_bytes()],
            500,
        ),
        Err(ConfigError::PermissionDenied)
    );
    assert_eq!(
        EncryptedConfigEnvelope::seal_next_config(
            &root.public(),
            &stranger,
            &opened.config,
            opened.head,
            &next,
            &[encryption.public_bytes()],
            500,
        ),
        Err(ConfigError::Snapshot(SnapshotError::UnknownAdmin))
    );
    let wrong_head = ConfigHead {
        revision: 5,
        ..opened.head
    };
    assert_eq!(
        EncryptedConfigEnvelope::seal_next_config(
            &root.public(),
            &admin,
            &opened.config,
            wrong_head,
            &next,
            &[encryption.public_bytes()],
            500,
        ),
        Err(ConfigError::EnvelopePayloadMismatch)
    );
}

#[test]
fn expired_snapshots_do_not_open() {
    let root = NetworkRootKey::from_bytes(&[1; 32]);
    let admin = OnlineAdminKey::from_bytes(&[3; 32]);
    let encryption = MemberEncryptionKeypair::from_secret_bytes([2; 32]).unwrap();
    let config = member_config(&root, &admin, ADMIN_PERMISSION_CONFIG_WRITE, &encryption);
    let genesis =
        EncryptedConfigEnvelope::seal_config(&root, &config, &[encryption.public_bytes()]).unwrap();
    let opened = genesis.open_config(
        &root.public(),
        root.public().network_id(),
        &encryption,
        ChainExpectation::Genesis,
        9_000,
    );
    assert!(opened == Err(ConfigError::Snapshot(SnapshotError::Expired)));
}

#[test]
fn update_batches_are_bounded_and_linked() {
    let root = NetworkRootKey::from_bytes(&[1; 32]);
    let network = root.public().network_id();
    let member = MemberEncryptionKeypair::from_secret_bytes([2; 32]).unwrap();
    let base = ConfigHead {
        epoch: 0,
        revision: 3,
        hash: [9; 32],
    };
    let empty = ConfigUpdateBatch::new(network, base, Vec::new()).unwrap();
    assert!(empty.envelopes.is_empty());
    assert_eq!(
        ConfigUpdateBatch::new(network, base, vec![vec![0; 1]; 1025]),
        Err(ConfigError::UpdateBatchTooLarge)
    );
    let skipped =
        EncryptedConfigEnvelope::seal(&root, 0, 5, [9; 32], b"x", &[member.public_bytes()]).unwrap();
    assert_eq!(
        ConfigUpdateBatch::new(network, base, vec![skipped.to_bytes()]),
        Err(ConfigError::ChainMismatch)
    );
    let follows =
        EncryptedConfigEnvelope::seal(&root, 0, 4, [9; 32], b"x", &[member.public_bytes()]).unwrap();
    let batch = ConfigUpdateBatch::new(network, base, vec![follows.to_bytes()]).unwrap();
    let mut wire = batch.to_bytes().unwrap();
    for at in 0..wire.len() {
        let mut other = wire.clone();
        other[at] ^= 1;
        if let Ok(read) = ConfigUpdateBatch::from_bytes(&other) {
            assert_eq!(read.to_bytes().unwrap(), other);
        }
    }
    wire.push(0);
    assert_eq!(
        ConfigUpdateBatch::from_bytes(&wire),
        Err(ConfigError::MalformedWire)
    );
    assert_eq!(
        ConfigUpdateBatch::from_bytes(&[]),
        Err(ConfigError::MalformedWire)
    );
}

#[test]
fn sealing_with_given_parts_is_repeatable() {
    let root = NetworkRootKey::from_bytes(&[1; 32]);
    let wraps = vec![KeyWrap {
        encapsulated_key: vec![5; 32],
        ciphertext: vec![6; 48],
    }];
    let seal = |nonce: [u8; 24]| {
        EncryptedConfigEnvelope::seal_with(
            &root,
            3,
            4,
            [7; 32],
            b"topology",
            &[8; 32],
            nonce,
            wraps.clone(),
        )
        .unwrap()
    };
    let envelope = seal([9; 24]);
    assert_eq!(envelope, seal([9; 24]));
    assert_ne!(envelope.ciphertext, seal([10; 24]).ciphertext);
    assert_eq!(envelope.network_id, root.public().network_id());
    assert_eq!(envelope.epoch, 3);
    assert_eq!(envelope.revision, 4);
    assert_eq!(envelope.previous_hash, [7; 32]);
    assert_eq!(envelope.nonce, [9; 24]);
    assert_eq!(envelope.payload_hash, *blake3::hash(b"topology").as_bytes());
    assert_eq!(envelope.member_key_wraps, wraps);
    assert_eq!(envelope.ciphertext.len(), b"topology".len() + 16);
    assert_ne!(&envelope.ciphertext[..8], b"topology");
    assert_eq!(
        EncryptedConfigEnvelope::from_bytes(&envelope.to_bytes()),
        Ok(envelope)
    );
}

#[test]
fn sealing_with_given_parts_bounds_them() {
    let root = NetworkRootKey::from_bytes(&[1; 32]);
    let wrap = KeyWrap {
        encapsulated_key: vec![5; 32],
        ciphertext: vec![6; 48],
    };
    let seal = |plaintext: &[u8], wraps: Vec<KeyWrap>| {
        EncryptedConfigEnvelope::seal_with(
            &root,
            0,
            0,
            [0; 32],
            plaintext,
            &[8; 32],
            [9; 24],
            wraps,
        )
    };
    assert_eq!(
        seal(&vec![0; 1_048_577], vec![wrap.clone()]),
        Err(ConfigError::PayloadTooLarge)
    );
    assert!(seal(&vec![0; 1_048_576], vec![wrap.clone()]).is_ok());
    assert_eq!(seal(b"x", Vec::new()), Err(ConfigError::InvalidRecipientCount));
    assert_eq!(
        seal(b"x", vec![wrap.clone(); 257]),
        Err(ConfigError::InvalidRecipientCount)
    );
    assert!(seal(b"x", vec![wrap.clone(); 256]).is_ok());
    let oversized = KeyWrap {
        encapsulated_key: vec![5; 65_536],
        ciphertext: vec![6; 48],
    };
    assert_eq!(
        seal(b"x", vec![wrap, oversized]),
        Err(ConfigError::MalformedWire)
    );
}
