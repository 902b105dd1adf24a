use weaver::config::chain::{ConfigHead, ConfigUpdateBatch};
use weaver::config::envelope::{ConfigError, EncryptedConfigEnvelope};
use weaver::config::sealing::MemberEncryptionKeypair;
use weaver::crypto::keys::NetworkRootKey;
use weaver::discovery::presence::DiscoveryError;
use weaver::discovery::sealed::EncryptedPresenceRecord;
use weaver::identifiers::{AppAddr, DeviceId, EndpointId, NetworkId, ScopedVirtualAddr};
use weaver::net::presence_store::{MemoryOpaquePresenceStore, PresenceStoreError};
use weaver::net::protocol::{
    answer_open, config_sync_alpn, config_sync_response, config_sync_response_len,
    decode_config_sync_request, decode_presence_request, encode_config_sync_request,
    encode_presence_request, open_response_reason, plan_presence, presence_alpn, presence_response,
    publishable, read_config_updates, read_open_response, read_presence_record,
    read_presence_response, requested_head, same_head, tcp_alpn, tonic_alpn, udp_alpn, NetworkError,
    OpenStreamRequest, PresenceAction, StoreOutcome, OPEN_RESPONSE_ACCEPTED,
    OPEN_RESPONSE_ADDRESS_MISMATCH, OPEN_RESPONSE_NETWORK_MISMATCH, OPEN_RESPONSE_NOT_AUTHORIZED,
    OPEN_RESPONSE_PROTOCOL_ERROR, PRESENCE_OP_PUBLISH, PRESENCE_OP_QUERY,
};

fn request() -> OpenStreamRequest {
    OpenStreamRequest {
        network_id: NetworkId::from_bytes([1; 32]),
        source: ScopedVirtualAddr::Client {
            app: AppAddr::from_bytes([2; 32]),
            device: DeviceId::from_bytes([3; 32]),
        },
        destination: ScopedVirtualAddr::Server {
            app: AppAddr::from_bytes([4; 32]),
        },
    }
}

fn head() -> ConfigHead {
    ConfigHead {
        epoch: 2,
        revision: 5,
        hash: [7; 32],
    }
}

#[test]
fn protocol_names_are_scoped() {
    let app = AppAddr::from_bytes([9; 32]);
    let network = NetworkId::from_bytes([9; 32]);
    let names = [
        tcp_alpn(app),
        udp_alpn(app),
        config_sync_alpn(network),
        presence_alpn(network),
    ];
    for (i, one) in names.iter().enumerate() {
        assert!(one.ends_with(&[9; 32]));
        for other in &names[i + 1..] {
            assert_ne!(one, other);
        }
    }
    assert_eq!(tonic_alpn(app), tcp_alpn(app));
    assert!(tcp_alpn(app).starts_with(b"weaver/tcp/1/"));
}

#[test]
fn open_requests_round_trip() {
    let bytes = request().encode().unwrap();
    assert_eq!(OpenStreamRequest::decode(&bytes), Some(request()));
    assert_eq!(OpenStreamRequest::decode_datagram(&bytes), None);
    let datagram = request().encode_datagram().unwrap();
    assert_eq!(OpenStreamRequest::decode_datagram(&datagram), Some(request()));
    assert_eq!(OpenStreamRequest::decode(&datagram), None);
    let mut broken = bytes;
    broken[0] ^= 1;
    assert_eq!(OpenStreamRequest::decode(&broken), None);
    let backwards = OpenStreamRequest {
        source: request().destination,
        ..request()
    };
    assert!(matches!(
        backwards.encode(),
        Err(NetworkError::ProtocolViolation(_))
    ));
}

#[test]
fn opening_is_denied_unless_everything_fits() {
    let network = NetworkId::from_bytes([1; 32]);
    let local = request().destination;
    let allowed = vec![request().source];
    assert_eq!(
        answer_open(Some(request()), network, local, &allowed),
        OPEN_RESPONSE_ACCEPTED
    );
    assert_eq!(
        answer_open(None, network, local, &allowed),
        OPEN_RESPONSE_PROTOCOL_ERROR
    );
    assert_eq!(
        answer_open(Some(request()), NetworkId::from_bytes([0; 32]), local, &allowed),
        OPEN_RESPONSE_NETWORK_MISMATCH
    );
    assert_eq!(
        answer_open(Some(request()), network, request().source, &allowed),
        OPEN_RESPONSE_ADDRESS_MISMATCH
    );
    assert_eq!(
        answer_open(Some(request()), network, local, &Vec::new()),
        OPEN_RESPONSE_NOT_AUTHORIZED
    );
    assert_eq!(read_open_response(OPEN_RESPONSE_ACCEPTED), Ok(()));
    assert_eq!(
        read_open_response(OPEN_RESPONSE_NOT_AUTHORIZED),
        Err(NetworkError::OpenRejected(open_response_reason(
            OPEN_RESPONSE_NOT_AUTHORIZED
        )))
    );
}

#[test]
fn config_requests_round_trip() {
    let network = NetworkId::from_bytes([1; 32]);
    let bytes = encode_config_sync_request(network, head());
    assert_eq!(decode_config_sync_request(&bytes), Some((network, head())));
    assert_eq!(requested_head(Some(bytes), network), Some(head()));
    assert_eq!(requested_head(Some(bytes), NetworkId::from_bytes([2; 32])), None);
    assert_eq!(requested_head(None, network), None);
    assert!(same_head(&head(), &head()));
    assert!(!same_head(
        &head(),
        &ConfigHead {
            hash: [8; 32],
            ..head()
        }
    ));
    let mut broken = bytes;
    broken[0] ^= 1;
    assert_eq!(decode_config_sync_request(&broken), None);
}

#[test]
fn config_updates_are_delivered() {
    let root = NetworkRootKey::from_bytes(&[1; 32]);
    let network = root.public().network_id();
    let member = MemberEncryptionKeypair::from_secret_bytes([2; 32]).unwrap();
    let envelope =
        EncryptedConfigEnvelope::seal(&root, 2, 6, [7; 32], b"x", &[member.public_bytes()]).unwrap();
    let batch = ConfigUpdateBatch::new(network, head(), vec![envelope.to_bytes()]).unwrap();
    let expected = ConfigUpdateBatch::new(network, head(), vec![envelope.to_bytes()]).unwrap();
    let response = config_sync_response(network, head(), &Some(batch));
    let header: [u8; 5] = response[..5].try_into().unwrap();
    assert_eq!(config_sync_response_len(&header), Ok(response.len() - 5));
    assert_eq!(
        read_config_updates(&response[5..], network, head()),
        Ok(expected)
    );
    assert!(matches!(
        read_config_updates(&response[5..], NetworkId::from_bytes([0; 32]), head()),
        Err(NetworkError::ProtocolViolation(_))
    ));
    assert_eq!(
        read_config_updates(&[], network, head()),
        Err(NetworkError::ConfigSync(ConfigError::MalformedWire))
    );
    let refused = config_sync_response(network, head(), &None);
    let header: [u8; 5] = refused[..5].try_into().unwrap();
    assert_eq!(
        config_sync_response_len(&header),
        Err(NetworkError::ConfigSyncRejected)
    );
}

#[test]
fn presence_requests_round_trip() {
    let network = NetworkId::from_bytes([1; 32]);
    let bytes =
        encode_presence_request(network, PRESENCE_OP_PUBLISH, 3, [4; 24], 5_000, 100).unwrap();
    let read = decode_presence_request(&bytes).unwrap();
    assert_eq!(read.network_id, network);
    assert_eq!(read.epoch, 3);
    assert_eq!(read.opaque_key, [4; 24]);
    assert_eq!(read.expires_at_ms, 5_000);
    assert_eq!(read.body_len, 100);
    assert_eq!(plan_presence(Some(bytes), network), PresenceAction::Publish(read));
    assert_eq!(
        plan_presence(Some(bytes), NetworkId::from_bytes([2; 32])),
        PresenceAction::Reject
    );
    assert_eq!(plan_presence(None, network), PresenceAction::Reject);
    let query = encode_presence_request(network, PRESENCE_OP_QUERY, 3, [4; 24], 0, 0).unwrap();
    assert!(matches!(
        plan_presence(Some(query), network),
        PresenceAction::Query(_)
    ));
    let large =
        encode_presence_request(network, PRESENCE_OP_PUBLISH, 3, [4; 24], 0, 16_385).unwrap();
    assert_eq!(plan_presence(Some(large), network), PresenceAction::Reject);
    assert!(!publishable(&read, &[]));
}

#[test]
fn presence_answers_are_understood() {
    let found = presence_response(StoreOutcome::Found, 77, 100);
    assert_eq!(read_presence_response(&found, PRESENCE_OP_QUERY), Ok(Some(100)));
    let published = presence_response(StoreOutcome::Published, 77, 0);
    assert_eq!(read_presence_response(&published, PRESENCE_OP_PUBLISH), Ok(Some(0)));
    let missing = presence_response(StoreOutcome::Missing, 77, 0);
    assert_eq!(read_presence_response(&missing, PRESENCE_OP_QUERY), Ok(None));
    let failed = presence_response(StoreOutcome::Failed, 77, 0);
    assert_eq!(
        read_presence_response(&failed, PRESENCE_OP_PUBLISH),
        Err(NetworkError::PresenceRejected)
    );
}

#[test]
fn presence_records_are_those_asked_for() {
    let mut bytes = b"WVRPRS\0\x02".to_vec();
    bytes.extend_from_slice(&3_u64.to_be_bytes());
    bytes.extend_from_slice(&[4; 24]);
    bytes.extend_from_slice(&[5; 24]);
    bytes.extend_from_slice(&40_u32.to_be_bytes());
    bytes.extend_from_slice(&[6; 40]);
    let sealed = EncryptedPresenceRecord::from_bytes(&bytes).unwrap();
    assert_eq!(sealed.to_bytes().unwrap(), bytes);
    assert_eq!(read_presence_record(&bytes, 3, [4; 24]), Ok(sealed));
    assert!(matches!(
        read_presence_record(&bytes, 4, [4; 24]),
        Err(NetworkError::ProtocolViolation(_))
    ));
    assert_eq!(
        read_presence_record(&[], 3, [4; 24]),
        Err(NetworkError::Presence(DiscoveryError::MalformedWire))
    );
}

#[test]
fn presence_store_keeps_records_for_their_owner() {
    let owner = EndpointId::from_bytes([1; 32]);
    let other = EndpointId::from_bytes([2; 32]);
    let mut store = MemoryOpaquePresenceStore::new(2);
    assert_eq!(store.publish(owner, 1, [1; 24], 5_000, vec![7], 1_000), Ok(()));
    assert_eq!(store.query(1, [1; 24], 2_000), Some((5_000, vec![7])));
    assert_eq!(
        store.publish(other, 1, [1; 24], 6_000, vec![8], 2_000),
        Err(PresenceStoreError::OwnedByAnother)
    );
    assert_eq!(store.publish(owner, 1, [1; 24], 6_000, vec![9], 2_000), Ok(()));
    assert_eq!(store.query(1, [1; 24], 2_000), Some((6_000, vec![9])));
    assert_eq!(store.query(2, [1; 24], 2_000), None);
    assert_eq!(store.publish(other, 1, [2; 24], 6_000, vec![8], 2_000), Ok(()));
    assert_eq!(
        store.publish(other, 1, [3; 24], 6_000, vec![8], 2_000),
        Err(PresenceStoreError::Full)
    );
    assert_eq!(store.query(1, [1; 24], 6_000), None);
    assert_eq!(store.publish(other, 1, [1; 24], 9_000, vec![8], 6_000), Ok(()));
    assert_eq!(
        store.publish(other, 1, [4; 24], 6_000, vec![8], 6_000),
        Err(PresenceStoreError::Invalid)
    );
    assert_eq!(
        store.publish(other, 1, [4; 24], 9_000, vec![0; 16_385], 6_000),
        Err(PresenceStoreError::Invalid)
    );
}

#[test]
fn presence_records_of_the_first_version_are_kept_as_they_are() {
    let mut bytes = b"WVRPRS\0\x01".to_vec();
    bytes.extend_from_slice(&7_u64.to_be_bytes());
    bytes.extend_from_slice(&[0x44; 24]);
    bytes.extend_from_slice(&[0x55; 24]);
    bytes.extend_from_slice(&32_u32.to_be_bytes());
    bytes.extend_from_slice(&[0x66; 32]);
    let record = EncryptedPresenceRecord::from_bytes(&bytes).unwrap();
    assert_eq!(record.epoch(), 7);
    assert_eq!(record.opaque_key(), [0x44; 24]);
    assert_eq!(record.nonce, [0x55; 24]);
    assert_eq!(record.to_bytes().unwrap(), bytes);
    assert_eq!(read_presence_record(&bytes, 7, [0x44; 24]), Ok(record));
    bytes[7] = 3;
    assert_eq!(
        EncryptedPresenceRecord::from_bytes(&bytes),
        Err(DiscoveryError::MalformedWire)
    );
}

#[test]
fn requests_have_one_form() {
    let network = NetworkId::from_bytes([1; 32]);
    let open = request().encode().unwrap();
    for at in 0..open.len() {
        let mut other = open;
        other[at] ^= 1;
        if let Some(read) = OpenStreamRequest::decode(&other) {
            assert_eq!(read.encode(), Ok(other));
        }
    }
    let sync = encode_config_sync_request(network, head());
    for at in 0..sync.len() {
        let mut other = sync;
        other[at] ^= 1;
        if let Some((network, head)) = decode_config_sync_request(&other) {
            assert_eq!(encode_config_sync_request(network, head), other);
        }
    }
    let publish =
        encode_presence_request(network, PRESENCE_OP_PUBLISH, 3, [4; 24], 5_000, 100).unwrap();
    for at in 0..publish.len() {
        let mut other = publish;
        other[at] ^= 1;
        if let Some(read) = decode_presence_request(&other) {
            let again = encode_presence_request(
                read.network_id,
                read.operation,
                read.epoch,
                read.opaque_key,
                read.expires_at_ms,
                read.body_len,
            );
            assert_eq!(again, Ok(other));
        }
    }
}
