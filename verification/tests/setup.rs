use std::collections::HashMap;

use weaver::crypto::join::PreparedJoinRequest;
use weaver::crypto::keys::CertificateError;
use weaver::crypto::member::MemberRoles;
use weaver::identifiers::{AppAddr, NetworkId};
use weaver::net::identity::{identity_key, IdentityError, PersistentClientIdentity};
use weaver::net::identity_setup::{IdentitySetup, SetupEvent, SetupStep};
use weaver::net::join_setup::{JoinEvent, JoinPreparation, JoinStep, SecretKind};
use weaver::net::membership::{member_secret_id, MembershipError};

const NETWORK: NetworkId = NetworkId([0x11; 32]);
const APP: AppAddr = AppAddr([0x22; 32]);

#[derive(Default)]
struct Stores {
    state: HashMap<(NetworkId, Vec<u8>), Vec<u8>>,
    secrets: HashMap<[u8; 32], Vec<u8>>,
}

#[derive(Debug, PartialEq, Eq)]
enum Failure {
    Identity(IdentityError),
    Membership(MembershipError),
    SecretNotFound,
}

fn perform_identity(
    stores: &mut Stores,
    setup: &mut IdentitySetup,
    step: SetupStep,
    network: NetworkId,
    app: AppAddr,
) -> Result<SetupStep, Failure> {
    let key = (network, identity_key(app));
    let event = match step {
        SetupStep::ReadRecord => SetupEvent::Record(stores.state.get(&key).cloned()),
        SetupStep::OpenSecret { secret_id } => match stores.secrets.get(&secret_id) {
            Some(secret) => SetupEvent::Secret(secret.clone()),
            None => return Err(Failure::SecretNotFound),
        },
        SetupStep::DrawSecret => return Ok(setup.draw()),
        SetupStep::KeepSecret => {
            let fresh = setup.fresh().unwrap();
            stores
                .secrets
                .insert(*fresh.secret_id(), fresh.secret_key().to_vec());
            SetupEvent::Kept
        }
        SetupStep::ReadBack => {
            let id = *setup.fresh().unwrap().secret_id();
            SetupEvent::Secret(stores.secrets[&id].clone())
        }
        SetupStep::WriteRecord => {
            if stores.state.contains_key(&key) {
                SetupEvent::Conflict
            } else {
                let record = setup.fresh().unwrap().record();
                stores.state.insert(key, record);
                SetupEvent::Written
            }
        }
        SetupStep::DiscardSecret => {
            let id = *setup.fresh().unwrap().secret_id();
            stores.secrets.remove(&id);
            SetupEvent::Discarded
        }
        SetupStep::Fail(error) => return Err(Failure::Identity(error)),
        SetupStep::Ready | SetupStep::OutOfTurn => panic!("nothing is left to do"),
    };
    Ok(setup.step(event))
}

fn load_or_create(
    stores: &mut Stores,
    network: NetworkId,
    app: AppAddr,
) -> Result<PersistentClientIdentity, Failure> {
    let mut setup = IdentitySetup::new(network, app);
    let mut step = SetupStep::ReadRecord;
    while step != SetupStep::Ready {
        step = perform_identity(stores, &mut setup, step, network, app)?;
    }
    Ok(setup.finish().unwrap())
}

#[test]
fn identity_is_stable_across_reopen() {
    let mut stores = Stores::default();
    let first = load_or_create(&mut stores, NETWORK, APP).unwrap();
    let reopened = load_or_create(&mut stores, NETWORK, APP).unwrap();
    assert_eq!(first.endpoint_id(), reopened.endpoint_id());
    assert_eq!(first.device_id(), reopened.device_id());
    assert_eq!(first.secret_key(), reopened.secret_key());
}

#[test]
fn identities_are_scoped_by_network_and_app() {
    let mut stores = Stores::default();
    let first = load_or_create(&mut stores, NETWORK, APP).unwrap();
    let other_network =
        load_or_create(&mut stores, NetworkId::from_bytes([0x33; 32]), APP).unwrap();
    let other_app = load_or_create(&mut stores, NETWORK, AppAddr::from_bytes([0x44; 32])).unwrap();
    assert_ne!(first.endpoint_id(), other_network.endpoint_id());
    assert_ne!(first.device_id(), other_network.device_id());
    assert_ne!(first.endpoint_id(), other_app.endpoint_id());
    assert_ne!(first.device_id(), other_app.device_id());
}

#[test]
fn missing_referenced_secret_fails_closed() {
    let mut stores = Stores::default();
    let identity = load_or_create(&mut stores, NETWORK, APP).unwrap();
    stores.secrets.remove(identity.secret_id());
    assert!(matches!(
        load_or_create(&mut stores, NETWORK, APP),
        Err(Failure::SecretNotFound)
    ));
}

#[test]
fn concurrent_creation_converges_on_one_identity() {
    let mut stores = Stores::default();
    let mut one = IdentitySetup::new(NETWORK, APP);
    let mut two = IdentitySetup::new(NETWORK, APP);
    let mut first_step = SetupStep::ReadRecord;
    let mut second_step = SetupStep::ReadRecord;
    while first_step != SetupStep::Ready || second_step != SetupStep::Ready {
        if first_step != SetupStep::Ready {
            first_step =
                perform_identity(&mut stores, &mut one, first_step, NETWORK, APP).unwrap();
        }
        if second_step != SetupStep::Ready {
            second_step =
                perform_identity(&mut stores, &mut two, second_step, NETWORK, APP).unwrap();
        }
    }
    let first = one.finish().unwrap();
    let second = two.finish().unwrap();
    assert_eq!(first.endpoint_id(), second.endpoint_id());
    assert_eq!(first.device_id(), second.device_id());
    assert!(stores.state.contains_key(&(NETWORK, identity_key(APP))));
    assert_eq!(stores.secrets.len(), 1);
    assert!(stores.secrets.contains_key(first.secret_id()));
}

#[test]
fn corrupt_record_is_rejected_before_secret_use() {
    let mut stores = Stores::default();
    stores
        .state
        .insert((NETWORK, identity_key(APP)), b"corrupt".to_vec());
    assert!(matches!(
        load_or_create(&mut stores, NETWORK, APP),
        Err(Failure::Identity(IdentityError::CorruptRecord))
    ));
}

#[test]
fn a_crash_leaves_no_record_without_its_secret() {
    for steps in 0..6 {
        let mut stores = Stores::default();
        let mut setup = IdentitySetup::new(NETWORK, APP);
        let mut step = SetupStep::ReadRecord;
        for _ in 0..steps {
            if step != SetupStep::Ready {
                step = perform_identity(&mut stores, &mut setup, step, NETWORK, APP).unwrap();
            }
        }
        let written = stores.state.contains_key(&(NETWORK, identity_key(APP)));
        assert_eq!(written, steps == 5);
        assert!(!written || stores.secrets.len() == 1);
        assert!(load_or_create(&mut stores, NETWORK, APP).is_ok());
    }
}

#[test]
fn a_secret_that_was_not_kept_is_noticed() {
    let mut setup = IdentitySetup::new(NETWORK, APP);
    assert_eq!(
        setup.step(SetupEvent::Record(None)),
        SetupStep::DrawSecret
    );
    assert_eq!(
        setup.step(SetupEvent::Drawn([7; 32])),
        SetupStep::KeepSecret
    );
    assert_eq!(setup.step(SetupEvent::Written), SetupStep::OutOfTurn);
    assert_eq!(setup.step(SetupEvent::Kept), SetupStep::ReadBack);
    assert_eq!(
        setup.step(SetupEvent::Secret(vec![8; 32])),
        SetupStep::Fail(IdentityError::SecretPublicKeyMismatch)
    );
    assert!(setup.finish().is_none());
}

#[test]
fn losing_a_race_to_nobody_is_an_error() {
    let mut setup = IdentitySetup::new(NETWORK, APP);
    setup.step(SetupEvent::Record(None));
    setup.step(SetupEvent::Drawn([7; 32]));
    setup.step(SetupEvent::Kept);
    assert_eq!(
        setup.step(SetupEvent::Secret(vec![7; 32])),
        SetupStep::WriteRecord
    );
    assert_eq!(setup.step(SetupEvent::Conflict), SetupStep::ReadRecord);
    assert_eq!(
        setup.step(SetupEvent::Record(None)),
        SetupStep::Fail(IdentityError::MissingAfterConcurrentCreate)
    );
}

const REQUEST: &[u8] = b"request";

fn perform_join(
    stores: &mut Stores,
    network: NetworkId,
    preparation: &mut JoinPreparation,
    step: JoinStep,
) -> Result<JoinStep, Failure> {
    let key = (network, REQUEST.to_vec());
    let event = match step {
        JoinStep::ReadHead => JoinEvent::Head { joined: false },
        JoinStep::ReadRequest => JoinEvent::Request(stores.state.get(&key).cloned()),
        JoinStep::OpenSecret(kind) => match stores.secrets.get(&kind.secret_id(network)) {
            Some(secret) => JoinEvent::Secret(secret.clone()),
            None => JoinEvent::NoSecret,
        },
        JoinStep::DrawSecret(_) | JoinStep::DrawNonce => return Ok(preparation.draw()),
        JoinStep::KeepSecret(kind) => {
            let drawn = preparation.drawn().to_vec();
            let kept = stores
                .secrets
                .entry(kind.secret_id(network))
                .or_insert(drawn.clone());
            if *kept == drawn {
                JoinEvent::Kept
            } else {
                JoinEvent::Taken
            }
        }
        JoinStep::WriteRequest => {
            if stores.state.contains_key(&key) {
                JoinEvent::Conflict
            } else {
                stores
                    .state
                    .insert(key, preparation.fresh().unwrap().to_bytes());
                JoinEvent::Written
            }
        }
        JoinStep::Fail(error) => return Err(Failure::Membership(error)),
        JoinStep::SecretGone(_) => return Err(Failure::SecretNotFound),
        JoinStep::Ready | JoinStep::OutOfTurn => panic!("nothing is left to do"),
    };
    Ok(preparation.step(event))
}

fn prepare(stores: &mut Stores) -> Result<PreparedJoinRequest, Failure> {
    let mut preparation = JoinPreparation::new(NETWORK, MemberRoles::member(), 60_000);
    let mut step = JoinStep::ReadHead;
    while step != JoinStep::Ready {
        step = perform_join(stores, NETWORK, &mut preparation, step)?;
    }
    Ok(preparation.finish().unwrap())
}

#[test]
fn concurrent_prepare_join_converges_on_one_identity() {
    let network = NetworkId::from_bytes([0x31; 32]);
    let mut stores = Stores::default();
    let mut tasks: Vec<(JoinPreparation, JoinStep)> = (0..8)
        .map(|_| {
            (
                JoinPreparation::new(network, MemberRoles::member(), 60_000),
                JoinStep::ReadHead,
            )
        })
        .collect();
    while tasks.iter().any(|(_, step)| *step != JoinStep::Ready) {
        for (preparation, step) in &mut tasks {
            if *step != JoinStep::Ready {
                *step = perform_join(&mut stores, network, preparation, *step).unwrap();
            }
        }
    }
    let requests: Vec<Vec<u8>> = tasks
        .into_iter()
        .map(|(preparation, _)| preparation.finish().unwrap().to_bytes())
        .collect();
    assert!(requests.windows(2).all(|pair| pair[0] == pair[1]));
    assert_eq!(stores.secrets.len(), 3);
}

#[test]
fn a_cut_off_preparation_is_taken_up_with_the_same_keys() {
    for steps in 0..14 {
        let mut stores = Stores::default();
        let mut preparation = JoinPreparation::new(NETWORK, MemberRoles::member(), 60_000);
        let mut step = JoinStep::ReadHead;
        for _ in 0..steps {
            if step != JoinStep::Ready {
                step = perform_join(&mut stores, NETWORK, &mut preparation, step).unwrap();
            }
        }
        let kept = stores.secrets.clone();
        let prepared = prepare(&mut stores).unwrap();
        for (id, secret) in kept {
            assert_eq!(stores.secrets[&id], secret);
        }
        let request = prepared.verify(NETWORK, 1_000).unwrap();
        let endpoint = stores.secrets[&SecretKind::Endpoint.secret_id(NETWORK)].clone();
        let endpoint: [u8; 32] = endpoint.try_into().unwrap();
        assert_eq!(
            request.payload().endpoint_id,
            *iroh::SecretKey::from_bytes(&endpoint).public().as_bytes()
        );
        assert_eq!(prepare(&mut stores).unwrap().to_bytes(), prepared.to_bytes());
    }
}

#[test]
fn preparation_refuses_what_it_cannot_use() {
    let mut corrupt = JoinPreparation::new(NETWORK, MemberRoles::member(), 60_000);
    corrupt.step(JoinEvent::Head { joined: false });
    assert_eq!(
        corrupt.step(JoinEvent::Request(Some(b"corrupt".to_vec()))),
        JoinStep::Fail(MembershipError::Crypto(CertificateError::MalformedWire))
    );
    let mut short = JoinPreparation::new(NETWORK, MemberRoles::member(), 60_000);
    short.step(JoinEvent::Head { joined: false });
    assert_eq!(
        short.step(JoinEvent::Request(None)),
        JoinStep::OpenSecret(SecretKind::Signing)
    );
    assert_eq!(
        short.step(JoinEvent::Secret(vec![1; 31])),
        JoinStep::Fail(MembershipError::CorruptSecret)
    );
    let mut zero = JoinPreparation::new(NETWORK, MemberRoles::member(), 60_000);
    zero.step(JoinEvent::Head { joined: false });
    zero.step(JoinEvent::Request(None));
    zero.step(JoinEvent::Secret(vec![1; 32]));
    zero.step(JoinEvent::Secret(vec![2; 32]));
    assert_eq!(
        zero.step(JoinEvent::Secret(vec![3; 32])),
        JoinStep::DrawNonce
    );
    assert_eq!(
        zero.step(JoinEvent::Nonce([0; 32])),
        JoinStep::Fail(MembershipError::Crypto(CertificateError::MalformedKey))
    );
    let mut removed = JoinPreparation::new(NETWORK, MemberRoles::member(), 60_000);
    removed.step(JoinEvent::Head { joined: false });
    removed.step(JoinEvent::Request(None));
    assert_eq!(
        removed.step(JoinEvent::NoSecret),
        JoinStep::DrawSecret(SecretKind::Signing)
    );
    assert_eq!(removed.draw(), JoinStep::KeepSecret(SecretKind::Signing));
    assert_eq!(
        removed.step(JoinEvent::Taken),
        JoinStep::OpenSecret(SecretKind::Signing)
    );
    assert_eq!(
        removed.step(JoinEvent::NoSecret),
        JoinStep::SecretGone(SecretKind::Signing)
    );
    assert!(removed.finish().is_none());
    let mut gone = JoinPreparation::new(NETWORK, MemberRoles::member(), 60_000);
    gone.step(JoinEvent::Head { joined: false });
    gone.step(JoinEvent::Request(None));
    gone.step(JoinEvent::Secret(vec![1; 32]));
    gone.step(JoinEvent::Secret(vec![2; 32]));
    gone.step(JoinEvent::Secret(vec![3; 32]));
    assert_eq!(
        gone.step(JoinEvent::Nonce([4; 32])),
        JoinStep::WriteRequest
    );
    assert_eq!(gone.step(JoinEvent::Conflict), JoinStep::ReadRequest);
    assert_eq!(
        gone.step(JoinEvent::Request(None)),
        JoinStep::Fail(MembershipError::NotPrepared)
    );
}

#[test]
fn member_secrets_have_names_of_their_own() {
    assert_eq!(
        SecretKind::Signing.secret_id(NETWORK),
        member_secret_id(NETWORK, b"member-signing")
    );
    assert_eq!(
        SecretKind::Encryption.secret_id(NETWORK),
        member_secret_id(NETWORK, b"member-encryption")
    );
    assert_eq!(
        SecretKind::Endpoint.secret_id(NETWORK),
        member_secret_id(NETWORK, b"endpoint")
    );
    assert_ne!(
        SecretKind::Signing.secret_id(NETWORK),
        SecretKind::Signing.secret_id(NetworkId::from_bytes([0x33; 32]))
    );
}
