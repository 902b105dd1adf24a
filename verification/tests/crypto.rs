use std::collections::HashSet;
use weaver::crypto::admin::{
    AdminCertificate, ADMIN_PERMISSION_ISSUE_MEMBER, ADMIN_PERMISSION_REGISTER_APP,
};
use weaver::crypto::app::{
    decode_app_binding_payload, encode_app_binding_payload, AppBinding, AppRegistration,
    AppRegistrationRequest, AppRole,
};
use weaver::crypto::endpoint::EndpointBinding;
use weaver::crypto::join::{JoinRequest, PreparedJoinRequest};
use weaver::crypto::keys::{
    derive_device_id, AppRootKey, CertificateError, NetworkRootKey, NetworkRootPublic,
    OnlineAdminKey, SigningKeypair,
};
use weaver::crypto::member::{MemberCertificate, MemberRoles};
use weaver::identifiers::{DeviceId, ServiceId};

fn issue_member(root: &NetworkRootKey, member_key: &SigningKeypair) -> MemberCertificate {
    MemberCertificate::issue(
        root,
        member_key.public_bytes(),
        [0xe1; 32],
        MemberRoles::member().union(MemberRoles::service()),
        7,
        100,
        1_000,
    )
    .unwrap()
}

#[test]
fn full_certificate_chain_round_trips_and_verifies() {
    let root = NetworkRootKey::generate().unwrap();
    let root_public = root.public();
    let network_id = root_public.network_id();
    let member_key = SigningKeypair::generate().unwrap();
    let member = issue_member(&root, &member_key);
    let member = MemberCertificate::from_bytes(&member.to_bytes()).unwrap();
    let verified_member = member
        .verify(&root_public, network_id, 500, &HashSet::new())
        .unwrap();

    let endpoint =
        EndpointBinding::issue(&member_key, member.payload(), [0xaa; 32], 3, 900).unwrap();
    let endpoint = EndpointBinding::from_bytes(&endpoint.to_bytes()).unwrap();
    endpoint
        .verify(&verified_member, network_id, [0xaa; 32], 500)
        .unwrap();

    let app_root = AppRootKey::generate().unwrap();
    let registration = AppRegistration::issue(&root, &app_root, 0x10);
    let registration = AppRegistration::from_bytes(&registration.to_bytes()).unwrap();
    let verified_app = registration.verify(&root_public, network_id).unwrap();
    let device_id = derive_device_id(network_id, app_root.app_addr(), &member_key.public_bytes());
    let binding = AppBinding::issue(
        &app_root,
        network_id,
        member.payload().member_id,
        AppRole::Client,
        Some(device_id),
        900,
        vec![ServiceId::from_bytes([0x55; 16])],
    )
    .unwrap();
    let binding = AppBinding::from_bytes(&binding.to_bytes()).unwrap();
    binding
        .verify(&verified_app, &verified_member, network_id, 500)
        .unwrap();
}

#[test]
fn root_authorizes_online_admin_without_exposing_root_signing() {
    let root = NetworkRootKey::generate().unwrap();
    let admin = OnlineAdminKey::generate().unwrap();
    let certificate =
        AdminCertificate::issue(&root, admin.public_bytes(), 0xffff, 19, 100, 1_000).unwrap();
    let certificate = AdminCertificate::from_bytes(&certificate.to_bytes()).unwrap();
    let verified = certificate
        .verify(
            &root.public(),
            root.public().network_id(),
            500,
            &HashSet::new(),
        )
        .unwrap();
    assert_eq!(verified.payload().key_id, admin.key_id());
    let payload = b"configuration revision one";
    verified
        .verify_bytes(payload, &admin.sign_bytes(payload))
        .unwrap();

    let other_admin = OnlineAdminKey::generate().unwrap();
    assert_eq!(
        verified.verify_bytes(payload, &other_admin.sign_bytes(payload)),
        Err(CertificateError::InvalidSignature)
    );
}

#[test]
fn admin_certificate_rejects_tampering_revocation_and_wrong_network() {
    let root = NetworkRootKey::generate().unwrap();
    let other_root = NetworkRootKey::generate().unwrap();
    let admin = OnlineAdminKey::generate().unwrap();
    let certificate =
        AdminCertificate::issue(&root, admin.public_bytes(), 1, 23, 100, 1_000).unwrap();
    let mut wire = certificate.to_bytes().to_vec();
    let permissions_offset = 8 + 32 + 16 + 32;
    wire[permissions_offset + 3] ^= 1;
    let tampered = AdminCertificate::from_bytes(&wire).unwrap();
    assert!(matches!(
        tampered.verify(
            &root.public(),
            root.public().network_id(),
            500,
            &HashSet::new()
        ),
        Err(CertificateError::InvalidSignature)
    ));
    assert!(matches!(
        certificate.verify(
            &root.public(),
            root.public().network_id(),
            500,
            &HashSet::from([23])
        ),
        Err(CertificateError::Revoked)
    ));
    assert!(matches!(
        certificate.verify(
            &other_root.public(),
            other_root.public().network_id(),
            500,
            &HashSet::new()
        ),
        Err(CertificateError::WrongNetwork)
    ));
}

#[test]
fn online_admin_issues_bounded_member_certificate_chain() {
    let root = NetworkRootKey::generate().unwrap();
    let admin = OnlineAdminKey::generate().unwrap();
    let admin_certificate = AdminCertificate::issue(
        &root,
        admin.public_bytes(),
        ADMIN_PERMISSION_ISSUE_MEMBER,
        30,
        100,
        1_000,
    )
    .unwrap();
    let verified_admin = admin_certificate
        .verify(
            &root.public(),
            root.public().network_id(),
            500,
            &HashSet::new(),
        )
        .unwrap();
    let member_key = SigningKeypair::generate().unwrap();
    let member = MemberCertificate::issue_by_admin(
        &admin,
        admin_certificate.payload(),
        member_key.public_bytes(),
        [0x44; 32],
        MemberRoles::member(),
        31,
        200,
        900,
    )
    .unwrap();
    member
        .verify_with_admin(
            &verified_admin,
            root.public().network_id(),
            500,
            &HashSet::new(),
        )
        .unwrap();
    assert!(matches!(
        MemberCertificate::issue_by_admin(
            &admin,
            admin_certificate.payload(),
            member_key.public_bytes(),
            [0x44; 32],
            MemberRoles::member(),
            32,
            200,
            1_001,
        ),
        Err(CertificateError::InvalidValidityWindow)
    ));
}

#[test]
fn join_request_binds_all_candidate_keys_network_and_expiry() {
    let root = NetworkRootKey::generate().unwrap();
    let other = NetworkRootKey::generate().unwrap();
    let signing = SigningKeypair::generate().unwrap();
    let request = JoinRequest::create(
        root.public().network_id(),
        &signing,
        [0x51; 32],
        [0x52; 32],
        [0x53; 32],
        MemberRoles::member(),
        1_000,
    )
    .unwrap();
    let request = JoinRequest::from_bytes(&request.to_bytes()).unwrap();
    let verified = request.verify(root.public().network_id(), 500).unwrap();
    assert!(verified.payload() == request.payload());
    assert!(matches!(
        request.verify(other.public().network_id(), 500),
        Err(CertificateError::WrongNetwork)
    ));
    assert!(matches!(
        request.verify(root.public().network_id(), 1_000),
        Err(CertificateError::Expired)
    ));

    let mut wire = request.to_bytes().to_vec();
    let endpoint_offset = 8 + 32 + 32 + 32 + 32;
    wire[endpoint_offset] ^= 1;
    let tampered = JoinRequest::from_bytes(&wire).unwrap();
    assert!(matches!(
        tampered.verify(root.public().network_id(), 500),
        Err(CertificateError::InvalidSignature)
    ));

    let prepared = PreparedJoinRequest::create(
        root.public().network_id(),
        &signing,
        [0x61; 32],
        [0x62; 32],
        [0x63; 32],
        MemberRoles::member(),
        1_000,
    )
    .unwrap();
    let prepared = PreparedJoinRequest::from_bytes(&prepared.to_bytes()).unwrap();
    prepared.verify(root.public().network_id(), 500).unwrap();
    let mut mismatched = PreparedJoinRequest::from_bytes(&prepared.to_bytes()).unwrap();
    mismatched.endpoint_binding = EndpointBinding::issue_for_join(
        &signing,
        root.public().network_id(),
        [0x64; 32],
        0,
        1_000,
    )
    .unwrap();
    assert!(matches!(
        mismatched.verify(root.public().network_id(), 500),
        Err(CertificateError::BindingMismatch)
    ));
}

#[test]
fn app_owner_request_is_authorized_by_online_admin() {
    let root = NetworkRootKey::generate().unwrap();
    let admin = OnlineAdminKey::generate().unwrap();
    let admin_certificate = AdminCertificate::issue(
        &root,
        admin.public_bytes(),
        ADMIN_PERMISSION_REGISTER_APP,
        70,
        100,
        1_000,
    )
    .unwrap();
    let verified_admin = admin_certificate
        .verify(
            &root.public(),
            root.public().network_id(),
            500,
            &HashSet::new(),
        )
        .unwrap();
    let app_root = AppRootKey::generate().unwrap();
    let request = AppRegistrationRequest::create(&app_root, root.public().network_id(), 0x55);
    let request = AppRegistrationRequest::from_bytes(&request.to_bytes()).unwrap();
    let verified_request = request.verify(root.public().network_id()).unwrap();
    let registration =
        AppRegistration::issue_by_admin(&admin, admin_certificate.payload(), &verified_request)
            .unwrap();
    let registration = AppRegistration::from_bytes(&registration.to_bytes()).unwrap();
    let verified_app = registration
        .verify_with_admin(&verified_admin, root.public().network_id())
        .unwrap();
    assert_eq!(verified_app.payload().app_addr, app_root.app_addr());
    assert_eq!(verified_app.payload().policy, 0x55);

    let mut tampered = request.to_bytes().to_vec();
    tampered[40] ^= 1;
    let tampered = AppRegistrationRequest::from_bytes(&tampered).unwrap();
    assert!(matches!(
        tampered.verify(root.public().network_id()),
        Err(CertificateError::DerivedIdentityMismatch)
    ));
}

#[test]
fn exact_received_payload_is_verified_and_tampering_fails() {
    let root = NetworkRootKey::generate().unwrap();
    let member_key = SigningKeypair::generate().unwrap();
    let member = issue_member(&root, &member_key);
    let mut wire = member.to_bytes().to_vec();
    let roles_offset = 8 + 32 + 32 + 32 + 32;
    wire[roles_offset + 3] ^= 0x40;
    let tampered = MemberCertificate::from_bytes(&wire).unwrap();
    assert!(matches!(
        tampered.verify(
            &root.public(),
            root.public().network_id(),
            500,
            &HashSet::new()
        ),
        Err(CertificateError::InvalidSignature)
    ));
}

#[test]
fn wrong_network_revocation_and_time_fail_closed() {
    let root = NetworkRootKey::generate().unwrap();
    let other_root = NetworkRootKey::generate().unwrap();
    let member_key = SigningKeypair::generate().unwrap();
    let member = issue_member(&root, &member_key);
    assert!(matches!(
        member.verify(
            &root.public(),
            other_root.public().network_id(),
            500,
            &HashSet::new()
        ),
        Err(CertificateError::WrongNetwork)
    ));
    assert!(matches!(
        member.verify(
            &root.public(),
            root.public().network_id(),
            500,
            &HashSet::from([7])
        ),
        Err(CertificateError::Revoked)
    ));
    assert!(matches!(
        member.verify(
            &root.public(),
            root.public().network_id(),
            1_000,
            &HashSet::new()
        ),
        Err(CertificateError::Expired)
    ));
    assert!(matches!(
        member.verify(
            &root.public(),
            root.public().network_id(),
            99,
            &HashSet::new()
        ),
        Err(CertificateError::NotYetValid)
    ));
}

#[test]
fn endpoint_and_app_bindings_cannot_be_retargeted() {
    let root = NetworkRootKey::generate().unwrap();
    let network = root.public().network_id();
    let member_key = SigningKeypair::generate().unwrap();
    let member = issue_member(&root, &member_key);
    let verified_member = member
        .verify(&root.public(), network, 500, &HashSet::new())
        .unwrap();
    let endpoint = EndpointBinding::issue(&member_key, member.payload(), [1; 32], 1, 900).unwrap();
    assert_eq!(
        endpoint.verify(&verified_member, network, [2; 32], 500),
        Err(CertificateError::BindingMismatch)
    );

    let app_root = AppRootKey::generate().unwrap();
    assert!(matches!(
        AppBinding::issue(
            &app_root,
            network,
            member.payload().member_id,
            AppRole::Client,
            None,
            900,
            Vec::new(),
        ),
        Err(CertificateError::InvalidAppRole)
    ));
    assert!(matches!(
        AppBinding::issue(
            &app_root,
            network,
            member.payload().member_id,
            AppRole::Server,
            Some(DeviceId::from_bytes([3; 32])),
            900,
            Vec::new(),
        ),
        Err(CertificateError::InvalidAppRole)
    ));
}

#[test]
fn keys_are_deterministic_and_distinct() {
    let first = NetworkRootKey::from_bytes(&[1; 32]);
    let again = NetworkRootKey::from_bytes(&[1; 32]);
    let other = NetworkRootKey::from_bytes(&[2; 32]);
    assert_eq!(first.public().as_bytes(), again.public().as_bytes());
    assert_ne!(first.public().as_bytes(), [1; 32]);
    assert_ne!(first.public().as_bytes(), other.public().as_bytes());
    assert_ne!(first.public().network_id(), other.public().network_id());
    assert_ne!(first.public().network_id().as_bytes(), &first.public().as_bytes());
    assert_eq!(first.to_bytes(), [1; 32]);
    let reread = NetworkRootPublic::from_bytes(&first.public().as_bytes()).unwrap();
    assert_eq!(reread.network_id(), first.public().network_id());
    assert_eq!(reread.key_id(), first.public().key_id());
}

#[test]
fn signatures_are_checked_over_every_byte() {
    let root = NetworkRootKey::from_bytes(&[3; 32]);
    let signature = root.sign_bytes(b"payload");
    assert_eq!(root.public().verify_bytes(b"payload", &signature), Ok(()));
    assert_eq!(
        root.public().verify_bytes(b"payloae", &signature),
        Err(CertificateError::InvalidSignature)
    );
    let mut broken = signature;
    broken[63] ^= 1;
    assert_eq!(
        root.public().verify_bytes(b"payload", &broken),
        Err(CertificateError::InvalidSignature)
    );
}

#[test]
fn public_keys_off_the_curve_are_refused() {
    let mut bytes = [0xff_u8; 32];
    bytes[31] = 0x7f;
    let mut refused = NetworkRootPublic::from_bytes(&bytes).is_err();
    for low in 0..=255u8 {
        bytes[0] = low;
        refused = refused || NetworkRootPublic::from_bytes(&bytes).is_err();
    }
    assert!(refused);
}

#[test]
fn wrong_issuers_windows_and_permissions_are_refused() {
    let root = NetworkRootKey::from_bytes(&[4; 32]);
    let network = root.public().network_id();
    let admin = OnlineAdminKey::from_bytes(&[5; 32]);
    let other_admin = OnlineAdminKey::from_bytes(&[6; 32]);
    let member_key = SigningKeypair::from_bytes(&[7; 32]);
    assert!(matches!(
        AdminCertificate::issue(&root, admin.public_bytes(), 1, 1, 100, 100),
        Err(CertificateError::InvalidValidityWindow)
    ));
    assert!(matches!(
        MemberCertificate::issue(
            &root,
            member_key.public_bytes(),
            [1; 32],
            MemberRoles::member(),
            1,
            100,
            99,
        ),
        Err(CertificateError::InvalidValidityWindow)
    ));
    let powerless = AdminCertificate::issue(&root, admin.public_bytes(), 0, 1, 100, 1_000).unwrap();
    assert!(matches!(
        MemberCertificate::issue_by_admin(
            &admin,
            powerless.payload(),
            member_key.public_bytes(),
            [1; 32],
            MemberRoles::member(),
            1,
            200,
            900,
        ),
        Err(CertificateError::PermissionDenied)
    ));
    assert!(matches!(
        MemberCertificate::issue_by_admin(
            &other_admin,
            powerless.payload(),
            member_key.public_bytes(),
            [1; 32],
            MemberRoles::member(),
            1,
            200,
            900,
        ),
        Err(CertificateError::KeyMismatch)
    ));
    let capable = AdminCertificate::issue(
        &root,
        admin.public_bytes(),
        ADMIN_PERMISSION_ISSUE_MEMBER,
        1,
        100,
        1_000,
    )
    .unwrap();
    let member = MemberCertificate::issue_by_admin(
        &admin,
        capable.payload(),
        member_key.public_bytes(),
        [1; 32],
        MemberRoles::member(),
        9,
        200,
        900,
    )
    .unwrap();
    assert!(matches!(
        member.verify(&root.public(), network, 500, &HashSet::new()),
        Err(CertificateError::WrongIssuer)
    ));
    let stranger = SigningKeypair::from_bytes(&[8; 32]);
    assert!(matches!(
        EndpointBinding::issue(&stranger, member.payload(), [1; 32], 1, 900),
        Err(CertificateError::KeyMismatch)
    ));
}

#[test]
fn malformed_wire_is_refused() {
    assert!(matches!(
        MemberCertificate::from_bytes(&[0; 10]),
        Err(CertificateError::MalformedWire)
    ));
    assert!(matches!(
        AdminCertificate::from_bytes(&[]),
        Err(CertificateError::MalformedWire)
    ));
    assert!(matches!(
        EndpointBinding::from_bytes(&[1; 300]),
        Err(CertificateError::MalformedWire)
    ));
    assert!(matches!(
        AppRegistration::from_bytes(&[0; 188]),
        Err(CertificateError::MalformedWire)
    ));
    assert!(matches!(
        AppBinding::from_bytes(&[2; 7]),
        Err(CertificateError::MalformedWire)
    ));
    assert!(matches!(
        PreparedJoinRequest::from_bytes(&[3; 64]),
        Err(CertificateError::MalformedWire)
    ));
    let zero = JoinRequest::create(
        NetworkRootKey::from_bytes(&[1; 32]).public().network_id(),
        &SigningKeypair::from_bytes(&[2; 32]),
        [0; 32],
        [1; 32],
        [1; 32],
        MemberRoles::member(),
        1_000,
    );
    assert!(matches!(zero, Err(CertificateError::MalformedKey)));
}

#[test]
fn service_lists_are_bounded() {
    let app_root = AppRootKey::from_bytes(&[9; 32]);
    let network = NetworkRootKey::from_bytes(&[1; 32]).public().network_id();
    let member = issue_member(
        &NetworkRootKey::from_bytes(&[1; 32]),
        &SigningKeypair::from_bytes(&[2; 32]),
    );
    let services = vec![ServiceId::from_bytes([1; 16]); 65];
    let issued = AppBinding::issue(
        &app_root,
        network,
        member.payload().member_id,
        AppRole::Server,
        None,
        900,
        services,
    );
    assert!(matches!(issued, Err(CertificateError::TooManyServices)));
}

#[test]
fn certificate_errors_explain_themselves() {
    assert_eq!(
        CertificateError::InvalidSignature.message(),
        "signature verification failed"
    );
    assert_eq!(
        CertificateError::Revoked.message(),
        "member certificate was revoked"
    );
}

#[test]
fn roles_combine() {
    let both = MemberRoles::member().union(MemberRoles::relay());
    assert_eq!(both.bits(), 5);
    assert!(both.contains(MemberRoles::relay()));
    assert!(!both.contains(MemberRoles::authority()));
    assert_eq!(MemberRoles::from_bits(9).bits(), 9);
}

#[test]
fn bindings_and_prepared_requests_have_one_form() {
    let root = NetworkRootKey::from_bytes(&[1; 32]);
    let signing = SigningKeypair::from_bytes(&[2; 32]);
    let network = root.public().network_id();
    let member = issue_member(&root, &signing);
    let binding = AppBinding::issue(
        &AppRootKey::from_bytes(&[9; 32]),
        network,
        member.payload().member_id,
        AppRole::Client,
        Some(DeviceId::from_bytes([3; 32])),
        900,
        vec![ServiceId::from_bytes([4; 16])],
    )
    .unwrap()
    .to_bytes();
    let prepared = PreparedJoinRequest::create(
        network,
        &signing,
        [5; 32],
        [6; 32],
        [7; 32],
        MemberRoles::member(),
        900,
    )
    .unwrap()
    .to_bytes();
    let read = AppBinding::from_bytes(&binding).unwrap();
    let payload = encode_app_binding_payload(read.payload());
    assert_eq!(payload, binding[..binding.len() - 64]);
    let again = decode_app_binding_payload(&payload).unwrap();
    assert_eq!(encode_app_binding_payload(&again), payload);
    assert_eq!(again.device_id, read.payload().device_id);
    assert_eq!(again.services, read.payload().services);
    assert!(matches!(
        decode_app_binding_payload(&[payload.clone(), vec![0]].concat()),
        Err(CertificateError::MalformedWire)
    ));
    for at in 0..binding.len() {
        let mut other = binding.clone();
        other[at] ^= 1;
        if let Ok(read) = AppBinding::from_bytes(&other) {
            assert_eq!(read.to_bytes(), other);
        }
    }
    for at in 0..prepared.len() {
        let mut other = prepared.clone();
        other[at] ^= 1;
        if let Ok(read) = PreparedJoinRequest::from_bytes(&other) {
            assert_eq!(read.to_bytes(), other);
        }
    }
    assert_eq!(AppBinding::from_bytes(&binding).unwrap().to_bytes(), binding);
    assert_eq!(
        PreparedJoinRequest::from_bytes(&prepared).unwrap().to_bytes(),
        prepared
    );
}
