//! Which certificates and bindings are accepted, and what each refusal means.
use crate::crypto::admin;
use crate::crypto::admin::AdminCertificatePayload;
use crate::crypto::app;
use crate::crypto::app::{
    AppRegistrationPayload, AppRegistrationRequestPayload, AppRole, Binding,
};
use crate::crypto::endpoint;
use crate::crypto::endpoint::EndpointBindingPayload;
use crate::crypto::join;
use crate::crypto::join::{JoinRequestPayload, PreparedJoin};
use crate::crypto::keys;
use crate::crypto::keys::{CertificateError, Signed};
use crate::crypto::member;
use crate::crypto::member::MemberCertificatePayload;
use crate::identifiers::NetworkId;
use crate::outside;
use crate::wire;
use vstd::prelude::*;

verus! {

/// Which permission a number grants: to write configurations if it is odd, to issue member
/// certificates by its second bit, to revoke by its third, to register applications by its fourth.
pub proof fn law_permissions_are_bits(permissions: u32)
    ensures
        admin::permits(permissions, admin::ADMIN_PERMISSION_CONFIG_WRITE) <==> permissions % 2 == 1,
        admin::permits(permissions, admin::ADMIN_PERMISSION_ISSUE_MEMBER) <==> (permissions / 2) % 2
            == 1,
        admin::permits(permissions, admin::ADMIN_PERMISSION_REVOKE) <==> (permissions / 4) % 2 == 1,
        admin::permits(permissions, admin::ADMIN_PERMISSION_REGISTER_APP) <==> (permissions / 8) % 2
            == 1,
{
    assert((permissions & 1 != 0) == (permissions % 2 == 1) && (permissions & 2 != 0)
        == ((permissions
        / 2) % 2 == 1) && (permissions & 4 != 0) == ((permissions / 4) % 2 == 1) && (permissions & 8
        != 0) == ((permissions / 8) % 2 == 1)) by (bit_vector);
}

/// A time is within a validity window exactly from its beginning on and before its end.
pub proof fn law_window(not_before: u64, expires: u64, now: u64)
    ensures
        keys::time_verdict(not_before, expires, now) is Ok <==> not_before <= now < expires,
        keys::time_verdict(not_before, expires, now) == Err::<(), CertificateError>(
            CertificateError::NotYetValid,
        ) <==> now < not_before,
        keys::time_verdict(not_before, expires, now) == Err::<(), CertificateError>(
            CertificateError::Expired,
        ) <==> not_before <= now && expires <= now,
{
}

/// An administrator certificate is accepted exactly where it and the root key belong to the network, the
/// root issued it, its key identifier is that of its key, it is in force and not revoked, the root
/// signed it, and its key can be one. Each refusal names something that is wrong.
pub proof fn law_when_an_admin_is_accepted(
    c: Signed<AdminCertificatePayload>,
    root: Seq<u8>,
    network: NetworkId,
    now_ms: u64,
    revoked: Set<u64>,
)
    ensures
        ({
            let verdict = admin::admin_verdict(c, root, network, now_ms, revoked);
            &&& verdict is Ok <==> {
                &&& keys::network_id_of(root) == network
                &&& c.payload.network_id == network
                &&& c.payload.issuer_key_id == keys::root_key_id(root)
                &&& c.payload.key_id == keys::admin_key_id(c.payload.public_key@)
                &&& c.payload.not_before_ms <= now_ms < c.payload.expires_at_ms
                &&& !revoked.contains(c.payload.serial)
                &&& outside::ed25519_verifies(root, admin::admin_bytes(c.payload), c.signature@)
                &&& outside::ed25519_key_ok(c.payload.public_key@)
            }
            &&& verdict is Ok ==> verdict == Ok::<AdminCertificatePayload,
                CertificateError>(c.payload)
            &&& verdict matches Err(reason) ==> match reason {
                CertificateError::WrongNetwork => keys::network_id_of(root) != network
                    || c.payload.network_id != network,
                CertificateError::WrongIssuer => c.payload.issuer_key_id != keys::root_key_id(root),
                CertificateError::DerivedIdentityMismatch => c.payload.key_id != keys::admin_key_id(c.payload.public_key@),
                CertificateError::NotYetValid => now_ms < c.payload.not_before_ms,
                CertificateError::Expired => c.payload.expires_at_ms <= now_ms,
                CertificateError::Revoked => revoked.contains(c.payload.serial),
                CertificateError::InvalidSignature => !outside::ed25519_verifies(root,
                    admin::admin_bytes(c.payload), c.signature@),
                CertificateError::MalformedKey => !outside::ed25519_key_ok(c.payload.public_key@),
                _ => false,
            }
        }),
{
}

/// A member certificate of the root is accepted exactly where it and the root key belong to the network,
/// the root issued it, its identity is that of its key, it is in force and not revoked, and the root
/// signed it.
pub proof fn law_when_a_member_is_accepted(
    c: Signed<MemberCertificatePayload>,
    root: Seq<u8>,
    network: NetworkId,
    now_ms: u64,
    revoked: Set<u64>,
)
    ensures
        ({
            let verdict = member::member_verdict(c, root, network, now_ms, revoked);
            &&& verdict is Ok <==> {
                &&& keys::network_id_of(root) == network
                &&& c.payload.network_id == network
                &&& c.payload.issuer_key_id == keys::root_key_id(root)
                &&& c.payload.member_id == keys::member_id_of(network,
                    c.payload.signing_public_key@)
                &&& c.payload.not_before_ms <= now_ms < c.payload.expires_at_ms
                &&& !revoked.contains(c.payload.serial)
                &&& outside::ed25519_verifies(root, member::member_bytes(c.payload), c.signature@)
            }
            &&& verdict is Ok ==> verdict == Ok::<MemberCertificatePayload,
                CertificateError>(c.payload)
            &&& verdict matches Err(reason) ==> match reason {
                CertificateError::WrongNetwork => keys::network_id_of(root) != network
                    || c.payload.network_id != network,
                CertificateError::WrongIssuer => c.payload.issuer_key_id != keys::root_key_id(root),
                CertificateError::DerivedIdentityMismatch => c.payload.member_id != keys::member_id_of(network, c.payload.signing_public_key@),
                CertificateError::NotYetValid => now_ms < c.payload.not_before_ms,
                CertificateError::Expired => c.payload.expires_at_ms <= now_ms,
                CertificateError::Revoked => revoked.contains(c.payload.serial),
                CertificateError::InvalidSignature => !outside::ed25519_verifies(root,
                    member::member_bytes(c.payload), c.signature@),
                _ => false,
            }
        }),
{
}

/// A member certificate of an administrator is accepted exactly where both belong to the network, the
/// administrator may issue members and issued it, its window lies within the administrator's, its
/// identity is that of its key, it is in force and not revoked, and the administrator signed it.
pub proof fn law_when_a_delegated_member_is_accepted(
    c: Signed<MemberCertificatePayload>,
    issuer: AdminCertificatePayload,
    network: NetworkId,
    now_ms: u64,
    revoked: Set<u64>,
)
    ensures
        ({
            let verdict = member::member_admin_verdict(c, issuer, network, now_ms, revoked);
            &&& verdict is Ok <==> {
                &&& issuer.network_id == network
                &&& c.payload.network_id == network
                &&& admin::permits(issuer.permissions, admin::ADMIN_PERMISSION_ISSUE_MEMBER)
                &&& c.payload.issuer_key_id == issuer.key_id
                &&& issuer.not_before_ms <= c.payload.not_before_ms
                &&& c.payload.expires_at_ms <= issuer.expires_at_ms
                &&& c.payload.member_id == keys::member_id_of(network,
                    c.payload.signing_public_key@)
                &&& c.payload.not_before_ms <= now_ms < c.payload.expires_at_ms
                &&& !revoked.contains(c.payload.serial)
                &&& outside::ed25519_verifies(issuer.public_key@, member::member_bytes(c.payload),
                    c.signature@)
            }
            &&& verdict is Ok ==> verdict == Ok::<MemberCertificatePayload,
                CertificateError>(c.payload)
            &&& verdict matches Err(reason) ==> match reason {
                CertificateError::WrongNetwork => issuer.network_id != network
                    || c.payload.network_id != network,
                CertificateError::PermissionDenied => !admin::permits(issuer.permissions,
                    admin::ADMIN_PERMISSION_ISSUE_MEMBER),
                CertificateError::WrongIssuer => c.payload.issuer_key_id != issuer.key_id,
                CertificateError::InvalidValidityWindow => c.payload.not_before_ms < issuer.not_before_ms || issuer.expires_at_ms < c.payload.expires_at_ms,
                CertificateError::DerivedIdentityMismatch => c.payload.member_id != keys::member_id_of(network, c.payload.signing_public_key@),
                CertificateError::NotYetValid => now_ms < c.payload.not_before_ms,
                CertificateError::Expired => c.payload.expires_at_ms <= now_ms,
                CertificateError::Revoked => revoked.contains(c.payload.serial),
                CertificateError::InvalidSignature => !outside::ed25519_verifies(issuer.public_key@, member::member_bytes(c.payload), c.signature@),
                _ => false,
            }
        }),
{
}

/// A registration by the root is accepted exactly where it and the root key belong to the network, the
/// root issued it, the address is that of the application's key, and the root signed it.
pub proof fn law_when_an_app_is_accepted(
    c: Signed<AppRegistrationPayload>,
    root: Seq<u8>,
    network: NetworkId,
)
    ensures
        ({
            let verdict = app::app_verdict(c, root, network);
            &&& verdict is Ok <==> {
                &&& keys::network_id_of(root) == network
                &&& c.payload.network_id == network
                &&& c.payload.issuer_key_id == keys::root_key_id(root)
                &&& c.payload.app_addr == keys::app_addr_of(c.payload.app_root_public_key@)
                &&& outside::ed25519_verifies(root, app::app_registration_bytes(c.payload),
                    c.signature@)
            }
            &&& verdict is Ok ==> verdict == Ok::<AppRegistrationPayload,
                CertificateError>(c.payload)
            &&& verdict matches Err(reason) ==> match reason {
                CertificateError::WrongNetwork => keys::network_id_of(root) != network
                    || c.payload.network_id != network,
                CertificateError::WrongIssuer => c.payload.issuer_key_id != keys::root_key_id(root),
                CertificateError::DerivedIdentityMismatch => c.payload.app_addr != keys::app_addr_of(c.payload.app_root_public_key@),
                CertificateError::InvalidSignature => !outside::ed25519_verifies(root,
                    app::app_registration_bytes(c.payload), c.signature@),
                _ => false,
            }
        }),
{
}

/// A registration by an administrator is accepted exactly where both belong to the network, the
/// administrator may register applications and issued it, the address is that of the application's
/// key, and the administrator signed it.
pub proof fn law_when_a_delegated_app_is_accepted(
    c: Signed<AppRegistrationPayload>,
    issuer: AdminCertificatePayload,
    network: NetworkId,
)
    ensures
        ({
            let verdict = app::app_admin_verdict(c, issuer, network);
            &&& verdict is Ok <==> {
                &&& issuer.network_id == network
                &&& c.payload.network_id == network
                &&& admin::permits(issuer.permissions, admin::ADMIN_PERMISSION_REGISTER_APP)
                &&& c.payload.issuer_key_id == issuer.key_id
                &&& c.payload.app_addr == keys::app_addr_of(c.payload.app_root_public_key@)
                &&& outside::ed25519_verifies(issuer.public_key@,
                    app::app_registration_bytes(c.payload), c.signature@)
            }
            &&& verdict is Ok ==> verdict == Ok::<AppRegistrationPayload,
                CertificateError>(c.payload)
            &&& verdict matches Err(reason) ==> match reason {
                CertificateError::WrongNetwork => issuer.network_id != network
                    || c.payload.network_id != network,
                CertificateError::PermissionDenied => !admin::permits(issuer.permissions,
                    admin::ADMIN_PERMISSION_REGISTER_APP),
                CertificateError::WrongIssuer => c.payload.issuer_key_id != issuer.key_id,
                CertificateError::DerivedIdentityMismatch => c.payload.app_addr != keys::app_addr_of(c.payload.app_root_public_key@),
                CertificateError::InvalidSignature => !outside::ed25519_verifies(issuer.public_key@, app::app_registration_bytes(c.payload), c.signature@),
                _ => false,
            }
        }),
{
}

/// A request to register an application is accepted exactly where it belongs to the network, the address
/// is that of its key, the key can be one, and that key signed it.
pub proof fn law_when_an_app_request_is_accepted(
    c: Signed<AppRegistrationRequestPayload>,
    network: NetworkId,
)
    ensures
        ({
            let verdict = app::app_request_verdict(c, network);
            &&& verdict is Ok <==> {
                &&& c.payload.network_id == network
                &&& c.payload.app_addr == keys::app_addr_of(c.payload.app_root_public_key@)
                &&& outside::ed25519_key_ok(c.payload.app_root_public_key@)
                &&& outside::ed25519_verifies(c.payload.app_root_public_key@,
                    app::app_request_bytes(c.payload), c.signature@)
            }
            &&& verdict is Ok ==> verdict == Ok::<AppRegistrationRequestPayload,
                CertificateError>(c.payload)
            &&& verdict matches Err(reason) ==> match reason {
                CertificateError::WrongNetwork => c.payload.network_id != network,
                CertificateError::DerivedIdentityMismatch => c.payload.app_addr != keys::app_addr_of(c.payload.app_root_public_key@),
                CertificateError::MalformedKey => !outside::ed25519_key_ok(c.payload.app_root_public_key@),
                CertificateError::InvalidSignature => !outside::ed25519_verifies(c.payload.app_root_public_key@, app::app_request_bytes(c.payload), c.signature@),
                _ => false,
            }
        }),
{
}

/// A binding of an endpoint is accepted exactly where it and the member belong to the network, it names
/// the member and the endpoint, it has not expired, and the member's key can be one and signed it.
pub proof fn law_when_an_endpoint_is_accepted(
    c: Signed<EndpointBindingPayload>,
    member: MemberCertificatePayload,
    network: NetworkId,
    endpoint_id: [u8; 32],
    now_ms: u64,
)
    ensures
        ({
            let verdict = endpoint::endpoint_verdict(c, member, network, endpoint_id, now_ms);
            &&& verdict is Ok <==> {
                &&& c.payload.network_id == network
                &&& member.network_id == network
                &&& c.payload.member_id == member.member_id
                &&& c.payload.endpoint_id == endpoint_id
                &&& now_ms < c.payload.expires_at_ms
                &&& outside::ed25519_key_ok(member.signing_public_key@)
                &&& outside::ed25519_verifies(member.signing_public_key@,
                    endpoint::endpoint_bytes(c.payload), c.signature@)
            }
            &&& verdict is Ok ==> verdict == Ok::<(), CertificateError>(())
            &&& verdict matches Err(reason) ==> match reason {
                CertificateError::WrongNetwork => c.payload.network_id != network
                    || member.network_id != network,
                CertificateError::BindingMismatch => c.payload.member_id != member.member_id
                    || c.payload.endpoint_id != endpoint_id,
                CertificateError::Expired => c.payload.expires_at_ms <= now_ms,
                CertificateError::MalformedKey => !outside::ed25519_key_ok(member.signing_public_key@),
                CertificateError::InvalidSignature => !outside::ed25519_verifies(member.signing_public_key@, endpoint::endpoint_bytes(c.payload), c.signature@),
                _ => false,
            }
        }),
{
}

/// A binding that comes with a request to join is accepted exactly where both belong to the network, it
/// names the member and the endpoint of the request, is the first of its endpoint and expires with the
/// request, it has not expired, and the key of the request can be one and signed it.
pub proof fn law_when_a_joining_endpoint_is_accepted(
    c: Signed<EndpointBindingPayload>,
    request: JoinRequestPayload,
    network: NetworkId,
    now_ms: u64,
)
    ensures
        ({
            let verdict = endpoint::endpoint_join_verdict(c, request, network, now_ms);
            &&& verdict is Ok <==> {
                &&& c.payload.network_id == network
                &&& request.network_id == network
                &&& c.payload.member_id == request.member_id
                &&& c.payload.endpoint_id == request.endpoint_id
                &&& c.payload.sequence == 0
                &&& c.payload.expires_at_ms == request.expires_at_ms
                &&& now_ms < c.payload.expires_at_ms
                &&& outside::ed25519_key_ok(request.signing_public_key@)
                &&& outside::ed25519_verifies(request.signing_public_key@,
                    endpoint::endpoint_bytes(c.payload), c.signature@)
            }
            &&& verdict is Ok ==> verdict == Ok::<(), CertificateError>(())
            &&& verdict matches Err(reason) ==> match reason {
                CertificateError::WrongNetwork => c.payload.network_id != network
                    || request.network_id != network,
                CertificateError::BindingMismatch => c.payload.member_id != request.member_id
                    || c.payload.endpoint_id != request.endpoint_id || c.payload.sequence != 0
                    || c.payload.expires_at_ms != request.expires_at_ms,
                CertificateError::Expired => c.payload.expires_at_ms <= now_ms,
                CertificateError::MalformedKey => !outside::ed25519_key_ok(request.signing_public_key@),
                CertificateError::InvalidSignature => !outside::ed25519_verifies(request.signing_public_key@, endpoint::endpoint_bytes(c.payload), c.signature@),
                _ => false,
            }
        }),
{
}

/// A binding of an application is accepted exactly where it, the application and the member belong to the
/// network, it names both, a client names a device and a server none, it has not expired, and the
/// application's key can be one and signed it.
pub proof fn law_when_a_binding_is_accepted(
    c: Signed<Binding>,
    registered: AppRegistrationPayload,
    member: MemberCertificatePayload,
    network: NetworkId,
    now_ms: u64,
)
    ensures
        ({
            let verdict = app::binding_verdict(c, registered, member, network, now_ms);
            &&& verdict is Ok <==> {
                &&& c.payload.network_id == network
                &&& registered.network_id == network
                &&& member.network_id == network
                &&& c.payload.app_addr == registered.app_addr
                &&& c.payload.subject == member.member_id
                &&& c.payload.role == AppRole::Client <==> c.payload.device_id is Some
                &&& now_ms < c.payload.expires_at_ms
                &&& outside::ed25519_key_ok(registered.app_root_public_key@)
                &&& outside::ed25519_verifies(registered.app_root_public_key@,
                    app::binding_bytes(c.payload), c.signature@)
            }
            &&& verdict is Ok ==> verdict == Ok::<(), CertificateError>(())
            &&& verdict matches Err(reason) ==> match reason {
                CertificateError::WrongNetwork => c.payload.network_id != network
                    || registered.network_id != network || member.network_id != network,
                CertificateError::BindingMismatch => c.payload.app_addr != registered.app_addr
                    || c.payload.subject != member.member_id,
                CertificateError::InvalidAppRole => (c.payload.role
                    == AppRole::Client) != (c.payload.device_id is Some),
                CertificateError::Expired => c.payload.expires_at_ms <= now_ms,
                CertificateError::MalformedKey => !outside::ed25519_key_ok(registered.app_root_public_key@),
                CertificateError::InvalidSignature => !outside::ed25519_verifies(registered.app_root_public_key@, app::binding_bytes(c.payload), c.signature@),
                _ => false,
            }
        }),
{
}

/// Whether a key is all zeros.
pub open spec fn blank(key: [u8; 32]) -> bool {
    forall|i: int| 0 <= i < 32 ==> #[trigger] key@[i] == 0
}

proof fn lemma_blank(key: [u8; 32])
    ensures
        blank(key) <==> key@ == wire::zeros(32),
{
    if blank(key) {
        assert(key@ =~= wire::zeros(32));
    }
}

/// A request to join is accepted exactly where it belongs to the network, has not expired, no key or
/// number in it is blank, its identity is that of its key, and that key can be one and signed it.
pub proof fn law_when_a_join_request_is_accepted(
    c: Signed<JoinRequestPayload>,
    network: NetworkId,
    now_ms: u64,
)
    ensures
        ({
            let verdict = join::join_verdict(c, network, now_ms);
            &&& verdict is Ok <==> {
                &&& c.payload.network_id == network
                &&& now_ms < c.payload.expires_at_ms
                &&& !blank(c.payload.encryption_public_key)
                &&& !blank(c.payload.endpoint_id)
                &&& !blank(c.payload.nonce)
                &&& c.payload.member_id == keys::member_id_of(network,
                    c.payload.signing_public_key@)
                &&& outside::ed25519_key_ok(c.payload.signing_public_key@)
                &&& outside::ed25519_verifies(c.payload.signing_public_key@,
                    join::join_bytes(c.payload), c.signature@)
            }
            &&& verdict is Ok ==> verdict == Ok::<JoinRequestPayload, CertificateError>(c.payload)
            &&& verdict matches Err(reason) ==> match reason {
                CertificateError::WrongNetwork => c.payload.network_id != network,
                CertificateError::Expired => c.payload.expires_at_ms <= now_ms,
                CertificateError::MalformedKey => blank(c.payload.encryption_public_key)
                    || blank(c.payload.endpoint_id) || blank(c.payload.nonce)
                    || !outside::ed25519_key_ok(c.payload.signing_public_key@),
                CertificateError::DerivedIdentityMismatch => c.payload.member_id != keys::member_id_of(network, c.payload.signing_public_key@),
                CertificateError::InvalidSignature => !outside::ed25519_verifies(c.payload.signing_public_key@, join::join_bytes(c.payload), c.signature@),
                _ => false,
            }
        }),
{
    lemma_blank(c.payload.encryption_public_key);
    lemma_blank(c.payload.endpoint_id);
    lemma_blank(c.payload.nonce);
}

/// A prepared request is accepted exactly where its request and its binding are.
pub proof fn law_when_a_prepared_join_is_accepted(p: PreparedJoin, network: NetworkId, now_ms: u64)
    ensures
        join::prepared_verdict(p, network, now_ms) is Ok <==> join::join_verdict(
            p.request,
            network,
            now_ms,
        ) is Ok && endpoint::endpoint_join_verdict(
            p.endpoint_binding,
            p.request.payload,
            network,
            now_ms,
        ) is Ok,
        join::prepared_verdict(p, network, now_ms) matches Ok(request) ==> request
            == p.request.payload,
{
}

/// An administrator may issue a member certificate exactly where the secret is that of the
/// administrator's own key, the administrator may issue members, and the window is not empty and
/// lies within the administrator's.
pub proof fn law_when_a_member_is_issued(
    secret: Seq<u8>,
    issuer: AdminCertificatePayload,
    not_before_ms: u64,
    expires_at_ms: u64,
)
    ensures
        ({
            let refusal = member::member_issue_refusal(secret, issuer, not_before_ms,
                expires_at_ms);
            let own = outside::ed25519_public(secret) == issuer.public_key@ && issuer.key_id
                == keys::admin_key_id(issuer.public_key@);
            &&& refusal is None <==> {
                &&& own
                &&& admin::permits(issuer.permissions, admin::ADMIN_PERMISSION_ISSUE_MEMBER)
                &&& issuer.not_before_ms <= not_before_ms < expires_at_ms <= issuer.expires_at_ms
            }
            &&& refusal matches Some(reason) ==> match reason {
                CertificateError::KeyMismatch => !own,
                CertificateError::PermissionDenied => !admin::permits(
                    issuer.permissions,
                    admin::ADMIN_PERMISSION_ISSUE_MEMBER,
                ),
                CertificateError::InvalidValidityWindow => !(issuer.not_before_ms <= not_before_ms
                    < expires_at_ms <= issuer.expires_at_ms),
                _ => false,
            }
        }),
{
}

/// An administrator may register an application exactly where the secret is that of the
/// administrator's own key, the administrator may register applications, and the request belongs
/// to the administrator's network.
pub proof fn law_when_an_app_is_registered(
    secret: Seq<u8>,
    issuer: AdminCertificatePayload,
    request: AppRegistrationRequestPayload,
)
    ensures
        ({
            let refusal = app::app_issue_refusal(secret, issuer, request);
            let own = outside::ed25519_public(secret) == issuer.public_key@ && issuer.key_id
                == keys::admin_key_id(issuer.public_key@);
            &&& refusal is None <==> {
                &&& own
                &&& admin::permits(issuer.permissions, admin::ADMIN_PERMISSION_REGISTER_APP)
                &&& request.network_id == issuer.network_id
            }
            &&& refusal matches Some(reason) ==> match reason {
                CertificateError::KeyMismatch => !own,
                CertificateError::PermissionDenied => !admin::permits(
                    issuer.permissions,
                    admin::ADMIN_PERMISSION_REGISTER_APP,
                ),
                CertificateError::WrongNetwork => request.network_id != issuer.network_id,
                _ => false,
            }
        }),
{
}

/// What is issued says what was asked for, field by field, and the rest follows from the keys: who
/// it is for from the key it is for, who issued it from the key that did, and the network from the
/// root.
pub proof fn law_what_is_issued_says_what_was_asked(
    root: Seq<u8>,
    network: NetworkId,
    issuer_key_id: [u8; 16],
    public_key: [u8; 32],
    encryption_public_key: [u8; 32],
    permissions: u32,
    roles: member::MemberRoles,
    serial: u64,
    not_before_ms: u64,
    expires_at_ms: u64,
)
    ensures
        ({
            let a = admin::admin_issued(
                root,
                public_key,
                permissions,
                serial,
                not_before_ms,
                expires_at_ms,
            );
            let m = member::member_issued(
                network,
                issuer_key_id,
                public_key,
                encryption_public_key,
                roles,
                serial,
                not_before_ms,
                expires_at_ms,
            );
            let founder = outside::ed25519_public(root);
            &&& (a.permissions, a.serial, a.not_before_ms, a.expires_at_ms) == (
                permissions,
                serial,
                not_before_ms,
                expires_at_ms,
            )
            &&& a.public_key == public_key && a.key_id == keys::admin_key_id(public_key@)
            &&& a.network_id == keys::network_id_of(founder) && a.issuer_key_id
                == keys::root_key_id(founder)
            &&& (m.roles, m.serial, m.not_before_ms, m.expires_at_ms) == (
                roles,
                serial,
                not_before_ms,
                expires_at_ms,
            )
            &&& m.signing_public_key == public_key && m.encryption_public_key
                == encryption_public_key
            &&& m.member_id == keys::member_id_of(network, public_key@)
            &&& m.network_id == network && m.issuer_key_id == issuer_key_id
        }),
{
}

} // verus!
