//! Where each field of a fixed format stands: every certificate, binding and request of the network
//! is laid out at the same places in every implementation.
use crate::config::chain;
use crate::config::chain::{Batch, ConfigHead};
use crate::config::envelope;
use crate::config::envelope::{ConfigError, Envelope};
use crate::config::snapshot;
use crate::config::snapshot::Config;
use crate::crypto::admin;
use crate::crypto::admin::AdminCertificatePayload;
use crate::crypto::app;
use crate::crypto::app::{
    AppRegistrationPayload, AppRegistrationRequestPayload, AppRole, Binding,
};
use crate::crypto::endpoint;
use crate::crypto::endpoint::EndpointBindingPayload;
use crate::crypto::join;
use crate::crypto::join::JoinRequestPayload;
use crate::crypto::keys::CertificateError;
use crate::crypto::member;
use crate::crypto::member::MemberCertificatePayload;
use crate::discovery::presence;
use crate::discovery::presence::{Candidate, DiscoveryError, Presence};
use crate::discovery::sealed;
use crate::discovery::sealed::SealedPresence;
use crate::identifiers::NetworkId;
use crate::net::config_state;
use crate::net::identity;
use crate::net::identity::IdentityRecord;
use crate::net::protocol;
use crate::net::protocol::PresenceRequest;
use crate::outside;
use crate::wire;
use vstd::prelude::*;

verus! {

/// An administrator certificate: the network, the key and its identifier, permissions, serial, window
/// and issuer.
pub proof fn law_admin_layout(p: AdminCertificatePayload)
    ensures
        ({
            let b = admin::admin_bytes(p);
            &&& b.len() == 132
            &&& forall|i: int| 0 <= i < 8 ==> #[trigger] b[i] == seq![87u8, 86, 82, 65, 68, 77, 0,
                1][i]
            &&& b.subrange(8, 40) == p.network_id@
            &&& b.subrange(40, 56) == p.key_id@
            &&& b.subrange(56, 88) == p.public_key@
            &&& b.subrange(88, 92) == wire::be(p.permissions as nat, 4)
            &&& b.subrange(92, 100) == wire::be(p.serial as nat, 8)
            &&& b.subrange(100, 108) == wire::be(p.not_before_ms as nat, 8)
            &&& b.subrange(108, 116) == wire::be(p.expires_at_ms as nat, 8)
            &&& b.subrange(116, 132) == p.issuer_key_id@
        }),
{
    let b = admin::admin_bytes(p);
    wire::lemma_be_len(p.permissions as nat, 4);
    wire::lemma_be_len(p.serial as nat, 8);
    wire::lemma_be_len(p.not_before_ms as nat, 8);
    wire::lemma_be_len(p.expires_at_ms as nat, 8);
    assert(admin::ADMIN_MAGIC@ =~= seq![87u8, 86, 82, 65, 68, 77, 0, 1]);
    assert(b.subrange(8, 40) =~= p.network_id@);
    assert(b.subrange(40, 56) =~= p.key_id@);
    assert(b.subrange(56, 88) =~= p.public_key@);
    assert(b.subrange(88, 92) =~= wire::be(p.permissions as nat, 4));
    assert(b.subrange(92, 100) =~= wire::be(p.serial as nat, 8));
    assert(b.subrange(100, 108) =~= wire::be(p.not_before_ms as nat, 8));
    assert(b.subrange(108, 116) =~= wire::be(p.expires_at_ms as nat, 8));
    assert(b.subrange(116, 132) =~= p.issuer_key_id@);
}

/// A member certificate: the network, the identity, both keys, roles, serial, window and issuer.
pub proof fn law_member_layout(p: MemberCertificatePayload)
    ensures
        ({
            let b = member::member_bytes(p);
            &&& b.len() == 180
            &&& forall|i: int| 0 <= i < 8 ==> #[trigger] b[i] == seq![87u8, 86, 82, 77, 69, 77, 0,
                1][i]
            &&& b.subrange(8, 40) == p.network_id@
            &&& b.subrange(40, 72) == p.member_id@
            &&& b.subrange(72, 104) == p.signing_public_key@
            &&& b.subrange(104, 136) == p.encryption_public_key@
            &&& b.subrange(136, 140) == wire::be(p.roles.0 as nat, 4)
            &&& b.subrange(140, 148) == wire::be(p.serial as nat, 8)
            &&& b.subrange(148, 156) == wire::be(p.not_before_ms as nat, 8)
            &&& b.subrange(156, 164) == wire::be(p.expires_at_ms as nat, 8)
            &&& b.subrange(164, 180) == p.issuer_key_id@
        }),
{
    let b = member::member_bytes(p);
    wire::lemma_be_len(p.roles.0 as nat, 4);
    wire::lemma_be_len(p.serial as nat, 8);
    wire::lemma_be_len(p.not_before_ms as nat, 8);
    wire::lemma_be_len(p.expires_at_ms as nat, 8);
    assert(member::MEMBER_MAGIC@ =~= seq![87u8, 86, 82, 77, 69, 77, 0, 1]);
    assert(b.subrange(8, 40) =~= p.network_id@);
    assert(b.subrange(40, 72) =~= p.member_id@);
    assert(b.subrange(72, 104) =~= p.signing_public_key@);
    assert(b.subrange(104, 136) =~= p.encryption_public_key@);
    assert(b.subrange(136, 140) =~= wire::be(p.roles.0 as nat, 4));
    assert(b.subrange(140, 148) =~= wire::be(p.serial as nat, 8));
    assert(b.subrange(148, 156) =~= wire::be(p.not_before_ms as nat, 8));
    assert(b.subrange(156, 164) =~= wire::be(p.expires_at_ms as nat, 8));
    assert(b.subrange(164, 180) =~= p.issuer_key_id@);
}

/// A binding of an endpoint: the network, the member, the endpoint, the sequence number and the end.
pub proof fn law_endpoint_layout(p: EndpointBindingPayload)
    ensures
        ({
            let b = endpoint::endpoint_bytes(p);
            &&& b.len() == 120
            &&& forall|i: int| 0 <= i < 8 ==> #[trigger] b[i] == seq![87u8, 86, 82, 69, 78, 68, 0,
                1][i]
            &&& b.subrange(8, 40) == p.network_id@
            &&& b.subrange(40, 72) == p.member_id@
            &&& b.subrange(72, 104) == p.endpoint_id@
            &&& b.subrange(104, 112) == wire::be(p.sequence as nat, 8)
            &&& b.subrange(112, 120) == wire::be(p.expires_at_ms as nat, 8)
        }),
{
    let b = endpoint::endpoint_bytes(p);
    wire::lemma_be_len(p.sequence as nat, 8);
    wire::lemma_be_len(p.expires_at_ms as nat, 8);
    assert(endpoint::ENDPOINT_MAGIC@ =~= seq![87u8, 86, 82, 69, 78, 68, 0, 1]);
    assert(b.subrange(8, 40) =~= p.network_id@);
    assert(b.subrange(40, 72) =~= p.member_id@);
    assert(b.subrange(72, 104) =~= p.endpoint_id@);
    assert(b.subrange(104, 112) =~= wire::be(p.sequence as nat, 8));
    assert(b.subrange(112, 120) =~= wire::be(p.expires_at_ms as nat, 8));
}

/// A request to join: the network, the identity, the three keys, the nonce, the roles and the end.
pub proof fn law_join_layout(p: JoinRequestPayload)
    ensures
        ({
            let b = join::join_bytes(p);
            &&& b.len() == 212
            &&& forall|i: int| 0 <= i < 8 ==> #[trigger] b[i] == seq![87u8, 86, 82, 74, 78, 82, 0,
                1][i]
            &&& b.subrange(8, 40) == p.network_id@
            &&& b.subrange(40, 72) == p.member_id@
            &&& b.subrange(72, 104) == p.signing_public_key@
            &&& b.subrange(104, 136) == p.encryption_public_key@
            &&& b.subrange(136, 168) == p.endpoint_id@
            &&& b.subrange(168, 200) == p.nonce@
            &&& b.subrange(200, 204) == wire::be(p.requested_roles.0 as nat, 4)
            &&& b.subrange(204, 212) == wire::be(p.expires_at_ms as nat, 8)
        }),
{
    let b = join::join_bytes(p);
    wire::lemma_be_len(p.requested_roles.0 as nat, 4);
    wire::lemma_be_len(p.expires_at_ms as nat, 8);
    assert(join::JOIN_MAGIC@ =~= seq![87u8, 86, 82, 74, 78, 82, 0, 1]);
    assert(b.subrange(8, 40) =~= p.network_id@);
    assert(b.subrange(40, 72) =~= p.member_id@);
    assert(b.subrange(72, 104) =~= p.signing_public_key@);
    assert(b.subrange(104, 136) =~= p.encryption_public_key@);
    assert(b.subrange(136, 168) =~= p.endpoint_id@);
    assert(b.subrange(168, 200) =~= p.nonce@);
    assert(b.subrange(200, 204) =~= wire::be(p.requested_roles.0 as nat, 4));
    assert(b.subrange(204, 212) =~= wire::be(p.expires_at_ms as nat, 8));
}

/// A request to register an application: the network, the address, the key and the policy.
pub proof fn law_app_request_layout(p: AppRegistrationRequestPayload)
    ensures
        ({
            let b = app::app_request_bytes(p);
            &&& b.len() == 108
            &&& forall|i: int| 0 <= i < 8 ==> #[trigger] b[i] == seq![87u8, 86, 82, 65, 80, 82, 0,
                1][i]
            &&& b.subrange(8, 40) == p.network_id@
            &&& b.subrange(40, 72) == p.app_addr@
            &&& b.subrange(72, 104) == p.app_root_public_key@
            &&& b.subrange(104, 108) == wire::be(p.policy as nat, 4)
        }),
{
    let b = app::app_request_bytes(p);
    wire::lemma_be_len(p.policy as nat, 4);
    assert(app::APP_REQUEST_MAGIC@ =~= seq![87u8, 86, 82, 65, 80, 82, 0, 1]);
    assert(b.subrange(8, 40) =~= p.network_id@);
    assert(b.subrange(40, 72) =~= p.app_addr@);
    assert(b.subrange(72, 104) =~= p.app_root_public_key@);
    assert(b.subrange(104, 108) =~= wire::be(p.policy as nat, 4));
}

/// A registration of an application: the network, the address, the key, the policy and the issuer.
pub proof fn law_app_registration_layout(p: AppRegistrationPayload)
    ensures
        ({
            let b = app::app_registration_bytes(p);
            &&& b.len() == 124
            &&& forall|i: int| 0 <= i < 8 ==> #[trigger] b[i] == seq![87u8, 86, 82, 65, 80, 80, 0,
                1][i]
            &&& b.subrange(8, 40) == p.network_id@
            &&& b.subrange(40, 72) == p.app_addr@
            &&& b.subrange(72, 104) == p.app_root_public_key@
            &&& b.subrange(104, 108) == wire::be(p.policy as nat, 4)
            &&& b.subrange(108, 124) == p.issuer_key_id@
        }),
{
    let b = app::app_registration_bytes(p);
    wire::lemma_be_len(p.policy as nat, 4);
    assert(app::APP_REGISTRATION_MAGIC@ =~= seq![87u8, 86, 82, 65, 80, 80, 0, 1]);
    assert(b.subrange(8, 40) =~= p.network_id@);
    assert(b.subrange(40, 72) =~= p.app_addr@);
    assert(b.subrange(72, 104) =~= p.app_root_public_key@);
    assert(b.subrange(104, 108) =~= wire::be(p.policy as nat, 4));
    assert(b.subrange(108, 124) =~= p.issuer_key_id@);
}

/// A stored head: the epoch, the revision and the hash.
pub proof fn law_config_head_layout(head: ConfigHead)
    ensures
        ({
            let b = config_state::head_bytes(head);
            &&& b.len() == 48
            &&& b.subrange(0, 8) == wire::be(head.epoch as nat, 8)
            &&& b.subrange(8, 16) == wire::be(head.revision as nat, 8)
            &&& b.subrange(16, 48) == head.hash@
        }),
{
    let b = config_state::head_bytes(head);
    wire::lemma_be_len(head.epoch as nat, 8);
    wire::lemma_be_len(head.revision as nat, 8);
    assert(b.subrange(0, 8) =~= wire::be(head.epoch as nat, 8));
    assert(b.subrange(8, 16) =~= wire::be(head.revision as nat, 8));
    assert(b.subrange(16, 48) =~= head.hash@);
}

/// A batch of updates: the network, the head it starts at, the number of envelopes, and these.
pub proof fn law_batch_layout(updates: Batch)
    ensures
        ({
            let b = chain::batch_bytes(updates);
            &&& b.len() == 92 + wire::items_bytes(chain::raw_enc(), updates.envelopes).len()
            &&& forall|i: int| 0 <= i < 8 ==> #[trigger] b[i] == seq![87u8, 86, 82, 85, 80, 68, 0,
                1][i]
            &&& b.subrange(8, 40) == updates.network_id@
            &&& b.subrange(40, 48) == wire::be(updates.base_head.epoch as nat, 8)
            &&& b.subrange(48, 56) == wire::be(updates.base_head.revision as nat, 8)
            &&& b.subrange(56, 88) == updates.base_head.hash@
            &&& b.subrange(88, 92) == wire::be(updates.envelopes.len(), 4)
            &&& b.subrange(92, b.len() as int) == wire::items_bytes(chain::raw_enc(),
                updates.envelopes)
        }),
{
    let b = chain::batch_bytes(updates);
    wire::lemma_be_len(updates.base_head.epoch as nat, 8);
    wire::lemma_be_len(updates.base_head.revision as nat, 8);
    wire::lemma_be_len(updates.envelopes.len(), 4);
    assert(chain::UPDATE_BATCH_MAGIC@ =~= seq![87u8, 86, 82, 85, 80, 68, 0, 1]);
    assert(b.subrange(8, 40) =~= updates.network_id@);
    assert(b.subrange(40, 48) =~= wire::be(updates.base_head.epoch as nat, 8));
    assert(b.subrange(48, 56) =~= wire::be(updates.base_head.revision as nat, 8));
    assert(b.subrange(56, 88) =~= updates.base_head.hash@);
    assert(b.subrange(88, 92) =~= wire::be(updates.envelopes.len(), 4));
    assert(b.subrange(92, b.len() as int) =~= wire::items_bytes(chain::raw_enc(),
        updates.envelopes));
}

/// The record of an identity: the name of the secret, the endpoint and the device.
pub proof fn law_identity_record_layout(r: IdentityRecord)
    ensures
        ({
            let b = identity::record_bytes(r);
            &&& b.len() == 104
            &&& b.subrange(0, 8) == identity::RECORD_MAGIC@
            &&& b.subrange(8, 40) == r.secret_id@
            &&& b.subrange(40, 72) == r.endpoint_id@
            &&& b.subrange(72, 104) == r.device_id@
        }),
{
    let b = identity::record_bytes(r);
    assert(b.subrange(0, 8) =~= identity::RECORD_MAGIC@);
    assert(b.subrange(8, 40) =~= r.secret_id@);
    assert(b.subrange(40, 72) =~= r.endpoint_id@);
    assert(b.subrange(72, 104) =~= r.device_id@);
}

/// A request for configurations: the network and the head of who asks.
pub proof fn law_config_sync_layout(network: NetworkId, head: ConfigHead)
    ensures
        ({
            let b = protocol::config_sync_bytes(network, head);
            &&& b.len() == 96
            &&& b.subrange(0, 16) == protocol::CONFIG_SYNC_REQUEST_MAGIC@
            &&& b.subrange(16, 48) == network@
            &&& b.subrange(48, 56) == wire::be(head.epoch as nat, 8)
            &&& b.subrange(56, 64) == wire::be(head.revision as nat, 8)
            &&& b.subrange(64, 96) == head.hash@
        }),
{
    let b = protocol::config_sync_bytes(network, head);
    wire::lemma_be_len(head.epoch as nat, 8);
    wire::lemma_be_len(head.revision as nat, 8);
    assert(b.subrange(0, 16) =~= protocol::CONFIG_SYNC_REQUEST_MAGIC@);
    assert(b.subrange(16, 48) =~= network@);
    assert(b.subrange(48, 56) =~= wire::be(head.epoch as nat, 8));
    assert(b.subrange(56, 64) =~= wire::be(head.revision as nat, 8));
    assert(b.subrange(64, 96) =~= head.hash@);
}

/// A request about presence: the network, what is asked, the epoch, the key, the end and the length of
/// what follows.
pub proof fn law_presence_request_layout(r: PresenceRequest)
    ensures
        ({
            let b = protocol::presence_request_bytes(r);
            &&& b.len() == 93
            &&& b.subrange(0, 16) == protocol::PRESENCE_REQUEST_MAGIC@
            &&& b.subrange(16, 48) == r.network_id@
            &&& b.subrange(48, 49) == seq![r.operation]
            &&& b.subrange(49, 57) == wire::be(r.epoch as nat, 8)
            &&& b.subrange(57, 81) == r.opaque_key@
            &&& b.subrange(81, 89) == wire::be(r.expires_at_ms as nat, 8)
            &&& b.subrange(89, 93) == wire::be(r.body_len as nat, 4)
        }),
{
    let b = protocol::presence_request_bytes(r);
    wire::lemma_be_len(r.epoch as nat, 8);
    wire::lemma_be_len(r.expires_at_ms as nat, 8);
    wire::lemma_be_len(r.body_len as nat, 4);
    assert(b.subrange(0, 16) =~= protocol::PRESENCE_REQUEST_MAGIC@);
    assert(b.subrange(16, 48) =~= r.network_id@);
    assert(b.subrange(48, 49) =~= seq![r.operation]);
    assert(b.subrange(49, 57) =~= wire::be(r.epoch as nat, 8));
    assert(b.subrange(57, 81) =~= r.opaque_key@);
    assert(b.subrange(81, 89) =~= wire::be(r.expires_at_ms as nat, 8));
    assert(b.subrange(89, 93) =~= wire::be(r.body_len as nat, 4));
}

/// A response about presence: the status, the time and the length of what follows.
pub proof fn law_presence_response_layout(status: u8, now_ms: u64, body_len: nat)
    ensures
        ({
            let b = protocol::presence_response_bytes(status, now_ms, body_len);
            &&& b.len() == 13
            &&& b.subrange(0, 1) == seq![status]
            &&& b.subrange(1, 9) == wire::be(now_ms as nat, 8)
            &&& b.subrange(9, 13) == wire::be(body_len, 4)
        }),
{
    let b = protocol::presence_response_bytes(status, now_ms, body_len);
    wire::lemma_be_len(now_ms as nat, 8);
    wire::lemma_be_len(body_len, 4);
    assert(b.subrange(0, 1) =~= seq![status]);
    assert(b.subrange(1, 9) =~= wire::be(now_ms as nat, 8));
    assert(b.subrange(9, 13) =~= wire::be(body_len, 4));
}

/// A sealed presence record: the format, the epoch, the key, the nonce, and the ciphertext behind its
/// length.
pub proof fn law_sealed_presence_layout(s: SealedPresence)
    ensures
        ({
            let b = sealed::sealed_bytes(s);
            &&& b.len() == 68 + s.ciphertext.len()
            &&& b.subrange(0, 8) == s.version.magic()
            &&& b.subrange(8, 16) == wire::be(s.epoch as nat, 8)
            &&& b.subrange(16, 40) == s.opaque_key@
            &&& b.subrange(40, 64) == s.nonce@
            &&& b.subrange(64, 68) == wire::be(s.ciphertext.len(), 4)
            &&& b.subrange(68, b.len() as int) == s.ciphertext
        }),
{
    let b = sealed::sealed_bytes(s);
    wire::lemma_be_len(s.epoch as nat, 8);
    wire::lemma_be_len(s.ciphertext.len(), 4);
    assert(b.subrange(0, 8) =~= s.version.magic());
    assert(b.subrange(8, 16) =~= wire::be(s.epoch as nat, 8));
    assert(b.subrange(16, 40) =~= s.opaque_key@);
    assert(b.subrange(40, 64) =~= s.nonce@);
    assert(b.subrange(64, 68) =~= wire::be(s.ciphertext.len(), 4));
    assert(b.subrange(68, b.len() as int) =~= s.ciphertext);
}

/// A binding of an application: the network, the address, the member, one byte each for the client
/// side and for a device, the device or zeros, the end, and the services behind their number.
pub proof fn law_binding_layout(p: Binding)
    ensures
        ({
            let b = app::binding_bytes(p);
            &&& b.len() == 148 + 16 * p.services.len()
            &&& b.subrange(0, 8) == app::APP_BIND_MAGIC@
            &&& b.subrange(8, 40) == p.network_id@
            &&& b.subrange(40, 72) == p.app_addr@
            &&& b.subrange(72, 104) == p.subject@
            &&& b[104] == 1 <==> p.role == AppRole::Client
            &&& b[104] == 0 <==> p.role == AppRole::Server
            &&& b[105] == 1 <==> p.device_id is Some
            &&& b[105] == 0 <==> p.device_id is None
            &&& p.device_id matches Some(device) ==> b.subrange(106, 138) == device@
            &&& p.device_id is None ==> forall|i: int| 106 <= i < 138 ==> #[trigger] b[i] == 0
            &&& b.subrange(138, 146) == wire::be(p.expires_at_ms as nat, 8)
            &&& b.subrange(146, 148) == wire::be(p.services.len(), 2)
            &&& forall|k: int, i: int|
                0 <= k < p.services.len() && 0 <= i < 16 ==> b[148 + 16 * k + i]
                    == #[trigger] p.services[k]@[i]
        }),
{
    let b = app::binding_bytes(p);
    wire::lemma_be_len(p.expires_at_ms as nat, 8);
    wire::lemma_be_len(p.services.len(), 2);
    assert(b.subrange(0, 8) =~= app::APP_BIND_MAGIC@);
    assert(b.subrange(8, 40) =~= p.network_id@);
    assert(b.subrange(40, 72) =~= p.app_addr@);
    assert(b.subrange(72, 104) =~= p.subject@);
    match p.device_id {
        Some(device) => {
            assert(b.subrange(106, 138) =~= device@);
        },
        None => {},
    }
    assert(b.subrange(138, 146) =~= wire::be(p.expires_at_ms as nat, 8));
    assert(b.subrange(146, 148) =~= wire::be(p.services.len(), 2));
    let tail = app::services_bytes(p.services);
    assert(b.subrange(148, b.len() as int) =~= tail);
    assert forall|k: int, i: int| 0 <= k < p.services.len() && 0 <= i < 16 implies b[148 + 16 * k
        + i] == #[trigger] p.services[k]@[i] by {
        assert(b[148 + 16 * k + i] == b.subrange(148, b.len() as int)[16 * k + i]);
        assert(tail[16 * k + i] == p.services[(16 * k + i) / 16]@[(16 * k + i) % 16]);
        assert((16 * k + i) / 16 == k);
        assert((16 * k + i) % 16 == i);
    }
}

/// A binding of an application is read back exactly where a client names a device and a server none,
/// and it has at most sixty-four services.
pub proof fn law_which_bindings_are_read(p: Binding)
    ensures
        app::read_binding(app::binding_bytes(p)) == Ok::<Binding, CertificateError>(p) <==> (p.role
            == AppRole::Client <==> p.device_id is Some) && p.services.len() <= 64,
{
    if (p.role == AppRole::Client <==> p.device_id is Some) && p.services.len() <= 64 {
        app::law_binding_round_trip(p);
    }
}

/// An envelope is read back wherever it has the one format, at most a mebibyte of payload, one to
/// two hundred and fifty-six wraps whose parts are neither empty nor longer than a kibibyte, and was
/// signed as it is.
pub proof fn law_which_envelopes_are_read(e: Envelope)
    requires
        e.signed == envelope::unsigned_bytes(e),
    ensures
        ({
            let bounds = {
                &&& e.format_version == 1
                &&& e.ciphertext.len() <= 1048608
                &&& 1 <= e.wraps.len() <= 256
                &&& forall|i: int|
                    0 <= i < e.wraps.len() ==> 1 <= (#[trigger] e.wraps[i]).encapsulated_key.len()
                        <= 1024 && 1 <= e.wraps[i].ciphertext.len() <= 1024
            };
            &&& envelope::envelope_ok(e) <==> bounds
            &&& bounds ==> envelope::read_envelope(envelope::envelope_bytes(e)) == Ok::<
                Envelope,
                ConfigError,
            >(e)
        }),
{
    let bounds = {
        &&& e.format_version == 1
        &&& e.ciphertext.len() <= 1048608
        &&& 1 <= e.wraps.len() <= 256
        &&& forall|i: int|
            0 <= i < e.wraps.len() ==> 1 <= (#[trigger] e.wraps[i]).encapsulated_key.len() <= 1024
                && 1 <= e.wraps[i].ciphertext.len() <= 1024
    };
    if bounds {
        assert forall|i: int| 0 <= i < e.wraps.len() implies envelope::wrap_ok(
            #[trigger] e.wraps[i],
        ) by {}
        envelope::law_envelope_round_trip(e);
    }
    if envelope::envelope_ok(e) {
        assert forall|i: int| 0 <= i < e.wraps.len() implies 1 <= (
        #[trigger] e.wraps[i]).encapsulated_key.len() <= 1024 && 1 <= e.wraps[i].ciphertext.len()
            <= 1024 by {
            assert(envelope::wrap_ok(e.wraps[i]));
        }
    }
}

/// A presence record is read back wherever it announces one to two hundred and fifty-six addresses
/// at no more than sixteen candidates, the address of each relay is neither empty nor too long, and
/// its endpoint can be one.
pub proof fn law_which_presence_records_are_read(r: Presence)
    ensures
        presence::record_ok(r) <==> {
            &&& 1 <= r.virtual_addrs.len() <= 256
            &&& r.candidates.len() <= 16
            &&& forall|i: int|
                0 <= i < r.candidates.len() ==> ((#[trigger] r.candidates[i]) matches Candidate::Relay(
                    url,
                ) ==> 1 <= wire::utf8(url).len() <= 2048)
            &&& outside::endpoint_key_ok(r.endpoint_id@)
        },
        presence::record_ok(r) ==> presence::read_payload(presence::payload_bytes(r)) is Ok,
{
    if presence::record_ok(r) {
        presence::law_payload_round_trip(r);
    }
}

/// A sealed presence record is read back exactly where it is at most sixteen kibibytes long.
pub proof fn law_which_sealed_records_are_read(s: SealedPresence)
    ensures
        sealed::read_sealed(sealed::sealed_bytes(s)) == Ok::<SealedPresence, DiscoveryError>(s)
            <==> sealed::sealed_bytes(s).len() <= 16384,
        sealed::sealed_bytes(s).len() > 16384 ==> sealed::read_sealed(sealed::sealed_bytes(s))
            == Err::<SealedPresence, DiscoveryError>(DiscoveryError::PresenceTooLarge),
{
    if sealed::sealed_bytes(s).len() <= 16384 {
        sealed::law_sealed_round_trip(s);
    }
}

/// The addresses of a configuration can be written exactly where those of its names, of its relays
/// and of its presence services can.
pub proof fn law_which_configs_can_be_written(c: Config)
    ensures
        snapshot::urls_ok(c) <==> {
            &&& forall|i: int|
                0 <= i < c.virtual_dns.len() ==> snapshot::url_ok((#[trigger] c.virtual_dns[i]).name)
            &&& forall|i: int|
                0 <= i < c.relays.len() ==> snapshot::url_ok((#[trigger] c.relays[i]).url)
            &&& forall|i: int|
                0 <= i < c.presence_services.len() ==> snapshot::url_ok(
                    (#[trigger] c.presence_services[i]).url,
                )
        },
{
    if snapshot::urls_ok(c) {
        assert forall|i: int| 0 <= i < c.virtual_dns.len() implies snapshot::url_ok(
            (#[trigger] c.virtual_dns[i]).name,
        ) by {
            assert(snapshot::url_ok(c.virtual_dns[i].name));
        }
        assert forall|i: int| 0 <= i < c.relays.len() implies snapshot::url_ok(
            (#[trigger] c.relays[i]).url,
        ) by {
            assert(snapshot::url_ok(c.relays[i].url));
        }
        assert forall|i: int| 0 <= i < c.presence_services.len() implies snapshot::url_ok(
            (#[trigger] c.presence_services[i]).url,
        ) by {
            assert(snapshot::url_ok(c.presence_services[i].url));
        }
    }
}

} // verus!
