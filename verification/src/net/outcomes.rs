//! What the decisions of a network come to: exactly which cases each of them lets through, and what
//! each refusal means.
use crate::config::chain;
use crate::config::chain::{ChainExpectation, ConfigHead};
use crate::config::envelope;
use crate::config::envelope::{ConfigError, Envelope};
use crate::config::sealing;
use crate::config::sealing::Unsealed;
use crate::config::snapshot::{Config, Relay};
use crate::crypto::admin;
use crate::crypto::admin::AdminCertificatePayload;
use crate::crypto::endpoint;
use crate::crypto::join;
use crate::crypto::join::JoinRequestPayload;
use crate::crypto::keys;
use crate::crypto::member;
use crate::crypto::member::MemberRoles;
use crate::discovery;
use crate::discovery::address::SocketAddress;
use crate::discovery::presence::{Candidate, DiscoveryError};
use crate::identifiers::{
    AppAddr, ClientAddr, EndpointId, NetworkId, ScopedVirtualAddr, ServerAddr, VirtualAddr,
};
use crate::net::config_state;
use crate::net::config_state::ConfigStateError;
use crate::net::handle;
use crate::net::handle::NetworkHandleError;
use crate::net::identity;
use crate::net::identity::{Identity, IdentityError};
use crate::net::membership;
use crate::net::membership::{MembershipError, StoreCapabilities, Ticket};
use crate::net::node;
use crate::net::node::{DatagramError, NodeConfig, Target};
use crate::net::peers;
use crate::net::peers::{ConfigAuthorizationError, ConfigPeer, Peer};
use crate::net::protocol;
use crate::net::protocol::{
    NetworkError, OpenStreamRequest, PresenceAction, PresenceRequest, StoreOutcome,
};
use crate::outside;
use crate::wire;
use vstd::prelude::*;

verus! {

/// An envelope that an administrator signed opens exactly where it, the root key and the
/// administrator belong to one network, the administrator is the signer it names, may write
/// configurations and signed it, its payload opens at its place in the chain, and the payload is
/// the configuration that the envelope stands for and is accepted.
pub proof fn law_when_an_admin_envelope_opens(
    e: Envelope,
    root: Seq<u8>,
    signer: AdminCertificatePayload,
    secret: Seq<u8>,
    expected: ChainExpectation,
    now_ms: u64,
)
    ensures
        sealing::admin_open_verdict(e, root, signer, secret, expected, now_ms) is Ok <==> {
            &&& e.network_id == keys::network_id_of(root)
            &&& e.network_id == signer.network_id
            &&& e.signer_key_id == signer.key_id
            &&& admin::permits(signer.permissions, admin::ADMIN_PERMISSION_CONFIG_WRITE)
            &&& outside::ed25519_verifies(signer.public_key@, e.signed, e.signature@)
            &&& sealing::payload_verdict(e, secret, expected) matches Ok(opened)
            &&& sealing::decoded_verdict(e, root, opened, now_ms) is Ok
        },
{
}

/// The certificate that names a key identifier is the first that can be read and does.
pub proof fn law_certificate_is_the_first(raw: Seq<Seq<u8>>, key_id: [u8; 16])
    ensures
        match config_state::certificate_with(raw, key_id) {
            Some(bytes) => exists|i: int|
                0 <= i < raw.len() && #[trigger] raw[i] == bytes && (admin::read_signed_admin(
                    raw[i],
                ) matches Some(c) && c.payload.key_id == key_id) && forall|k: int|
                    0 <= k < i ==> (admin::read_signed_admin(#[trigger] raw[k]) matches Some(c)
                        ==> c.payload.key_id != key_id),
            None => forall|k: int|
                0 <= k < raw.len() ==> (admin::read_signed_admin(#[trigger] raw[k]) matches Some(c)
                    ==> c.payload.key_id != key_id),
        },
    decreases raw.len(),
{
    if raw.len() > 0 {
        let rest = raw.skip(1);
        law_certificate_is_the_first(rest, key_id);
        assert forall|k: int| 0 < k < raw.len() implies #[trigger] raw[k] == rest[k - 1] by {}
        let here = admin::read_signed_admin(raw[0]) matches Some(c) && c.payload.key_id == key_id;
        if here {
            assert(raw[0] == raw[0]);
        } else {
            match config_state::certificate_with(rest, key_id) {
                Some(bytes) => {
                    let i = choose|i: int|
                        0 <= i < rest.len() && #[trigger] rest[i] == bytes
                            && (admin::read_signed_admin(rest[i]) matches Some(c)
                            && c.payload.key_id == key_id) && forall|k: int|
                            0 <= k < i ==> (admin::read_signed_admin(
                                #[trigger] rest[k],
                            ) matches Some(c) ==> c.payload.key_id != key_id);
                    assert(raw[i + 1] == rest[i]);
                },
                None => {},
            }
        }
    }
}

/// A stored configuration is opened exactly where all three records are there, the envelope and the
/// head can be read, the root certified the signer, and the envelope is that of the head and opens.
pub proof fn law_when_a_stored_config_opens(
    root: Seq<u8>,
    secret: Seq<u8>,
    raw: Option<Seq<u8>>,
    head: Option<Seq<u8>>,
    signer: Option<Seq<u8>>,
    now_ms: u64,
)
    ensures
        ({
            let verdict = config_state::open_verdict(root, secret, raw, head, signer, now_ms);
            &&& verdict is Ok <==> {
                &&& raw matches Some(raw)
                &&& head matches Some(head)
                &&& signer matches Some(signer)
                &&& envelope::read_envelope(raw) matches Ok(e)
                &&& config_state::read_head(head) matches Ok(h)
                &&& config_state::signer_verdict(root, signer, now_ms) matches Ok(s)
                &&& sealing::admin_open_verdict(
                    e,
                    root,
                    s,
                    secret,
                    ChainExpectation::Checkpoint(h),
                    now_ms,
                ) is Ok
            }
            &&& verdict == Err::<Unsealed, ConfigStateError>(ConfigStateError::NotJoined) ==> raw is None
                || head is None || signer is None || config_state::read_head(
                head->Some_0,
            ) is Err
            &&& raw is None || head is None || signer is None ==> verdict == Err::<
                Unsealed,
                ConfigStateError,
            >(ConfigStateError::NotJoined)
        }),
{
}

/// Everything after a head is served wherever the head is not ahead of the one in force, the stored
/// envelope of its revision is the one it stands for, every later envelope is there, and together
/// they are a chain: as many envelopes as there are revisions in between, each as it is stored.
pub proof fn law_when_updates_are_served(
    network: NetworkId,
    head: ConfigHead,
    base_head: ConfigHead,
    base: Option<Seq<u8>>,
    later: Seq<Option<Vec<u8>>>,
    batch: chain::Batch,
)
    requires
        later.len() >= head.revision - base_head.revision,
        batch.network_id == network,
        batch.base_head == base_head,
        batch.envelopes.len() == head.revision - base_head.revision,
        forall|i: int|
            0 <= i < batch.envelopes.len() ==> (#[trigger] later[i] matches Some(raw)
                ==> batch.envelopes[i] == raw@),
    ensures
        config_state::serve_verdict(network, head, base_head, base, later) == Ok::<
            chain::Batch,
            ConfigStateError,
        >(batch) <==> {
            &&& base_head.revision <= head.revision
            &&& base_head.epoch <= head.epoch
            &&& base matches Some(raw)
            &&& envelope::read_envelope(raw) matches Ok(e)
            &&& chain::head_of(e) == base_head
            &&& forall|i: int|
                0 <= i < head.revision - base_head.revision ==> #[trigger] later[i] is Some
            &&& chain::batch_verdict(batch) is Ok
        },
{
    let n = head.revision - base_head.revision;
    if base_head.revision <= head.revision && forall|i: int|
        0 <= i < n ==> #[trigger] later[i] is Some {
        let taken = config_state::records(later.take(n));
        assert forall|i: int| 0 <= i < n implies #[trigger] taken[i] == batch.envelopes[i] by {
            assert(later[i] is Some);
        }
        assert(taken =~= batch.envelopes);
    }
}

/// A member is told that its head is unknown exactly where the head is ahead of the one in force, or
/// no envelope of its revision is stored, or the stored one is another.
pub proof fn law_when_a_head_is_unknown(
    network: NetworkId,
    head: ConfigHead,
    base_head: ConfigHead,
    base: Option<Seq<u8>>,
    later: Seq<Option<Vec<u8>>>,
)
    ensures
        config_state::serve_verdict(network, head, base_head, base, later) == Err::<
            chain::Batch,
            ConfigStateError,
        >(ConfigStateError::UnknownHead) <==> {
            ||| head.revision < base_head.revision
            ||| head.epoch < base_head.epoch
            ||| base is None
            ||| (envelope::read_envelope(base->Some_0) matches Ok(e) && chain::head_of(e)
                != base_head)
        },
        config_state::serve_verdict(network, head, base_head, base, later) == Err::<
            chain::Batch,
            ConfigStateError,
        >(ConfigStateError::HistoryUnavailable) ==> later.len() < head.revision - base_head.revision
            || exists|i: int|
            0 <= i < head.revision - base_head.revision && #[trigger] later[i] is None,
{
}

/// A commit is confirmed exactly where what is stored is its envelope, its head, and some signer.
pub proof fn law_when_a_commit_is_confirmed(
    raw: Seq<u8>,
    head: ConfigHead,
    stored: Option<Seq<u8>>,
    stored_head: Option<Seq<u8>>,
    signer: Option<Seq<u8>>,
)
    ensures
        config_state::confirm_verdict(raw, head, stored, stored_head, signer) is Ok <==> {
            &&& stored == Some(raw)
            &&& stored_head matches Some(bytes)
            &&& config_state::read_head(bytes) == Ok::<ConfigHead, ConfigStateError>(head)
            &&& signer is Some
        },
        config_state::confirm_verdict(raw, head, stored, stored_head, signer) matches Ok(h) ==> h
            == head,
{
}

/// Places to keep state and secrets are good enough exactly where several writes take effect at
/// once, and unless insecure ones are allowed, what is written stays and secrets outlive the
/// process.
pub proof fn law_which_stores_are_good_enough(stores: StoreCapabilities, allow_insecure: bool)
    ensures
        membership::stores_ok(stores, allow_insecure) <==> stores.atomic_batches && (
        !allow_insecure ==> stores.durable_commits && !stores.secrets_in_memory_only),
{
}

/// The stored secrets are those of a request exactly where each has the public key that the request
/// names; the first that differs is named.
pub proof fn law_when_secrets_are_those_of_the_request(
    r: JoinRequestPayload,
    encryption: Seq<u8>,
    endpoint: Seq<u8>,
    signing: Seq<u8>,
)
    ensures
        ({
            let verdict = membership::keys_verdict(r, encryption, endpoint, signing);
            &&& verdict is Ok <==> {
                &&& r.encryption_public_key@ == outside::hpke_public(encryption)
                &&& r.endpoint_id@ == outside::endpoint_public(endpoint)
                &&& r.signing_public_key@ == outside::ed25519_public(signing)
            }
            &&& r.encryption_public_key@ != outside::hpke_public(encryption) ==> verdict == Err::<
                (),
                MembershipError,
            >(MembershipError::SecretMismatch("member encryption"))
            &&& r.encryption_public_key@ == outside::hpke_public(encryption) && r.endpoint_id@
                != outside::endpoint_public(endpoint) ==> verdict == Err::<(), MembershipError>(
                MembershipError::SecretMismatch("endpoint"),
            )
            &&& r.encryption_public_key@ == outside::hpke_public(encryption) && r.endpoint_id@
                == outside::endpoint_public(endpoint) && r.signing_public_key@
                != outside::ed25519_public(signing) ==> verdict == Err::<(), MembershipError>(
                MembershipError::SecretMismatch("member signing"),
            )
        }),
{
}

/// A prepared request is taken up exactly where it is there, can be read, and is accepted now.
pub proof fn law_when_a_prepared_request_is_taken_up(
    prepared: Option<Seq<u8>>,
    network: NetworkId,
    now_ms: u64,
)
    ensures
        membership::request_verdict(prepared, network, now_ms) is Ok <==> {
            &&& prepared matches Some(bytes)
            &&& join::read_prepared(bytes) matches Some(p)
            &&& join::prepared_verdict(p, network, now_ms) is Ok
        },
        membership::request_verdict(prepared, network, now_ms) matches Ok(r) ==> r
            == join::read_prepared(prepared->Some_0)->Some_0.request.payload,
        membership::request_verdict(prepared, network, now_ms) == Err::<
            JoinRequestPayload,
            MembershipError,
        >(MembershipError::NotPrepared) <==> prepared is None,
{
}

/// A ticket is taken exactly where the root certified its administrator, its configuration can be
/// read, is the one that its head names and opens for the member, and its member certificate can be
/// read and answers the request: it has the identity and both keys of the request.
pub proof fn law_when_a_ticket_is_taken(
    root: Seq<u8>,
    r: JoinRequestPayload,
    encryption: Seq<u8>,
    t: Ticket,
    now_ms: u64,
)
    ensures
        ({
            let verdict = membership::ticket_verdict(root, r, encryption, t, now_ms);
            &&& verdict is Ok <==> {
                &&& config_state::signer_verdict(root, t.admin_certificate, now_ms) matches Ok(s)
                &&& envelope::read_envelope(t.embedded_config) matches Ok(e)
                &&& sealing::admin_open_verdict(
                    e,
                    root,
                    s,
                    encryption,
                    ChainExpectation::Checkpoint(t.config_head),
                    now_ms,
                ) is Ok
                &&& member::read_signed_member(t.member_certificate) matches Some(m)
                &&& m.payload.member_id == r.member_id
                &&& m.payload.signing_public_key == r.signing_public_key
                &&& m.payload.encryption_public_key == r.encryption_public_key
            }
            &&& verdict == Err::<ConfigHead, MembershipError>(MembershipError::TicketMemberMismatch)
                ==> (member::read_signed_member(t.member_certificate) matches Some(m) && (
            m.payload.member_id != r.member_id || m.payload.signing_public_key
                != r.signing_public_key || m.payload.encryption_public_key
                != r.encryption_public_key))
        }),
{
}

/// Who connects is let in exactly where what they are after is known here, is offered where it is a
/// service of its own, and is allowed to them.
pub proof fn law_who_may_connect(target: Target, enabled: bool, allowed: bool)
    ensures
        node::admission(target, enabled, allowed) is Ok <==> allowed && match target {
            Target::ConfigSync => enabled,
            Target::Presence => enabled,
            Target::Stream(_) => true,
            Target::Datagrams(_) => true,
            Target::Unknown => false,
        },
{
}

/// A client may dial exactly where its address is held here and the target is of this network; each
/// refusal says which is not so.
pub proof fn law_when_a_client_may_dial(
    held: Set<ScopedVirtualAddr>,
    network: NetworkId,
    source: ClientAddr,
    target: NetworkId,
)
    ensures
        ({
            let own = held.contains(
                ScopedVirtualAddr::Client { app: source.app, device: source.device },
            );
            let verdict = node::dial_verdict(held, network, source, target);
            &&& verdict is Ok <==> own && target == network
            &&& verdict matches Err(NetworkError::ClientNotBound(who)) ==> !own && who == source
            &&& verdict matches Err(NetworkError::NetworkMismatch { local, target: t }) ==> target
                != network && local == network && t == target
            &&& verdict matches Err(reason) ==> reason is ClientNotBound || reason is NetworkMismatch
        }),
{
}

/// A listener is handed out exactly where the address is served here and has not been handed out.
pub proof fn law_when_a_listener_is_handed_out(m: Map<ServerAddr, bool>, server: ServerAddr)
    ensures
        node::take_verdict(m, server) is Ok <==> m.dom().contains(server) && m[server],
        node::take_verdict(m, server) == Err::<(), NetworkError>(
            NetworkError::ListenerAlreadyTaken(server),
        ) <==> m.dom().contains(server) && !m[server],
        node::take_verdict(m, server) == Err::<(), NetworkError>(
            NetworkError::ServerNotBound(server),
        ) <==> !m.dom().contains(server),
{
}

/// A datagram is sent exactly where datagrams are supported and it is no longer than they may be.
pub proof fn law_which_datagrams_are_sent(len: usize, maximum: Option<usize>)
    ensures
        node::datagram_verdict(len, maximum) is Ok <==> (maximum matches Some(most) && len <= most),
        node::datagram_verdict(len, maximum) == Err::<(), DatagramError>(
            DatagramError::Unsupported,
        ) <==> maximum is None,
        maximum matches Some(most) ==> (node::datagram_verdict(len, maximum) == Err::<
            (),
            DatagramError,
        >(DatagramError::TooLong { len, maximum: most }) <==> len > most),
{
}

/// Two protocol names for each server, in the servers' order, and no others.
pub proof fn law_servers_have_two_names(s: Seq<ServerAddr>)
    ensures
        node::server_names(s).len() == 2 * s.len(),
        forall|i: int|
            0 <= i < s.len() ==> node::server_names(s)[2 * i] == node::stream_name(
                (#[trigger] s[i]).app,
            ) && node::server_names(s)[2 * i + 1] == node::datagram_name(s[i].app),
    decreases s.len(),
{
    if s.len() > 0 {
        let front = s.drop_last();
        law_servers_have_two_names(front);
        assert forall|i: int| 0 <= i < s.len() implies node::server_names(s)[2 * i]
            == node::stream_name((#[trigger] s[i]).app) && node::server_names(s)[2 * i + 1]
            == node::datagram_name(s[i].app) by {
            if i < front.len() {
                assert(front[i] == s[i]);
                assert(node::server_names(s)[2 * i] == node::server_names(front)[2 * i]);
                assert(node::server_names(s)[2 * i + 1] == node::server_names(front)[2 * i + 1]);
            }
        }
    }
}

/// A server that is held here is reached by both of its names, and by no name where it is not held.
pub proof fn law_a_held_server_is_reached(
    network: NetworkId,
    held: Set<ScopedVirtualAddr>,
    server: ServerAddr,
)
    ensures
        held.contains(ScopedVirtualAddr::Server { app: server.app }) <==> node::is_target(
            node::stream_name(server.app),
            network,
            held,
            Target::Stream(server),
        ),
        held.contains(ScopedVirtualAddr::Server { app: server.app }) <==> node::is_target(
            node::datagram_name(server.app),
            network,
            held,
            Target::Datagrams(server),
        ),
        node::target_of(node::config_name(network), network, held, Target::ConfigSync),
        node::target_of(node::presence_name(network), network, held, Target::Presence),
{
}

/// A stream is opened for a client exactly where its request can be read, is for the network and for
/// the address at which it arrived, and comes from an address that is allowed. Each answer means
/// one thing, and the client understands it so.
pub proof fn law_when_a_stream_is_opened(
    request: Option<OpenStreamRequest>,
    network: NetworkId,
    local: ScopedVirtualAddr,
    allowed: Seq<ScopedVirtualAddr>,
)
    ensures
        ({
            let code = protocol::open_answer(request, network, local, allowed);
            &&& protocol::stream_outcome(code) is Ok <==> (request matches Some(r) && r.network_id
                == network && r.destination == local && allowed.contains(r.source))
            &&& code == 0 <==> (request matches Some(r) && r.network_id == network && r.destination
                == local && allowed.contains(r.source))
            &&& code == 4 <==> request is None
            &&& code == 2 <==> (request matches Some(r) && r.network_id != network)
            &&& code == 3 <==> (request matches Some(r) && r.network_id == network && r.destination
                != local)
            &&& code == 1 <==> (request matches Some(r) && r.network_id == network && r.destination
                == local && !allowed.contains(r.source))
            &&& code <= 4
            &&& code != 0 ==> protocol::stream_outcome(code) matches Err(
                NetworkError::OpenRejected(_),
            )
        }),
{
}

/// A client takes a stream as opened for one answer only, tells the refusals apart, and takes any
/// other answer as a violation.
pub proof fn law_open_answers_are_told_apart(a: u8, b: u8)
    requires
        a <= 4,
        b <= 4,
        protocol::stream_outcome(a) == protocol::stream_outcome(b),
    ensures
        a == b,
        forall|other: u8|
            other > 4 ==> (#[trigger] protocol::stream_outcome(other) matches Err(
                NetworkError::ProtocolViolation(_),
            )),
{
    reveal_strlit("not authorized");
    reveal_strlit("network mismatch");
    reveal_strlit("virtual address mismatch");
    reveal_strlit("protocol error");
    assert("not authorized"@.len() == 14);
    assert("network mismatch"@.len() == 16);
    assert("virtual address mismatch"@.len() == 24);
    assert("protocol error"@.len() == 14);
    assert("not authorized"@[0] == 'n');
    assert("protocol error"@[0] == 'p');
}

/// What comes back for a request for configurations is taken exactly where it is a batch for the
/// same network that starts at the head that was sent.
pub proof fn law_when_a_sync_reply_is_taken(b: Seq<u8>, network: NetworkId, head: ConfigHead)
    ensures
        protocol::sync_verdict(b, network, head) is Ok <==> (chain::read_batch(b) matches Ok(batch)
            && batch.network_id == network && batch.base_head == head),
        protocol::sync_verdict(b, network, head) matches Ok(batch) ==> chain::read_batch(b) == Ok::<
            chain::Batch,
            ConfigError,
        >(batch),
{
}

/// A request about presence is well formed exactly where it asks to publish a record that is not
/// empty and not too long, or asks for one without bringing anything.
pub proof fn law_which_presence_requests_are_well_formed(r: PresenceRequest)
    ensures
        protocol::presence_request_ok(r) <==> {
            ||| r.operation == 1 && 1 <= r.body_len <= 16384
            ||| r.operation == 2 && r.body_len == 0 && r.expires_at_ms == 0
        },
{
}

/// What becomes of a request about presence: one for another network or that cannot be read is
/// turned down, the others are done as they ask.
pub proof fn law_what_a_presence_request_asks(
    request: Option<PresenceRequest>,
    network: NetworkId,
)
    requires
        request matches Some(r) ==> protocol::presence_request_ok(r),
    ensures
        protocol::presence_plan(request, network) is Reject <==> request is None
            || request->Some_0.network_id != network,
        request matches Some(r) ==> (r.network_id == network ==> protocol::presence_plan(
            request,
            network,
        ) == (if r.operation == 1 {
            PresenceAction::Publish(r)
        } else {
            PresenceAction::Query(r)
        })),
{
}

/// What a client makes of a reply about presence: a record to read, or nothing to read, exactly
/// where the service found or published one; no record exactly where the service has none and was
/// asked for one; a rejection exactly where the service turned it down.
pub proof fn law_what_a_presence_reply_means(header: Seq<u8>, operation: u8)
    requires
        header.len() == 13,
        operation == 1 || operation == 2,
        wire::u32_at(header, 9) <= 16384,
    ensures
        ({
            let len = wire::u32_at(header, 9);
            let verdict = protocol::reply_verdict(header, operation);
            &&& verdict == Ok::<Option<usize>, NetworkError>(Some(len as usize)) <==> header[0] == 0
                && (operation == 1 ==> len == 0)
            &&& verdict == Ok::<Option<usize>, NetworkError>(None) <==> header[0] == 1 && operation
                == 2 && len == 0
            &&& verdict == Err::<Option<usize>, NetworkError>(NetworkError::PresenceRejected)
                <==> header[0] == 2
            &&& verdict is Ok ==> header[0] == 0 || header[0] == 1
        }),
{
}

/// A reply about presence tells by its status whether there was a record, none, or a refusal.
pub proof fn law_presence_statuses(outcome: StoreOutcome)
    ensures
        protocol::presence_status(outcome) == 0 <==> outcome is Found || outcome is Published,
        protocol::presence_status(outcome) == 1 <==> outcome is Missing,
        protocol::presence_status(outcome) == 2 <==> outcome is Failed,
{
}

/// The presence service of a configuration is the first it lists, where that names an endpoint that
/// can be one at an address that is a URL.
pub proof fn law_which_presence_service_is_used(c: Config)
    ensures
        peers::first_service(c) is Ok <==> {
            &&& c.presence_services.len() > 0
            &&& outside::endpoint_key_ok(c.presence_services[0].endpoint_id@)
            &&& outside::relay_url_canonical(c.presence_services[0].url) is Some
        },
        peers::first_service(c) matches Ok(peer) ==> {
            &&& peer.network_id == c.network_id
            &&& peer.endpoint_id.0 == c.presence_services[0].endpoint_id
            &&& peer.relay_url == outside::relay_url_canonical(c.presence_services[0].url)
            &&& peer.relay_url is Some
            &&& peer.direct_addresses.len() == 0
        },
        peers::first_service(c) == Err::<ConfigPeer, ConfigAuthorizationError>(
            ConfigAuthorizationError::NoPresenceService,
        ) <==> c.presence_services.len() == 0,
{
}

/// Members are reached through the first relay that carries application data, whatever stands
/// before it, and only where its address is a URL.
pub proof fn law_which_relay_is_used(relays: Seq<Relay>, i: int)
    requires
        0 <= i <= relays.len(),
        forall|k: int| 0 <= k < i ==> (#[trigger] relays[k]).roles.0 & 1 != 1,
        i < relays.len() ==> relays[i].roles.0 & 1 == 1,
    ensures
        peers::data_relay(relays) == (if i < relays.len() {
            outside::relay_url_canonical(relays[i].url)
        } else {
            None
        }),
    decreases i,
{
    if i > 0 {
        let rest = relays.skip(1);
        assert(relays[0].roles.0 & 1 != 1);
        assert forall|k: int| 0 <= k < i - 1 implies (#[trigger] rest[k]).roles.0 & 1 != 1 by {
            assert(rest[k] == relays[k + 1]);
        }
        if i < relays.len() {
            assert(rest[i - 1] == relays[i]);
        }
        law_which_relay_is_used(rest, i - 1);
    }
}

/// The ways to reach a peer: its direct addresses in their order, then its relay where it has one.
pub proof fn law_ways_to_reach_a_peer(direct: Seq<SocketAddress>, relay: Option<Seq<char>>)
    ensures
        ({
            let ways = peers::transports(direct, relay);
            &&& ways.len() == direct.len() + (if relay is Some {
                1int
            } else {
                0int
            })
            &&& forall|i: int|
                0 <= i < direct.len() ==> #[trigger] ways[i] == Candidate::Ip(direct[i])
            &&& relay matches Some(url) ==> ways[direct.len() as int] == Candidate::Relay(url)
        }),
{
}

/// An application is found exactly where the directory is of the network and an endpoint serves it;
/// the peer is that endpoint, to be reached by what is looked up.
pub proof fn law_when_an_application_is_found(
    directory: NetworkId,
    network: NetworkId,
    serving: Option<EndpointId>,
    app: AppAddr,
)
    ensures
        ({
            let found = peers::discovered(directory, network, serving, app);
            &&& found is Ok <==> directory == network && serving is Some
            &&& found matches Ok(peer) ==> peer.network_id == network && peer.app_addr == app && Some(
                peer.endpoint_id,
            ) == serving && peer.relay_url is None && peer.direct_addresses.len() == 0
            &&& directory == network && serving is None ==> found == Err::<Peer, NetworkError>(
                NetworkError::VirtualAddressUnresolved(app),
            )
        }),
{
}

/// An address can be dialed exactly where it is a server's and of this network.
pub proof fn law_which_addresses_are_dialed(network: NetworkId, target: VirtualAddr)
    ensures
        handle::target_verdict(network, target) is Ok <==> target.network == network
            && target.addr is Server,
        handle::target_verdict(network, target) matches Ok(app) ==> target.addr
            == (ScopedVirtualAddr::Server { app }),
        handle::target_verdict(network, target) == Err::<AppAddr, NetworkHandleError>(
            NetworkHandleError::TargetMustBeServer,
        ) <==> target.network == network && target.addr is Client,
        target.network != network ==> handle::target_verdict(network, target) == Err::<
            AppAddr,
            NetworkHandleError,
        >(NetworkHandleError::NetworkMismatch { local: network, target: target.network }),
{
}

/// An application is reached at the endpoint whose presence serves it; only where there is none, at
/// the endpoint that the configuration of the directory's network puts behind it.
pub proof fn law_where_an_application_is_reached(
    serving: Option<EndpointId>,
    directory: NetworkId,
    c: Config,
    app: AppAddr,
    now_ms: u64,
    e: EndpointId,
)
    ensures
        handle::behind(serving, directory, c, app, now_ms) == Ok::<EndpointId, NetworkHandleError>(e)
            <==> serving == Some(e) || (serving is None && c.network_id == directory
            && discovery::authorize::endpoint_behind(
            c,
            ScopedVirtualAddr::Server { app },
            now_ms,
        ) == Ok::<EndpointId, DiscoveryError>(e)),
{
}

/// An identity is restored exactly where its record can be read, its secret has the length of one
/// and the public key that the record names, and the device is that of the endpoint in this network
/// and application. Then it has the secret, and the device and name of the record.
pub proof fn law_when_an_identity_is_restored(
    record: Seq<u8>,
    secret: Seq<u8>,
    network: NetworkId,
    app: AppAddr,
)
    ensures
        ({
            let restored = identity::restore_verdict(record, secret, network, app);
            &&& restored is Ok <==> {
                &&& identity::read_record(record) matches Ok(r)
                &&& secret.len() == 32
                &&& r.endpoint_id == identity::endpoint_of(secret)
                &&& r.device_id == keys::device_id_of(network, app, r.endpoint_id@)
            }
            &&& restored matches Ok(i) ==> i.secret_key == secret && (identity::read_record(
                record,
            ) matches Ok(r) && i.device_id == r.device_id && i.secret_id == r.secret_id)
            &&& restored == Err::<Identity, IdentityError>(IdentityError::SecretPublicKeyMismatch)
                ==> (identity::read_record(record) matches Ok(r) && r.endpoint_id
                != identity::endpoint_of(secret))
            &&& restored == Err::<Identity, IdentityError>(IdentityError::DeviceIdMismatch) ==> (
            identity::read_record(record) matches Ok(r) && r.device_id != keys::device_id_of(
                network,
                app,
                r.endpoint_id@,
            ))
        }),
{
}

/// A request is made exactly where no public key and no number in it would be blank. It belongs to
/// the network, has the public halves of the secrets and the identity of the signing key, and its
/// binding is the first of the endpoint and expires with it.
pub proof fn law_what_a_request_says(
    network: NetworkId,
    signing: Seq<u8>,
    encryption: Seq<u8>,
    endpoint: Seq<u8>,
    nonce: [u8; 32],
    roles: MemberRoles,
    expires_at_ms: u64,
)
    ensures
        ({
            let made = membership::composed(
                network,
                signing,
                encryption,
                endpoint,
                nonce,
                roles,
                expires_at_ms,
            );
            &&& made matches Ok(p) ==> {
                &&& p.request.payload.network_id == network
                &&& p.request.payload.member_id == keys::member_id_of(
                    network,
                    outside::ed25519_public(signing),
                )
                &&& p.request.payload.signing_public_key == wire::array_of::<32>(
                    outside::ed25519_public(signing),
                )
                &&& p.request.payload.encryption_public_key == wire::array_of::<32>(
                    outside::hpke_public(encryption),
                )
                &&& p.request.payload.endpoint_id == wire::array_of::<32>(
                    outside::endpoint_public(endpoint),
                )
                &&& p.request.payload.nonce == nonce
                &&& p.request.payload.requested_roles == roles
                &&& p.request.payload.expires_at_ms == expires_at_ms
                &&& p.endpoint_binding.payload.network_id == network
                &&& p.endpoint_binding.payload.member_id == p.request.payload.member_id
                &&& p.endpoint_binding.payload.endpoint_id == p.request.payload.endpoint_id
                &&& p.endpoint_binding.payload.sequence == 0
                &&& p.endpoint_binding.payload.expires_at_ms == expires_at_ms
            }
            &&& made is Err <==> wire::array_of::<32>(outside::hpke_public(encryption))@
                == wire::zeros(32) || wire::array_of::<32>(outside::endpoint_public(endpoint))@
                == wire::zeros(32) || nonce@ == wire::zeros(32)
        }),
{
}

/// A node that is configured by a network's configuration is of that network, holds what it was
/// given, may use direct paths, serves neither configurations nor presence by itself, accepts the
/// two names of each server it holds, and lets in the clients and peers that the configuration
/// gives it. Its relay is the first of those of the configuration.
pub proof fn law_how_a_node_is_configured(
    c: Config,
    secret: [u8; 32],
    held: Set<ScopedVirtualAddr>,
    made: NodeConfig,
    server: ServerAddr,
)
    requires
        node::configured_node(c, secret, held, Ok(made)),
    ensures
        made.secret_key == secret,
        made.network_id == c.network_id,
        made.local_bindings@ == held,
        made.enable_direct_paths,
        !made.serves_config && !made.serves_presence,
        made.allowed_presence_peers@.len() == 0,
        made.relay_url is None <==> made.relay_urls@.len() == 0,
        made.relay_url matches Some(url) ==> url@ == made.relay_urls@[0]@,
        held.contains(ScopedVirtualAddr::Server { app: server.app }) ==> node::names(
            made.accept_alpns@,
        ).contains(node::stream_name(server.app)) && node::names(made.accept_alpns@).contains(
            node::datagram_name(server.app),
        ),
{
    let s = choose|s: Seq<ServerAddr>|
        #[trigger] node::lists_servers(s, held) && node::names(made.accept_alpns@)
            == node::server_names(s);
    law_servers_have_two_names(s);
    if held.contains(ScopedVirtualAddr::Server { app: server.app }) {
        assert(s.contains(server));
        let i = choose|i: int| 0 <= i < s.len() && s[i] == server;
        assert(node::server_names(s)[2 * i] == node::stream_name(server.app));
        assert(node::server_names(s)[2 * i + 1] == node::datagram_name(server.app));
    }
}

/// An endpoint is a peer exactly where a binding that can be read names it, and it can be one.
pub proof fn law_which_endpoints_are_peers(raw: Seq<Seq<u8>>, e: EndpointId)
    ensures
        peers::named_endpoint(raw, e) <==> outside::endpoint_key_ok(e.0@) && exists|i: int|
            0 <= i < raw.len() && (endpoint::read_signed_endpoint(
                #[trigger] raw[i],
            ) matches Some(b) && b.payload.endpoint_id == e.0),
{
    if peers::named_endpoint(raw, e) {
        let i = choose|i: int| 0 <= i < raw.len() && peers::names_endpoint(#[trigger] raw[i], e);
        assert(endpoint::read_signed_endpoint(raw[i]) is Some);
    }
    if outside::endpoint_key_ok(e.0@) && exists|i: int|
        0 <= i < raw.len() && (endpoint::read_signed_endpoint(
            #[trigger] raw[i],
        ) matches Some(b) && b.payload.endpoint_id == e.0) {
        let i = choose|i: int|
            0 <= i < raw.len() && (endpoint::read_signed_endpoint(
                #[trigger] raw[i],
            ) matches Some(b) && b.payload.endpoint_id == e.0);
        assert(peers::names_endpoint(raw[i], e));
    }
}

/// The endpoint that serves an address is the one to which the directory's records lead now.
pub proof fn law_who_serves(
    d: &discovery::directory::PresenceDirectory,
    address: ScopedVirtualAddr,
    now_ms: u64,
)
    ensures
        peers::serving(d, address, now_ms) == discovery::cache::resolved(
            d.records(),
            d.network(),
            address,
            now_ms,
        ),
{
}

} // verus!
