//! What a configuration allows members, endpoints and virtual addresses.
use crate::config::snapshot;
use crate::config::snapshot::{Config, NetworkConfigV1};
use crate::config::validate;
use crate::config::validate::ValidatedNetworkConfig;
use crate::crypto::app;
use crate::crypto::app::{AppBinding, AppBindingPayload, AppRole, Binding};
use crate::crypto::endpoint;
use crate::crypto::endpoint::{EndpointBinding, EndpointBindingPayload};
use crate::crypto::keys::{CertificateError, Signed};
use crate::crypto::member;
use crate::crypto::member::{MemberCertificate, MemberCertificatePayload};
use crate::discovery::presence::DiscoveryError;
use crate::identifiers::{EndpointId, MemberId, ScopedVirtualAddr};
use crate::outside;
use crate::outside::endpoint_id_ok;
use crate::wire;
use crate::wire::arrays_equal;
use vstd::prelude::*;

verus! {

/// The first member that can be read and signs with this key.
pub open spec fn member_signing(members: Seq<Seq<u8>>, key: Seq<u8>) -> Option<
    Signed<MemberCertificatePayload>,
>
    decreases members.len(),
{
    if members.len() == 0 {
        None
    } else {
        match member::read_signed_member(members[0]) {
            Some(c) => if c.payload.signing_public_key@ == key {
                Some(c)
            } else {
                member_signing(members.skip(1), key)
            },
            None => member_signing(members.skip(1), key),
        }
    }
}

/// The first member that can be read and has this identity.
pub open spec fn member_named(members: Seq<Seq<u8>>, id: MemberId) -> Option<
    Signed<MemberCertificatePayload>,
>
    decreases members.len(),
{
    if members.len() == 0 {
        None
    } else {
        match member::read_signed_member(members[0]) {
            Some(c) => if c.payload.member_id == id {
                Some(c)
            } else {
                member_named(members.skip(1), id)
            },
            None => member_named(members.skip(1), id),
        }
    }
}

/// The member that is found by a key signs with it.
pub proof fn lemma_member_signing(members: Seq<Seq<u8>>, key: Seq<u8>)
    ensures
        member_signing(members, key) matches Some(c) ==> c.payload.signing_public_key@ == key,
    decreases members.len(),
{
    if members.len() > 0 {
        lemma_member_signing(members.skip(1), key);
    }
}

/// A search by identity finds the one member that has it.
proof fn lemma_named_at(members: Seq<Seq<u8>>, i: int)
    requires
        0 <= i < members.len(),
        forall|j: int|
            0 <= j < members.len() ==> member::read_signed_member(#[trigger] members[j]) is Some,
        forall|a: int, b: int|
            0 <= a < b < members.len() ==> member::read_signed_member(
                #[trigger] members[a],
            )->Some_0.payload.member_id != member::read_signed_member(
                #[trigger] members[b],
            )->Some_0.payload.member_id,
    ensures
        member_named(
            members,
            member::read_signed_member(members[i])->Some_0.payload.member_id,
        ) == member::read_signed_member(members[i]),
    decreases members.len(),
{
    if i > 0 {
        let rest = members.skip(1);
        assert(rest[i - 1] == members[i]);
        assert forall|j: int| 0 <= j < rest.len() implies member::read_signed_member(
            #[trigger] rest[j],
        ) is Some by {
            assert(rest[j] == members[j + 1]);
        }
        assert forall|a: int, b: int| 0 <= a < b < rest.len() implies member::read_signed_member(
            #[trigger] rest[a],
        )->Some_0.payload.member_id != member::read_signed_member(
            #[trigger] rest[b],
        )->Some_0.payload.member_id by {
            assert(rest[a] == members[a + 1] && rest[b] == members[b + 1]);
        }
        assert(member::read_signed_member(members[0]) is Some);
        lemma_named_at(rest, i - 1);
    }
}

/// Where the member that signs with a key stands.
proof fn lemma_signing_at(members: Seq<Seq<u8>>, key: Seq<u8>) -> (i: int)
    requires
        member_signing(members, key) is Some,
    ensures
        0 <= i < members.len(),
        member::read_signed_member(members[i]) == member_signing(members, key),
    decreases members.len(),
{
    match member::read_signed_member(members[0]) {
        Some(c) => if c.payload.signing_public_key@ == key {
            0
        } else {
            lemma_signing_at(members.skip(1), key) + 1
        },
        None => lemma_signing_at(members.skip(1), key) + 1,
    }
}

/// In an accepted configuration the member that signs with a key is the one with its identity.
pub proof fn lemma_signer_is_named(c: Config, key: Seq<u8>)
    requires
        validate::was_accepted(c),
    ensures
        member_signing(c.members, key) matches Some(m) ==> member_named(
            c.members,
            m.payload.member_id,
        ) == Some(m),
{
    if member_signing(c.members, key) is Some {
        let (root, now_ms) = choose|root: Seq<u8>, now_ms: u64| #[trigger]
            validate::accepted_at(c, root, now_ms);
        validate::law_accepted_members_are_vouched_for(c, root, c.network_id, now_ms);
        let ctx = validate::context(c, root, c.network_id, now_ms);
        let members = validate::members_of(ctx, validate::admins_of(ctx, c)->Ok_0, c)->Ok_0;
        assert forall|j: int| 0 <= j < c.members.len() implies member::read_signed_member(
            #[trigger] c.members[j],
        ) is Some && member::read_signed_member(c.members[j])->Some_0.payload == members[j] by {
        }
        assert forall|a: int, b: int| 0 <= a < b < c.members.len() implies member::read_signed_member(
            #[trigger] c.members[a],
        )->Some_0.payload.member_id != member::read_signed_member(
            #[trigger] c.members[b],
        )->Some_0.payload.member_id by {
            assert(members[a].member_id != members[b].member_id);
        }
        let i = lemma_signing_at(c.members, key);
        lemma_named_at(c.members, i);
    }
}

/// Finds the member that signs with a key.
pub(crate) fn member_for_signer(config: &ValidatedNetworkConfig, public_key: &[u8; 32]) -> (found: Result<
    MemberCertificate,
    DiscoveryError,
>)
    ensures
        match member_signing(config@.members, public_key@) {
            Some(c) => found matches Ok(found) && found@ == c,
            None => found matches Err(error) && error == DiscoveryError::NotAuthorized,
        },
{
    let members: &Vec<Vec<u8>> = &config.as_config().members;
    let ghost all = config@.members;
    let mut i: usize = 0;
    assert(all.skip(0) =~= all);
    while i < members.len()
        invariant
            i <= members.len(),
            all == snapshot::blobs(members@),
            member_signing(config@.members, public_key@) == member_signing(
                all.skip(i as int),
                public_key@,
            ),
        decreases members.len() - i,
    {
        proof {
            assert(all.skip(i as int)[0] == members@[i as int]@);
            assert(all.skip(i as int).skip(1) =~= all.skip(i + 1));
        }
        match MemberCertificate::from_bytes(members[i].as_slice()) {
            Ok(certificate) => {
                let ghost held = certificate@.payload.signing_public_key;
                if arrays_equal(&certificate.payload().signing_public_key, public_key) {
                    return Ok(certificate);
                }
                proof {
                    if held@ == public_key@ {
                        wire::lemma_array_ext(held, *public_key);
                    }
                }
            },
            Err(_) => {},
        }
        i = i + 1;
    }
    Err(DiscoveryError::NotAuthorized)
}

/// Finds the member with an identity.
pub(crate) fn member_by_id(config: &ValidatedNetworkConfig, member_id: MemberId) -> (found: Result<
    MemberCertificate,
    DiscoveryError,
>)
    ensures
        match member_named(config@.members, member_id) {
            Some(c) => found matches Ok(found) && found@ == c,
            None => found matches Err(error) && error == DiscoveryError::NotAuthorized,
        },
{
    let members: &Vec<Vec<u8>> = &config.as_config().members;
    let ghost all = config@.members;
    let mut i: usize = 0;
    assert(all.skip(0) =~= all);
    while i < members.len()
        invariant
            i <= members.len(),
            all == snapshot::blobs(members@),
            member_named(config@.members, member_id) == member_named(all.skip(i as int), member_id),
        decreases members.len() - i,
    {
        proof {
            assert(all.skip(i as int)[0] == members@[i as int]@);
            assert(all.skip(i as int).skip(1) =~= all.skip(i + 1));
        }
        match MemberCertificate::from_bytes(members[i].as_slice()) {
            Ok(certificate) => {
                if certificate.payload().member_id == member_id {
                    return Ok(certificate);
                }
            },
            Err(_) => {},
        }
        i = i + 1;
    }
    Err(DiscoveryError::NotAuthorized)
}

/// The address that a binding gives its member.
pub open spec fn binding_address(b: Binding) -> Option<ScopedVirtualAddr> {
    match (b.role, b.device_id) {
        (AppRole::Server, _) => Some(ScopedVirtualAddr::Server { app: b.app_addr }),
        (AppRole::Client, Some(device)) => Some(
            ScopedVirtualAddr::Client { app: b.app_addr, device },
        ),
        (AppRole::Client, None) => None,
    }
}

/// The address that a binding gives its member.
pub(crate) fn address_of(b: &AppBindingPayload) -> (address: Option<ScopedVirtualAddr>)
    ensures
        address == binding_address(b@),
{
    match (b.role, b.device_id) {
        (AppRole::Server, _) => Some(ScopedVirtualAddr::Server { app: b.app_addr }),
        (AppRole::Client, Some(device)) => Some(
            ScopedVirtualAddr::Client { app: b.app_addr, device },
        ),
        (AppRole::Client, None) => None,
    }
}

/// Whether a binding gives the member this endpoint now.
pub open spec fn gives_endpoint(raw: Seq<u8>, id: MemberId, endpoint: EndpointId, now_ms: u64) -> bool {
    endpoint::read_signed_endpoint(raw) matches Some(b) && b.payload.member_id == id
        && b.payload.endpoint_id == endpoint.0 && b.payload.expires_at_ms > now_ms
}

/// Whether a binding gives the member this address now.
pub open spec fn gives_address(
    raw: Seq<u8>,
    id: MemberId,
    addr: ScopedVirtualAddr,
    now_ms: u64,
) -> bool {
    app::read_signed_binding(raw) matches Ok(b) && b.payload.subject == id && b.payload.expires_at_ms
        > now_ms && binding_address(b.payload) == Some(addr)
}

/// Whether a configuration gives a member both an endpoint and an address now.
pub open spec fn authorized(
    c: Config,
    id: MemberId,
    endpoint: EndpointId,
    addr: ScopedVirtualAddr,
    now_ms: u64,
) -> bool {
    &&& exists|i: int|
        0 <= i < c.endpoint_bindings.len() && gives_endpoint(
            #[trigger] c.endpoint_bindings[i],
            id,
            endpoint,
            now_ms,
        )
    &&& exists|i: int|
        0 <= i < c.app_bindings.len() && gives_address(
            #[trigger] c.app_bindings[i],
            id,
            addr,
            now_ms,
        )
}

fn endpoint_allowed(raw: &Vec<Vec<u8>>, id: MemberId, endpoint: EndpointId, now_ms: u64) -> (allowed: bool)
    ensures
        allowed == exists|i: int|
            0 <= i < snapshot::blobs(raw@).len() && gives_endpoint(
                #[trigger] snapshot::blobs(raw@)[i],
                id,
                endpoint,
                now_ms,
            ),
{
    let ghost all = snapshot::blobs(raw@);
    let mut i: usize = 0;
    while i < raw.len()
        invariant
            i <= raw.len(),
            all == snapshot::blobs(raw@),
            forall|j: int| 0 <= j < i ==> !gives_endpoint(#[trigger] all[j], id, endpoint, now_ms),
        decreases raw.len() - i,
    {
        assert(all[i as int] == raw@[i as int]@);
        match EndpointBinding::from_bytes(raw[i].as_slice()) {
            Ok(binding) => {
                let payload: &EndpointBindingPayload = binding.payload();
                if payload.member_id == id && arrays_equal(&payload.endpoint_id, &endpoint.0)
                    && payload.expires_at_ms > now_ms {
                    assert(gives_endpoint(all[i as int], id, endpoint, now_ms));
                    return true;
                }
            },
            Err(_) => {},
        }
        i = i + 1;
    }
    false
}

fn address_allowed(raw: &Vec<Vec<u8>>, id: MemberId, addr: ScopedVirtualAddr, now_ms: u64) -> (allowed: bool)
    ensures
        allowed == exists|i: int|
            0 <= i < snapshot::blobs(raw@).len() && gives_address(
                #[trigger] snapshot::blobs(raw@)[i],
                id,
                addr,
                now_ms,
            ),
{
    let ghost all = snapshot::blobs(raw@);
    let mut i: usize = 0;
    while i < raw.len()
        invariant
            i <= raw.len(),
            all == snapshot::blobs(raw@),
            forall|j: int| 0 <= j < i ==> !gives_address(#[trigger] all[j], id, addr, now_ms),
        decreases raw.len() - i,
    {
        assert(all[i as int] == raw@[i as int]@);
        match AppBinding::from_bytes(raw[i].as_slice()) {
            Ok(binding) => {
                let payload: &AppBindingPayload = binding.payload();
                if payload.subject == id && payload.expires_at_ms > now_ms {
                    match address_of(payload) {
                        Some(given) => {
                            if given == addr {
                                assert(gives_address(all[i as int], id, addr, now_ms));
                                return true;
                            }
                        },
                        None => {},
                    }
                }
            },
            Err(_) => {},
        }
        i = i + 1;
    }
    false
}

/// Checks that a configuration gives a member both an endpoint and an address now.
pub fn authorize_endpoint_and_addr(
    config: &ValidatedNetworkConfig,
    member_id: MemberId,
    endpoint_id: EndpointId,
    virtual_addr: ScopedVirtualAddr,
    now_ms: u64,
) -> (allowed: Result<(), DiscoveryError>)
    ensures
        allowed == (if authorized(config@, member_id, endpoint_id, virtual_addr, now_ms) {
            Ok(())
        } else {
            Err::<(), DiscoveryError>(DiscoveryError::NotAuthorized)
        }),
{
    let inner: &NetworkConfigV1 = config.as_config();
    if endpoint_allowed(&inner.endpoint_bindings, member_id, endpoint_id, now_ms) && address_allowed(
        &inner.app_bindings,
        member_id,
        virtual_addr,
        now_ms,
    ) {
        Ok(())
    } else {
        Err(DiscoveryError::NotAuthorized)
    }
}

/// The members that bindings give an address now, in order, or why that cannot be told.
pub open spec fn holders(raw: Seq<Seq<u8>>, addr: ScopedVirtualAddr, now_ms: u64) -> Result<
    Seq<MemberId>,
    DiscoveryError,
>
    decreases raw.len(),
{
    if raw.len() == 0 {
        Ok(Seq::empty())
    } else {
        match holders(raw.drop_last(), addr, now_ms) {
            Err(e) => Err(e),
            Ok(front) => match app::read_signed_binding(raw.last()) {
                Err(e) => Err(DiscoveryError::Crypto(e)),
                Ok(b) => if binding_address(b.payload) == Some(addr) && now_ms
                    < b.payload.expires_at_ms {
                    Ok(front.push(b.payload.subject))
                } else {
                    Ok(front)
                },
            },
        }
    }
}

/// The endpoints that bindings give a member now, in order, or why that cannot be told.
pub open spec fn endpoints_of(raw: Seq<Seq<u8>>, id: MemberId, now_ms: u64) -> Result<
    Seq<EndpointId>,
    DiscoveryError,
>
    decreases raw.len(),
{
    if raw.len() == 0 {
        Ok(Seq::empty())
    } else {
        match endpoints_of(raw.drop_last(), id, now_ms) {
            Err(e) => Err(e),
            Ok(front) => match endpoint::read_signed_endpoint(raw.last()) {
                None => Err(DiscoveryError::Crypto(CertificateError::MalformedWire)),
                Some(b) => if b.payload.member_id == id && now_ms < b.payload.expires_at_ms {
                    if outside::endpoint_key_ok(b.payload.endpoint_id@) {
                        Ok(front.push(EndpointId(b.payload.endpoint_id)))
                    } else {
                        Err(DiscoveryError::MalformedEndpoint)
                    }
                } else {
                    Ok(front)
                },
            },
        }
    }
}

/// What a list holds, where it holds one thing only.
pub open spec fn sole<T>(s: Seq<T>) -> Option<T> {
    if s.len() > 0 && forall|i: int| 0 <= i < s.len() ==> #[trigger] s[i] == s[0] {
        Some(s[0])
    } else {
        None
    }
}

/// The endpoint behind an address: the only endpoint of the only member that holds the address.
pub open spec fn endpoint_behind(c: Config, addr: ScopedVirtualAddr, now_ms: u64) -> Result<
    EndpointId,
    DiscoveryError,
> {
    match holders(c.app_bindings, addr, now_ms) {
        Err(e) => Err(e),
        Ok(members) => match sole(members) {
            None => Err(DiscoveryError::NotAuthorized),
            Some(id) => match endpoints_of(c.endpoint_bindings, id, now_ms) {
                Err(e) => Err(e),
                Ok(endpoints) => match sole(endpoints) {
                    None => Err(DiscoveryError::NotAuthorized),
                    Some(endpoint) => Ok(endpoint),
                },
            },
        },
    }
}

proof fn lemma_holders_error(raw: Seq<Seq<u8>>, addr: ScopedVirtualAddr, now_ms: u64, i: int)
    requires
        0 <= i <= raw.len(),
        holders(raw.take(i), addr, now_ms) is Err,
    ensures
        holders(raw, addr, now_ms) == holders(raw.take(i), addr, now_ms),
    decreases raw.len() - i,
{
    if i < raw.len() {
        assert(raw.take(i + 1).drop_last() =~= raw.take(i));
        lemma_holders_error(raw, addr, now_ms, i + 1);
    } else {
        assert(raw.take(i) =~= raw);
    }
}

proof fn lemma_endpoints_error(raw: Seq<Seq<u8>>, id: MemberId, now_ms: u64, i: int)
    requires
        0 <= i <= raw.len(),
        endpoints_of(raw.take(i), id, now_ms) is Err,
    ensures
        endpoints_of(raw, id, now_ms) == endpoints_of(raw.take(i), id, now_ms),
    decreases raw.len() - i,
{
    if i < raw.len() {
        assert(raw.take(i + 1).drop_last() =~= raw.take(i));
        lemma_endpoints_error(raw, id, now_ms, i + 1);
    } else {
        assert(raw.take(i) =~= raw);
    }
}

fn address_holders(raw: &Vec<Vec<u8>>, addr: ScopedVirtualAddr, now_ms: u64) -> (members: Result<
    Vec<MemberId>,
    DiscoveryError,
>)
    ensures
        match holders(snapshot::blobs(raw@), addr, now_ms) {
            Ok(all) => members matches Ok(members) && members@ == all,
            Err(reason) => members matches Err(error) && error == reason,
        },
{
    let ghost all = snapshot::blobs(raw@);
    let mut members: Vec<MemberId> = Vec::new();
    let mut i: usize = 0;
    assert(all.take(0) =~= Seq::<Seq<u8>>::empty());
    assert(members@ =~= Seq::<MemberId>::empty());
    while i < raw.len()
        invariant
            i <= raw.len(),
            all == snapshot::blobs(raw@),
            holders(all.take(i as int), addr, now_ms) == Ok::<Seq<MemberId>, DiscoveryError>(
                members@,
            ),
        decreases raw.len() - i,
    {
        proof {
            assert(all.take(i + 1).drop_last() =~= all.take(i as int));
            assert(all.take(i + 1).last() == raw@[i as int]@);
            if holders(all.take(i + 1), addr, now_ms) is Err {
                lemma_holders_error(all, addr, now_ms, i + 1);
            }
        }
        match AppBinding::from_bytes(raw[i].as_slice()) {
            Ok(binding) => {
                let payload: &AppBindingPayload = binding.payload();
                let given: bool = match address_of(payload) {
                    Some(given) => given == addr,
                    None => false,
                };
                if given && now_ms < payload.expires_at_ms {
                    members.push(payload.subject);
                }
            },
            Err(error) => return Err(DiscoveryError::Crypto(error)),
        }
        i = i + 1;
    }
    proof {
        assert(all.take(i as int) =~= all);
    }
    Ok(members)
}

fn member_endpoints(raw: &Vec<Vec<u8>>, id: MemberId, now_ms: u64) -> (endpoints: Result<
    Vec<EndpointId>,
    DiscoveryError,
>)
    ensures
        match endpoints_of(snapshot::blobs(raw@), id, now_ms) {
            Ok(all) => endpoints matches Ok(endpoints) && endpoints@ == all,
            Err(reason) => endpoints matches Err(error) && error == reason,
        },
{
    let ghost all = snapshot::blobs(raw@);
    let mut endpoints: Vec<EndpointId> = Vec::new();
    let mut i: usize = 0;
    assert(all.take(0) =~= Seq::<Seq<u8>>::empty());
    assert(endpoints@ =~= Seq::<EndpointId>::empty());
    while i < raw.len()
        invariant
            i <= raw.len(),
            all == snapshot::blobs(raw@),
            endpoints_of(all.take(i as int), id, now_ms) == Ok::<Seq<EndpointId>, DiscoveryError>(
                endpoints@,
            ),
        decreases raw.len() - i,
    {
        proof {
            assert(all.take(i + 1).drop_last() =~= all.take(i as int));
            assert(all.take(i + 1).last() == raw@[i as int]@);
            if endpoints_of(all.take(i + 1), id, now_ms) is Err {
                lemma_endpoints_error(all, id, now_ms, i + 1);
            }
        }
        match EndpointBinding::from_bytes(raw[i].as_slice()) {
            Ok(binding) => {
                let payload: &EndpointBindingPayload = binding.payload();
                if payload.member_id == id && now_ms < payload.expires_at_ms {
                    if !endpoint_id_ok(&payload.endpoint_id) {
                        return Err(DiscoveryError::MalformedEndpoint);
                    }
                    endpoints.push(EndpointId(payload.endpoint_id));
                }
            },
            Err(error) => return Err(DiscoveryError::Crypto(error)),
        }
        i = i + 1;
    }
    proof {
        assert(all.take(i as int) =~= all);
    }
    Ok(endpoints)
}

/// What a list holds, where it holds one thing only.
fn sole_value<T: Copy + PartialEq>(values: &Vec<T>) -> (value: Option<T>)
    requires
        vstd::laws_eq::obeys_concrete_eq::<T>(),
    ensures
        value == sole(values@),
{
    if values.len() == 0 {
        return None;
    }
    let first: T = values[0];
    let mut i: usize = 1;
    while i < values.len()
        invariant
            1 <= i <= values.len(),
            first == values@[0],
            forall|j: int| 0 <= j < i ==> values@[j] == first,
            vstd::laws_eq::obeys_concrete_eq::<T>(),
        decreases values.len() - i,
    {
        proof {
            reveal(vstd::laws_eq::obeys_concrete_eq);
        }
        if values[i] != first {
            assert(values@[i as int] != values@[0]);
            return None;
        }
        i = i + 1;
    }
    Some(first)
}

/// The endpoint that a configuration puts behind an address, before anything is known of where
/// the endpoint is.
pub fn configured_endpoint(
    config: &ValidatedNetworkConfig,
    address: ScopedVirtualAddr,
    now_ms: u64,
) -> (endpoint: Result<EndpointId, DiscoveryError>)
    ensures
        endpoint == endpoint_behind(config@, address, now_ms),
{
    proof {
        reveal(vstd::laws_eq::obeys_concrete_eq);
    }
    let inner: &NetworkConfigV1 = config.as_config();
    let members: Vec<MemberId> = address_holders(&inner.app_bindings, address, now_ms)?;
    let id: MemberId = match sole_value(&members) {
        Some(id) => id,
        None => return Err(DiscoveryError::NotAuthorized),
    };
    let endpoints: Vec<EndpointId> = member_endpoints(&inner.endpoint_bindings, id, now_ms)?;
    match sole_value(&endpoints) {
        Some(endpoint) => Ok(endpoint),
        None => Err(DiscoveryError::NotAuthorized),
    }
}

proof fn lemma_holder_has_binding(
    raw: Seq<Seq<u8>>,
    addr: ScopedVirtualAddr,
    now_ms: u64,
    id: MemberId,
)
    requires
        holders(raw, addr, now_ms) matches Ok(members) && members.contains(id),
    ensures
        exists|i: int|
            0 <= i < raw.len() && gives_address(#[trigger] raw[i], id, addr, now_ms),
    decreases raw.len(),
{
    if raw.len() > 0 {
        let front = holders(raw.drop_last(), addr, now_ms)->Ok_0;
        if front.contains(id) {
            lemma_holder_has_binding(raw.drop_last(), addr, now_ms, id);
            let i = choose|i: int|
                0 <= i < raw.drop_last().len() && gives_address(
                    #[trigger] raw.drop_last()[i],
                    id,
                    addr,
                    now_ms,
                );
            assert(raw[i] == raw.drop_last()[i]);
        } else {
            assert(gives_address(raw[raw.len() - 1], id, addr, now_ms));
        }
    }
}

proof fn lemma_endpoint_has_binding(
    raw: Seq<Seq<u8>>,
    id: MemberId,
    now_ms: u64,
    endpoint: EndpointId,
)
    requires
        endpoints_of(raw, id, now_ms) matches Ok(endpoints) && endpoints.contains(endpoint),
    ensures
        exists|i: int|
            0 <= i < raw.len() && gives_endpoint(#[trigger] raw[i], id, endpoint, now_ms),
    decreases raw.len(),
{
    if raw.len() > 0 {
        let front = endpoints_of(raw.drop_last(), id, now_ms)->Ok_0;
        if front.contains(endpoint) {
            lemma_endpoint_has_binding(raw.drop_last(), id, now_ms, endpoint);
            let i = choose|i: int|
                0 <= i < raw.drop_last().len() && gives_endpoint(
                    #[trigger] raw.drop_last()[i],
                    id,
                    endpoint,
                    now_ms,
                );
            assert(raw[i] == raw.drop_last()[i]);
        } else {
            assert(gives_endpoint(raw[raw.len() - 1], id, endpoint, now_ms));
        }
    }
}

/// The endpoint that a configuration puts behind an address belongs to a member that it gives
/// both.
pub proof fn law_configured_endpoint_is_authorized(c: Config, addr: ScopedVirtualAddr, now_ms: u64)
    requires
        endpoint_behind(c, addr, now_ms) is Ok,
    ensures
        exists|id: MemberId| #[trigger]
            authorized(c, id, endpoint_behind(c, addr, now_ms)->Ok_0, addr, now_ms),
{
    let members = holders(c.app_bindings, addr, now_ms)->Ok_0;
    let id = sole(members)->Some_0;
    let endpoints = endpoints_of(c.endpoint_bindings, id, now_ms)->Ok_0;
    let endpoint = endpoint_behind(c, addr, now_ms)->Ok_0;
    assert(members.contains(members[0]));
    assert(endpoints.contains(endpoints[0]));
    lemma_holder_has_binding(c.app_bindings, addr, now_ms, id);
    lemma_endpoint_has_binding(c.endpoint_bindings, id, now_ms, endpoint);
    assert(authorized(c, id, endpoint, addr, now_ms));
}

} // verus!
