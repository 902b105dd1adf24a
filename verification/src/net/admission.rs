//! Who is admitted where, and what a configuration gives whom, in terms of its credentials.
use crate::config::snapshot::{Config, Relay};
use crate::crypto::app;
use crate::crypto::endpoint;
use crate::crypto::member;
use crate::discovery;
use crate::identifiers::{AppAddr, ClientAddr, EndpointId, MemberId, ScopedVirtualAddr};
use crate::net::authorize;
use crate::net::authorize::{ConfigAuthorizations, Derived};
use crate::net::peers::ConfigAuthorizationError;
use crate::outside;
use vstd::prelude::*;

verus! {

/// Whether a binding names an endpoint and a member.
pub open spec fn names(raw: Seq<u8>, m: MemberId, e: EndpointId) -> bool {
    endpoint::read_signed_endpoint(raw) matches Some(b) && b.payload.member_id == m
        && b.payload.endpoint_id == e.0
}

/// Whether a binding names an endpoint and a member, and has not expired.
pub open spec fn names_now(raw: Seq<u8>, m: MemberId, e: EndpointId, now_ms: u64) -> bool {
    endpoint::read_signed_endpoint(raw) matches Some(b) && b.payload.member_id == m
        && b.payload.endpoint_id == e.0 && now_ms < b.payload.expires_at_ms
}

/// Whether a binding gives a member the server side of an application, or the client side at a
/// device.
pub open spec fn gives(raw: Seq<u8>, m: MemberId, a: ScopedVirtualAddr) -> bool {
    app::read_signed_binding(raw) matches Ok(b) && b.payload.subject == m && match a {
        ScopedVirtualAddr::Server { app: used } => b.payload.role == app::AppRole::Server && b.payload.app_addr
            == used,
        ScopedVirtualAddr::Client { app: used, device } => b.payload.role == app::AppRole::Client
            && b.payload.app_addr == used && b.payload.device_id == Some(device),
    }
}

/// Whether a binding gives an address, and has not expired.
pub open spec fn gives_now(raw: Seq<u8>, m: MemberId, a: ScopedVirtualAddr, now_ms: u64) -> bool {
    gives(raw, m, a) && now_ms < app::read_signed_binding(raw)->Ok_0.payload.expires_at_ms
}

proof fn lemma_bound_member(raw: Seq<Seq<u8>>, endpoint: EndpointId, now_ms: u64)
    ensures
        match authorize::bound_member(raw, endpoint, now_ms) {
            Some(id) => exists|i: int|
                0 <= i < raw.len() && names_now(#[trigger] raw[i], id, endpoint, now_ms) && forall|
                    k: int,
                    other: MemberId,
                |
                    0 <= k < i ==> !#[trigger] names_now(raw[k], other, endpoint, now_ms),
            None => forall|k: int, other: MemberId|
                0 <= k < raw.len() ==> !#[trigger] names_now(raw[k], other, endpoint, now_ms),
        },
    decreases raw.len(),
{
    if raw.len() > 0 {
        let rest = raw.skip(1);
        lemma_bound_member(rest, endpoint, now_ms);
        assert forall|k: int| 0 <= k < rest.len() implies #[trigger] rest[k] == raw[k + 1] by {}
        if exists|id: MemberId| #[trigger] names_now(raw[0], id, endpoint, now_ms) {
            let id = choose|id: MemberId| #[trigger] names_now(raw[0], id, endpoint, now_ms);
            assert(authorize::bound_member(raw, endpoint, now_ms) == Some(id));
        } else {
            match endpoint::read_signed_endpoint(raw[0]) {
                Some(b) => {
                    assert(!names_now(raw[0], b.payload.member_id, endpoint, now_ms));
                },
                None => {},
            }
            match authorize::bound_member(rest, endpoint, now_ms) {
                Some(id) => {
                    let i = choose|i: int|
                        0 <= i < rest.len() && names_now(#[trigger] rest[i], id, endpoint, now_ms)
                            && forall|k: int, other: MemberId|
                            0 <= k < i ==> !#[trigger] names_now(rest[k], other, endpoint, now_ms);
                    assert(names_now(raw[i + 1], id, endpoint, now_ms));
                    assert forall|k: int, other: MemberId| 0 <= k < i + 1 implies !#[trigger] names_now(
                        raw[k],
                        other,
                        endpoint,
                        now_ms,
                    ) by {
                        if k > 0 {
                            assert(rest[k - 1] == raw[k]);
                            assert(!names_now(rest[k - 1], other, endpoint, now_ms));
                        }
                    }
                },
                None => {
                    assert forall|k: int, other: MemberId|
                        0 <= k < raw.len() implies !#[trigger] names_now(
                        raw[k],
                        other,
                        endpoint,
                        now_ms,
                    ) by {
                        if k > 0 {
                            assert(rest[k - 1] == raw[k]);
                            assert(!names_now(rest[k - 1], other, endpoint, now_ms));
                        }
                    }
                },
            }
        }
    }
}

/// An endpoint belongs to a member now exactly where the configuration has not expired, the first
/// binding of the endpoint that has not expired names the member, and a certificate of the member
/// has not expired.
pub proof fn law_who_an_endpoint_belongs_to(
    c: Config,
    endpoint: EndpointId,
    now_ms: u64,
    id: MemberId,
)
    ensures
        authorize::current_member(c, endpoint, now_ms) == Some(id) <==> {
            &&& now_ms < c.expires_at_ms
            &&& exists|i: int|
                0 <= i < c.endpoint_bindings.len() && names_now(
                    #[trigger] c.endpoint_bindings[i],
                    id,
                    endpoint,
                    now_ms,
                ) && forall|k: int, other: MemberId|
                    0 <= k < i ==> !#[trigger] names_now(
                        c.endpoint_bindings[k],
                        other,
                        endpoint,
                        now_ms,
                    )
            &&& exists|j: int|
                0 <= j < c.members.len() && (member::read_signed_member(
                    #[trigger] c.members[j],
                ) matches Some(m) && m.payload.member_id == id && now_ms < m.payload.expires_at_ms)
        },
{
    lemma_bound_member(c.endpoint_bindings, endpoint, now_ms);
    if exists|i: int|
        0 <= i < c.endpoint_bindings.len() && names_now(
            #[trigger] c.endpoint_bindings[i],
            id,
            endpoint,
            now_ms,
        ) && forall|k: int, other: MemberId|
            0 <= k < i ==> !#[trigger] names_now(c.endpoint_bindings[k], other, endpoint, now_ms) {
        let i = choose|i: int|
            0 <= i < c.endpoint_bindings.len() && names_now(
                #[trigger] c.endpoint_bindings[i],
                id,
                endpoint,
                now_ms,
            ) && forall|k: int, other: MemberId|
                0 <= k < i ==> !#[trigger] names_now(
                    c.endpoint_bindings[k],
                    other,
                    endpoint,
                    now_ms,
                );
        assert(authorize::bound_member(c.endpoint_bindings, endpoint, now_ms) is Some);
        let found = authorize::bound_member(c.endpoint_bindings, endpoint, now_ms)->Some_0;
        let j = choose|j: int|
            0 <= j < c.endpoint_bindings.len() && names_now(
                #[trigger] c.endpoint_bindings[j],
                found,
                endpoint,
                now_ms,
            ) && forall|k: int, other: MemberId|
                0 <= k < j ==> !#[trigger] names_now(
                    c.endpoint_bindings[k],
                    other,
                    endpoint,
                    now_ms,
                );
        assert(i == j);
        assert(found == id);
    }
    if exists|j: int|
        0 <= j < c.members.len() && (member::read_signed_member(
            #[trigger] c.members[j],
        ) matches Some(m) && m.payload.member_id == id && now_ms < m.payload.expires_at_ms) {
        let j = choose|j: int|
            0 <= j < c.members.len() && (member::read_signed_member(
                #[trigger] c.members[j],
            ) matches Some(m) && m.payload.member_id == id && now_ms < m.payload.expires_at_ms);
        assert(authorize::certifies(c.members[j], id, now_ms));
    }
}

/// What a current binding gives is its role: the server side, or the client side at its device.
proof fn lemma_gives_now(raw: Seq<u8>, m: MemberId, a: ScopedVirtualAddr, now_ms: u64)
    ensures
        discovery::authorize::gives_address(raw, m, a, now_ms) == gives_now(raw, m, a, now_ms),
{
}

/// An endpoint may come from an address to a destination exactly where both endpoints belong to
/// members now, all bindings can be read, the destination is a server address that a current
/// binding gives the local member, and the address is a client address that a current binding
/// gives the other member.
pub proof fn law_who_is_admitted(
    c: Config,
    local: EndpointId,
    remote: EndpointId,
    destination: ScopedVirtualAddr,
    source: ScopedVirtualAddr,
    now_ms: u64,
)
    ensures
        authorize::admits(c, local, remote, destination, source, now_ms) <==> {
            &&& authorize::current_member(c, remote, now_ms) matches Some(theirs)
            &&& authorize::current_member(c, local, now_ms) matches Some(ours)
            &&& destination is Server
            &&& source is Client
            &&& forall|i: int|
                0 <= i < c.app_bindings.len() ==> app::read_signed_binding(
                    #[trigger] c.app_bindings[i],
                ) is Ok
            &&& exists|i: int|
                0 <= i < c.app_bindings.len() && gives_now(
                    #[trigger] c.app_bindings[i],
                    ours,
                    destination,
                    now_ms,
                )
            &&& exists|i: int|
                0 <= i < c.app_bindings.len() && gives_now(
                    #[trigger] c.app_bindings[i],
                    theirs,
                    source,
                    now_ms,
                )
        },
{
    if authorize::current_member(c, remote, now_ms) is Some && authorize::current_member(c, local, now_ms) is Some
        && destination is Server && source is Client {
        let theirs = authorize::current_member(c, remote, now_ms)->Some_0;
        let ours = authorize::current_member(c, local, now_ms)->Some_0;
        let app = destination->Server_app;
        assert forall|i: int| 0 <= i < c.app_bindings.len() implies authorize::serves_app(
            #[trigger] c.app_bindings[i],
            ours,
            app,
            now_ms,
        ) == gives_now(c.app_bindings[i], ours, destination, now_ms) by {
            lemma_gives_now(c.app_bindings[i], ours, destination, now_ms);
        }
        assert forall|i: int| 0 <= i < c.app_bindings.len() implies discovery::authorize::gives_address(
            #[trigger] c.app_bindings[i],
            theirs,
            source,
            now_ms,
        ) == gives_now(c.app_bindings[i], theirs, source, now_ms) by {
            lemma_gives_now(c.app_bindings[i], theirs, source, now_ms);
        }
    }
}

/// The members and their endpoints are told exactly where every binding can be read and names an
/// endpoint that can be one; each pair is what its binding says.
pub proof fn law_endpoint_pairs(raw: Seq<Seq<u8>>, pairs: Seq<(MemberId, EndpointId)>)
    ensures
        authorize::endpoint_pairs(raw) == Ok::<Seq<(MemberId, EndpointId)>, ConfigAuthorizationError>(pairs)
            <==> {
            &&& pairs.len() == raw.len()
            &&& forall|i: int|
                0 <= i < raw.len() ==> names(#[trigger] raw[i], pairs[i].0, pairs[i].1)
                    && outside::endpoint_key_ok(pairs[i].1.0@)
        },
    decreases raw.len(),
{
    if raw.len() > 0 {
        let front = raw.drop_last();
        let right = {
            &&& pairs.len() == raw.len()
            &&& forall|i: int|
                0 <= i < raw.len() ==> names(#[trigger] raw[i], pairs[i].0, pairs[i].1)
                    && outside::endpoint_key_ok(pairs[i].1.0@)
        };
        if right {
            law_endpoint_pairs(front, pairs.drop_last());
            assert forall|i: int| 0 <= i < front.len() implies names(
                #[trigger] front[i],
                pairs.drop_last()[i].0,
                pairs.drop_last()[i].1,
            ) && outside::endpoint_key_ok(pairs.drop_last()[i].1.0@) by {
                assert(front[i] == raw[i]);
            }
            assert(names(raw[raw.len() - 1], pairs.last().0, pairs.last().1));
            assert(pairs =~= pairs.drop_last().push(pairs.last()));
        }
        if authorize::endpoint_pairs(raw) == Ok::<Seq<(MemberId, EndpointId)>, ConfigAuthorizationError>(
            pairs,
        ) {
            law_endpoint_pairs(front, pairs.drop_last());
            assert(pairs.drop_last() =~= authorize::endpoint_pairs(front)->Ok_0);
            assert forall|i: int| 0 <= i < raw.len() implies names(
                #[trigger] raw[i],
                pairs[i].0,
                pairs[i].1,
            ) && outside::endpoint_key_ok(pairs[i].1.0@) by {
                if i < front.len() {
                    assert(front[i] == raw[i]);
                    assert(pairs.drop_last()[i] == pairs[i]);
                }
            }
        }
    } else if pairs.len() == 0 {
        assert(pairs =~= Seq::empty());
    }
}

/// The members and the addresses they are given are told exactly where every binding can be read;
/// each is what its binding says.
pub proof fn law_grants(raw: Seq<Seq<u8>>, given: Seq<(MemberId, ScopedVirtualAddr)>)
    ensures
        authorize::grants(raw) == Ok::<Seq<(MemberId, ScopedVirtualAddr)>, ConfigAuthorizationError>(given)
            <==> {
            &&& given.len() == raw.len()
            &&& forall|i: int|
                0 <= i < raw.len() ==> gives(#[trigger] raw[i], given[i].0, given[i].1)
        },
    decreases raw.len(),
{
    if raw.len() > 0 {
        let front = raw.drop_last();
        let right = {
            &&& given.len() == raw.len()
            &&& forall|i: int|
                0 <= i < raw.len() ==> gives(#[trigger] raw[i], given[i].0, given[i].1)
        };
        if right {
            law_grants(front, given.drop_last());
            assert forall|i: int| 0 <= i < front.len() implies gives(
                #[trigger] front[i],
                given.drop_last()[i].0,
                given.drop_last()[i].1,
            ) by {
                assert(front[i] == raw[i]);
            }
            assert(gives(raw[raw.len() - 1], given.last().0, given.last().1));
            assert(given =~= given.drop_last().push(given.last()));
        }
        if authorize::grants(raw) == Ok::<Seq<(MemberId, ScopedVirtualAddr)>, ConfigAuthorizationError>(
            given,
        ) {
            law_grants(front, given.drop_last());
            assert(given.drop_last() =~= authorize::grants(front)->Ok_0);
            assert forall|i: int| 0 <= i < raw.len() implies gives(
                #[trigger] raw[i],
                given[i].0,
                given[i].1,
            ) by {
                if i < front.len() {
                    assert(front[i] == raw[i]);
                    assert(given.drop_last()[i] == given[i]);
                }
            }
        }
    } else if given.len() == 0 {
        assert(given =~= Seq::empty());
    }
}

/// An endpoint belongs to the member that it is paired with, and to the last of several.
pub proof fn law_owner_is_the_last(pairs: Seq<(MemberId, EndpointId)>, endpoint: EndpointId)
    ensures
        match authorize::owner_of(pairs, endpoint) {
            Some(id) => exists|i: int|
                0 <= i < pairs.len() && #[trigger] pairs[i] == (id, endpoint) && forall|k: int|
                    i < k < pairs.len() ==> (#[trigger] pairs[k]).1 != endpoint,
            None => forall|k: int| 0 <= k < pairs.len() ==> (#[trigger] pairs[k]).1 != endpoint,
        },
    decreases pairs.len(),
{
    if pairs.len() > 0 {
        let front = pairs.drop_last();
        law_owner_is_the_last(front, endpoint);
        if pairs.last().1 == endpoint {
            assert(pairs[pairs.len() - 1] == (pairs.last().0, endpoint));
        } else {
            match authorize::owner_of(front, endpoint) {
                Some(id) => {
                    let i = choose|i: int|
                        0 <= i < front.len() && #[trigger] front[i] == (id, endpoint) && forall|
                            k: int,
                        |
                            i < k < front.len() ==> (#[trigger] front[k]).1 != endpoint;
                    assert(pairs[i] == (id, endpoint));
                    assert forall|k: int| i < k < pairs.len() implies (#[trigger] pairs[k]).1
                        != endpoint by {
                        if k < front.len() {
                            assert(front[k] == pairs[k]);
                        }
                    }
                },
                None => {
                    assert forall|k: int| 0 <= k < pairs.len() implies (#[trigger] pairs[k]).1
                        != endpoint by {
                        if k < front.len() {
                            assert(front[k] == pairs[k]);
                        }
                    }
                },
            }
        }
    }
}

/// The relays that carry application data are told exactly where all their addresses are URLs: the
/// canonical form of each of those addresses, and of no other.
pub proof fn law_data_relays(relays: Seq<Relay>)
    ensures
        authorize::data_relay_urls(relays) is Some <==> forall|i: int|
            0 <= i < relays.len() && (#[trigger] relays[i]).roles.0 & 1 == 1
                ==> outside::relay_url_canonical(relays[i].url) is Some,
        authorize::data_relay_urls(relays) matches Some(urls) ==> forall|t: Seq<char>| #[trigger]
            urls.contains(t) <==> exists|i: int|
                0 <= i < relays.len() && (#[trigger] relays[i]).roles.0 & 1 == 1
                    && outside::relay_url_canonical(relays[i].url) == Some(t),
    decreases relays.len(),
{
    if relays.len() > 0 {
        let front = relays.drop_last();
        law_data_relays(front);
        assert forall|i: int| 0 <= i < front.len() implies #[trigger] front[i] == relays[i] by {}
        assert(relays[relays.len() - 1] == relays.last());
        if authorize::data_relay_urls(front) is None {
            let i = choose|i: int|
                0 <= i < front.len() && (#[trigger] front[i]).roles.0 & 1 == 1
                    && outside::relay_url_canonical(front[i].url) is None;
            assert(relays[i] == front[i]);
        } else if authorize::data_relay_urls(relays) is Some {
            let before = authorize::data_relay_urls(front)->Some_0;
            let urls = authorize::data_relay_urls(relays)->Some_0;
            assert forall|i: int|
                0 <= i < relays.len() && (#[trigger] relays[i]).roles.0 & 1 == 1 implies outside::relay_url_canonical(
                relays[i].url,
            ) is Some by {
                if i < front.len() {
                    assert(front[i] == relays[i]);
                }
            }
            assert forall|t: Seq<char>| #[trigger] urls.contains(t) <==> exists|i: int|
                0 <= i < relays.len() && (#[trigger] relays[i]).roles.0 & 1 == 1
                    && outside::relay_url_canonical(relays[i].url) == Some(t) by {
                if urls.len() > before.len() {
                    vstd::seq_lib::lemma_seq_contains_after_push(before, urls.last(), t);
                    assert(urls =~= before.push(urls.last()));
                }
                if before.contains(t) {
                    let i = choose|i: int|
                        0 <= i < front.len() && (#[trigger] front[i]).roles.0 & 1 == 1
                            && outside::relay_url_canonical(front[i].url) == Some(t);
                    assert(relays[i] == front[i]);
                }
                if exists|i: int|
                    0 <= i < relays.len() && (#[trigger] relays[i]).roles.0 & 1 == 1
                        && outside::relay_url_canonical(relays[i].url) == Some(t) {
                    let i = choose|i: int|
                        0 <= i < relays.len() && (#[trigger] relays[i]).roles.0 & 1 == 1
                            && outside::relay_url_canonical(relays[i].url) == Some(t);
                    if i < front.len() {
                        assert(front[i] == relays[i]);
                        assert(before.contains(t));
                    }
                }
            }
        } else {
            assert(relays[relays.len() - 1].roles.0 & 1 == 1);
        }
    }
}


/// What a configuration gives an endpoint that holds some addresses, if it gives anything: the
/// clients it may serve are the endpoints of each member at each client address that a binding
/// gives that member, its peers are the endpoints that bindings name, the relays are those that
/// carry application data, and each address that is held is given by a binding to the member that
/// the last binding of the endpoint names.
pub proof fn law_what_a_config_gives(
    c: Config,
    local: EndpointId,
    held: Set<ScopedVirtualAddr>,
    got: ConfigAuthorizations,
)
    requires
        authorize::derives(c, local, held, Ok(got)),
    ensures
        forall|e: EndpointId, a: ScopedVirtualAddr| #[trigger]
            got.allowed_clients@.contains((e, a)) <==> a is Client && exists|
                i: int,
                j: int,
                m: MemberId,
            |
                0 <= i < c.endpoint_bindings.len() && 0 <= j < c.app_bindings.len()
                    && #[trigger] names(c.endpoint_bindings[i], m, e) && #[trigger] gives(
                    c.app_bindings[j],
                    m,
                    a,
                ),
        forall|e: EndpointId| #[trigger]
            got.member_endpoints@.contains(e) <==> exists|i: int, m: MemberId|
                0 <= i < c.endpoint_bindings.len() && #[trigger] names(
                    c.endpoint_bindings[i],
                    m,
                    e,
                ),
        forall|t: Seq<char>| #[trigger]
            authorize::texts(got.relay_urls@).contains(t) <==> exists|i: int|
                0 <= i < c.relays.len() && (#[trigger] c.relays[i]).roles.0 & 1 == 1
                    && outside::relay_url_canonical(c.relays[i].url) == Some(t),
        exists|i: int, m: MemberId|
            0 <= i < c.endpoint_bindings.len() && #[trigger] names(c.endpoint_bindings[i], m, local)
                && forall|a: ScopedVirtualAddr| #[trigger]
                held.contains(a) ==> exists|j: int|
                    0 <= j < c.app_bindings.len() && gives(#[trigger] c.app_bindings[j], m, a),
{
    let d = authorize::derived(c, local)->Ok_0;
    law_endpoint_pairs(c.endpoint_bindings, d.pairs);
    law_grants(c.app_bindings, d.given);
    law_data_relays(c.relays);
    law_owner_is_the_last(d.pairs, local);
    assert forall|e: EndpointId, a: ScopedVirtualAddr| #[trigger]
        got.allowed_clients@.contains((e, a)) <==> a is Client && exists|
            i: int,
            j: int,
            m: MemberId,
        |
            0 <= i < c.endpoint_bindings.len() && 0 <= j < c.app_bindings.len()
                && #[trigger] names(c.endpoint_bindings[i], m, e) && #[trigger] gives(
                c.app_bindings[j],
                m,
                a,
            ) by {
        if got.allowed_clients@.contains((e, a)) {
            let j = choose|j: int|
                0 <= j < d.given.len() && authorize::granted_by(
                    d.pairs,
                    #[trigger] d.given[j],
                    (e, a),
                );
            let m = d.given[j].0;
            let i = choose|i: int| 0 <= i < d.pairs.len() && d.pairs[i] == (m, e);
            assert(names(c.endpoint_bindings[i], m, e));
            assert(gives(c.app_bindings[j], m, a));
        }
        if a is Client && exists|i: int, j: int, m: MemberId|
            0 <= i < c.endpoint_bindings.len() && 0 <= j < c.app_bindings.len()
                && #[trigger] names(c.endpoint_bindings[i], m, e) && #[trigger] gives(
                c.app_bindings[j],
                m,
                a,
            ) {
            let (i, j, m) = choose|i: int, j: int, m: MemberId|
                0 <= i < c.endpoint_bindings.len() && 0 <= j < c.app_bindings.len()
                    && #[trigger] names(c.endpoint_bindings[i], m, e) && #[trigger] gives(
                    c.app_bindings[j],
                    m,
                    a,
                );
            assert(d.pairs[i] == (m, e));
            assert(d.given[j] == (m, a));
            assert(authorize::granted_by(d.pairs, d.given[j], (e, a)));
        }
    }
    assert forall|e: EndpointId| #[trigger] got.member_endpoints@.contains(e) <==> exists|
        i: int,
        m: MemberId,
    |
        0 <= i < c.endpoint_bindings.len() && #[trigger] names(c.endpoint_bindings[i], m, e) by {
        if got.member_endpoints@.contains(e) {
            let m = choose|m: MemberId| #[trigger] d.pairs.contains((m, e));
            let i = choose|i: int| 0 <= i < d.pairs.len() && d.pairs[i] == (m, e);
            assert(names(c.endpoint_bindings[i], m, e));
        }
        if exists|i: int, m: MemberId|
            0 <= i < c.endpoint_bindings.len() && #[trigger] names(c.endpoint_bindings[i], m, e) {
            let (i, m) = choose|i: int, m: MemberId|
                0 <= i < c.endpoint_bindings.len() && #[trigger] names(
                    c.endpoint_bindings[i],
                    m,
                    e,
                );
            assert(d.pairs[i] == (m, e));
            assert(d.pairs.contains((m, e)));
        }
    }
    let m = d.local_member;
    let i = choose|i: int| 0 <= i < d.pairs.len() && #[trigger] d.pairs[i] == (m, local);
    assert(names(c.endpoint_bindings[i], m, local));
    assert forall|a: ScopedVirtualAddr| #[trigger] held.contains(a) implies exists|j: int|
        0 <= j < c.app_bindings.len() && gives(#[trigger] c.app_bindings[j], m, a) by {
        assert(!authorize::not_given(held, d.given, d.local_member, a));
        let j = choose|j: int| 0 <= j < d.given.len() && d.given[j] == (m, a);
        assert(gives(c.app_bindings[j], m, a));
    }
}

/// A configuration gives an endpoint something wherever all its bindings can be read and name
/// endpoints that can be ones, one names the endpoint, every address that is held is given by a
/// binding to the member that the last one names, and the relays that carry application data have
/// addresses that are URLs.
pub proof fn law_when_a_config_gives(
    c: Config,
    local: EndpointId,
    held: Set<ScopedVirtualAddr>,
    res: Result<ConfigAuthorizations, ConfigAuthorizationError>,
    i: int,
    m: MemberId,
)
    requires
        authorize::derives(c, local, held, res),
        forall|k: int|
            0 <= k < c.endpoint_bindings.len() ==> (endpoint::read_signed_endpoint(
                #[trigger] c.endpoint_bindings[k],
            ) matches Some(b) && outside::endpoint_key_ok(b.payload.endpoint_id@)),
        forall|k: int|
            0 <= k < c.app_bindings.len() ==> app::read_signed_binding(
                #[trigger] c.app_bindings[k],
            ) is Ok,
        0 <= i < c.endpoint_bindings.len(),
        names(c.endpoint_bindings[i], m, local),
        forall|k: int, other: MemberId|
            i < k < c.endpoint_bindings.len() ==> !#[trigger] names(
                c.endpoint_bindings[k],
                other,
                local,
            ),
        forall|a: ScopedVirtualAddr| #[trigger]
            held.contains(a) ==> exists|j: int|
                0 <= j < c.app_bindings.len() && gives(#[trigger] c.app_bindings[j], m, a),
        forall|k: int|
            0 <= k < c.relays.len() && (#[trigger] c.relays[k]).roles.0 & 1 == 1
                ==> outside::relay_url_canonical(c.relays[k].url) is Some,
    ensures
        res is Ok,
{
    let eb = c.endpoint_bindings;
    let ab = c.app_bindings;
    let pairs = Seq::new(
        eb.len(),
        |k: int|
            {
                let b = endpoint::read_signed_endpoint(eb[k])->Some_0.payload;
                (b.member_id, EndpointId(b.endpoint_id))
            },
    );
    let given = Seq::new(
        ab.len(),
        |k: int|
            {
                let b = app::read_signed_binding(ab[k])->Ok_0.payload;
                (b.subject, discovery::authorize::binding_address(b)->Some_0)
            },
    );
    law_endpoint_pairs(eb, pairs);
    assert forall|k: int| 0 <= k < ab.len() implies gives(
        #[trigger] ab[k],
        given[k].0,
        given[k].1,
    ) by {
        let b = app::read_signed_binding(ab[k])->Ok_0.payload;
        app::lemma_read_binding_fits(ab[k]);
    }
    law_grants(ab, given);
    law_data_relays(c.relays);
    law_owner_is_the_last(pairs, local);
    assert(pairs[i] == (m, local));
    let owner = authorize::owner_of(pairs, local)->Some_0;
    let k = choose|k: int|
        0 <= k < pairs.len() && #[trigger] pairs[k] == (owner, local) && forall|n: int|
            k < n < pairs.len() ==> (#[trigger] pairs[n]).1 != local;
    assert(names(eb[k], owner, local));
    assert(k == i);
    let d = Derived { pairs, local_member: m, given };
    assert(authorize::derived(c, local) == Ok::<Derived, ConfigAuthorizationError>(d));
    assert forall|a: ScopedVirtualAddr| !#[trigger] authorize::not_given(
        held,
        d.given,
        d.local_member,
        a,
    ) by {
        if held.contains(a) {
            let j = choose|j: int| 0 <= j < ab.len() && gives(#[trigger] ab[j], m, a);
            assert(given[j] == (m, a));
        }
    }
}

/// The address at which an endpoint is a client of an application is that of the first binding
/// that gives its member the client side of the application.
pub proof fn law_first_client_is_the_first(
    given: Seq<(MemberId, ScopedVirtualAddr)>,
    member: MemberId,
    app: AppAddr,
)
    ensures
        match authorize::first_client(given, member, app) {
            Some(address) => address.app == app && exists|i: int|
                0 <= i < given.len() && #[trigger] given[i] == (
                    member,
                    ScopedVirtualAddr::Client { app, device: address.device },
                ) && forall|k: int|
                    0 <= k < i ==> (#[trigger] given[k]).0 != member || !(given[k].1 is Client)
                        || given[k].1->Client_app != app,
            None => forall|k: int|
                0 <= k < given.len() ==> (#[trigger] given[k]).0 != member || !(given[k].1
                    is Client) || given[k].1->Client_app != app,
        },
    decreases given.len(),
{
    if given.len() > 0 {
        let rest = given.skip(1);
        law_first_client_is_the_first(rest, member, app);
        assert forall|k: int| 0 < k < given.len() implies #[trigger] given[k] == rest[k - 1] by {}
        if given[0].0 == member && given[0].1 is Client && given[0].1->Client_app == app {
            assert(authorize::first_client(given, member, app) == Some(
                ClientAddr { app, device: given[0].1->Client_device },
            ));
            assert(given[0] == (
                member,
                ScopedVirtualAddr::Client { app, device: given[0].1->Client_device },
            ));
        } else {
            assert(authorize::first_client(given, member, app) == authorize::first_client(
                rest,
                member,
                app,
            ));
            match authorize::first_client(rest, member, app) {
                Some(address) => {
                    let i = choose|i: int|
                        0 <= i < rest.len() && #[trigger] rest[i] == (
                            member,
                            ScopedVirtualAddr::Client { app, device: address.device },
                        ) && forall|k: int|
                            0 <= k < i ==> (#[trigger] rest[k]).0 != member || !(rest[k].1
                                is Client) || rest[k].1->Client_app != app;
                    assert(given[i + 1] == rest[i]);
                },
                None => {},
            }
        }
    }
}

} // verus!
