//! Which presence records are published and accepted, and who is behind an address, in terms of
//! the credentials of a configuration.
use crate::config::snapshot::Config;
use crate::crypto::app;
use crate::crypto::endpoint;
use crate::crypto::keys;
use crate::crypto::member;
use crate::discovery::authorize;
use crate::discovery::cache;
use crate::discovery::directory;
use crate::discovery::lookup;
use crate::discovery::presence;
use crate::discovery::presence::{Candidate, DiscoveryError, Presence};
use crate::discovery::sealed;
use crate::discovery::sealed::SealedPresence;
use crate::identifiers::{EndpointId, MemberId, NetworkId, ScopedVirtualAddr};
use crate::outside;
use crate::wire;
use vstd::prelude::*;

verus! {

/// Whether a binding gives a member an endpoint, and has not expired.
pub open spec fn binds_endpoint(raw: Seq<u8>, m: MemberId, e: EndpointId, now_ms: u64) -> bool {
    endpoint::read_signed_endpoint(raw) matches Some(b) && b.payload.member_id == m
        && b.payload.endpoint_id == e.0 && now_ms < b.payload.expires_at_ms
}

/// Whether a binding gives a member the server side of an application, or the client side at a
/// device, and has not expired.
pub open spec fn binds_address(raw: Seq<u8>, m: MemberId, a: ScopedVirtualAddr, now_ms: u64) -> bool {
    app::read_signed_binding(raw) matches Ok(b) && b.payload.subject == m && now_ms
        < b.payload.expires_at_ms && match a {
        ScopedVirtualAddr::Server { app: used } => b.payload.role == app::AppRole::Server
            && b.payload.app_addr == used,
        ScopedVirtualAddr::Client { app: used, device } => b.payload.role == app::AppRole::Client
            && b.payload.app_addr == used && b.payload.device_id == Some(device),
    }
}

proof fn lemma_binds_address(raw: Seq<u8>, m: MemberId, a: ScopedVirtualAddr, now_ms: u64)
    ensures
        authorize::gives_address(raw, m, a, now_ms) == binds_address(raw, m, a, now_ms),
{
}

/// A member may announce an address at an endpoint exactly where a binding that has not expired
/// gives the member the endpoint, and one gives it the address.
pub proof fn law_when_an_address_is_authorized(
    c: Config,
    m: MemberId,
    e: EndpointId,
    a: ScopedVirtualAddr,
    now_ms: u64,
)
    ensures
        authorize::authorized(c, m, e, a, now_ms) <==> {
            &&& exists|i: int|
                0 <= i < c.endpoint_bindings.len() && binds_endpoint(
                    #[trigger] c.endpoint_bindings[i],
                    m,
                    e,
                    now_ms,
                )
            &&& exists|i: int|
                0 <= i < c.app_bindings.len() && binds_address(
                    #[trigger] c.app_bindings[i],
                    m,
                    a,
                    now_ms,
                )
        },
{
    assert forall|i: int| 0 <= i < c.endpoint_bindings.len() implies authorize::gives_endpoint(
        #[trigger] c.endpoint_bindings[i],
        m,
        e,
        now_ms,
    ) == binds_endpoint(c.endpoint_bindings[i], m, e, now_ms) by {
    }
    assert forall|i: int| 0 <= i < c.app_bindings.len() implies authorize::gives_address(
        #[trigger] c.app_bindings[i],
        m,
        a,
        now_ms,
    ) == binds_address(c.app_bindings[i], m, a, now_ms) by {
        lemma_binds_address(c.app_bindings[i], m, a, now_ms);
    }
}

/// The members that hold an address are told exactly where every binding can be read: those to
/// whom a binding that has not expired gives the address, and no others.
pub proof fn law_holders(raw: Seq<Seq<u8>>, a: ScopedVirtualAddr, now_ms: u64)
    ensures
        authorize::holders(raw, a, now_ms) is Ok <==> forall|i: int|
            0 <= i < raw.len() ==> app::read_signed_binding(#[trigger] raw[i]) is Ok,
        authorize::holders(raw, a, now_ms) matches Ok(members) ==> forall|m: MemberId| #[trigger]
            members.contains(m) <==> exists|i: int|
                0 <= i < raw.len() && binds_address(#[trigger] raw[i], m, a, now_ms),
    decreases raw.len(),
{
    if raw.len() > 0 {
        let front = raw.drop_last();
        law_holders(front, a, now_ms);
        assert forall|i: int| 0 <= i < front.len() implies #[trigger] front[i] == raw[i] by {}
        assert(raw[raw.len() - 1] == raw.last());
        if authorize::holders(front, a, now_ms) is Err {
            let i = choose|i: int|
                0 <= i < front.len() && app::read_signed_binding(#[trigger] front[i]) is Err;
            assert(raw[i] == front[i]);
        } else if authorize::holders(raw, a, now_ms) is Ok {
            let before = authorize::holders(front, a, now_ms)->Ok_0;
            let members = authorize::holders(raw, a, now_ms)->Ok_0;
            assert forall|i: int| 0 <= i < raw.len() implies app::read_signed_binding(
                #[trigger] raw[i],
            ) is Ok by {
                if i < front.len() {
                    assert(front[i] == raw[i]);
                }
            }
            let b = app::read_signed_binding(raw.last())->Ok_0.payload;
            assert forall|m: MemberId| #[trigger] members.contains(m) <==> exists|i: int|
                0 <= i < raw.len() && binds_address(#[trigger] raw[i], m, a, now_ms) by {
                vstd::seq_lib::lemma_seq_contains_after_push(before, b.subject, m);
                lemma_binds_address(raw.last(), m, a, now_ms);
                if before.contains(m) {
                    let i = choose|i: int|
                        0 <= i < front.len() && binds_address(#[trigger] front[i], m, a, now_ms);
                    assert(raw[i] == front[i]);
                }
                if binds_address(raw.last(), m, a, now_ms) {
                    assert(members == before.push(b.subject));
                    assert(binds_address(raw[raw.len() - 1], m, a, now_ms));
                }
                if exists|i: int|
                    0 <= i < raw.len() && binds_address(#[trigger] raw[i], m, a, now_ms) {
                    let i = choose|i: int|
                        0 <= i < raw.len() && binds_address(#[trigger] raw[i], m, a, now_ms);
                    if i < front.len() {
                        assert(front[i] == raw[i]);
                        assert(before.contains(m));
                    }
                }
                if members.contains(m) && !before.contains(m) {
                    assert(binds_address(raw.last(), b.subject, a, now_ms));
                }
            }
        } else {
            assert(app::read_signed_binding(raw[raw.len() - 1]) is Err);
        }
    }
}

/// The endpoints of a member are told exactly where every binding can be read, and those of the
/// member that have not expired name endpoints that can be ones: these endpoints, and no others.
pub proof fn law_endpoints_of(raw: Seq<Seq<u8>>, m: MemberId, now_ms: u64)
    ensures
        authorize::endpoints_of(raw, m, now_ms) is Ok <==> forall|i: int|
            0 <= i < raw.len() ==> (endpoint::read_signed_endpoint(#[trigger] raw[i]) matches Some(b)
                && (b.payload.member_id == m && now_ms < b.payload.expires_at_ms
                ==> outside::endpoint_key_ok(b.payload.endpoint_id@))),
        authorize::endpoints_of(raw, m, now_ms) matches Ok(endpoints) ==> forall|e: EndpointId|
            #[trigger]
            endpoints.contains(e) <==> exists|i: int|
                0 <= i < raw.len() && binds_endpoint(#[trigger] raw[i], m, e, now_ms),
    decreases raw.len(),
{
    if raw.len() > 0 {
        let front = raw.drop_last();
        law_endpoints_of(front, m, now_ms);
        assert forall|i: int| 0 <= i < front.len() implies #[trigger] front[i] == raw[i] by {}
        assert(raw[raw.len() - 1] == raw.last());
        if authorize::endpoints_of(front, m, now_ms) is Err {
            let i = choose|i: int|
                0 <= i < front.len() && !(endpoint::read_signed_endpoint(
                    #[trigger] front[i],
                ) matches Some(b) && (b.payload.member_id == m && now_ms < b.payload.expires_at_ms
                    ==> outside::endpoint_key_ok(b.payload.endpoint_id@)));
            assert(raw[i] == front[i]);
        } else if authorize::endpoints_of(raw, m, now_ms) is Ok {
            let before = authorize::endpoints_of(front, m, now_ms)->Ok_0;
            let endpoints = authorize::endpoints_of(raw, m, now_ms)->Ok_0;
            assert forall|i: int| 0 <= i < raw.len() implies (endpoint::read_signed_endpoint(
                #[trigger] raw[i],
            ) matches Some(b) && (b.payload.member_id == m && now_ms < b.payload.expires_at_ms
                ==> outside::endpoint_key_ok(b.payload.endpoint_id@))) by {
                if i < front.len() {
                    assert(front[i] == raw[i]);
                }
            }
            let b = endpoint::read_signed_endpoint(raw.last())->Some_0.payload;
            assert forall|e: EndpointId| #[trigger] endpoints.contains(e) <==> exists|i: int|
                0 <= i < raw.len() && binds_endpoint(#[trigger] raw[i], m, e, now_ms) by {
                vstd::seq_lib::lemma_seq_contains_after_push(before, EndpointId(b.endpoint_id), e);
                if before.contains(e) {
                    let i = choose|i: int|
                        0 <= i < front.len() && binds_endpoint(#[trigger] front[i], m, e, now_ms);
                    assert(raw[i] == front[i]);
                }
                if binds_endpoint(raw.last(), m, e, now_ms) {
                    assert(endpoints == before.push(EndpointId(b.endpoint_id)));
                    assert(binds_endpoint(raw[raw.len() - 1], m, e, now_ms));
                }
                if exists|i: int|
                    0 <= i < raw.len() && binds_endpoint(#[trigger] raw[i], m, e, now_ms) {
                    let i = choose|i: int|
                        0 <= i < raw.len() && binds_endpoint(#[trigger] raw[i], m, e, now_ms);
                    if i < front.len() {
                        assert(front[i] == raw[i]);
                        assert(before.contains(e));
                    }
                }
                if endpoints.contains(e) && !before.contains(e) {
                    assert(binds_endpoint(raw.last(), m, EndpointId(b.endpoint_id), now_ms));
                }
            }
        } else {
            assert(raw[raw.len() - 1] == raw.last());
        }
    }
}

/// What is the only one among some things is among them, and nothing else is.
proof fn lemma_sole<T>(s: Seq<T>, x: T)
    ensures
        authorize::sole(s) == Some(x) <==> s.contains(x) && forall|y: T| #[trigger]
            s.contains(y) ==> y == x,
{
    if authorize::sole(s) == Some(x) {
        assert(s[0] == x);
        assert forall|y: T| #[trigger] s.contains(y) implies y == x by {
            let i = choose|i: int| 0 <= i < s.len() && s[i] == y;
            assert(s[i] == s[0]);
        }
    }
    if s.contains(x) && forall|y: T| #[trigger] s.contains(y) ==> y == x {
        assert forall|i: int| 0 <= i < s.len() implies #[trigger] s[i] == s[0] by {
            assert(s.contains(s[i]));
            assert(s.contains(s[0]));
        }
        assert(s.contains(s[0]));
    }
}

/// An endpoint is behind an address exactly where all bindings can be read, exactly one member
/// holds the address by a binding that has not expired, and exactly one endpoint is that member's
/// by a binding that has not expired.
pub proof fn law_who_is_behind_an_address(
    c: Config,
    a: ScopedVirtualAddr,
    now_ms: u64,
    e: EndpointId,
    m: MemberId,
)
    requires
        exists|i: int|
            0 <= i < c.app_bindings.len() && binds_address(
                #[trigger] c.app_bindings[i],
                m,
                a,
                now_ms,
            ),
    ensures
        authorize::endpoint_behind(c, a, now_ms) == Ok::<EndpointId, DiscoveryError>(e) <==> {
            &&& forall|i: int|
                0 <= i < c.app_bindings.len() ==> app::read_signed_binding(
                    #[trigger] c.app_bindings[i],
                ) is Ok
            &&& forall|i: int, other: MemberId|
                0 <= i < c.app_bindings.len() && #[trigger] binds_address(
                    c.app_bindings[i],
                    other,
                    a,
                    now_ms,
                ) ==> other == m
            &&& forall|i: int|
                0 <= i < c.endpoint_bindings.len() ==> (endpoint::read_signed_endpoint(
                    #[trigger] c.endpoint_bindings[i],
                ) matches Some(b) && (b.payload.member_id == m && now_ms < b.payload.expires_at_ms
                    ==> outside::endpoint_key_ok(b.payload.endpoint_id@)))
            &&& exists|i: int|
                0 <= i < c.endpoint_bindings.len() && binds_endpoint(
                    #[trigger] c.endpoint_bindings[i],
                    m,
                    e,
                    now_ms,
                )
            &&& forall|i: int, other: EndpointId|
                0 <= i < c.endpoint_bindings.len() && #[trigger] binds_endpoint(
                    c.endpoint_bindings[i],
                    m,
                    other,
                    now_ms,
                ) ==> other == e
        },
{
    law_holders(c.app_bindings, a, now_ms);
    law_endpoints_of(c.endpoint_bindings, m, now_ms);
    match authorize::holders(c.app_bindings, a, now_ms) {
        Err(_) => {},
        Ok(members) => {
            lemma_sole(members, m);
            assert(members.contains(m));
            assert forall|other: MemberId| #[trigger] members.contains(other) && (forall|
                i: int,
                x: MemberId,
            |
                0 <= i < c.app_bindings.len() && #[trigger] binds_address(
                    c.app_bindings[i],
                    x,
                    a,
                    now_ms,
                ) ==> x == m) implies other == m by {
                let i = choose|i: int|
                    0 <= i < c.app_bindings.len() && binds_address(
                        #[trigger] c.app_bindings[i],
                        other,
                        a,
                        now_ms,
                    );
                assert(binds_address(c.app_bindings[i], other, a, now_ms));
            }
            assert forall|i: int, other: MemberId|
                0 <= i < c.app_bindings.len() && #[trigger] binds_address(
                    c.app_bindings[i],
                    other,
                    a,
                    now_ms,
                ) implies members.contains(other) by {}
            if authorize::sole(members) is Some {
                lemma_sole(members, authorize::sole(members)->Some_0);
                assert(authorize::sole(members) == Some(m));
            }
            match authorize::endpoints_of(c.endpoint_bindings, m, now_ms) {
                Err(_) => {},
                Ok(endpoints) => {
                    lemma_sole(endpoints, e);
                    assert forall|i: int, other: EndpointId|
                        0 <= i < c.endpoint_bindings.len() && #[trigger] binds_endpoint(
                            c.endpoint_bindings[i],
                            m,
                            other,
                            now_ms,
                        ) implies endpoints.contains(other) by {}
                    assert forall|other: EndpointId| #[trigger] endpoints.contains(other) && (forall|
                        i: int,
                        x: EndpointId,
                    |
                        0 <= i < c.endpoint_bindings.len() && #[trigger] binds_endpoint(
                            c.endpoint_bindings[i],
                            m,
                            x,
                            now_ms,
                        ) ==> x == e) implies other == e by {
                        let i = choose|i: int|
                            0 <= i < c.endpoint_bindings.len() && binds_endpoint(
                                #[trigger] c.endpoint_bindings[i],
                                m,
                                other,
                                now_ms,
                            );
                        assert(binds_endpoint(c.endpoint_bindings[i], m, other, now_ms));
                    }
                },
            }
        },
    }
}

/// Nobody is behind an address that no binding gives now.
pub proof fn law_nobody_is_behind_an_unbound_address(c: Config, a: ScopedVirtualAddr, now_ms: u64)
    requires
        forall|i: int, m: MemberId|
            0 <= i < c.app_bindings.len() ==> !#[trigger] binds_address(
                c.app_bindings[i],
                m,
                a,
                now_ms,
            ),
    ensures
        authorize::endpoint_behind(c, a, now_ms) is Err,
{
    law_holders(c.app_bindings, a, now_ms);
    if authorize::holders(c.app_bindings, a, now_ms) is Ok {
        let members = authorize::holders(c.app_bindings, a, now_ms)->Ok_0;
        if members.len() > 0 {
            assert(members.contains(members[0]));
            let i = choose|i: int|
                0 <= i < c.app_bindings.len() && binds_address(
                    #[trigger] c.app_bindings[i],
                    members[0],
                    a,
                    now_ms,
                );
            assert(binds_address(c.app_bindings[i], members[0], a, now_ms));
        }
    }
}

/// The member that signs with a key is the first whose certificate can be read and names the key.
pub proof fn law_signing_member(members: Seq<Seq<u8>>, key: Seq<u8>)
    ensures
        match authorize::member_signing(members, key) {
            Some(cert) => cert.payload.signing_public_key@ == key && exists|i: int|
                0 <= i < members.len() && member::read_signed_member(#[trigger] members[i])
                    == Some(cert) && forall|k: int|
                    0 <= k < i ==> (member::read_signed_member(#[trigger] members[k]) matches Some(o)
                        ==> o.payload.signing_public_key@ != key),
            None => forall|k: int|
                0 <= k < members.len() ==> (member::read_signed_member(
                    #[trigger] members[k],
                ) matches Some(o) ==> o.payload.signing_public_key@ != key),
        },
    decreases members.len(),
{
    if members.len() > 0 {
        let rest = members.skip(1);
        law_signing_member(rest, key);
        assert forall|k: int| 0 < k < members.len() implies #[trigger] members[k] == rest[k - 1] by {}
        let here = member::read_signed_member(members[0]) matches Some(o)
            && o.payload.signing_public_key@ == key;
        if !here {
            match authorize::member_signing(rest, key) {
                Some(cert) => {
                    let i = choose|i: int|
                        0 <= i < rest.len() && member::read_signed_member(#[trigger] rest[i])
                            == Some(cert) && forall|k: int|
                            0 <= k < i ==> (member::read_signed_member(
                                #[trigger] rest[k],
                            ) matches Some(o) ==> o.payload.signing_public_key@ != key);
                    assert(members[i + 1] == rest[i]);
                },
                None => {},
            }
        }
    }
}

/// The member with an identity is the first whose certificate can be read and names it.
pub proof fn law_named_member(members: Seq<Seq<u8>>, id: MemberId)
    ensures
        match authorize::member_named(members, id) {
            Some(cert) => cert.payload.member_id == id && exists|i: int|
                0 <= i < members.len() && member::read_signed_member(#[trigger] members[i])
                    == Some(cert) && forall|k: int|
                    0 <= k < i ==> (member::read_signed_member(#[trigger] members[k]) matches Some(o)
                        ==> o.payload.member_id != id),
            None => forall|k: int|
                0 <= k < members.len() ==> (member::read_signed_member(
                    #[trigger] members[k],
                ) matches Some(o) ==> o.payload.member_id != id),
        },
    decreases members.len(),
{
    if members.len() > 0 {
        let rest = members.skip(1);
        law_named_member(rest, id);
        assert forall|k: int| 0 < k < members.len() implies #[trigger] members[k] == rest[k - 1] by {}
        let here = member::read_signed_member(members[0]) matches Some(o) && o.payload.member_id
            == id;
        if !here {
            match authorize::member_named(rest, id) {
                Some(cert) => {
                    let i = choose|i: int|
                        0 <= i < rest.len() && member::read_signed_member(#[trigger] rest[i])
                            == Some(cert) && forall|k: int|
                            0 <= k < i ==> (member::read_signed_member(
                                #[trigger] rest[k],
                            ) matches Some(o) ==> o.payload.member_id != id);
                    assert(members[i + 1] == rest[i]);
                },
                None => {},
            }
        }
    }
}

/// Whether no address is there twice.
pub open spec fn all_different(addresses: Seq<ScopedVirtualAddr>) -> bool {
    forall|i: int, j: int|
        0 <= i < j < addresses.len() ==> #[trigger] addresses[i] != #[trigger] addresses[j]
}

/// Candidates can be published exactly where they are few enough, and the address of each relay is
/// neither empty nor too long.
pub proof fn law_which_candidates_are_published(s: Seq<Candidate>)
    ensures
        sealed::candidates_ok(s) <==> s.len() <= 16 && forall|i: int|
            0 <= i < s.len() ==> ((#[trigger] s[i]) matches Candidate::Relay(url) ==> 1
                <= wire::utf8(url).len() <= 2048),
{
}

/// A presence is published exactly where it is valid for some time, not too long and no longer than
/// the configuration, announces at least one address and not too many, none twice, at candidates
/// that can be published, the signing key is that of a member, each address is one that the member
/// may announce at the endpoint, and the record is not too long. Then the record says just that.
pub proof fn law_when_a_presence_is_published(
    c: Config,
    key: Seq<u8>,
    endpoint_id: EndpointId,
    addresses: Seq<ScopedVirtualAddr>,
    candidates: Seq<Candidate>,
    capabilities: u32,
    sequence: u64,
    issued_at_ms: u64,
    expires_at_ms: u64,
)
    ensures
        ({
            let verdict = sealed::published(
                c,
                key,
                endpoint_id,
                addresses,
                candidates,
                capabilities,
                sequence,
                issued_at_ms,
                expires_at_ms,
            );
            let record = Presence {
                network_id: c.network_id,
                epoch: c.epoch,
                virtual_addrs: addresses,
                member_id: authorize::member_signing(c.members, key)->Some_0.payload.member_id,
                endpoint_id,
                candidates,
                capabilities,
                sequence,
                issued_at_ms,
                expires_at_ms,
            };
            &&& verdict is Ok <==> {
                &&& 0 < expires_at_ms - issued_at_ms <= 300000
                &&& expires_at_ms <= c.expires_at_ms
                &&& 1 <= addresses.len() <= 256
                &&& all_different(addresses)
                &&& sealed::candidates_ok(candidates)
                &&& authorize::member_signing(c.members, key) is Some
                &&& forall|i: int|
                    0 <= i < addresses.len() ==> authorize::authorized(
                        c,
                        record.member_id,
                        endpoint_id,
                        #[trigger] addresses[i],
                        issued_at_ms,
                    )
                &&& presence::payload_fits(record)
            }
            &&& verdict matches Ok(r) ==> r == record
            &&& verdict matches Err(reason) ==> match reason {
                DiscoveryError::InvalidPresence => !(0 < expires_at_ms - issued_at_ms <= 300000)
                    || expires_at_ms > c.expires_at_ms || !(1 <= addresses.len() <= 256)
                    || !all_different(addresses) || !sealed::candidates_ok(candidates),
                DiscoveryError::NotAuthorized => authorize::member_signing(c.members, key) is None
                    || exists|i: int|
                    0 <= i < addresses.len() && !authorize::authorized(
                        c,
                        record.member_id,
                        endpoint_id,
                        #[trigger] addresses[i],
                        issued_at_ms,
                    ),
                DiscoveryError::PresenceTooLarge => !presence::payload_fits(record),
                _ => false,
            }
        }),
{
    assert(all_different(addresses) == addresses.no_duplicates()) by {
        if all_different(addresses) {
            assert forall|i: int, j: int|
                0 <= i < addresses.len() && 0 <= j < addresses.len() && i
                    != j implies addresses[i] != addresses[j] by {
                if j < i {
                    assert(addresses[j] != addresses[i]);
                }
            }
        }
    }
}

/// A record that was decrypted is accepted exactly where it can be read, belongs to the network and
/// the epoch, was issued by now and has not expired, is not valid for too long, stands under the
/// key of its endpoint, a member with its identity is listed, in force and not revoked, that
/// member's key can be one and signed it, it announces no address twice, each is one that the
/// member may announce at the endpoint, and its candidates can be published.
pub proof fn law_when_a_record_is_accepted(
    c: Config,
    opaque_key: [u8; 24],
    payload: Seq<u8>,
    signature: [u8; 64],
    now_ms: u64,
)
    ensures
        sealed::record_verdict(c, opaque_key, payload, signature, now_ms) is Ok <==> {
            &&& presence::read_payload(payload) matches Ok(r)
            &&& r.network_id == c.network_id
            &&& r.epoch == c.epoch
            &&& r.issued_at_ms <= now_ms < r.expires_at_ms
            &&& r.expires_at_ms - r.issued_at_ms <= 300000
            &&& opaque_key == sealed::lookup_key_of(
                c.epoch_secrets.presence_index_seed,
                r.endpoint_id,
            )
            &&& authorize::member_named(c.members, r.member_id) matches Some(m)
            &&& m.payload.not_before_ms <= now_ms < m.payload.expires_at_ms
            &&& forall|i: int|
                0 <= i < c.revoked_serials.len() ==> #[trigger] c.revoked_serials[i]
                    != m.payload.serial
            &&& outside::ed25519_key_ok(m.payload.signing_public_key@)
            &&& outside::ed25519_verifies(
                m.payload.signing_public_key@,
                keys::presence_transcript(payload),
                signature@,
            )
            &&& all_different(r.virtual_addrs)
            &&& forall|i: int|
                0 <= i < r.virtual_addrs.len() ==> authorize::authorized(
                    c,
                    r.member_id,
                    r.endpoint_id,
                    #[trigger] r.virtual_addrs[i],
                    now_ms,
                )
            &&& sealed::candidates_ok(r.candidates)
        },
        sealed::record_verdict(c, opaque_key, payload, signature, now_ms) matches Ok(r)
            ==> presence::read_payload(payload) == Ok::<Presence, DiscoveryError>(r),
{
    if presence::read_payload(payload) is Ok {
        let r = presence::read_payload(payload)->Ok_0;
        let addresses = r.virtual_addrs;
        assert(all_different(addresses) == addresses.no_duplicates()) by {
            if all_different(addresses) {
                assert forall|i: int, j: int|
                    0 <= i < addresses.len() && 0 <= j < addresses.len() && i
                        != j implies addresses[i] != addresses[j] by {
                    if j < i {
                        assert(addresses[j] != addresses[i]);
                    }
                }
            }
        }
    }
}

/// A sealed record is accepted exactly where it is of the epoch, decrypts under the epoch's own
/// keys, and what was sealed is accepted: its last sixty-four bytes are the signature of the rest.
pub proof fn law_when_a_sealed_record_is_accepted(
    c: Config,
    s: SealedPresence,
    now_ms: u64,
    payload: Seq<u8>,
    signature: [u8; 64],
)
    requires
        outside::xchacha_opened(
            sealed::record_key(c.epoch_secrets.presence_encryption_seed, s.epoch, s.opaque_key),
            s.nonce@,
            s.ciphertext,
            sealed::record_aad(s.version, s.epoch, s.opaque_key, s.nonce),
        ) == Some(payload + signature@),
    ensures
        s.epoch == c.epoch ==> sealed::presence_verdict(c, s, now_ms) == sealed::record_verdict(
            c,
            s.opaque_key,
            payload,
            signature,
            now_ms,
        ),
        s.epoch != c.epoch ==> sealed::presence_verdict(c, s, now_ms) == Err::<
            Presence,
            DiscoveryError,
        >(DiscoveryError::WrongEpoch),
{
    let plaintext = payload + signature@;
    assert(plaintext.subrange(0, payload.len() as int) =~= payload);
    assert(plaintext.subrange(payload.len() as int, plaintext.len() as int) =~= signature@);
    wire::lemma_array_of(signature);
}

/// Candidates can all be dialed exactly where the address of each relay is a URL; each is dialed as
/// it is, a relay at the canonical form of its URL.
pub proof fn law_which_candidates_are_dialed(s: Seq<Candidate>)
    ensures
        lookup::dialable(s) is Ok <==> forall|i: int|
            0 <= i < s.len() ==> ((#[trigger] s[i]) matches Candidate::Relay(url)
                ==> outside::relay_url_canonical(url) is Some),
        lookup::dialable(s) matches Ok(all) ==> all.len() == s.len() && forall|i: int|
            0 <= i < s.len() ==> #[trigger] all[i] == (match s[i] {
                Candidate::Ip(address) => Candidate::Ip(address),
                Candidate::Relay(url) => Candidate::Relay(
                    outside::relay_url_canonical(url)->Some_0,
                ),
            }),
        lookup::dialable(s) matches Err(reason) ==> reason == DiscoveryError::InvalidPresence,
    decreases s.len(),
{
    if s.len() > 0 {
        let front = s.drop_last();
        law_which_candidates_are_dialed(front);
        assert forall|i: int| 0 <= i < front.len() implies #[trigger] front[i] == s[i] by {}
        assert(s[s.len() - 1] == s.last());
        if lookup::dialable(front) is Err {
            let i = choose|i: int|
                0 <= i < front.len() && !((#[trigger] front[i]) matches Candidate::Relay(url)
                    ==> outside::relay_url_canonical(url) is Some);
            assert(s[i] == front[i]);
        } else if lookup::dialable(s) is Ok {
            let before = lookup::dialable(front)->Ok_0;
            let all = lookup::dialable(s)->Ok_0;
            assert forall|i: int| 0 <= i < s.len() implies ((#[trigger] s[i]) matches Candidate::Relay(
                url,
            ) ==> outside::relay_url_canonical(url) is Some) by {
                if i < front.len() {
                    assert(front[i] == s[i]);
                }
            }
            assert forall|i: int| 0 <= i < s.len() implies #[trigger] all[i] == (match s[i] {
                Candidate::Ip(address) => Candidate::Ip(address),
                Candidate::Relay(url) => Candidate::Relay(
                    outside::relay_url_canonical(url)->Some_0,
                ),
            }) by {
                if i < front.len() {
                    assert(all[i] == before[i]);
                    assert(front[i] == s[i]);
                }
            }
        } else {
            assert(s[s.len() - 1] == s.last());
        }
    }
}

/// What is dialed for an endpoint: the addresses seen in the local network first, in their order,
/// then what its presence says, in its order; nothing where neither is known.
pub proof fn law_what_is_dialed(k: lookup::Known)
    ensures
        ({
            let lan = match k.lan {
                Some(addresses) => addresses.len(),
                None => 0,
            };
            let announced = match k.presence {
                Some(candidates) => candidates.len(),
                None => 0,
            };
            &&& lookup::merged(k) is None <==> lan == 0 && announced == 0
            &&& lookup::merged(k) matches Some(all) ==> {
                &&& all.len() == lan + announced
                &&& forall|i: int|
                    0 <= i < lan ==> #[trigger] all[i] == Candidate::Ip(k.lan->Some_0[i])
                &&& forall|i: int|
                    lan <= i < all.len() ==> #[trigger] all[i] == k.presence->Some_0[i - lan]
            }
        }),
{
}

/// A sealed record is taken in exactly where the configuration is of the directory's network, the
/// record is accepted, it is not older than what is known of its endpoint and claims no address of
/// another, and its candidates can be dialed; it changes nothing exactly where it is known already.
pub proof fn law_when_a_record_is_taken_in(
    network: NetworkId,
    records: Seq<Presence>,
    c: Config,
    s: SealedPresence,
    now_ms: u64,
)
    ensures
        ({
            let verdict = directory::directory_verdict(network, records, c, s, now_ms);
            let opened = sealed::presence_verdict(c, s, now_ms);
            &&& verdict == Ok::<bool, DiscoveryError>(true) <==> {
                &&& c.network_id == network
                &&& opened matches Ok(r)
                &&& cache::apply_verdict(records, r) == Ok::<bool, DiscoveryError>(true)
                &&& lookup::dialable(r.candidates) is Ok
            }
            &&& verdict == Ok::<bool, DiscoveryError>(false) <==> {
                &&& c.network_id == network
                &&& opened matches Ok(r)
                &&& cache::apply_verdict(records, r) == Ok::<bool, DiscoveryError>(false)
            }
            &&& c.network_id != network ==> verdict == Err::<bool, DiscoveryError>(
                DiscoveryError::WrongNetwork,
            )
        }),
{
}

/// Why a record that was decrypted is refused: each reason means one thing.
pub proof fn law_why_a_record_is_refused(
    c: Config,
    opaque_key: [u8; 24],
    payload: Seq<u8>,
    signature: [u8; 64],
    now_ms: u64,
)
    ensures
        presence::read_payload(payload) matches Ok(r) ==> {
            let m = authorize::member_named(c.members, r.member_id);
            sealed::record_verdict(c, opaque_key, payload, signature, now_ms) matches Err(reason)
                ==> match reason {
                DiscoveryError::InvalidPresence => {
                    ||| r.network_id != c.network_id
                    ||| r.epoch != c.epoch
                    ||| now_ms < r.issued_at_ms
                    ||| r.expires_at_ms <= now_ms
                    ||| r.expires_at_ms - r.issued_at_ms > 300000
                    ||| opaque_key != sealed::lookup_key_of(
                        c.epoch_secrets.presence_index_seed,
                        r.endpoint_id,
                    )
                    ||| (m matches Some(m) && !(m.payload.not_before_ms <= now_ms
                        < m.payload.expires_at_ms && !c.revoked_serials.contains(m.payload.serial)))
                    ||| !r.virtual_addrs.no_duplicates()
                    ||| !sealed::candidates_ok(r.candidates)
                },
                DiscoveryError::NotAuthorized => m is None || exists|i: int|
                    0 <= i < r.virtual_addrs.len() && !authorize::authorized(
                        c,
                        r.member_id,
                        r.endpoint_id,
                        #[trigger] r.virtual_addrs[i],
                        now_ms,
                    ),
                DiscoveryError::Crypto(keys::CertificateError::MalformedKey) => m matches Some(m)
                    && !outside::ed25519_key_ok(m.payload.signing_public_key@),
                DiscoveryError::Crypto(keys::CertificateError::InvalidSignature) => m matches Some(m)
                    && !outside::ed25519_verifies(
                    m.payload.signing_public_key@,
                    keys::presence_transcript(payload),
                    signature@,
                ),
                _ => false,
            }
        },
{
}

} // verus!
