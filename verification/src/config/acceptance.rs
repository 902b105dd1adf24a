//! What it takes for a configuration to be accepted, list by list: not only does every accepted
//! configuration keep to the rules, every configuration that keeps to them is accepted.
use crate::config::snapshot;
use crate::config::snapshot::{Config, DnsRecord, NetworkPolicy, PresenceService, Relay,
    SnapshotError};
use crate::config::validate;
use crate::config::validate::{Context, Part};
use crate::crypto::admin;
use crate::crypto::admin::AdminCertificatePayload;
use crate::crypto::app;
use crate::crypto::app::AppRegistrationPayload;
use crate::crypto::endpoint;
use crate::crypto::keys;
use crate::crypto::keys::CertificateError;
use crate::crypto::member;
use crate::crypto::member::MemberCertificatePayload;
use crate::identifiers::{AppAddr, NetworkId};
use vstd::prelude::*;

verus! {

/// A list of which each item adds one entry is accepted as a whole.
proof fn lemma_all_accepted<A, T>(
    step: spec_fn(Seq<A>, T) -> Result<Seq<A>, SnapshotError>,
    s: Seq<T>,
    all: Seq<A>,
    n: int,
)
    requires
        0 <= n <= s.len(),
        all.len() == s.len(),
        forall|i: int|
            0 <= i < s.len() ==> step(all.take(i), #[trigger] s[i]) == Ok::<Seq<A>, SnapshotError>(
                all.take(i).push(all[i]),
            ),
    ensures
        validate::fold(step, Seq::empty(), s.take(n)) == Ok::<Seq<A>, SnapshotError>(all.take(n)),
    decreases n,
{
    if n > 0 {
        lemma_all_accepted(step, s, all, n - 1);
        validate::lemma_fold_step(step, Seq::empty(), s, n - 1);
        assert(all.take(n) =~= all.take(n - 1).push(all[n - 1]));
    } else {
        assert(all.take(0) =~= Seq::<A>::empty());
    }
}

/// A list that is refused is refused at one of its items, and all before it were accepted.
proof fn lemma_refused_at<A, T>(
    step: spec_fn(Seq<A>, T) -> Result<Seq<A>, SnapshotError>,
    s: Seq<T>,
) -> (i: int)
    requires
        validate::fold(step, Seq::empty(), s) is Err,
    ensures
        0 <= i < s.len(),
        validate::fold(step, Seq::empty(), s.take(i)) is Ok,
        step(validate::fold(step, Seq::empty(), s.take(i))->Ok_0, s[i]) == validate::fold(
            step,
            Seq::empty(),
            s,
        ),
    decreases s.len(),
{
    if validate::fold(step, Seq::empty(), s.drop_last()) is Err {
        let i = lemma_refused_at(step, s.drop_last());
        assert(s.drop_last().take(i) =~= s.take(i));
        i
    } else {
        assert(s.take(s.len() - 1) =~= s.drop_last());
        s.len() - 1
    }
}

/// The administrator that a search finds is the only one with the identifier.
proof fn lemma_the_admin(admins: Seq<AdminCertificatePayload>, k: int)
    requires
        0 <= k < admins.len(),
        forall|a: int, b: int| 0 <= a < b < admins.len()
            ==> (#[trigger] admins[a]).key_id != (#[trigger] admins[b]).key_id,
    ensures
        validate::admin_with(admins, admins[k].key_id) == Some(admins[k]),
{
    validate::lemma_admin_absent(admins, admins[k].key_id);
    let p = validate::admin_with(admins, admins[k].key_id)->Some_0;
    let i = choose|i: int| 0 <= i < admins.len() && admins[i] == p;
    assert(i == k);
}

/// The member that a search finds is the only one with the identity.
proof fn lemma_the_member(members: Seq<MemberCertificatePayload>, k: int)
    requires
        0 <= k < members.len(),
        forall|a: int, b: int| 0 <= a < b < members.len()
            ==> (#[trigger] members[a]).member_id != (#[trigger] members[b]).member_id,
    ensures
        validate::member_with(members, members[k].member_id) == Some(members[k]),
{
    validate::lemma_member_absent(members, members[k].member_id);
    let p = validate::member_with(members, members[k].member_id)->Some_0;
    let i = choose|i: int| 0 <= i < members.len() && members[i] == p;
    assert(i == k);
}

/// The application that a search finds is listed under the address.
proof fn lemma_app_found(apps: Seq<AppRegistrationPayload>, addr: AppAddr)
    ensures
        validate::app_with(apps, addr) matches Some(p) ==> p.app_addr == addr && apps.contains(p),
    decreases apps.len(),
{
    if apps.len() > 0 {
        lemma_app_found(apps.drop_last(), addr);
        if apps.last().app_addr == addr {
            assert(apps[apps.len() - 1] == apps.last());
        } else if validate::app_with(apps.drop_last(), addr) is Some {
            let p = validate::app_with(apps.drop_last(), addr)->Some_0;
            let i = choose|i: int| 0 <= i < apps.drop_last().len() && apps.drop_last()[i] == p;
            assert(apps[i] == p);
        }
    }
}

/// The application that a search finds is the only one with the address.
proof fn lemma_the_app(apps: Seq<AppRegistrationPayload>, k: int)
    requires
        0 <= k < apps.len(),
        forall|a: int, b: int| 0 <= a < b < apps.len()
            ==> (#[trigger] apps[a]).app_addr != (#[trigger] apps[b]).app_addr,
    ensures
        validate::app_with(apps, apps[k].app_addr) == Some(apps[k]),
{
    validate::lemma_app_absent(apps, apps[k].app_addr);
    lemma_app_found(apps, apps[k].app_addr);
    let p = validate::app_with(apps, apps[k].app_addr)->Some_0;
    let i = choose|i: int| 0 <= i < apps.len() && apps[i] == p;
    assert(i == k);
}

/// Whether an item of the administrators is a certificate of the root for this administrator.
pub open spec fn admin_listed(ctx: Context, item: Seq<u8>, entry: AdminCertificatePayload) -> bool {
    admin::read_signed_admin(item) matches Some(cert) && cert.payload == entry
        && admin::admin_verdict(cert, ctx.root, ctx.network, ctx.now_ms, ctx.revoked) is Ok
}

/// Administrators are accepted exactly where each item is a certificate that the root gave and that is in
/// force, and no two name the same key; each entry is what its certificate says.
pub proof fn law_admins_accepted(ctx: Context, items: Seq<Seq<u8>>,
    entries: Seq<AdminCertificatePayload>)
    ensures
        validate::fold(validate::admin_step(ctx), Seq::empty(), items)
            == Ok::<Seq<AdminCertificatePayload>, SnapshotError>(entries) <==> {
            &&& entries.len() == items.len()
            &&& forall|i: int| 0 <= i < items.len() ==> admin_listed(ctx, #[trigger] items[i],
                entries[i])
            &&& forall|i: int, j: int| 0 <= i < j < items.len()
                ==> (#[trigger] entries[i]).key_id != (#[trigger] entries[j]).key_id
        },
{
    let step = validate::admin_step(ctx);
    let right = {
        &&& entries.len() == items.len()
        &&& forall|i: int| 0 <= i < items.len() ==> admin_listed(ctx, #[trigger] items[i],
            entries[i])
        &&& forall|i: int, j: int| 0 <= i < j < items.len()
            ==> (#[trigger] entries[i]).key_id != (#[trigger] entries[j]).key_id
    };
    if right {
        assert forall|i: int| 0 <= i < items.len() implies step(entries.take(i),
            #[trigger] items[i]) == Ok::<Seq<AdminCertificatePayload>,
            SnapshotError>(entries.take(i).push(entries[i])) by {
            assert(admin_listed(ctx, items[i], entries[i]));
            validate::lemma_admin_absent(entries.take(i), entries[i].key_id);
            assert forall|k: int| 0 <= k < i
                implies (#[trigger] entries.take(i)[k]).key_id != entries[i].key_id by {
                assert(entries[k] == entries.take(i)[k]);
            }
        }
        lemma_all_accepted(step, items, entries, items.len() as int);
        assert(items.take(items.len() as int) =~= items);
        assert(entries.take(items.len() as int) =~= entries);
    }
    if validate::fold(step, Seq::empty(), items) == Ok::<Seq<AdminCertificatePayload>,
        SnapshotError>(entries) {
        assert(validate::pushes(step));
        validate::lemma_accepted_each(step, items);
        assert forall|i: int| 0 <= i < items.len() implies admin_listed(ctx, #[trigger] items[i],
            entries[i]) by {
            assert(step(entries.take(i), items[i]) is Ok);
            assert(entries.take(i + 1)[i] == entries[i]);
        }
        assert forall|i: int, j: int| 0 <= i < j < items.len()
            implies (#[trigger] entries[i]).key_id != (#[trigger] entries[j]).key_id by {
            assert(step(entries.take(j), items[j]) is Ok);
            assert(entries.take(j + 1)[j] == entries[j]);
            assert(entries.take(j)[i] == entries[i]);
            validate::lemma_admin_absent(entries.take(j), entries[j].key_id);
        }
        assert(right);
    }
}

/// Whether an item of the members is a certificate for this member from the root or from a listed
/// administrator.
pub open spec fn member_listed(ctx: Context, admins: Seq<AdminCertificatePayload>, item: Seq<u8>,
    entry: MemberCertificatePayload) -> bool {
    member::read_signed_member(item) matches Some(cert) && cert.payload == entry
        && if entry.issuer_key_id == keys::root_key_id(ctx.root) {
        member::member_verdict(cert, ctx.root, ctx.network, ctx.now_ms, ctx.revoked) is Ok
    } else {
        exists|k: int| 0 <= k < admins.len() && (#[trigger] admins[k]).key_id
            == entry.issuer_key_id && member::member_admin_verdict(cert, admins[k], ctx.network,
            ctx.now_ms, ctx.revoked) is Ok
    }
}

/// Members are accepted exactly where each item is a certificate in force from the root or from one of
/// the administrators, and no two name the same member; each entry is what its certificate says.
pub proof fn law_members_accepted(ctx: Context, admins: Seq<AdminCertificatePayload>,
    items: Seq<Seq<u8>>, entries: Seq<MemberCertificatePayload>)
    requires
    forall|a: int, b: int| 0 <= a < b < admins.len()
        ==> (#[trigger] admins[a]).key_id != (#[trigger] admins[b]).key_id,
    ensures
        validate::fold(validate::member_step(ctx, admins), Seq::empty(), items)
            == Ok::<Seq<MemberCertificatePayload>, SnapshotError>(entries) <==> {
            &&& entries.len() == items.len()
            &&& forall|i: int| 0 <= i < items.len() ==> member_listed(ctx, admins,
                #[trigger] items[i], entries[i])
            &&& forall|i: int, j: int| 0 <= i < j < items.len()
                ==> (#[trigger] entries[i]).member_id != (#[trigger] entries[j]).member_id
        },
{
    let step = validate::member_step(ctx, admins);
    let right = {
        &&& entries.len() == items.len()
        &&& forall|i: int| 0 <= i < items.len() ==> member_listed(ctx, admins,
            #[trigger] items[i], entries[i])
        &&& forall|i: int, j: int| 0 <= i < j < items.len()
            ==> (#[trigger] entries[i]).member_id != (#[trigger] entries[j]).member_id
    };
    if right {
        assert forall|i: int| 0 <= i < items.len() implies step(entries.take(i),
            #[trigger] items[i]) == Ok::<Seq<MemberCertificatePayload>,
            SnapshotError>(entries.take(i).push(entries[i])) by {
            assert(member_listed(ctx, admins, items[i], entries[i]));
            validate::lemma_member_absent(entries.take(i), entries[i].member_id);
            assert forall|k: int| 0 <= k < i
                implies (#[trigger] entries.take(i)[k]).member_id != entries[i].member_id by {
                assert(entries[k] == entries.take(i)[k]);
            }
            if entries[i].issuer_key_id != keys::root_key_id(ctx.root) {
                let cert = member::read_signed_member(items[i])->Some_0;
                let k = choose|k: int| 0 <= k < admins.len()
                    && (#[trigger] admins[k]).key_id == entries[i].issuer_key_id
                    && member::member_admin_verdict(cert, admins[k], ctx.network, ctx.now_ms,
                    ctx.revoked) is Ok;
                lemma_the_admin(admins, k);
            }
        }
        lemma_all_accepted(step, items, entries, items.len() as int);
        assert(items.take(items.len() as int) =~= items);
        assert(entries.take(items.len() as int) =~= entries);
    }
    if validate::fold(step, Seq::empty(), items) == Ok::<Seq<MemberCertificatePayload>,
        SnapshotError>(entries) {
        assert(validate::pushes(step));
        validate::lemma_accepted_each(step, items);
        assert forall|i: int| 0 <= i < items.len() implies member_listed(ctx, admins,
            #[trigger] items[i], entries[i]) by {
            assert(step(entries.take(i), items[i]) is Ok);
            assert(entries.take(i + 1)[i] == entries[i]);
            validate::lemma_admin_absent(admins, entries[i].issuer_key_id);
            if entries[i].issuer_key_id != keys::root_key_id(ctx.root) {
                let p = validate::admin_with(admins, entries[i].issuer_key_id)->Some_0;
                let k = choose|k: int| 0 <= k < admins.len() && admins[k] == p;
                assert(admins[k].key_id == entries[i].issuer_key_id);
            }
        }
        assert forall|i: int, j: int| 0 <= i < j < items.len()
            implies (#[trigger] entries[i]).member_id != (#[trigger] entries[j]).member_id by {
            assert(step(entries.take(j), items[j]) is Ok);
            assert(entries.take(j + 1)[j] == entries[j]);
            assert(entries.take(j)[i] == entries[i]);
            validate::lemma_member_absent(entries.take(j), entries[j].member_id);
        }
        assert(right);
    }
}

/// Whether an item of the applications is a registration of this application by the root or by a
/// listed administrator.
pub open spec fn app_listed(ctx: Context, admins: Seq<AdminCertificatePayload>, item: Seq<u8>,
    entry: AppRegistrationPayload) -> bool {
    app::read_signed_app_registration(item) matches Some(cert) && cert.payload == entry
        && if entry.issuer_key_id == keys::root_key_id(ctx.root) {
        app::app_verdict(cert, ctx.root, ctx.network) is Ok
    } else {
        exists|k: int| 0 <= k < admins.len() && (#[trigger] admins[k]).key_id
            == entry.issuer_key_id && app::app_admin_verdict(cert, admins[k], ctx.network) is Ok
    }
}

/// Applications are accepted exactly where each item was registered by the root or by one of the
/// administrators, and no two name the same application; each entry is what was registered.
pub proof fn law_apps_accepted(ctx: Context, admins: Seq<AdminCertificatePayload>,
    items: Seq<Seq<u8>>, entries: Seq<AppRegistrationPayload>)
    requires
    forall|a: int, b: int| 0 <= a < b < admins.len()
        ==> (#[trigger] admins[a]).key_id != (#[trigger] admins[b]).key_id,
    ensures
        validate::fold(validate::app_step(ctx, admins), Seq::empty(), items)
            == Ok::<Seq<AppRegistrationPayload>, SnapshotError>(entries) <==> {
            &&& entries.len() == items.len()
            &&& forall|i: int| 0 <= i < items.len() ==> app_listed(ctx, admins,
                #[trigger] items[i], entries[i])
            &&& forall|i: int, j: int| 0 <= i < j < items.len()
                ==> (#[trigger] entries[i]).app_addr != (#[trigger] entries[j]).app_addr
        },
{
    let step = validate::app_step(ctx, admins);
    let right = {
        &&& entries.len() == items.len()
        &&& forall|i: int| 0 <= i < items.len() ==> app_listed(ctx, admins, #[trigger] items[i],
            entries[i])
        &&& forall|i: int, j: int| 0 <= i < j < items.len()
            ==> (#[trigger] entries[i]).app_addr != (#[trigger] entries[j]).app_addr
    };
    if right {
        assert forall|i: int| 0 <= i < items.len() implies step(entries.take(i),
            #[trigger] items[i]) == Ok::<Seq<AppRegistrationPayload>,
            SnapshotError>(entries.take(i).push(entries[i])) by {
            assert(app_listed(ctx, admins, items[i], entries[i]));
            validate::lemma_app_absent(entries.take(i), entries[i].app_addr);
            assert forall|k: int| 0 <= k < i
                implies (#[trigger] entries.take(i)[k]).app_addr != entries[i].app_addr by {
                assert(entries[k] == entries.take(i)[k]);
            }
            if entries[i].issuer_key_id != keys::root_key_id(ctx.root) {
                let cert = app::read_signed_app_registration(items[i])->Some_0;
                let k = choose|k: int| 0 <= k < admins.len()
                    && (#[trigger] admins[k]).key_id == entries[i].issuer_key_id
                    && app::app_admin_verdict(cert, admins[k], ctx.network) is Ok;
                lemma_the_admin(admins, k);
            }
        }
        lemma_all_accepted(step, items, entries, items.len() as int);
        assert(items.take(items.len() as int) =~= items);
        assert(entries.take(items.len() as int) =~= entries);
    }
    if validate::fold(step, Seq::empty(), items) == Ok::<Seq<AppRegistrationPayload>,
        SnapshotError>(entries) {
        assert(validate::pushes(step));
        validate::lemma_accepted_each(step, items);
        assert forall|i: int| 0 <= i < items.len() implies app_listed(ctx, admins,
            #[trigger] items[i], entries[i]) by {
            assert(step(entries.take(i), items[i]) is Ok);
            assert(entries.take(i + 1)[i] == entries[i]);
            validate::lemma_admin_absent(admins, entries[i].issuer_key_id);
            if entries[i].issuer_key_id != keys::root_key_id(ctx.root) {
                let p = validate::admin_with(admins, entries[i].issuer_key_id)->Some_0;
                let k = choose|k: int| 0 <= k < admins.len() && admins[k] == p;
                assert(admins[k].key_id == entries[i].issuer_key_id);
            }
        }
        assert forall|i: int, j: int| 0 <= i < j < items.len()
            implies (#[trigger] entries[i]).app_addr != (#[trigger] entries[j]).app_addr by {
            assert(step(entries.take(j), items[j]) is Ok);
            assert(entries.take(j + 1)[j] == entries[j]);
            assert(entries.take(j)[i] == entries[i]);
            validate::lemma_app_absent(entries.take(j), entries[j].app_addr);
        }
        assert(right);
    }
}

/// Whether an item of the endpoints binds this endpoint to a listed member.
pub open spec fn endpoint_listed(ctx: Context, members: Seq<MemberCertificatePayload>,
    item: Seq<u8>, entry: [u8; 32]) -> bool {
    endpoint::read_signed_endpoint(item) matches Some(b) && b.payload.endpoint_id == entry
        && exists|k: int| 0 <= k < members.len() && (#[trigger] members[k]).member_id
        == b.payload.member_id && endpoint::endpoint_verdict(b, members[k], ctx.network, entry,
        ctx.now_ms) is Ok
}

/// Endpoints are accepted exactly where each item binds its endpoint to one of the members, and no
/// endpoint is bound twice.
pub proof fn law_endpoints_accepted(ctx: Context, members: Seq<MemberCertificatePayload>,
    items: Seq<Seq<u8>>, entries: Seq<[u8; 32]>)
    requires
    forall|a: int, b: int| 0 <= a < b < members.len()
        ==> (#[trigger] members[a]).member_id != (#[trigger] members[b]).member_id,
    ensures
        validate::fold(validate::endpoint_step(ctx, members), Seq::empty(), items)
            == Ok::<Seq<[u8; 32]>, SnapshotError>(entries) <==> {
            &&& entries.len() == items.len()
            &&& forall|i: int| 0 <= i < items.len() ==> endpoint_listed(ctx, members,
                #[trigger] items[i], entries[i])
            &&& forall|i: int, j: int| 0 <= i < j < items.len()
                ==> (#[trigger] entries[i]) != (#[trigger] entries[j])
        },
{
    let step = validate::endpoint_step(ctx, members);
    let right = {
        &&& entries.len() == items.len()
        &&& forall|i: int| 0 <= i < items.len() ==> endpoint_listed(ctx, members,
            #[trigger] items[i], entries[i])
        &&& forall|i: int, j: int| 0 <= i < j < items.len()
            ==> (#[trigger] entries[i]) != (#[trigger] entries[j])
    };
    if right {
        assert forall|i: int| 0 <= i < items.len() implies step(entries.take(i),
            #[trigger] items[i]) == Ok::<Seq<[u8; 32]>,
            SnapshotError>(entries.take(i).push(entries[i])) by {
            assert(endpoint_listed(ctx, members, items[i], entries[i]));
            assert(!entries.take(i).contains(entries[i])) by {
                if entries.take(i).contains(entries[i]) {
                    let k = choose|k: int| 0 <= k < i && entries.take(i)[k] == entries[i];
                    assert(entries[k] == entries[i]);
                }
            }
            let b = endpoint::read_signed_endpoint(items[i])->Some_0;
            let k = choose|k: int| 0 <= k < members.len() && (#[trigger] members[k]).member_id
                == b.payload.member_id && endpoint::endpoint_verdict(b, members[k], ctx.network,
                entries[i], ctx.now_ms) is Ok;
            lemma_the_member(members, k);
        }
        lemma_all_accepted(step, items, entries, items.len() as int);
        assert(items.take(items.len() as int) =~= items);
        assert(entries.take(items.len() as int) =~= entries);
    }
    if validate::fold(step, Seq::empty(), items) == Ok::<Seq<[u8; 32]>, SnapshotError>(entries) {
        assert(validate::pushes(step));
        validate::lemma_accepted_each(step, items);
        assert forall|i: int| 0 <= i < items.len() implies endpoint_listed(ctx, members,
            #[trigger] items[i], entries[i]) by {
            assert(step(entries.take(i), items[i]) is Ok);
            assert(entries.take(i + 1)[i] == entries[i]);
            let b = endpoint::read_signed_endpoint(items[i])->Some_0;
            validate::lemma_member_absent(members, b.payload.member_id);
            let p = validate::member_with(members, b.payload.member_id)->Some_0;
            let k = choose|k: int| 0 <= k < members.len() && members[k] == p;
            assert(members[k].member_id == b.payload.member_id);
        }
        assert forall|i: int, j: int| 0 <= i < j < items.len()
            implies (#[trigger] entries[i]) != (#[trigger] entries[j]) by {
            assert(step(entries.take(j), items[j]) is Ok);
            assert(entries.take(j + 1)[j] == entries[j]);
            assert(entries.take(j)[i] == entries[i]);
            assert(entries.take(j).contains(entries.take(j)[i]));
        }
        assert(right);
    }
}

/// Whether an item of the bindings gives a listed member this part in a listed application, with no
/// more services than the policy allows.
pub open spec fn binding_listed(ctx: Context, policy: NetworkPolicy,
    apps: Seq<AppRegistrationPayload>, members: Seq<MemberCertificatePayload>, item: Seq<u8>,
    entry: Part) -> bool {
    &&& app::read_signed_binding(item) matches Ok(b)
    &&& (b.payload.app_addr, b.payload.subject, b.payload.role) == entry
    &&& b.payload.services.len() <= policy.max_services_per_binding
    &&& exists|k: int, m: int| 0 <= k < apps.len() && 0 <= m < members.len()
        && (#[trigger] apps[k]).app_addr == b.payload.app_addr
        && (#[trigger] members[m]).member_id == b.payload.subject
        && app::binding_verdict(b, apps[k], members[m], ctx.network, ctx.now_ms) is Ok
}

/// Bindings are accepted exactly where each item gives one of the members a part in one of the
/// applications, with no more services than the policy allows, and no part is given twice.
pub proof fn law_bindings_accepted(ctx: Context, policy: NetworkPolicy,
    apps: Seq<AppRegistrationPayload>, members: Seq<MemberCertificatePayload>,
    items: Seq<Seq<u8>>, entries: Seq<Part>)
    requires
    forall|a: int, b: int| 0 <= a < b < apps.len()
        ==> (#[trigger] apps[a]).app_addr != (#[trigger] apps[b]).app_addr,
    forall|a: int, b: int| 0 <= a < b < members.len()
        ==> (#[trigger] members[a]).member_id != (#[trigger] members[b]).member_id,
    ensures
        validate::fold(validate::binding_step(ctx, policy, apps, members), Seq::empty(), items)
            == Ok::<Seq<Part>, SnapshotError>(entries) <==> {
            &&& entries.len() == items.len()
            &&& forall|i: int| 0 <= i < items.len() ==> binding_listed(ctx, policy, apps, members,
                #[trigger] items[i], entries[i])
            &&& forall|i: int, j: int| 0 <= i < j < items.len()
                ==> (#[trigger] entries[i]) != (#[trigger] entries[j])
        },
{
    let step = validate::binding_step(ctx, policy, apps, members);
    let right = {
        &&& entries.len() == items.len()
        &&& forall|i: int| 0 <= i < items.len() ==> binding_listed(ctx, policy, apps, members,
            #[trigger] items[i], entries[i])
        &&& forall|i: int, j: int| 0 <= i < j < items.len()
            ==> (#[trigger] entries[i]) != (#[trigger] entries[j])
    };
    if right {
        assert forall|i: int| 0 <= i < items.len() implies step(entries.take(i),
            #[trigger] items[i]) == Ok::<Seq<Part>,
            SnapshotError>(entries.take(i).push(entries[i])) by {
            assert(binding_listed(ctx, policy, apps, members, items[i], entries[i]));
            assert(!entries.take(i).contains(entries[i])) by {
                if entries.take(i).contains(entries[i]) {
                    let k = choose|k: int| 0 <= k < i && entries.take(i)[k] == entries[i];
                    assert(entries[k] == entries[i]);
                }
            }
            let b = app::read_signed_binding(items[i])->Ok_0;
            let (k, m) = choose|k: int, m: int| 0 <= k < apps.len() && 0 <= m < members.len()
                && (#[trigger] apps[k]).app_addr == b.payload.app_addr
                && (#[trigger] members[m]).member_id == b.payload.subject
                && app::binding_verdict(b, apps[k], members[m], ctx.network, ctx.now_ms) is Ok;
            lemma_the_app(apps, k);
            lemma_the_member(members, m);
        }
        lemma_all_accepted(step, items, entries, items.len() as int);
        assert(items.take(items.len() as int) =~= items);
        assert(entries.take(items.len() as int) =~= entries);
    }
    if validate::fold(step, Seq::empty(), items) == Ok::<Seq<Part>, SnapshotError>(entries) {
        assert(validate::pushes(step));
        validate::lemma_accepted_each(step, items);
        assert forall|i: int| 0 <= i < items.len() implies binding_listed(ctx, policy, apps,
            members, #[trigger] items[i], entries[i]) by {
            assert(step(entries.take(i), items[i]) is Ok);
            assert(entries.take(i + 1)[i] == entries[i]);
            let b = app::read_signed_binding(items[i])->Ok_0;
            validate::lemma_member_absent(members, b.payload.subject);
            lemma_app_found(apps, b.payload.app_addr);
            let p = validate::app_with(apps, b.payload.app_addr)->Some_0;
            let q = validate::member_with(members, b.payload.subject)->Some_0;
            let k = choose|k: int| 0 <= k < apps.len() && apps[k] == p;
            let m = choose|m: int| 0 <= m < members.len() && members[m] == q;
            assert(apps[k].app_addr == b.payload.app_addr && members[m].member_id
                == b.payload.subject);
        }
        assert forall|i: int, j: int| 0 <= i < j < items.len()
            implies (#[trigger] entries[i]) != (#[trigger] entries[j]) by {
            assert(step(entries.take(j), items[j]) is Ok);
            assert(entries.take(j + 1)[j] == entries[j]);
            assert(entries.take(j)[i] == entries[i]);
            assert(entries.take(j).contains(entries.take(j)[i]));
        }
        assert(right);
    }
}

/// Whether a record of this name stands for a listed application and expires in the window.
pub open spec fn name_listed(apps: Seq<AppRegistrationPayload>, issued_at_ms: u64,
    expires_at_ms: u64, item: DnsRecord, entry: Seq<char>) -> bool {
    &&& item.name == entry
    &&& issued_at_ms < item.expires_at_ms <= expires_at_ms
    &&& exists|k: int| 0 <= k < apps.len() && (#[trigger] apps[k]).app_addr == item.app_addr
}

/// Names are accepted exactly where each stands for one of the applications and expires within the
/// window of the configuration, and none is listed twice.
pub proof fn law_names_accepted(apps: Seq<AppRegistrationPayload>, issued_at_ms: u64,
    expires_at_ms: u64, items: Seq<DnsRecord>, entries: Seq<Seq<char>>)
    ensures
        validate::fold(validate::name_step(apps, issued_at_ms, expires_at_ms), Seq::empty(), items)
            == Ok::<Seq<Seq<char>>, SnapshotError>(entries) <==> {
            &&& entries.len() == items.len()
            &&& forall|i: int| 0 <= i < items.len() ==> name_listed(apps, issued_at_ms,
                expires_at_ms, #[trigger] items[i], entries[i])
            &&& forall|i: int, j: int| 0 <= i < j < items.len()
                ==> (#[trigger] entries[i]) != (#[trigger] entries[j])
        },
{
    let step = validate::name_step(apps, issued_at_ms, expires_at_ms);
    let right = {
        &&& entries.len() == items.len()
        &&& forall|i: int| 0 <= i < items.len() ==> name_listed(apps, issued_at_ms, expires_at_ms,
            #[trigger] items[i], entries[i])
        &&& forall|i: int, j: int| 0 <= i < j < items.len()
            ==> (#[trigger] entries[i]) != (#[trigger] entries[j])
    };
    if right {
        assert forall|i: int| 0 <= i < items.len() implies step(entries.take(i),
            #[trigger] items[i]) == Ok::<Seq<Seq<char>>,
            SnapshotError>(entries.take(i).push(entries[i])) by {
            assert(name_listed(apps, issued_at_ms, expires_at_ms, items[i], entries[i]));
            assert(!entries.take(i).contains(entries[i])) by {
                if entries.take(i).contains(entries[i]) {
                    let k = choose|k: int| 0 <= k < i && entries.take(i)[k] == entries[i];
                    assert(entries[k] == entries[i]);
                }
            }
            validate::lemma_app_absent(apps, items[i].app_addr);
        }
        lemma_all_accepted(step, items, entries, items.len() as int);
        assert(items.take(items.len() as int) =~= items);
        assert(entries.take(items.len() as int) =~= entries);
    }
    if validate::fold(step, Seq::empty(), items) == Ok::<Seq<Seq<char>>, SnapshotError>(entries) {
        assert(validate::pushes(step));
        validate::lemma_accepted_each(step, items);
        assert forall|i: int| 0 <= i < items.len() implies name_listed(apps, issued_at_ms,
            expires_at_ms, #[trigger] items[i], entries[i]) by {
            assert(step(entries.take(i), items[i]) is Ok);
            assert(entries.take(i + 1)[i] == entries[i]);
            validate::lemma_app_absent(apps, items[i].app_addr);
        }
        assert forall|i: int, j: int| 0 <= i < j < items.len()
            implies (#[trigger] entries[i]) != (#[trigger] entries[j]) by {
            assert(step(entries.take(j), items[j]) is Ok);
            assert(entries.take(j + 1)[j] == entries[j]);
            assert(entries.take(j)[i] == entries[i]);
            assert(entries.take(j).contains(entries.take(j)[i]));
        }
        assert(right);
    }
}

/// Whether a descriptor names this endpoint, has an address that can be written, and has not expired.
pub open spec fn relay_listed(now_ms: u64, item: Relay, entry: [u8; 32]) -> bool {
    item.endpoint_id == entry && snapshot::url_ok(item.url) && now_ms < item.expires_at_ms
}

/// Relays are accepted exactly where each has an address that can be written and has not expired, and
/// no two name the same endpoint.
pub proof fn law_relays_accepted(now_ms: u64, items: Seq<Relay>, entries: Seq<[u8; 32]>)
    ensures
        validate::fold(validate::relay_step(now_ms), Seq::empty(), items) == Ok::<Seq<[u8; 32]>,
            SnapshotError>(entries) <==> {
            &&& entries.len() == items.len()
            &&& forall|i: int| 0 <= i < items.len() ==> relay_listed(now_ms, #[trigger] items[i],
                entries[i])
            &&& forall|i: int, j: int| 0 <= i < j < items.len()
                ==> (#[trigger] entries[i]) != (#[trigger] entries[j])
        },
{
    let step = validate::relay_step(now_ms);
    let right = {
        &&& entries.len() == items.len()
        &&& forall|i: int| 0 <= i < items.len() ==> relay_listed(now_ms, #[trigger] items[i],
            entries[i])
        &&& forall|i: int, j: int| 0 <= i < j < items.len()
            ==> (#[trigger] entries[i]) != (#[trigger] entries[j])
    };
    if right {
        assert forall|i: int| 0 <= i < items.len() implies step(entries.take(i),
            #[trigger] items[i]) == Ok::<Seq<[u8; 32]>,
            SnapshotError>(entries.take(i).push(entries[i])) by {
            assert(relay_listed(now_ms, items[i], entries[i]));
            assert(!entries.take(i).contains(entries[i])) by {
                if entries.take(i).contains(entries[i]) {
                    let k = choose|k: int| 0 <= k < i && entries.take(i)[k] == entries[i];
                    assert(entries[k] == entries[i]);
                }
            }
        }
        lemma_all_accepted(step, items, entries, items.len() as int);
        assert(items.take(items.len() as int) =~= items);
        assert(entries.take(items.len() as int) =~= entries);
    }
    if validate::fold(step, Seq::empty(), items) == Ok::<Seq<[u8; 32]>, SnapshotError>(entries) {
        assert(validate::pushes(step));
        validate::lemma_accepted_each(step, items);
        assert forall|i: int| 0 <= i < items.len() implies relay_listed(now_ms,
            #[trigger] items[i], entries[i]) by {
            assert(step(entries.take(i), items[i]) is Ok);
            assert(entries.take(i + 1)[i] == entries[i]);
        }
        assert forall|i: int, j: int| 0 <= i < j < items.len()
            implies (#[trigger] entries[i]) != (#[trigger] entries[j]) by {
            assert(step(entries.take(j), items[j]) is Ok);
            assert(entries.take(j + 1)[j] == entries[j]);
            assert(entries.take(j)[i] == entries[i]);
            assert(entries.take(j).contains(entries.take(j)[i]));
        }
        assert(right);
    }
}

/// Whether a descriptor names this endpoint, has an address that can be written, and has not expired.
pub open spec fn service_listed(now_ms: u64, item: PresenceService, entry: [u8; 32]) -> bool {
    item.endpoint_id == entry && snapshot::url_ok(item.url) && now_ms < item.expires_at_ms
}

/// Presence services are accepted exactly where each has an address that can be written and has not expired, and
/// no two name the same endpoint.
pub proof fn law_services_accepted(now_ms: u64, items: Seq<PresenceService>, entries: Seq<[u8; 32]>)
    ensures
        validate::fold(validate::service_step(now_ms), Seq::empty(), items) == Ok::<Seq<[u8; 32]>,
            SnapshotError>(entries) <==> {
            &&& entries.len() == items.len()
            &&& forall|i: int| 0 <= i < items.len() ==> service_listed(now_ms,
                #[trigger] items[i], entries[i])
            &&& forall|i: int, j: int| 0 <= i < j < items.len()
                ==> (#[trigger] entries[i]) != (#[trigger] entries[j])
        },
{
    let step = validate::service_step(now_ms);
    let right = {
        &&& entries.len() == items.len()
        &&& forall|i: int| 0 <= i < items.len() ==> service_listed(now_ms, #[trigger] items[i],
            entries[i])
        &&& forall|i: int, j: int| 0 <= i < j < items.len()
            ==> (#[trigger] entries[i]) != (#[trigger] entries[j])
    };
    if right {
        assert forall|i: int| 0 <= i < items.len() implies step(entries.take(i),
            #[trigger] items[i]) == Ok::<Seq<[u8; 32]>,
            SnapshotError>(entries.take(i).push(entries[i])) by {
            assert(service_listed(now_ms, items[i], entries[i]));
            assert(!entries.take(i).contains(entries[i])) by {
                if entries.take(i).contains(entries[i]) {
                    let k = choose|k: int| 0 <= k < i && entries.take(i)[k] == entries[i];
                    assert(entries[k] == entries[i]);
                }
            }
        }
        lemma_all_accepted(step, items, entries, items.len() as int);
        assert(items.take(items.len() as int) =~= items);
        assert(entries.take(items.len() as int) =~= entries);
    }
    if validate::fold(step, Seq::empty(), items) == Ok::<Seq<[u8; 32]>, SnapshotError>(entries) {
        assert(validate::pushes(step));
        validate::lemma_accepted_each(step, items);
        assert forall|i: int| 0 <= i < items.len() implies service_listed(now_ms,
            #[trigger] items[i], entries[i]) by {
            assert(step(entries.take(i), items[i]) is Ok);
            assert(entries.take(i + 1)[i] == entries[i]);
        }
        assert forall|i: int, j: int| 0 <= i < j < items.len()
            implies (#[trigger] entries[i]) != (#[trigger] entries[j]) by {
            assert(step(entries.take(j), items[j]) is Ok);
            assert(entries.take(j + 1)[j] == entries[j]);
            assert(entries.take(j)[i] == entries[i]);
            assert(entries.take(j).contains(entries.take(j)[i]));
        }
        assert(right);
    }
}

/// Relays are refused only for what is wrong with one of them, or as listed twice where two of them name
/// the same endpoint.
pub proof fn law_relays_refused(now_ms: u64, items: Seq<Relay>)
    ensures
        validate::fold(validate::relay_step(now_ms), Seq::empty(), items) matches Err(reason)
            ==> match reason {
            SnapshotError::InvalidLength => exists|i: int| 0 <= i < items.len()
                && !snapshot::url_ok((#[trigger] items[i]).url),
            SnapshotError::Expired => exists|i: int| 0 <= i < items.len()
                && (#[trigger] items[i]).expires_at_ms <= now_ms,
            SnapshotError::DuplicateEntry(what) => what == "relay endpoint"
                && exists|k: int, i: int| 0 <= k < i < items.len()
                && (#[trigger] items[k]).endpoint_id == (#[trigger] items[i]).endpoint_id,
            _ => false,
        },
{
    let step = validate::relay_step(now_ms);
    if validate::fold(step, Seq::empty(), items) is Err {
        let i = lemma_refused_at(step, items);
        let before = validate::fold(step, Seq::empty(), items.take(i))->Ok_0;
        law_relays_accepted(now_ms, items.take(i), before);
        if before.contains(items[i].endpoint_id) {
            let k = choose|k: int| 0 <= k < before.len() && before[k] == items[i].endpoint_id;
            assert(relay_listed(now_ms, items.take(i)[k], before[k]));
            assert(items.take(i)[k] == items[k]);
            assert(items[k].endpoint_id == items[i].endpoint_id);
        }
    }
}

/// Presence services are refused only for what is wrong with one of them, or as listed twice where two of them name
/// the same endpoint.
pub proof fn law_services_refused(now_ms: u64, items: Seq<PresenceService>)
    ensures
        validate::fold(validate::service_step(now_ms), Seq::empty(), items) matches Err(reason)
            ==> match reason {
            SnapshotError::InvalidLength => exists|i: int| 0 <= i < items.len()
                && !snapshot::url_ok((#[trigger] items[i]).url),
            SnapshotError::Expired => exists|i: int| 0 <= i < items.len()
                && (#[trigger] items[i]).expires_at_ms <= now_ms,
            SnapshotError::DuplicateEntry(what) => what == "presence endpoint"
                && exists|k: int, i: int| 0 <= k < i < items.len()
                && (#[trigger] items[k]).endpoint_id == (#[trigger] items[i]).endpoint_id,
            _ => false,
        },
{
    let step = validate::service_step(now_ms);
    if validate::fold(step, Seq::empty(), items) is Err {
        let i = lemma_refused_at(step, items);
        let before = validate::fold(step, Seq::empty(), items.take(i))->Ok_0;
        law_services_accepted(now_ms, items.take(i), before);
        if before.contains(items[i].endpoint_id) {
            let k = choose|k: int| 0 <= k < before.len() && before[k] == items[i].endpoint_id;
            assert(service_listed(now_ms, items.take(i)[k], before[k]));
            assert(items.take(i)[k] == items[k]);
            assert(items[k].endpoint_id == items[i].endpoint_id);
        }
    }
}

/// Names are refused only where one stands for no listed application, expires outside the window, or is
/// listed twice.
pub proof fn law_names_refused(apps: Seq<AppRegistrationPayload>, issued_at_ms: u64,
    expires_at_ms: u64, items: Seq<DnsRecord>)
    ensures
        validate::fold(validate::name_step(apps, issued_at_ms, expires_at_ms), Seq::empty(),
            items) matches Err(reason) ==> match reason {
            SnapshotError::UnknownApplication => exists|i: int| 0 <= i < items.len()
                && forall|k: int| 0 <= k < apps.len()
                ==> (#[trigger] apps[k]).app_addr != (#[trigger] items[i]).app_addr,
            SnapshotError::InvalidValidityWindow => exists|i: int| 0 <= i < items.len()
                && !(issued_at_ms < (#[trigger] items[i]).expires_at_ms <= expires_at_ms),
            SnapshotError::DuplicateEntry(what) => what == "virtual DNS name"
                && exists|k: int, i: int| 0 <= k < i < items.len()
                && (#[trigger] items[k]).name == (#[trigger] items[i]).name,
            _ => false,
        },
{
    let step = validate::name_step(apps, issued_at_ms, expires_at_ms);
    if validate::fold(step, Seq::empty(), items) is Err {
        let i = lemma_refused_at(step, items);
        let before = validate::fold(step, Seq::empty(), items.take(i))->Ok_0;
        law_names_accepted(apps, issued_at_ms, expires_at_ms, items.take(i), before);
        validate::lemma_app_absent(apps, items[i].app_addr);
        if before.contains(items[i].name) {
            let k = choose|k: int| 0 <= k < before.len() && before[k] == items[i].name;
            assert(name_listed(apps, issued_at_ms, expires_at_ms, items.take(i)[k], before[k]));
            assert(items.take(i)[k] == items[k]);
            assert(items[k].name == items[i].name);
        }
    }
}

/// Whether two items are certificates for one administrator key.
pub open spec fn same_admin(a: Seq<u8>, b: Seq<u8>) -> bool {
    admin::read_signed_admin(a) matches Some(x) && admin::read_signed_admin(b) matches Some(y)
        && x.payload.key_id == y.payload.key_id
}

/// Whether two items are certificates for one member.
pub open spec fn same_member(a: Seq<u8>, b: Seq<u8>) -> bool {
    member::read_signed_member(a) matches Some(x) && member::read_signed_member(b) matches Some(y)
        && x.payload.member_id == y.payload.member_id
}

/// Whether two items are registrations of one application.
pub open spec fn same_app(a: Seq<u8>, b: Seq<u8>) -> bool {
    app::read_signed_app_registration(a) matches Some(x)
        && app::read_signed_app_registration(b) matches Some(y)
        && x.payload.app_addr == y.payload.app_addr
}

/// Whether two items are bindings of one endpoint.
pub open spec fn same_endpoint(a: Seq<u8>, b: Seq<u8>) -> bool {
    endpoint::read_signed_endpoint(a) matches Some(x)
        && endpoint::read_signed_endpoint(b) matches Some(y)
        && x.payload.endpoint_id == y.payload.endpoint_id
}

/// Whether two items give one member the same side of one application.
pub open spec fn same_part(a: Seq<u8>, b: Seq<u8>) -> bool {
    app::read_signed_binding(a) matches Ok(x) && app::read_signed_binding(b) matches Ok(y)
        && x.payload.app_addr == y.payload.app_addr && x.payload.subject == y.payload.subject
        && x.payload.role == y.payload.role
}

/// Administrators are refused only where one is not a certificate in force, or two name the same key.
pub proof fn law_admins_refused(ctx: Context, items: Seq<Seq<u8>>)
    ensures
        validate::fold(validate::admin_step(ctx), Seq::empty(), items) matches Err(reason)
            ==> match reason {
            SnapshotError::Credential(e) => exists|i: int| 0 <= i < items.len()
                && match admin::read_signed_admin(#[trigger] items[i]) {
                None => e == CertificateError::MalformedWire,
                Some(cert) => admin::admin_verdict(cert, ctx.root, ctx.network, ctx.now_ms,
                    ctx.revoked) == Err::<AdminCertificatePayload, CertificateError>(e),
            },
            SnapshotError::DuplicateEntry(what) => what == "admin key"
                && exists|k: int, i: int| 0 <= k < i < items.len()
                && same_admin(#[trigger] items[k], #[trigger] items[i]),
            _ => false,
        },
{
    let step = validate::admin_step(ctx);
    if validate::fold(step, Seq::empty(), items) is Err {
        let i = lemma_refused_at(step, items);
        let before = validate::fold(step, Seq::empty(), items.take(i))->Ok_0;
        law_admins_accepted(ctx, items.take(i), before);
        if admin::read_signed_admin(items[i]) is Some {
            let key_id = admin::read_signed_admin(items[i])->Some_0.payload.key_id;
        validate::lemma_admin_absent(before, key_id);
        if exists|k: int| 0 <= k < before.len() && (#[trigger] before[k]).key_id == key_id {
            let k = choose|k: int| 0 <= k < before.len() && (#[trigger] before[k]).key_id == key_id;
            assert(admin_listed(ctx, items.take(i)[k], before[k]));
            assert(items.take(i)[k] == items[k]);
            assert(same_admin(items[k], items[i]));
        }
        }
    }
}

/// Members are refused only where one is not a certificate in force of the root or of a listed
/// administrator, where its issuer is not listed, or where two name the same member.
pub proof fn law_members_refused(ctx: Context, admins: Seq<AdminCertificatePayload>,
    items: Seq<Seq<u8>>)
    requires
    forall|a: int, b: int| 0 <= a < b < admins.len()
        ==> (#[trigger] admins[a]).key_id != (#[trigger] admins[b]).key_id,
    ensures
        validate::fold(validate::member_step(ctx, admins), Seq::empty(), items) matches Err(reason)
            ==> match reason {
            SnapshotError::Credential(e) => exists|i: int| 0 <= i < items.len()
                && match member::read_signed_member(#[trigger] items[i]) {
                None => e == CertificateError::MalformedWire,
                Some(cert) => if cert.payload.issuer_key_id == keys::root_key_id(ctx.root) {
                    member::member_verdict(cert, ctx.root, ctx.network, ctx.now_ms,
                        ctx.revoked) matches Err(found) && found == e
                } else {
                    exists|k: int| 0 <= k < admins.len() && (#[trigger] admins[k]).key_id
                        == cert.payload.issuer_key_id && (member::member_admin_verdict(cert,
                        admins[k], ctx.network, ctx.now_ms, ctx.revoked) matches Err(found)
                        && found == e)
                },
            },
            SnapshotError::UnknownAdmin => exists|i: int| 0 <= i < items.len()
                && (member::read_signed_member(#[trigger] items[i]) matches Some(cert)
                && cert.payload.issuer_key_id != keys::root_key_id(ctx.root)
                && forall|k: int| 0 <= k < admins.len()
                ==> (#[trigger] admins[k]).key_id != cert.payload.issuer_key_id),
            SnapshotError::DuplicateEntry(what) => what == "member"
                && exists|k: int, i: int| 0 <= k < i < items.len()
                && same_member(#[trigger] items[k], #[trigger] items[i]),
            _ => false,
        },
{
    let step = validate::member_step(ctx, admins);
    if validate::fold(step, Seq::empty(), items) is Err {
        let i = lemma_refused_at(step, items);
        let before = validate::fold(step, Seq::empty(), items.take(i))->Ok_0;
        law_members_accepted(ctx, admins, items.take(i), before);
        if member::read_signed_member(items[i]) is Some {
            let cert = member::read_signed_member(items[i])->Some_0;
            let id = cert.payload.member_id;
            let issuer = cert.payload.issuer_key_id;
            validate::lemma_admin_absent(admins, issuer);
            if validate::admin_with(admins, issuer) is Some {
                let p = validate::admin_with(admins, issuer)->Some_0;
                let k = choose|k: int| 0 <= k < admins.len() && admins[k] == p;
                assert(admins[k].key_id == issuer);
            }
        validate::lemma_member_absent(before, id);
        if exists|k: int| 0 <= k < before.len() && (#[trigger] before[k]).member_id == id {
            let k = choose|k: int| 0 <= k < before.len() && (#[trigger] before[k]).member_id == id;
            assert(member_listed(ctx, admins, items.take(i)[k], before[k]));
            assert(items.take(i)[k] == items[k]);
            assert(same_member(items[k], items[i]));
        }
        }
    }
}

/// Applications are refused only where one was not registered by the root or by a listed administrator,
/// where its issuer is not listed, or where two name the same application.
pub proof fn law_apps_refused(ctx: Context, admins: Seq<AdminCertificatePayload>,
    items: Seq<Seq<u8>>)
    requires
    forall|a: int, b: int| 0 <= a < b < admins.len()
        ==> (#[trigger] admins[a]).key_id != (#[trigger] admins[b]).key_id,
    ensures
        validate::fold(validate::app_step(ctx, admins), Seq::empty(), items) matches Err(reason)
            ==> match reason {
            SnapshotError::Credential(e) => exists|i: int| 0 <= i < items.len()
                && match app::read_signed_app_registration(#[trigger] items[i]) {
                None => e == CertificateError::MalformedWire,
                Some(cert) => if cert.payload.issuer_key_id == keys::root_key_id(ctx.root) {
                    app::app_verdict(cert, ctx.root, ctx.network) matches Err(found) && found == e
                } else {
                    exists|k: int| 0 <= k < admins.len() && (#[trigger] admins[k]).key_id
                        == cert.payload.issuer_key_id && (app::app_admin_verdict(cert, admins[k],
                        ctx.network) matches Err(found) && found == e)
                },
            },
            SnapshotError::UnknownAdmin => exists|i: int| 0 <= i < items.len()
                && (app::read_signed_app_registration(#[trigger] items[i]) matches Some(cert)
                && cert.payload.issuer_key_id != keys::root_key_id(ctx.root)
                && forall|k: int| 0 <= k < admins.len()
                ==> (#[trigger] admins[k]).key_id != cert.payload.issuer_key_id),
            SnapshotError::DuplicateEntry(what) => what == "application"
                && exists|k: int, i: int| 0 <= k < i < items.len()
                && same_app(#[trigger] items[k], #[trigger] items[i]),
            _ => false,
        },
{
    let step = validate::app_step(ctx, admins);
    if validate::fold(step, Seq::empty(), items) is Err {
        let i = lemma_refused_at(step, items);
        let before = validate::fold(step, Seq::empty(), items.take(i))->Ok_0;
        law_apps_accepted(ctx, admins, items.take(i), before);
        if app::read_signed_app_registration(items[i]) is Some {
            let cert = app::read_signed_app_registration(items[i])->Some_0;
            let addr = cert.payload.app_addr;
            let issuer = cert.payload.issuer_key_id;
            validate::lemma_admin_absent(admins, issuer);
            if validate::admin_with(admins, issuer) is Some {
                let p = validate::admin_with(admins, issuer)->Some_0;
                let k = choose|k: int| 0 <= k < admins.len() && admins[k] == p;
                assert(admins[k].key_id == issuer);
            }
        validate::lemma_app_absent(before, addr);
        if exists|k: int| 0 <= k < before.len() && (#[trigger] before[k]).app_addr == addr {
            let k = choose|k: int| 0 <= k < before.len() && (#[trigger] before[k]).app_addr == addr;
            assert(app_listed(ctx, admins, items.take(i)[k], before[k]));
            assert(items.take(i)[k] == items[k]);
            assert(same_app(items[k], items[i]));
        }
        }
    }
}

/// Endpoints are refused only where one is not bound to a listed member by a binding that holds, or where
/// one is bound twice.
pub proof fn law_endpoints_refused(ctx: Context, members: Seq<MemberCertificatePayload>,
    items: Seq<Seq<u8>>)
    requires
    forall|a: int, b: int| 0 <= a < b < members.len()
        ==> (#[trigger] members[a]).member_id != (#[trigger] members[b]).member_id,
    ensures
        validate::fold(validate::endpoint_step(ctx, members), Seq::empty(),
            items) matches Err(reason) ==> match reason {
            SnapshotError::Credential(e) => exists|i: int| 0 <= i < items.len()
                && match endpoint::read_signed_endpoint(#[trigger] items[i]) {
                None => e == CertificateError::MalformedWire,
                Some(b) => exists|k: int| 0 <= k < members.len()
                    && (#[trigger] members[k]).member_id == b.payload.member_id
                    && endpoint::endpoint_verdict(b, members[k], ctx.network,
                    b.payload.endpoint_id, ctx.now_ms) == Err::<(), CertificateError>(e),
            },
            SnapshotError::UnknownMember => exists|i: int| 0 <= i < items.len()
                && (endpoint::read_signed_endpoint(#[trigger] items[i]) matches Some(b)
                && forall|k: int| 0 <= k < members.len()
                ==> (#[trigger] members[k]).member_id != b.payload.member_id),
            SnapshotError::DuplicateEntry(what) => what == "endpoint"
                && exists|k: int, i: int| 0 <= k < i < items.len()
                && same_endpoint(#[trigger] items[k], #[trigger] items[i]),
            _ => false,
        },
{
    let step = validate::endpoint_step(ctx, members);
    if validate::fold(step, Seq::empty(), items) is Err {
        let i = lemma_refused_at(step, items);
        let before = validate::fold(step, Seq::empty(), items.take(i))->Ok_0;
        law_endpoints_accepted(ctx, members, items.take(i), before);
        if endpoint::read_signed_endpoint(items[i]) is Some {
            let b = endpoint::read_signed_endpoint(items[i])->Some_0;
            validate::lemma_member_absent(members, b.payload.member_id);
            if validate::member_with(members, b.payload.member_id) is Some {
                let p = validate::member_with(members, b.payload.member_id)->Some_0;
                let k = choose|k: int| 0 <= k < members.len() && members[k] == p;
                assert(members[k].member_id == b.payload.member_id);
            }
        if before.contains(b.payload.endpoint_id) {
            let k = choose|k: int| 0 <= k < before.len() && before[k] == b.payload.endpoint_id;
            assert(endpoint_listed(ctx, members, items.take(i)[k], before[k]));
            assert(items.take(i)[k] == items[k]);
            assert(same_endpoint(items[k], items[i]));
        }
        }
    }
}

/// Bindings are refused only where one cannot be read, names an application or a member that is not
/// listed, has more services than the policy allows, does not hold, or gives a part a second time.
pub proof fn law_bindings_refused(ctx: Context, policy: NetworkPolicy,
    apps: Seq<AppRegistrationPayload>, members: Seq<MemberCertificatePayload>, items: Seq<Seq<u8>>)
    requires
    forall|a: int, b: int| 0 <= a < b < apps.len()
        ==> (#[trigger] apps[a]).app_addr != (#[trigger] apps[b]).app_addr,
    forall|a: int, b: int| 0 <= a < b < members.len()
        ==> (#[trigger] members[a]).member_id != (#[trigger] members[b]).member_id,
    ensures
        validate::fold(validate::binding_step(ctx, policy, apps, members), Seq::empty(),
            items) matches Err(reason) ==> match reason {
            SnapshotError::Credential(e) => exists|i: int| 0 <= i < items.len()
                && match app::read_signed_binding(#[trigger] items[i]) {
                Err(found) => found == e,
                Ok(b) => exists|k: int, m: int| 0 <= k < apps.len() && 0 <= m < members.len()
                    && (#[trigger] apps[k]).app_addr == b.payload.app_addr
                    && (#[trigger] members[m]).member_id == b.payload.subject
                    && app::binding_verdict(b, apps[k], members[m], ctx.network, ctx.now_ms)
                    == Err::<(), CertificateError>(e),
            },
            SnapshotError::UnknownApplication => exists|i: int| 0 <= i < items.len()
                && (app::read_signed_binding(#[trigger] items[i]) matches Ok(b)
                && forall|k: int| 0 <= k < apps.len()
                ==> (#[trigger] apps[k]).app_addr != b.payload.app_addr),
            SnapshotError::UnknownMember => exists|i: int| 0 <= i < items.len()
                && (app::read_signed_binding(#[trigger] items[i]) matches Ok(b)
                && forall|k: int| 0 <= k < members.len()
                ==> (#[trigger] members[k]).member_id != b.payload.subject),
            SnapshotError::PolicyLimitExceeded => exists|i: int| 0 <= i < items.len()
                && (app::read_signed_binding(#[trigger] items[i]) matches Ok(b)
                && b.payload.services.len() > policy.max_services_per_binding),
            SnapshotError::DuplicateEntry(what) => what == "application binding"
                && exists|k: int, i: int| 0 <= k < i < items.len()
                && same_part(#[trigger] items[k], #[trigger] items[i]),
            _ => false,
        },
{
    let step = validate::binding_step(ctx, policy, apps, members);
    if validate::fold(step, Seq::empty(), items) is Err {
        let i = lemma_refused_at(step, items);
        let before = validate::fold(step, Seq::empty(), items.take(i))->Ok_0;
        law_bindings_accepted(ctx, policy, apps, members, items.take(i), before);
        if app::read_signed_binding(items[i]) is Ok {
            let b = app::read_signed_binding(items[i])->Ok_0;
            validate::lemma_member_absent(members, b.payload.subject);
            validate::lemma_app_absent(apps, b.payload.app_addr);
            lemma_app_found(apps, b.payload.app_addr);
            if validate::app_with(apps, b.payload.app_addr) is Some
                && validate::member_with(members, b.payload.subject) is Some {
                let p = validate::app_with(apps, b.payload.app_addr)->Some_0;
                let q = validate::member_with(members, b.payload.subject)->Some_0;
                let k = choose|k: int| 0 <= k < apps.len() && apps[k] == p;
                let m = choose|m: int| 0 <= m < members.len() && members[m] == q;
                assert(apps[k].app_addr == b.payload.app_addr
                    && members[m].member_id == b.payload.subject);
            }
            let part = (b.payload.app_addr, b.payload.subject, b.payload.role);
        if before.contains(part) {
            let k = choose|k: int| 0 <= k < before.len() && before[k] == part;
            assert(binding_listed(ctx, policy, apps, members, items.take(i)[k], before[k]));
            assert(items.take(i)[k] == items[k]);
            assert(same_part(items[k], items[i]));
        }
        }
    }
}

/// What a configuration lists, as its certificates and registrations say: who administers it, who
/// its members are, and what its applications are.
pub struct Listed {
    pub admins: Seq<AdminCertificatePayload>,
    pub members: Seq<MemberCertificatePayload>,
    pub apps: Seq<AppRegistrationPayload>,
    pub endpoints: Seq<[u8; 32]>,
    pub parts: Seq<Part>,
}

/// Whether the lists of a configuration say this, nothing is listed twice, and everything that is
/// referred to is listed.
pub open spec fn lists(ctx: Context, c: Config, l: Listed) -> bool {
    &&& l.admins.len() == c.admin_keys.len()
    &&& l.members.len() == c.members.len()
    &&& l.apps.len() == c.apps.len()
    &&& l.endpoints.len() == c.endpoint_bindings.len()
    &&& l.parts.len() == c.app_bindings.len()
    &&& forall|i: int| 0 <= i < c.admin_keys.len() ==> admin_listed(ctx,
        #[trigger] c.admin_keys[i], l.admins[i])
    &&& forall|i: int| 0 <= i < c.members.len() ==> member_listed(ctx, l.admins,
        #[trigger] c.members[i], l.members[i])
    &&& forall|i: int| 0 <= i < c.apps.len() ==> app_listed(ctx, l.admins, #[trigger] c.apps[i],
        l.apps[i])
    &&& forall|i: int| 0 <= i < c.endpoint_bindings.len() ==> endpoint_listed(ctx, l.members,
        #[trigger] c.endpoint_bindings[i], l.endpoints[i])
    &&& forall|i: int| 0 <= i < c.app_bindings.len() ==> binding_listed(ctx, c.policies, l.apps,
        l.members, #[trigger] c.app_bindings[i], l.parts[i])
    &&& forall|i: int| 0 <= i < c.virtual_dns.len() ==> name_listed(l.apps, c.issued_at_ms,
        c.expires_at_ms, #[trigger] c.virtual_dns[i], c.virtual_dns[i].name)
    &&& forall|i: int| 0 <= i < c.relays.len() ==> relay_listed(ctx.now_ms,
        #[trigger] c.relays[i], c.relays[i].endpoint_id)
    &&& forall|i: int| 0 <= i < c.presence_services.len() ==> service_listed(ctx.now_ms,
        #[trigger] c.presence_services[i], c.presence_services[i].endpoint_id)
    &&& forall|i: int, j: int| 0 <= i < j < l.admins.len()
        ==> (#[trigger] l.admins[i]).key_id != (#[trigger] l.admins[j]).key_id
    &&& forall|i: int, j: int| 0 <= i < j < l.members.len()
        ==> (#[trigger] l.members[i]).member_id != (#[trigger] l.members[j]).member_id
    &&& forall|i: int, j: int| 0 <= i < j < l.apps.len()
        ==> (#[trigger] l.apps[i]).app_addr != (#[trigger] l.apps[j]).app_addr
    &&& forall|i: int, j: int| 0 <= i < j < l.endpoints.len()
        ==> #[trigger] l.endpoints[i] != #[trigger] l.endpoints[j]
    &&& forall|i: int, j: int| 0 <= i < j < l.parts.len()
        ==> #[trigger] l.parts[i] != #[trigger] l.parts[j]
    &&& forall|i: int, j: int| 0 <= i < j < c.virtual_dns.len()
        ==> (#[trigger] c.virtual_dns[i]).name != (#[trigger] c.virtual_dns[j]).name
    &&& forall|i: int, j: int| 0 <= i < j < c.relays.len()
        ==> (#[trigger] c.relays[i]).endpoint_id != (#[trigger] c.relays[j]).endpoint_id
    &&& forall|i: int, j: int| 0 <= i < j < c.presence_services.len()
        ==> (#[trigger] c.presence_services[i]).endpoint_id != (#[trigger] c.presence_services[j]).endpoint_id
}

/// A configuration whose shape is in order is accepted if it belongs to the network of the root
/// key, is in force, revokes no serial twice, has no more members than its policy allows, and its
/// lists say what they say without listing anything twice or referring to anything that is not
/// listed.
pub proof fn law_complete_config_is_accepted(c: Config, root: Seq<u8>, network: NetworkId,
    now_ms: u64, l: Listed)
    requires
        snapshot::shape_verdict(c) is Ok,
        c.network_id == network,
        keys::network_id_of(root) == network,
        c.issued_at_ms <= now_ms < c.expires_at_ms,
        forall|i: int, j: int| 0 <= i < j < c.revoked_serials.len()
            ==> #[trigger] c.revoked_serials[i] != #[trigger] c.revoked_serials[j],
        c.members.len() <= c.policies.max_members,
        lists(Context { root, network, now_ms, revoked: c.revoked_serials.to_set() }, c, l),
    ensures
        validate::config_verdict(c, root, network, now_ms) == Ok::<(), SnapshotError>(()),
{
    let ctx = Context { root, network, now_ms, revoked: c.revoked_serials.to_set() };
    assert(ctx == validate::context(c, root, network, now_ms));
    law_admins_accepted(ctx, c.admin_keys, l.admins);
    law_members_accepted(ctx, l.admins, c.members, l.members);
    law_apps_accepted(ctx, l.admins, c.apps, l.apps);
    law_endpoints_accepted(ctx, l.members, c.endpoint_bindings, l.endpoints);
    law_bindings_accepted(ctx, c.policies, l.apps, l.members, c.app_bindings, l.parts);
    let names = Seq::new(c.virtual_dns.len(), |i: int| c.virtual_dns[i].name);
    law_names_accepted(l.apps, c.issued_at_ms, c.expires_at_ms, c.virtual_dns, names);
    let relays = Seq::new(c.relays.len(), |i: int| c.relays[i].endpoint_id);
    law_relays_accepted(now_ms, c.relays, relays);
    let services = Seq::new(c.presence_services.len(), |i: int| c.presence_services[i].endpoint_id);
    law_services_accepted(now_ms, c.presence_services, services);
}

/// An administrator is found by a key identifier exactly where a certificate that names it is
/// accepted now, and every certificate before it can be read and names another.
pub proof fn law_which_admin_is_found(
    ctx: Context,
    raw: Seq<Seq<u8>>,
    key_id: [u8; 16],
    p: AdminCertificatePayload,
)
    ensures
        validate::admin_lookup(ctx, raw, key_id) == Ok::<AdminCertificatePayload, SnapshotError>(p)
            <==> exists|i: int|
            0 <= i < raw.len() && admin_listed(ctx, #[trigger] raw[i], p) && p.key_id == key_id
                && forall|k: int|
                0 <= k < i ==> (admin::read_signed_admin(#[trigger] raw[k]) matches Some(other)
                    && other.payload.key_id != key_id),
        validate::admin_lookup(ctx, raw, key_id) == Err::<AdminCertificatePayload, SnapshotError>(
            SnapshotError::UnknownAdmin,
        ) <==> forall|k: int|
            0 <= k < raw.len() ==> (admin::read_signed_admin(#[trigger] raw[k]) matches Some(other)
                && other.payload.key_id != key_id),
    decreases raw.len(),
{
    if raw.len() > 0 {
        let rest = raw.skip(1);
        law_which_admin_is_found(ctx, rest, key_id, p);
        assert forall|k: int| 0 < k < raw.len() implies #[trigger] raw[k] == rest[k - 1] by {}
        match admin::read_signed_admin(raw[0]) {
            None => {
                assert(!(admin::read_signed_admin(raw[0]) is Some));
            },
            Some(c) => if c.payload.key_id == key_id {
                assert(!(admin::read_signed_admin(raw[0])->Some_0.payload.key_id != key_id));
                if validate::admin_lookup(ctx, raw, key_id) == Ok::<
                    AdminCertificatePayload,
                    SnapshotError,
                >(p) {
                    assert(admin_listed(ctx, raw[0], p));
                }
            } else {
                if validate::admin_lookup(ctx, rest, key_id) == Ok::<
                    AdminCertificatePayload,
                    SnapshotError,
                >(p) {
                    let i = choose|i: int|
                        0 <= i < rest.len() && admin_listed(ctx, #[trigger] rest[i], p) && p.key_id
                            == key_id && forall|k: int|
                            0 <= k < i ==> (admin::read_signed_admin(
                                #[trigger] rest[k],
                            ) matches Some(other) && other.payload.key_id != key_id);
                    assert(admin_listed(ctx, raw[i + 1], p));
                    assert forall|k: int| 0 <= k < i + 1 implies (admin::read_signed_admin(
                        #[trigger] raw[k],
                    ) matches Some(other) && other.payload.key_id != key_id) by {
                        if k > 0 {
                            assert(rest[k - 1] == raw[k]);
                        }
                    }
                }
                if exists|i: int|
                    0 <= i < raw.len() && admin_listed(ctx, #[trigger] raw[i], p) && p.key_id
                        == key_id && forall|k: int|
                        0 <= k < i ==> (admin::read_signed_admin(#[trigger] raw[k]) matches Some(
                            other,
                        ) && other.payload.key_id != key_id) {
                    let i = choose|i: int|
                        0 <= i < raw.len() && admin_listed(ctx, #[trigger] raw[i], p) && p.key_id
                            == key_id && forall|k: int|
                            0 <= k < i ==> (admin::read_signed_admin(
                                #[trigger] raw[k],
                            ) matches Some(other) && other.payload.key_id != key_id);
                    assert(i > 0);
                    assert(rest[i - 1] == raw[i]);
                    assert forall|k: int| 0 <= k < i - 1 implies (admin::read_signed_admin(
                        #[trigger] rest[k],
                    ) matches Some(other) && other.payload.key_id != key_id) by {
                        assert(rest[k] == raw[k + 1]);
                    }
                }
                if forall|k: int|
                    0 <= k < rest.len()
                        ==> (admin::read_signed_admin(#[trigger] rest[k]) matches Some(
                        other,
                    ) && other.payload.key_id != key_id) {
                    assert forall|k: int| 0 <= k < raw.len() implies (admin::read_signed_admin(
                        #[trigger] raw[k],
                    ) matches Some(other) && other.payload.key_id != key_id) by {
                        if k > 0 {
                            assert(rest[k - 1] == raw[k]);
                        }
                    }
                }
                if forall|k: int|
                    0 <= k < raw.len()
                        ==> (admin::read_signed_admin(#[trigger] raw[k]) matches Some(
                        other,
                    ) && other.payload.key_id != key_id) {
                    assert forall|k: int| 0 <= k < rest.len() implies (admin::read_signed_admin(
                        #[trigger] rest[k],
                    ) matches Some(other) && other.payload.key_id != key_id) by {
                        assert(rest[k] == raw[k + 1]);
                    }
                }
            },
        }
    }
}

/// Why a configuration whose shape is in order is refused before its lists are looked at: it is
/// another network's exactly where it or the root key is, too early exactly before it is issued,
/// too late exactly from its end on, and repeats a revocation exactly where a serial is listed
/// twice. Otherwise its lists decide.
pub proof fn law_why_a_config_is_refused(
    c: Config,
    root: Seq<u8>,
    network: NetworkId,
    now_ms: u64,
)
    requires
        snapshot::shape_verdict(c) is Ok,
    ensures
        ({
            let verdict = validate::config_verdict(c, root, network, now_ms);
            let ours = c.network_id == network && keys::network_id_of(root) == network;
            let twice = exists|i: int, j: int|
                0 <= i < j < c.revoked_serials.len() && #[trigger] c.revoked_serials[i]
                    == #[trigger] c.revoked_serials[j];
            &&& !ours ==> verdict == Err::<(), SnapshotError>(SnapshotError::WrongNetwork)
            &&& ours && now_ms < c.issued_at_ms ==> verdict == Err::<(), SnapshotError>(
                SnapshotError::NotYetValid,
            )
            &&& ours && c.expires_at_ms <= now_ms && c.issued_at_ms <= now_ms ==> verdict == Err::<
                (),
                SnapshotError,
            >(SnapshotError::Expired)
            &&& ours && c.issued_at_ms <= now_ms < c.expires_at_ms && twice ==> verdict == Err::<
                (),
                SnapshotError,
            >(SnapshotError::DuplicateEntry("revoked serial"))
            &&& ours && c.issued_at_ms <= now_ms < c.expires_at_ms && !twice ==> verdict
                == validate::credentials_verdict(
                Context { root, network, now_ms, revoked: c.revoked_serials.to_set() },
                c,
            )
        }),
{
    let s = c.revoked_serials;
    if s.no_duplicates() {
        assert forall|i: int, j: int| 0 <= i < j < s.len() implies #[trigger] s[i]
            != #[trigger] s[j] by {}
    } else {
        let (i, j) = choose|i: int, j: int|
            0 <= i < s.len() && 0 <= j < s.len() && i != j && s[i] == s[j];
        if i < j {
            assert(s[i] == s[j]);
        } else {
            assert(s[j] == s[i]);
        }
    }
}

} // verus!
