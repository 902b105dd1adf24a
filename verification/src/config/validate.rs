//! Which configurations a network accepts, and what it reads from one that it accepted.
use crate::config::snapshot;
use crate::config::snapshot::{
    validate_url, AdminKey, Config, DnsRecord, NetworkConfigV1, NetworkPolicy, PresenceService,
    PresenceServiceDescriptor, Relay, RelayDescriptor, SnapshotError, VirtualDnsRecord,
};
use crate::crypto::admin;
use crate::crypto::admin::{AdminCertificate, AdminCertificatePayload, VerifiedAdmin};
use crate::crypto::app;
use crate::crypto::app::{
    AppBinding, AppBindingPayload, AppRegistration, AppRegistrationPayload, AppRole, VerifiedApp,
};
use crate::crypto::endpoint;
use crate::crypto::endpoint::EndpointBinding;
use crate::crypto::keys;
use crate::crypto::keys::{CertificateError, NetworkRootPublic, Signed};
use crate::crypto::member;
use crate::crypto::member::{MemberCertificate, MemberCertificatePayload, VerifiedMember};
use crate::identifiers::{AppAddr, MemberId, NetworkId};
use crate::virtual_name::VirtualName;
use crate::wire::arrays_equal;
use std::collections::HashSet;
use vstd::prelude::*;

verus! {

/// What a configuration is checked against.
pub struct Context {
    pub root: Seq<u8>,
    pub network: NetworkId,
    pub now_ms: u64,
    pub revoked: Set<u64>,
}

/// Checks items one after the other, each in the light of what the earlier ones gave; the first
/// that is refused decides.
pub open spec fn fold<A, T>(
    step: spec_fn(A, T) -> Result<A, SnapshotError>,
    init: A,
    s: Seq<T>,
) -> Result<A, SnapshotError>
    decreases s.len(),
{
    if s.len() == 0 {
        Ok(init)
    } else {
        match fold(step, init, s.drop_last()) {
            Err(e) => Err(e),
            Ok(a) => step(a, s.last()),
        }
    }
}

/// The administrator with this key identifier.
pub open spec fn admin_with(s: Seq<AdminCertificatePayload>, key_id: [u8; 16]) -> Option<
    AdminCertificatePayload,
>
    decreases s.len(),
{
    if s.len() == 0 {
        None
    } else if s.last().key_id == key_id {
        Some(s.last())
    } else {
        admin_with(s.drop_last(), key_id)
    }
}

/// The member with this identity.
pub open spec fn member_with(s: Seq<MemberCertificatePayload>, id: MemberId) -> Option<
    MemberCertificatePayload,
>
    decreases s.len(),
{
    if s.len() == 0 {
        None
    } else if s.last().member_id == id {
        Some(s.last())
    } else {
        member_with(s.drop_last(), id)
    }
}

/// The application with this address.
pub open spec fn app_with(s: Seq<AppRegistrationPayload>, addr: AppAddr) -> Option<
    AppRegistrationPayload,
>
    decreases s.len(),
{
    if s.len() == 0 {
        None
    } else if s.last().app_addr == addr {
        Some(s.last())
    } else {
        app_with(s.drop_last(), addr)
    }
}

/// One more administrator: the certificate must parse, be accepted by the root, and name a key
/// that no earlier one names.
pub open spec fn admin_next(
    ctx: Context,
    s: Seq<AdminCertificatePayload>,
    raw: Seq<u8>,
) -> Result<Seq<AdminCertificatePayload>, SnapshotError> {
    match admin::read_signed_admin(raw) {
        None => Err(SnapshotError::Credential(CertificateError::MalformedWire)),
        Some(c) => match admin::admin_verdict(c, ctx.root, ctx.network, ctx.now_ms, ctx.revoked) {
            Err(e) => Err(SnapshotError::Credential(e)),
            Ok(p) => if admin_with(s, p.key_id) is Some {
                Err(SnapshotError::DuplicateEntry("admin key"))
            } else {
                Ok(s.push(p))
            },
        },
    }
}

/// Who vouches for a member certificate: the root, or an accepted administrator.
pub open spec fn member_check(
    ctx: Context,
    admins: Seq<AdminCertificatePayload>,
    c: Signed<MemberCertificatePayload>,
) -> Result<MemberCertificatePayload, SnapshotError> {
    if c.payload.issuer_key_id == keys::root_key_id(ctx.root) {
        match member::member_verdict(c, ctx.root, ctx.network, ctx.now_ms, ctx.revoked) {
            Err(e) => Err(SnapshotError::Credential(e)),
            Ok(p) => Ok(p),
        }
    } else {
        match admin_with(admins, c.payload.issuer_key_id) {
            None => Err(SnapshotError::UnknownAdmin),
            Some(issuer) => match member::member_admin_verdict(
                c,
                issuer,
                ctx.network,
                ctx.now_ms,
                ctx.revoked,
            ) {
                Err(e) => Err(SnapshotError::Credential(e)),
                Ok(p) => Ok(p),
            },
        }
    }
}

/// One more member: the certificate must parse, be vouched for, and name a member that no earlier
/// one names.
pub open spec fn member_next(
    ctx: Context,
    admins: Seq<AdminCertificatePayload>,
    s: Seq<MemberCertificatePayload>,
    raw: Seq<u8>,
) -> Result<Seq<MemberCertificatePayload>, SnapshotError> {
    match member::read_signed_member(raw) {
        None => Err(SnapshotError::Credential(CertificateError::MalformedWire)),
        Some(c) => match member_check(ctx, admins, c) {
            Err(e) => Err(e),
            Ok(p) => if member_with(s, p.member_id) is Some {
                Err(SnapshotError::DuplicateEntry("member"))
            } else {
                Ok(s.push(p))
            },
        },
    }
}

/// One more endpoint: the binding must parse, belong to a known member, hold for that member, and
/// name an endpoint that no earlier one names.
pub open spec fn endpoint_next(
    ctx: Context,
    members: Seq<MemberCertificatePayload>,
    s: Seq<[u8; 32]>,
    raw: Seq<u8>,
) -> Result<Seq<[u8; 32]>, SnapshotError> {
    match endpoint::read_signed_endpoint(raw) {
        None => Err(SnapshotError::Credential(CertificateError::MalformedWire)),
        Some(c) => match member_with(members, c.payload.member_id) {
            None => Err(SnapshotError::UnknownMember),
            Some(m) => match endpoint::endpoint_verdict(
                c,
                m,
                ctx.network,
                c.payload.endpoint_id,
                ctx.now_ms,
            ) {
                Err(e) => Err(SnapshotError::Credential(e)),
                Ok(()) => if s.contains(c.payload.endpoint_id) {
                    Err(SnapshotError::DuplicateEntry("endpoint"))
                } else {
                    Ok(s.push(c.payload.endpoint_id))
                },
            },
        },
    }
}

/// Who vouches for an application: the root, or an accepted administrator.
pub open spec fn app_check(
    ctx: Context,
    admins: Seq<AdminCertificatePayload>,
    c: Signed<AppRegistrationPayload>,
) -> Result<AppRegistrationPayload, SnapshotError> {
    if c.payload.issuer_key_id == keys::root_key_id(ctx.root) {
        match app::app_verdict(c, ctx.root, ctx.network) {
            Err(e) => Err(SnapshotError::Credential(e)),
            Ok(p) => Ok(p),
        }
    } else {
        match admin_with(admins, c.payload.issuer_key_id) {
            None => Err(SnapshotError::UnknownAdmin),
            Some(issuer) => match app::app_admin_verdict(c, issuer, ctx.network) {
                Err(e) => Err(SnapshotError::Credential(e)),
                Ok(p) => Ok(p),
            },
        }
    }
}

/// One more application: the registration must parse, be vouched for, and name an application
/// that no earlier one names.
pub open spec fn app_next(
    ctx: Context,
    admins: Seq<AdminCertificatePayload>,
    s: Seq<AppRegistrationPayload>,
    raw: Seq<u8>,
) -> Result<Seq<AppRegistrationPayload>, SnapshotError> {
    match app::read_signed_app_registration(raw) {
        None => Err(SnapshotError::Credential(CertificateError::MalformedWire)),
        Some(c) => match app_check(ctx, admins, c) {
            Err(e) => Err(e),
            Ok(p) => if app_with(s, p.app_addr) is Some {
                Err(SnapshotError::DuplicateEntry("application"))
            } else {
                Ok(s.push(p))
            },
        },
    }
}

/// What must be unique among bindings: the application, the member and the side.
pub type Part = (AppAddr, MemberId, AppRole);

/// One more binding: it must parse, belong to a known application and a known member, name no
/// more services than the policy allows, hold, and give a part that no earlier one gives.
pub open spec fn binding_next(
    ctx: Context,
    policy: NetworkPolicy,
    apps: Seq<AppRegistrationPayload>,
    members: Seq<MemberCertificatePayload>,
    s: Seq<Part>,
    raw: Seq<u8>,
) -> Result<Seq<Part>, SnapshotError> {
    match app::read_signed_binding(raw) {
        Err(e) => Err(SnapshotError::Credential(e)),
        Ok(c) => match app_with(apps, c.payload.app_addr) {
            None => Err(SnapshotError::UnknownApplication),
            Some(a) => match member_with(members, c.payload.subject) {
                None => Err(SnapshotError::UnknownMember),
                Some(m) => if c.payload.services.len() > policy.max_services_per_binding {
                    Err(SnapshotError::PolicyLimitExceeded)
                } else {
                    match app::binding_verdict(c, a, m, ctx.network, ctx.now_ms) {
                        Err(e) => Err(SnapshotError::Credential(e)),
                        Ok(()) => {
                            let part = (c.payload.app_addr, c.payload.subject, c.payload.role);
                            if s.contains(part) {
                                Err(SnapshotError::DuplicateEntry("application binding"))
                            } else {
                                Ok(s.push(part))
                            }
                        },
                    }
                },
            },
        },
    }
}

/// One more name: it must stand for a known application, expire within the configuration's own
/// window, and be new.
pub open spec fn name_next(
    apps: Seq<AppRegistrationPayload>,
    issued_at_ms: u64,
    expires_at_ms: u64,
    s: Seq<Seq<char>>,
    d: DnsRecord,
) -> Result<Seq<Seq<char>>, SnapshotError> {
    if app_with(apps, d.app_addr) is None {
        Err(SnapshotError::UnknownApplication)
    } else if d.expires_at_ms <= issued_at_ms || d.expires_at_ms > expires_at_ms {
        Err(SnapshotError::InvalidValidityWindow)
    } else if s.contains(d.name) {
        Err(SnapshotError::DuplicateEntry("virtual DNS name"))
    } else {
        Ok(s.push(d.name))
    }
}

/// One more relay: its address must be writable, it must not have expired, and it must be new.
pub open spec fn relay_next(now_ms: u64, s: Seq<[u8; 32]>, d: Relay) -> Result<
    Seq<[u8; 32]>,
    SnapshotError,
> {
    if !snapshot::url_ok(d.url) {
        Err(SnapshotError::InvalidLength)
    } else if now_ms >= d.expires_at_ms {
        Err(SnapshotError::Expired)
    } else if s.contains(d.endpoint_id) {
        Err(SnapshotError::DuplicateEntry("relay endpoint"))
    } else {
        Ok(s.push(d.endpoint_id))
    }
}

/// One more presence service: its address must be writable, it must not have expired, and it must
/// be new.
pub open spec fn service_next(now_ms: u64, s: Seq<[u8; 32]>, d: PresenceService) -> Result<
    Seq<[u8; 32]>,
    SnapshotError,
> {
    if !snapshot::url_ok(d.url) {
        Err(SnapshotError::InvalidLength)
    } else if now_ms >= d.expires_at_ms {
        Err(SnapshotError::Expired)
    } else if s.contains(d.endpoint_id) {
        Err(SnapshotError::DuplicateEntry("presence endpoint"))
    } else {
        Ok(s.push(d.endpoint_id))
    }
}

/// How administrators are checked.
pub open spec fn admin_step(ctx: Context) -> spec_fn(
    Seq<AdminCertificatePayload>,
    Seq<u8>,
) -> Result<Seq<AdminCertificatePayload>, SnapshotError> {
    |s: Seq<AdminCertificatePayload>, raw: Seq<u8>| admin_next(ctx, s, raw)
}

/// How members are checked.
pub open spec fn member_step(ctx: Context, admins: Seq<AdminCertificatePayload>) -> spec_fn(
    Seq<MemberCertificatePayload>,
    Seq<u8>,
) -> Result<Seq<MemberCertificatePayload>, SnapshotError> {
    |s: Seq<MemberCertificatePayload>, raw: Seq<u8>| member_next(ctx, admins, s, raw)
}

/// How endpoint bindings are checked.
pub open spec fn endpoint_step(ctx: Context, members: Seq<MemberCertificatePayload>) -> spec_fn(
    Seq<[u8; 32]>,
    Seq<u8>,
) -> Result<Seq<[u8; 32]>, SnapshotError> {
    |s: Seq<[u8; 32]>, raw: Seq<u8>| endpoint_next(ctx, members, s, raw)
}

/// How applications are checked.
pub open spec fn app_step(ctx: Context, admins: Seq<AdminCertificatePayload>) -> spec_fn(
    Seq<AppRegistrationPayload>,
    Seq<u8>,
) -> Result<Seq<AppRegistrationPayload>, SnapshotError> {
    |s: Seq<AppRegistrationPayload>, raw: Seq<u8>| app_next(ctx, admins, s, raw)
}

/// How application bindings are checked.
pub open spec fn binding_step(
    ctx: Context,
    policy: NetworkPolicy,
    apps: Seq<AppRegistrationPayload>,
    members: Seq<MemberCertificatePayload>,
) -> spec_fn(Seq<Part>, Seq<u8>) -> Result<Seq<Part>, SnapshotError> {
    |s: Seq<Part>, raw: Seq<u8>| binding_next(ctx, policy, apps, members, s, raw)
}

/// How name records are checked.
pub open spec fn name_step(
    apps: Seq<AppRegistrationPayload>,
    issued_at_ms: u64,
    expires_at_ms: u64,
) -> spec_fn(Seq<Seq<char>>, DnsRecord) -> Result<Seq<Seq<char>>, SnapshotError> {
    |s: Seq<Seq<char>>, d: DnsRecord| name_next(apps, issued_at_ms, expires_at_ms, s, d)
}

/// How relays are checked.
pub open spec fn relay_step(now_ms: u64) -> spec_fn(Seq<[u8; 32]>, Relay) -> Result<
    Seq<[u8; 32]>,
    SnapshotError,
> {
    |s: Seq<[u8; 32]>, d: Relay| relay_next(now_ms, s, d)
}

/// How presence services are checked.
pub open spec fn service_step(now_ms: u64) -> spec_fn(Seq<[u8; 32]>, PresenceService) -> Result<
    Seq<[u8; 32]>,
    SnapshotError,
> {
    |s: Seq<[u8; 32]>, d: PresenceService| service_next(now_ms, s, d)
}

/// The administrators that a configuration admits.
pub open spec fn admins_of(ctx: Context, c: Config) -> Result<
    Seq<AdminCertificatePayload>,
    SnapshotError,
> {
    fold(admin_step(ctx), Seq::empty(), c.admin_keys)
}

/// The members that a configuration admits.
pub open spec fn members_of(ctx: Context, admins: Seq<AdminCertificatePayload>, c: Config) -> Result<
    Seq<MemberCertificatePayload>,
    SnapshotError,
> {
    fold(member_step(ctx, admins), Seq::empty(), c.members)
}

/// The applications that a configuration admits.
pub open spec fn apps_of(ctx: Context, admins: Seq<AdminCertificatePayload>, c: Config) -> Result<
    Seq<AppRegistrationPayload>,
    SnapshotError,
> {
    fold(app_step(ctx, admins), Seq::empty(), c.apps)
}

/// What is wrong with the bindings, names and descriptors of a configuration, given the members
/// and applications that it admits.
pub open spec fn references_verdict(
    ctx: Context,
    c: Config,
    apps: Seq<AppRegistrationPayload>,
    members: Seq<MemberCertificatePayload>,
) -> Result<(), SnapshotError> {
    match fold(binding_step(ctx, c.policies, apps, members), Seq::empty(), c.app_bindings) {
        Err(e) => Err(e),
        Ok(_) => match fold(
            name_step(apps, c.issued_at_ms, c.expires_at_ms),
            Seq::empty(),
            c.virtual_dns,
        ) {
            Err(e) => Err(e),
            Ok(_) => match fold(relay_step(ctx.now_ms), Seq::empty(), c.relays) {
                Err(e) => Err(e),
                Ok(_) => match fold(service_step(ctx.now_ms), Seq::empty(), c.presence_services) {
                    Err(e) => Err(e),
                    Ok(_) => Ok(()),
                },
            },
        },
    }
}

/// What is wrong with the credentials of a configuration: administrators first, then members,
/// endpoints, applications, and everything that refers to them.
pub open spec fn credentials_verdict(ctx: Context, c: Config) -> Result<(), SnapshotError> {
    match admins_of(ctx, c) {
        Err(e) => Err(e),
        Ok(admins) => match members_of(ctx, admins, c) {
            Err(e) => Err(e),
            Ok(members) => if members.len() > c.policies.max_members {
                Err(SnapshotError::PolicyLimitExceeded)
            } else {
                match fold(endpoint_step(ctx, members), Seq::empty(), c.endpoint_bindings) {
                    Err(e) => Err(e),
                    Ok(_) => match apps_of(ctx, admins, c) {
                        Err(e) => Err(e),
                        Ok(apps) => references_verdict(ctx, c, apps, members),
                    },
                }
            },
        },
    }
}

/// The context in which a configuration is checked: its own revocations count.
pub open spec fn context(c: Config, root: Seq<u8>, network: NetworkId, now_ms: u64) -> Context {
    Context { root, network, now_ms, revoked: c.revoked_serials.to_set() }
}

/// What becomes of a configuration that is checked against the root key `root`, the network and
/// the time: the first thing that is wrong with it, if anything is.
pub open spec fn config_verdict(c: Config, root: Seq<u8>, network: NetworkId, now_ms: u64) -> Result<
    (),
    SnapshotError,
> {
    match snapshot::shape_verdict(c) {
        Err(e) => Err(e),
        Ok(()) => if c.network_id != network || keys::network_id_of(root) != network {
            Err(SnapshotError::WrongNetwork)
        } else if now_ms < c.issued_at_ms {
            Err(SnapshotError::NotYetValid)
        } else if now_ms >= c.expires_at_ms {
            Err(SnapshotError::Expired)
        } else if !c.revoked_serials.no_duplicates() {
            Err(SnapshotError::DuplicateEntry("revoked serial"))
        } else {
            credentials_verdict(context(c, root, network, now_ms), c)
        },
    }
}

/// Checking one more item is a step from where the earlier ones led.
pub(crate) proof fn lemma_fold_step<A, T>(
    step: spec_fn(A, T) -> Result<A, SnapshotError>,
    init: A,
    s: Seq<T>,
    i: int,
)
    requires
        0 <= i < s.len(),
    ensures
        fold(step, init, s.take(i + 1)) == (match fold(step, init, s.take(i)) {
            Err(e) => Err(e),
            Ok(a) => step(a, s[i]),
        }),
{
    assert(s.take(i + 1).drop_last() =~= s.take(i));
}

/// Once an item is refused, so is every longer list.
pub(crate) proof fn lemma_fold_error<A, T>(
    step: spec_fn(A, T) -> Result<A, SnapshotError>,
    init: A,
    s: Seq<T>,
    i: int,
)
    requires
        0 <= i <= s.len(),
        fold(step, init, s.take(i)) is Err,
    ensures
        fold(step, init, s) == fold(step, init, s.take(i)),
    decreases s.len() - i,
{
    if i < s.len() {
        lemma_fold_step(step, init, s, i);
        lemma_fold_error(step, init, s, i + 1);
    } else {
        assert(s.take(i) =~= s);
    }
}

/// What each of several verified administrators was found to be.
pub open spec fn admin_views(s: Seq<VerifiedAdmin>) -> Seq<AdminCertificatePayload> {
    Seq::new(s.len(), |i: int| s[i]@)
}

/// Finds an administrator among those already accepted.
fn find_admin<'a>(known: &'a Vec<VerifiedAdmin>, wanted: [u8; 16]) -> (found: Option<&'a VerifiedAdmin>)
    ensures
        match admin_with(admin_views(known@), wanted) {
            Some(p) => found matches Some(one) && one@ == p,
            None => found is None,
        },
{
    let ghost all = admin_views(known@);
    let mut i: usize = known.len();
    assert(all.take(i as int) =~= all);
    while i > 0
        invariant
            i <= known.len(),
            all == admin_views(known@),
            admin_with(all, wanted) == admin_with(all.take(i as int), wanted),
        decreases i,
    {
        proof {
            assert(all.take(i as int).drop_last() =~= all.take(i - 1));
            assert(all.take(i as int).last() == known@[i - 1]@);
        }
        i = i - 1;
        if arrays_equal(&known[i].payload().key_id, &wanted) {
            return Some(&known[i]);
        }
    }
    None
}

/// What each of several verified members was found to be.
pub open spec fn member_views(s: Seq<VerifiedMember>) -> Seq<MemberCertificatePayload> {
    Seq::new(s.len(), |i: int| s[i]@)
}

/// Finds a member among those already accepted.
fn find_member<'a>(known: &'a Vec<VerifiedMember>, wanted: MemberId) -> (found: Option<&'a VerifiedMember>)
    ensures
        match member_with(member_views(known@), wanted) {
            Some(p) => found matches Some(one) && one@ == p,
            None => found is None,
        },
{
    let ghost all = member_views(known@);
    let mut i: usize = known.len();
    assert(all.take(i as int) =~= all);
    while i > 0
        invariant
            i <= known.len(),
            all == member_views(known@),
            member_with(all, wanted) == member_with(all.take(i as int), wanted),
        decreases i,
    {
        proof {
            assert(all.take(i as int).drop_last() =~= all.take(i - 1));
            assert(all.take(i as int).last() == known@[i - 1]@);
        }
        i = i - 1;
        if known[i].payload().member_id == wanted {
            return Some(&known[i]);
        }
    }
    None
}

/// What each of several verified applications was found to be.
pub open spec fn app_views(s: Seq<VerifiedApp>) -> Seq<AppRegistrationPayload> {
    Seq::new(s.len(), |i: int| s[i]@)
}

/// Finds an application among those already accepted.
fn find_app<'a>(known: &'a Vec<VerifiedApp>, wanted: AppAddr) -> (found: Option<&'a VerifiedApp>)
    ensures
        match app_with(app_views(known@), wanted) {
            Some(p) => found matches Some(one) && one@ == p,
            None => found is None,
        },
{
    let ghost all = app_views(known@);
    let mut i: usize = known.len();
    assert(all.take(i as int) =~= all);
    while i > 0
        invariant
            i <= known.len(),
            all == app_views(known@),
            app_with(all, wanted) == app_with(all.take(i as int), wanted),
        decreases i,
    {
        proof {
            assert(all.take(i as int).drop_last() =~= all.take(i - 1));
            assert(all.take(i as int).last() == known@[i - 1]@);
        }
        i = i - 1;
        if known[i].payload().app_addr == wanted {
            return Some(&known[i]);
        }
    }
    None
}

/// Whether an array is among others.
fn among(values: &Vec<[u8; 32]>, wanted: &[u8; 32]) -> (found: bool)
    ensures
        found == values@.contains(*wanted),
{
    let mut i: usize = 0;
    while i < values.len()
        invariant
            i <= values.len(),
            forall|j: int| 0 <= j < i ==> values@[j] != *wanted,
        decreases values.len() - i,
    {
        if arrays_equal(&values[i], wanted) {
            assert(values@[i as int] == *wanted);
            return true;
        }
        i = i + 1;
    }
    false
}

/// Whether a part is among others.
fn part_among(values: &Vec<Part>, wanted: &Part) -> (found: bool)
    ensures
        found == values@.contains(*wanted),
{
    let mut i: usize = 0;
    while i < values.len()
        invariant
            i <= values.len(),
            forall|j: int| 0 <= j < i ==> values@[j] != *wanted,
        decreases values.len() - i,
    {
        if values[i].0 == wanted.0 && values[i].1 == wanted.1 && values[i].2 == wanted.2 {
            assert(values@[i as int] == *wanted);
            return true;
        }
        i = i + 1;
    }
    false
}

/// What credentials are checked against, as values.
struct Trust<'a> {
    root: &'a NetworkRootPublic,
    network: NetworkId,
    now_ms: u64,
    revoked: HashSet<u64>,
}

impl<'a> View for Trust<'a> {
    type V = Context;

    closed spec fn view(&self) -> Context {
        Context {
            root: self.root@,
            network: self.network,
            now_ms: self.now_ms,
            revoked: self.revoked@,
        }
    }
}

/// The set of the revoked serials, and whether none was repeated.
fn revocations(serials: &Vec<u64>) -> (set: (HashSet<u64>, bool))
    ensures
        set.0@ == serials@.to_set(),
        set.1 == serials@.no_duplicates(),
{
    broadcast use vstd::std_specs::hash::group_hash_axioms;

    let mut set: HashSet<u64> = HashSet::new();
    let mut distinct: bool = true;
    let mut i: usize = 0;
    while i < serials.len()
        invariant
            i <= serials.len(),
            forall|x: u64| set@.contains(x) <==> serials@.take(i as int).contains(x),
            distinct == serials@.take(i as int).no_duplicates(),
            vstd::std_specs::hash::obeys_key_model::<u64>(),
            vstd::std_specs::hash::builds_valid_hashers::<std::hash::RandomState>(),
        decreases serials.len() - i,
    {
        broadcast use vstd::std_specs::hash::group_hash_axioms;

        let ghost before = serials@.take(i as int);
        let ghost after = serials@.take(i + 1);
        let x: u64 = serials[i];
        if set.contains(&x) {
            proof {
                let j = choose|j: int| 0 <= j < before.len() && before[j] == x;
                assert(after[j] == after[i as int]);
            }
            distinct = false;
        } else {
            proof {
                assert forall|a: int, b: int| #![trigger after[a], after[b]]
                    before.no_duplicates() && 0 <= a < b < after.len() implies after[a] != after[b] by {
                    assert(before[a] == after[a]);
                    if b < i {
                        assert(before[b] == after[b]);
                    } else {
                        assert(before.contains(before[a]));
                    }
                }
                if after.no_duplicates() {
                    assert forall|a: int, b: int| #![trigger before[a], before[b]]
                        0 <= a < b < before.len() implies before[a] != before[b] by {
                        assert(after[a] == before[a] && after[b] == before[b]);
                    }
                }
            }
            set.insert(x);
        }
        proof {
            assert(after =~= before.push(x));
            assert forall|y: u64| after.contains(y) <==> (before.contains(y) || y == x) by {
                if before.contains(y) {
                    let j = choose|j: int| 0 <= j < before.len() && before[j] == y;
                    assert(after[j] == y);
                }
                assert(after[i as int] == x);
            }
            if !before.no_duplicates() {
                let (a, b) = choose|a: int, b: int|
                    0 <= a < before.len() && 0 <= b < before.len() && a != b && before[a] == before[b];
                assert(after[a] == after[b]);
            }
        }
        i = i + 1;
    }
    proof {
        assert(serials@.take(i as int) =~= serials@);
        assert(set@ =~= serials@.to_set());
    }
    (set, distinct)
}


/// Checks the administrators.
fn check_admins(trust: &Trust<'_>, keys: &Vec<AdminKey>) -> (checked: Result<Vec<VerifiedAdmin>, SnapshotError>)
    ensures
        match fold(admin_step(trust@), Seq::empty(), snapshot::certificates(keys@)) {
            Ok(all) => checked matches Ok(accepted) && admin_views(accepted@) == all,
            Err(reason) => checked matches Err(error) && error == reason,
        },
{
    let ghost step = admin_step(trust@);
    let ghost items = snapshot::certificates(keys@);
    let mut accepted: Vec<VerifiedAdmin> = Vec::new();
    assert(admin_views(accepted@) =~= Seq::empty());
    let mut i: usize = 0;
    while i < keys.len()
        invariant
            i <= keys.len(),
            items == snapshot::certificates(keys@),
            step == admin_step(trust@),
            fold(step, Seq::empty(), items.take(i as int)) == Ok::<Seq<AdminCertificatePayload>, SnapshotError>(admin_views(accepted@)),
        decreases keys.len() - i,
    {
        proof {
            lemma_fold_step(step, Seq::empty(), items, i as int);
            if fold(step, Seq::empty(), items.take(i + 1)) is Err {
                lemma_fold_error(step, Seq::empty(), items, i + 1);
            }
        }
        let ghost before = admin_views(accepted@);
        let certificate: AdminCertificate = match AdminCertificate::from_bytes(keys[i].certificate.as_slice()) {
            Ok(value) => value,
            Err(error) => return Err(SnapshotError::Credential(error)),
        };
        let one: VerifiedAdmin = match certificate.verify(
            trust.root,
            trust.network,
            trust.now_ms,
            &trust.revoked,
        ) {
            Ok(one) => one,
            Err(error) => return Err(SnapshotError::Credential(error)),
        };
        if find_admin(&accepted, one.payload().key_id).is_some() {
            return Err(SnapshotError::DuplicateEntry("admin key"));
        }
        accepted.push(one);
        proof {
            assert(admin_views(accepted@) =~= before.push(admin_views(accepted@).last()));
        }
        i = i + 1;
    }
    proof {
        assert(items.take(i as int) =~= items);
    }
    Ok(accepted)
}

/// Checks who vouches for a member.
fn vouch_member(trust: &Trust<'_>, admins: &Vec<VerifiedAdmin>, certificate: &MemberCertificate) -> (checked:
    Result<VerifiedMember, SnapshotError>)
    ensures
        match member_check(trust@, admin_views(admins@), certificate@) {
            Ok(p) => checked matches Ok(one) && one@ == p,
            Err(reason) => checked matches Err(error) && error == reason,
        },
{
    let issuer: [u8; 16] = certificate.payload().issuer_key_id;
    let checked: Result<VerifiedMember, CertificateError> = if arrays_equal(
        &issuer,
        &trust.root.key_id(),
    ) {
        certificate.verify(trust.root, trust.network, trust.now_ms, &trust.revoked)
    } else {
        match find_admin(admins, issuer) {
            None => return Err(SnapshotError::UnknownAdmin),
            Some(one) => certificate.verify_with_admin(
                one,
                trust.network,
                trust.now_ms,
                &trust.revoked,
            ),
        }
    };
    match checked {
        Ok(one) => Ok(one),
        Err(error) => Err(SnapshotError::Credential(error)),
    }
}

/// Checks who vouches for an application.
fn vouch_app(trust: &Trust<'_>, admins: &Vec<VerifiedAdmin>, registration: &AppRegistration) -> (checked:
    Result<VerifiedApp, SnapshotError>)
    ensures
        match app_check(trust@, admin_views(admins@), registration@) {
            Ok(p) => checked matches Ok(one) && one@ == p,
            Err(reason) => checked matches Err(error) && error == reason,
        },
{
    let issuer: [u8; 16] = registration.payload().issuer_key_id;
    let checked: Result<VerifiedApp, CertificateError> = if arrays_equal(
        &issuer,
        &trust.root.key_id(),
    ) {
        registration.verify(trust.root, trust.network)
    } else {
        match find_admin(admins, issuer) {
            None => return Err(SnapshotError::UnknownAdmin),
            Some(one) => registration.verify_with_admin(one, trust.network),
        }
    };
    match checked {
        Ok(one) => Ok(one),
        Err(error) => Err(SnapshotError::Credential(error)),
    }
}

/// Checks the members.
fn check_members(trust: &Trust<'_>, admins: &Vec<VerifiedAdmin>, raw: &Vec<Vec<u8>>) -> (checked: Result<Vec<VerifiedMember>, SnapshotError>)
    ensures
        match fold(member_step(trust@, admin_views(admins@)), Seq::empty(), snapshot::blobs(raw@)) {
            Ok(all) => checked matches Ok(accepted) && member_views(accepted@) == all,
            Err(reason) => checked matches Err(error) && error == reason,
        },
{
    let ghost step = member_step(trust@, admin_views(admins@));
    let ghost items = snapshot::blobs(raw@);
    let mut accepted: Vec<VerifiedMember> = Vec::new();
    assert(member_views(accepted@) =~= Seq::empty());
    let mut i: usize = 0;
    while i < raw.len()
        invariant
            i <= raw.len(),
            items == snapshot::blobs(raw@),
            step == member_step(trust@, admin_views(admins@)),
            fold(step, Seq::empty(), items.take(i as int)) == Ok::<Seq<MemberCertificatePayload>, SnapshotError>(member_views(accepted@)),
        decreases raw.len() - i,
    {
        proof {
            lemma_fold_step(step, Seq::empty(), items, i as int);
            if fold(step, Seq::empty(), items.take(i + 1)) is Err {
                lemma_fold_error(step, Seq::empty(), items, i + 1);
            }
        }
        let ghost before = member_views(accepted@);
        let certificate: MemberCertificate = match MemberCertificate::from_bytes(raw[i].as_slice()) {
            Ok(value) => value,
            Err(error) => return Err(SnapshotError::Credential(error)),
        };
        let one: VerifiedMember = match vouch_member(trust, admins, &certificate) {
            Ok(one) => one,
            Err(error) => return Err(error),
        };
        if find_member(&accepted, one.payload().member_id).is_some() {
            return Err(SnapshotError::DuplicateEntry("member"));
        }
        accepted.push(one);
        proof {
            assert(member_views(accepted@) =~= before.push(member_views(accepted@).last()));
        }
        i = i + 1;
    }
    proof {
        assert(items.take(i as int) =~= items);
    }
    Ok(accepted)
}

/// Checks the endpoint bindings.
fn check_endpoints(trust: &Trust<'_>, members: &Vec<VerifiedMember>, raw: &Vec<Vec<u8>>) -> (checked: Result<Vec<[u8; 32]>, SnapshotError>)
    ensures
        match fold(endpoint_step(trust@, member_views(members@)), Seq::empty(), snapshot::blobs(raw@)) {
            Ok(all) => checked matches Ok(accepted) && accepted@ == all,
            Err(reason) => checked matches Err(error) && error == reason,
        },
{
    let ghost step = endpoint_step(trust@, member_views(members@));
    let ghost items = snapshot::blobs(raw@);
    let mut accepted: Vec<[u8; 32]> = Vec::new();
    assert(accepted@ =~= Seq::empty());
    let mut i: usize = 0;
    while i < raw.len()
        invariant
            i <= raw.len(),
            items == snapshot::blobs(raw@),
            step == endpoint_step(trust@, member_views(members@)),
            fold(step, Seq::empty(), items.take(i as int)) == Ok::<Seq<[u8; 32]>, SnapshotError>(accepted@),
        decreases raw.len() - i,
    {
        proof {
            lemma_fold_step(step, Seq::empty(), items, i as int);
            if fold(step, Seq::empty(), items.take(i + 1)) is Err {
                lemma_fold_error(step, Seq::empty(), items, i + 1);
            }
        }
        let ghost before = accepted@;
        let binding: EndpointBinding = match EndpointBinding::from_bytes(raw[i].as_slice()) {
            Ok(value) => value,
            Err(error) => return Err(SnapshotError::Credential(error)),
        };
        let endpoint: [u8; 32] = binding.payload().endpoint_id;
        match find_member(members, binding.payload().member_id) {
            None => return Err(SnapshotError::UnknownMember),
            Some(one) => match binding.verify(one, trust.network, endpoint, trust.now_ms) {
                Ok(()) => {},
                Err(error) => return Err(SnapshotError::Credential(error)),
            },
        }
        if among(&accepted, &endpoint) {
            return Err(SnapshotError::DuplicateEntry("endpoint"));
        }
        accepted.push(endpoint);
        proof {
            assert(accepted@ =~= before.push(accepted@.last()));
        }
        i = i + 1;
    }
    proof {
        assert(items.take(i as int) =~= items);
    }
    Ok(accepted)
}

/// Checks the applications.
fn check_apps(trust: &Trust<'_>, admins: &Vec<VerifiedAdmin>, raw: &Vec<Vec<u8>>) -> (checked: Result<Vec<VerifiedApp>, SnapshotError>)
    ensures
        match fold(app_step(trust@, admin_views(admins@)), Seq::empty(), snapshot::blobs(raw@)) {
            Ok(all) => checked matches Ok(accepted) && app_views(accepted@) == all,
            Err(reason) => checked matches Err(error) && error == reason,
        },
{
    let ghost step = app_step(trust@, admin_views(admins@));
    let ghost items = snapshot::blobs(raw@);
    let mut accepted: Vec<VerifiedApp> = Vec::new();
    assert(app_views(accepted@) =~= Seq::empty());
    let mut i: usize = 0;
    while i < raw.len()
        invariant
            i <= raw.len(),
            items == snapshot::blobs(raw@),
            step == app_step(trust@, admin_views(admins@)),
            fold(step, Seq::empty(), items.take(i as int)) == Ok::<Seq<AppRegistrationPayload>, SnapshotError>(app_views(accepted@)),
        decreases raw.len() - i,
    {
        proof {
            lemma_fold_step(step, Seq::empty(), items, i as int);
            if fold(step, Seq::empty(), items.take(i + 1)) is Err {
                lemma_fold_error(step, Seq::empty(), items, i + 1);
            }
        }
        let ghost before = app_views(accepted@);
        let registration: AppRegistration = match AppRegistration::from_bytes(raw[i].as_slice()) {
            Ok(value) => value,
            Err(error) => return Err(SnapshotError::Credential(error)),
        };
        let one: VerifiedApp = match vouch_app(trust, admins, &registration) {
            Ok(one) => one,
            Err(error) => return Err(error),
        };
        if find_app(&accepted, one.payload().app_addr).is_some() {
            return Err(SnapshotError::DuplicateEntry("application"));
        }
        accepted.push(one);
        proof {
            assert(app_views(accepted@) =~= before.push(app_views(accepted@).last()));
        }
        i = i + 1;
    }
    proof {
        assert(items.take(i as int) =~= items);
    }
    Ok(accepted)
}

/// Checks one application binding.
fn check_binding(
    trust: &Trust<'_>,
    policy: NetworkPolicy,
    apps: &Vec<VerifiedApp>,
    members: &Vec<VerifiedMember>,
    known: &Vec<Part>,
    raw: &Vec<u8>,
) -> (checked: Result<Part, SnapshotError>)
    ensures
        match binding_next(
            trust@,
            policy,
            app_views(apps@),
            member_views(members@),
            known@,
            raw@,
        ) {
            Ok(all) => checked matches Ok(part) && all == known@.push(part),
            Err(reason) => checked matches Err(error) && error == reason,
        },
{
    let binding: AppBinding = match AppBinding::from_bytes(raw.as_slice()) {
        Ok(value) => value,
        Err(error) => return Err(SnapshotError::Credential(error)),
    };
    let payload: &AppBindingPayload = binding.payload();
    let app: &VerifiedApp = match find_app(apps, payload.app_addr) {
        Some(app) => app,
        None => return Err(SnapshotError::UnknownApplication),
    };
    let member: &VerifiedMember = match find_member(members, payload.subject) {
        Some(member) => member,
        None => return Err(SnapshotError::UnknownMember),
    };
    if payload.services.len() > policy.max_services_per_binding as usize {
        return Err(SnapshotError::PolicyLimitExceeded);
    }
    match binding.verify(app, member, trust.network, trust.now_ms) {
        Ok(()) => {},
        Err(error) => return Err(SnapshotError::Credential(error)),
    }
    let part: Part = (payload.app_addr, payload.subject, payload.role);
    if part_among(known, &part) {
        return Err(SnapshotError::DuplicateEntry("application binding"));
    }
    Ok(part)
}

/// Checks the application bindings.
fn check_bindings(
    trust: &Trust<'_>,
    policy: NetworkPolicy,
    apps: &Vec<VerifiedApp>,
    members: &Vec<VerifiedMember>,
    raw: &Vec<Vec<u8>>,
) -> (checked: Result<Vec<Part>, SnapshotError>)
    ensures
        match fold(binding_step(trust@, policy, app_views(apps@), member_views(members@)), Seq::empty(), snapshot::blobs(raw@)) {
            Ok(all) => checked matches Ok(accepted) && accepted@ == all,
            Err(reason) => checked matches Err(error) && error == reason,
        },
{
    let ghost step = binding_step(trust@, policy, app_views(apps@), member_views(members@));
    let ghost items = snapshot::blobs(raw@);
    let mut accepted: Vec<Part> = Vec::new();
    assert(accepted@ =~= Seq::empty());
    let mut i: usize = 0;
    while i < raw.len()
        invariant
            i <= raw.len(),
            items == snapshot::blobs(raw@),
            step == binding_step(trust@, policy, app_views(apps@), member_views(members@)),
            fold(step, Seq::empty(), items.take(i as int)) == Ok::<Seq<Part>, SnapshotError>(accepted@),
        decreases raw.len() - i,
    {
        proof {
            lemma_fold_step(step, Seq::empty(), items, i as int);
            if fold(step, Seq::empty(), items.take(i + 1)) is Err {
                lemma_fold_error(step, Seq::empty(), items, i + 1);
            }
        }
        let ghost before = accepted@;
        match check_binding(trust, policy, apps, members, &accepted, &raw[i]) {
            Ok(part) => accepted.push(part),
            Err(error) => return Err(error),
        }
        proof {
            assert(accepted@ =~= before.push(accepted@.last()));
        }
        i = i + 1;
    }
    proof {
        assert(items.take(i as int) =~= items);
    }
    Ok(accepted)
}

/// The names of each of several records.
spec fn name_views(s: Seq<VirtualName>) -> Seq<Seq<char>> {
    Seq::new(s.len(), |i: int| s[i]@)
}

/// Whether a name is among others.
fn name_among(values: &Vec<VirtualName>, wanted: &VirtualName) -> (found: bool)
    ensures
        found == name_views(values@).contains(wanted@),
{
    let mut i: usize = 0;
    while i < values.len()
        invariant
            i <= values.len(),
            forall|j: int| 0 <= j < i ==> name_views(values@)[j] != wanted@,
        decreases values.len() - i,
    {
        if values[i] == *wanted {
            assert(name_views(values@)[i as int] == wanted@);
            return true;
        }
        i = i + 1;
    }
    false
}

/// Checks the name records.
fn check_names(
    apps: &Vec<VerifiedApp>,
    issued_at_ms: u64,
    expires_at_ms: u64,
    records: &Vec<VirtualDnsRecord>,
) -> (checked: Result<Vec<VirtualName>, SnapshotError>)
    ensures
        match fold(name_step(app_views(apps@), issued_at_ms, expires_at_ms), Seq::empty(), snapshot::dns_records(records@)) {
            Ok(all) => checked matches Ok(accepted) && name_views(accepted@) == all,
            Err(reason) => checked matches Err(error) && error == reason,
        },
{
    let ghost step = name_step(app_views(apps@), issued_at_ms, expires_at_ms);
    let ghost items = snapshot::dns_records(records@);
    let mut accepted: Vec<VirtualName> = Vec::new();
    assert(name_views(accepted@) =~= Seq::empty());
    let mut i: usize = 0;
    while i < records.len()
        invariant
            i <= records.len(),
            items == snapshot::dns_records(records@),
            step == name_step(app_views(apps@), issued_at_ms, expires_at_ms),
            fold(step, Seq::empty(), items.take(i as int)) == Ok::<Seq<Seq<char>>, SnapshotError>(name_views(accepted@)),
        decreases records.len() - i,
    {
        proof {
            lemma_fold_step(step, Seq::empty(), items, i as int);
            if fold(step, Seq::empty(), items.take(i + 1)) is Err {
                lemma_fold_error(step, Seq::empty(), items, i + 1);
            }
        }
        let ghost before = name_views(accepted@);
        if find_app(apps, records[i].app_addr).is_none() {
            return Err(SnapshotError::UnknownApplication);
        }
        if records[i].expires_at_ms <= issued_at_ms || records[i].expires_at_ms > expires_at_ms {
            return Err(SnapshotError::InvalidValidityWindow);
        }
        if name_among(&accepted, &records[i].name) {
            return Err(SnapshotError::DuplicateEntry("virtual DNS name"));
        }
        accepted.push(records[i].name.clone());
        proof {
            assert(name_views(accepted@) =~= before.push(name_views(accepted@).last()));
        }
        i = i + 1;
    }
    proof {
        assert(items.take(i as int) =~= items);
    }
    Ok(accepted)
}

/// Checks the relays.
fn check_relays(descriptors: &Vec<RelayDescriptor>, now_ms: u64) -> (checked: Result<Vec<[u8; 32]>, SnapshotError>)
    ensures
        match fold(relay_step(now_ms), Seq::empty(), snapshot::relays(descriptors@)) {
            Ok(all) => checked matches Ok(accepted) && accepted@ == all,
            Err(reason) => checked matches Err(error) && error == reason,
        },
{
    let ghost step = relay_step(now_ms);
    let ghost items = snapshot::relays(descriptors@);
    let mut accepted: Vec<[u8; 32]> = Vec::new();
    assert(accepted@ =~= Seq::empty());
    let mut i: usize = 0;
    while i < descriptors.len()
        invariant
            i <= descriptors.len(),
            items == snapshot::relays(descriptors@),
            step == relay_step(now_ms),
            fold(step, Seq::empty(), items.take(i as int)) == Ok::<Seq<[u8; 32]>, SnapshotError>(accepted@),
        decreases descriptors.len() - i,
    {
        proof {
            lemma_fold_step(step, Seq::empty(), items, i as int);
            if fold(step, Seq::empty(), items.take(i + 1)) is Err {
                lemma_fold_error(step, Seq::empty(), items, i + 1);
            }
        }
        let ghost before = accepted@;
        match validate_url(descriptors[i].url.as_str()) {
            Ok(()) => {},
            Err(error) => return Err(error),
        }
        if now_ms >= descriptors[i].expires_at_ms {
            return Err(SnapshotError::Expired);
        }
        if among(&accepted, &descriptors[i].endpoint_id) {
            return Err(SnapshotError::DuplicateEntry("relay endpoint"));
        }
        accepted.push(descriptors[i].endpoint_id);
        proof {
            assert(accepted@ =~= before.push(accepted@.last()));
        }
        i = i + 1;
    }
    proof {
        assert(items.take(i as int) =~= items);
    }
    Ok(accepted)
}

/// Checks the presence services.
fn check_services(descriptors: &Vec<PresenceServiceDescriptor>, now_ms: u64) -> (checked: Result<Vec<[u8; 32]>, SnapshotError>)
    ensures
        match fold(service_step(now_ms), Seq::empty(), snapshot::presence_services(descriptors@)) {
            Ok(all) => checked matches Ok(accepted) && accepted@ == all,
            Err(reason) => checked matches Err(error) && error == reason,
        },
{
    let ghost step = service_step(now_ms);
    let ghost items = snapshot::presence_services(descriptors@);
    let mut accepted: Vec<[u8; 32]> = Vec::new();
    assert(accepted@ =~= Seq::empty());
    let mut i: usize = 0;
    while i < descriptors.len()
        invariant
            i <= descriptors.len(),
            items == snapshot::presence_services(descriptors@),
            step == service_step(now_ms),
            fold(step, Seq::empty(), items.take(i as int)) == Ok::<Seq<[u8; 32]>, SnapshotError>(accepted@),
        decreases descriptors.len() - i,
    {
        proof {
            lemma_fold_step(step, Seq::empty(), items, i as int);
            if fold(step, Seq::empty(), items.take(i + 1)) is Err {
                lemma_fold_error(step, Seq::empty(), items, i + 1);
            }
        }
        let ghost before = accepted@;
        match validate_url(descriptors[i].url.as_str()) {
            Ok(()) => {},
            Err(error) => return Err(error),
        }
        if now_ms >= descriptors[i].expires_at_ms {
            return Err(SnapshotError::Expired);
        }
        if among(&accepted, &descriptors[i].endpoint_id) {
            return Err(SnapshotError::DuplicateEntry("presence endpoint"));
        }
        accepted.push(descriptors[i].endpoint_id);
        proof {
            assert(accepted@ =~= before.push(accepted@.last()));
        }
        i = i + 1;
    }
    proof {
        assert(items.take(i as int) =~= items);
    }
    Ok(accepted)
}

/// Checks the relays, then the presence services.
fn validate_descriptors(
    relays: &Vec<RelayDescriptor>,
    services: &Vec<PresenceServiceDescriptor>,
    now_ms: u64,
) -> (valid: Result<(), SnapshotError>)
    ensures
        valid == (match fold(relay_step(now_ms), Seq::empty(), snapshot::relays(relays@)) {
            Err(e) => Err::<(), SnapshotError>(e),
            Ok(_) => match fold(
                service_step(now_ms),
                Seq::empty(),
                snapshot::presence_services(services@),
            ) {
                Err(e) => Err(e),
                Ok(_) => Ok(()),
            },
        }),
{
    match check_relays(relays, now_ms) {
        Ok(_) => {},
        Err(error) => return Err(error),
    }
    match check_services(services, now_ms) {
        Ok(_) => Ok(()),
        Err(error) => Err(error),
    }
}

impl NetworkConfigV1 {
    /// Checks what refers to members and applications.
    fn check_references(
        &self,
        trust: &Trust<'_>,
        apps: &Vec<VerifiedApp>,
        members: &Vec<VerifiedMember>,
    ) -> (valid: Result<(), SnapshotError>)
        ensures
            valid == references_verdict(
                trust@,
                self@,
                app_views(apps@),
                member_views(members@),
            ),
    {
        match check_bindings(trust, self.policies, apps, members, &self.app_bindings) {
            Ok(_) => {},
            Err(error) => return Err(error),
        }
        match check_names(apps, self.issued_at_ms, self.expires_at_ms, &self.virtual_dns) {
            Ok(_) => {},
            Err(error) => return Err(error),
        }
        validate_descriptors(&self.relays, &self.presence_services, trust.now_ms)
    }

    /// Checks every credential.
    fn check_credentials(&self, trust: &Trust<'_>) -> (valid: Result<(), SnapshotError>)
        ensures
            valid == credentials_verdict(trust@, self@),
    {
        let admins: Vec<VerifiedAdmin> = match check_admins(trust, &self.admin_keys) {
            Ok(admins) => admins,
            Err(error) => return Err(error),
        };
        let members: Vec<VerifiedMember> = match check_members(trust, &admins, &self.members) {
            Ok(members) => members,
            Err(error) => return Err(error),
        };
        if members.len() > self.policies.max_members as usize {
            return Err(SnapshotError::PolicyLimitExceeded);
        }
        match check_endpoints(trust, &members, &self.endpoint_bindings) {
            Ok(_) => {},
            Err(error) => return Err(error),
        }
        let apps: Vec<VerifiedApp> = match check_apps(trust, &admins, &self.apps) {
            Ok(apps) => apps,
            Err(error) => return Err(error),
        };
        self.check_references(trust, &apps, &members)
    }

    /// Checks the whole configuration against the root key, the network and the time.
    fn check(&self, root: &NetworkRootPublic, expected_network: NetworkId, now_ms: u64) -> (valid:
        Result<(), SnapshotError>)
        ensures
            valid == config_verdict(self@, root@, expected_network, now_ms),
    {
        match self.validate_shape() {
            Ok(()) => {},
            Err(error) => return Err(error),
        }
        if self.network_id != expected_network || root.network_id() != expected_network {
            return Err(SnapshotError::WrongNetwork);
        }
        if now_ms < self.issued_at_ms {
            return Err(SnapshotError::NotYetValid);
        }
        if now_ms >= self.expires_at_ms {
            return Err(SnapshotError::Expired);
        }
        let (revoked, distinct) = revocations(&self.revoked_serials);
        if !distinct {
            return Err(SnapshotError::DuplicateEntry("revoked serial"));
        }
        let trust = Trust { root, network: expected_network, now_ms, revoked };
        self.check_credentials(&trust)
    }

    /// Accepts the configuration, or says what is wrong with it first.
    pub fn validate(
        self,
        root: &NetworkRootPublic,
        expected_network: NetworkId,
        now_ms: u64,
    ) -> (validated: Result<ValidatedNetworkConfig, SnapshotError>)
        ensures
            match config_verdict(self@, root@, expected_network, now_ms) {
                Ok(()) => validated matches Ok(accepted) && accepted@ == self@,
                Err(reason) => validated matches Err(error) && error == reason,
            },
    {
        match self.check(root, expected_network, now_ms) {
            Ok(()) => {
                assert(accepted_at(self@, root@, now_ms));
                assert(was_accepted(self@));
                Ok(ValidatedNetworkConfig { inner: self })
            },
            Err(error) => Err(error),
        }
    }
}

/// Whether a configuration was accepted under this root key at this time.
pub open spec fn accepted_at(c: Config, root: Seq<u8>, now_ms: u64) -> bool {
    config_verdict(c, root, c.network_id, now_ms) is Ok
}

/// Whether some root key accepted a configuration at some time.
pub open spec fn was_accepted(c: Config) -> bool {
    exists|root: Seq<u8>, now_ms: u64| #[trigger] accepted_at(c, root, now_ms)
}

/// A configuration that was accepted.
#[derive(PartialEq, Eq)]
pub struct ValidatedNetworkConfig {
    inner: NetworkConfigV1,
}

impl View for ValidatedNetworkConfig {
    type V = Config;

    closed spec fn view(&self) -> Config {
        self.inner@
    }
}

/// The application that a name stands for: that of the first record that bears the name and has
/// not expired.
pub open spec fn resolve(records: Seq<DnsRecord>, name: Seq<char>, now_ms: u64) -> Option<AppAddr>
    decreases records.len(),
{
    if records.len() == 0 {
        None
    } else if records[0].name == name && records[0].expires_at_ms > now_ms {
        Some(records[0].app_addr)
    } else {
        resolve(records.skip(1), name, now_ms)
    }
}

/// The administrator with a key identifier, as the first certificate that names it says; one
/// before it that cannot be read is an error.
pub open spec fn admin_lookup(ctx: Context, raw: Seq<Seq<u8>>, key_id: [u8; 16]) -> Result<
    AdminCertificatePayload,
    SnapshotError,
>
    decreases raw.len(),
{
    if raw.len() == 0 {
        Err(SnapshotError::UnknownAdmin)
    } else {
        match admin::read_signed_admin(raw[0]) {
            None => Err(SnapshotError::Credential(CertificateError::MalformedWire)),
            Some(c) => if c.payload.key_id == key_id {
                match admin::admin_verdict(c, ctx.root, ctx.network, ctx.now_ms, ctx.revoked) {
                    Err(e) => Err(SnapshotError::Credential(e)),
                    Ok(p) => Ok(p),
                }
            } else {
                admin_lookup(ctx, raw.skip(1), key_id)
            },
        }
    }
}

impl Clone for ValidatedNetworkConfig {
    fn clone(&self) -> (copy: Self)
        ensures
            copy@ == self@,
    {
        proof {
            use_type_invariant(self);
        }
        ValidatedNetworkConfig { inner: self.inner.clone() }
    }
}

impl ValidatedNetworkConfig {
    /// Some root key accepted the configuration at some time.
    #[verifier::type_invariant]
    spec fn well_formed(self) -> bool {
        was_accepted(self.inner@)
    }

    pub fn as_config(&self) -> (config: &NetworkConfigV1)
        ensures
            config@ == self@,
            was_accepted(self@),
    {
        proof {
            use_type_invariant(self);
        }
        &self.inner
    }

    pub fn into_config(self) -> (config: NetworkConfigV1)
        ensures
            config@ == self@,
    {
        self.inner
    }

    /// The application that a virtual name stands for now.
    pub fn resolve_virtual_name(&self, name: &VirtualName, now_ms: u64) -> (app: Option<AppAddr>)
        ensures
            app == resolve(self@.virtual_dns, name@, now_ms),
    {
        let records: &Vec<VirtualDnsRecord> = &self.inner.virtual_dns;
        let ghost all = snapshot::dns_records(records@);
        let mut i: usize = 0;
        assert(all.skip(0) =~= all);
        while i < records.len()
            invariant
                i <= records.len(),
                all == snapshot::dns_records(records@),
                all == self@.virtual_dns,
                resolve(all, name@, now_ms) == resolve(all.skip(i as int), name@, now_ms),
            decreases records.len() - i,
        {
            proof {
                assert(all.skip(i as int).skip(1) =~= all.skip(i + 1));
                assert(all.skip(i as int)[0] == records@[i as int]@);
            }
            if records[i].name == *name && records[i].expires_at_ms > now_ms {
                return Some(records[i].app_addr);
            }
            i = i + 1;
        }
        None
    }

    /// The administrator with a key identifier, checked anew.
    pub fn verified_admin(&self, root: &NetworkRootPublic, key_id: [u8; 16], now_ms: u64) -> (found:
        Result<VerifiedAdmin, SnapshotError>)
        ensures
            match admin_lookup(
                context(self@, root@, self@.network_id, now_ms),
                self@.admin_keys,
                key_id,
            ) {
                Ok(p) => found matches Ok(one) && one@ == p,
                Err(reason) => found matches Err(error) && error == reason,
            },
    {
        let (revoked, _) = revocations(&self.inner.revoked_serials);
        let keys: &Vec<AdminKey> = &self.inner.admin_keys;
        let ghost all = snapshot::certificates(keys@);
        let ghost ctx = context(self@, root@, self@.network_id, now_ms);
        let mut i: usize = 0;
        assert(all.skip(0) =~= all);
        while i < keys.len()
            invariant
                i <= keys.len(),
                all == snapshot::certificates(keys@),
                ctx == context(self@, root@, self@.network_id, now_ms),
                revoked@ == ctx.revoked,
                self.inner.network_id == ctx.network,
                admin_lookup(ctx, self@.admin_keys, key_id) == admin_lookup(
                    ctx,
                    all.skip(i as int),
                    key_id,
                ),
            decreases keys.len() - i,
        {
            proof {
                assert(all.skip(i as int).skip(1) =~= all.skip(i + 1));
                assert(all.skip(i as int)[0] == keys@[i as int].certificate@);
            }
            let certificate: AdminCertificate = match AdminCertificate::from_bytes(
                keys[i].certificate.as_slice(),
            ) {
                Ok(certificate) => certificate,
                Err(error) => return Err(SnapshotError::Credential(error)),
            };
            if arrays_equal(&certificate.payload().key_id, &key_id) {
                return match certificate.verify(root, self.inner.network_id, now_ms, &revoked) {
                    Ok(one) => Ok(one),
                    Err(error) => Err(SnapshotError::Credential(error)),
                };
            }
            i = i + 1;
        }
        Err(SnapshotError::UnknownAdmin)
    }
}

/// Whether each accepted item adds one entry to what the earlier ones gave.
pub open spec fn pushes<A, T>(step: spec_fn(Seq<A>, T) -> Result<Seq<A>, SnapshotError>) -> bool {
    forall|a: Seq<A>, x: T| #[trigger]
        step(a, x) is Ok ==> step(a, x)->Ok_0.len() == a.len() + 1 && step(a, x)->Ok_0.take(
            a.len() as int,
        ) =~= a
}

/// Where a whole list is accepted, each item was, in the light of the entries before it.
pub(crate) proof fn lemma_accepted_each<A, T>(
    step: spec_fn(Seq<A>, T) -> Result<Seq<A>, SnapshotError>,
    s: Seq<T>,
)
    requires
        pushes(step),
        fold(step, Seq::empty(), s) is Ok,
    ensures
        ({
            let all = fold(step, Seq::empty(), s)->Ok_0;
            &&& all.len() == s.len()
            &&& forall|i: int|
                0 <= i < s.len() ==> step(all.take(i), #[trigger] s[i]) == Ok::<
                    Seq<A>,
                    SnapshotError,
                >(all.take(i + 1))
        }),
    decreases s.len(),
{
    let all = fold(step, Seq::empty(), s)->Ok_0;
    if s.len() > 0 {
        let front = s.drop_last();
        let before = fold(step, Seq::empty(), front)->Ok_0;
        lemma_accepted_each(step, front);
        assert(step(before, s.last()) == Ok::<Seq<A>, SnapshotError>(all));
        assert(all.take(all.len() as int) =~= all);
        assert forall|i: int| 0 <= i < s.len() implies step(all.take(i), #[trigger] s[i]) == Ok::<
            Seq<A>,
            SnapshotError,
        >(all.take(i + 1)) by {
            if i < front.len() {
                assert(front[i] == s[i]);
                assert(before.take(i) =~= all.take(i)) by {
                    assert(before == all.take(before.len() as int));
                }
                assert(before.take(i + 1) =~= all.take(i + 1)) by {
                    assert(before == all.take(before.len() as int));
                }
            }
        }
    }
}

/// An identifier that a search does not find belongs to no entry.
pub(crate) proof fn lemma_admin_absent(s: Seq<AdminCertificatePayload>, key_id: [u8; 16])
    ensures
        admin_with(s, key_id) is None <==> forall|i: int|
            0 <= i < s.len() ==> (#[trigger] s[i]).key_id != key_id,
        admin_with(s, key_id) matches Some(p) ==> p.key_id == key_id && s.contains(p),
    decreases s.len(),
{
    if s.len() > 0 {
        lemma_admin_absent(s.drop_last(), key_id);
        assert(s == s.drop_last().push(s.last()));
        if s.last().key_id == key_id {
            assert(s[s.len() - 1].key_id == key_id);
            assert(s.contains(s[s.len() - 1]));
        } else {
            if admin_with(s.drop_last(), key_id) is None {
                assert forall|i: int| 0 <= i < s.len() implies (#[trigger] s[i]).key_id != key_id by {
                    if i < s.len() - 1 {
                        assert(s.drop_last()[i] == s[i]);
                    }
                }
            } else {
                let p = admin_with(s.drop_last(), key_id)->Some_0;
                let i = choose|i: int| 0 <= i < s.drop_last().len() && s.drop_last()[i] == p;
                assert(s[i] == p);
            }
        }
    }
}

/// An identity that a search does not find belongs to no entry.
pub(crate) proof fn lemma_member_absent(s: Seq<MemberCertificatePayload>, id: MemberId)
    ensures
        member_with(s, id) is None <==> forall|i: int|
            0 <= i < s.len() ==> (#[trigger] s[i]).member_id != id,
        member_with(s, id) matches Some(p) ==> p.member_id == id && s.contains(p),
    decreases s.len(),
{
    if s.len() > 0 {
        lemma_member_absent(s.drop_last(), id);
        if s.last().member_id == id {
            assert(s[s.len() - 1].member_id == id);
            assert(s.contains(s[s.len() - 1]));
        } else {
            if member_with(s.drop_last(), id) is None {
                assert forall|i: int| 0 <= i < s.len() implies (#[trigger] s[i]).member_id != id by {
                    if i < s.len() - 1 {
                        assert(s.drop_last()[i] == s[i]);
                    }
                }
            } else {
                let p = member_with(s.drop_last(), id)->Some_0;
                let i = choose|i: int| 0 <= i < s.drop_last().len() && s.drop_last()[i] == p;
                assert(s[i] == p);
            }
        }
    }
}

/// An accepted configuration belongs to the network that its root key names, is accepted only
/// within its window, keeps to every bound, and revokes no serial twice.
pub proof fn law_accepted_config_is_in_force(
    c: Config,
    root: Seq<u8>,
    network: NetworkId,
    now_ms: u64,
)
    requires
        config_verdict(c, root, network, now_ms) is Ok,
    ensures
        c.network_id == network && keys::network_id_of(root) == network,
        c.issued_at_ms <= now_ms < c.expires_at_ms,
        snapshot::shape_verdict(c) == Ok::<(), SnapshotError>(()),
        c.revoked_serials.no_duplicates(),
        c.members.len() <= c.policies.max_members,
{
    let ctx = context(c, root, network, now_ms);
    let admins = admins_of(ctx, c)->Ok_0;
    assert(pushes(member_step(ctx, admins)));
    lemma_accepted_each(member_step(ctx, admins), c.members);
}

/// Every administrator of an accepted configuration is one that the root key certified, whose
/// certificate is in force and not revoked; no key is listed twice.
pub proof fn law_accepted_admins_are_certified(
    c: Config,
    root: Seq<u8>,
    network: NetworkId,
    now_ms: u64,
)
    requires
        config_verdict(c, root, network, now_ms) is Ok,
    ensures
        ({
            let ctx = context(c, root, network, now_ms);
            &&& admins_of(ctx, c) matches Ok(admins) && {
                &&& admins.len() == c.admin_keys.len()
                &&& forall|i: int|
                    0 <= i < admins.len() ==> (admin::read_signed_admin(
                        #[trigger] c.admin_keys[i],
                    ) matches Some(cert) && admin::admin_verdict(
                        cert,
                        root,
                        network,
                        now_ms,
                        ctx.revoked,
                    ) == Ok::<AdminCertificatePayload, CertificateError>(admins[i]))
                &&& forall|i: int, j: int|
                    0 <= i < j < admins.len() ==> (#[trigger] admins[i]).key_id != (
                    #[trigger] admins[j]).key_id
            }
        }),
{
    let ctx = context(c, root, network, now_ms);
    let admins = admins_of(ctx, c)->Ok_0;
    let step = admin_step(ctx);
    assert(pushes(step));
    lemma_accepted_each(step, c.admin_keys);
    assert forall|i: int| 0 <= i < admins.len() implies (admin::read_signed_admin(
        #[trigger] c.admin_keys[i],
    ) matches Some(cert) && admin::admin_verdict(cert, root, network, now_ms, ctx.revoked) == Ok::<
        AdminCertificatePayload,
        CertificateError,
    >(admins[i])) by {
        assert(step(admins.take(i), c.admin_keys[i]) is Ok);
        assert(admins.take(i + 1)[i] == admins[i]);
    }
    assert forall|i: int, j: int| 0 <= i < j < admins.len() implies (#[trigger] admins[i]).key_id
        != (#[trigger] admins[j]).key_id by {
        assert(step(admins.take(j), c.admin_keys[j]) is Ok);
        assert(admins.take(j + 1)[j] == admins[j]);
        lemma_admin_absent(admins.take(j), admins[j].key_id);
        assert(admins.take(j)[i] == admins[i]);
    }
}

/// Every member of an accepted configuration was vouched for by the root key or by an accepted
/// administrator; no member is listed twice.
pub proof fn law_accepted_members_are_vouched_for(
    c: Config,
    root: Seq<u8>,
    network: NetworkId,
    now_ms: u64,
)
    requires
        config_verdict(c, root, network, now_ms) is Ok,
    ensures
        ({
            let ctx = context(c, root, network, now_ms);
            let admins = admins_of(ctx, c)->Ok_0;
            &&& members_of(ctx, admins, c) matches Ok(members) && {
                &&& members.len() == c.members.len()
                &&& forall|i: int|
                    0 <= i < members.len() ==> (member::read_signed_member(
                        #[trigger] c.members[i],
                    ) matches Some(cert) && member_check(ctx, admins, cert) == Ok::<
                        MemberCertificatePayload,
                        SnapshotError,
                    >(members[i]))
                &&& forall|i: int, j: int|
                    0 <= i < j < members.len() ==> (#[trigger] members[i]).member_id != (
                    #[trigger] members[j]).member_id
            }
        }),
{
    let ctx = context(c, root, network, now_ms);
    let admins = admins_of(ctx, c)->Ok_0;
    let members = members_of(ctx, admins, c)->Ok_0;
    let step = member_step(ctx, admins);
    assert(pushes(step));
    lemma_accepted_each(step, c.members);
    assert forall|i: int| 0 <= i < members.len() implies (member::read_signed_member(
        #[trigger] c.members[i],
    ) matches Some(cert) && member_check(ctx, admins, cert) == Ok::<
        MemberCertificatePayload,
        SnapshotError,
    >(members[i])) by {
        assert(step(members.take(i), c.members[i]) is Ok);
        assert(members.take(i + 1)[i] == members[i]);
    }
    assert forall|i: int, j: int| 0 <= i < j < members.len() implies (#[trigger] members[i]).member_id
        != (#[trigger] members[j]).member_id by {
        assert(step(members.take(j), c.members[j]) is Ok);
        assert(members.take(j + 1)[j] == members[j]);
        lemma_member_absent(members.take(j), members[j].member_id);
        assert(members.take(j)[i] == members[i]);
    }
}

/// An address that a search does not find belongs to no entry.
pub(crate) proof fn lemma_app_absent(s: Seq<AppRegistrationPayload>, addr: AppAddr)
    ensures
        app_with(s, addr) is None <==> forall|i: int|
            0 <= i < s.len() ==> (#[trigger] s[i]).app_addr != addr,
    decreases s.len(),
{
    if s.len() > 0 {
        lemma_app_absent(s.drop_last(), addr);
        if s.last().app_addr == addr {
            assert(s[s.len() - 1].app_addr == addr);
        } else if app_with(s.drop_last(), addr) is None {
            assert forall|i: int| 0 <= i < s.len() implies (#[trigger] s[i]).app_addr != addr by {
                if i < s.len() - 1 {
                    assert(s.drop_last()[i] == s[i]);
                }
            }
        } else {
            let i = choose|i: int|
                0 <= i < s.drop_last().len() && (#[trigger] s.drop_last()[i]).app_addr == addr;
            assert(s[i].app_addr == addr);
        }
    }
}

/// Every application of an accepted configuration was vouched for by the root key or by an
/// accepted administrator; no application is listed twice.
pub proof fn law_accepted_apps_are_vouched_for(
    c: Config,
    root: Seq<u8>,
    network: NetworkId,
    now_ms: u64,
)
    requires
        config_verdict(c, root, network, now_ms) is Ok,
    ensures
        ({
            let ctx = context(c, root, network, now_ms);
            let admins = admins_of(ctx, c)->Ok_0;
            &&& apps_of(ctx, admins, c) matches Ok(apps) && {
                &&& apps.len() == c.apps.len()
                &&& forall|i: int|
                    0 <= i < apps.len() ==> (app::read_signed_app_registration(
                        #[trigger] c.apps[i],
                    ) matches Some(cert) && app_check(ctx, admins, cert) == Ok::<
                        AppRegistrationPayload,
                        SnapshotError,
                    >(apps[i]))
                &&& forall|i: int, j: int|
                    0 <= i < j < apps.len() ==> (#[trigger] apps[i]).app_addr != (
                    #[trigger] apps[j]).app_addr
            }
        }),
{
    let ctx = context(c, root, network, now_ms);
    let admins = admins_of(ctx, c)->Ok_0;
    let apps = apps_of(ctx, admins, c)->Ok_0;
    let step = app_step(ctx, admins);
    assert(pushes(step));
    lemma_accepted_each(step, c.apps);
    assert forall|i: int| 0 <= i < apps.len() implies (app::read_signed_app_registration(
        #[trigger] c.apps[i],
    ) matches Some(cert) && app_check(ctx, admins, cert) == Ok::<
        AppRegistrationPayload,
        SnapshotError,
    >(apps[i])) by {
        assert(step(apps.take(i), c.apps[i]) is Ok);
        assert(apps.take(i + 1)[i] == apps[i]);
    }
    assert forall|i: int, j: int| 0 <= i < j < apps.len() implies (#[trigger] apps[i]).app_addr != (
    #[trigger] apps[j]).app_addr by {
        assert(step(apps.take(j), c.apps[j]) is Ok);
        assert(apps.take(j + 1)[j] == apps[j]);
        lemma_app_absent(apps.take(j), apps[j].app_addr);
        assert(apps.take(j)[i] == apps[i]);
    }
}

/// A list that is accepted is judged by another step, which agrees on each item or refuses it for
/// one reason.
proof fn lemma_fold_refused<A, T>(
    step: spec_fn(Seq<A>, T) -> Result<Seq<A>, SnapshotError>,
    other: spec_fn(Seq<A>, T) -> Result<Seq<A>, SnapshotError>,
    s: Seq<T>,
    reason: SnapshotError,
    n: int,
)
    requires
        0 <= n <= s.len(),
        pushes(step),
        fold(step, Seq::empty(), s) is Ok,
        ({
            let all = fold(step, Seq::empty(), s)->Ok_0;
            forall|i: int|
                0 <= i < s.len() ==> other(all.take(i), #[trigger] s[i]) == Err::<
                    Seq<A>,
                    SnapshotError,
                >(reason) || other(all.take(i), s[i]) == step(all.take(i), s[i])
        }),
    ensures
        ({
            let all = fold(step, Seq::empty(), s)->Ok_0;
            let end = fold(other, Seq::empty(), s.take(n));
            &&& end == Ok::<Seq<A>, SnapshotError>(all.take(n)) || end == Err::<
                Seq<A>,
                SnapshotError,
            >(reason)
            &&& (exists|i: int|
                0 <= i < n && other(all.take(i), #[trigger] s[i]) == Err::<Seq<A>, SnapshotError>(
                    reason,
                )) ==> end is Err
        }),
    decreases n,
{
    let all = fold(step, Seq::empty(), s)->Ok_0;
    lemma_accepted_each(step, s);
    if n == 0 {
        assert(all.take(0) =~= Seq::empty());
    } else {
        lemma_fold_refused(step, other, s, reason, n - 1);
        lemma_fold_step(other, Seq::empty(), s, n - 1);
        assert(step(all.take(n - 1), s[n - 1]) == Ok::<Seq<A>, SnapshotError>(all.take(n)));
    }
}

/// A configuration with one more revoked serial.
pub open spec fn revoking(c: Config, serial: u64) -> Config {
    Config { revoked_serials: c.revoked_serials.push(serial), ..c }
}

/// Revoking the serial of a listed administrator or member turns acceptance into refusal, where
/// there is room for one more revoked serial.
pub proof fn law_revoked_credential_is_refused(
    c: Config,
    root: Seq<u8>,
    network: NetworkId,
    now_ms: u64,
    serial: u64,
)
    requires
        config_verdict(c, root, network, now_ms) is Ok,
        c.revoked_serials.len() < snapshot::MAX_REVOKED_SERIALS,
        ({
            let ctx = context(c, root, network, now_ms);
            let admins = admins_of(ctx, c)->Ok_0;
            let members = members_of(ctx, admins, c)->Ok_0;
            ||| exists|i: int| 0 <= i < admins.len() && (#[trigger] admins[i]).serial == serial
            ||| exists|i: int| 0 <= i < members.len() && (#[trigger] members[i]).serial == serial
        }),
    ensures
        config_verdict(revoking(c, serial), root, network, now_ms) == Err::<(), SnapshotError>(
            SnapshotError::Credential(CertificateError::Revoked),
        ),
{
    let reason = SnapshotError::Credential(CertificateError::Revoked);
    let after = revoking(c, serial);
    let ctx = context(c, root, network, now_ms);
    let then = context(after, root, network, now_ms);
    let admins = admins_of(ctx, c)->Ok_0;
    let members = members_of(ctx, admins, c)->Ok_0;
    assert forall|x: u64| #[trigger] then.revoked.contains(x) <==> ctx.revoked.contains(x) || x
        == serial by {
        vstd::seq_lib::lemma_seq_contains_after_push(c.revoked_serials, serial, x);
    }
    law_accepted_admins_are_certified(c, root, network, now_ms);
    law_accepted_members_are_vouched_for(c, root, network, now_ms);
    let admin_one = admin_step(ctx);
    let admin_two = admin_step(then);
    assert(pushes(admin_one));
    lemma_accepted_each(admin_one, c.admin_keys);
    assert forall|i: int| 0 <= i < c.admin_keys.len() implies admin_two(
        admins.take(i),
        #[trigger] c.admin_keys[i],
    ) == (if admins[i].serial == serial {
        Err::<Seq<AdminCertificatePayload>, SnapshotError>(reason)
    } else {
        admin_one(admins.take(i), c.admin_keys[i])
    }) by {
        assert(admin_one(admins.take(i), c.admin_keys[i]) is Ok);
        assert(then.revoked.contains(admins[i].serial) <==> admins[i].serial == serial);
    }
    lemma_fold_refused(admin_one, admin_two, c.admin_keys, reason, c.admin_keys.len() as int);
    assert(c.admin_keys.take(c.admin_keys.len() as int) =~= c.admin_keys);
    assert(admins.take(admins.len() as int) =~= admins);
    let member_one = member_step(ctx, admins);
    let member_two = member_step(then, admins);
    assert(pushes(member_one));
    lemma_accepted_each(member_one, c.members);
    assert forall|i: int| 0 <= i < c.members.len() implies member_two(
        members.take(i),
        #[trigger] c.members[i],
    ) == (if members[i].serial == serial {
        Err::<Seq<MemberCertificatePayload>, SnapshotError>(reason)
    } else {
        member_one(members.take(i), c.members[i])
    }) by {
        assert(member_one(members.take(i), c.members[i]) is Ok);
        assert(then.revoked.contains(members[i].serial) <==> members[i].serial == serial);
    }
    lemma_fold_refused(member_one, member_two, c.members, reason, c.members.len() as int);
    assert(c.members.take(c.members.len() as int) =~= c.members);
    assert(!c.revoked_serials.contains(serial)) by {
        if exists|i: int| 0 <= i < admins.len() && (#[trigger] admins[i]).serial == serial {
            let i = choose|i: int| 0 <= i < admins.len() && (#[trigger] admins[i]).serial == serial;
            assert(admin::read_signed_admin(c.admin_keys[i]) is Some);
            assert(!ctx.revoked.contains(serial));
        } else {
            let i = choose|i: int|
                0 <= i < members.len() && (#[trigger] members[i]).serial == serial;
            assert(member::read_signed_member(c.members[i]) is Some);
            assert(!ctx.revoked.contains(serial));
        }
        if c.revoked_serials.contains(serial) {
            assert(ctx.revoked.contains(serial));
        }
    }
    assert(after.revoked_serials.no_duplicates()) by {
        assert forall|i: int, j: int|
            0 <= i < after.revoked_serials.len() && 0 <= j < after.revoked_serials.len() && i
                != j implies after.revoked_serials[i] != after.revoked_serials[j] by {
            if i == c.revoked_serials.len() {
                assert(after.revoked_serials[j] == c.revoked_serials[j]);
            } else if j == c.revoked_serials.len() {
                assert(after.revoked_serials[i] == c.revoked_serials[i]);
            }
        }
    }
    assert(snapshot::shape_verdict(after) is Ok);
    if exists|i: int| 0 <= i < admins.len() && (#[trigger] admins[i]).serial == serial {
        let i = choose|i: int| 0 <= i < admins.len() && (#[trigger] admins[i]).serial == serial;
        assert(admin_two(admins.take(i), c.admin_keys[i]) is Err);
    } else {
        let i = choose|i: int| 0 <= i < members.len() && (#[trigger] members[i]).serial == serial;
        assert(member_two(members.take(i), c.members[i]) is Err);
    }
}

/// A configuration that is accepted under one root key and for one network is refused as another
/// network's for every other network, and under every root key that names another network.
pub proof fn law_config_belongs_to_one_network(
    c: Config,
    root: Seq<u8>,
    network: NetworkId,
    now_ms: u64,
    other_root: Seq<u8>,
    other_network: NetworkId,
    at_ms: u64,
)
    requires
        config_verdict(c, root, network, now_ms) is Ok,
        other_network != network || keys::network_id_of(other_root) != network,
    ensures
        config_verdict(c, other_root, other_network, at_ms) == Err::<(), SnapshotError>(
            SnapshotError::WrongNetwork,
        ),
{
}

/// Every endpoint binding of an accepted configuration is one that a listed member signed for
/// this network and that has not expired; no endpoint is listed twice.
pub proof fn law_accepted_endpoints_belong_to_members(
    c: Config,
    root: Seq<u8>,
    network: NetworkId,
    now_ms: u64,
)
    requires
        config_verdict(c, root, network, now_ms) is Ok,
    ensures
        ({
            let ctx = context(c, root, network, now_ms);
            let members = members_of(ctx, admins_of(ctx, c)->Ok_0, c)->Ok_0;
            &&& forall|i: int|
                0 <= i < c.endpoint_bindings.len() ==> (endpoint::read_signed_endpoint(
                    #[trigger] c.endpoint_bindings[i],
                ) matches Some(b) && member_with(members, b.payload.member_id) matches Some(m)
                    && members.contains(m) && endpoint::endpoint_verdict(
                    b,
                    m,
                    network,
                    b.payload.endpoint_id,
                    now_ms,
                ) == Ok::<(), CertificateError>(()))
            &&& forall|i: int, j: int|
                0 <= i < j < c.endpoint_bindings.len() ==> endpoint::read_signed_endpoint(
                    #[trigger] c.endpoint_bindings[i],
                )->Some_0.payload.endpoint_id != endpoint::read_signed_endpoint(
                    #[trigger] c.endpoint_bindings[j],
                )->Some_0.payload.endpoint_id
        }),
{
    let ctx = context(c, root, network, now_ms);
    let members = members_of(ctx, admins_of(ctx, c)->Ok_0, c)->Ok_0;
    let step = endpoint_step(ctx, members);
    let s = c.endpoint_bindings;
    assert(pushes(step));
    lemma_accepted_each(step, s);
    let all = fold(step, Seq::empty(), s)->Ok_0;
    assert forall|i: int| 0 <= i < s.len() implies all[i] == endpoint::read_signed_endpoint(
        #[trigger] s[i],
    )->Some_0.payload.endpoint_id by {
        assert(step(all.take(i), s[i]) is Ok);
        assert(all.take(i + 1)[i] == all[i]);
    }
    assert forall|i: int| 0 <= i < s.len() implies (endpoint::read_signed_endpoint(
        #[trigger] s[i],
    ) matches Some(b) && member_with(members, b.payload.member_id) matches Some(m)
        && members.contains(m) && endpoint::endpoint_verdict(
        b,
        m,
        network,
        b.payload.endpoint_id,
        now_ms,
    ) == Ok::<(), CertificateError>(())) by {
        assert(step(all.take(i), s[i]) is Ok);
        lemma_member_absent(
            members,
            endpoint::read_signed_endpoint(s[i])->Some_0.payload.member_id,
        );
    }
    assert forall|i: int, j: int| 0 <= i < j < s.len() implies endpoint::read_signed_endpoint(
        #[trigger] s[i],
    )->Some_0.payload.endpoint_id != endpoint::read_signed_endpoint(
        #[trigger] s[j],
    )->Some_0.payload.endpoint_id by {
        assert(step(all.take(j), s[j]) is Ok);
        assert(all.take(j)[i] == all[i]);
        assert(all.take(j).contains(all[i]));
    }
}

/// Every binding of an accepted configuration joins a listed application and a listed member,
/// holds for them, and names no more services than the policy allows; no member has the same
/// side of an application twice.
pub proof fn law_accepted_bindings_join_known_parties(
    c: Config,
    root: Seq<u8>,
    network: NetworkId,
    now_ms: u64,
)
    requires
        config_verdict(c, root, network, now_ms) is Ok,
    ensures
        ({
            let ctx = context(c, root, network, now_ms);
            let admins = admins_of(ctx, c)->Ok_0;
            let members = members_of(ctx, admins, c)->Ok_0;
            let apps = apps_of(ctx, admins, c)->Ok_0;
            &&& forall|i: int|
                0 <= i < c.app_bindings.len() ==> (app::read_signed_binding(
                    #[trigger] c.app_bindings[i],
                ) matches Ok(b) && app_with(apps, b.payload.app_addr) matches Some(a)
                    && member_with(members, b.payload.subject) matches Some(m)
                    && b.payload.services.len() <= c.policies.max_services_per_binding
                    && app::binding_verdict(b, a, m, network, now_ms) == Ok::<(), CertificateError>(()))
            &&& forall|i: int, j: int|
                0 <= i < j < c.app_bindings.len() ==> {
                    let a = app::read_signed_binding(#[trigger] c.app_bindings[i])->Ok_0.payload;
                    let b = app::read_signed_binding(#[trigger] c.app_bindings[j])->Ok_0.payload;
                    (a.app_addr, a.subject, a.role) != (b.app_addr, b.subject, b.role)
                }
        }),
{
    let ctx = context(c, root, network, now_ms);
    let admins = admins_of(ctx, c)->Ok_0;
    let members = members_of(ctx, admins, c)->Ok_0;
    let apps = apps_of(ctx, admins, c)->Ok_0;
    let step = binding_step(ctx, c.policies, apps, members);
    let s = c.app_bindings;
    assert(pushes(step));
    lemma_accepted_each(step, s);
    let all = fold(step, Seq::empty(), s)->Ok_0;
    assert forall|i: int| 0 <= i < s.len() implies all[i] == ({
        let b = app::read_signed_binding(#[trigger] s[i])->Ok_0.payload;
        (b.app_addr, b.subject, b.role)
    }) by {
        assert(step(all.take(i), s[i]) is Ok);
        assert(all.take(i + 1)[i] == all[i]);
    }
    assert forall|i: int| 0 <= i < s.len() implies (app::read_signed_binding(
        #[trigger] s[i],
    ) matches Ok(b) && app_with(apps, b.payload.app_addr) matches Some(a) && member_with(
        members,
        b.payload.subject,
    ) matches Some(m) && b.payload.services.len() <= c.policies.max_services_per_binding
        && app::binding_verdict(b, a, m, network, now_ms) == Ok::<(), CertificateError>(())) by {
        assert(step(all.take(i), s[i]) is Ok);
    }
    assert forall|i: int, j: int| 0 <= i < j < s.len() implies ({
        let a = app::read_signed_binding(#[trigger] s[i])->Ok_0.payload;
        let b = app::read_signed_binding(#[trigger] s[j])->Ok_0.payload;
        (a.app_addr, a.subject, a.role) != (b.app_addr, b.subject, b.role)
    }) by {
        assert(step(all.take(j), s[j]) is Ok);
        assert(all.take(j)[i] == all[i]);
        assert(all.take(j).contains(all[i]));
    }
}

/// Every relay and every presence service of an accepted configuration has a writable address and
/// has not expired; no endpoint is listed twice among either.
pub proof fn law_accepted_descriptors_are_current(
    c: Config,
    root: Seq<u8>,
    network: NetworkId,
    now_ms: u64,
)
    requires
        config_verdict(c, root, network, now_ms) is Ok,
    ensures
        forall|i: int|
            0 <= i < c.relays.len() ==> snapshot::url_ok((#[trigger] c.relays[i]).url) && now_ms
                < c.relays[i].expires_at_ms,
        forall|i: int, j: int|
            0 <= i < j < c.relays.len() ==> (#[trigger] c.relays[i]).endpoint_id != (
            #[trigger] c.relays[j]).endpoint_id,
        forall|i: int|
            0 <= i < c.presence_services.len() ==> snapshot::url_ok(
                (#[trigger] c.presence_services[i]).url,
            ) && now_ms < c.presence_services[i].expires_at_ms,
        forall|i: int, j: int|
            0 <= i < j < c.presence_services.len() ==> (
            #[trigger] c.presence_services[i]).endpoint_id != (
            #[trigger] c.presence_services[j]).endpoint_id,
{
    let step = relay_step(now_ms);
    assert(pushes(step));
    lemma_accepted_each(step, c.relays);
    let all = fold(step, Seq::empty(), c.relays)->Ok_0;
    assert forall|i: int| 0 <= i < c.relays.len() implies all[i] == (
    #[trigger] c.relays[i]).endpoint_id && snapshot::url_ok(c.relays[i].url) && now_ms
        < c.relays[i].expires_at_ms by {
        assert(step(all.take(i), c.relays[i]) is Ok);
        assert(all.take(i + 1)[i] == all[i]);
    }
    assert forall|i: int, j: int| 0 <= i < j < c.relays.len() implies (
    #[trigger] c.relays[i]).endpoint_id != (#[trigger] c.relays[j]).endpoint_id by {
        assert(step(all.take(j), c.relays[j]) is Ok);
        assert(all.take(j)[i] == all[i]);
        assert(all.take(j).contains(all[i]));
    }
    let other = service_step(now_ms);
    assert(pushes(other));
    lemma_accepted_each(other, c.presence_services);
    let seen = fold(other, Seq::empty(), c.presence_services)->Ok_0;
    assert forall|i: int| 0 <= i < c.presence_services.len() implies seen[i] == (
    #[trigger] c.presence_services[i]).endpoint_id && snapshot::url_ok(c.presence_services[i].url)
        && now_ms < c.presence_services[i].expires_at_ms by {
        assert(other(seen.take(i), c.presence_services[i]) is Ok);
        assert(seen.take(i + 1)[i] == seen[i]);
    }
    assert forall|i: int, j: int| 0 <= i < j < c.presence_services.len() implies (
    #[trigger] c.presence_services[i]).endpoint_id != (#[trigger] c.presence_services[j]).endpoint_id by {
        assert(other(seen.take(j), c.presence_services[j]) is Ok);
        assert(seen.take(j)[i] == seen[i]);
        assert(seen.take(j).contains(seen[i]));
    }
}

/// Every name of an accepted configuration is listed once, stands for a listed application and
/// expires within the configuration's window.
pub proof fn law_accepted_names_are_unique(
    c: Config,
    root: Seq<u8>,
    network: NetworkId,
    now_ms: u64,
)
    requires
        config_verdict(c, root, network, now_ms) is Ok,
    ensures
        ({
            let ctx = context(c, root, network, now_ms);
            let apps = apps_of(ctx, admins_of(ctx, c)->Ok_0, c)->Ok_0;
            &&& forall|i: int|
                0 <= i < c.virtual_dns.len() ==> app_with(
                    apps,
                    (#[trigger] c.virtual_dns[i]).app_addr,
                ) is Some && c.issued_at_ms < c.virtual_dns[i].expires_at_ms <= c.expires_at_ms
            &&& forall|i: int, j: int|
                0 <= i < j < c.virtual_dns.len() ==> (#[trigger] c.virtual_dns[i]).name != (
                #[trigger] c.virtual_dns[j]).name
        }),
{
    let ctx = context(c, root, network, now_ms);
    let apps = apps_of(ctx, admins_of(ctx, c)->Ok_0, c)->Ok_0;
    let step = name_step(apps, c.issued_at_ms, c.expires_at_ms);
    let s = c.virtual_dns;
    assert(pushes(step));
    lemma_accepted_each(step, s);
    let all = fold(step, Seq::empty(), s)->Ok_0;
    assert forall|i: int| 0 <= i < s.len() implies all[i] == (#[trigger] s[i]).name && app_with(
        apps,
        s[i].app_addr,
    ) is Some && c.issued_at_ms < s[i].expires_at_ms <= c.expires_at_ms by {
        assert(step(all.take(i), s[i]) is Ok);
        assert(all.take(i + 1)[i] == all[i]);
    }
    assert forall|i: int, j: int| 0 <= i < j < s.len() implies (#[trigger] s[i]).name != (
    #[trigger] s[j]).name by {
        assert(step(all.take(j), s[j]) is Ok);
        assert(all.take(j)[i] == all[i]);
        assert(all.take(j).contains(all[i]));
    }
}

/// A name resolves to an application exactly when a record that has not expired says so.
proof fn lemma_resolve(records: Seq<DnsRecord>, name: Seq<char>, now_ms: u64)
    ensures
        resolve(records, name, now_ms) is None <==> forall|i: int|
            0 <= i < records.len() ==> (#[trigger] records[i]).name != name
                || records[i].expires_at_ms <= now_ms,
        resolve(records, name, now_ms) matches Some(app) ==> exists|i: int|
            0 <= i < records.len() && (#[trigger] records[i]).name == name
                && records[i].expires_at_ms > now_ms && records[i].app_addr == app,
    decreases records.len(),
{
    if records.len() > 0 {
        let rest = records.skip(1);
        lemma_resolve(rest, name, now_ms);
        if records[0].name == name && records[0].expires_at_ms > now_ms {
        } else {
            assert forall|i: int| 0 < i < records.len() implies #[trigger] records[i] == rest[i - 1] by {
            }
            if resolve(rest, name, now_ms) is None {
            } else {
                let i = choose|i: int|
                    0 <= i < rest.len() && (#[trigger] rest[i]).name == name
                        && rest[i].expires_at_ms > now_ms && rest[i].app_addr == resolve(
                        rest,
                        name,
                        now_ms,
                    )->Some_0;
                assert(records[i + 1] == rest[i]);
            }
        }
    }
}

/// In an accepted configuration the order of the records does not matter: a name resolves to an
/// application exactly when a record that has not expired says so, and before the record expires
/// to no other.
pub proof fn law_name_resolves_to_its_record(
    c: Config,
    root: Seq<u8>,
    network: NetworkId,
    now_ms: u64,
    name: Seq<char>,
    at_ms: u64,
    app: AppAddr,
)
    requires
        config_verdict(c, root, network, now_ms) is Ok,
    ensures
        resolve(c.virtual_dns, name, at_ms) == Some(app) <==> exists|i: int|
            0 <= i < c.virtual_dns.len() && (#[trigger] c.virtual_dns[i]).name == name
                && c.virtual_dns[i].expires_at_ms > at_ms && c.virtual_dns[i].app_addr == app,
{
    law_accepted_names_are_unique(c, root, network, now_ms);
    lemma_resolve(c.virtual_dns, name, at_ms);
}

/// An administrator of an accepted configuration is found by the key identifier for as long as
/// the certificate stays in force.
pub proof fn law_accepted_admin_is_found(
    c: Config,
    root: Seq<u8>,
    network: NetworkId,
    now_ms: u64,
    i: int,
)
    requires
        config_verdict(c, root, network, now_ms) is Ok,
        0 <= i < c.admin_keys.len(),
    ensures
        ({
            let ctx = context(c, root, network, now_ms);
            let admins = admins_of(ctx, c)->Ok_0;
            admin_lookup(ctx, c.admin_keys, admins[i].key_id) == Ok::<
                AdminCertificatePayload,
                SnapshotError,
            >(admins[i])
        }),
{
    let ctx = context(c, root, network, now_ms);
    let admins = admins_of(ctx, c)->Ok_0;
    law_accepted_admins_are_certified(c, root, network, now_ms);
    lemma_lookup(ctx, c.admin_keys, admins, i, 0);
    assert(c.admin_keys.skip(0) =~= c.admin_keys);
}

/// The search for an administrator passes over those before it.
proof fn lemma_lookup(
    ctx: Context,
    raw: Seq<Seq<u8>>,
    admins: Seq<AdminCertificatePayload>,
    i: int,
    from: int,
)
    requires
        0 <= from <= i < raw.len() == admins.len(),
        forall|j: int|
            0 <= j < raw.len() ==> (admin::read_signed_admin(#[trigger] raw[j]) matches Some(cert)
                && admin::admin_verdict(cert, ctx.root, ctx.network, ctx.now_ms, ctx.revoked)
                == Ok::<AdminCertificatePayload, CertificateError>(admins[j])),
        forall|a: int, b: int|
            0 <= a < b < admins.len() ==> (#[trigger] admins[a]).key_id != (
            #[trigger] admins[b]).key_id,
    ensures
        admin_lookup(ctx, raw.skip(from), admins[i].key_id) == Ok::<
            AdminCertificatePayload,
            SnapshotError,
        >(admins[i]),
    decreases i - from,
{
    let rest = raw.skip(from);
    assert(rest[0] == raw[from]);
    assert(rest.skip(1) =~= raw.skip(from + 1));
    let cert = admin::read_signed_admin(raw[from])->Some_0;
    assert(cert.payload == admins[from]);
    if from < i {
        lemma_lookup(ctx, raw, admins, i, from + 1);
    }
}

/// What a search for an administrator finds has the key identifier it looked for, and belongs to
/// the network.
pub proof fn lemma_lookup_result(ctx: Context, raw: Seq<Seq<u8>>, key_id: [u8; 16])
    ensures
        admin_lookup(ctx, raw, key_id) matches Ok(p) ==> p.key_id == key_id && p.network_id
            == ctx.network,
    decreases raw.len(),
{
    if raw.len() > 0 {
        lemma_lookup_result(ctx, raw.skip(1), key_id);
    }
}

} // verus!
