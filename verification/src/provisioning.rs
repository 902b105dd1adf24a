//! Setting up nodes and applications from the command line.
use crate::config::snapshot;
use crate::config::snapshot::{Relay, RelayDescriptor};
use crate::config::validate::ValidatedNetworkConfig;
use crate::crypto::app;
use crate::crypto::app::{AppBinding, AppRole, Binding};
use crate::crypto::keys;
use crate::crypto::keys::{derive_device_id, AppRootKey, CertificateError, SigningKeypair};
use crate::crypto::member;
use crate::crypto::member::{MemberCertificate, MemberCertificatePayload, MemberRoles};
use crate::digits;
use crate::digits::read_pairs;
use crate::identifiers::{AppAddr, DeviceId, EndpointId, NetworkId, ServiceId};
use crate::net::config_state;
use crate::net::membership::secret_key_bytes;
use crate::outside;
use crate::outside::{derive_key, hex_encode, parse_relay_url};
use crate::wire;
use crate::wire::{arrays_equal, push_bytes};
use vstd::prelude::*;

verus! {

/// What the keys of stored registration requests begin with.
pub const APP_REQUEST_KEY_PREFIX: [u8; 15] = [
    97,
    112,
    112,
    47,
    114,
    101,
    113,
    117,
    101,
    115,
    116,
    47,
    118,
    49,
    47,
];

pub const MS_PER_HOUR: u64 = 3600000;

pub const MS_PER_DAY: u64 = 86400000;

/// Why something cannot be set up.
#[derive(Clone, Copy, Debug, PartialEq, Eq)]
pub enum ProvisionError {
    ExpiresHoursTooLarge,
    JoinExpiryOverflow,
    ValidDaysTooLarge,
    BindingExpiryOverflow,
    KeyLength,
    NotHexadecimal,
    CorruptAppRoot,
    WrongAppRoot,
    NotJoined,
    CorruptSigningKey,
    WrongSigningKey,
    MemberExpired,
    UnknownRelay,
    InvalidRelayUrl,
    Crypto(CertificateError),
}

impl ProvisionError {
    /// What went wrong, in words.
    pub fn message(&self) -> (text: &'static str)
        ensures
            text@ == match *self {
                ProvisionError::ExpiresHoursTooLarge => "--expires-hours is too large"@,
                ProvisionError::JoinExpiryOverflow => "join request expiry overflow"@,
                ProvisionError::ValidDaysTooLarge => "--valid-days is too large"@,
                ProvisionError::BindingExpiryOverflow => "application binding expiry overflow"@,
                ProvisionError::KeyLength => {
                    "root public key must be exactly 64 hexadecimal characters"@
                },
                ProvisionError::NotHexadecimal => "root public key is not hexadecimal"@,
                ProvisionError::CorruptAppRoot => "stored application root is corrupt"@,
                ProvisionError::WrongAppRoot => {
                    "stored application root does not derive the requested AppAddr"@
                },
                ProvisionError::NotJoined => "node has not joined this network"@,
                ProvisionError::CorruptSigningKey => "stored member signing key is corrupt"@,
                ProvisionError::WrongSigningKey => {
                    "stored signing key differs from joined member certificate"@
                },
                ProvisionError::MemberExpired => "joined member certificate is already expired"@,
                ProvisionError::UnknownRelay => {
                    "peer endpoint is not an authorized relay in the signed configuration"@
                },
                ProvisionError::InvalidRelayUrl => "signed relay URL is invalid"@,
                ProvisionError::Crypto(error) => error.text(),
            },
    {
        match self {
            ProvisionError::ExpiresHoursTooLarge => "--expires-hours is too large",
            ProvisionError::JoinExpiryOverflow => "join request expiry overflow",
            ProvisionError::ValidDaysTooLarge => "--valid-days is too large",
            ProvisionError::BindingExpiryOverflow => "application binding expiry overflow",
            ProvisionError::KeyLength => "root public key must be exactly 64 hexadecimal characters",
            ProvisionError::NotHexadecimal => "root public key is not hexadecimal",
            ProvisionError::CorruptAppRoot => "stored application root is corrupt",
            ProvisionError::WrongAppRoot => {
                "stored application root does not derive the requested AppAddr"
            },
            ProvisionError::NotJoined => "node has not joined this network",
            ProvisionError::CorruptSigningKey => "stored member signing key is corrupt",
            ProvisionError::WrongSigningKey => {
                "stored signing key differs from joined member certificate"
            },
            ProvisionError::MemberExpired => "joined member certificate is already expired",
            ProvisionError::UnknownRelay => {
                "peer endpoint is not an authorized relay in the signed configuration"
            },
            ProvisionError::InvalidRelayUrl => "signed relay URL is invalid",
            ProvisionError::Crypto(error) => error.message(),
        }
    }
}

/// A time this many units after another: `too_long` where so many units are no number of
/// milliseconds, `too_late` where the time is none.
pub open spec fn time_after(
    now_ms: u64,
    count: u64,
    unit_ms: u64,
    too_long: ProvisionError,
    too_late: ProvisionError,
) -> Result<u64, ProvisionError> {
    if count * unit_ms > u64::MAX {
        Err(too_long)
    } else if now_ms + count * unit_ms > u64::MAX {
        Err(too_late)
    } else {
        Ok((now_ms + count * unit_ms) as u64)
    }
}

fn after(
    now_ms: u64,
    count: u64,
    unit_ms: u64,
    too_long: ProvisionError,
    too_late: ProvisionError,
) -> (time: Result<u64, ProvisionError>)
    ensures
        time == time_after(now_ms, count, unit_ms, too_long, too_late),
{
    let span: u64 = match count.checked_mul(unit_ms) {
        Some(span) => span,
        None => return Err(too_long),
    };
    match now_ms.checked_add(span) {
        Some(time) => Ok(time),
        None => Err(too_late),
    }
}

/// When a request to join expires.
pub fn join_expiry(now_ms: u64, expires_hours: u64) -> (expires_at_ms: Result<u64, ProvisionError>)
    ensures
        expires_at_ms == time_after(
            now_ms,
            expires_hours,
            MS_PER_HOUR,
            ProvisionError::ExpiresHoursTooLarge,
            ProvisionError::JoinExpiryOverflow,
        ),
{
    after(
        now_ms,
        expires_hours,
        MS_PER_HOUR,
        ProvisionError::ExpiresHoursTooLarge,
        ProvisionError::JoinExpiryOverflow,
    )
}

/// When a binding expires: not after its member.
pub open spec fn binding_end(now_ms: u64, valid_days: u64, member_expires_at_ms: u64) -> Result<
    u64,
    ProvisionError,
> {
    match time_after(
        now_ms,
        valid_days,
        MS_PER_DAY,
        ProvisionError::ValidDaysTooLarge,
        ProvisionError::BindingExpiryOverflow,
    ) {
        Err(e) => Err(e),
        Ok(time) => {
            let end = if time < member_expires_at_ms {
                time
            } else {
                member_expires_at_ms
            };
            if end <= now_ms {
                Err(ProvisionError::MemberExpired)
            } else {
                Ok(end)
            }
        },
    }
}

/// When a binding expires.
pub fn binding_expiry(now_ms: u64, valid_days: u64, member_expires_at_ms: u64) -> (expires_at_ms: Result<
    u64,
    ProvisionError,
>)
    ensures
        expires_at_ms == binding_end(now_ms, valid_days, member_expires_at_ms),
{
    let time: u64 = after(
        now_ms,
        valid_days,
        MS_PER_DAY,
        ProvisionError::ValidDaysTooLarge,
        ProvisionError::BindingExpiryOverflow,
    )?;
    let end: u64 = if time < member_expires_at_ms {
        time
    } else {
        member_expires_at_ms
    };
    if end <= now_ms {
        return Err(ProvisionError::MemberExpired);
    }
    Ok(end)
}

/// A binding is valid for some time, but never longer than its member.
pub proof fn law_binding_does_not_outlive_its_member(now_ms: u64, valid_days: u64, member_expires_at_ms: u64)
    requires
        binding_end(now_ms, valid_days, member_expires_at_ms) is Ok,
    ensures
        now_ms < binding_end(now_ms, valid_days, member_expires_at_ms)->Ok_0
            <= member_expires_at_ms,
{
}

/// A role that a member can ask for.
#[derive(Clone, Copy, Debug, PartialEq, Eq, Structural)]
pub enum RequestedRole {
    Member,
    Service,
    Relay,
    Bootstrap,
}

/// The bit of a role.
pub open spec fn role_bit(role: RequestedRole) -> u32 {
    match role {
        RequestedRole::Member => 1,
        RequestedRole::Service => 2,
        RequestedRole::Relay => 4,
        RequestedRole::Bootstrap => 8,
    }
}

/// All bits of several roles.
pub open spec fn role_bits(roles: Seq<RequestedRole>) -> u32
    decreases roles.len(),
{
    if roles.len() == 0 {
        0
    } else {
        role_bits(roles.drop_last()) | role_bit(roles.last())
    }
}

/// The roles that a member asks for, together.
pub fn requested_roles(roles: &Vec<RequestedRole>) -> (all: MemberRoles)
    ensures
        all == MemberRoles(role_bits(roles@)),
{
    let mut all: MemberRoles = MemberRoles::from_bits(0);
    let mut i: usize = 0;
    while i < roles.len()
        invariant
            i <= roles.len(),
            all == MemberRoles(role_bits(roles@.take(i as int))),
        decreases roles.len() - i,
    {
        assert(roles@.take(i + 1).drop_last() =~= roles@.take(i as int));
        let one: MemberRoles = match roles[i] {
            RequestedRole::Member => MemberRoles::member(),
            RequestedRole::Service => MemberRoles::service(),
            RequestedRole::Relay => MemberRoles::relay(),
            RequestedRole::Bootstrap => MemberRoles::bootstrap(),
        };
        all = all.union(one);
        i = i + 1;
    }
    assert(roles@.take(i as int) =~= roles@);
    all
}

/// The name under which the root key of an application is kept.
pub fn app_secret_id(network_id: NetworkId, app_addr: AppAddr) -> (id: [u8; 32])
    ensures
        id@ == outside::blake3_derived(
            "weaver.member.app-root-secret-id.v1"@,
            network_id@ + app_addr@,
        ),
{
    let mut material: Vec<u8> = Vec::new();
    push_bytes(&mut material, network_id.0.as_slice());
    push_bytes(&mut material, app_addr.0.as_slice());
    assert(material@ =~= network_id@ + app_addr@);
    derive_key("weaver.member.app-root-secret-id.v1", material.as_slice())
}

/// The key under which the registration request of an application is stored.
pub fn app_request_key(app_addr: AppAddr) -> (key: Vec<u8>)
    ensures
        key@ == APP_REQUEST_KEY_PREFIX@ + app_addr@,
{
    let mut key: Vec<u8> = Vec::new();
    push_bytes(&mut key, APP_REQUEST_KEY_PREFIX.as_slice());
    push_bytes(&mut key, app_addr.0.as_slice());
    key
}

/// The key that digits spell.
pub open spec fn key_digits(text: Seq<u8>) -> Result<Seq<u8>, ProvisionError> {
    if text.len() != 64 {
        Err(ProvisionError::KeyLength)
    } else {
        match digits::pairs_bytes(text, false) {
            Some(bytes) => Ok(bytes),
            None => Err(ProvisionError::NotHexadecimal),
        }
    }
}

/// Reads a key from its digits.
pub fn decode_hex_32(value: &str) -> (key: Result<[u8; 32], ProvisionError>)
    ensures
        match key_digits(wire::utf8(value@)) {
            Ok(bytes) => key matches Ok(key) && key@ == bytes,
            Err(reason) => key matches Err(error) && error == reason,
        },
{
    let text: &[u8] = value.as_bytes();
    if text.len() != 64 {
        return Err(ProvisionError::KeyLength);
    }
    match read_pairs::<32>(text, false) {
        Some(key) => Ok(key),
        None => Err(ProvisionError::NotHexadecimal),
    }
}

/// Writes bytes as digits.
pub fn encode_hex(bytes: &[u8]) -> (text: String)
    ensures
        text@ == outside::hex_text(bytes@),
{
    hex_encode(bytes)
}

/// The digits of a key are read back as the key.
pub proof fn law_key_digits_round_trip(key: Seq<u8>)
    requires
        key.len() == 32,
    ensures
        key_digits(wire::utf8(outside::hex_text(key))) == Ok::<Seq<u8>, ProvisionError>(key),
{
    digits::lemma_pairs_of_hex(key, false);
}

/// The root key of an application as it is kept: it must be the one with the application's
/// address.
pub fn app_root_from_secret(secret: &[u8], app_addr: AppAddr) -> (root: Result<AppRootKey, ProvisionError>)
    ensures
        if secret@.len() != 32 {
            root matches Err(error) && error == ProvisionError::CorruptAppRoot
        } else if keys::app_addr_of(outside::ed25519_public(secret@)) != app_addr {
            root matches Err(error) && error == ProvisionError::WrongAppRoot
        } else {
            root matches Ok(root) && root@ == secret@
        },
{
    let bytes: [u8; 32] = match secret_key_bytes(secret) {
        Some(bytes) => bytes,
        None => return Err(ProvisionError::CorruptAppRoot),
    };
    let root: AppRootKey = AppRootKey::from_bytes(&bytes);
    if root.app_addr() != app_addr {
        return Err(ProvisionError::WrongAppRoot);
    }
    Ok(root)
}

/// The certificate of the member that this node is.
pub fn joined_member(record: &Option<Vec<u8>>) -> (member: Result<MemberCertificate, ProvisionError>)
    ensures
        match config_state::record_view(*record) {
            None => member matches Err(error) && error == ProvisionError::NotJoined,
            Some(bytes) => match member::read_signed_member(bytes) {
                Some(value) => member matches Ok(member) && member@ == value,
                None => member matches Err(error) && error == ProvisionError::Crypto(
                    CertificateError::MalformedWire,
                ),
            },
        },
{
    match record {
        None => Err(ProvisionError::NotJoined),
        Some(bytes) => match MemberCertificate::from_bytes(bytes.as_slice()) {
            Ok(member) => Ok(member),
            Err(error) => Err(ProvisionError::Crypto(error)),
        },
    }
}

/// The signing key of a member as it is kept: it must be the one that the certificate names.
pub fn member_signing_key(secret: &[u8], member: &MemberCertificatePayload) -> (key: Result<
    SigningKeypair,
    ProvisionError,
>)
    ensures
        if secret@.len() != 32 {
            key matches Err(error) && error == ProvisionError::CorruptSigningKey
        } else if outside::ed25519_public(secret@) != member.signing_public_key@ {
            key matches Err(error) && error == ProvisionError::WrongSigningKey
        } else {
            key matches Ok(key) && key@ == secret@
        },
{
    let bytes: [u8; 32] = match secret_key_bytes(secret) {
        Some(bytes) => bytes,
        None => return Err(ProvisionError::CorruptSigningKey),
    };
    let key: SigningKeypair = SigningKeypair::from_bytes(&bytes);
    let public: [u8; 32] = key.public_bytes();
    proof {
        if public@ == member.signing_public_key@ {
            wire::lemma_array_ext(public, member.signing_public_key);
        }
    }
    if !arrays_equal(&public, &member.signing_public_key) {
        return Err(ProvisionError::WrongSigningKey);
    }
    Ok(key)
}

/// The device with which a member takes part in an application in this role.
pub open spec fn device_for(network: NetworkId, app: AppAddr, signing: Seq<u8>, role: AppRole) -> Option<
    DeviceId,
> {
    match role {
        AppRole::Server => None,
        AppRole::Client => Some(
            keys::device_id_of(network, app, outside::ed25519_public(signing)),
        ),
    }
}

/// Lets a member take part in an application, for some days but not longer than it is a member.
pub fn bind_app(
    network_id: NetworkId,
    app_root: &AppRootKey,
    member: &MemberCertificatePayload,
    signing: &SigningKeypair,
    role: AppRole,
    valid_days: u64,
    now_ms: u64,
) -> (bound: Result<(AppBinding, Option<DeviceId>), ProvisionError>)
    ensures
        match binding_end(now_ms, valid_days, member.expires_at_ms) {
            Err(reason) => bound matches Err(error) && error == reason,
            Ok(expires_at_ms) => {
                let app_addr = keys::app_addr_of(outside::ed25519_public(app_root@));
                let device = device_for(network_id, app_addr, signing@, role);
                &&& bound matches Ok((binding, device_id))
                &&& device_id == device
                &&& binding@.payload == (Binding {
                    network_id,
                    app_addr,
                    subject: member.member_id,
                    role,
                    device_id: device,
                    expires_at_ms,
                    services: Seq::empty(),
                })
                &&& binding@.signature@ == outside::ed25519_signature(
                    app_root@,
                    app::binding_bytes(binding@.payload),
                )
            },
        },
{
    let expires_at_ms: u64 = binding_expiry(now_ms, valid_days, member.expires_at_ms)?;
    let device_id: Option<DeviceId> = match role {
        AppRole::Server => None,
        AppRole::Client => Some(
            derive_device_id(network_id, app_root.app_addr(), &signing.public_bytes()),
        ),
    };
    let services: Vec<ServiceId> = Vec::new();
    assert(services@ =~= Seq::<ServiceId>::empty());
    match AppBinding::issue(
        app_root,
        network_id,
        member.member_id,
        role,
        device_id,
        expires_at_ms,
        services,
    ) {
        Ok(binding) => Ok((binding, device_id)),
        Err(error) => Err(ProvisionError::Crypto(error)),
    }
}

/// The canonical URL of the relay that an endpoint runs, as a configuration names it.
pub open spec fn relay_at(relays: Seq<Relay>, endpoint: EndpointId) -> Result<
    Seq<char>,
    ProvisionError,
>
    decreases relays.len(),
{
    if relays.len() == 0 {
        Err(ProvisionError::UnknownRelay)
    } else if relays[0].endpoint_id == endpoint.0 {
        match outside::relay_url_canonical(relays[0].url) {
            Some(url) => Ok(url),
            None => Err(ProvisionError::InvalidRelayUrl),
        }
    } else {
        relay_at(relays.skip(1), endpoint)
    }
}

/// Finds the URL of the relay that an endpoint runs.
pub fn relay_of_endpoint(config: &ValidatedNetworkConfig, endpoint: EndpointId) -> (url: Result<
    String,
    ProvisionError,
>)
    ensures
        match relay_at(config@.relays, endpoint) {
            Ok(value) => url matches Ok(url) && url@ == value,
            Err(reason) => url matches Err(error) && error == reason,
        },
{
    let relays: &Vec<RelayDescriptor> = &config.as_config().relays;
    let ghost all = snapshot::relays(relays@);
    let mut i: usize = 0;
    assert(all.skip(0) =~= all);
    while i < relays.len()
        invariant
            i <= relays.len(),
            all == snapshot::relays(relays@),
            relay_at(config@.relays, endpoint) == relay_at(all.skip(i as int), endpoint),
        decreases relays.len() - i,
    {
        proof {
            assert(all.skip(i as int)[0] == relays@[i as int]@);
            assert(all.skip(i as int).skip(1) =~= all.skip(i + 1));
        }
        if arrays_equal(&relays[i].endpoint_id, &endpoint.0) {
            return match parse_relay_url(relays[i].url.as_str()) {
                Some(url) => Ok(url),
                None => Err(ProvisionError::InvalidRelayUrl),
            };
        }
        i = i + 1;
    }
    Err(ProvisionError::UnknownRelay)
}

/// A time that lies a number of units ahead is told exactly where it can be written: the time now
/// and the units. What is too long by itself is told apart from what is too late.
pub proof fn law_times_ahead(
    now_ms: u64,
    count: u64,
    unit_ms: u64,
    too_long: ProvisionError,
    too_late: ProvisionError,
)
    ensures
        time_after(now_ms, count, unit_ms, too_long, too_late) matches Ok(time) ==> time == now_ms
            + count * unit_ms,
        time_after(now_ms, count, unit_ms, too_long, too_late) is Ok <==> now_ms + count * unit_ms
            <= u64::MAX,
        count * unit_ms > u64::MAX ==> time_after(now_ms, count, unit_ms, too_long, too_late)
            == Err::<u64, ProvisionError>(too_long),
        count * unit_ms <= u64::MAX && now_ms + count * unit_ms > u64::MAX ==> time_after(
            now_ms,
            count,
            unit_ms,
            too_long,
            too_late,
        ) == Err::<u64, ProvisionError>(too_late),
{
    assert(count * unit_ms >= 0) by (nonlinear_arith)
        requires
            count >= 0,
            unit_ms >= 0,
    ;
}

/// A binding lasts as many days as it is given, but no longer than its member; where that is over
/// already there is none.
pub proof fn law_how_long_a_binding_lasts(now_ms: u64, valid_days: u64, member_expires_at_ms: u64)
    requires
        now_ms + valid_days * 86400000 <= u64::MAX,
    ensures
        ({
            let days = now_ms + valid_days * 86400000;
            let end = binding_end(now_ms, valid_days, member_expires_at_ms);
            &&& end is Ok <==> valid_days > 0 && now_ms < member_expires_at_ms
            &&& end matches Ok(end) ==> end <= days && end <= member_expires_at_ms && (end == days
                || end == member_expires_at_ms)
            &&& end is Err ==> end == Err::<u64, ProvisionError>(ProvisionError::MemberExpired)
        }),
{
}

/// What some roles come to has the bit of a role exactly where the role is among them, whatever
/// their order and however often it is; and it has no other bit.
pub proof fn law_role_bits(roles: Seq<RequestedRole>, role: RequestedRole)
    ensures
        role_bits(roles) & role_bit(role) != 0 <==> roles.contains(role),
        role_bits(roles) <= 15,
    decreases roles.len(),
{
    if roles.len() > 0 {
        let front = roles.drop_last();
        law_role_bits(front, role);
        let a = role_bits(front);
        let b = role_bit(roles.last());
        let c = role_bit(role);
        assert((a | b) & c != 0 <==> a & c != 0 || b & c != 0) by (bit_vector);
        assert(a <= 15 && (b == 1 || b == 2 || b == 4 || b == 8) ==> (a | b) <= 15) by (bit_vector);
        assert((b == 1 || b == 2 || b == 4 || b == 8) && (c == 1 || c == 2 || c == 4 || c == 8) ==> (b
            & c != 0 <==> b == c)) by (bit_vector);
        assert(roles.contains(role) <==> front.contains(role) || roles.last() == role) by {
            assert(roles =~= front.push(roles.last()));
            vstd::seq_lib::lemma_seq_contains_after_push(front, roles.last(), role);
        }
    } else {
        let c = role_bit(role);
        assert(0u32 & c == 0) by (bit_vector);
    }
}

/// The relay of an endpoint is the first that names it, whatever stands before it; its address must
/// be a URL. Where none names it, the relay is unknown.
pub proof fn law_which_relay_is_meant(relays: Seq<Relay>, endpoint: EndpointId, i: int)
    requires
        0 <= i <= relays.len(),
        forall|k: int| 0 <= k < i ==> (#[trigger] relays[k]).endpoint_id != endpoint.0,
        i < relays.len() ==> relays[i].endpoint_id == endpoint.0,
    ensures
        relay_at(relays, endpoint) == (if i == relays.len() {
            Err::<Seq<char>, ProvisionError>(ProvisionError::UnknownRelay)
        } else {
            match outside::relay_url_canonical(relays[i].url) {
                Some(url) => Ok(url),
                None => Err(ProvisionError::InvalidRelayUrl),
            }
        }),
    decreases i,
{
    if i > 0 {
        let rest = relays.skip(1);
        assert(relays[0].endpoint_id != endpoint.0);
        assert forall|k: int| 0 <= k < i - 1 implies (#[trigger] rest[k]).endpoint_id
            != endpoint.0 by {
            assert(rest[k] == relays[k + 1]);
        }
        if i < relays.len() {
            assert(rest[i - 1] == relays[i]);
        }
        law_which_relay_is_meant(rest, endpoint, i - 1);
    }
}

/// A device is named for a client and for no server.
pub proof fn law_only_clients_have_devices(
    network: NetworkId,
    app: AppAddr,
    signing: Seq<u8>,
    role: AppRole,
)
    ensures
        device_for(network, app, signing, role) is Some <==> role == AppRole::Client,
        device_for(network, app, signing, role) matches Some(device) ==> device
            == keys::device_id_of(network, app, outside::ed25519_public(signing)),
{
}

} // verus!
