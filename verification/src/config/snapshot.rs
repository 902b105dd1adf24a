//! The contents of a network configuration and its wire format.
use crate::crypto::keys::CertificateError;
use crate::identifiers::{AppAddr, NetworkId};
use crate::outside::{random_array, utf8_text};
use crate::virtual_name;
use crate::virtual_name::VirtualName;
use crate::wire;
use crate::wire::{copy_range, push_be, push_bytes, read_array, read_u16, read_u32, read_u64, Cursor};
use crate::text::joined;
use vstd::prelude::*;

verus! {

/// The first bytes of a snapshot without virtual names.
pub const SNAPSHOT_MAGIC_V1: [u8; 8] = [87, 86, 82, 83, 78, 80, 0, 1];

/// The first bytes of a snapshot with virtual names.
pub const SNAPSHOT_MAGIC_V2: [u8; 8] = [87, 86, 82, 83, 78, 80, 0, 2];

pub const MAX_MEMBERS: usize = 256;

pub const MAX_APPS: usize = 256;

pub const MAX_BINDINGS: usize = 1024;

pub const MAX_VIRTUAL_DNS_RECORDS: usize = 1024;

pub const MAX_RELAYS: usize = 64;

pub const MAX_PRESENCE_SERVICES: usize = 64;

pub const MAX_ADMIN_KEYS: usize = 16;

pub const MAX_REVOKED_SERIALS: usize = 4096;

pub const MAX_CREDENTIAL_BYTES: usize = 16384;

pub const MAX_URL_BYTES: usize = 2048;

/// The most services that a policy may allow per binding.
pub const MAX_POLICY_SERVICES: u16 = 64;

/// The length of the fixed fields that follow the magic.
pub const SNAPSHOT_HEAD_LEN: usize = 96;

/// The length of the fixed fields at the end: four secrets and the policy.
pub const SNAPSHOT_TAIL_LEN: usize = 136;

/// Why a configuration was refused.
#[derive(Clone, Copy, Debug, PartialEq, Eq)]
pub enum SnapshotError {
    RandomnessUnavailable,
    MalformedWire,
    InvalidLength,
    InvalidValidityWindow,
    WrongNetwork,
    NotYetValid,
    Expired,
    DuplicateEntry(&'static str),
    UnknownMember,
    UnknownApplication,
    InvalidVirtualName,
    UnknownAdmin,
    PolicyLimitExceeded,
    Credential(CertificateError),
}

impl SnapshotError {
    /// The message for people.
    pub open spec fn text(self) -> Seq<char> {
        match self {
            SnapshotError::RandomnessUnavailable => "secure randomness is unavailable"@,
            SnapshotError::MalformedWire => "configuration snapshot wire bytes are malformed"@,
            SnapshotError::InvalidLength => {
                "configuration snapshot exceeds a bounded collection or field length"@
            },
            SnapshotError::InvalidValidityWindow => {
                "configuration snapshot has an invalid validity window"@
            },
            SnapshotError::WrongNetwork => "configuration snapshot belongs to another network"@,
            SnapshotError::NotYetValid => "configuration snapshot is not valid yet"@,
            SnapshotError::Expired => "configuration snapshot has expired"@,
            SnapshotError::DuplicateEntry(what) => {
                "configuration snapshot contains duplicate "@ + what@
            },
            SnapshotError::UnknownMember => "configuration references an unknown member"@,
            SnapshotError::UnknownApplication => "configuration references an unknown application"@,
            SnapshotError::InvalidVirtualName => {
                "configuration contains an invalid virtual DNS name"@
            },
            SnapshotError::UnknownAdmin => {
                "configuration references an unknown online administrator"@
            },
            SnapshotError::PolicyLimitExceeded => {
                "configuration violates its declared policy limits"@
            },
            SnapshotError::Credential(error) => "credential verification failed: "@ + error.text(),
        }
    }

    /// The message for people.
    pub fn message(&self) -> (text: String)
        ensures
            text@ == self.text(),
    {
        match self {
            SnapshotError::RandomnessUnavailable => "secure randomness is unavailable".to_owned(),
            SnapshotError::MalformedWire => {
                "configuration snapshot wire bytes are malformed".to_owned()
            },
            SnapshotError::InvalidLength => {
                "configuration snapshot exceeds a bounded collection or field length".to_owned()
            },
            SnapshotError::InvalidValidityWindow => {
                "configuration snapshot has an invalid validity window".to_owned()
            },
            SnapshotError::WrongNetwork => {
                "configuration snapshot belongs to another network".to_owned()
            },
            SnapshotError::NotYetValid => "configuration snapshot is not valid yet".to_owned(),
            SnapshotError::Expired => "configuration snapshot has expired".to_owned(),
            SnapshotError::DuplicateEntry(what) => {
                joined("configuration snapshot contains duplicate ", what)
            },
            SnapshotError::UnknownMember => "configuration references an unknown member".to_owned(),
            SnapshotError::UnknownApplication => {
                "configuration references an unknown application".to_owned()
            },
            SnapshotError::InvalidVirtualName => {
                "configuration contains an invalid virtual DNS name".to_owned()
            },
            SnapshotError::UnknownAdmin => {
                "configuration references an unknown online administrator".to_owned()
            },
            SnapshotError::PolicyLimitExceeded => {
                "configuration violates its declared policy limits".to_owned()
            },
            SnapshotError::Credential(error) => {
                joined("credential verification failed: ", error.message())
            },
        }
    }
}

/// An administrator's certificate, as signed.
#[derive(Debug, PartialEq, Eq)]
pub struct AdminKey {
    pub certificate: Vec<u8>,
}

/// What a relay may be used for.
#[derive(Clone, Copy, Debug, PartialEq, Eq, Structural)]
pub struct RelayRoles(pub u32);

impl RelayRoles {
    /// Relays application data.
    pub fn data_relay() -> (roles: Self)
        ensures
            roles == RelayRoles(1),
    {
        RelayRoles(1)
    }

    /// Admits new members.
    pub fn bootstrap() -> (roles: Self)
        ensures
            roles == RelayRoles(2),
    {
        RelayRoles(2)
    }

    /// Keeps presence records.
    pub fn presence() -> (roles: Self)
        ensures
            roles == RelayRoles(4),
    {
        RelayRoles(4)
    }

    pub fn from_bits(bits: u32) -> (roles: Self)
        ensures
            roles == RelayRoles(bits),
    {
        RelayRoles(bits)
    }

    pub fn bits(self) -> (bits: u32)
        ensures
            bits == self.0,
    {
        self.0
    }

    /// The roles in either set.
    pub fn union(self, other: Self) -> (both: Self)
        ensures
            both == RelayRoles(self.0 | other.0),
    {
        RelayRoles(self.0 | other.0)
    }

    /// Whether every role of `other` is in this set.
    pub fn contains(self, other: Self) -> (held: bool)
        ensures
            held == (self.0 & other.0 == other.0),
    {
        self.0 & other.0 == other.0
    }
}

/// A relay that the network offers.
#[derive(Debug, PartialEq, Eq)]
pub struct RelayDescriptor {
    pub endpoint_id: [u8; 32],
    pub url: String,
    pub roles: RelayRoles,
    pub expires_at_ms: u64,
}

/// The contents of a relay descriptor.
pub struct Relay {
    pub endpoint_id: [u8; 32],
    pub url: Seq<char>,
    pub roles: RelayRoles,
    pub expires_at_ms: u64,
}

impl View for RelayDescriptor {
    type V = Relay;

    open spec fn view(&self) -> Relay {
        Relay {
            endpoint_id: self.endpoint_id,
            url: self.url@,
            roles: self.roles,
            expires_at_ms: self.expires_at_ms,
        }
    }
}

/// A service that keeps presence records.
#[derive(Debug, PartialEq, Eq)]
pub struct PresenceServiceDescriptor {
    pub endpoint_id: [u8; 32],
    pub url: String,
    pub expires_at_ms: u64,
}

/// The contents of a presence service descriptor.
pub struct PresenceService {
    pub endpoint_id: [u8; 32],
    pub url: Seq<char>,
    pub expires_at_ms: u64,
}

impl View for PresenceServiceDescriptor {
    type V = PresenceService;

    open spec fn view(&self) -> PresenceService {
        PresenceService {
            endpoint_id: self.endpoint_id,
            url: self.url@,
            expires_at_ms: self.expires_at_ms,
        }
    }
}

/// A virtual name and the application it stands for.
#[derive(Debug, PartialEq, Eq)]
pub struct VirtualDnsRecord {
    pub name: VirtualName,
    pub app_addr: AppAddr,
    pub expires_at_ms: u64,
}

/// The contents of a name record.
pub struct DnsRecord {
    pub name: Seq<char>,
    pub app_addr: AppAddr,
    pub expires_at_ms: u64,
}

impl View for VirtualDnsRecord {
    type V = DnsRecord;

    open spec fn view(&self) -> DnsRecord {
        DnsRecord {
            name: self.name@,
            app_addr: self.app_addr,
            expires_at_ms: self.expires_at_ms,
        }
    }
}

/// The secrets that the members of one epoch share.
#[derive(PartialEq, Eq)]
pub struct EpochSecrets {
    presence_index_seed: [u8; 32],
    presence_encryption_seed: [u8; 32],
    lan_discovery_seed: [u8; 32],
    relay_access_seed: [u8; 32],
}

/// The contents of the secrets.
pub struct Secrets {
    pub presence_index_seed: [u8; 32],
    pub presence_encryption_seed: [u8; 32],
    pub lan_discovery_seed: [u8; 32],
    pub relay_access_seed: [u8; 32],
}

impl Clone for EpochSecrets {
    fn clone(&self) -> (copy: Self)
        ensures
            copy@ == self@,
    {
        EpochSecrets {
            presence_index_seed: self.presence_index_seed,
            presence_encryption_seed: self.presence_encryption_seed,
            lan_discovery_seed: self.lan_discovery_seed,
            relay_access_seed: self.relay_access_seed,
        }
    }
}

impl View for EpochSecrets {
    type V = Secrets;

    closed spec fn view(&self) -> Secrets {
        Secrets {
            presence_index_seed: self.presence_index_seed,
            presence_encryption_seed: self.presence_encryption_seed,
            lan_discovery_seed: self.lan_discovery_seed,
            relay_access_seed: self.relay_access_seed,
        }
    }
}

impl EpochSecrets {
    /// Secrets from the system's randomness. Which secrets they are rests on chance.
    pub fn generate() -> (secrets: Result<Self, SnapshotError>)
        ensures
            secrets matches Err(error) ==> error == SnapshotError::RandomnessUnavailable,
    {
        match (random_array::<32>(), random_array::<32>(), random_array::<32>(), random_array::<32>()) {
            (Some(a), Some(b), Some(c), Some(d)) => Ok(EpochSecrets::from_bytes([a, b, c, d])),
            _ => Err(SnapshotError::RandomnessUnavailable),
        }
    }

    pub fn from_bytes(raw: [[u8; 32]; 4]) -> (secrets: Self)
        ensures
            secrets@ == (Secrets {
                presence_index_seed: raw@[0],
                presence_encryption_seed: raw@[1],
                lan_discovery_seed: raw@[2],
                relay_access_seed: raw@[3],
            }),
    {
        EpochSecrets {
            presence_index_seed: raw[0],
            presence_encryption_seed: raw[1],
            lan_discovery_seed: raw[2],
            relay_access_seed: raw[3],
        }
    }

    pub fn expose_bytes(&self) -> (raw: [[u8; 32]; 4])
        ensures
            self@ == (Secrets {
                presence_index_seed: raw@[0],
                presence_encryption_seed: raw@[1],
                lan_discovery_seed: raw@[2],
                relay_access_seed: raw@[3],
            }),
    {
        [
            self.presence_index_seed,
            self.presence_encryption_seed,
            self.lan_discovery_seed,
            self.relay_access_seed,
        ]
    }

    /// How secrets are shown to people: not at all.
    pub fn debug_text(&self) -> (text: &'static str)
        ensures
            text@ == "EpochSecrets([redacted])"@,
    {
        "EpochSecrets([redacted])"
    }
}

/// The limits that a network sets itself.
#[derive(Clone, Copy, Debug, PartialEq, Eq, Structural)]
pub struct NetworkPolicy {
    pub flags: u32,
    pub max_members: u16,
    pub max_services_per_binding: u16,
}

impl Default for NetworkPolicy {
    fn default() -> (policy: Self)
        ensures
            policy == (NetworkPolicy { flags: 0, max_members: 256, max_services_per_binding: 64 }),
    {
        NetworkPolicy { flags: 0, max_members: 256, max_services_per_binding: 64 }
    }
}

/// One revision of a network's configuration.
#[derive(PartialEq, Eq)]
pub struct NetworkConfigV1 {
    pub network_id: NetworkId,
    pub epoch: u64,
    pub revision: u64,
    pub previous_hash: [u8; 32],
    pub issued_at_ms: u64,
    pub expires_at_ms: u64,
    pub admin_keys: Vec<AdminKey>,
    pub members: Vec<Vec<u8>>,
    pub endpoint_bindings: Vec<Vec<u8>>,
    pub revoked_serials: Vec<u64>,
    pub apps: Vec<Vec<u8>>,
    pub app_bindings: Vec<Vec<u8>>,
    pub virtual_dns: Vec<VirtualDnsRecord>,
    pub relays: Vec<RelayDescriptor>,
    pub presence_services: Vec<PresenceServiceDescriptor>,
    pub epoch_secrets: EpochSecrets,
    pub policies: NetworkPolicy,
}

/// The contents of a configuration.
pub struct Config {
    pub network_id: NetworkId,
    pub epoch: u64,
    pub revision: u64,
    pub previous_hash: [u8; 32],
    pub issued_at_ms: u64,
    pub expires_at_ms: u64,
    pub admin_keys: Seq<Seq<u8>>,
    pub members: Seq<Seq<u8>>,
    pub endpoint_bindings: Seq<Seq<u8>>,
    pub revoked_serials: Seq<u64>,
    pub apps: Seq<Seq<u8>>,
    pub app_bindings: Seq<Seq<u8>>,
    pub virtual_dns: Seq<DnsRecord>,
    pub relays: Seq<Relay>,
    pub presence_services: Seq<PresenceService>,
    pub epoch_secrets: Secrets,
    pub policies: NetworkPolicy,
}

/// The bytes in each of several vectors.
pub open spec fn blobs(v: Seq<Vec<u8>>) -> Seq<Seq<u8>> {
    Seq::new(v.len(), |i: int| v[i]@)
}

/// The bytes of each of several certificates.
pub open spec fn certificates(v: Seq<AdminKey>) -> Seq<Seq<u8>> {
    Seq::new(v.len(), |i: int| v[i].certificate@)
}

/// The contents of each of several name records.
pub open spec fn dns_records(v: Seq<VirtualDnsRecord>) -> Seq<DnsRecord> {
    Seq::new(v.len(), |i: int| v[i]@)
}

/// The contents of each of several relay descriptors.
pub open spec fn relays(v: Seq<RelayDescriptor>) -> Seq<Relay> {
    Seq::new(v.len(), |i: int| v[i]@)
}

/// The contents of each of several presence service descriptors.
pub open spec fn presence_services(v: Seq<PresenceServiceDescriptor>) -> Seq<PresenceService> {
    Seq::new(v.len(), |i: int| v[i]@)
}

impl View for NetworkConfigV1 {
    type V = Config;

    open spec fn view(&self) -> Config {
        Config {
            network_id: self.network_id,
            epoch: self.epoch,
            revision: self.revision,
            previous_hash: self.previous_hash,
            issued_at_ms: self.issued_at_ms,
            expires_at_ms: self.expires_at_ms,
            admin_keys: certificates(self.admin_keys@),
            members: blobs(self.members@),
            endpoint_bindings: blobs(self.endpoint_bindings@),
            revoked_serials: self.revoked_serials@,
            apps: blobs(self.apps@),
            app_bindings: blobs(self.app_bindings@),
            virtual_dns: dns_records(self.virtual_dns@),
            relays: relays(self.relays@),
            presence_services: presence_services(self.presence_services@),
            epoch_secrets: self.epoch_secrets@,
            policies: self.policies,
        }
    }
}

/// Whether a credential is neither empty nor too long.
pub open spec fn blob_ok(blob: Seq<u8>) -> bool {
    0 < blob.len() <= MAX_CREDENTIAL_BYTES
}

/// Whether every credential is neither empty nor too long.
pub open spec fn blobs_ok(s: Seq<Seq<u8>>) -> bool {
    forall|i: int| 0 <= i < s.len() ==> blob_ok(#[trigger] s[i])
}

/// Whether an address is ASCII, not empty, and not too long.
pub open spec fn url_ok(url: Seq<char>) -> bool {
    &&& 0 < wire::utf8(url).len() <= MAX_URL_BYTES
    &&& vstd::utf8::is_ascii_chars(url)
}

/// Whether every list of a configuration keeps to its bound.
pub open spec fn counts_ok(c: Config) -> bool {
    &&& c.admin_keys.len() <= MAX_ADMIN_KEYS
    &&& c.members.len() <= MAX_MEMBERS
    &&& c.endpoint_bindings.len() <= MAX_MEMBERS
    &&& c.revoked_serials.len() <= MAX_REVOKED_SERIALS
    &&& c.apps.len() <= MAX_APPS
    &&& c.app_bindings.len() <= MAX_BINDINGS
    &&& c.virtual_dns.len() <= MAX_VIRTUAL_DNS_RECORDS
    &&& c.relays.len() <= MAX_RELAYS
    &&& c.presence_services.len() <= MAX_PRESENCE_SERVICES
}

/// Whether every credential of a configuration keeps to its bound.
pub open spec fn credentials_ok(c: Config) -> bool {
    &&& blobs_ok(c.admin_keys)
    &&& blobs_ok(c.members)
    &&& blobs_ok(c.endpoint_bindings)
    &&& blobs_ok(c.apps)
    &&& blobs_ok(c.app_bindings)
}

/// Whether a policy sets limits that a network can have.
pub open spec fn policy_ok(p: NetworkPolicy) -> bool {
    0 < p.max_members <= MAX_MEMBERS && 0 < p.max_services_per_binding <= MAX_POLICY_SERVICES
}

/// What is wrong with the shape of a configuration: the first of these that applies.
pub open spec fn shape_verdict(c: Config) -> Result<(), SnapshotError> {
    if c.expires_at_ms <= c.issued_at_ms {
        Err(SnapshotError::InvalidValidityWindow)
    } else if !counts_ok(c) || !credentials_ok(c) {
        Err(SnapshotError::InvalidLength)
    } else if !policy_ok(c.policies) {
        Err(SnapshotError::PolicyLimitExceeded)
    } else {
        Ok(())
    }
}

/// Whether every address in a configuration can be written down.
pub open spec fn urls_ok(c: Config) -> bool {
    &&& forall|i: int| 0 <= i < c.virtual_dns.len() ==> url_ok(#[trigger] c.virtual_dns[i].name)
    &&& forall|i: int| 0 <= i < c.relays.len() ==> url_ok(#[trigger] c.relays[i].url)
    &&& forall|i: int|
        0 <= i < c.presence_services.len() ==> url_ok(#[trigger] c.presence_services[i].url)
}

/// A credential behind its length.
pub open spec fn blob_bytes(blob: Seq<u8>) -> Seq<u8> {
    wire::be(blob.len(), 2) + blob
}

/// A text behind its length in bytes.
pub open spec fn string_bytes(text: Seq<char>) -> Seq<u8> {
    blob_bytes(wire::utf8(text))
}

/// The encoding of a name record.
pub open spec fn dns_bytes(d: DnsRecord) -> Seq<u8> {
    string_bytes(d.name) + (d.app_addr@ + wire::be(d.expires_at_ms as nat, 8))
}

/// The encoding of a relay descriptor.
pub open spec fn relay_bytes(d: Relay) -> Seq<u8> {
    d.endpoint_id@ + (string_bytes(d.url) + (wire::be(d.roles.0 as nat, 4) + wire::be(
        d.expires_at_ms as nat,
        8,
    )))
}

/// The encoding of a presence service descriptor.
pub open spec fn service_bytes(d: PresenceService) -> Seq<u8> {
    d.endpoint_id@ + (string_bytes(d.url) + wire::be(d.expires_at_ms as nat, 8))
}

/// How credentials are written.
pub open spec fn blob_enc() -> spec_fn(Seq<u8>) -> Seq<u8> {
    |blob: Seq<u8>| blob_bytes(blob)
}

/// How serials are written.
pub open spec fn serial_enc() -> spec_fn(u64) -> Seq<u8> {
    |serial: u64| wire::be(serial as nat, 8)
}

/// How name records are written.
pub open spec fn dns_enc() -> spec_fn(DnsRecord) -> Seq<u8> {
    |d: DnsRecord| dns_bytes(d)
}

/// How relay descriptors are written.
pub open spec fn relay_enc() -> spec_fn(Relay) -> Seq<u8> {
    |d: Relay| relay_bytes(d)
}

/// How presence service descriptors are written.
pub open spec fn service_enc() -> spec_fn(PresenceService) -> Seq<u8> {
    |d: PresenceService| service_bytes(d)
}

/// Several items behind their number.
pub open spec fn list_bytes<T>(item: spec_fn(T) -> Seq<u8>, s: Seq<T>) -> Seq<u8> {
    wire::be(s.len(), 2) + wire::items_bytes(item, s)
}

/// Several credentials behind their number.
pub open spec fn blobs_bytes(s: Seq<Seq<u8>>) -> Seq<u8> {
    list_bytes(blob_enc(), s)
}

/// Several serials behind their number.
pub open spec fn serials_bytes(s: Seq<u64>) -> Seq<u8> {
    list_bytes(serial_enc(), s)
}

/// The fixed fields that follow the magic.
pub open spec fn head_bytes(c: Config) -> Seq<u8> {
    c.network_id@ + wire::be(c.epoch as nat, 8) + wire::be(c.revision as nat, 8) + c.previous_hash@
        + wire::be(c.issued_at_ms as nat, 8) + wire::be(c.expires_at_ms as nat, 8)
}

/// The fixed fields at the end.
pub open spec fn tail_bytes(c: Config) -> Seq<u8> {
    c.epoch_secrets.presence_index_seed@ + c.epoch_secrets.presence_encryption_seed@
        + c.epoch_secrets.lan_discovery_seed@ + c.epoch_secrets.relay_access_seed@ + wire::be(
        c.policies.flags as nat,
        4,
    ) + wire::be(c.policies.max_members as nat, 2) + wire::be(
        c.policies.max_services_per_binding as nat,
        2,
    )
}

/// The lists of a configuration from the relays on, and the end.
pub open spec fn descriptors_bytes(c: Config) -> Seq<u8> {
    list_bytes(relay_enc(), c.relays) + (list_bytes(
        service_enc(),
        c.presence_services,
    ) + tail_bytes(c))
}

/// The lists of a configuration up to the application bindings, and then `rest`.
pub open spec fn credentials_bytes(c: Config, rest: Seq<u8>) -> Seq<u8> {
    blobs_bytes(c.admin_keys) + (blobs_bytes(c.members) + (blobs_bytes(c.endpoint_bindings) + (
    serials_bytes(c.revoked_serials) + (blobs_bytes(c.apps) + (blobs_bytes(c.app_bindings)
        + rest)))))
}

/// The encoding of a configuration.
pub open spec fn config_bytes(c: Config) -> Seq<u8> {
    SNAPSHOT_MAGIC_V2@ + (head_bytes(c) + credentials_bytes(
        c,
        list_bytes(dns_enc(), c.virtual_dns) + descriptors_bytes(c),
    ))
}

/// The encoding of a configuration in the format that has no virtual names.
pub open spec fn legacy_config_bytes(c: Config) -> Seq<u8> {
    SNAPSHOT_MAGIC_V1@ + (head_bytes(c) + credentials_bytes(c, descriptors_bytes(c)))
}

/// A number of items, at most `maximum`.
pub open spec fn p_count(r: Seq<u8>, maximum: int) -> Result<(nat, Seq<u8>), SnapshotError> {
    match wire::take_u16(r) {
        None => Err(SnapshotError::MalformedWire),
        Some((n, r1)) => if n > maximum {
            Err(SnapshotError::InvalidLength)
        } else {
            Ok((n as nat, r1))
        },
    }
}

/// A credential behind its length.
pub open spec fn p_blob(r: Seq<u8>) -> Result<(Seq<u8>, Seq<u8>), SnapshotError> {
    match wire::take_u16(r) {
        None => Err(SnapshotError::MalformedWire),
        Some((n, r1)) => if n == 0 || n > MAX_CREDENTIAL_BYTES {
            Err(SnapshotError::InvalidLength)
        } else {
            match wire::take_bytes(r1, n as int) {
                None => Err(SnapshotError::MalformedWire),
                Some(taken) => Ok(taken),
            }
        },
    }
}

/// An ASCII text behind its length.
pub open spec fn p_string(r: Seq<u8>) -> Result<(Seq<char>, Seq<u8>), SnapshotError> {
    match wire::take_u16(r) {
        None => Err(SnapshotError::MalformedWire),
        Some((n, r1)) => if n == 0 || n > MAX_URL_BYTES {
            Err(SnapshotError::InvalidLength)
        } else {
            match wire::take_bytes(r1, n as int) {
                None => Err(SnapshotError::MalformedWire),
                Some((x, r2)) => if !vstd::utf8::valid_utf8(x) {
                    Err(SnapshotError::MalformedWire)
                } else if !vstd::utf8::is_ascii_chars(vstd::utf8::decode_utf8(x)) {
                    Err(SnapshotError::InvalidLength)
                } else {
                    Ok((vstd::utf8::decode_utf8(x), r2))
                },
            }
        },
    }
}

/// A serial.
pub open spec fn p_serial(r: Seq<u8>) -> Result<(u64, Seq<u8>), SnapshotError> {
    match wire::take_u64(r) {
        None => Err(SnapshotError::MalformedWire),
        Some(taken) => Ok(taken),
    }
}

/// A name record.
pub open spec fn p_dns(r: Seq<u8>) -> Result<(DnsRecord, Seq<u8>), SnapshotError> {
    match p_string(r) {
        Err(e) => Err(e),
        Ok((name, r1)) => if !virtual_name::name_ok(wire::utf8(name)) {
            Err(SnapshotError::InvalidVirtualName)
        } else {
            match wire::take_array::<32>(r1) {
                None => Err(SnapshotError::MalformedWire),
                Some((app, r2)) => match wire::take_u64(r2) {
                    None => Err(SnapshotError::MalformedWire),
                    Some((expires_at_ms, r3)) => Ok(
                        (DnsRecord { name, app_addr: AppAddr(app), expires_at_ms }, r3),
                    ),
                },
            }
        },
    }
}

/// A relay descriptor.
pub open spec fn p_relay(r: Seq<u8>) -> Result<(Relay, Seq<u8>), SnapshotError> {
    match wire::take_array::<32>(r) {
        None => Err(SnapshotError::MalformedWire),
        Some((endpoint_id, r1)) => match p_string(r1) {
            Err(e) => Err(e),
            Ok((url, r2)) => match wire::take_u32(r2) {
                None => Err(SnapshotError::MalformedWire),
                Some((roles, r3)) => match wire::take_u64(r3) {
                    None => Err(SnapshotError::MalformedWire),
                    Some((expires_at_ms, r4)) => Ok(
                        (Relay { endpoint_id, url, roles: RelayRoles(roles), expires_at_ms }, r4),
                    ),
                },
            },
        },
    }
}

/// A presence service descriptor.
pub open spec fn p_service(r: Seq<u8>) -> Result<(PresenceService, Seq<u8>), SnapshotError> {
    match wire::take_array::<32>(r) {
        None => Err(SnapshotError::MalformedWire),
        Some((endpoint_id, r1)) => match p_string(r1) {
            Err(e) => Err(e),
            Ok((url, r2)) => match wire::take_u64(r2) {
                None => Err(SnapshotError::MalformedWire),
                Some((expires_at_ms, r3)) => Ok(
                    (PresenceService { endpoint_id, url, expires_at_ms }, r3),
                ),
            },
        },
    }
}

/// How credentials are read.
pub open spec fn blob_dec() -> spec_fn(Seq<u8>) -> Result<(Seq<u8>, Seq<u8>), SnapshotError> {
    |r: Seq<u8>| p_blob(r)
}

/// How serials are read.
pub open spec fn serial_dec() -> spec_fn(Seq<u8>) -> Result<(u64, Seq<u8>), SnapshotError> {
    |r: Seq<u8>| p_serial(r)
}

/// How name records are read.
pub open spec fn dns_dec() -> spec_fn(Seq<u8>) -> Result<(DnsRecord, Seq<u8>), SnapshotError> {
    |r: Seq<u8>| p_dns(r)
}

/// How relay descriptors are read.
pub open spec fn relay_dec() -> spec_fn(Seq<u8>) -> Result<(Relay, Seq<u8>), SnapshotError> {
    |r: Seq<u8>| p_relay(r)
}

/// How presence service descriptors are read.
pub open spec fn service_dec() -> spec_fn(Seq<u8>) -> Result<
    (PresenceService, Seq<u8>),
    SnapshotError,
> {
    |r: Seq<u8>| p_service(r)
}

/// At most `maximum` items behind their number.
pub open spec fn p_list<T>(
    item: spec_fn(Seq<u8>) -> Result<(T, Seq<u8>), SnapshotError>,
    r: Seq<u8>,
    maximum: int,
) -> Result<(Seq<T>, Seq<u8>), SnapshotError> {
    match p_count(r, maximum) {
        Err(e) => Err(e),
        Ok((n, r1)) => wire::p_items(item, r1, n),
    }
}

/// At most `maximum` credentials behind their number.
pub open spec fn p_blobs(r: Seq<u8>, maximum: int) -> Result<
    (Seq<Seq<u8>>, Seq<u8>),
    SnapshotError,
> {
    p_list(blob_dec(), r, maximum)
}

/// The lists of credentials, in the order in which they are written.
pub struct Credentials {
    pub admin_keys: Seq<Seq<u8>>,
    pub members: Seq<Seq<u8>>,
    pub endpoint_bindings: Seq<Seq<u8>>,
    pub revoked_serials: Seq<u64>,
    pub apps: Seq<Seq<u8>>,
    pub app_bindings: Seq<Seq<u8>>,
}

/// All lists of credentials.
pub open spec fn p_credentials(r: Seq<u8>) -> Result<(Credentials, Seq<u8>), SnapshotError> {
    match p_blobs(r, MAX_ADMIN_KEYS as int) {
        Err(e) => Err(e),
        Ok((admin_keys, r1)) => match p_blobs(r1, MAX_MEMBERS as int) {
            Err(e) => Err(e),
            Ok((members, r2)) => match p_blobs(r2, MAX_MEMBERS as int) {
                Err(e) => Err(e),
                Ok((endpoint_bindings, r3)) => match p_list(
                    serial_dec(),
                    r3,
                    MAX_REVOKED_SERIALS as int,
                ) {
                    Err(e) => Err(e),
                    Ok((revoked_serials, r4)) => match p_blobs(r4, MAX_APPS as int) {
                        Err(e) => Err(e),
                        Ok((apps, r5)) => match p_blobs(r5, MAX_BINDINGS as int) {
                            Err(e) => Err(e),
                            Ok((app_bindings, r6)) => Ok(
                                (
                                    Credentials {
                                        admin_keys,
                                        members,
                                        endpoint_bindings,
                                        revoked_serials,
                                        apps,
                                        app_bindings,
                                    },
                                    r6,
                                ),
                            ),
                        },
                    },
                },
            },
        },
    }
}

/// The name records, of which the format without virtual names has none.
pub open spec fn p_names(r: Seq<u8>, named: bool) -> Result<(Seq<DnsRecord>, Seq<u8>), SnapshotError> {
    if named {
        p_list(dns_dec(), r, MAX_VIRTUAL_DNS_RECORDS as int)
    } else {
        Ok((Seq::empty(), r))
    }
}

/// The configuration that follows the magic, or the first thing that is wrong with it.
pub open spec fn p_config(r: Seq<u8>, named: bool) -> Result<Config, SnapshotError> {
    if r.len() < SNAPSHOT_HEAD_LEN {
        Err(SnapshotError::MalformedWire)
    } else {
        match p_credentials(r.subrange(SNAPSHOT_HEAD_LEN as int, r.len() as int)) {
            Err(e) => Err(e),
            Ok((credentials, r1)) => match p_names(r1, named) {
                Err(e) => Err(e),
                Ok((virtual_dns, r2)) => match p_list(
                    relay_dec(),
                    r2,
                    MAX_RELAYS as int,
                ) {
                    Err(e) => Err(e),
                    Ok((relays, r3)) => match p_list(
                        service_dec(),
                        r3,
                        MAX_PRESENCE_SERVICES as int,
                    ) {
                        Err(e) => Err(e),
                        Ok((presence_services, t)) => if t.len() != SNAPSHOT_TAIL_LEN {
                            Err(SnapshotError::MalformedWire)
                        } else {
                            let c = Config {
                                network_id: NetworkId(wire::array_at::<32>(r, 0)),
                                epoch: wire::u64_at(r, 32),
                                revision: wire::u64_at(r, 40),
                                previous_hash: wire::array_at::<32>(r, 48),
                                issued_at_ms: wire::u64_at(r, 80),
                                expires_at_ms: wire::u64_at(r, 88),
                                admin_keys: credentials.admin_keys,
                                members: credentials.members,
                                endpoint_bindings: credentials.endpoint_bindings,
                                revoked_serials: credentials.revoked_serials,
                                apps: credentials.apps,
                                app_bindings: credentials.app_bindings,
                                virtual_dns,
                                relays,
                                presence_services,
                                epoch_secrets: Secrets {
                                    presence_index_seed: wire::array_at::<32>(t, 0),
                                    presence_encryption_seed: wire::array_at::<32>(t, 32),
                                    lan_discovery_seed: wire::array_at::<32>(t, 64),
                                    relay_access_seed: wire::array_at::<32>(t, 96),
                                },
                                policies: NetworkPolicy {
                                    flags: wire::u32_at(t, 128),
                                    max_members: wire::u16_at(t, 132),
                                    max_services_per_binding: wire::u16_at(t, 134),
                                },
                            };
                            match shape_verdict(c) {
                                Err(e) => Err(e),
                                Ok(()) => Ok(c),
                            }
                        },
                    },
                },
            },
        }
    }
}

/// The configuration that `b` encodes, in either format, or the first thing that is wrong with
/// it.
pub open spec fn read_config(b: Seq<u8>) -> Result<Config, SnapshotError> {
    if wire::has_at(b, 0, SNAPSHOT_MAGIC_V2@) {
        p_config(b.subrange(8, b.len() as int), true)
    } else if wire::has_at(b, 0, SNAPSHOT_MAGIC_V1@) {
        p_config(b.subrange(8, b.len() as int), false)
    } else {
        Err(SnapshotError::MalformedWire)
    }
}

/// A list that is written behind its number is read back, where each of its items is.
pub(crate) proof fn lemma_list_round_trip<T>(
    enc: spec_fn(T) -> Seq<u8>,
    item: spec_fn(Seq<u8>) -> Result<(T, Seq<u8>), SnapshotError>,
    s: Seq<T>,
    maximum: int,
    rest: Seq<u8>,
)
    requires
        s.len() <= maximum <= 0xffff,
        forall|i: int, tail: Seq<u8>|
            0 <= i < s.len() ==> item(#[trigger] (enc(s[i]) + tail)) == Ok::<
                (T, Seq<u8>),
                SnapshotError,
            >((s[i], tail)),
    ensures
        p_list(item, list_bytes(enc, s) + rest, maximum) == Ok::<
            (Seq<T>, Seq<u8>),
            SnapshotError,
        >((s, rest)),
{
    let body = wire::items_bytes(enc, s);
    wire::lemma_take_u16(s.len() as u16, body + rest);
    wire::lemma_assoc(wire::be(s.len(), 2), body, rest);
    wire::lemma_items_round_trip(enc, item, s, rest);
}

pub(crate) proof fn lemma_blob_round_trip(blob: Seq<u8>, rest: Seq<u8>)
    requires
        blob_ok(blob),
    ensures
        p_blob(blob_bytes(blob) + rest) == Ok::<(Seq<u8>, Seq<u8>), SnapshotError>((blob, rest)),
{
    wire::lemma_assoc(wire::be(blob.len(), 2), blob, rest);
    wire::lemma_take_u16(blob.len() as u16, blob + rest);
    wire::lemma_take_bytes(blob, rest);
}

pub(crate) proof fn lemma_string_round_trip(text: Seq<char>, rest: Seq<u8>)
    requires
        url_ok(text),
    ensures
        p_string(string_bytes(text) + rest) == Ok::<(Seq<char>, Seq<u8>), SnapshotError>(
            (text, rest),
        ),
{
    let blob = wire::utf8(text);
    wire::lemma_assoc(wire::be(blob.len(), 2), blob, rest);
    wire::lemma_take_u16(blob.len() as u16, blob + rest);
    wire::lemma_take_bytes(blob, rest);
    vstd::utf8::encode_utf8_valid_utf8(text);
    vstd::utf8::encode_utf8_decode_utf8(text);
}

pub(crate) proof fn lemma_dns_round_trip(d: DnsRecord, rest: Seq<u8>)
    requires
        url_ok(d.name),
        virtual_name::name_ok(wire::utf8(d.name)),
    ensures
        p_dns(dns_bytes(d) + rest) == Ok::<(DnsRecord, Seq<u8>), SnapshotError>((d, rest)),
{
    let expires = wire::be(d.expires_at_ms as nat, 8);
    wire::lemma_assoc(string_bytes(d.name), d.app_addr@ + expires, rest);
    wire::lemma_assoc(d.app_addr@, expires, rest);
    lemma_string_round_trip(d.name, d.app_addr@ + (expires + rest));
    wire::lemma_take_array(d.app_addr.0, expires + rest);
    wire::lemma_take_u64(d.expires_at_ms, rest);
}

pub(crate) proof fn lemma_relay_round_trip(d: Relay, rest: Seq<u8>)
    requires
        url_ok(d.url),
    ensures
        p_relay(relay_bytes(d) + rest) == Ok::<(Relay, Seq<u8>), SnapshotError>((d, rest)),
{
    let url = string_bytes(d.url);
    let roles = wire::be(d.roles.0 as nat, 4);
    let expires = wire::be(d.expires_at_ms as nat, 8);
    wire::lemma_assoc(d.endpoint_id@, url + (roles + expires), rest);
    wire::lemma_assoc(url, roles + expires, rest);
    wire::lemma_assoc(roles, expires, rest);
    wire::lemma_take_array(d.endpoint_id, url + (roles + (expires + rest)));
    lemma_string_round_trip(d.url, roles + (expires + rest));
    wire::lemma_take_u32(d.roles.0, expires + rest);
    wire::lemma_take_u64(d.expires_at_ms, rest);
}

pub(crate) proof fn lemma_service_round_trip(d: PresenceService, rest: Seq<u8>)
    requires
        url_ok(d.url),
    ensures
        p_service(service_bytes(d) + rest) == Ok::<(PresenceService, Seq<u8>), SnapshotError>(
            (d, rest),
        ),
{
    let url = string_bytes(d.url);
    let expires = wire::be(d.expires_at_ms as nat, 8);
    wire::lemma_assoc(d.endpoint_id@, url + expires, rest);
    wire::lemma_assoc(url, expires, rest);
    wire::lemma_take_array(d.endpoint_id, url + (expires + rest));
    lemma_string_round_trip(d.url, expires + rest);
    wire::lemma_take_u64(d.expires_at_ms, rest);
}

pub(crate) proof fn lemma_blobs_round_trip(s: Seq<Seq<u8>>, maximum: int, rest: Seq<u8>)
    requires
        blobs_ok(s),
        s.len() <= maximum <= 0xffff,
    ensures
        p_blobs(blobs_bytes(s) + rest, maximum) == Ok::<(Seq<Seq<u8>>, Seq<u8>), SnapshotError>(
            (s, rest),
        ),
{
    assert forall|i: int, tail: Seq<u8>| 0 <= i < s.len() implies blob_dec()(
        #[trigger] (blob_enc()(s[i]) + tail),
    ) == Ok::<(Seq<u8>, Seq<u8>), SnapshotError>((s[i], tail)) by {
        lemma_blob_round_trip(s[i], tail);
    }
    lemma_list_round_trip(blob_enc(), blob_dec(), s, maximum, rest);
}

pub(crate) proof fn lemma_credentials_round_trip(c: Config, rest: Seq<u8>)
    requires
        counts_ok(c),
        credentials_ok(c),
    ensures
        p_credentials(credentials_bytes(c, rest)) == Ok::<(Credentials, Seq<u8>), SnapshotError>(
            (
                Credentials {
                    admin_keys: c.admin_keys,
                    members: c.members,
                    endpoint_bindings: c.endpoint_bindings,
                    revoked_serials: c.revoked_serials,
                    apps: c.apps,
                    app_bindings: c.app_bindings,
                },
                rest,
            ),
        ),
{
    let t5 = blobs_bytes(c.app_bindings) + rest;
    let t4 = blobs_bytes(c.apps) + t5;
    let t3 = serials_bytes(c.revoked_serials) + t4;
    let t2 = blobs_bytes(c.endpoint_bindings) + t3;
    let t1 = blobs_bytes(c.members) + t2;
    lemma_blobs_round_trip(c.admin_keys, MAX_ADMIN_KEYS as int, t1);
    lemma_blobs_round_trip(c.members, MAX_MEMBERS as int, t2);
    lemma_blobs_round_trip(c.endpoint_bindings, MAX_MEMBERS as int, t3);
    let s = c.revoked_serials;
    assert forall|i: int, tail: Seq<u8>| 0 <= i < s.len() implies serial_dec()(
        #[trigger] (serial_enc()(s[i]) + tail),
    ) == Ok::<(u64, Seq<u8>), SnapshotError>((s[i], tail)) by {
        wire::lemma_take_u64(s[i], tail);
    }
    lemma_list_round_trip(serial_enc(), serial_dec(), s, MAX_REVOKED_SERIALS as int, t4);
    lemma_blobs_round_trip(c.apps, MAX_APPS as int, t5);
    lemma_blobs_round_trip(c.app_bindings, MAX_BINDINGS as int, rest);
}

pub(crate) proof fn lemma_head_fields(c: Config, rest: Seq<u8>)
    ensures
        ({
            let r = head_bytes(c) + rest;
            &&& r.len() >= SNAPSHOT_HEAD_LEN
            &&& r.subrange(SNAPSHOT_HEAD_LEN as int, r.len() as int) == rest
            &&& NetworkId(wire::array_at::<32>(r, 0)) == c.network_id
            &&& wire::u64_at(r, 32) == c.epoch
            &&& wire::u64_at(r, 40) == c.revision
            &&& wire::array_at::<32>(r, 48) == c.previous_hash
            &&& wire::u64_at(r, 80) == c.issued_at_ms
            &&& wire::u64_at(r, 88) == c.expires_at_ms
        }),
{
    let r = head_bytes(c) + rest;
    wire::lemma_pow256_values();
    wire::lemma_from_be_of_be(c.epoch as nat, 8);
    wire::lemma_from_be_of_be(c.revision as nat, 8);
    wire::lemma_from_be_of_be(c.issued_at_ms as nat, 8);
    wire::lemma_from_be_of_be(c.expires_at_ms as nat, 8);
    wire::lemma_array_of(c.network_id.0);
    wire::lemma_array_of(c.previous_hash);
    assert(r.subrange(0, 32) =~= c.network_id@);
    assert(r.subrange(32, 40) =~= wire::be(c.epoch as nat, 8));
    assert(r.subrange(40, 48) =~= wire::be(c.revision as nat, 8));
    assert(r.subrange(48, 80) =~= c.previous_hash@);
    assert(r.subrange(80, 88) =~= wire::be(c.issued_at_ms as nat, 8));
    assert(r.subrange(88, 96) =~= wire::be(c.expires_at_ms as nat, 8));
    assert(r.subrange(SNAPSHOT_HEAD_LEN as int, r.len() as int) =~= rest);
}

pub(crate) proof fn lemma_tail_fields(c: Config)
    ensures
        ({
            let t = tail_bytes(c);
            &&& t.len() == SNAPSHOT_TAIL_LEN
            &&& wire::array_at::<32>(t, 0) == c.epoch_secrets.presence_index_seed
            &&& wire::array_at::<32>(t, 32) == c.epoch_secrets.presence_encryption_seed
            &&& wire::array_at::<32>(t, 64) == c.epoch_secrets.lan_discovery_seed
            &&& wire::array_at::<32>(t, 96) == c.epoch_secrets.relay_access_seed
            &&& wire::u32_at(t, 128) == c.policies.flags
            &&& wire::u16_at(t, 132) == c.policies.max_members
            &&& wire::u16_at(t, 134) == c.policies.max_services_per_binding
        }),
{
    let t = tail_bytes(c);
    wire::lemma_pow256_values();
    wire::lemma_from_be_of_be(c.policies.flags as nat, 4);
    wire::lemma_from_be_of_be(c.policies.max_members as nat, 2);
    wire::lemma_from_be_of_be(c.policies.max_services_per_binding as nat, 2);
    wire::lemma_array_of(c.epoch_secrets.presence_index_seed);
    wire::lemma_array_of(c.epoch_secrets.presence_encryption_seed);
    wire::lemma_array_of(c.epoch_secrets.lan_discovery_seed);
    wire::lemma_array_of(c.epoch_secrets.relay_access_seed);
    assert(t.subrange(0, 32) =~= c.epoch_secrets.presence_index_seed@);
    assert(t.subrange(32, 64) =~= c.epoch_secrets.presence_encryption_seed@);
    assert(t.subrange(64, 96) =~= c.epoch_secrets.lan_discovery_seed@);
    assert(t.subrange(96, 128) =~= c.epoch_secrets.relay_access_seed@);
    assert(t.subrange(128, 132) =~= wire::be(c.policies.flags as nat, 4));
    assert(t.subrange(132, 134) =~= wire::be(c.policies.max_members as nat, 2));
    assert(t.subrange(134, 136) =~= wire::be(c.policies.max_services_per_binding as nat, 2));
}

pub(crate) proof fn lemma_descriptors_round_trip(c: Config)
    requires
        counts_ok(c),
        urls_ok(c),
    ensures
        ({
            let after = list_bytes(service_enc(), c.presence_services) + tail_bytes(c);
            &&& p_list(relay_dec(), descriptors_bytes(c), MAX_RELAYS as int) == Ok::<
                (Seq<Relay>, Seq<u8>),
                SnapshotError,
            >((c.relays, after))
            &&& p_list(service_dec(), after, MAX_PRESENCE_SERVICES as int) == Ok::<
                (Seq<PresenceService>, Seq<u8>),
                SnapshotError,
            >((c.presence_services, tail_bytes(c)))
        }),
{
    let after = list_bytes(service_enc(), c.presence_services) + tail_bytes(c);
    let s = c.relays;
    assert forall|i: int, tail: Seq<u8>| 0 <= i < s.len() implies relay_dec()(
        #[trigger] (relay_enc()(s[i]) + tail),
    ) == Ok::<(Relay, Seq<u8>), SnapshotError>((s[i], tail)) by {
        lemma_relay_round_trip(s[i], tail);
    }
    lemma_list_round_trip(relay_enc(), relay_dec(), s, MAX_RELAYS as int, after);
    let s = c.presence_services;
    assert forall|i: int, tail: Seq<u8>| 0 <= i < s.len() implies service_dec()(
        #[trigger] (service_enc()(s[i]) + tail),
    ) == Ok::<(PresenceService, Seq<u8>), SnapshotError>((s[i], tail)) by {
        lemma_service_round_trip(s[i], tail);
    }
    lemma_list_round_trip(
        service_enc(),
        service_dec(),
        s,
        MAX_PRESENCE_SERVICES as int,
        tail_bytes(c),
    );
}

/// Whether every name record has a well-formed name.
pub open spec fn names_ok(c: Config) -> bool {
    forall|i: int|
        0 <= i < c.virtual_dns.len() ==> virtual_name::name_ok(
            wire::utf8((#[trigger] c.virtual_dns[i]).name),
        )
}

/// A configuration that can be written is read back unchanged.
pub proof fn law_config_round_trip(c: Config)
    requires
        shape_verdict(c) is Ok,
        urls_ok(c),
        names_ok(c),
    ensures
        read_config(config_bytes(c)) == Ok::<Config, SnapshotError>(c),
{
    let b = config_bytes(c);
    let named = list_bytes(dns_enc(), c.virtual_dns) + descriptors_bytes(c);
    let r = head_bytes(c) + credentials_bytes(c, named);
    assert(b.subrange(0, 8) =~= SNAPSHOT_MAGIC_V2@);
    assert(b.subrange(8, b.len() as int) =~= r);
    lemma_head_fields(c, credentials_bytes(c, named));
    lemma_credentials_round_trip(c, named);
    let s = c.virtual_dns;
    assert forall|i: int, tail: Seq<u8>| 0 <= i < s.len() implies dns_dec()(
        #[trigger] (dns_enc()(s[i]) + tail),
    ) == Ok::<(DnsRecord, Seq<u8>), SnapshotError>((s[i], tail)) by {
        lemma_dns_round_trip(s[i], tail);
    }
    lemma_list_round_trip(
        dns_enc(),
        dns_dec(),
        s,
        MAX_VIRTUAL_DNS_RECORDS as int,
        descriptors_bytes(c),
    );
    lemma_descriptors_round_trip(c);
    lemma_tail_fields(c);
}

/// A configuration without virtual names that was written in the format that has none is read
/// back unchanged.
pub proof fn law_legacy_config_round_trip(c: Config)
    requires
        shape_verdict(c) is Ok,
        urls_ok(c),
        c.virtual_dns.len() == 0,
    ensures
        read_config(legacy_config_bytes(c)) == Ok::<Config, SnapshotError>(c),
{
    let b = legacy_config_bytes(c);
    let rest = descriptors_bytes(c);
    let r = head_bytes(c) + credentials_bytes(c, rest);
    assert(b.subrange(0, 8) =~= SNAPSHOT_MAGIC_V1@);
    assert(SNAPSHOT_MAGIC_V1@[7] != SNAPSHOT_MAGIC_V2@[7]);
    assert(b.subrange(0, 8)[7] != SNAPSHOT_MAGIC_V2@[7]);
    assert(b.subrange(8, b.len() as int) =~= r);
    assert(c.virtual_dns =~= Seq::<DnsRecord>::empty());
    lemma_head_fields(c, credentials_bytes(c, rest));
    lemma_credentials_round_trip(c, rest);
    lemma_descriptors_round_trip(c);
    lemma_tail_fields(c);
}

fn check_blobs(values: &Vec<Vec<u8>>) -> (ok: bool)
    ensures
        ok == blobs_ok(blobs(values@)),
{
    let mut i: usize = 0;
    while i < values.len()
        invariant
            i <= values.len(),
            forall|j: int| 0 <= j < i ==> blob_ok(#[trigger] blobs(values@)[j]),
        decreases values.len() - i,
    {
        if values[i].len() == 0 || values[i].len() > MAX_CREDENTIAL_BYTES {
            assert(!blob_ok(blobs(values@)[i as int]));
            return false;
        }
        i += 1;
    }
    true
}

fn check_certificates(values: &Vec<AdminKey>) -> (ok: bool)
    ensures
        ok == blobs_ok(certificates(values@)),
{
    let mut i: usize = 0;
    while i < values.len()
        invariant
            i <= values.len(),
            forall|j: int| 0 <= j < i ==> blob_ok(#[trigger] certificates(values@)[j]),
        decreases values.len() - i,
    {
        if values[i].certificate.len() == 0 || values[i].certificate.len() > MAX_CREDENTIAL_BYTES {
            assert(!blob_ok(certificates(values@)[i as int]));
            return false;
        }
        i += 1;
    }
    true
}

/// Whether an address is ASCII, not empty, and not too long.
pub(crate) fn validate_url(url: &str) -> (valid: Result<(), SnapshotError>)
    ensures
        valid == (if url_ok(url@) {
            Ok(())
        } else {
            Err::<(), SnapshotError>(SnapshotError::InvalidLength)
        }),
{
    let len: usize = url.as_bytes().len();
    if len == 0 || len > MAX_URL_BYTES || !url.is_ascii() {
        Err(SnapshotError::InvalidLength)
    } else {
        Ok(())
    }
}

fn push_blob(out: &mut Vec<u8>, value: &[u8])
    ensures
        final(out)@ == old(out)@ + blob_bytes(value@),
{
    let ghost before = out@;
    push_be(out, value.len() as u64, 2);
    push_bytes(out, value);
    assert(out@ =~= before + blob_bytes(value@));
}

fn push_blobs(out: &mut Vec<u8>, values: &Vec<Vec<u8>>)
    ensures
        final(out)@ == old(out)@ + blobs_bytes(blobs(values@)),
{
    let ghost before = out@;
    let ghost all = blobs(values@);
    push_be(out, values.len() as u64, 2);
    let ghost head = out@;
    let mut i: usize = 0;
    assert(head + wire::items_bytes(blob_enc(), all.take(0)) =~= head);
    while i < values.len()
        invariant
            i <= values.len(),
            all == blobs(values@),
            out@ == head + wire::items_bytes(blob_enc(), all.take(i as int)),
        decreases values.len() - i,
    {
        push_blob(out, values[i].as_slice());
        proof {
            assert(all.take(i + 1).drop_last() =~= all.take(i as int));
            wire::lemma_assoc(
                head,
                wire::items_bytes(blob_enc(), all.take(i as int)),
                blob_bytes(all[i as int]),
            );
        }
        i += 1;
    }
    assert(all.take(i as int) =~= all);
    assert(out@ =~= before + blobs_bytes(all));
}

fn push_certificates(out: &mut Vec<u8>, values: &Vec<AdminKey>)
    ensures
        final(out)@ == old(out)@ + blobs_bytes(certificates(values@)),
{
    let ghost before = out@;
    let ghost all = certificates(values@);
    push_be(out, values.len() as u64, 2);
    let ghost head = out@;
    let mut i: usize = 0;
    assert(head + wire::items_bytes(blob_enc(), all.take(0)) =~= head);
    while i < values.len()
        invariant
            i <= values.len(),
            all == certificates(values@),
            out@ == head + wire::items_bytes(blob_enc(), all.take(i as int)),
        decreases values.len() - i,
    {
        push_blob(out, values[i].certificate.as_slice());
        proof {
            assert(all.take(i + 1).drop_last() =~= all.take(i as int));
            wire::lemma_assoc(
                head,
                wire::items_bytes(blob_enc(), all.take(i as int)),
                blob_bytes(all[i as int]),
            );
        }
        i += 1;
    }
    assert(all.take(i as int) =~= all);
    assert(out@ =~= before + blobs_bytes(all));
}

fn push_serials(out: &mut Vec<u8>, values: &Vec<u64>)
    ensures
        final(out)@ == old(out)@ + serials_bytes(values@),
{
    let ghost before = out@;
    let ghost all = values@;
    push_be(out, values.len() as u64, 2);
    let ghost head = out@;
    let mut i: usize = 0;
    assert(head + wire::items_bytes(serial_enc(), all.take(0)) =~= head);
    while i < values.len()
        invariant
            i <= values.len(),
            all == values@,
            out@ == head + wire::items_bytes(serial_enc(), all.take(i as int)),
        decreases values.len() - i,
    {
        push_be(out, values[i], 8);
        proof {
            assert(all.take(i + 1).drop_last() =~= all.take(i as int));
            wire::lemma_assoc(
                head,
                wire::items_bytes(serial_enc(), all.take(i as int)),
                wire::be(all[i as int] as nat, 8),
            );
        }
        i += 1;
    }
    assert(all.take(i as int) =~= all);
    assert(out@ =~= before + serials_bytes(all));
}

/// Appends a text, if it is one that may be written.
fn push_string(out: &mut Vec<u8>, value: &str) -> (pushed: Result<(), SnapshotError>)
    ensures
        match pushed {
            Ok(()) => url_ok(value@) && final(out)@ == old(out)@ + string_bytes(value@),
            Err(error) => !url_ok(value@) && error == SnapshotError::InvalidLength,
        },
{
    validate_url(value)?;
    push_blob(out, value.as_bytes());
    Ok(())
}

fn push_dns(out: &mut Vec<u8>, values: &Vec<VirtualDnsRecord>) -> (pushed: Result<
    (),
    SnapshotError,
>)
    ensures
        match pushed {
            Ok(()) => final(out)@ == old(out)@ + list_bytes(dns_enc(), dns_records(values@)) && (
            forall|i: int| 0 <= i < values@.len() ==> url_ok(#[trigger] values@[i]@.name)),
            Err(error) => error == SnapshotError::InvalidLength && (exists|i: int|
                0 <= i < values@.len() && !url_ok(#[trigger] values@[i]@.name)),
        },
{
    let ghost before = out@;
    let ghost all = dns_records(values@);
    push_be(out, values.len() as u64, 2);
    let ghost head = out@;
    let mut i: usize = 0;
    assert(head + wire::items_bytes(dns_enc(), all.take(0)) =~= head);
    while i < values.len()
        invariant
            i <= values.len(),
            all == dns_records(values@),
            out@ == head + wire::items_bytes(dns_enc(), all.take(i as int)),
            forall|j: int| 0 <= j < i ==> url_ok(#[trigger] values@[j]@.name),
        decreases values.len() - i,
    {
        let ghost start = out@;
        assert(values@[i as int]@.name == values@[i as int].name@);
        push_string(out, values[i].name.as_str())?;
        push_bytes(out, values[i].app_addr.as_bytes().as_slice());
        push_be(out, values[i].expires_at_ms, 8);
        proof {
            let d = all[i as int];
            assert(out@ =~= start + dns_bytes(d));
            assert(all.take(i + 1).drop_last() =~= all.take(i as int));
            wire::lemma_assoc(head, wire::items_bytes(dns_enc(), all.take(i as int)), dns_bytes(d));
        }
        i += 1;
    }
    assert(all.take(i as int) =~= all);
    assert(out@ =~= before + list_bytes(dns_enc(), all));
    Ok(())
}

fn push_relays(out: &mut Vec<u8>, values: &Vec<RelayDescriptor>) -> (pushed: Result<
    (),
    SnapshotError,
>)
    ensures
        match pushed {
            Ok(()) => final(out)@ == old(out)@ + list_bytes(relay_enc(), relays(values@)) && (
            forall|i: int| 0 <= i < values@.len() ==> url_ok(#[trigger] values@[i]@.url)),
            Err(error) => error == SnapshotError::InvalidLength && (exists|i: int|
                0 <= i < values@.len() && !url_ok(#[trigger] values@[i]@.url)),
        },
{
    let ghost before = out@;
    let ghost all = relays(values@);
    push_be(out, values.len() as u64, 2);
    let ghost head = out@;
    let mut i: usize = 0;
    assert(head + wire::items_bytes(relay_enc(), all.take(0)) =~= head);
    while i < values.len()
        invariant
            i <= values.len(),
            all == relays(values@),
            out@ == head + wire::items_bytes(relay_enc(), all.take(i as int)),
            forall|j: int| 0 <= j < i ==> url_ok(#[trigger] values@[j]@.url),
        decreases values.len() - i,
    {
        let ghost start = out@;
        push_bytes(out, values[i].endpoint_id.as_slice());
        assert(values@[i as int]@.url == values@[i as int].url@);
        push_string(out, values[i].url.as_str())?;
        push_be(out, values[i].roles.bits() as u64, 4);
        push_be(out, values[i].expires_at_ms, 8);
        proof {
            let d = all[i as int];
            assert(out@ =~= start + relay_bytes(d));
            assert(all.take(i + 1).drop_last() =~= all.take(i as int));
            wire::lemma_assoc(head, wire::items_bytes(relay_enc(), all.take(i as int)), relay_bytes(d));
        }
        i += 1;
    }
    assert(all.take(i as int) =~= all);
    assert(out@ =~= before + list_bytes(relay_enc(), all));
    Ok(())
}

fn push_services(out: &mut Vec<u8>, values: &Vec<PresenceServiceDescriptor>) -> (pushed: Result<
    (),
    SnapshotError,
>)
    ensures
        match pushed {
            Ok(()) => final(out)@ == old(out)@ + list_bytes(
                service_enc(),
                presence_services(values@),
            ) && (forall|i: int| 0 <= i < values@.len() ==> url_ok(#[trigger] values@[i]@.url)),
            Err(error) => error == SnapshotError::InvalidLength && (exists|i: int|
                0 <= i < values@.len() && !url_ok(#[trigger] values@[i]@.url)),
        },
{
    let ghost before = out@;
    let ghost all = presence_services(values@);
    push_be(out, values.len() as u64, 2);
    let ghost head = out@;
    let mut i: usize = 0;
    assert(head + wire::items_bytes(service_enc(), all.take(0)) =~= head);
    while i < values.len()
        invariant
            i <= values.len(),
            all == presence_services(values@),
            out@ == head + wire::items_bytes(service_enc(), all.take(i as int)),
            forall|j: int| 0 <= j < i ==> url_ok(#[trigger] values@[j]@.url),
        decreases values.len() - i,
    {
        let ghost start = out@;
        push_bytes(out, values[i].endpoint_id.as_slice());
        assert(values@[i as int]@.url == values@[i as int].url@);
        push_string(out, values[i].url.as_str())?;
        push_be(out, values[i].expires_at_ms, 8);
        proof {
            let d = all[i as int];
            assert(out@ =~= start + service_bytes(d));
            assert(all.take(i + 1).drop_last() =~= all.take(i as int));
            wire::lemma_assoc(head, wire::items_bytes(service_enc(), all.take(i as int)), service_bytes(d));
        }
        i += 1;
    }
    assert(all.take(i as int) =~= all);
    assert(out@ =~= before + list_bytes(service_enc(), all));
    Ok(())
}

fn count(cursor: &mut Cursor<'_>, maximum: usize) -> (n: Result<usize, SnapshotError>)
    ensures
        match p_count(old(cursor).rest(), maximum as int) {
            Ok((value, rest)) => n matches Ok(n) && n == value && final(cursor).rest() == rest,
            Err(reason) => n matches Err(error) && error == reason,
        },
{
    match cursor.u16() {
        Some(n) => if n as usize > maximum {
            Err(SnapshotError::InvalidLength)
        } else {
            Ok(n as usize)
        },
        None => Err(SnapshotError::MalformedWire),
    }
}

fn blob(cursor: &mut Cursor<'_>) -> (blob: Result<Vec<u8>, SnapshotError>)
    ensures
        match p_blob(old(cursor).rest()) {
            Ok((value, rest)) => blob matches Ok(blob) && blob@ == value && final(cursor).rest()
                == rest,
            Err(reason) => blob matches Err(error) && error == reason,
        },
{
    let len: usize = match cursor.u16() {
        Some(n) => n as usize,
        None => {
            return Err(SnapshotError::MalformedWire);
        },
    };
    if len == 0 || len > MAX_CREDENTIAL_BYTES {
        return Err(SnapshotError::InvalidLength);
    }
    match cursor.take(len) {
        Some(bytes) => {
            let copy: Vec<u8> = copy_range(bytes, 0, bytes.len());
            assert(copy@ =~= bytes@);
            Ok(copy)
        },
        None => Err(SnapshotError::MalformedWire),
    }
}

fn blob_list(cursor: &mut Cursor<'_>, maximum: usize) -> (list: Result<Vec<Vec<u8>>, SnapshotError>)
    ensures
        match p_blobs(old(cursor).rest(), maximum as int) {
            Ok((values, rest)) => list matches Ok(list) && blobs(list@) == values
                && final(cursor).rest() == rest,
            Err(reason) => list matches Err(error) && error == reason,
        },
{
    let n: usize = count(cursor, maximum)?;
    let ghost start = cursor.rest();
    let mut list: Vec<Vec<u8>> = Vec::new();
    let mut i: usize = 0;
    assert(blobs(list@) =~= Seq::<Seq<u8>>::empty());
    while i < n
        invariant
            i <= n,
            wire::p_items(blob_dec(), start, i as nat) == Ok::<(Seq<Seq<u8>>, Seq<u8>), SnapshotError>(
                (blobs(list@), cursor.rest()),
            ),
            p_blobs(old(cursor).rest(), maximum as int) == wire::p_items(blob_dec(), start, n as nat),
        decreases n - i,
    {
        let ghost before = list@;
        match blob(cursor) {
            Ok(value) => {
                list.push(value);
                assert(blobs(list@) =~= blobs(before).push(value@));
            },
            Err(error) => {
                proof {
                    wire::lemma_items_error(blob_dec(), start, (i + 1) as nat, n as nat);
                }
                return Err(error);
            },
        }
        i += 1;
    }
    Ok(list)
}

fn certificate_list(cursor: &mut Cursor<'_>) -> (list: Result<Vec<AdminKey>, SnapshotError>)
    ensures
        match p_blobs(old(cursor).rest(), MAX_ADMIN_KEYS as int) {
            Ok((values, rest)) => list matches Ok(list) && certificates(list@) == values
                && final(cursor).rest() == rest,
            Err(reason) => list matches Err(error) && error == reason,
        },
{
    let n: usize = count(cursor, MAX_ADMIN_KEYS)?;
    let ghost start = cursor.rest();
    let mut list: Vec<AdminKey> = Vec::new();
    let mut i: usize = 0;
    assert(certificates(list@) =~= Seq::<Seq<u8>>::empty());
    while i < n
        invariant
            i <= n,
            wire::p_items(blob_dec(), start, i as nat) == Ok::<(Seq<Seq<u8>>, Seq<u8>), SnapshotError>(
                (certificates(list@), cursor.rest()),
            ),
            p_blobs(old(cursor).rest(), MAX_ADMIN_KEYS as int) == wire::p_items(
                blob_dec(),
                start,
                n as nat,
            ),
        decreases n - i,
    {
        let ghost before = list@;
        match blob(cursor) {
            Ok(value) => {
                list.push(AdminKey { certificate: value });
                assert(certificates(list@) =~= certificates(before).push(value@));
            },
            Err(error) => {
                proof {
                    wire::lemma_items_error(blob_dec(), start, (i + 1) as nat, n as nat);
                }
                return Err(error);
            },
        }
        i += 1;
    }
    Ok(list)
}

fn serial_list(cursor: &mut Cursor<'_>) -> (list: Result<Vec<u64>, SnapshotError>)
    ensures
        match p_list(serial_dec(), old(cursor).rest(), MAX_REVOKED_SERIALS as int) {
            Ok((values, rest)) => list matches Ok(list) && list@ == values && final(cursor).rest()
                == rest,
            Err(reason) => list matches Err(error) && error == reason,
        },
{
    let n: usize = count(cursor, MAX_REVOKED_SERIALS)?;
    let ghost start = cursor.rest();
    let mut list: Vec<u64> = Vec::new();
    let mut i: usize = 0;
    while i < n
        invariant
            i <= n,
            wire::p_items(serial_dec(), start, i as nat) == Ok::<(Seq<u64>, Seq<u8>), SnapshotError>(
                (list@, cursor.rest()),
            ),
            p_list(serial_dec(), old(cursor).rest(), MAX_REVOKED_SERIALS as int) == wire::p_items(
                serial_dec(),
                start,
                n as nat,
            ),
        decreases n - i,
    {
        match cursor.u64() {
            Some(value) => list.push(value),
            None => {
                proof {
                    wire::lemma_items_error(serial_dec(), start, (i + 1) as nat, n as nat);
                }
                return Err(SnapshotError::MalformedWire);
            },
        }
        i += 1;
    }
    Ok(list)
}

fn string(cursor: &mut Cursor<'_>) -> (text: Result<String, SnapshotError>)
    ensures
        match p_string(old(cursor).rest()) {
            Ok((value, rest)) => text matches Ok(text) && text@ == value && final(cursor).rest()
                == rest,
            Err(reason) => text matches Err(error) && error == reason,
        },
{
    let len: usize = match cursor.u16() {
        Some(n) => n as usize,
        None => {
            return Err(SnapshotError::MalformedWire);
        },
    };
    if len == 0 || len > MAX_URL_BYTES {
        return Err(SnapshotError::InvalidLength);
    }
    let bytes: &[u8] = match cursor.take(len) {
        Some(bytes) => bytes,
        None => {
            return Err(SnapshotError::MalformedWire);
        },
    };
    match utf8_text(bytes) {
        Some(text) => {
            proof {
                vstd::utf8::encode_utf8_valid_utf8(text@);
                vstd::utf8::encode_utf8_decode_utf8(text@);
            }
            validate_url(text.as_str())?;
            Ok(text)
        },
        None => Err(SnapshotError::MalformedWire),
    }
}

fn dns_record(cursor: &mut Cursor<'_>) -> (record: Result<VirtualDnsRecord, SnapshotError>)
    ensures
        match p_dns(old(cursor).rest()) {
            Ok((value, rest)) => record matches Ok(record) && record@ == value
                && final(cursor).rest() == rest,
            Err(reason) => record matches Err(error) && error == reason,
        },
{
    let text: String = string(cursor)?;
    let name: VirtualName = match VirtualName::new(text) {
        Ok(name) => name,
        Err(_) => {
            return Err(SnapshotError::InvalidVirtualName);
        },
    };
    let app: [u8; 32] = match cursor.array::<32>() {
        Some(app) => app,
        None => {
            return Err(SnapshotError::MalformedWire);
        },
    };
    match cursor.u64() {
        Some(expires_at_ms) => Ok(
            VirtualDnsRecord { name, app_addr: AppAddr::from_bytes(app), expires_at_ms },
        ),
        None => Err(SnapshotError::MalformedWire),
    }
}

fn dns_list(cursor: &mut Cursor<'_>) -> (list: Result<Vec<VirtualDnsRecord>, SnapshotError>)
    ensures
        match p_list(dns_dec(), old(cursor).rest(), MAX_VIRTUAL_DNS_RECORDS as int) {
            Ok((values, rest)) => list matches Ok(list) && dns_records(list@) == values
                && final(cursor).rest() == rest,
            Err(reason) => list matches Err(error) && error == reason,
        },
{
    let n: usize = count(cursor, MAX_VIRTUAL_DNS_RECORDS)?;
    let ghost start = cursor.rest();
    let mut list: Vec<VirtualDnsRecord> = Vec::new();
    let mut i: usize = 0;
    assert(dns_records(list@) =~= Seq::<DnsRecord>::empty());
    while i < n
        invariant
            i <= n,
            wire::p_items(dns_dec(), start, i as nat) == Ok::<(Seq<DnsRecord>, Seq<u8>), SnapshotError>(
                (dns_records(list@), cursor.rest()),
            ),
            p_list(dns_dec(), old(cursor).rest(), MAX_VIRTUAL_DNS_RECORDS as int) == wire::p_items(
                dns_dec(),
                start,
                n as nat,
            ),
        decreases n - i,
    {
        let ghost before = list@;
        match dns_record(cursor) {
            Ok(value) => {
                list.push(value);
                assert(dns_records(list@) =~= dns_records(before).push(value@));
            },
            Err(error) => {
                proof {
                    wire::lemma_items_error(dns_dec(), start, (i + 1) as nat, n as nat);
                }
                return Err(error);
            },
        }
        i += 1;
    }
    Ok(list)
}

fn relay(cursor: &mut Cursor<'_>) -> (relay: Result<RelayDescriptor, SnapshotError>)
    ensures
        match p_relay(old(cursor).rest()) {
            Ok((value, rest)) => relay matches Ok(relay) && relay@ == value && final(cursor).rest()
                == rest,
            Err(reason) => relay matches Err(error) && error == reason,
        },
{
    let endpoint_id: [u8; 32] = match cursor.array::<32>() {
        Some(endpoint_id) => endpoint_id,
        None => {
            return Err(SnapshotError::MalformedWire);
        },
    };
    let url: String = string(cursor)?;
    let roles: u32 = match cursor.u32() {
        Some(roles) => roles,
        None => {
            return Err(SnapshotError::MalformedWire);
        },
    };
    match cursor.u64() {
        Some(expires_at_ms) => Ok(
            RelayDescriptor { endpoint_id, url, roles: RelayRoles::from_bits(roles), expires_at_ms },
        ),
        None => Err(SnapshotError::MalformedWire),
    }
}

fn relay_list(cursor: &mut Cursor<'_>) -> (list: Result<Vec<RelayDescriptor>, SnapshotError>)
    ensures
        match p_list(relay_dec(), old(cursor).rest(), MAX_RELAYS as int) {
            Ok((values, rest)) => list matches Ok(list) && relays(list@) == values
                && final(cursor).rest() == rest,
            Err(reason) => list matches Err(error) && error == reason,
        },
{
    let n: usize = count(cursor, MAX_RELAYS)?;
    let ghost start = cursor.rest();
    let mut list: Vec<RelayDescriptor> = Vec::new();
    let mut i: usize = 0;
    assert(relays(list@) =~= Seq::<Relay>::empty());
    while i < n
        invariant
            i <= n,
            wire::p_items(relay_dec(), start, i as nat) == Ok::<(Seq<Relay>, Seq<u8>), SnapshotError>(
                (relays(list@), cursor.rest()),
            ),
            p_list(relay_dec(), old(cursor).rest(), MAX_RELAYS as int) == wire::p_items(
                relay_dec(),
                start,
                n as nat,
            ),
        decreases n - i,
    {
        let ghost before = list@;
        match relay(cursor) {
            Ok(value) => {
                list.push(value);
                assert(relays(list@) =~= relays(before).push(value@));
            },
            Err(error) => {
                proof {
                    wire::lemma_items_error(relay_dec(), start, (i + 1) as nat, n as nat);
                }
                return Err(error);
            },
        }
        i += 1;
    }
    Ok(list)
}

fn service(cursor: &mut Cursor<'_>) -> (service: Result<PresenceServiceDescriptor, SnapshotError>)
    ensures
        match p_service(old(cursor).rest()) {
            Ok((value, rest)) => service matches Ok(service) && service@ == value
                && final(cursor).rest() == rest,
            Err(reason) => service matches Err(error) && error == reason,
        },
{
    let endpoint_id: [u8; 32] = match cursor.array::<32>() {
        Some(endpoint_id) => endpoint_id,
        None => {
            return Err(SnapshotError::MalformedWire);
        },
    };
    let url: String = string(cursor)?;
    match cursor.u64() {
        Some(expires_at_ms) => Ok(PresenceServiceDescriptor { endpoint_id, url, expires_at_ms }),
        None => Err(SnapshotError::MalformedWire),
    }
}

fn service_list(cursor: &mut Cursor<'_>) -> (list: Result<
    Vec<PresenceServiceDescriptor>,
    SnapshotError,
>)
    ensures
        match p_list(service_dec(), old(cursor).rest(), MAX_PRESENCE_SERVICES as int) {
            Ok((values, rest)) => list matches Ok(list) && presence_services(list@) == values
                && final(cursor).rest() == rest,
            Err(reason) => list matches Err(error) && error == reason,
        },
{
    let n: usize = count(cursor, MAX_PRESENCE_SERVICES)?;
    let ghost start = cursor.rest();
    let mut list: Vec<PresenceServiceDescriptor> = Vec::new();
    let mut i: usize = 0;
    assert(presence_services(list@) =~= Seq::<PresenceService>::empty());
    while i < n
        invariant
            i <= n,
            wire::p_items(service_dec(), start, i as nat) == Ok::<
                (Seq<PresenceService>, Seq<u8>),
                SnapshotError,
            >((presence_services(list@), cursor.rest())),
            p_list(service_dec(), old(cursor).rest(), MAX_PRESENCE_SERVICES as int) == wire::p_items(
                service_dec(),
                start,
                n as nat,
            ),
        decreases n - i,
    {
        let ghost before = list@;
        match service(cursor) {
            Ok(value) => {
                list.push(value);
                assert(presence_services(list@) =~= presence_services(before).push(value@));
            },
            Err(error) => {
                proof {
                    wire::lemma_items_error(service_dec(), start, (i + 1) as nat, n as nat);
                }
                return Err(error);
            },
        }
        i += 1;
    }
    Ok(list)
}

struct CredentialLists {
    admin_keys: Vec<AdminKey>,
    members: Vec<Vec<u8>>,
    endpoint_bindings: Vec<Vec<u8>>,
    revoked_serials: Vec<u64>,
    apps: Vec<Vec<u8>>,
    app_bindings: Vec<Vec<u8>>,
}

impl View for CredentialLists {
    type V = Credentials;

    closed spec fn view(&self) -> Credentials {
        Credentials {
            admin_keys: certificates(self.admin_keys@),
            members: blobs(self.members@),
            endpoint_bindings: blobs(self.endpoint_bindings@),
            revoked_serials: self.revoked_serials@,
            apps: blobs(self.apps@),
            app_bindings: blobs(self.app_bindings@),
        }
    }
}

fn credential_lists(cursor: &mut Cursor<'_>) -> (lists: Result<CredentialLists, SnapshotError>)
    ensures
        match p_credentials(old(cursor).rest()) {
            Ok((values, rest)) => lists matches Ok(lists) && lists@ == values
                && final(cursor).rest() == rest,
            Err(reason) => lists matches Err(error) && error == reason,
        },
{
    let admin_keys: Vec<AdminKey> = certificate_list(cursor)?;
    let members: Vec<Vec<u8>> = blob_list(cursor, MAX_MEMBERS)?;
    let endpoint_bindings: Vec<Vec<u8>> = blob_list(cursor, MAX_MEMBERS)?;
    let revoked_serials: Vec<u64> = serial_list(cursor)?;
    let apps: Vec<Vec<u8>> = blob_list(cursor, MAX_APPS)?;
    let app_bindings: Vec<Vec<u8>> = blob_list(cursor, MAX_BINDINGS)?;
    Ok(
        CredentialLists {
            admin_keys,
            members,
            endpoint_bindings,
            revoked_serials,
            apps,
            app_bindings,
        },
    )
}

fn name_list(cursor: &mut Cursor<'_>, named: bool) -> (list: Result<
    Vec<VirtualDnsRecord>,
    SnapshotError,
>)
    ensures
        match p_names(old(cursor).rest(), named) {
            Ok((values, rest)) => list matches Ok(list) && dns_records(list@) == values
                && final(cursor).rest() == rest,
            Err(reason) => list matches Err(error) && error == reason,
        },
{
    if named {
        dns_list(cursor)
    } else {
        let list: Vec<VirtualDnsRecord> = Vec::new();
        assert(dns_records(list@) =~= Seq::<DnsRecord>::empty());
        Ok(list)
    }
}

impl NetworkConfigV1 {
    /// Checks the bounds that every configuration keeps to.
    pub(crate) fn validate_shape(&self) -> (valid: Result<(), SnapshotError>)
        ensures
            valid == shape_verdict(self@),
    {
        if self.expires_at_ms <= self.issued_at_ms {
            return Err(SnapshotError::InvalidValidityWindow);
        }
        if self.admin_keys.len() > MAX_ADMIN_KEYS || self.members.len() > MAX_MEMBERS
            || self.endpoint_bindings.len() > MAX_MEMBERS || self.revoked_serials.len()
            > MAX_REVOKED_SERIALS || self.apps.len() > MAX_APPS || self.app_bindings.len()
            > MAX_BINDINGS || self.virtual_dns.len() > MAX_VIRTUAL_DNS_RECORDS || self.relays.len()
            > MAX_RELAYS || self.presence_services.len() > MAX_PRESENCE_SERVICES {
            return Err(SnapshotError::InvalidLength);
        }
        if !check_certificates(&self.admin_keys) || !check_blobs(&self.members) || !check_blobs(
            &self.endpoint_bindings,
        ) || !check_blobs(&self.apps) || !check_blobs(&self.app_bindings) {
            return Err(SnapshotError::InvalidLength);
        }
        if self.policies.max_members == 0 || self.policies.max_members as usize > MAX_MEMBERS
            || self.policies.max_services_per_binding == 0 || self.policies.max_services_per_binding
            > MAX_POLICY_SERVICES {
            return Err(SnapshotError::PolicyLimitExceeded);
        }
        Ok(())
    }

    fn push_head(&self, out: &mut Vec<u8>)
        ensures
            final(out)@ == old(out)@ + head_bytes(self@),
    {
        let ghost before = out@;
        push_bytes(out, self.network_id.as_bytes().as_slice());
        push_be(out, self.epoch, 8);
        push_be(out, self.revision, 8);
        push_bytes(out, self.previous_hash.as_slice());
        push_be(out, self.issued_at_ms, 8);
        push_be(out, self.expires_at_ms, 8);
        assert(out@ =~= before + head_bytes(self@));
    }

    fn push_credentials(&self, out: &mut Vec<u8>)
        ensures
            forall|rest: Seq<u8>|
                final(out)@ + rest == old(out)@ + #[trigger] credentials_bytes(self@, rest),
    {
        let ghost c = self@;
        let ghost o0 = out@;
        push_certificates(out, &self.admin_keys);
        let ghost o1 = out@;
        push_blobs(out, &self.members);
        let ghost o2 = out@;
        push_blobs(out, &self.endpoint_bindings);
        let ghost o3 = out@;
        push_serials(out, &self.revoked_serials);
        let ghost o4 = out@;
        push_blobs(out, &self.apps);
        let ghost o5 = out@;
        push_blobs(out, &self.app_bindings);
        assert forall|rest: Seq<u8>| out@ + rest == o0 + #[trigger] credentials_bytes(c, rest) by {
            let s5 = blobs_bytes(c.app_bindings) + rest;
            let s4 = blobs_bytes(c.apps) + s5;
            let s3 = serials_bytes(c.revoked_serials) + s4;
            let s2 = blobs_bytes(c.endpoint_bindings) + s3;
            let s1 = blobs_bytes(c.members) + s2;
            wire::lemma_assoc(o5, blobs_bytes(c.app_bindings), rest);
            wire::lemma_assoc(o4, blobs_bytes(c.apps), s5);
            wire::lemma_assoc(o3, serials_bytes(c.revoked_serials), s4);
            wire::lemma_assoc(o2, blobs_bytes(c.endpoint_bindings), s3);
            wire::lemma_assoc(o1, blobs_bytes(c.members), s2);
            wire::lemma_assoc(o0, blobs_bytes(c.admin_keys), s1);
        }
    }

    fn push_tail(&self, out: &mut Vec<u8>)
        ensures
            final(out)@ == old(out)@ + tail_bytes(self@),
    {
        let ghost before = out@;
        let secrets: [[u8; 32]; 4] = self.epoch_secrets.expose_bytes();
        push_bytes(out, secrets[0].as_slice());
        push_bytes(out, secrets[1].as_slice());
        push_bytes(out, secrets[2].as_slice());
        push_bytes(out, secrets[3].as_slice());
        push_be(out, self.policies.flags as u64, 4);
        push_be(out, self.policies.max_members as u64, 2);
        push_be(out, self.policies.max_services_per_binding as u64, 2);
        assert(out@ =~= before + tail_bytes(self@));
    }

    /// Appends the name records, the descriptors and the end.
    fn push_descriptors(&self, out: &mut Vec<u8>) -> (pushed: Result<(), SnapshotError>)
        ensures
            match pushed {
                Ok(()) => urls_ok(self@) && final(out)@ == old(out)@ + (list_bytes(
                    dns_enc(),
                    self@.virtual_dns,
                ) + descriptors_bytes(self@)),
                Err(error) => !urls_ok(self@) && error == SnapshotError::InvalidLength,
            },
    {
        let ghost c = self@;
        let ghost o0 = out@;
        assert(forall|i: int|
            0 <= i < self.virtual_dns@.len() ==> self.virtual_dns@[i]@
                == #[trigger] c.virtual_dns[i]);
        assert(forall|i: int|
            0 <= i < self.relays@.len() ==> self.relays@[i]@ == #[trigger] c.relays[i]);
        assert(forall|i: int|
            0 <= i < self.presence_services@.len() ==> self.presence_services@[i]@
                == #[trigger] c.presence_services[i]);
        match push_dns(out, &self.virtual_dns) {
            Ok(()) => {},
            Err(error) => {
                proof {
                    let i = choose|i: int|
                        0 <= i < self.virtual_dns@.len() && !url_ok(
                            #[trigger] self.virtual_dns@[i]@.name,
                        );
                    assert(!url_ok(c.virtual_dns[i].name));
                }
                return Err(error);
            },
        }
        let ghost o1 = out@;
        match push_relays(out, &self.relays) {
            Ok(()) => {},
            Err(error) => {
                proof {
                    let i = choose|i: int|
                        0 <= i < self.relays@.len() && !url_ok(#[trigger] self.relays@[i]@.url);
                    assert(!url_ok(c.relays[i].url));
                }
                return Err(error);
            },
        }
        let ghost o2 = out@;
        match push_services(out, &self.presence_services) {
            Ok(()) => {},
            Err(error) => {
                proof {
                    let i = choose|i: int|
                        0 <= i < self.presence_services@.len() && !url_ok(
                            #[trigger] self.presence_services@[i]@.url,
                        );
                    assert(!url_ok(c.presence_services[i].url));
                }
                return Err(error);
            },
        }
        let ghost o3 = out@;
        self.push_tail(out);
        proof {
            let services = list_bytes(service_enc(), c.presence_services);
            wire::lemma_assoc(o2, services, tail_bytes(c));
            wire::lemma_assoc(o1, list_bytes(relay_enc(), c.relays), services + tail_bytes(c));
            wire::lemma_assoc(o0, list_bytes(dns_enc(), c.virtual_dns), descriptors_bytes(c));
        }
        Ok(())
    }

    /// Writes the configuration, if its shape is right and its addresses can be written.
    pub fn to_bytes(&self) -> (bytes: Result<Vec<u8>, SnapshotError>)
        ensures
            match shape_verdict(self@) {
                Err(reason) => bytes matches Err(error) && error == reason,
                Ok(()) => if urls_ok(self@) {
                    bytes matches Ok(bytes) && bytes@ == config_bytes(self@)
                } else {
                    bytes matches Err(error) && error == SnapshotError::InvalidLength
                },
            },
    {
        self.validate_shape()?;
        let ghost c = self@;
        let ghost rest = list_bytes(dns_enc(), c.virtual_dns) + descriptors_bytes(c);
        let mut out: Vec<u8> = Vec::new();
        push_bytes(&mut out, SNAPSHOT_MAGIC_V2.as_slice());
        assert(out@ =~= SNAPSHOT_MAGIC_V2@);
        self.push_head(&mut out);
        proof {
            wire::lemma_assoc(SNAPSHOT_MAGIC_V2@, head_bytes(c), credentials_bytes(c, rest));
        }
        self.push_credentials(&mut out);
        assert(out@ + rest == config_bytes(c));
        self.push_descriptors(&mut out)?;
        Ok(out)
    }

    fn decode(cursor: &mut Cursor<'_>, named: bool) -> (config: Result<Self, SnapshotError>)
        ensures
            match p_config(old(cursor).rest(), named) {
                Ok(value) => config matches Ok(config) && config@ == value,
                Err(reason) => config matches Err(error) && error == reason,
            },
    {
        let ghost r = cursor.rest();
        let head: &[u8] = match cursor.take(SNAPSHOT_HEAD_LEN) {
            Some(head) => head,
            None => {
                return Err(SnapshotError::MalformedWire);
            },
        };
        proof {
            assert(r.subrange(0, 32) =~= head@.subrange(0, 32));
            assert(r.subrange(32, 40) =~= head@.subrange(32, 40));
            assert(r.subrange(40, 48) =~= head@.subrange(40, 48));
            assert(r.subrange(48, 80) =~= head@.subrange(48, 80));
            assert(r.subrange(80, 88) =~= head@.subrange(80, 88));
            assert(r.subrange(88, 96) =~= head@.subrange(88, 96));
        }
        let lists: CredentialLists = credential_lists(cursor)?;
        let virtual_dns: Vec<VirtualDnsRecord> = name_list(cursor, named)?;
        let relays: Vec<RelayDescriptor> = relay_list(cursor)?;
        let presence_services: Vec<PresenceServiceDescriptor> = service_list(cursor)?;
        if cursor.remaining() != SNAPSHOT_TAIL_LEN {
            return Err(SnapshotError::MalformedWire);
        }
        let ghost t = cursor.rest();
        let tail: &[u8] = match cursor.take(SNAPSHOT_TAIL_LEN) {
            Some(tail) => tail,
            None => {
                return Err(SnapshotError::MalformedWire);
            },
        };
        assert(tail@ =~= t);
        let config = NetworkConfigV1 {
            network_id: NetworkId::from_bytes(read_array::<32>(head, 0)),
            epoch: read_u64(head, 32),
            revision: read_u64(head, 40),
            previous_hash: read_array::<32>(head, 48),
            issued_at_ms: read_u64(head, 80),
            expires_at_ms: read_u64(head, 88),
            admin_keys: lists.admin_keys,
            members: lists.members,
            endpoint_bindings: lists.endpoint_bindings,
            revoked_serials: lists.revoked_serials,
            apps: lists.apps,
            app_bindings: lists.app_bindings,
            virtual_dns,
            relays,
            presence_services,
            epoch_secrets: EpochSecrets::from_bytes(
                [
                    read_array::<32>(tail, 0),
                    read_array::<32>(tail, 32),
                    read_array::<32>(tail, 64),
                    read_array::<32>(tail, 96),
                ],
            ),
            policies: NetworkPolicy {
                flags: read_u32(tail, 128),
                max_members: read_u16(tail, 132),
                max_services_per_binding: read_u16(tail, 134),
            },
        };
        config.validate_shape()?;
        Ok(config)
    }

    /// Reads a configuration in either format, and refuses one whose shape is wrong.
    pub fn from_bytes(bytes: &[u8]) -> (config: Result<Self, SnapshotError>)
        ensures
            match read_config(bytes@) {
                Ok(value) => config matches Ok(config) && config@ == value,
                Err(reason) => config matches Err(error) && error == reason,
            },
    {
        let mut cursor = Cursor::new(bytes);
        if cursor.expect(SNAPSHOT_MAGIC_V2.as_slice()) {
            return NetworkConfigV1::decode(&mut cursor, true);
        }
        let mut cursor = Cursor::new(bytes);
        if cursor.expect(SNAPSHOT_MAGIC_V1.as_slice()) {
            return NetworkConfigV1::decode(&mut cursor, false);
        }
        Err(SnapshotError::MalformedWire)
    }
}

impl Clone for AdminKey {
    fn clone(&self) -> (copy: Self)
        ensures
            copy.certificate@ == self.certificate@,
    {
        AdminKey { certificate: copy_range(self.certificate.as_slice(), 0, self.certificate.len()) }
    }
}

impl Clone for RelayDescriptor {
    fn clone(&self) -> (copy: Self)
        ensures
            copy@ == self@,
    {
        RelayDescriptor {
            endpoint_id: self.endpoint_id,
            url: self.url.clone(),
            roles: self.roles,
            expires_at_ms: self.expires_at_ms,
        }
    }
}

impl Clone for PresenceServiceDescriptor {
    fn clone(&self) -> (copy: Self)
        ensures
            copy@ == self@,
    {
        PresenceServiceDescriptor {
            endpoint_id: self.endpoint_id,
            url: self.url.clone(),
            expires_at_ms: self.expires_at_ms,
        }
    }
}

impl Clone for VirtualDnsRecord {
    fn clone(&self) -> (copy: Self)
        ensures
            copy@ == self@,
    {
        VirtualDnsRecord {
            name: self.name.clone(),
            app_addr: self.app_addr,
            expires_at_ms: self.expires_at_ms,
        }
    }
}

impl Clone for NetworkConfigV1 {
    fn clone(&self) -> (copy: Self)
        ensures
            copy@ == self@,
    {
        let copy = NetworkConfigV1 {
            network_id: self.network_id,
            epoch: self.epoch,
            revision: self.revision,
            previous_hash: self.previous_hash,
            issued_at_ms: self.issued_at_ms,
            expires_at_ms: self.expires_at_ms,
            admin_keys: self.admin_keys.clone(),
            members: copy_blobs(&self.members),
            endpoint_bindings: copy_blobs(&self.endpoint_bindings),
            revoked_serials: self.revoked_serials.clone(),
            apps: copy_blobs(&self.apps),
            app_bindings: copy_blobs(&self.app_bindings),
            virtual_dns: self.virtual_dns.clone(),
            relays: self.relays.clone(),
            presence_services: self.presence_services.clone(),
            epoch_secrets: self.epoch_secrets.clone(),
            policies: self.policies,
        };
        proof {
            assert forall|i: int| 0 <= i < self.admin_keys@.len() implies
                certificates(copy.admin_keys@)[i] == certificates(self.admin_keys@)[i] by {
                assert(cloned(self.admin_keys@[i], copy.admin_keys@[i]));
            }
            assert(certificates(copy.admin_keys@) =~= certificates(self.admin_keys@));
            assert forall|i: int| 0 <= i < self.virtual_dns@.len() implies
                dns_records(copy.virtual_dns@)[i] == dns_records(self.virtual_dns@)[i] by {
                assert(cloned(self.virtual_dns@[i], copy.virtual_dns@[i]));
            }
            assert(dns_records(copy.virtual_dns@) =~= dns_records(self.virtual_dns@));
            assert forall|i: int| 0 <= i < self.relays@.len() implies
                relays(copy.relays@)[i] == relays(self.relays@)[i] by {
                assert(cloned(self.relays@[i], copy.relays@[i]));
            }
            assert(relays(copy.relays@) =~= relays(self.relays@));
            assert forall|i: int| 0 <= i < self.presence_services@.len() implies
                presence_services(copy.presence_services@)[i] == presence_services(self.presence_services@)[i] by {
                assert(cloned(self.presence_services@[i], copy.presence_services@[i]));
            }
            assert(presence_services(copy.presence_services@) =~= presence_services(self.presence_services@));
            assert(copy.revoked_serials@ =~= self.revoked_serials@);
        }
        copy
    }
}

/// A copy of several byte strings.
fn copy_blobs(values: &Vec<Vec<u8>>) -> (copy: Vec<Vec<u8>>)
    ensures
        blobs(copy@) == blobs(values@),
{
    let mut copy: Vec<Vec<u8>> = Vec::new();
    let mut i: usize = 0;
    while i < values.len()
        invariant
            i <= values.len(),
            copy.len() == i,
            forall|j: int| 0 <= j < i ==> #[trigger] copy@[j]@ == values@[j]@,
        decreases values.len() - i,
    {
        copy.push(copy_range(values[i].as_slice(), 0, values[i].len()));
        i = i + 1;
    }
    assert(blobs(copy@) =~= blobs(values@));
    copy
}

} // verus!
