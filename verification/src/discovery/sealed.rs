//! Presence records as they travel: encrypted, and found under a key that tells nobody else whose
//! they are.
use crate::config::snapshot::{Config, NetworkConfigV1};
use crate::config::validate;
use crate::config::validate::ValidatedNetworkConfig;
use crate::crypto::keys;
use crate::crypto::keys::{CertificateError, SigningKeypair};
use crate::crypto::member::{MemberCertificate, MemberCertificatePayload};
use crate::discovery::authorize;
use crate::discovery::authorize::{authorize_endpoint_and_addr, member_by_id, member_for_signer};
use crate::discovery::presence;
use crate::discovery::presence::{
    decode_presence_payload, encode_presence_payload, Candidate, DiscoveryCandidate, DiscoveryError,
    Presence, PresenceRecord, MAX_CANDIDATES, MAX_PRESENCE_TTL_MS, MAX_PRESENCE_WIRE,
    MAX_RELAY_URL_LEN, MAX_VIRTUAL_ADDRS,
};
use crate::identifiers::{EndpointId, MemberId, ScopedVirtualAddr};
use crate::outside;
use crate::outside::{keyed_hash, open_xchacha, random_array, seal_xchacha};
use crate::wire;
use crate::wire::{
    arrays_equal, copy_range, push_be, push_bytes, read_array, read_u32, read_u64, starts_at,
};
use vstd::prelude::*;

verus! {

/// The first bytes of an encrypted presence record, in the version that is written.
pub const PRESENCE_MAGIC: [u8; 8] = [87, 86, 82, 80, 82, 83, 0, 2];

/// The first bytes of an encrypted presence record in the version before.
pub const PRESENCE_MAGIC_V1: [u8; 8] = [87, 86, 82, 80, 82, 83, 0, 1];

/// The versions of encrypted presence records. A directory keeps both: it cannot read either.
#[derive(Clone, Copy, Debug, PartialEq, Eq, Structural)]
pub enum PresenceVersion {
    V1,
    V2,
}

impl PresenceVersion {
    /// The first bytes of a record in this version.
    pub open spec fn magic(self) -> Seq<u8> {
        match self {
            PresenceVersion::V1 => PRESENCE_MAGIC_V1@,
            PresenceVersion::V2 => PRESENCE_MAGIC@,
        }
    }

    fn push_magic(self, out: &mut Vec<u8>)
        ensures
            final(out)@ == old(out)@ + self.magic(),
    {
        match self {
            PresenceVersion::V1 => push_bytes(out, PRESENCE_MAGIC_V1.as_slice()),
            PresenceVersion::V2 => push_bytes(out, PRESENCE_MAGIC.as_slice()),
        }
    }
}

/// What a lookup key is for.
pub const PRESENCE_INDEX_CONTEXT: [u8; 25] = [
    119,
    101,
    97,
    118,
    101,
    114,
    46,
    112,
    114,
    101,
    115,
    101,
    110,
    99,
    101,
    45,
    105,
    110,
    100,
    101,
    120,
    46,
    118,
    49,
    0,
];

/// What an encryption key is for.
pub const PRESENCE_ENCRYPTION_CONTEXT: [u8; 30] = [
    119,
    101,
    97,
    118,
    101,
    114,
    46,
    112,
    114,
    101,
    115,
    101,
    110,
    99,
    101,
    45,
    101,
    110,
    99,
    114,
    121,
    112,
    116,
    105,
    111,
    110,
    46,
    118,
    49,
    0,
];

/// The length of an encrypted record without its ciphertext.
pub const PRESENCE_HEAD_LEN: usize = 68;

/// A presence record as a directory keeps it.
#[derive(Debug, PartialEq, Eq)]
pub struct EncryptedPresenceRecord {
    pub epoch: u64,
    pub opaque_key: [u8; 24],
    pub nonce: [u8; 24],
    pub version: PresenceVersion,
    pub ciphertext: Vec<u8>,
}

/// The contents of an encrypted record.
pub struct SealedPresence {
    pub version: PresenceVersion,
    pub epoch: u64,
    pub opaque_key: [u8; 24],
    pub nonce: [u8; 24],
    pub ciphertext: Seq<u8>,
}

impl View for EncryptedPresenceRecord {
    type V = SealedPresence;

    open spec fn view(&self) -> SealedPresence {
        SealedPresence {
            version: self.version,
            epoch: self.epoch,
            opaque_key: self.opaque_key,
            nonce: self.nonce,
            ciphertext: self.ciphertext@,
        }
    }
}

impl Clone for EncryptedPresenceRecord {
    fn clone(&self) -> (copy: Self)
        ensures
            copy@ == self@,
    {
        let ciphertext: Vec<u8> = copy_range(self.ciphertext.as_slice(), 0, self.ciphertext.len());
        assert(ciphertext@ =~= self.ciphertext@);
        EncryptedPresenceRecord {
            epoch: self.epoch,
            opaque_key: self.opaque_key,
            nonce: self.nonce,
            version: self.version,
            ciphertext,
        }
    }
}

/// The key under which a directory keeps the record of an endpoint.
pub open spec fn lookup_key_of(seed: [u8; 32], endpoint: EndpointId) -> [u8; 24] {
    wire::array_of(
        outside::blake3_keyed(seed@, PRESENCE_INDEX_CONTEXT@ + endpoint@).subrange(0, 24),
    )
}

/// The key that encrypts the record under a lookup key.
pub open spec fn record_key(seed: [u8; 32], epoch: u64, opaque: [u8; 24]) -> Seq<u8> {
    outside::blake3_keyed(
        seed@,
        PRESENCE_ENCRYPTION_CONTEXT@ + wire::be(epoch as nat, 8) + opaque@,
    )
}

/// What the ciphertext of a record is bound to.
pub open spec fn record_aad(
    version: PresenceVersion,
    epoch: u64,
    opaque: [u8; 24],
    nonce: [u8; 24],
) -> Seq<u8> {
    version.magic() + wire::be(epoch as nat, 8) + opaque@ + nonce@
}

fn derive_opaque_key(seed: &[u8; 32], endpoint: EndpointId) -> (key: [u8; 24])
    ensures
        key == lookup_key_of(*seed, endpoint),
{
    let mut material: Vec<u8> = Vec::new();
    push_bytes(&mut material, PRESENCE_INDEX_CONTEXT.as_slice());
    push_bytes(&mut material, endpoint.0.as_slice());
    let digest: [u8; 32] = keyed_hash(seed, material.as_slice());
    read_array::<24>(digest.as_slice(), 0)
}

fn derive_presence_key(seed: &[u8; 32], epoch: u64, opaque: &[u8; 24]) -> (key: [u8; 32])
    ensures
        key@ == record_key(*seed, epoch, *opaque),
{
    let mut material: Vec<u8> = Vec::new();
    push_bytes(&mut material, PRESENCE_ENCRYPTION_CONTEXT.as_slice());
    push_be(&mut material, epoch, 8);
    push_bytes(&mut material, opaque.as_slice());
    keyed_hash(seed, material.as_slice())
}

fn presence_aad(
    version: PresenceVersion,
    epoch: u64,
    opaque: &[u8; 24],
    nonce: &[u8; 24],
) -> (aad: Vec<u8>)
    ensures
        aad@ == record_aad(version, epoch, *opaque, *nonce),
{
    let mut aad: Vec<u8> = Vec::new();
    version.push_magic(&mut aad);
    push_be(&mut aad, epoch, 8);
    push_bytes(&mut aad, opaque.as_slice());
    push_bytes(&mut aad, nonce.as_slice());
    aad
}

/// Whether every candidate can be written.
pub open spec fn candidates_ok(s: Seq<Candidate>) -> bool {
    &&& s.len() <= MAX_CANDIDATES
    &&& forall|i: int| 0 <= i < s.len() ==> presence::candidate_ok(#[trigger] s[i])
}

fn validate_candidates(candidates: &Vec<DiscoveryCandidate>) -> (valid: Result<(), DiscoveryError>)
    ensures
        valid == (if candidates_ok(presence::candidate_views(candidates@)) {
            Ok(())
        } else {
            Err::<(), DiscoveryError>(DiscoveryError::InvalidPresence)
        }),
{
    let ghost all = presence::candidate_views(candidates@);
    if candidates.len() > MAX_CANDIDATES {
        return Err(DiscoveryError::InvalidPresence);
    }
    let mut i: usize = 0;
    while i < candidates.len()
        invariant
            i <= candidates.len(),
            all == presence::candidate_views(candidates@),
            forall|j: int| 0 <= j < i ==> presence::candidate_ok(#[trigger] all[j]),
        decreases candidates.len() - i,
    {
        assert(all[i as int] == candidates@[i as int]@);
        match &candidates[i] {
            DiscoveryCandidate::Ip(_) => {},
            DiscoveryCandidate::Relay(url) => {
                let len: usize = url.as_str().as_bytes().len();
                if len == 0 || len > MAX_RELAY_URL_LEN {
                    assert(!presence::candidate_ok(all[i as int]));
                    return Err(DiscoveryError::InvalidPresence);
                }
            },
        }
        i = i + 1;
    }
    Ok(())
}

/// Whether no virtual address is repeated.
fn distinct_addresses(addresses: &Vec<ScopedVirtualAddr>) -> (distinct: bool)
    ensures
        distinct == addresses@.no_duplicates(),
{
    let mut i: usize = 0;
    while i < addresses.len()
        invariant
            i <= addresses.len(),
            forall|a: int, b: int|
                0 <= a < b < addresses@.len() && a < i ==> #[trigger] addresses@[a]
                    != #[trigger] addresses@[b],
        decreases addresses.len() - i,
    {
        let mut j: usize = i + 1;
        while j < addresses.len()
            invariant
                i < j <= addresses.len(),
                forall|b: int| i < b < j ==> addresses@[i as int] != #[trigger] addresses@[b],
            decreases addresses.len() - j,
        {
            if addresses[i] == addresses[j] {
                assert(addresses@[i as int] == addresses@[j as int]);
                return false;
            }
            j = j + 1;
        }
        i = i + 1;
    }
    true
}

/// Whether a configuration gives a member an endpoint and all of some addresses.
pub open spec fn all_authorized(
    c: Config,
    id: MemberId,
    endpoint: EndpointId,
    addresses: Seq<ScopedVirtualAddr>,
    now_ms: u64,
) -> bool {
    forall|i: int|
        0 <= i < addresses.len() ==> authorize::authorized(
            c,
            id,
            endpoint,
            #[trigger] addresses[i],
            now_ms,
        )
}

fn authorize_all(
    config: &ValidatedNetworkConfig,
    member_id: MemberId,
    endpoint_id: EndpointId,
    addresses: &Vec<ScopedVirtualAddr>,
    now_ms: u64,
) -> (allowed: Result<(), DiscoveryError>)
    ensures
        allowed == (if all_authorized(config@, member_id, endpoint_id, addresses@, now_ms) {
            Ok(())
        } else {
            Err::<(), DiscoveryError>(DiscoveryError::NotAuthorized)
        }),
{
    let mut i: usize = 0;
    while i < addresses.len()
        invariant
            i <= addresses.len(),
            forall|j: int|
                0 <= j < i ==> authorize::authorized(
                    config@,
                    member_id,
                    endpoint_id,
                    #[trigger] addresses@[j],
                    now_ms,
                ),
        decreases addresses.len() - i,
    {
        match authorize_endpoint_and_addr(config, member_id, endpoint_id, addresses[i], now_ms) {
            Ok(()) => {},
            Err(error) => {
                assert(!authorize::authorized(
                    config@,
                    member_id,
                    endpoint_id,
                    addresses@[i as int],
                    now_ms,
                ));
                return Err(error);
            },
        }
        i = i + 1;
    }
    Ok(())
}

/// The record that a signing key publishes, or why it may not: the times or the counts are out of
/// bounds, a candidate cannot be written, the key belongs to no member, an address is repeated,
/// or the member was not given the endpoint and every address.
pub open spec fn published(
    c: Config,
    signing_key: Seq<u8>,
    endpoint_id: EndpointId,
    virtual_addrs: Seq<ScopedVirtualAddr>,
    candidates: Seq<Candidate>,
    capabilities: u32,
    sequence: u64,
    issued_at_ms: u64,
    expires_at_ms: u64,
) -> Result<Presence, DiscoveryError> {
    if expires_at_ms <= issued_at_ms || expires_at_ms - issued_at_ms > MAX_PRESENCE_TTL_MS
        || expires_at_ms > c.expires_at_ms || virtual_addrs.len() == 0 || virtual_addrs.len()
        > MAX_VIRTUAL_ADDRS || !candidates_ok(candidates) {
        Err(DiscoveryError::InvalidPresence)
    } else {
        match authorize::member_signing(c.members, signing_key) {
            None => Err(DiscoveryError::NotAuthorized),
            Some(m) => if !virtual_addrs.no_duplicates() {
                Err(DiscoveryError::InvalidPresence)
            } else if !all_authorized(
                c,
                m.payload.member_id,
                endpoint_id,
                virtual_addrs,
                issued_at_ms,
            ) {
                Err(DiscoveryError::NotAuthorized)
            } else {
                let record = Presence {
                    network_id: c.network_id,
                    epoch: c.epoch,
                    virtual_addrs,
                    member_id: m.payload.member_id,
                    endpoint_id,
                    candidates,
                    capabilities,
                    sequence,
                    issued_at_ms,
                    expires_at_ms,
                };
                if presence::payload_fits(record) {
                    Ok(record)
                } else {
                    Err(DiscoveryError::PresenceTooLarge)
                }
            },
        }
    }
}

/// Whether an encrypted record holds a record that a secret key signed, under the keys of a
/// configuration.
pub open spec fn seals(s: SealedPresence, c: Config, r: Presence, secret: Seq<u8>) -> bool {
    &&& s.version == PresenceVersion::V2
    &&& s.epoch == c.epoch
    &&& s.opaque_key == lookup_key_of(c.epoch_secrets.presence_index_seed, r.endpoint_id)
    &&& outside::ed25519_key_ok(outside::ed25519_public(secret))
    &&& exists|signature: [u8; 64]| #[trigger] seals_with(s, c, r, secret, signature)
}

/// Whether an encrypted record holds a record and this signature over it.
pub open spec fn seals_with(
    s: SealedPresence,
    c: Config,
    r: Presence,
    secret: Seq<u8>,
    signature: [u8; 64],
) -> bool {
    let payload = presence::payload_bytes(r);
    let key = record_key(c.epoch_secrets.presence_encryption_seed, c.epoch, s.opaque_key);
    let aad = record_aad(s.version, s.epoch, s.opaque_key, s.nonce);
    &&& signature@ == outside::ed25519_signature(secret, keys::presence_transcript(payload))
    &&& outside::ed25519_verifies(
        outside::ed25519_public(secret),
        keys::presence_transcript(payload),
        signature@,
    )
    &&& outside::xchacha_sealed(key, s.nonce@, payload + signature@, aad) == Some(s.ciphertext)
    &&& outside::xchacha_opened(key, s.nonce@, s.ciphertext, aad) == Some(payload + signature@)
    &&& s.ciphertext.len() == payload.len() + 80
}

/// The encoding of an encrypted record.
pub open spec fn sealed_bytes(s: SealedPresence) -> Seq<u8> {
    s.version.magic() + wire::be(s.epoch as nat, 8) + s.opaque_key@ + s.nonce@ + wire::be(
        s.ciphertext.len(),
        4,
    ) + s.ciphertext
}

/// The version that the first bytes of an encrypted record give.
pub open spec fn version_of(b: Seq<u8>) -> Option<PresenceVersion> {
    if wire::has_at(b, 0, PRESENCE_MAGIC@) {
        Some(PresenceVersion::V2)
    } else if wire::has_at(b, 0, PRESENCE_MAGIC_V1@) {
        Some(PresenceVersion::V1)
    } else {
        None
    }
}

/// The encrypted record whose encoding is `b`, or why there is none.
pub open spec fn read_sealed(b: Seq<u8>) -> Result<SealedPresence, DiscoveryError> {
    if b.len() > MAX_PRESENCE_WIRE {
        Err(DiscoveryError::PresenceTooLarge)
    } else if b.len() < PRESENCE_HEAD_LEN || wire::u32_at(b, 64) != b.len() - PRESENCE_HEAD_LEN {
        Err(DiscoveryError::MalformedWire)
    } else {
        match version_of(b) {
            None => Err(DiscoveryError::MalformedWire),
            Some(version) => Ok(
                SealedPresence {
                    version,
                    epoch: wire::u64_at(b, 8),
                    opaque_key: wire::array_at(b, 16),
                    nonce: wire::array_at(b, 40),
                    ciphertext: b.subrange(PRESENCE_HEAD_LEN as int, b.len() as int),
                },
            ),
        }
    }
}

/// An encrypted record is read back from its encoding unchanged, where that is not too long.
pub proof fn law_sealed_round_trip(s: SealedPresence)
    requires
        sealed_bytes(s).len() <= MAX_PRESENCE_WIRE,
    ensures
        read_sealed(sealed_bytes(s)) == Ok::<SealedPresence, DiscoveryError>(s),
{
    let b = sealed_bytes(s);
    wire::lemma_pow256_values();
    wire::lemma_be_len(s.epoch as nat, 8);
    wire::lemma_be_len(s.ciphertext.len(), 4);
    wire::lemma_from_be_of_be(s.epoch as nat, 8);
    wire::lemma_from_be_of_be(s.ciphertext.len(), 4);
    wire::lemma_array_of(s.opaque_key);
    wire::lemma_array_of(s.nonce);
    assert(PRESENCE_MAGIC@[7] != PRESENCE_MAGIC_V1@[7]);
    assert(b.subrange(0, 8) =~= s.version.magic());
    assert(b.subrange(8, 16) =~= wire::be(s.epoch as nat, 8));
    assert(b.subrange(16, 40) =~= s.opaque_key@);
    assert(b.subrange(40, 64) =~= s.nonce@);
    assert(b.subrange(64, 68) =~= wire::be(s.ciphertext.len(), 4));
    assert(b.subrange(68, b.len() as int) =~= s.ciphertext);
}

/// Bytes that are read as an encrypted record are its encoding: there is no other form of it.
pub proof fn law_sealed_canonical(b: Seq<u8>)
    requires
        read_sealed(b) is Ok,
    ensures
        sealed_bytes(read_sealed(b)->Ok_0) == b,
{
    let s = read_sealed(b)->Ok_0;
    wire::lemma_pow256_values();
    wire::lemma_be_of_from_be(b.subrange(8, 16));
    wire::lemma_be_of_from_be(b.subrange(64, 68));
    wire::lemma_array_exists::<24>(b.subrange(16, 40));
    wire::lemma_array_exists::<24>(b.subrange(40, 64));
    assert(b =~= b.subrange(0, 8) + b.subrange(8, 16) + b.subrange(16, 40) + b.subrange(40, 64)
        + b.subrange(64, 68) + s.ciphertext);
}

/// Whether a member's certificate is in force under a configuration.
pub open spec fn member_in_force(c: Config, m: MemberCertificatePayload, now_ms: u64) -> bool {
    m.not_before_ms <= now_ms < m.expires_at_ms && !c.revoked_serials.contains(m.serial)
}

/// What becomes of a decrypted record: it must belong to the configuration and to this time, be
/// kept under the key of its endpoint, be signed by a member in force, and be covered by what the
/// configuration gives that member.
pub open spec fn record_verdict(
    c: Config,
    opaque_key: [u8; 24],
    payload: Seq<u8>,
    signature: [u8; 64],
    now_ms: u64,
) -> Result<Presence, DiscoveryError> {
    match presence::read_payload(payload) {
        Err(e) => Err(e),
        Ok(r) => if r.network_id != c.network_id || r.epoch != c.epoch || r.issued_at_ms > now_ms
            || r.expires_at_ms <= now_ms || r.expires_at_ms - r.issued_at_ms > MAX_PRESENCE_TTL_MS
            || lookup_key_of(c.epoch_secrets.presence_index_seed, r.endpoint_id) != opaque_key {
            Err(DiscoveryError::InvalidPresence)
        } else {
            match authorize::member_named(c.members, r.member_id) {
                None => Err(DiscoveryError::NotAuthorized),
                Some(m) => if !member_in_force(c, m.payload, now_ms) {
                    Err(DiscoveryError::InvalidPresence)
                } else if !outside::ed25519_key_ok(m.payload.signing_public_key@) {
                    Err(DiscoveryError::Crypto(CertificateError::MalformedKey))
                } else if !outside::ed25519_verifies(
                    m.payload.signing_public_key@,
                    keys::presence_transcript(payload),
                    signature@,
                ) {
                    Err(DiscoveryError::Crypto(CertificateError::InvalidSignature))
                } else if !r.virtual_addrs.no_duplicates() {
                    Err(DiscoveryError::InvalidPresence)
                } else if !all_authorized(
                    c,
                    r.member_id,
                    r.endpoint_id,
                    r.virtual_addrs,
                    now_ms,
                ) {
                    Err(DiscoveryError::NotAuthorized)
                } else if !candidates_ok(r.candidates) {
                    Err(DiscoveryError::InvalidPresence)
                } else {
                    Ok(r)
                },
            }
        },
    }
}

/// What becomes of an encrypted record under a configuration.
pub open spec fn presence_verdict(c: Config, s: SealedPresence, now_ms: u64) -> Result<
    Presence,
    DiscoveryError,
> {
    if s.epoch != c.epoch {
        Err(DiscoveryError::WrongEpoch)
    } else {
        match outside::xchacha_opened(
            record_key(c.epoch_secrets.presence_encryption_seed, s.epoch, s.opaque_key),
            s.nonce@,
            s.ciphertext,
            record_aad(s.version, s.epoch, s.opaque_key, s.nonce),
        ) {
            None => Err(DiscoveryError::DecryptionFailed),
            Some(plaintext) => if plaintext.len() < 64 {
                Err(DiscoveryError::MalformedWire)
            } else {
                let n = plaintext.len() - 64;
                record_verdict(
                    c,
                    s.opaque_key,
                    plaintext.subrange(0, n),
                    wire::array_at(plaintext, n),
                    now_ms,
                )
            },
        }
    }
}

impl EncryptedPresenceRecord {
    /// The epoch, and the key under which a directory keeps the record of an endpoint; nobody else
    /// can tell from the key which endpoint it is.
    pub fn lookup_key(config: &ValidatedNetworkConfig, endpoint_id: EndpointId) -> (key: (u64, [u8; 24]))
        ensures
            key.0 == config@.epoch,
            key.1 == lookup_key_of(config@.epoch_secrets.presence_index_seed, endpoint_id),
    {
        let inner: &NetworkConfigV1 = config.as_config();
        let seeds: [[u8; 32]; 4] = inner.epoch_secrets.expose_bytes();
        (inner.epoch, derive_opaque_key(&seeds[0], endpoint_id))
    }

    pub fn opaque_key(&self) -> (key: [u8; 24])
        ensures
            key == self@.opaque_key,
    {
        self.opaque_key
    }

    pub fn epoch(&self) -> (epoch: u64)
        ensures
            epoch == self@.epoch,
    {
        self.epoch
    }

    /// Checks what a member wants to publish and builds the record.
    fn compose(
        config: &ValidatedNetworkConfig,
        signing: &SigningKeypair,
        endpoint_id: EndpointId,
        virtual_addrs: Vec<ScopedVirtualAddr>,
        candidates: Vec<DiscoveryCandidate>,
        capabilities: u32,
        sequence: u64,
        issued_at_ms: u64,
        expires_at_ms: u64,
    ) -> (composed: Result<(PresenceRecord, Vec<u8>), DiscoveryError>)
        ensures
            match published(
                config@,
                outside::ed25519_public(signing@),
                endpoint_id,
                virtual_addrs@,
                presence::candidate_views(candidates@),
                capabilities,
                sequence,
                issued_at_ms,
                expires_at_ms,
            ) {
                Ok(r) => composed matches Ok((record, payload)) && record@ == r && payload@
                    == presence::payload_bytes(r) && outside::ed25519_key_ok(
                    outside::ed25519_public(signing@),
                ),
                Err(reason) => composed matches Err(error) && error == reason,
            },
    {
        let inner: &NetworkConfigV1 = config.as_config();
        if expires_at_ms <= issued_at_ms || expires_at_ms - issued_at_ms > MAX_PRESENCE_TTL_MS
            || expires_at_ms > inner.expires_at_ms || candidates.len() > MAX_CANDIDATES
            || virtual_addrs.len() == 0 || virtual_addrs.len() > MAX_VIRTUAL_ADDRS {
            return Err(DiscoveryError::InvalidPresence);
        }
        validate_candidates(&candidates)?;
        let member: MemberCertificate = member_for_signer(config, &signing.public_bytes())?;
        let member_id: MemberId = member.payload().member_id;
        if !distinct_addresses(&virtual_addrs) {
            return Err(DiscoveryError::InvalidPresence);
        }
        authorize_all(config, member_id, endpoint_id, &virtual_addrs, issued_at_ms)?;
        let record = PresenceRecord {
            network_id: inner.network_id,
            epoch: inner.epoch,
            virtual_addrs,
            member_id,
            endpoint_id,
            candidates,
            capabilities,
            sequence,
            issued_at_ms,
            expires_at_ms,
        };
        let payload: Vec<u8> = encode_presence_payload(&record)?;
        Ok((record, payload))
    }

    /// Signs a record and encrypts it under a nonce.
    fn encrypt(
        config: &ValidatedNetworkConfig,
        signing: &SigningKeypair,
        record: &PresenceRecord,
        payload: Vec<u8>,
        nonce: [u8; 24],
    ) -> (sealed: Result<Self, DiscoveryError>)
        requires
            payload@ == presence::payload_bytes(record@),
            presence::payload_fits(record@),
            outside::ed25519_key_ok(outside::ed25519_public(signing@)),
        ensures
            sealed matches Ok(sealed) && sealed@.nonce == nonce && seals(
                sealed@,
                config@,
                record@,
                signing@,
            ),
    {
        let inner: &NetworkConfigV1 = config.as_config();
        let signature: [u8; 64] = signing.sign_presence(payload.as_slice());
        let mut plaintext: Vec<u8> = payload;
        push_bytes(&mut plaintext, signature.as_slice());
        let seeds: [[u8; 32]; 4] = inner.epoch_secrets.expose_bytes();
        let opaque_key: [u8; 24] = derive_opaque_key(&seeds[0], record.endpoint_id);
        let key: [u8; 32] = derive_presence_key(&seeds[1], inner.epoch, &opaque_key);
        let aad: Vec<u8> = presence_aad(
            PresenceVersion::V2,
            inner.epoch,
            &opaque_key,
            &nonce,
        );
        match seal_xchacha(&key, &nonce, plaintext.as_slice(), aad.as_slice()) {
            Some(ciphertext) => {
                let sealed = EncryptedPresenceRecord {
                    epoch: inner.epoch,
                    opaque_key,
                    nonce,
                    version: PresenceVersion::V2,
                    ciphertext,
                };
                assert(seals_with(sealed@, config@, record@, signing@, signature));
                Ok(sealed)
            },
            None => Err(DiscoveryError::EncryptionFailed),
        }
    }

    /// Publishes where an endpoint is, as `seal` does, under a nonce of the caller's.
    pub fn seal_with_nonce(
        config: &ValidatedNetworkConfig,
        signing: &SigningKeypair,
        endpoint_id: EndpointId,
        virtual_addrs: Vec<ScopedVirtualAddr>,
        candidates: Vec<DiscoveryCandidate>,
        capabilities: u32,
        sequence: u64,
        issued_at_ms: u64,
        expires_at_ms: u64,
        nonce: [u8; 24],
    ) -> (sealed: Result<Self, DiscoveryError>)
        ensures
            match published(
                config@,
                outside::ed25519_public(signing@),
                endpoint_id,
                virtual_addrs@,
                presence::candidate_views(candidates@),
                capabilities,
                sequence,
                issued_at_ms,
                expires_at_ms,
            ) {
                Err(reason) => sealed matches Err(error) && error == reason,
                Ok(record) => sealed matches Ok(sealed) && sealed@.nonce == nonce && seals(
                    sealed@,
                    config@,
                    record,
                    signing@,
                ),
            },
    {
        let (record, payload) = Self::compose(
            config,
            signing,
            endpoint_id,
            virtual_addrs,
            candidates,
            capabilities,
            sequence,
            issued_at_ms,
            expires_at_ms,
        )?;
        Self::encrypt(config, signing, &record, payload, nonce)
    }

    /// Publishes where an endpoint is: checks that the member may, signs the record and encrypts
    /// it under a nonce that rests on chance.
    pub fn seal(
        config: &ValidatedNetworkConfig,
        signing: &SigningKeypair,
        endpoint_id: EndpointId,
        virtual_addrs: Vec<ScopedVirtualAddr>,
        candidates: Vec<DiscoveryCandidate>,
        capabilities: u32,
        sequence: u64,
        issued_at_ms: u64,
        expires_at_ms: u64,
    ) -> (sealed: Result<Self, DiscoveryError>)
        ensures
            match published(
                config@,
                outside::ed25519_public(signing@),
                endpoint_id,
                virtual_addrs@,
                presence::candidate_views(candidates@),
                capabilities,
                sequence,
                issued_at_ms,
                expires_at_ms,
            ) {
                Err(reason) => sealed matches Err(error) && error == reason,
                Ok(record) => match sealed {
                    Ok(sealed) => seals(sealed@, config@, record, signing@),
                    Err(error) => error == DiscoveryError::RandomnessUnavailable,
                },
            },
    {
        let (record, payload) = Self::compose(
            config,
            signing,
            endpoint_id,
            virtual_addrs,
            candidates,
            capabilities,
            sequence,
            issued_at_ms,
            expires_at_ms,
        )?;
        match random_array::<24>() {
            Some(nonce) => Self::encrypt(config, signing, &record, payload, nonce),
            None => Err(DiscoveryError::RandomnessUnavailable),
        }
    }

    pub fn to_bytes(&self) -> (bytes: Result<Vec<u8>, DiscoveryError>)
        ensures
            if self@.ciphertext.len() > MAX_PRESENCE_WIRE {
                bytes matches Err(error) && error == DiscoveryError::PresenceTooLarge
            } else {
                bytes matches Ok(bytes) && bytes@ == sealed_bytes(self@)
            },
    {
        if self.ciphertext.len() > MAX_PRESENCE_WIRE {
            return Err(DiscoveryError::PresenceTooLarge);
        }
        let mut out: Vec<u8> = Vec::new();
        self.version.push_magic(&mut out);
        push_be(&mut out, self.epoch, 8);
        push_bytes(&mut out, self.opaque_key.as_slice());
        push_bytes(&mut out, self.nonce.as_slice());
        push_be(&mut out, self.ciphertext.len() as u64, 4);
        push_bytes(&mut out, self.ciphertext.as_slice());
        Ok(out)
    }

    pub fn from_bytes(bytes: &[u8]) -> (sealed: Result<Self, DiscoveryError>)
        ensures
            match read_sealed(bytes@) {
                Ok(value) => sealed matches Ok(sealed) && sealed@ == value,
                Err(reason) => sealed matches Err(error) && error == reason,
            },
    {
        if bytes.len() > MAX_PRESENCE_WIRE {
            return Err(DiscoveryError::PresenceTooLarge);
        }
        if bytes.len() < PRESENCE_HEAD_LEN || read_u32(bytes, 64) as usize != bytes.len()
            - PRESENCE_HEAD_LEN {
            return Err(DiscoveryError::MalformedWire);
        }
        let version: PresenceVersion = if starts_at(bytes, 0, PRESENCE_MAGIC.as_slice()) {
            PresenceVersion::V2
        } else if starts_at(bytes, 0, PRESENCE_MAGIC_V1.as_slice()) {
            PresenceVersion::V1
        } else {
            return Err(DiscoveryError::MalformedWire);
        };
        Ok(
            EncryptedPresenceRecord {
                epoch: read_u64(bytes, 8),
                opaque_key: read_array::<24>(bytes, 16),
                nonce: read_array::<24>(bytes, 40),
                version,
                ciphertext: copy_range(bytes, PRESENCE_HEAD_LEN, bytes.len()),
            },
        )
    }

    /// Checks a decrypted record.
    fn check_record(
        &self,
        config: &ValidatedNetworkConfig,
        payload: &Vec<u8>,
        signature: [u8; 64],
        now_ms: u64,
    ) -> (record: Result<PresenceRecord, DiscoveryError>)
        ensures
            match record_verdict(config@, self@.opaque_key, payload@, signature, now_ms) {
                Ok(value) => record matches Ok(record) && record@ == value,
                Err(reason) => record matches Err(error) && error == reason,
            },
    {
        let inner: &NetworkConfigV1 = config.as_config();
        let seeds: [[u8; 32]; 4] = inner.epoch_secrets.expose_bytes();
        let record: PresenceRecord = decode_presence_payload(payload.as_slice())?;
        proof {
            presence::lemma_read_payload_bounds(payload@);
        }
        if record.network_id != inner.network_id || record.epoch != inner.epoch
            || record.issued_at_ms > now_ms || record.expires_at_ms <= now_ms
            || record.expires_at_ms - record.issued_at_ms > MAX_PRESENCE_TTL_MS || !arrays_equal(
            &derive_opaque_key(&seeds[0], record.endpoint_id),
            &self.opaque_key,
        ) {
            return Err(DiscoveryError::InvalidPresence);
        }
        let member: MemberCertificate = member_by_id(config, record.member_id)?;
        if member.payload().not_before_ms > now_ms || member.payload().expires_at_ms <= now_ms
            || serial_among(&inner.revoked_serials, member.payload().serial) {
            return Err(DiscoveryError::InvalidPresence);
        }
        match member.verify_presence(payload.as_slice(), &signature) {
            Ok(()) => {},
            Err(error) => return Err(DiscoveryError::Crypto(error)),
        }
        if !distinct_addresses(&record.virtual_addrs) {
            return Err(DiscoveryError::InvalidPresence);
        }
        authorize_all(config, record.member_id, record.endpoint_id, &record.virtual_addrs, now_ms)?;
        validate_candidates(&record.candidates)?;
        Ok(record)
    }

    /// Decrypts a record and checks it against a configuration.
    pub fn open(&self, config: &ValidatedNetworkConfig, now_ms: u64) -> (record: Result<
        PresenceRecord,
        DiscoveryError,
    >)
        ensures
            match presence_verdict(config@, self@, now_ms) {
                Ok(value) => record matches Ok(record) && record@ == value,
                Err(reason) => record matches Err(error) && error == reason,
            },
    {
        let inner: &NetworkConfigV1 = config.as_config();
        if self.epoch != inner.epoch {
            return Err(DiscoveryError::WrongEpoch);
        }
        let seeds: [[u8; 32]; 4] = inner.epoch_secrets.expose_bytes();
        let key: [u8; 32] = derive_presence_key(&seeds[1], self.epoch, &self.opaque_key);
        let aad: Vec<u8> = presence_aad(
            self.version,
            self.epoch,
            &self.opaque_key,
            &self.nonce,
        );
        let plaintext: Vec<u8> = match open_xchacha(
            &key,
            &self.nonce,
            self.ciphertext.as_slice(),
            aad.as_slice(),
        ) {
            Some(plaintext) => plaintext,
            None => return Err(DiscoveryError::DecryptionFailed),
        };
        if plaintext.len() < 64 {
            return Err(DiscoveryError::MalformedWire);
        }
        let payload_len: usize = plaintext.len() - 64;
        let signature: [u8; 64] = read_array::<64>(plaintext.as_slice(), payload_len);
        let payload: Vec<u8> = copy_range(plaintext.as_slice(), 0, payload_len);
        self.check_record(config, &payload, signature, now_ms)
    }
}

/// Whether a serial is among others.
fn serial_among(serials: &Vec<u64>, wanted: u64) -> (found: bool)
    ensures
        found == serials@.contains(wanted),
{
    let mut i: usize = 0;
    while i < serials.len()
        invariant
            i <= serials.len(),
            forall|j: int| 0 <= j < i ==> serials@[j] != wanted,
        decreases serials.len() - i,
    {
        if serials[i] == wanted {
            assert(serials@[i as int] == wanted);
            return true;
        }
        i = i + 1;
    }
    false
}

/// What a member published is opened as it was by everyone with the same configuration, while the
/// record, the member and the bindings are in force; but the flow labels and scopes of IP addresses
/// are not published.
pub proof fn law_publish_then_open(
    s: SealedPresence,
    c: Config,
    secret: Seq<u8>,
    endpoint_id: EndpointId,
    virtual_addrs: Seq<ScopedVirtualAddr>,
    candidates: Seq<Candidate>,
    capabilities: u32,
    sequence: u64,
    issued_at_ms: u64,
    expires_at_ms: u64,
    now_ms: u64,
)
    requires
        ({
            let record = published(
                c,
                outside::ed25519_public(secret),
                endpoint_id,
                virtual_addrs,
                candidates,
                capabilities,
                sequence,
                issued_at_ms,
                expires_at_ms,
            );
            &&& record matches Ok(r) && seals(s, c, r, secret) && member_in_force(
                c,
                authorize::member_named(c.members, r.member_id)->Some_0.payload,
                now_ms,
            ) && all_authorized(c, r.member_id, endpoint_id, virtual_addrs, now_ms)
        }),
        validate::was_accepted(c),
        outside::endpoint_key_ok(endpoint_id@),
        issued_at_ms <= now_ms < expires_at_ms,
    ensures
        presence_verdict(c, s, now_ms) == Ok::<Presence, DiscoveryError>(
            presence::plain_record(
                published(
                    c,
                    outside::ed25519_public(secret),
                    endpoint_id,
                    virtual_addrs,
                    candidates,
                    capabilities,
                    sequence,
                    issued_at_ms,
                    expires_at_ms,
                )->Ok_0,
            ),
        ),
        (forall|i: int|
            0 <= i < candidates.len() ==> presence::plain_candidate(#[trigger] candidates[i])
                == candidates[i]) ==> presence_verdict(c, s, now_ms)->Ok_0.candidates == candidates,
{
    let public = outside::ed25519_public(secret);
    let r = published(
        c,
        public,
        endpoint_id,
        virtual_addrs,
        candidates,
        capabilities,
        sequence,
        issued_at_ms,
        expires_at_ms,
    )->Ok_0;
    let signature = choose|signature: [u8; 64]| #[trigger] seals_with(s, c, r, secret, signature);
    let payload = presence::payload_bytes(r);
    let plaintext = payload + signature@;
    let n = plaintext.len() - 64;
    assert(plaintext.subrange(0, n) =~= payload);
    assert(plaintext.subrange(n, plaintext.len() as int) =~= signature@);
    wire::lemma_array_of(signature);
    presence::law_payload_round_trip(r);
    authorize::lemma_member_signing(c.members, public);
    authorize::lemma_signer_is_named(c, public);
}

/// A published record whose ciphertext was changed into one that the cipher refuses is refused as
/// undecipherable. Which ciphertexts the cipher refuses is its own affair.
pub proof fn law_undecipherable_record_is_refused(
    s: SealedPresence,
    c: Config,
    r: Presence,
    secret: Seq<u8>,
    ciphertext: Seq<u8>,
    now_ms: u64,
)
    requires
        seals(s, c, r, secret),
        outside::xchacha_opened(
            record_key(c.epoch_secrets.presence_encryption_seed, s.epoch, s.opaque_key),
            s.nonce@,
            ciphertext,
            record_aad(s.version, s.epoch, s.opaque_key, s.nonce),
        ) is None,
    ensures
        presence_verdict(c, (SealedPresence { ciphertext, ..s }), now_ms) == Err::<
            Presence,
            DiscoveryError,
        >(DiscoveryError::DecryptionFailed),
{
}

/// Whatever opens was signed by a member that the configuration lists, whose certificate is in
/// force and not revoked, which the configuration gives the endpoint and every address; it
/// belongs to the network and the epoch, to this time, and to the key it was kept under.
pub proof fn law_opened_presence_is_authorized(c: Config, s: SealedPresence, now_ms: u64)
    requires
        presence_verdict(c, s, now_ms) is Ok,
    ensures
        ({
            let r = presence_verdict(c, s, now_ms)->Ok_0;
            &&& r.network_id == c.network_id
            &&& r.epoch == c.epoch == s.epoch
            &&& r.issued_at_ms <= now_ms < r.expires_at_ms
            &&& r.expires_at_ms - r.issued_at_ms <= MAX_PRESENCE_TTL_MS
            &&& s.opaque_key == lookup_key_of(c.epoch_secrets.presence_index_seed, r.endpoint_id)
            &&& authorize::member_named(c.members, r.member_id) matches Some(m) && member_in_force(
                c,
                m.payload,
                now_ms,
            )
            &&& all_authorized(c, r.member_id, r.endpoint_id, r.virtual_addrs, now_ms)
            &&& r.virtual_addrs.no_duplicates()
            &&& presence::record_ok(r)
        }),
{
    let plaintext = outside::xchacha_opened(
        record_key(c.epoch_secrets.presence_encryption_seed, s.epoch, s.opaque_key),
        s.nonce@,
        s.ciphertext,
        record_aad(s.version, s.epoch, s.opaque_key, s.nonce),
    )->Some_0;
    presence::lemma_read_payload_bounds(plaintext.subrange(0, plaintext.len() - 64));
}

/// What opens belongs to the network of the configuration.
pub proof fn lemma_opened_network(c: Config, s: SealedPresence, now_ms: u64)
    ensures
        presence_verdict(c, s, now_ms) matches Ok(r) ==> r.network_id == c.network_id,
{
}

} // verus!
