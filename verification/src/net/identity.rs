//! The identity of a client, kept as a record and a secret in separate places.
use crate::crypto::keys;
use crate::crypto::keys::derive_device_id;
use crate::identifiers::{AppAddr, DeviceId, EndpointId, NetworkId};
use crate::outside;
use crate::outside::{derive_key, endpoint_id_ok, endpoint_public_key};
use crate::wire;
use crate::wire::{arrays_equal, bytes_equal, push_bytes, read_array, starts_at};
use vstd::prelude::*;

verus! {

/// What the keys of identity records begin with.
pub const IDENTITY_KEY_PREFIX: [u8; 19] = [
    105,
    100,
    101,
    110,
    116,
    105,
    116,
    121,
    47,
    99,
    108,
    105,
    101,
    110,
    116,
    47,
    118,
    49,
    47,
];

/// The first bytes of an identity record.
pub const RECORD_MAGIC: [u8; 8] = [
    87,
    86,
    82,
    73,
    68,
    0,
    0,
    1,
];

/// The length of an identity record.
pub const RECORD_LEN: usize = 104;

/// Why an identity cannot be used.
#[derive(Clone, Copy, Debug, PartialEq, Eq, Structural)]
pub enum IdentityError {
    CorruptRecord,
    SecretPublicKeyMismatch,
    DeviceIdMismatch,
    MissingAfterConcurrentCreate,
}

impl IdentityError {
    /// The message for people.
    pub open spec fn text(self) -> Seq<char> {
        match self {
            IdentityError::CorruptRecord => "persistent client identity record is corrupt"@,
            IdentityError::SecretPublicKeyMismatch => {
                "stored endpoint secret does not match its committed public identity"@
            },
            IdentityError::DeviceIdMismatch => {
                "stored DeviceId does not match the network/app/endpoint identity derivation"@
            },
            IdentityError::MissingAfterConcurrentCreate => {
                "identity creation lost a race but no committed identity could be read"@
            },
        }
    }

    /// The message for people.
    pub fn message(&self) -> (text: &'static str)
        ensures
            text@ == self.text(),
    {
        match self {
            IdentityError::CorruptRecord => "persistent client identity record is corrupt",
            IdentityError::SecretPublicKeyMismatch => {
                "stored endpoint secret does not match its committed public identity"
            },
            IdentityError::DeviceIdMismatch => {
                "stored DeviceId does not match the network/app/endpoint identity derivation"
            },
            IdentityError::MissingAfterConcurrentCreate => {
                "identity creation lost a race but no committed identity could be read"
            },
        }
    }
}

/// The identity of a client: the secret key of its endpoint, its device, and under which name the
/// secret is kept.
pub struct PersistentClientIdentity {
    secret_key: [u8; 32],
    device_id: DeviceId,
    secret_id: [u8; 32],
}

/// The parts of an identity.
pub struct Identity {
    pub secret_key: Seq<u8>,
    pub device_id: DeviceId,
    pub secret_id: [u8; 32],
}

impl View for PersistentClientIdentity {
    type V = Identity;

    closed spec fn view(&self) -> Identity {
        Identity {
            secret_key: self.secret_key@,
            device_id: self.device_id,
            secret_id: self.secret_id,
        }
    }
}

/// What an identity record says.
#[derive(Clone, Copy, Debug)]
pub struct IdentityRecord {
    pub secret_id: [u8; 32],
    pub endpoint_id: EndpointId,
    pub device_id: DeviceId,
}

/// The name under which the secret of an endpoint is kept.
pub open spec fn secret_id_of(network: NetworkId, app: AppAddr, endpoint: EndpointId) -> [u8; 32] {
    wire::array_of(
        outside::blake3_derived("weaver.secret.endpoint.v1"@, network@ + app@ + endpoint@),
    )
}

/// The endpoint with this secret key.
pub open spec fn endpoint_of(secret: Seq<u8>) -> EndpointId {
    EndpointId(wire::array_of(outside::endpoint_public(secret)))
}

/// The encoding of an identity record.
pub open spec fn record_bytes(r: IdentityRecord) -> Seq<u8> {
    RECORD_MAGIC@ + r.secret_id@ + r.endpoint_id@ + r.device_id@
}

/// The identity record that some bytes hold.
pub open spec fn read_record(b: Seq<u8>) -> Result<IdentityRecord, IdentityError> {
    if b.len() != RECORD_LEN || !wire::has_at(b, 0, RECORD_MAGIC@) || !outside::endpoint_key_ok(
        wire::array_at::<32>(b, 40)@,
    ) {
        Err(IdentityError::CorruptRecord)
    } else {
        Ok(
            IdentityRecord {
                secret_id: wire::array_at(b, 8),
                endpoint_id: EndpointId(wire::array_at(b, 40)),
                device_id: DeviceId(wire::array_at(b, 72)),
            },
        )
    }
}

/// A record of an endpoint is read back unchanged.
pub proof fn law_record_round_trip(r: IdentityRecord)
    requires
        outside::endpoint_key_ok(r.endpoint_id@),
    ensures
        read_record(record_bytes(r)) == Ok::<IdentityRecord, IdentityError>(r),
{
    let b = record_bytes(r);
    wire::lemma_array_of(r.secret_id);
    wire::lemma_array_of(r.endpoint_id.0);
    wire::lemma_array_of(r.device_id.0);
    assert(b.subrange(0, 8) =~= RECORD_MAGIC@);
    assert(b.subrange(8, 40) =~= r.secret_id@);
    assert(b.subrange(40, 72) =~= r.endpoint_id@);
    assert(b.subrange(72, 104) =~= r.device_id@);
}

/// Only one sequence of bytes reads as a given record: its encoding.
pub proof fn law_record_canonical(b: Seq<u8>)
    ensures
        read_record(b) matches Ok(r) ==> record_bytes(r) == b,
{
    if read_record(b) is Ok {
        wire::lemma_array_exists::<32>(b.subrange(8, 40));
        wire::lemma_array_exists::<32>(b.subrange(40, 72));
        wire::lemma_array_exists::<32>(b.subrange(72, 104));
        assert(b.subrange(0, 8) == RECORD_MAGIC@);
        assert(b =~= b.subrange(0, 8) + b.subrange(8, 40) + b.subrange(40, 72) + b.subrange(72, 104));
    }
}

/// The key of the identity record of an application.
pub fn identity_key(app_addr: AppAddr) -> (key: Vec<u8>)
    ensures
        key@ == IDENTITY_KEY_PREFIX@ + app_addr@,
{
    let mut key: Vec<u8> = Vec::new();
    push_bytes(&mut key, IDENTITY_KEY_PREFIX.as_slice());
    push_bytes(&mut key, app_addr.0.as_slice());
    key
}

/// The name under which the secret of an endpoint is kept.
pub fn derive_secret_id(network_id: NetworkId, app_addr: AppAddr, endpoint_id: EndpointId) -> (id: [u8; 32])
    ensures
        id == secret_id_of(network_id, app_addr, endpoint_id),
{
    let mut material: Vec<u8> = Vec::new();
    push_bytes(&mut material, network_id.0.as_slice());
    push_bytes(&mut material, app_addr.0.as_slice());
    push_bytes(&mut material, endpoint_id.0.as_slice());
    assert(material@ =~= network_id@ + app_addr@ + endpoint_id@);
    let id: [u8; 32] = derive_key("weaver.secret.endpoint.v1", material.as_slice());
    proof {
        wire::lemma_array_of(id);
    }
    id
}

/// Writes an identity record.
pub fn encode_record(record: &IdentityRecord) -> (bytes: Vec<u8>)
    ensures
        bytes@ == record_bytes(*record),
{
    let mut bytes: Vec<u8> = Vec::new();
    push_bytes(&mut bytes, RECORD_MAGIC.as_slice());
    push_bytes(&mut bytes, record.secret_id.as_slice());
    push_bytes(&mut bytes, record.endpoint_id.0.as_slice());
    push_bytes(&mut bytes, record.device_id.0.as_slice());
    bytes
}

/// Reads an identity record.
pub fn decode_record(bytes: &[u8]) -> (record: Result<IdentityRecord, IdentityError>)
    ensures
        record == read_record(bytes@),
{
    if bytes.len() != RECORD_LEN || !starts_at(bytes, 0, RECORD_MAGIC.as_slice()) {
        return Err(IdentityError::CorruptRecord);
    }
    let endpoint_id: [u8; 32] = read_array::<32>(bytes, 40);
    if !endpoint_id_ok(&endpoint_id) {
        return Err(IdentityError::CorruptRecord);
    }
    Ok(
        IdentityRecord {
            secret_id: read_array::<32>(bytes, 8),
            endpoint_id: EndpointId(endpoint_id),
            device_id: DeviceId(read_array::<32>(bytes, 72)),
        },
    )
}

/// The identity with a secret key, for an application in a network.
pub open spec fn identity_with(secret: Seq<u8>, network: NetworkId, app: AppAddr) -> Identity {
    Identity {
        secret_key: secret,
        device_id: keys::device_id_of(network, app, endpoint_of(secret)@),
        secret_id: secret_id_of(network, app, endpoint_of(secret)),
    }
}

/// The record of an identity.
pub open spec fn record_of(i: Identity) -> IdentityRecord {
    IdentityRecord {
        secret_id: i.secret_id,
        endpoint_id: endpoint_of(i.secret_key),
        device_id: i.device_id,
    }
}

/// What becomes of a stored identity: the secret must be that of the endpoint on record, and the
/// device must be the one of that endpoint for this application in this network.
pub open spec fn restore_verdict(
    record: Seq<u8>,
    secret: Seq<u8>,
    network: NetworkId,
    app: AppAddr,
) -> Result<Identity, IdentityError> {
    match read_record(record) {
        Err(e) => Err(e),
        Ok(r) => if secret.len() != 32 {
            Err(IdentityError::CorruptRecord)
        } else if endpoint_of(secret) != r.endpoint_id {
            Err(IdentityError::SecretPublicKeyMismatch)
        } else if keys::device_id_of(network, app, r.endpoint_id@) != r.device_id {
            Err(IdentityError::DeviceIdMismatch)
        } else {
            Ok(
                Identity { secret_key: secret, device_id: r.device_id, secret_id: r.secret_id },
            )
        },
    }
}

/// The public key of a secret key, as an endpoint.
fn public_endpoint(secret: &[u8; 32]) -> (id: EndpointId)
    ensures
        id == endpoint_of(secret@),
        outside::endpoint_key_ok(id@),
{
    let id: EndpointId = EndpointId(endpoint_public_key(secret));
    proof {
        wire::lemma_array_of(id.0);
    }
    id
}

impl PersistentClientIdentity {
    /// The identity with this secret key, for an application in a network.
    pub fn new(secret_key: [u8; 32], network_id: NetworkId, app_addr: AppAddr) -> (identity: Self)
        ensures
            identity@ == identity_with(secret_key@, network_id, app_addr),
            outside::endpoint_key_ok(endpoint_of(secret_key@)@),
    {
        let endpoint_id: EndpointId = public_endpoint(&secret_key);
        PersistentClientIdentity {
            secret_key,
            device_id: derive_device_id(network_id, app_addr, &endpoint_id.0),
            secret_id: derive_secret_id(network_id, app_addr, endpoint_id),
        }
    }

    /// Restores an identity from its record and its secret.
    pub fn restore(record: &[u8], secret: &[u8], network_id: NetworkId, app_addr: AppAddr) -> (identity: Result<
        Self,
        IdentityError,
    >)
        ensures
            match restore_verdict(record@, secret@, network_id, app_addr) {
                Ok(value) => identity matches Ok(identity) && identity@ == value,
                Err(reason) => identity matches Err(error) && error == reason,
            },
    {
        let record: IdentityRecord = decode_record(record)?;
        if secret.len() != 32 {
            return Err(IdentityError::CorruptRecord);
        }
        let secret_key: [u8; 32] = read_array::<32>(secret, 0);
        proof {
            assert(secret@.subrange(0, 32) =~= secret@);
            wire::lemma_array_exists::<32>(secret@);
        }
        if public_endpoint(&secret_key) != record.endpoint_id {
            return Err(IdentityError::SecretPublicKeyMismatch);
        }
        if derive_device_id(network_id, app_addr, &record.endpoint_id.0) != record.device_id {
            return Err(IdentityError::DeviceIdMismatch);
        }
        Ok(
            PersistentClientIdentity {
                secret_key,
                device_id: record.device_id,
                secret_id: record.secret_id,
            },
        )
    }

    pub fn secret_key(&self) -> (secret: &[u8; 32])
        ensures
            secret@ == self@.secret_key,
    {
        &self.secret_key
    }

    pub fn endpoint_id(&self) -> (id: EndpointId)
        ensures
            id == endpoint_of(self@.secret_key),
    {
        public_endpoint(&self.secret_key)
    }

    pub fn device_id(&self) -> (id: DeviceId)
        ensures
            id == self@.device_id,
    {
        self.device_id
    }

    pub fn secret_id(&self) -> (id: &[u8; 32])
        ensures
            *id == self@.secret_id,
    {
        &self.secret_id
    }

    /// The record to store once the secret is kept.
    pub fn record(&self) -> (bytes: Vec<u8>)
        ensures
            bytes@ == record_bytes(record_of(self@)),
    {
        encode_record(
            &IdentityRecord {
                secret_id: self.secret_id,
                endpoint_id: self.endpoint_id(),
                device_id: self.device_id,
            },
        )
    }

    /// Checks that the secret that was kept is the one that was to be kept.
    pub fn confirm_secret(&self, kept: &[u8]) -> (confirmed: Result<(), IdentityError>)
        ensures
            confirmed == (if kept@ == self@.secret_key {
                Ok(())
            } else {
                Err::<(), IdentityError>(IdentityError::SecretPublicKeyMismatch)
            }),
    {
        if bytes_equal(kept, self.secret_key.as_slice()) {
            Ok(())
        } else {
            Err(IdentityError::SecretPublicKeyMismatch)
        }
    }

    /// Whether the secret of this identity can be discarded because another identity was stored
    /// first and does not refer to it.
    pub fn superseded_by(&self, winner: &Self) -> (discard: bool)
        ensures
            discard == (winner@.secret_id != self@.secret_id),
    {
        !arrays_equal(&winner.secret_id, &self.secret_id)
    }
}

/// A new identity is restored from its own record and secret unchanged.
pub proof fn law_identity_is_restored(secret: Seq<u8>, network: NetworkId, app: AppAddr)
    requires
        secret.len() == 32,
        outside::endpoint_key_ok(endpoint_of(secret)@),
    ensures
        restore_verdict(
            record_bytes(record_of(identity_with(secret, network, app))),
            secret,
            network,
            app,
        ) == Ok::<Identity, IdentityError>(identity_with(secret, network, app)),
{
    law_record_round_trip(record_of(identity_with(secret, network, app)));
}

/// A restored identity has the device of its own endpoint for the application and the network it
/// was asked for.
pub proof fn law_restored_identity_is_scoped(
    record: Seq<u8>,
    secret: Seq<u8>,
    network: NetworkId,
    app: AppAddr,
)
    requires
        restore_verdict(record, secret, network, app) is Ok,
    ensures
        restore_verdict(record, secret, network, app)->Ok_0.device_id == keys::device_id_of(
            network,
            app,
            endpoint_of(secret)@,
        ),
{
}

} // verus!
