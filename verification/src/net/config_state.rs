//! The configuration that a member has stored, and how it moves forward.
use crate::config::chain;
use crate::config::chain::{ChainExpectation, ConfigHead, ConfigUpdateBatch};
use crate::config::envelope;
use crate::config::envelope::{ConfigError, EncryptedConfigEnvelope};
use crate::config::sealing;
use crate::config::sealing::{MemberEncryptionKeypair, OpenedNetworkConfig};
use crate::config::snapshot;
use crate::config::snapshot::{AdminKey, Config};
use crate::config::validate;
use crate::config::validate::ValidatedNetworkConfig;
use crate::crypto::admin;
use crate::crypto::admin::{AdminCertificate, AdminCertificatePayload, VerifiedAdmin};
use crate::crypto::keys;
use crate::crypto::keys::{CertificateError, NetworkRootPublic};
use crate::identifiers::NetworkId;
use crate::net::protocol::same_head;
use crate::wire;
use crate::wire::{arrays_equal, bytes_equal, copy_range, push_be, push_bytes, read_array, read_u64};
use std::collections::HashSet;
use vstd::prelude::*;

verus! {

/// Under which key the current envelope is stored.
pub const CONFIG_ENVELOPE_KEY: [u8; 18] = [
    99,
    111,
    110,
    102,
    105,
    103,
    47,
    101,
    110,
    118,
    101,
    108,
    111,
    112,
    101,
    47,
    118,
    49,
];

/// Under which key the current head is stored.
pub const CONFIG_HEAD_KEY: [u8; 14] = [
    99,
    111,
    110,
    102,
    105,
    103,
    47,
    104,
    101,
    97,
    100,
    47,
    118,
    49,
];

/// Under which key the certificate of the current envelope's signer is stored.
pub const CONFIG_SIGNER_CERTIFICATE_KEY: [u8; 28] = [
    99,
    111,
    110,
    102,
    105,
    103,
    47,
    115,
    105,
    103,
    110,
    101,
    114,
    45,
    99,
    101,
    114,
    116,
    105,
    102,
    105,
    99,
    97,
    116,
    101,
    47,
    118,
    49,
];

/// What the keys of earlier envelopes begin with.
pub const CONFIG_HISTORY_KEY_PREFIX: [u8; 18] = [
    99,
    111,
    110,
    102,
    105,
    103,
    47,
    104,
    105,
    115,
    116,
    111,
    114,
    121,
    47,
    118,
    49,
    47,
];

/// The length of a stored head.
pub const CONFIG_HEAD_LEN: usize = 48;

/// Why a stored configuration cannot be used or moved forward.
#[derive(Clone, Copy, Debug, PartialEq, Eq)]
pub enum ConfigStateError {
    NotJoined,
    BaseHeadMismatch,
    MissingSignerCertificate,
    CommitLost,
    MalformedHead,
    UnknownHead,
    HistoryUnavailable,
    Config(ConfigError),
    Crypto(CertificateError),
}

impl ConfigStateError {
    /// The message for people.
    pub open spec fn text(self) -> Seq<char> {
        match self {
            ConfigStateError::NotJoined => "node has no complete joined configuration checkpoint"@,
            ConfigStateError::BaseHeadMismatch => {
                "configuration update base does not equal the persisted head"@
            },
            ConfigStateError::MissingSignerCertificate => {
                "current configuration does not contain the update signer's certificate"@
            },
            ConfigStateError::CommitLost => "configuration commit could not be read back exactly"@,
            ConfigStateError::MalformedHead => "stored configuration head is malformed"@,
            ConfigStateError::UnknownHead => {
                "requested configuration head is unknown to this member"@
            },
            ConfigStateError::HistoryUnavailable => {
                "member does not retain a complete revision chain after the requested head"@
            },
            ConfigStateError::Config(error) => error.text(),
            ConfigStateError::Crypto(error) => error.text(),
        }
    }

    /// The message for people.
    pub fn message(&self) -> (text: String)
        ensures
            text@ == self.text(),
    {
        match self {
            ConfigStateError::NotJoined => {
                "node has no complete joined configuration checkpoint".to_owned()
            },
            ConfigStateError::BaseHeadMismatch => {
                "configuration update base does not equal the persisted head".to_owned()
            },
            ConfigStateError::MissingSignerCertificate => {
                "current configuration does not contain the update signer's certificate".to_owned()
            },
            ConfigStateError::CommitLost => {
                "configuration commit could not be read back exactly".to_owned()
            },
            ConfigStateError::MalformedHead => "stored configuration head is malformed".to_owned(),
            ConfigStateError::UnknownHead => {
                "requested configuration head is unknown to this member".to_owned()
            },
            ConfigStateError::HistoryUnavailable => {
                "member does not retain a complete revision chain after the requested head".to_owned()
            },
            ConfigStateError::Config(error) => error.message(),
            ConfigStateError::Crypto(error) => error.message().to_owned(),
        }
    }
}

/// The encoding of a head.
pub open spec fn head_bytes(head: ConfigHead) -> Seq<u8> {
    wire::be(head.epoch as nat, 8) + wire::be(head.revision as nat, 8) + head.hash@
}

/// The head that some bytes hold.
pub open spec fn read_head(b: Seq<u8>) -> Result<ConfigHead, ConfigStateError> {
    if b.len() != CONFIG_HEAD_LEN {
        Err(ConfigStateError::MalformedHead)
    } else {
        Ok(
            ConfigHead {
                epoch: wire::u64_at(b, 0),
                revision: wire::u64_at(b, 8),
                hash: wire::array_at(b, 16),
            },
        )
    }
}

/// A stored head is read back unchanged.
pub proof fn law_head_round_trip(head: ConfigHead)
    ensures
        read_head(head_bytes(head)) == Ok::<ConfigHead, ConfigStateError>(head),
{
    let b = head_bytes(head);
    wire::lemma_pow256_values();
    wire::lemma_be_len(head.epoch as nat, 8);
    wire::lemma_be_len(head.revision as nat, 8);
    wire::lemma_from_be_of_be(head.epoch as nat, 8);
    wire::lemma_from_be_of_be(head.revision as nat, 8);
    wire::lemma_array_of(head.hash);
    assert(b.subrange(0, 8) =~= wire::be(head.epoch as nat, 8));
    assert(b.subrange(8, 16) =~= wire::be(head.revision as nat, 8));
    assert(b.subrange(16, 48) =~= head.hash@);
}

/// Only one sequence of bytes reads as a given head: its encoding.
pub proof fn law_head_canonical(b: Seq<u8>)
    ensures
        read_head(b) matches Ok(head) ==> head_bytes(head) == b,
{
    if read_head(b) is Ok {
        wire::lemma_pow256_values();
        wire::lemma_be_of_from_be(b.subrange(0, 8));
        wire::lemma_be_of_from_be(b.subrange(8, 16));
        wire::lemma_array_exists::<32>(b.subrange(16, 48));
        assert(b =~= b.subrange(0, 8) + b.subrange(8, 16) + b.subrange(16, 48));
    }
}

/// Writes a head.
pub fn encode_head(head: ConfigHead) -> (bytes: Vec<u8>)
    ensures
        bytes@ == head_bytes(head),
{
    let mut out: Vec<u8> = Vec::new();
    push_be(&mut out, head.epoch, 8);
    push_be(&mut out, head.revision, 8);
    push_bytes(&mut out, head.hash.as_slice());
    assert(out@ =~= head_bytes(head));
    out
}

/// Reads a head.
pub fn decode_head(bytes: &[u8]) -> (head: Result<ConfigHead, ConfigStateError>)
    ensures
        head == read_head(bytes@),
{
    if bytes.len() != CONFIG_HEAD_LEN {
        return Err(ConfigStateError::MalformedHead);
    }
    Ok(
        ConfigHead {
            epoch: read_u64(bytes, 0),
            revision: read_u64(bytes, 8),
            hash: read_array::<32>(bytes, 16),
        },
    )
}

/// The key of the envelope with this revision.
pub open spec fn history_key_bytes(revision: u64) -> Seq<u8> {
    CONFIG_HISTORY_KEY_PREFIX@ + wire::be(revision as nat, 8)
}

/// The key of the envelope with this revision.
pub fn history_key(revision: u64) -> (key: Vec<u8>)
    ensures
        key@ == history_key_bytes(revision),
{
    let mut key: Vec<u8> = Vec::new();
    push_bytes(&mut key, CONFIG_HISTORY_KEY_PREFIX.as_slice());
    push_be(&mut key, revision, 8);
    key
}

/// Every revision has a key of its own.
pub proof fn law_history_keys_are_distinct(a: u64, b: u64)
    requires
        history_key_bytes(a) == history_key_bytes(b),
    ensures
        a == b,
{
    wire::lemma_pow256_values();
    wire::lemma_be_len(a as nat, 8);
    wire::lemma_be_len(b as nat, 8);
    wire::lemma_from_be_of_be(a as nat, 8);
    wire::lemma_from_be_of_be(b as nat, 8);
    assert(history_key_bytes(a).subrange(18, 26) =~= wire::be(a as nat, 8));
    assert(history_key_bytes(b).subrange(18, 26) =~= wire::be(b as nat, 8));
}

/// The certificate with a key among several: the first that can be read and has it.
pub open spec fn certificate_with(raw: Seq<Seq<u8>>, key_id: [u8; 16]) -> Option<Seq<u8>>
    decreases raw.len(),
{
    if raw.len() == 0 {
        None
    } else {
        match admin::read_signed_admin(raw[0]) {
            Some(c) => if c.payload.key_id == key_id {
                Some(raw[0])
            } else {
                certificate_with(raw.skip(1), key_id)
            },
            None => certificate_with(raw.skip(1), key_id),
        }
    }
}

fn find_certificate(admin_keys: &Vec<AdminKey>, key_id: &[u8; 16]) -> (certificate: Option<Vec<u8>>)
    ensures
        match certificate_with(snapshot::certificates(admin_keys@), *key_id) {
            Some(raw) => certificate matches Some(certificate) && certificate@ == raw,
            None => certificate is None,
        },
{
    let ghost all = snapshot::certificates(admin_keys@);
    let mut i: usize = 0;
    assert(all.skip(0) =~= all);
    while i < admin_keys.len()
        invariant
            i <= admin_keys.len(),
            all == snapshot::certificates(admin_keys@),
            certificate_with(snapshot::certificates(admin_keys@), *key_id) == certificate_with(
                all.skip(i as int),
                *key_id,
            ),
        decreases admin_keys.len() - i,
    {
        proof {
            assert(all.skip(i as int)[0] == admin_keys@[i as int].certificate@);
            assert(all.skip(i as int).skip(1) =~= all.skip(i + 1));
        }
        let raw: &Vec<u8> = &admin_keys[i].certificate;
        match AdminCertificate::from_bytes(raw.as_slice()) {
            Ok(certificate) => {
                if arrays_equal(&certificate.payload().key_id, key_id) {
                    let copy: Vec<u8> = copy_range(raw.as_slice(), 0, raw.len());
                    assert(copy@ =~= raw@);
                    return Some(copy);
                }
            },
            Err(_) => {},
        }
        i = i + 1;
    }
    None
}

/// How far a chain of envelopes was followed: the configuration, its head, and the certificate
/// of who signed for it.
pub struct Followed {
    pub config: Config,
    pub head: ConfigHead,
    pub signer: Seq<u8>,
}

/// What becomes of the next envelope of a chain: the configuration in force must hold the
/// certificate of its signer, and it must open as the next configuration.
#[verifier::opaque]
pub open spec fn follow_one(root: Seq<u8>, secret: Seq<u8>, from: Followed, raw: Seq<u8>, now_ms: u64) -> Result<
    Followed,
    ConfigStateError,
> {
    match envelope::read_envelope(raw) {
        Err(e) => Err(ConfigStateError::Config(e)),
        Ok(e) => match certificate_with(from.config.admin_keys, e.signer_key_id) {
            None => Err(ConfigStateError::MissingSignerCertificate),
            Some(signer) => match sealing::next_verdict(
                e,
                root,
                from.config,
                secret,
                from.head,
                now_ms,
            ) {
                Err(e) => Err(ConfigStateError::Config(e)),
                Ok(next) => Ok(Followed { config: next.config, head: next.head, signer }),
            },
        },
    }
}

/// What becomes of a chain of envelopes.
pub open spec fn follow(
    root: Seq<u8>,
    secret: Seq<u8>,
    from: Followed,
    raw: Seq<Seq<u8>>,
    now_ms: u64,
) -> Result<Followed, ConfigStateError>
    decreases raw.len(),
{
    if raw.len() == 0 {
        Ok(from)
    } else {
        match follow(root, secret, from, raw.drop_last(), now_ms) {
            Err(e) => Err(e),
            Ok(f) => follow_one(root, secret, f, raw.last(), now_ms),
        }
    }
}

proof fn lemma_follow_error(
    root: Seq<u8>,
    secret: Seq<u8>,
    from: Followed,
    raw: Seq<Seq<u8>>,
    now_ms: u64,
    i: int,
)
    requires
        0 <= i <= raw.len(),
        follow(root, secret, from, raw.take(i), now_ms) is Err,
    ensures
        follow(root, secret, from, raw, now_ms) == follow(root, secret, from, raw.take(i), now_ms),
    decreases raw.len() - i,
{
    if i < raw.len() {
        assert(raw.take(i + 1).drop_last() =~= raw.take(i));
        lemma_follow_error(root, secret, from, raw, now_ms, i + 1);
    } else {
        assert(raw.take(i) =~= raw);
    }
}

/// Following a chain moves forward by exactly one revision for each envelope and never to an
/// earlier epoch; what it ends with is the last envelope of the chain, stays in the network, and
/// is a configuration that is accepted now.
pub proof fn law_following_moves_forward(
    root: Seq<u8>,
    secret: Seq<u8>,
    from: Followed,
    raw: Seq<Seq<u8>>,
    now_ms: u64,
)
    requires
        follow(root, secret, from, raw, now_ms) is Ok,
    ensures
        ({
            let to = follow(root, secret, from, raw, now_ms)->Ok_0;
            &&& to.head.revision == from.head.revision + raw.len()
            &&& to.head.epoch >= from.head.epoch
            &&& to.config.network_id == from.config.network_id
            &&& raw.len() > 0 ==> (envelope::read_envelope(raw.last()) matches Ok(e) && to.head
                == chain::head_of(e) && to.config.previous_hash == e.previous_hash)
            &&& raw.len() > 0 ==> validate::config_verdict(
                to.config,
                root,
                from.config.network_id,
                now_ms,
            ) is Ok
        }),
    decreases raw.len(),
{
    if raw.len() > 0 {
        reveal(follow_one);
        law_following_moves_forward(root, secret, from, raw.drop_last(), now_ms);
        let f = follow(root, secret, from, raw.drop_last(), now_ms)->Ok_0;
        let e = envelope::read_envelope(raw.last())->Ok_0;
        sealing::law_next_is_committed(e, root, f.config, secret, f.head, now_ms);
    }
}

/// What is to be written when updates are applied: the last envelope, its head, the certificate
/// of its signer, and every envelope under the key of its revision.
#[derive(Debug)]
pub struct ConfigCommit {
    pub envelope: Vec<u8>,
    pub head: ConfigHead,
    pub signer: Vec<u8>,
    pub history: Vec<(u64, Vec<u8>)>,
    /// The versions of what is replaced.
    pub versions: StoredVersions,
}

/// A record as a store gives it: its bytes, and the version they have there.
#[derive(Debug)]
pub struct StoredRecord {
    pub bytes: Vec<u8>,
    pub version: u64,
}

/// The bytes of an optional record.
pub open spec fn stored_bytes(record: Option<StoredRecord>) -> Option<Seq<u8>> {
    match record {
        Some(record) => Some(record.bytes@),
        None => None,
    }
}

/// The version of an optional record.
pub open spec fn stored_version(record: Option<StoredRecord>) -> u64 {
    match record {
        Some(record) => record.version,
        None => 0,
    }
}

/// The versions of the three records that make up a checkpoint.
#[derive(Clone, Copy, Debug, PartialEq, Eq, Structural)]
pub struct StoredVersions {
    pub envelope: u64,
    pub head: u64,
    pub signer: u64,
}

/// What must hold of a key for a write to go through.
#[derive(Clone, Copy, Debug, PartialEq, Eq, Structural)]
pub enum Expected {
    /// There is no record.
    Missing,
    /// There is a record with this version.
    Exact(u64),
}

/// One write of several that are made together or not at all.
#[derive(Debug)]
pub struct StoreWrite {
    pub key: Vec<u8>,
    pub bytes: Vec<u8>,
    pub expected: Expected,
}

/// The contents of a write.
pub struct Written {
    pub key: Seq<u8>,
    pub bytes: Seq<u8>,
    pub expected: Expected,
}

impl View for StoreWrite {
    type V = Written;

    open spec fn view(&self) -> Written {
        Written { key: self.key@, bytes: self.bytes@, expected: self.expected }
    }
}

/// The contents of each of several writes.
pub open spec fn write_views(s: Seq<StoreWrite>) -> Seq<Written> {
    Seq::new(s.len(), |i: int| s[i]@)
}

/// One change of several that are made together or not at all.
#[derive(Debug)]
pub enum StoreChange {
    Put(StoreWrite),
    Delete { key: Vec<u8>, expected: Expected },
}

/// The contents of a change.
pub enum Changed {
    Put(Written),
    Delete { key: Seq<u8>, expected: Expected },
}

impl View for StoreChange {
    type V = Changed;

    open spec fn view(&self) -> Changed {
        match self {
            StoreChange::Put(write) => Changed::Put(write@),
            StoreChange::Delete { key, expected } => Changed::Delete {
                key: key@,
                expected: *expected,
            },
        }
    }
}

/// The contents of each of several changes.
pub open spec fn change_views(s: Seq<StoreChange>) -> Seq<Changed> {
    Seq::new(s.len(), |i: int| s[i]@)
}

/// The write of an envelope under the key of its revision.
pub open spec fn history_write(entry: (u64, Seq<u8>)) -> Written {
    Written { key: history_key_bytes(entry.0), bytes: entry.1, expected: Expected::Missing }
}

/// The writes that a commit is made of: the records of the checkpoint replace those whose versions
/// were read, and the envelopes come under keys that are free.
pub open spec fn commit_writes(commit: ConfigCommit) -> Seq<Written> {
    let history = history_views(commit.history@);
    seq![
        Written {
            key: CONFIG_ENVELOPE_KEY@,
            bytes: commit.envelope@,
            expected: Expected::Exact(commit.versions.envelope),
        },
        Written {
            key: CONFIG_HEAD_KEY@,
            bytes: head_bytes(commit.head),
            expected: Expected::Exact(commit.versions.head),
        },
        Written {
            key: CONFIG_SIGNER_CERTIFICATE_KEY@,
            bytes: commit.signer@,
            expected: Expected::Exact(commit.versions.signer),
        },
    ] + Seq::new(history.len(), |i: int| history_write(history[i]))
}

pub(crate) fn copied(bytes: &[u8]) -> (copy: Vec<u8>)
    ensures
        copy@ == bytes@,
{
    let copy: Vec<u8> = copy_range(bytes, 0, bytes.len());
    assert(copy@ =~= bytes@);
    copy
}

impl ConfigCommit {
    /// The writes to make, all together or not at all.
    pub fn writes(&self) -> (writes: Vec<StoreWrite>)
        ensures
            write_views(writes@) == commit_writes(*self),
    {
        let mut writes: Vec<StoreWrite> = Vec::new();
        writes.push(
            StoreWrite {
                key: copied(CONFIG_ENVELOPE_KEY.as_slice()),
                bytes: copied(self.envelope.as_slice()),
                expected: Expected::Exact(self.versions.envelope),
            },
        );
        writes.push(
            StoreWrite {
                key: copied(CONFIG_HEAD_KEY.as_slice()),
                bytes: encode_head(self.head),
                expected: Expected::Exact(self.versions.head),
            },
        );
        writes.push(
            StoreWrite {
                key: copied(CONFIG_SIGNER_CERTIFICATE_KEY.as_slice()),
                bytes: copied(self.signer.as_slice()),
                expected: Expected::Exact(self.versions.signer),
            },
        );
        let ghost all = commit_writes(*self);
        let mut i: usize = 0;
        assert(write_views(writes@) =~= all.take(3));
        while i < self.history.len()
            invariant
                i <= self.history.len(),
                all == commit_writes(*self),
                write_views(writes@) == all.take(3 + i),
            decreases self.history.len() - i,
        {
            let ghost before = writes@;
            writes.push(
                StoreWrite {
                    key: history_key(self.history[i].0),
                    bytes: copied(self.history[i].1.as_slice()),
                    expected: Expected::Missing,
                },
            );
            proof {
                assert(writes@.last()@ == all[3 + i]);
                assert(write_views(writes@) =~= write_views(before).push(all[3 + i]));
                assert(all.take(3 + i + 1) =~= all.take(3 + i).push(all[3 + i]));
            }
            i = i + 1;
        }
        assert(all.take(3 + i) =~= all);
        writes
    }
}

/// Whether a store with these records has under a key what is expected there.
pub open spec fn found_as(
    store: Map<Seq<u8>, (u64, Seq<u8>)>,
    key: Seq<u8>,
    expected: Expected,
) -> bool {
    match expected {
        Expected::Missing => !store.contains_key(key),
        Expected::Exact(version) => store.contains_key(key) && store[key].0 == version,
    }
}

/// Whether a store with these records lets the writes through.
pub open spec fn admitted(store: Map<Seq<u8>, (u64, Seq<u8>)>, writes: Seq<Written>) -> bool {
    forall|i: int|
        0 <= i < writes.len() ==> found_as(
            store,
            (#[trigger] writes[i]).key,
            writes[i].expected,
        )
}

/// A stored checkpoint is replaced only at the versions that were read, all three at once, and no
/// envelope that is kept is written over.
pub proof fn law_checkpoint_is_replaced_as_it_was_read(
    store: Map<Seq<u8>, (u64, Seq<u8>)>,
    commit: ConfigCommit,
)
    requires
        admitted(store, commit_writes(commit)),
    ensures
        store.contains_key(CONFIG_ENVELOPE_KEY@),
        store[CONFIG_ENVELOPE_KEY@].0 == commit.versions.envelope,
        store.contains_key(CONFIG_HEAD_KEY@),
        store[CONFIG_HEAD_KEY@].0 == commit.versions.head,
        store.contains_key(CONFIG_SIGNER_CERTIFICATE_KEY@),
        store[CONFIG_SIGNER_CERTIFICATE_KEY@].0 == commit.versions.signer,
        forall|i: int|
            0 <= i < commit.history@.len() ==> !store.contains_key(
                history_key_bytes((#[trigger] commit.history@[i]).0),
            ),
{
    let all = commit_writes(commit);
    assert(all[0].expected == Expected::Exact(commit.versions.envelope));
    assert(all[1].expected == Expected::Exact(commit.versions.head));
    assert(all[2].expected == Expected::Exact(commit.versions.signer));
    assert forall|i: int| 0 <= i < commit.history@.len() implies !store.contains_key(
        history_key_bytes((#[trigger] commit.history@[i]).0),
    ) by {
        assert(all[3 + i].expected == Expected::Missing);
    }
}

/// What was worked out from updates, before it is written.
pub struct PendingConfig {
    config: ValidatedNetworkConfig,
    commit: ConfigCommit,
}

impl PendingConfig {
    /// The configuration that comes into force.
    pub closed spec fn next(&self) -> Config {
        self.config@
    }

    /// What is to be written.
    pub closed spec fn writes(&self) -> ConfigCommit {
        self.commit
    }

    /// What is to be written.
    pub fn commit(&self) -> (commit: &ConfigCommit)
        ensures
            *commit == self.writes(),
    {
        &self.commit
    }
}

/// The revisions and bytes of envelopes that are kept.
pub open spec fn history_of(raw: Seq<Seq<u8>>) -> Seq<(u64, Seq<u8>)> {
    Seq::new(
        raw.len(),
        |i: int| (envelope::read_envelope(raw[i])->Ok_0.revision, raw[i]),
    )
}

/// The contents of what is kept.
pub open spec fn history_views(s: Seq<(u64, Vec<u8>)>) -> Seq<(u64, Seq<u8>)> {
    Seq::new(s.len(), |i: int| (s[i].0, s[i].1@))
}

proof fn lemma_history_pushed(
    before: Seq<(u64, Vec<u8>)>,
    after: Seq<(u64, Vec<u8>)>,
    all: Seq<Seq<u8>>,
    i: int,
)
    requires
        0 <= i < all.len(),
        history_views(before) == history_of(all.take(i)),
        after.len() == before.len() + 1,
        after.drop_last() == before,
        after.last().0 == envelope::read_envelope(all[i])->Ok_0.revision,
        after.last().1@ == all[i],
    ensures
        history_views(after) == history_of(all.take(i + 1)),
{
    let x = history_views(after);
    let y = history_of(all.take(i + 1));
    assert(history_views(before).len() == before.len());
    assert forall|j: int| 0 <= j < x.len() implies x[j] == y[j] by {
        assert(all.take(i + 1)[j] == all[j]);
        if j < before.len() {
            assert(after[j] == after.drop_last()[j]);
            assert(history_views(before)[j] == history_of(all.take(i))[j]);
            assert(all.take(i)[j] == all[j]);
        }
    }
    assert(x =~= y);
}

/// What becomes of updates: they must continue from the current head, be a chain within bounds,
/// and open one after the other.
pub open spec fn apply_verdict(
    root: Seq<u8>,
    secret: Seq<u8>,
    config: Config,
    head: ConfigHead,
    updates: chain::Batch,
    now_ms: u64,
) -> Result<Option<Followed>, ConfigStateError> {
    if updates.network_id != keys::network_id_of(root) || updates.base_head != head {
        Err(ConfigStateError::BaseHeadMismatch)
    } else if updates.envelopes.len() == 0 {
        Ok(None)
    } else {
        match chain::batch_verdict(updates) {
            Err(e) => Err(ConfigStateError::Config(e)),
            Ok(()) => match chain::read_batch(chain::batch_bytes(updates)) {
                Err(e) => Err(ConfigStateError::Config(e)),
                Ok(read) => match follow(
                    root,
                    secret,
                    Followed { config, head, signer: Seq::empty() },
                    read.envelopes,
                    now_ms,
                ) {
                    Err(e) => Err(e),
                    Ok(f) => Ok(Some(f)),
                },
            },
        }
    }
}

/// What becomes of the certificate of who signed a configuration: it must be readable, and the root
/// must have certified it.
pub open spec fn signer_verdict(root: Seq<u8>, certificate: Seq<u8>, now_ms: u64) -> Result<
    AdminCertificatePayload,
    CertificateError,
> {
    match admin::read_signed_admin(certificate) {
        None => Err(CertificateError::MalformedWire),
        Some(c) => admin::admin_verdict(c, root, keys::network_id_of(root), now_ms, Set::empty()),
    }
}

/// What becomes of a stored checkpoint: everything must be there and be readable, the signer must
/// be certified, and the envelope must open at the stored head.
pub open spec fn open_verdict(
    root: Seq<u8>,
    secret: Seq<u8>,
    raw: Option<Seq<u8>>,
    head: Option<Seq<u8>>,
    signer: Option<Seq<u8>>,
    now_ms: u64,
) -> Result<sealing::Unsealed, ConfigStateError> {
    match (raw, head, signer) {
        (Some(raw), Some(head), Some(signer)) => match envelope::read_envelope(raw) {
            Err(e) => Err(ConfigStateError::Config(e)),
            Ok(e) => match read_head(head) {
                Err(e) => Err(e),
                Ok(head) => match signer_verdict(root, signer, now_ms) {
                    Err(e) => Err(ConfigStateError::Crypto(e)),
                    Ok(signer) => match sealing::admin_open_verdict(
                        e,
                        root,
                        signer,
                        secret,
                        ChainExpectation::Checkpoint(head),
                        now_ms,
                    ) {
                        Err(e) => Err(ConfigStateError::Config(e)),
                        Ok(opened) => Ok(opened),
                    },
                },
            },
        },
        _ => Err(ConfigStateError::NotJoined),
    }
}

/// The bytes of an optional record.
pub open spec fn record_view(record: Option<Vec<u8>>) -> Option<Seq<u8>> {
    match record {
        Some(bytes) => Some(bytes@),
        None => None,
    }
}

/// Checks the certificate of who signed a configuration.
pub(crate) fn verified_signer(root: &NetworkRootPublic, certificate: &[u8], now_ms: u64) -> (signer: Result<
    VerifiedAdmin,
    CertificateError,
>)
    ensures
        match signer_verdict(root@, certificate@, now_ms) {
            Ok(payload) => signer matches Ok(signer) && signer@ == payload,
            Err(reason) => signer matches Err(error) && error == reason,
        },
{
    let certificate: AdminCertificate = match AdminCertificate::from_bytes(certificate) {
        Ok(certificate) => certificate,
        Err(error) => return Err(error),
    };
    let revoked: HashSet<u64> = HashSet::new();
    assert(revoked@ =~= Set::empty());
    certificate.verify(root, root.network_id(), now_ms, &revoked)
}

/// What is to be done about the stored envelope of a revision.
#[derive(Clone, Copy, Debug, PartialEq, Eq, Structural)]
pub enum SeedStep {
    /// It is there.
    Done,
    /// It is not there and has to be written.
    Write,
    /// Another one is there.
    Fail,
}

/// What is to be done about what is stored of a revision.
pub open spec fn seeding(existing: Option<Seq<u8>>, envelope: Seq<u8>) -> SeedStep {
    match existing {
        None => SeedStep::Write,
        Some(bytes) => if bytes == envelope {
            SeedStep::Done
        } else {
            SeedStep::Fail
        },
    }
}

/// Decides what is to be done about the stored envelope of a revision.
pub fn seed_step(existing: &Option<Vec<u8>>, envelope: &[u8]) -> (step: SeedStep)
    ensures
        step == (match record_view(*existing) {
            None => SeedStep::Write,
            Some(bytes) => if bytes == envelope@ {
                SeedStep::Done
            } else {
                SeedStep::Fail
            },
        }),
        step == seeding(record_view(*existing), envelope@),
{
    match existing {
        None => SeedStep::Write,
        Some(bytes) => if bytes_equal(bytes.as_slice(), envelope) {
            SeedStep::Done
        } else {
            SeedStep::Fail
        },
    }
}

/// The configuration that a member has stored.
pub struct PersistedConfigState {
    root: NetworkRootPublic,
    encryption: MemberEncryptionKeypair,
    config: ValidatedNetworkConfig,
    head: ConfigHead,
    versions: StoredVersions,
}

/// The records that a requester is missing, in order, as far as they are there.
pub open spec fn records(later: Seq<Option<Vec<u8>>>) -> Seq<Seq<u8>> {
    Seq::new(later.len(), |i: int| later[i]->Some_0@)
}

/// What is served to someone with this head: everything after it, if the stored envelope of its
/// revision is the one that the head stands for, and nothing is missing.
pub open spec fn serve_verdict(
    network: NetworkId,
    head: ConfigHead,
    base_head: ConfigHead,
    base: Option<Seq<u8>>,
    later: Seq<Option<Vec<u8>>>,
) -> Result<chain::Batch, ConfigStateError> {
    if base_head.revision > head.revision || base_head.epoch > head.epoch {
        Err(ConfigStateError::UnknownHead)
    } else {
        match base {
            None => Err(ConfigStateError::UnknownHead),
            Some(raw) => match envelope::read_envelope(raw) {
                Err(e) => Err(ConfigStateError::Config(e)),
                Ok(e) => if chain::head_of(e) != base_head {
                    Err(ConfigStateError::UnknownHead)
                } else if later.len() < head.revision - base_head.revision || exists|i: int|
                    0 <= i < head.revision - base_head.revision && #[trigger] later[i] is None {
                    Err(ConfigStateError::HistoryUnavailable)
                } else {
                    let batch = chain::Batch {
                        network_id: network,
                        base_head,
                        envelopes: records(later.take(head.revision - base_head.revision)),
                    };
                    match chain::batch_verdict(batch) {
                        Err(e) => Err(ConfigStateError::Config(e)),
                        Ok(()) => Ok(batch),
                    }
                },
            },
        }
    }
}

impl PersistedConfigState {
    /// The root key of the network.
    pub closed spec fn root_key(&self) -> Seq<u8> {
        self.root@
    }

    /// The secret key with which the member opens configurations.
    pub closed spec fn secret(&self) -> Seq<u8> {
        self.encryption@
    }

    /// The configuration in force.
    pub closed spec fn current(&self) -> Config {
        self.config@
    }

    /// Where the configuration stands in the chain.
    pub closed spec fn place(&self) -> ConfigHead {
        self.head
    }

    /// The versions of the records that the configuration was read from or last written to.
    pub closed spec fn versions(&self) -> StoredVersions {
        self.versions
    }

    /// Opens what a member has stored: the envelope, the head and the certificate of the signer.
    pub fn open(
        root: NetworkRootPublic,
        encryption: MemberEncryptionKeypair,
        envelope: Option<StoredRecord>,
        head: Option<StoredRecord>,
        signer: Option<StoredRecord>,
        now_ms: u64,
    ) -> (state: Result<Self, ConfigStateError>)
        ensures
            match open_verdict(
                root@,
                encryption@,
                stored_bytes(envelope),
                stored_bytes(head),
                stored_bytes(signer),
                now_ms,
            ) {
                Ok(opened) => state matches Ok(state) && state.root_key() == root@
                    && state.secret() == encryption@ && state.current() == opened.config
                    && state.place() == opened.head && state.versions() == (StoredVersions {
                    envelope: stored_version(envelope),
                    head: stored_version(head),
                    signer: stored_version(signer),
                }),
                Err(reason) => state matches Err(error) && error == reason,
            },
    {
        let envelope: StoredRecord = match envelope {
            Some(envelope) => envelope,
            None => return Err(ConfigStateError::NotJoined),
        };
        let head: StoredRecord = match head {
            Some(head) => head,
            None => return Err(ConfigStateError::NotJoined),
        };
        let signer: StoredRecord = match signer {
            Some(signer) => signer,
            None => return Err(ConfigStateError::NotJoined),
        };
        let versions = StoredVersions {
            envelope: envelope.version,
            head: head.version,
            signer: signer.version,
        };
        let envelope: EncryptedConfigEnvelope = match EncryptedConfigEnvelope::from_bytes(
            envelope.bytes.as_slice(),
        ) {
            Ok(envelope) => envelope,
            Err(error) => return Err(ConfigStateError::Config(error)),
        };
        let head: ConfigHead = decode_head(head.bytes.as_slice())?;
        let admin: VerifiedAdmin = match verified_signer(&root, signer.bytes.as_slice(), now_ms) {
            Ok(admin) => admin,
            Err(error) => return Err(ConfigStateError::Crypto(error)),
        };
        let opened: OpenedNetworkConfig = match envelope.open_config_with_verified_admin(
            &root,
            &admin,
            &encryption,
            ChainExpectation::Checkpoint(head),
            now_ms,
        ) {
            Ok(opened) => opened,
            Err(error) => return Err(ConfigStateError::Config(error)),
        };
        Ok(
            PersistedConfigState {
                root,
                encryption,
                config: opened.config,
                head: opened.head,
                versions,
            },
        )
    }

    pub fn network_id(&self) -> (id: NetworkId)
        ensures
            id == keys::network_id_of(self.root_key()),
    {
        self.root.network_id()
    }

    pub fn head(&self) -> (head: ConfigHead)
        ensures
            head == self.place(),
    {
        self.head
    }

    pub fn config(&self) -> (config: &ValidatedNetworkConfig)
        ensures
            config@ == self.current(),
    {
        &self.config
    }

    /// Opens the next envelope of a chain; gives the configuration, its head, the certificate of
    /// its signer, and the revision.
    fn follow_next(
        &self,
        config: &ValidatedNetworkConfig,
        head: ConfigHead,
        raw: &Vec<u8>,
        now_ms: u64,
    ) -> (next: Result<(OpenedNetworkConfig, Vec<u8>, u64), ConfigStateError>)
        ensures
            forall|signer: Seq<u8>|
                match #[trigger] follow_one(
                    self.root_key(),
                    self.secret(),
                    Followed { config: config@, head, signer },
                    raw@,
                    now_ms,
                ) {
                    Ok(f) => next matches Ok((opened, certificate, revision)) && opened.config@
                        == f.config && opened.head == f.head && certificate@ == f.signer && revision
                        == envelope::read_envelope(raw@)->Ok_0.revision,
                    Err(reason) => next matches Err(error) && error == reason,
                },
    {
        proof {
            reveal(follow_one);
        }
        let next: EncryptedConfigEnvelope = match EncryptedConfigEnvelope::from_bytes(
            raw.as_slice(),
        ) {
            Ok(next) => next,
            Err(error) => return Err(ConfigStateError::Config(error)),
        };
        proof {
            envelope::lemma_envelope_fields(&next);
        }
        let certificate: Vec<u8> = match find_certificate(
            &config.as_config().admin_keys,
            &next.signer_key_id,
        ) {
            Some(certificate) => certificate,
            None => return Err(ConfigStateError::MissingSignerCertificate),
        };
        match next.open_next_config(&self.root, config, &self.encryption, head, now_ms) {
            Ok(opened) => Ok((opened, certificate, next.revision)),
            Err(error) => Err(ConfigStateError::Config(error)),
        }
    }

    /// Opens the envelopes of a batch one after the other.
    fn follow_all(&self, updates: &ConfigUpdateBatch, now_ms: u64) -> (pending: Result<
        PendingConfig,
        ConfigStateError,
    >)
        requires
            updates@.envelopes.len() > 0,
        ensures
            match follow(
                self.root_key(),
                self.secret(),
                Followed { config: self.current(), head: self.place(), signer: Seq::empty() },
                updates@.envelopes,
                now_ms,
            ) {
                Err(reason) => pending matches Err(error) && error == reason,
                Ok(f) => {
                    &&& pending matches Ok(pending)
                    &&& pending.next() == f.config
                    &&& pending.writes().head == f.head
                    &&& pending.writes().signer@ == f.signer
                    &&& pending.writes().envelope@ == updates@.envelopes.last()
                    &&& history_views(pending.writes().history@) == history_of(updates@.envelopes)
                    &&& pending.writes().versions == self.versions()
                },
            },
    {
        let ghost all = updates@.envelopes;
        let ghost start = Followed {
            config: self.current(),
            head: self.place(),
            signer: Seq::empty(),
        };
        let mut config: ValidatedNetworkConfig = self.config.clone();
        let mut head: ConfigHead = self.head;
        let mut signer: Vec<u8> = Vec::new();
        let mut history: Vec<(u64, Vec<u8>)> = Vec::new();
        let mut i: usize = 0;
        assert(all.take(0) =~= Seq::<Seq<u8>>::empty());
        assert(signer@ =~= Seq::<u8>::empty());
        assert(history_views(history@) =~= history_of(all.take(0)));
        while i < updates.envelopes.len()
            invariant
                i <= updates.envelopes.len(),
                all == chain::raw_views(updates.envelopes@),
                all == updates@.envelopes,
                start == (Followed {
                    config: self.current(),
                    head: self.place(),
                    signer: Seq::empty(),
                }),
                follow(self.root_key(), self.secret(), start, all.take(i as int), now_ms) == Ok::<
                    Followed,
                    ConfigStateError,
                >(Followed { config: config@, head, signer: signer@ }),
                history_views(history@) == history_of(all.take(i as int)),
            decreases updates.envelopes.len() - i,
        {
            let ghost before = history@;
            let ghost held = signer@;
            let raw: &Vec<u8> = &updates.envelopes[i];
            proof {
                assert(all[i as int] == raw@);
                assert(all.take(i + 1).drop_last() =~= all.take(i as int));
                assert(all.take(i + 1).last() == raw@);
                assert(follow(self.root_key(), self.secret(), start, all.take(i + 1), now_ms)
                    == follow_one(
                    self.root_key(),
                    self.secret(),
                    Followed { config: config@, head, signer: held },
                    raw@,
                    now_ms,
                ));
                if follow(self.root_key(), self.secret(), start, all.take(i + 1), now_ms) is Err {
                    lemma_follow_error(
                        self.root_key(),
                        self.secret(),
                        start,
                        all,
                        now_ms,
                        i + 1,
                    );
                }
            }
            let (opened, certificate, revision) = self.follow_next(&config, head, raw, now_ms)?;
            config = opened.config;
            head = opened.head;
            signer = certificate;
            let copy: Vec<u8> = copy_range(raw.as_slice(), 0, raw.len());
            assert(copy@ =~= raw@);
            history.push((revision, copy));
            proof {
                assert(history@.drop_last() =~= before);
                lemma_history_pushed(before, history@, all, i as int);
            }
            i = i + 1;
        }
        proof {
            assert(all.take(i as int) =~= all);
        }
        let last: &Vec<u8> = &updates.envelopes[updates.envelopes.len() - 1];
        let envelope: Vec<u8> = copy_range(last.as_slice(), 0, last.len());
        assert(envelope@ =~= all.last());
        Ok(
            PendingConfig {
                config,
                commit: ConfigCommit { envelope, head, signer, history, versions: self.versions },
            },
        )
    }

    /// Works out what updates lead to. Nothing changes until that was written.
    pub fn plan(&self, updates: &ConfigUpdateBatch, now_ms: u64) -> (planned: Result<
        Option<PendingConfig>,
        ConfigStateError,
    >)
        ensures
            match apply_verdict(
                self.root_key(),
                self.secret(),
                self.current(),
                self.place(),
                updates@,
                now_ms,
            ) {
                Err(reason) => planned matches Err(error) && error == reason,
                Ok(None) => planned matches Ok(None),
                Ok(Some(f)) => {
                    &&& planned matches Ok(Some(pending))
                    &&& pending.next() == f.config
                    &&& pending.writes().head == f.head
                    &&& pending.writes().signer@ == f.signer
                    &&& pending.writes().envelope@ == updates@.envelopes.last()
                    &&& history_views(pending.writes().history@) == history_of(updates@.envelopes)
                    &&& pending.writes().versions == self.versions()
                },
            },
    {
        if updates.network_id != self.root.network_id() || !same_head(
            &updates.base_head,
            &self.head,
        ) {
            return Err(ConfigStateError::BaseHeadMismatch);
        }
        if updates.envelopes.len() == 0 {
            return Ok(None);
        }
        let bytes: Vec<u8> = match updates.to_bytes() {
            Ok(bytes) => bytes,
            Err(error) => return Err(ConfigStateError::Config(error)),
        };
        let read: ConfigUpdateBatch = match ConfigUpdateBatch::from_bytes(bytes.as_slice()) {
            Ok(read) => read,
            Err(error) => return Err(ConfigStateError::Config(error)),
        };
        proof {
            chain::lemma_read_back(updates@);
        }
        Ok(Some(self.follow_all(&read, now_ms)?))
    }

    /// Puts what was written into force, once it was read back: the envelope and the head must
    /// be the ones that were to be written, and a signer's certificate must be there.
    pub fn confirm(
        &mut self,
        pending: PendingConfig,
        envelope: &Option<StoredRecord>,
        head: &Option<StoredRecord>,
        signer: &Option<StoredRecord>,
    ) -> (confirmed: Result<ConfigHead, ConfigStateError>)
        ensures
            final(self).root_key() == old(self).root_key(),
            final(self).secret() == old(self).secret(),
            confirmed == confirm_verdict(
                pending.writes().envelope@,
                pending.writes().head,
                stored_bytes(*envelope),
                stored_bytes(*head),
                stored_bytes(*signer),
            ),
            match confirmed {
                Ok(_) => final(self).current() == pending.next() && final(self).place()
                    == pending.writes().head && final(self).versions() == (StoredVersions {
                    envelope: stored_version(*envelope),
                    head: stored_version(*head),
                    signer: stored_version(*signer),
                }),
                Err(_) => final(self).current() == old(self).current() && final(self).place()
                    == old(self).place() && final(self).versions() == old(self).versions(),
            },
    {
        let envelope: &StoredRecord = match envelope {
            Some(envelope) => envelope,
            None => return Err(ConfigStateError::CommitLost),
        };
        let head: &StoredRecord = match head {
            Some(head) => head,
            None => return Err(ConfigStateError::CommitLost),
        };
        let signer: &StoredRecord = match signer {
            Some(signer) => signer,
            None => return Err(ConfigStateError::CommitLost),
        };
        if !bytes_equal(envelope.bytes.as_slice(), pending.commit.envelope.as_slice()) {
            return Err(ConfigStateError::CommitLost);
        }
        let read: ConfigHead = decode_head(head.bytes.as_slice())?;
        if !same_head(&read, &pending.commit.head) {
            return Err(ConfigStateError::CommitLost);
        }
        self.config = pending.config;
        self.head = pending.commit.head;
        self.versions = StoredVersions {
            envelope: envelope.version,
            head: head.version,
            signer: signer.version,
        };
        Ok(self.head)
    }

    /// Whether a requester's head can be one of this chain at all.
    pub fn may_know(&self, base_head: ConfigHead) -> (may: bool)
        ensures
            may == !(base_head.revision > self.place().revision || base_head.epoch
                > self.place().epoch),
    {
        !(base_head.revision > self.head.revision || base_head.epoch > self.head.epoch)
    }

    /// Serves what comes after a requester's head: `base` is the stored envelope of that
    /// revision, `later` are the stored envelopes of the revisions after it.
    pub fn updates_after(
        &self,
        base_head: ConfigHead,
        base: &Option<Vec<u8>>,
        later: &Vec<Option<Vec<u8>>>,
    ) -> (updates: Result<ConfigUpdateBatch, ConfigStateError>)
        ensures
            match serve_verdict(
                keys::network_id_of(self.root_key()),
                self.place(),
                base_head,
                record_view(*base),
                later@,
            ) {
                Ok(batch) => updates matches Ok(updates) && updates@ == batch,
                Err(reason) => updates matches Err(error) && error == reason,
            },
    {
        if !self.may_know(base_head) {
            return Err(ConfigStateError::UnknownHead);
        }
        let raw_base: &Vec<u8> = match base {
            Some(raw) => raw,
            None => return Err(ConfigStateError::UnknownHead),
        };
        let envelope: EncryptedConfigEnvelope = match EncryptedConfigEnvelope::from_bytes(
            raw_base.as_slice(),
        ) {
            Ok(envelope) => envelope,
            Err(error) => return Err(ConfigStateError::Config(error)),
        };
        proof {
            envelope::lemma_envelope_fields(&envelope);
        }
        let stored = ConfigHead {
            epoch: envelope.epoch,
            revision: envelope.revision,
            hash: envelope.envelope_hash(),
        };
        if !same_head(&stored, &base_head) {
            return Err(ConfigStateError::UnknownHead);
        }
        let needed: u64 = self.head.revision - base_head.revision;
        if (later.len() as u64) < needed {
            return Err(ConfigStateError::HistoryUnavailable);
        }
        let count: usize = needed as usize;
        let mut envelopes: Vec<Vec<u8>> = Vec::new();
        let mut i: usize = 0;
        while i < count
            invariant
                i <= count <= later.len(),
                count == self.place().revision - base_head.revision,
                !(base_head.revision > self.place().revision || base_head.epoch
                    > self.place().epoch),
                record_view(*base) == Some(raw_base@),
                envelope::read_envelope(raw_base@) matches Ok(e) && chain::head_of(e) == base_head,
                chain::raw_views(envelopes@) =~= records(later@.take(i as int)),
                forall|j: int| 0 <= j < i ==> #[trigger] later@[j] is Some,
            decreases count - i,
        {
            let ghost before = envelopes@;
            match &later[i] {
                Some(raw) => {
                    let copy: Vec<u8> = copy_range(raw.as_slice(), 0, raw.len());
                    assert(copy@ =~= raw@);
                    envelopes.push(copy);
                    proof {
                        assert(chain::raw_views(envelopes@) =~= chain::raw_views(before).push(
                            raw@,
                        ));
                        assert(records(later@.take(i + 1)) =~= records(
                            later@.take(i as int),
                        ).push(raw@));
                    }
                },
                None => {
                    assert(later@[i as int] is None);
                    return Err(ConfigStateError::HistoryUnavailable);
                },
            }
            i = i + 1;
        }
        match ConfigUpdateBatch::new(self.root.network_id(), base_head, envelopes) {
            Ok(batch) => Ok(batch),
            Err(error) => Err(ConfigStateError::Config(error)),
        }
    }
}

/// What comes of reading back what was written.
pub open spec fn confirm_verdict(
    envelope: Seq<u8>,
    head: ConfigHead,
    read_envelope: Option<Seq<u8>>,
    read_head_bytes: Option<Seq<u8>>,
    read_signer: Option<Seq<u8>>,
) -> Result<ConfigHead, ConfigStateError> {
    match (read_envelope, read_head_bytes, read_signer) {
        (Some(raw), Some(h), Some(_)) => if raw != envelope {
            Err(ConfigStateError::CommitLost)
        } else {
            match read_head(h) {
                Err(e) => Err(e),
                Ok(h) => if h != head {
                    Err(ConfigStateError::CommitLost)
                } else {
                    Ok(head)
                },
            }
        },
        _ => Err(ConfigStateError::CommitLost),
    }
}

/// What was written as planned is confirmed.
pub proof fn law_written_commit_is_confirmed(envelope: Seq<u8>, head: ConfigHead, signer: Seq<u8>)
    ensures
        confirm_verdict(envelope, head, Some(envelope), Some(head_bytes(head)), Some(signer))
            == Ok::<ConfigHead, ConfigStateError>(head),
{
    law_head_round_trip(head);
}

/// What a member serves is a chain from the requester's head to its own revision: a requester
/// that takes it all reaches that revision.
pub proof fn law_served_updates_reach_the_head(
    network: NetworkId,
    head: ConfigHead,
    base_head: ConfigHead,
    base: Option<Seq<u8>>,
    later: Seq<Option<Vec<u8>>>,
)
    requires
        serve_verdict(network, head, base_head, base, later) is Ok,
    ensures
        ({
            let batch = serve_verdict(network, head, base_head, base, later)->Ok_0;
            &&& batch.network_id == network
            &&& batch.base_head == base_head
            &&& base_head.revision + batch.envelopes.len() == head.revision
            &&& chain::batch_verdict(batch) is Ok
        }),
{
}

/// Updates that do not continue from the current head are refused, whatever they hold.
pub proof fn law_only_updates_of_the_head_apply(
    root: Seq<u8>,
    secret: Seq<u8>,
    config: Config,
    head: ConfigHead,
    updates: chain::Batch,
    now_ms: u64,
)
    requires
        updates.base_head != head || updates.network_id != keys::network_id_of(root),
    ensures
        apply_verdict(root, secret, config, head, updates, now_ms) == Err::<
            Option<Followed>,
            ConfigStateError,
        >(ConfigStateError::BaseHeadMismatch),
{
}

/// Applied updates move a member forward by as many revisions as they hold, never to an earlier
/// epoch, and end with a configuration of the same network that is accepted now.
pub proof fn law_applied_updates_move_forward(
    root: Seq<u8>,
    secret: Seq<u8>,
    config: Config,
    head: ConfigHead,
    updates: chain::Batch,
    now_ms: u64,
)
    requires
        apply_verdict(root, secret, config, head, updates, now_ms) matches Ok(Some(_)),
    ensures
        ({
            let f = apply_verdict(root, secret, config, head, updates, now_ms)->Ok_0->Some_0;
            &&& f.head.revision == head.revision + updates.envelopes.len()
            &&& f.head.revision > head.revision
            &&& f.head.epoch >= head.epoch
            &&& f.config.network_id == config.network_id
            &&& validate::config_verdict(f.config, root, config.network_id, now_ms) is Ok
        }),
{
    chain::lemma_read_back(updates);
    law_following_moves_forward(
        root,
        secret,
        Followed { config, head, signer: Seq::empty() },
        updates.envelopes,
        now_ms,
    );
}

/// Whether one state of a member leads to the next by an envelope: the configuration in force holds
/// the certificate of its signer, and the envelope opens as the next configuration.
pub open spec fn leads_to(
    root: Seq<u8>,
    secret: Seq<u8>,
    from: Followed,
    raw: Seq<u8>,
    to: Followed,
    now_ms: u64,
) -> bool {
    &&& envelope::read_envelope(raw) matches Ok(e)
    &&& certificate_with(from.config.admin_keys, e.signer_key_id) == Some(to.signer)
    &&& sealing::next_verdict(e, root, from.config, secret, from.head, now_ms) matches Ok(next)
    &&& next.config == to.config
    &&& next.head == to.head
}

/// A chain of envelopes that open one after the other is followed to its end.
proof fn lemma_states_followed(
    root: Seq<u8>,
    secret: Seq<u8>,
    states: Seq<Followed>,
    raw: Seq<Seq<u8>>,
    now_ms: u64,
    n: int,
)
    requires
        0 <= n <= raw.len(),
        states.len() == raw.len() + 1,
        forall|i: int|
            0 <= i < raw.len() ==> #[trigger] leads_to(
                root,
                secret,
                states[i],
                raw[i],
                states[i + 1],
                now_ms,
            ),
    ensures
        follow(root, secret, states[0], raw.take(n), now_ms) == Ok::<Followed, ConfigStateError>(
            states[n],
        ),
    decreases n,
{
    if n > 0 {
        lemma_states_followed(root, secret, states, raw, now_ms, n - 1);
        assert(raw.take(n).drop_last() =~= raw.take(n - 1));
        reveal(follow_one);
        let i = n - 1;
        assert(leads_to(root, secret, states[i], raw[i], states[i + 1], now_ms));
    }
}

/// Updates that are for the network, start at the current head, are a chain within bounds and open
/// one after the other are all applied: a member comes to where the last of them leads, as many
/// revisions further as there are updates.
pub proof fn law_updates_that_open_are_applied(
    root: Seq<u8>,
    secret: Seq<u8>,
    config: Config,
    head: ConfigHead,
    updates: chain::Batch,
    now_ms: u64,
    states: Seq<Followed>,
)
    requires
        updates.network_id == keys::network_id_of(root),
        updates.base_head == head,
        updates.envelopes.len() > 0,
        chain::batch_verdict(updates) is Ok,
        chain::batch_bytes(updates).len() <= chain::MAX_UPDATE_BATCH_BYTES,
        states.len() == updates.envelopes.len() + 1,
        states[0] == (Followed { config, head, signer: Seq::empty() }),
        forall|i: int|
            0 <= i < updates.envelopes.len() ==> #[trigger] leads_to(
                root,
                secret,
                states[i],
                updates.envelopes[i],
                states[i + 1],
                now_ms,
            ),
    ensures
        apply_verdict(root, secret, config, head, updates, now_ms) == Ok::<
            Option<Followed>,
            ConfigStateError,
        >(Some(states.last())),
        states.last().head.revision == head.revision + updates.envelopes.len(),
{
    let n = updates.envelopes.len() as int;
    chain::law_batch_round_trip(updates);
    lemma_states_followed(root, secret, states, updates.envelopes, now_ms, n);
    assert(updates.envelopes.take(n) =~= updates.envelopes);
    law_applied_updates_move_forward(root, secret, config, head, updates, now_ms);
}

/// There is nothing to write exactly where updates for the network at the current head hold no
/// envelope.
pub proof fn law_only_empty_updates_write_nothing(
    root: Seq<u8>,
    secret: Seq<u8>,
    config: Config,
    head: ConfigHead,
    updates: chain::Batch,
    now_ms: u64,
)
    ensures
        apply_verdict(root, secret, config, head, updates, now_ms) == Ok::<
            Option<Followed>,
            ConfigStateError,
        >(None) <==> updates.network_id == keys::network_id_of(root) && updates.base_head == head
            && updates.envelopes.len() == 0,
{
}

/// An envelope is written exactly where none is stored, and left exactly where it is stored already;
/// once it is written there is nothing left to do, and no other envelope takes its place.
pub proof fn law_an_envelope_is_stored_once(existing: Option<Seq<u8>>, envelope: Seq<u8>, other: Seq<u8>)
    ensures
        seeding(existing, envelope) is Write <==> existing is None,
        seeding(existing, envelope) is Done <==> existing == Some(envelope),
        seeding(Some(envelope), envelope) is Done,
        other != envelope ==> seeding(Some(envelope), other) is Fail,
{
}

/// What is kept of accepted updates: each envelope as it came, under its own revision, and the
/// revisions are those after the base one by one.
pub proof fn law_history_keeps_every_envelope(updates: chain::Batch, i: int)
    requires
        chain::batch_verdict(updates) is Ok,
        0 <= i < updates.envelopes.len(),
    ensures
        history_of(updates.envelopes).len() == updates.envelopes.len(),
        history_of(updates.envelopes)[i].0 == updates.base_head.revision + 1 + i,
        history_of(updates.envelopes)[i].1 == updates.envelopes[i],
        history_write(history_of(updates.envelopes)[i]).key == history_key_bytes(
            (updates.base_head.revision + 1 + i) as u64,
        ),
        history_write(history_of(updates.envelopes)[i]).bytes == updates.envelopes[i],
        history_write(history_of(updates.envelopes)[i]).expected == Expected::Missing,
{
    chain::law_batch_is_a_chain(updates);
    assert(envelope::read_envelope(updates.envelopes[i]) is Ok);
}

} // verus!
