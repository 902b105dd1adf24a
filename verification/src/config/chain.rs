//! The chain that envelopes form, and batches of envelopes that extend it.
use crate::config::envelope;
use crate::config::envelope::{ConfigError, EncryptedConfigEnvelope, Envelope};
use crate::identifiers::NetworkId;
use crate::outside;
use crate::wire;
use crate::wire::{
    arrays_equal, copy_range, is_zero, push_be, push_bytes, read_array, read_u32, read_u64, starts_at,
    Cursor,
};
use vstd::prelude::*;

verus! {

/// The first bytes of a batch.
pub const UPDATE_BATCH_MAGIC: [u8; 8] = [87, 86, 82, 85, 80, 68, 0, 1];

pub const MAX_UPDATE_ENVELOPES: usize = 1024;

pub const MAX_UPDATE_BATCH_BYTES: usize = 16777216;

/// The revision that a member has reached.
#[derive(Clone, Copy, Debug, PartialEq, Eq)]
pub struct ConfigHead {
    pub epoch: u64,
    pub revision: u64,
    pub hash: [u8; 32],
}

/// Where in the chain an envelope is expected.
#[derive(Clone, Copy, Debug, PartialEq, Eq)]
pub enum ChainExpectation {
    Genesis,
    Next(ConfigHead),
    Checkpoint(ConfigHead),
}

/// Whether an envelope stands where it is expected: at the beginning, right after a head whose
/// epoch it does not go back behind, or at a head itself.
pub open spec fn chain_ok(e: Envelope, expected: ChainExpectation) -> bool {
    match expected {
        ChainExpectation::Genesis => e.revision == 0 && e.previous_hash@ == wire::zeros(32),
        ChainExpectation::Next(head) => {
            &&& e.revision == head.revision + 1
            &&& e.previous_hash == head.hash
            &&& e.epoch >= head.epoch
        },
        ChainExpectation::Checkpoint(head) => {
            &&& e.epoch == head.epoch
            &&& e.revision == head.revision
            &&& envelope::envelope_digest(e) == head.hash
        },
    }
}

/// The head that an envelope makes.
pub open spec fn head_of(e: Envelope) -> ConfigHead {
    ConfigHead { epoch: e.epoch, revision: e.revision, hash: envelope::envelope_digest(e) }
}

/// Checks where an envelope stands in the chain.
pub(crate) fn validate_chain(envelope: &EncryptedConfigEnvelope, expectation: ChainExpectation) -> (valid:
    Result<(), ConfigError>)
    ensures
        valid == (if chain_ok(envelope@, expectation) {
            Ok(())
        } else {
            Err::<(), ConfigError>(ConfigError::ChainMismatch)
        }),
{
    proof {
        envelope::lemma_envelope_fields(envelope);
    }
    let stands: bool = match expectation {
        ChainExpectation::Genesis => envelope.revision == 0 && is_zero(&envelope.previous_hash),
        ChainExpectation::Next(head) => {
            head.revision < u64::MAX && head.revision + 1 == envelope.revision && arrays_equal(
                &envelope.previous_hash,
                &head.hash,
            ) && envelope.epoch >= head.epoch
        },
        ChainExpectation::Checkpoint(head) => {
            envelope.epoch == head.epoch && envelope.revision == head.revision && arrays_equal(
                &envelope.envelope_hash(),
                &head.hash,
            )
        },
    };
    if stands {
        Ok(())
    } else {
        Err(ConfigError::ChainMismatch)
    }
}

/// An envelope that extends the chain moves the head forward by exactly one revision and never
/// back to an earlier epoch; it fits after no other revision and at no earlier place.
pub proof fn law_chain_only_moves_forward(e: Envelope, head: ConfigHead)
    requires
        chain_ok(e, ChainExpectation::Next(head)),
    ensures
        head_of(e).revision == head.revision + 1,
        head_of(e).epoch >= head.epoch,
        !chain_ok(e, ChainExpectation::Genesis),
        forall|later: ConfigHead|
            later.revision != head.revision || later.hash != head.hash || later.epoch > e.epoch
                ==> !#[trigger] chain_ok(e, ChainExpectation::Next(later)),
        !chain_ok(e, ChainExpectation::Next(head_of(e))),
        chain_ok(e, ChainExpectation::Checkpoint(head_of(e))),
{
}

/// Consecutive encrypted revisions, each exactly as it was signed, for members that stand at
/// `base_head`. The batch only carries them: each is still opened on its own.
#[derive(Debug, PartialEq, Eq)]
pub struct ConfigUpdateBatch {
    pub network_id: NetworkId,
    pub base_head: ConfigHead,
    pub envelopes: Vec<Vec<u8>>,
}

/// The contents of a batch.
pub struct Batch {
    pub network_id: NetworkId,
    pub base_head: ConfigHead,
    pub envelopes: Seq<Seq<u8>>,
}

/// The bytes in each of several vectors.
pub open spec fn raw_views(v: Seq<Vec<u8>>) -> Seq<Seq<u8>> {
    Seq::new(v.len(), |i: int| v[i]@)
}

impl View for ConfigUpdateBatch {
    type V = Batch;

    open spec fn view(&self) -> Batch {
        Batch {
            network_id: self.network_id,
            base_head: self.base_head,
            envelopes: raw_views(self.envelopes@),
        }
    }
}

impl Clone for ConfigUpdateBatch {
    fn clone(&self) -> (copy: Self)
        ensures
            copy@ == self@,
    {
        let envelopes: Vec<Vec<u8>> = self.envelopes.clone();
        assert forall|i: int| 0 <= i < self.envelopes@.len() implies raw_views(envelopes@)[i]
            == raw_views(self.envelopes@)[i] by {
            assert(cloned(self.envelopes@[i], envelopes@[i]));
            assert(envelopes@[i]@ =~= self.envelopes@[i]@);
        }
        assert(raw_views(envelopes@) =~= raw_views(self.envelopes@));
        ConfigUpdateBatch { network_id: self.network_id, base_head: self.base_head, envelopes }
    }
}

/// How far a batch has been followed: the revision and the hash that the next envelope must
/// carry, and the bytes so far.
pub struct Progress {
    pub revision: u64,
    pub previous: [u8; 32],
    pub total: nat,
}

/// One more envelope of a batch.
pub open spec fn batch_next(network: NetworkId, p: Progress, raw: Seq<u8>) -> Result<
    Progress,
    ConfigError,
> {
    if p.total + raw.len() > MAX_UPDATE_BATCH_BYTES {
        Err(ConfigError::UpdateBatchTooLarge)
    } else {
        match envelope::read_envelope(raw) {
            Err(e) => Err(e),
            Ok(e) => if e.network_id != network || e.revision != p.revision || e.previous_hash
                != p.previous || p.revision == u64::MAX {
                Err(ConfigError::ChainMismatch)
            } else {
                Ok(
                    Progress {
                        revision: (p.revision + 1) as u64,
                        previous: envelope::envelope_digest(e),
                        total: p.total + raw.len(),
                    },
                )
            },
        }
    }
}

/// How far the envelopes of a batch lead from where it starts.
pub open spec fn batch_follow(network: NetworkId, start: Progress, raw: Seq<Seq<u8>>) -> Result<
    Progress,
    ConfigError,
>
    decreases raw.len(),
{
    if raw.len() == 0 {
        Ok(start)
    } else {
        match batch_follow(network, start, raw.drop_last()) {
            Err(e) => Err(e),
            Ok(p) => batch_next(network, p, raw.last()),
        }
    }
}

/// Where a batch starts.
pub open spec fn batch_start(head: ConfigHead) -> Progress {
    Progress { revision: (head.revision + 1) as u64, previous: head.hash, total: 0 }
}

/// What is wrong with a batch: too many envelopes, a base without a successor, or the first
/// envelope that makes it too long, cannot be read or does not continue the chain.
pub open spec fn batch_verdict(b: Batch) -> Result<(), ConfigError> {
    if b.envelopes.len() > MAX_UPDATE_ENVELOPES {
        Err(ConfigError::UpdateBatchTooLarge)
    } else if b.base_head.revision == u64::MAX {
        Err(ConfigError::ChainMismatch)
    } else {
        match batch_follow(b.network_id, batch_start(b.base_head), b.envelopes) {
            Err(e) => Err(e),
            Ok(_) => Ok(()),
        }
    }
}

/// Once an envelope is refused, so is every longer batch.
proof fn lemma_follow_error(network: NetworkId, start: Progress, raw: Seq<Seq<u8>>, i: int)
    requires
        0 <= i <= raw.len(),
        batch_follow(network, start, raw.take(i)) is Err,
    ensures
        batch_follow(network, start, raw) == batch_follow(network, start, raw.take(i)),
    decreases raw.len() - i,
{
    if i < raw.len() {
        assert(raw.take(i + 1).drop_last() =~= raw.take(i));
        lemma_follow_error(network, start, raw, i + 1);
    } else {
        assert(raw.take(i) =~= raw);
    }
}

/// How far an accepted batch leads.
proof fn lemma_follow(network: NetworkId, start: Progress, raw: Seq<Seq<u8>>)
    requires
        batch_follow(network, start, raw) is Ok,
    ensures
        ({
            let p = batch_follow(network, start, raw)->Ok_0;
            &&& p.revision == start.revision + raw.len()
            &&& p.previous == (if raw.len() == 0 {
                start.previous
            } else {
                envelope::envelope_digest(envelope::read_envelope(raw.last())->Ok_0)
            })
        }),
        forall|i: int|
            0 <= i < raw.len() ==> (envelope::read_envelope(#[trigger] raw[i]) matches Ok(e) && {
                &&& e.network_id == network
                &&& e.revision == start.revision + i
                &&& e.previous_hash == (if i == 0 {
                    start.previous
                } else {
                    envelope::envelope_digest(envelope::read_envelope(raw[i - 1])->Ok_0)
                })
            }),
    decreases raw.len(),
{
    if raw.len() > 0 {
        let front = raw.drop_last();
        lemma_follow(network, start, front);
        assert forall|i: int| 0 <= i < raw.len() implies (envelope::read_envelope(
            #[trigger] raw[i],
        ) matches Ok(e) && {
            &&& e.network_id == network
            &&& e.revision == start.revision + i
            &&& e.previous_hash == (if i == 0 {
                start.previous
            } else {
                envelope::envelope_digest(envelope::read_envelope(raw[i - 1])->Ok_0)
            })
        }) by {
            if i < front.len() {
                assert(front[i] == raw[i]);
                if i > 0 {
                    assert(front[i - 1] == raw[i - 1]);
                }
            } else if i > 0 {
                assert(front.last() == raw[i - 1]);
            }
        }
    }
}

/// The envelopes of an accepted batch are revisions of its network, one after the other from the
/// base on, each naming the exact bytes of the one before it.
pub proof fn law_batch_is_a_chain(b: Batch)
    requires
        batch_verdict(b) is Ok,
    ensures
        forall|i: int|
            0 <= i < b.envelopes.len() ==> (envelope::read_envelope(
                #[trigger] b.envelopes[i],
            ) matches Ok(e) && {
                &&& e.network_id == b.network_id
                &&& e.revision == b.base_head.revision + 1 + i
                &&& e.previous_hash == (if i == 0 {
                    b.base_head.hash
                } else {
                    wire::array_of(outside::blake3_hash(b.envelopes[i - 1]))
                })
            }),
{
    lemma_follow(b.network_id, batch_start(b.base_head), b.envelopes);
    assert forall|i: int| 0 < i < b.envelopes.len() implies envelope::envelope_digest(
        envelope::read_envelope(#[trigger] b.envelopes[i - 1])->Ok_0,
    ) == wire::array_of::<32>(outside::blake3_hash(b.envelopes[i - 1])) by {
        envelope::law_envelope_canonical(b.envelopes[i - 1]);
    }
    assert forall|i: int| 0 <= i < b.envelopes.len() implies (envelope::read_envelope(
        #[trigger] b.envelopes[i],
    ) matches Ok(e) && {
        &&& e.network_id == b.network_id
        &&& e.revision == b.base_head.revision + 1 + i
        &&& e.previous_hash == (if i == 0 {
            b.base_head.hash
        } else {
            wire::array_of(outside::blake3_hash(b.envelopes[i - 1]))
        })
    }) by {
        if i > 0 {
            let before = b.envelopes[i - 1];
            envelope::law_envelope_canonical(before);
        }
    }
}

/// The encoding of one envelope in a batch: its bytes behind their length.
pub open spec fn raw_bytes(raw: Seq<u8>) -> Seq<u8> {
    wire::be(raw.len(), 4) + raw
}

/// How the envelopes of a batch are written.
pub open spec fn raw_enc() -> spec_fn(Seq<u8>) -> Seq<u8> {
    |raw: Seq<u8>| raw_bytes(raw)
}

/// The length of a batch without its envelopes.
pub const UPDATE_BATCH_HEAD_LEN: usize = 92;

/// What stands before the envelopes of a batch.
pub open spec fn batch_head_bytes(b: Batch) -> Seq<u8> {
    UPDATE_BATCH_MAGIC@ + b.network_id@ + wire::be(b.base_head.epoch as nat, 8) + wire::be(
        b.base_head.revision as nat,
        8,
    ) + b.base_head.hash@ + wire::be(b.envelopes.len(), 4)
}

/// The encoding of a batch.
pub open spec fn batch_bytes(b: Batch) -> Seq<u8> {
    batch_head_bytes(b) + wire::items_bytes(raw_enc(), b.envelopes)
}

/// One envelope of a batch.
pub open spec fn p_raw(r: Seq<u8>) -> Result<(Seq<u8>, Seq<u8>), ConfigError> {
    match wire::take_u32(r) {
        None => Err(ConfigError::MalformedWire),
        Some((n, r1)) => if n > MAX_UPDATE_BATCH_BYTES {
            Err(ConfigError::UpdateBatchTooLarge)
        } else {
            match wire::take_bytes(r1, n as int) {
                None => Err(ConfigError::MalformedWire),
                Some((raw, rest)) => Ok((raw, rest)),
            }
        },
    }
}

/// How the envelopes of a batch are read.
pub open spec fn raw_dec() -> spec_fn(Seq<u8>) -> Result<(Seq<u8>, Seq<u8>), ConfigError> {
    |r: Seq<u8>| p_raw(r)
}

/// The batch that some bytes hold, or why they hold none; what is held must also be a chain.
pub open spec fn read_batch(b: Seq<u8>) -> Result<Batch, ConfigError> {
    if b.len() > MAX_UPDATE_BATCH_BYTES {
        Err(ConfigError::UpdateBatchTooLarge)
    } else if b.len() < UPDATE_BATCH_HEAD_LEN || !wire::has_at(b, 0, UPDATE_BATCH_MAGIC@) {
        Err(ConfigError::MalformedWire)
    } else if wire::u32_at(b, 88) > MAX_UPDATE_ENVELOPES {
        Err(ConfigError::UpdateBatchTooLarge)
    } else {
        match wire::p_items(
            raw_dec(),
            b.subrange(UPDATE_BATCH_HEAD_LEN as int, b.len() as int),
            wire::u32_at(b, 88) as nat,
        ) {
            Err(e) => Err(e),
            Ok((envelopes, rest)) => if rest.len() != 0 {
                Err(ConfigError::MalformedWire)
            } else {
                let batch = Batch {
                    network_id: NetworkId(wire::array_at(b, 8)),
                    base_head: ConfigHead {
                        epoch: wire::u64_at(b, 40),
                        revision: wire::u64_at(b, 48),
                        hash: wire::array_at(b, 56),
                    },
                    envelopes,
                };
                match batch_verdict(batch) {
                    Err(e) => Err(e),
                    Ok(()) => Ok(batch),
                }
            },
        }
    }
}

proof fn lemma_raw_round_trip(raw: Seq<u8>, rest: Seq<u8>)
    requires
        raw.len() <= MAX_UPDATE_BATCH_BYTES,
    ensures
        p_raw(raw_bytes(raw) + rest) == Ok::<(Seq<u8>, Seq<u8>), ConfigError>((raw, rest)),
{
    wire::lemma_assoc(wire::be(raw.len(), 4), raw, rest);
    wire::lemma_take_u32(raw.len() as u32, raw + rest);
    wire::lemma_take_bytes(raw, rest);
}

/// The envelopes of an accepted batch are not too long.
proof fn lemma_follow_total(network: NetworkId, start: Progress, raw: Seq<Seq<u8>>)
    requires
        batch_follow(network, start, raw) is Ok,
    ensures
        forall|i: int| 0 <= i < raw.len() ==> (#[trigger] raw[i]).len() <= MAX_UPDATE_BATCH_BYTES,
    decreases raw.len(),
{
    if raw.len() > 0 {
        lemma_follow_total(network, start, raw.drop_last());
        assert forall|i: int| 0 <= i < raw.len() implies (#[trigger] raw[i]).len()
            <= MAX_UPDATE_BATCH_BYTES by {
            if i < raw.len() - 1 {
                assert(raw.drop_last()[i] == raw[i]);
            }
        }
    }
}

/// An accepted batch is read back from its bytes unchanged, where they are not too long.
pub proof fn law_batch_round_trip(b: Batch)
    requires
        batch_verdict(b) is Ok,
        batch_bytes(b).len() <= MAX_UPDATE_BATCH_BYTES,
    ensures
        read_batch(batch_bytes(b)) == Ok::<Batch, ConfigError>(b),
{
    let r = batch_bytes(b);
    let s = b.envelopes;
    let items = wire::items_bytes(raw_enc(), s);
    wire::lemma_pow256_values();
    wire::lemma_be_len(b.base_head.epoch as nat, 8);
    wire::lemma_be_len(b.base_head.revision as nat, 8);
    wire::lemma_be_len(s.len(), 4);
    wire::lemma_from_be_of_be(b.base_head.epoch as nat, 8);
    wire::lemma_from_be_of_be(b.base_head.revision as nat, 8);
    wire::lemma_from_be_of_be(s.len(), 4);
    wire::lemma_array_of(b.network_id.0);
    wire::lemma_array_of(b.base_head.hash);
    assert(r.subrange(0, 8) =~= UPDATE_BATCH_MAGIC@);
    assert(r.subrange(8, 40) =~= b.network_id@);
    assert(r.subrange(40, 48) =~= wire::be(b.base_head.epoch as nat, 8));
    assert(r.subrange(48, 56) =~= wire::be(b.base_head.revision as nat, 8));
    assert(r.subrange(56, 88) =~= b.base_head.hash@);
    assert(r.subrange(88, 92) =~= wire::be(s.len(), 4));
    assert(r.subrange(92, r.len() as int) =~= items);
    lemma_follow_total(b.network_id, batch_start(b.base_head), s);
    assert forall|i: int, tail: Seq<u8>| 0 <= i < s.len() implies raw_dec()(
        #[trigger] (raw_enc()(s[i]) + tail),
    ) == Ok::<(Seq<u8>, Seq<u8>), ConfigError>((s[i], tail)) by {
        lemma_raw_round_trip(s[i], tail);
    }
    wire::lemma_items_round_trip(raw_enc(), raw_dec(), s, Seq::empty());
    assert(items + Seq::<u8>::empty() =~= items);
}

/// Only one sequence of bytes reads as a given batch: its encoding.
pub proof fn law_batch_canonical(r: Seq<u8>)
    ensures
        read_batch(r) matches Ok(b) ==> batch_verdict(b) is Ok && batch_bytes(b) == r,
{
    if read_batch(r) is Ok {
        let b = read_batch(r)->Ok_0;
        let items = r.subrange(UPDATE_BATCH_HEAD_LEN as int, r.len() as int);
        wire::lemma_pow256_values();
        wire::lemma_array_exists::<32>(r.subrange(8, 40));
        wire::lemma_be_of_from_be(r.subrange(40, 48));
        wire::lemma_be_of_from_be(r.subrange(48, 56));
        wire::lemma_array_exists::<32>(r.subrange(56, 88));
        wire::lemma_be_of_from_be(r.subrange(88, 92));
        let dec = raw_dec();
        assert forall|r: Seq<u8>| #[trigger] dec(r) is Ok implies r == raw_enc()(dec(r)->Ok_0.0)
            + dec(r)->Ok_0.1 by {
            let (n, r1) = wire::take_u32(r)->Some_0;
            let (raw, rest) = dec(r)->Ok_0;
            wire::lemma_taken(r);
            wire::lemma_taken_bytes(r1, n as int);
            wire::lemma_assoc(wire::be(n as nat, 4), raw, rest);
        }
        wire::lemma_items_canonical(raw_enc(), dec, items, wire::u32_at(r, 88) as nat);
        let rest = wire::p_items(dec, items, wire::u32_at(r, 88) as nat)->Ok_0.1;
        assert(wire::items_bytes(raw_enc(), b.envelopes) + rest =~= wire::items_bytes(
            raw_enc(),
            b.envelopes,
        ));
        assert(r.subrange(0, 8) == UPDATE_BATCH_MAGIC@);
        assert(batch_head_bytes(b) =~= r.subrange(0, 92));
        assert(r =~= r.subrange(0, 92) + items);
    }
}

/// A batch that is a chain and can be read back is read back unchanged.
pub(crate) proof fn lemma_read_back(b: Batch)
    ensures
        batch_verdict(b) is Ok && read_batch(batch_bytes(b)) is Ok ==> read_batch(batch_bytes(b))
            == Ok::<Batch, ConfigError>(b),
{
    if batch_verdict(b) is Ok && read_batch(batch_bytes(b)) is Ok {
        law_batch_round_trip(b);
    }
}

impl ConfigUpdateBatch {
    /// Checks that the envelopes continue the chain from `base_head` on.
    fn check(network_id: NetworkId, base_head: ConfigHead, envelopes: &Vec<Vec<u8>>) -> (valid: Result<
        (),
        ConfigError,
    >)
        ensures
            valid == batch_verdict(
                Batch { network_id, base_head, envelopes: raw_views(envelopes@) },
            ),
    {
        if envelopes.len() > MAX_UPDATE_ENVELOPES {
            return Err(ConfigError::UpdateBatchTooLarge);
        }
        if base_head.revision == u64::MAX {
            return Err(ConfigError::ChainMismatch);
        }
        let ghost all = raw_views(envelopes@);
        let ghost start = batch_start(base_head);
        let mut expected_revision: u64 = base_head.revision + 1;
        let mut expected_previous: [u8; 32] = base_head.hash;
        let mut total: usize = 0;
        let mut i: usize = 0;
        assert(all.take(0) =~= Seq::<Seq<u8>>::empty());
        while i < envelopes.len()
            invariant
                i <= envelopes.len(),
                all == raw_views(envelopes@),
                total <= MAX_UPDATE_BATCH_BYTES,
                batch_follow(network_id, start, all.take(i as int)) == Ok::<Progress, ConfigError>(
                    Progress {
                        revision: expected_revision,
                        previous: expected_previous,
                        total: total as nat,
                    },
                ),
                batch_verdict(Batch { network_id, base_head, envelopes: all }) == (
                match batch_follow(network_id, start, all) {
                    Err(e) => Err::<(), ConfigError>(e),
                    Ok(_) => Ok(()),
                }),
            decreases envelopes.len() - i,
        {
            proof {
                assert(all.take(i + 1).drop_last() =~= all.take(i as int));
                assert(all.take(i + 1).last() == envelopes@[i as int]@);
                if batch_follow(network_id, start, all.take(i + 1)) is Err {
                    lemma_follow_error(network_id, start, all, i + 1);
                }
            }
            let raw: &Vec<u8> = &envelopes[i];
            if raw.len() > MAX_UPDATE_BATCH_BYTES - total {
                return Err(ConfigError::UpdateBatchTooLarge);
            }
            total = total + raw.len();
            let envelope: EncryptedConfigEnvelope = EncryptedConfigEnvelope::from_bytes(
                raw.as_slice(),
            )?;
            proof {
                envelope::lemma_envelope_fields(&envelope);
            }
            if envelope.network_id != network_id || envelope.revision != expected_revision
                || !arrays_equal(&envelope.previous_hash, &expected_previous) || expected_revision
                == u64::MAX {
                return Err(ConfigError::ChainMismatch);
            }
            expected_revision = expected_revision + 1;
            expected_previous = envelope.envelope_hash();
            i = i + 1;
        }
        proof {
            assert(all.take(i as int) =~= all);
        }
        Ok(())
    }

    /// A batch of envelopes that continue the chain from `base_head` on.
    pub fn new(network_id: NetworkId, base_head: ConfigHead, envelopes: Vec<Vec<u8>>) -> (batch: Result<
        Self,
        ConfigError,
    >)
        ensures
            ({
                let b = Batch { network_id, base_head, envelopes: raw_views(envelopes@) };
                match batch_verdict(b) {
                    Ok(()) => batch matches Ok(batch) && batch@ == b,
                    Err(reason) => batch matches Err(error) && error == reason,
                }
            }),
    {
        match Self::check(network_id, base_head, &envelopes) {
            Ok(()) => Ok(ConfigUpdateBatch { network_id, base_head, envelopes }),
            Err(error) => Err(error),
        }
    }

    /// Writes the batch, if it is still a chain.
    pub fn to_bytes(&self) -> (bytes: Result<Vec<u8>, ConfigError>)
        ensures
            match batch_verdict(self@) {
                Ok(()) => bytes matches Ok(bytes) && bytes@ == batch_bytes(self@),
                Err(reason) => bytes matches Err(error) && error == reason,
            },
    {
        match Self::check(self.network_id, self.base_head, &self.envelopes) {
            Ok(()) => {},
            Err(error) => return Err(error),
        }
        let ghost b = self@;
        let ghost all = b.envelopes;
        proof {
            lemma_follow_total(b.network_id, batch_start(b.base_head), all);
        }
        let mut out: Vec<u8> = Vec::new();
        push_bytes(&mut out, UPDATE_BATCH_MAGIC.as_slice());
        push_bytes(&mut out, self.network_id.0.as_slice());
        push_be(&mut out, self.base_head.epoch, 8);
        push_be(&mut out, self.base_head.revision, 8);
        push_bytes(&mut out, self.base_head.hash.as_slice());
        push_be(&mut out, self.envelopes.len() as u64, 4);
        assert(out@ =~= batch_head_bytes(b));
        let mut i: usize = 0;
        assert(all.take(0) =~= Seq::<Seq<u8>>::empty());
        assert(out@ =~= batch_head_bytes(b) + Seq::<u8>::empty());
        while i < self.envelopes.len()
            invariant
                i <= self.envelopes.len(),
                all == raw_views(self.envelopes@),
                forall|j: int|
                    0 <= j < all.len() ==> (#[trigger] all[j]).len() <= MAX_UPDATE_BATCH_BYTES,
                out@ == batch_head_bytes(b) + wire::items_bytes(raw_enc(), all.take(i as int)),
            decreases self.envelopes.len() - i,
        {
            let ghost o0 = out@;
            let raw: &Vec<u8> = &self.envelopes[i];
            assert(all[i as int] == raw@);
            push_be(&mut out, raw.len() as u64, 4);
            push_bytes(&mut out, raw.as_slice());
            proof {
                wire::lemma_assoc(o0, wire::be(raw@.len(), 4), raw@);
                assert(all.take(i + 1).drop_last() =~= all.take(i as int));
                wire::lemma_assoc(
                    batch_head_bytes(b),
                    wire::items_bytes(raw_enc(), all.take(i as int)),
                    raw_bytes(raw@),
                );
            }
            i = i + 1;
        }
        proof {
            assert(all.take(i as int) =~= all);
        }
        Ok(out)
    }

    /// Reads a batch and checks that it is a chain.
    pub fn from_bytes(bytes: &[u8]) -> (batch: Result<Self, ConfigError>)
        ensures
            match read_batch(bytes@) {
                Ok(value) => batch matches Ok(batch) && batch@ == value,
                Err(reason) => batch matches Err(error) && error == reason,
            },
    {
        if bytes.len() > MAX_UPDATE_BATCH_BYTES {
            return Err(ConfigError::UpdateBatchTooLarge);
        }
        if bytes.len() < UPDATE_BATCH_HEAD_LEN || !starts_at(bytes, 0, UPDATE_BATCH_MAGIC.as_slice()) {
            return Err(ConfigError::MalformedWire);
        }
        let n: u32 = read_u32(bytes, 88);
        if n as usize > MAX_UPDATE_ENVELOPES {
            return Err(ConfigError::UpdateBatchTooLarge);
        }
        let mut cursor: Cursor = Cursor::new(bytes);
        let _ = cursor.take(UPDATE_BATCH_HEAD_LEN);
        let ghost start = cursor.rest();
        let mut envelopes: Vec<Vec<u8>> = Vec::new();
        assert(raw_views(envelopes@) =~= Seq::<Seq<u8>>::empty());
        let mut i: u32 = 0;
        while i < n
            invariant
                i <= n,
                wire::p_items(raw_dec(), start, i as nat) == Ok::<
                    (Seq<Seq<u8>>, Seq<u8>),
                    ConfigError,
                >((raw_views(envelopes@), cursor.rest())),
                wire::p_items(raw_dec(), start, n as nat) matches Err(e) ==> read_batch(bytes@) == Err::<
                    Batch,
                    ConfigError,
                >(e),
            decreases n - i,
        {
            let ghost before = envelopes@;
            proof {
                if wire::p_items(raw_dec(), start, (i + 1) as nat) is Err {
                    wire::lemma_items_error(raw_dec(), start, (i + 1) as nat, n as nat);
                }
            }
            let len: u32 = match cursor.u32() {
                Some(len) => len,
                None => return Err(ConfigError::MalformedWire),
            };
            if len as usize > MAX_UPDATE_BATCH_BYTES {
                return Err(ConfigError::UpdateBatchTooLarge);
            }
            let raw: Vec<u8> = match cursor.take(len as usize) {
                Some(raw) => copy_range(raw, 0, raw.len()),
                None => return Err(ConfigError::MalformedWire),
            };
            assert(raw@ == p_raw(wire::p_items(raw_dec(), start, i as nat)->Ok_0.1)->Ok_0.0);
            let ghost value = raw@;
            envelopes.push(raw);
            assert(raw_views(envelopes@) =~= raw_views(before).push(value));
            i = i + 1;
        }
        proof {
            if cursor.rest().len() == 0 {
                assert(cursor.rest() =~= Seq::<u8>::empty());
            }
        }
        if !cursor.is_done() {
            return Err(ConfigError::MalformedWire);
        }
        let network_id: NetworkId = NetworkId(read_array::<32>(bytes, 8));
        let base_head: ConfigHead = ConfigHead {
            epoch: read_u64(bytes, 40),
            revision: read_u64(bytes, 48),
            hash: read_array::<32>(bytes, 56),
        };
        Self::new(network_id, base_head, envelopes)
    }
}

/// The bytes of some envelopes, without their lengths.
pub open spec fn total_len(raw: Seq<Seq<u8>>) -> nat
    decreases raw.len(),
{
    if raw.len() == 0 {
        0
    } else {
        total_len(raw.drop_last()) + raw.last().len()
    }
}

/// Whether an envelope is a given revision of a network and names what comes before it.
pub open spec fn stands_at(network: NetworkId, raw: Seq<u8>, revision: int, previous: [u8; 32]) -> bool {
    envelope::read_envelope(raw) matches Ok(e) && e.network_id == network && e.revision == revision
        && e.previous_hash == previous
}

/// The first envelopes of a chain are followed to the last of them, unless they are too long.
proof fn lemma_chain_followed(b: Batch, n: int)
    requires
        0 <= n <= b.envelopes.len(),
        b.base_head.revision + b.envelopes.len() < u64::MAX,
        forall|i: int|
            0 <= i < b.envelopes.len() ==> stands_at(
                b.network_id,
                #[trigger] b.envelopes[i],
                b.base_head.revision + 1 + i,
                if i == 0 {
                    b.base_head.hash
                } else {
                    wire::array_of(outside::blake3_hash(b.envelopes[i - 1]))
                },
            ),
    ensures
        batch_follow(b.network_id, batch_start(b.base_head), b.envelopes.take(n)) == (if total_len(
            b.envelopes.take(n),
        ) <= MAX_UPDATE_BATCH_BYTES {
            Ok::<Progress, ConfigError>(
                Progress {
                    revision: (b.base_head.revision + 1 + n) as u64,
                    previous: if n == 0 {
                        b.base_head.hash
                    } else {
                        wire::array_of(outside::blake3_hash(b.envelopes[n - 1]))
                    },
                    total: total_len(b.envelopes.take(n)),
                },
            )
        } else {
            Err(ConfigError::UpdateBatchTooLarge)
        }),
    decreases n,
{
    if n > 0 {
        lemma_chain_followed(b, n - 1);
        assert(b.envelopes.take(n).drop_last() =~= b.envelopes.take(n - 1));
        envelope::law_envelope_canonical(b.envelopes[n - 1]);
        assert(b.envelopes.take(n).last() == b.envelopes[n - 1]);
    }
}

/// Envelopes of one network that are the revisions after the base one by one, and each name the
/// hash of the bytes before it, are accepted as a batch exactly where they are few and short
/// enough; nothing else is ever held against them.
pub proof fn law_every_chain_is_a_batch(b: Batch)
    requires
        b.base_head.revision + b.envelopes.len() < u64::MAX,
        forall|i: int|
            0 <= i < b.envelopes.len() ==> stands_at(
                b.network_id,
                #[trigger] b.envelopes[i],
                b.base_head.revision + 1 + i,
                if i == 0 {
                    b.base_head.hash
                } else {
                    wire::array_of(outside::blake3_hash(b.envelopes[i - 1]))
                },
            ),
    ensures
        batch_verdict(b) is Ok <==> b.envelopes.len() <= 1024 && total_len(b.envelopes) <= 16777216,
        batch_verdict(b) is Err ==> batch_verdict(b) == Err::<(), ConfigError>(
            ConfigError::UpdateBatchTooLarge,
        ),
{
    lemma_chain_followed(b, b.envelopes.len() as int);
    assert(b.envelopes.take(b.envelopes.len() as int) =~= b.envelopes);
}

/// Where an envelope may stand: at the beginning exactly if it is the first revision and names
/// nothing before it; after a head exactly if it is the next revision, names the head's hash and
/// is of no earlier epoch; at a checkpoint exactly if it is the envelope that the checkpoint names.
pub proof fn law_where_an_envelope_stands(e: Envelope, head: ConfigHead)
    requires
        envelope::envelope_ok(e),
    ensures
        chain_ok(e, ChainExpectation::Genesis) <==> e.revision == 0 && forall|k: int|
            0 <= k < 32 ==> #[trigger] e.previous_hash@[k] == 0,
        chain_ok(e, ChainExpectation::Next(head)) <==> e.revision == head.revision + 1
            && e.previous_hash == head.hash && head.epoch <= e.epoch,
        chain_ok(e, ChainExpectation::Checkpoint(head)) <==> e.revision == head.revision && e.epoch
            == head.epoch && head.hash == wire::array_of::<32>(
            outside::blake3_hash(envelope::envelope_bytes(e)),
        ),
        head_of(e) == head <==> chain_ok(e, ChainExpectation::Checkpoint(head)),
{
    if forall|k: int| 0 <= k < 32 ==> #[trigger] e.previous_hash@[k] == 0 {
        assert(e.previous_hash@ =~= wire::zeros(32));
    }
}

} // verus!
