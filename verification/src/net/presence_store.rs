//! Short-lived storage for sealed presence records.
use crate::discovery::presence::MAX_PRESENCE_TTL_MS;
use crate::identifiers::EndpointId;
use crate::net::protocol::MAX_PRESENCE_RECORD_BYTES;
use crate::wire::{arrays_equal, copy_range};
use vstd::prelude::*;

verus! {

/// A record in the store.
#[derive(Debug)]
struct StoredPresence {
    epoch: u64,
    opaque_key: [u8; 24],
    owner: EndpointId,
    expires_at_ms: u64,
    record: Vec<u8>,
}

/// Whose record it is, until when, and its bytes.
pub struct Stored {
    pub owner: EndpointId,
    pub expires_at_ms: u64,
    pub record: Seq<u8>,
}

impl StoredPresence {
    spec fn key(self) -> (u64, [u8; 24]) {
        (self.epoch, self.opaque_key)
    }

    spec fn value(self) -> Stored {
        Stored {
            owner: self.owner,
            expires_at_ms: self.expires_at_ms,
            record: self.record@,
        }
    }
}

/// Bounded storage for sealed presence records. Records can be indexed and expire, but what is
/// in them stays hidden.
#[derive(Debug)]
pub struct MemoryOpaquePresenceStore {
    capacity: usize,
    records: Vec<StoredPresence>,
}

/// Why a record was not published.
#[derive(Clone, Copy, Debug, PartialEq, Eq, Structural)]
pub enum PresenceStoreError {
    Invalid,
    OwnedByAnother,
    Full,
}

impl PresenceStoreError {
    /// What went wrong, in words.
    pub fn message(&self) -> (text: &'static str)
        ensures
            text@ == match *self {
                PresenceStoreError::Invalid => "invalid opaque presence record"@,
                PresenceStoreError::OwnedByAnother => {
                    "opaque presence key is owned by another endpoint"@
                },
                PresenceStoreError::Full => "opaque presence store is full"@,
            },
    {
        match self {
            PresenceStoreError::Invalid => "invalid opaque presence record",
            PresenceStoreError::OwnedByAnother => "opaque presence key is owned by another endpoint",
            PresenceStoreError::Full => "opaque presence store is full",
        }
    }
}

/// What is stored and has not expired.
pub open spec fn live(m: Map<(u64, [u8; 24]), Stored>, now_ms: u64) -> Map<(u64, [u8; 24]), Stored> {
    m.restrict(Set::new(|k: (u64, [u8; 24])| m.dom().contains(k) && m[k].expires_at_ms > now_ms))
}

/// Whether a record can be stored at all: it is neither empty nor too long, and it expires, but
/// not too late.
pub open spec fn storable(record: Seq<u8>, expires_at_ms: u64, now_ms: u64) -> bool {
    &&& 0 < record.len() <= MAX_PRESENCE_RECORD_BYTES
    &&& now_ms < expires_at_ms <= now_ms + MAX_PRESENCE_TTL_MS
}

/// Whether a record may be published: it can be stored, its key belongs to nobody else, and
/// there is room.
pub open spec fn publish_verdict(
    m: Map<(u64, [u8; 24]), Stored>,
    capacity: nat,
    key: (u64, [u8; 24]),
    value: Stored,
    now_ms: u64,
) -> Result<(), PresenceStoreError> {
    let kept = live(m, now_ms);
    if !storable(value.record, value.expires_at_ms, now_ms) {
        Err(PresenceStoreError::Invalid)
    } else if kept.dom().contains(key) {
        if kept[key].owner != value.owner {
            Err(PresenceStoreError::OwnedByAnother)
        } else {
            Ok(())
        }
    } else if kept.dom().len() >= capacity {
        Err(PresenceStoreError::Full)
    } else {
        Ok(())
    }
}

/// What is stored after a record was offered.
pub open spec fn after_publish(
    m: Map<(u64, [u8; 24]), Stored>,
    capacity: nat,
    key: (u64, [u8; 24]),
    value: Stored,
    now_ms: u64,
) -> Map<(u64, [u8; 24]), Stored> {
    match publish_verdict(m, capacity, key, value, now_ms) {
        Err(PresenceStoreError::Invalid) => m,
        Err(_) => live(m, now_ms),
        Ok(()) => live(m, now_ms).insert(key, value),
    }
}

spec fn contents(s: Seq<StoredPresence>) -> Map<(u64, [u8; 24]), Stored>
    decreases s.len(),
{
    if s.len() == 0 {
        Map::empty()
    } else {
        contents(s.drop_last()).insert(s.last().key(), s.last().value())
    }
}

spec fn unique(s: Seq<StoredPresence>) -> bool {
    forall|i: int, j: int| 0 <= i < j < s.len() ==> (#[trigger] s[i]).key() != (#[trigger] s[j]).key()
}

proof fn lemma_contents(s: Seq<StoredPresence>)
    requires
        unique(s),
    ensures
        contents(s).dom().finite(),
        contents(s).dom().len() == s.len(),
        forall|i: int|
            0 <= i < s.len() ==> contents(s).dom().contains((#[trigger] s[i]).key()) && contents(
                s,
            )[s[i].key()] == s[i].value(),
        forall|k: (u64, [u8; 24])| #[trigger]
            contents(s).dom().contains(k) ==> exists|i: int|
                0 <= i < s.len() && (#[trigger] s[i]).key() == k,
    decreases s.len(),
{
    if s.len() > 0 {
        let front = s.drop_last();
        assert(unique(front)) by {
            assert forall|i: int, j: int| 0 <= i < j < front.len() implies (
            #[trigger] front[i]).key() != (#[trigger] front[j]).key() by {
                assert(front[i] == s[i] && front[j] == s[j]);
            }
        }
        lemma_contents(front);
        let m = contents(front);
        let k = s.last().key();
        if m.dom().contains(k) {
            let i = choose|i: int| 0 <= i < front.len() && (#[trigger] front[i]).key() == k;
            assert(s[i].key() != s[s.len() - 1].key());
        }
        assert(contents(s).dom() =~= m.dom().insert(k));
        assert forall|i: int| 0 <= i < s.len() implies contents(s).dom().contains(
            (#[trigger] s[i]).key(),
        ) && contents(s)[s[i].key()] == s[i].value() by {
            if i < front.len() {
                assert(front[i] == s[i]);
                assert(s[i].key() != s[s.len() - 1].key());
            }
        }
        assert forall|q: (u64, [u8; 24])| #[trigger] contents(s).dom().contains(q) implies exists|
            i: int,
        |
            0 <= i < s.len() && (#[trigger] s[i]).key() == q by {
            if q == k {
                assert(s[s.len() - 1].key() == q);
            } else {
                assert(m.dom().contains(q));
                let i = choose|i: int| 0 <= i < front.len() && (#[trigger] front[i]).key() == q;
                assert(s[i].key() == q);
            }
        }
    } else {
        assert(contents(s).dom() =~= Set::empty());
    }
}

proof fn lemma_replaced(s: Seq<StoredPresence>, at: int, e: StoredPresence)
    requires
        unique(s),
        0 <= at < s.len(),
        s[at].key() == e.key(),
    ensures
        contents(s.update(at, e)) == contents(s).insert(e.key(), e.value()),
        unique(s.update(at, e)),
    decreases s.len(),
{
    let t = s.update(at, e);
    assert(unique(t)) by {
        assert forall|i: int, j: int| 0 <= i < j < t.len() implies (#[trigger] t[i]).key() != (
        #[trigger] t[j]).key() by {
            assert(s[i].key() != s[j].key());
        }
    }
    let front = s.drop_last();
    if at == s.len() - 1 {
        assert(t.drop_last() =~= front);
        assert(contents(t) =~= contents(s).insert(e.key(), e.value()));
    } else {
        assert(t.drop_last() =~= front.update(at, e));
        assert(unique(front)) by {
            assert forall|i: int, j: int| 0 <= i < j < front.len() implies (
            #[trigger] front[i]).key() != (#[trigger] front[j]).key() by {
                assert(front[i] == s[i] && front[j] == s[j]);
            }
        }
        lemma_replaced(front, at, e);
        assert(s[at].key() != s[s.len() - 1].key());
        assert(contents(t) =~= contents(s).insert(e.key(), e.value()));
    }
}

impl View for MemoryOpaquePresenceStore {
    type V = Map<(u64, [u8; 24]), Stored>;

    closed spec fn view(&self) -> Map<(u64, [u8; 24]), Stored> {
        contents(self.records@)
    }
}

/// Keeps what has not expired.
fn keep_live(records: Vec<StoredPresence>, now_ms: u64) -> (kept: Vec<StoredPresence>)
    requires
        unique(records@),
    ensures
        unique(kept@),
        contents(kept@) == live(contents(records@), now_ms),
        kept@.len() <= records@.len(),
{
    let ghost all = records@;
    let mut left: Vec<StoredPresence> = records;
    let mut kept: Vec<StoredPresence> = Vec::new();
    let ghost mut done: int = 0;
    proof {
        assert(all.skip(0) =~= all);
        assert(contents(all.take(0)) =~= Map::empty());
        assert(live(contents(all.take(0)), now_ms) =~= contents(kept@));
    }
    while left.len() > 0
        invariant
            unique(all),
            0 <= done <= all.len(),
            left@ == all.skip(done),
            unique(kept@),
            kept@.len() <= done,
            contents(kept@) == live(contents(all.take(done)), now_ms),
            forall|i: int|
                0 <= i < kept@.len() ==> exists|j: int| 0 <= j < done && (#[trigger] kept@[i]).key() == (#[trigger] all[j]).key(),
        decreases left.len(),
    {
        let entry: StoredPresence = left.remove(0);
        let ghost before = kept@;
        proof {
            assert(entry == all[done]);
            assert(all.skip(done).remove(0) =~= all.skip(done + 1));
            assert(all.take(done + 1).drop_last() =~= all.take(done));
            let m = contents(all.take(done));
            let k = entry.key();
            assert(unique(all.take(done)));
            lemma_contents(all.take(done));
            if m.dom().contains(k) {
                let i = choose|i: int|
                    0 <= i < all.take(done).len() && (#[trigger] all.take(done)[i]).key() == k;
                assert(all[i].key() != all[done].key());
            }
            if entry.expires_at_ms > now_ms {
                assert(live(contents(all.take(done + 1)), now_ms) =~= live(m, now_ms).insert(
                    k,
                    entry.value(),
                ));
            } else {
                assert(live(contents(all.take(done + 1)), now_ms) =~= live(m, now_ms));
            }
        }
        if entry.expires_at_ms > now_ms {
            kept.push(entry);
            proof {
                assert(kept@.drop_last() =~= before);
                assert forall|i: int, j: int| 0 <= i < j < kept@.len() implies (
                #[trigger] kept@[i]).key() != (#[trigger] kept@[j]).key() by {
                    if j < before.len() {
                        assert(kept@[i] == before[i] && kept@[j] == before[j]);
                    } else {
                        assert(kept@[i] == before[i]);
                        let q = choose|q: int|
                            0 <= q < done && before[i].key() == (#[trigger] all[q]).key();
                        assert(all[q].key() != all[done].key());
                    }
                }
            }
        }
        proof {
            assert forall|i: int| 0 <= i < kept@.len() implies exists|j: int|
                0 <= j < done + 1 && (#[trigger] kept@[i]).key() == (#[trigger] all[j]).key() by {
                if i < before.len() {
                    assert(kept@[i] == before[i]);
                } else {
                    assert(kept@[i].key() == all[done].key());
                }
            }
            done = done + 1;
        }
    }
    proof {
        assert(all.take(done) =~= all);
    }
    kept
}

/// Where the record under a key stands.
fn find(records: &Vec<StoredPresence>, epoch: u64, opaque_key: &[u8; 24]) -> (at: Option<usize>)
    ensures
        match at {
            Some(i) => i < records@.len() && records@[i as int].key() == (epoch, *opaque_key),
            None => forall|i: int|
                0 <= i < records@.len() ==> (#[trigger] records@[i]).key() != (epoch, *opaque_key),
        },
{
    let mut i: usize = 0;
    while i < records.len()
        invariant
            i <= records.len(),
            forall|j: int|
                0 <= j < i ==> (#[trigger] records@[j]).key() != (epoch, *opaque_key),
        decreases records.len() - i,
    {
        if records[i].epoch == epoch && arrays_equal(&records[i].opaque_key, opaque_key) {
            return Some(i);
        }
        i = i + 1;
    }
    None
}

impl MemoryOpaquePresenceStore {
    #[verifier::type_invariant]
    spec fn well_formed(self) -> bool {
        unique(self.records@) && self.records@.len() <= self.capacity
    }

    /// How many records there is room for.
    pub closed spec fn limit(&self) -> nat {
        self.capacity as nat
    }

    /// An empty store with room for this many records.
    pub fn new(capacity: usize) -> (store: Self)
        requires
            capacity > 0,
        ensures
            store.limit() == capacity,
            store@ == Map::<(u64, [u8; 24]), Stored>::empty(),
    {
        MemoryOpaquePresenceStore { capacity, records: Vec::new() }
    }

    /// Forgets what has expired and hands out the rest, to be put back.
    fn take_live(&mut self, now_ms: u64) -> (kept: Vec<StoredPresence>)
        ensures
            unique(kept@),
            contents(kept@) == live(old(self)@, now_ms),
            kept@.len() <= final(self).capacity,
            final(self).capacity == old(self).capacity,
    {
        proof {
            use_type_invariant(&*self);
        }
        let mut records: Vec<StoredPresence> = Vec::new();
        std::mem::swap(&mut records, &mut self.records);
        keep_live(records, now_ms)
    }

    /// Stores a record under its key for an authenticated peer.
    pub fn publish(
        &mut self,
        authenticated_peer: EndpointId,
        epoch: u64,
        opaque_key: [u8; 24],
        expires_at_ms: u64,
        record: Vec<u8>,
        now_ms: u64,
    ) -> (published: Result<(), PresenceStoreError>)
        ensures
            ({
                let value = Stored { owner: authenticated_peer, expires_at_ms, record: record@ };
                let key = (epoch, opaque_key);
                &&& published == publish_verdict(old(self)@, old(self).limit(), key, value, now_ms)
                &&& final(self)@ == after_publish(
                    old(self)@,
                    old(self).limit(),
                    key,
                    value,
                    now_ms,
                )
            }),
            final(self).limit() == old(self).limit(),
            final(self)@.dom().finite(),
            final(self)@.dom().len() <= final(self).limit(),
    {
        proof {
            use_type_invariant(&*self);
            lemma_contents(self.records@);
        }
        if record.len() == 0 || record.len() > MAX_PRESENCE_RECORD_BYTES || expires_at_ms <= now_ms
            || expires_at_ms - now_ms > MAX_PRESENCE_TTL_MS {
            return Err(PresenceStoreError::Invalid);
        }
        let mut records: Vec<StoredPresence> = self.take_live(now_ms);
        let entry = StoredPresence {
            epoch,
            opaque_key,
            owner: authenticated_peer,
            expires_at_ms,
            record,
        };
        let ghost value = entry.value();
        proof {
            lemma_contents(records@);
        }
        match find(&records, epoch, &opaque_key) {
            Some(at) => {
                if records[at].owner != authenticated_peer {
                    self.records = records;
                    return Err(PresenceStoreError::OwnedByAnother);
                }
                proof {
                    lemma_replaced(records@, at as int, entry);
                    lemma_contents(records@.update(at as int, entry));
                }
                records.set(at, entry);
            },
            None => {
                if records.len() >= self.capacity {
                    self.records = records;
                    return Err(PresenceStoreError::Full);
                }
                let ghost before = records@;
                records.push(entry);
                proof {
                    assert(records@.drop_last() =~= before);
                    assert forall|i: int, j: int| 0 <= i < j < records@.len() implies (
                    #[trigger] records@[i]).key() != (#[trigger] records@[j]).key() by {
                        if j < before.len() {
                            assert(records@[i] == before[i] && records@[j] == before[j]);
                        } else {
                            assert(records@[i] == before[i]);
                        }
                    }
                    lemma_contents(records@);
                }
            },
        }
        self.records = records;
        Ok(())
    }

    /// The record under a key and when it expires, where there is one that has not.
    pub fn query(&mut self, epoch: u64, opaque_key: [u8; 24], now_ms: u64) -> (found: Option<
        (u64, Vec<u8>),
    >)
        ensures
            final(self)@ == live(old(self)@, now_ms),
            final(self).limit() == old(self).limit(),
            match found {
                Some((expires_at_ms, record)) => live(old(self)@, now_ms).dom().contains(
                    (epoch, opaque_key),
                ) && live(old(self)@, now_ms)[(epoch, opaque_key)].expires_at_ms == expires_at_ms
                    && live(old(self)@, now_ms)[(epoch, opaque_key)].record == record@,
                None => !live(old(self)@, now_ms).dom().contains((epoch, opaque_key)),
            },
    {
        let records: Vec<StoredPresence> = self.take_live(now_ms);
        proof {
            lemma_contents(records@);
        }
        let found: Option<(u64, Vec<u8>)> = match find(&records, epoch, &opaque_key) {
            Some(at) => {
                let copy: Vec<u8> = copy_range(
                    records[at].record.as_slice(),
                    0,
                    records[at].record.len(),
                );
                assert(copy@ =~= records@[at as int].record@);
                Some((records[at].expires_at_ms, copy))
            },
            None => None,
        };
        self.records = records;
        found
    }
}

/// A published record is found until it expires, and no longer.
pub proof fn law_published_record_is_found(
    m: Map<(u64, [u8; 24]), Stored>,
    capacity: nat,
    key: (u64, [u8; 24]),
    value: Stored,
    now_ms: u64,
    later_ms: u64,
)
    requires
        publish_verdict(m, capacity, key, value, now_ms) is Ok,
    ensures
        ({
            let then = live(after_publish(m, capacity, key, value, now_ms), later_ms);
            &&& then.dom().contains(key) <==> later_ms < value.expires_at_ms
            &&& later_ms < value.expires_at_ms ==> then[key] == value
        }),
{
}

/// While a record has not expired, no other endpoint can replace it: an offer under its key is
/// refused and the record stays.
pub proof fn law_record_is_kept_for_its_owner(
    m: Map<(u64, [u8; 24]), Stored>,
    capacity: nat,
    key: (u64, [u8; 24]),
    value: Stored,
    now_ms: u64,
)
    requires
        live(m, now_ms).dom().contains(key),
        value.owner != m[key].owner,
    ensures
        publish_verdict(m, capacity, key, value, now_ms) is Err,
        after_publish(m, capacity, key, value, now_ms).dom().contains(key),
        after_publish(m, capacity, key, value, now_ms)[key] == m[key],
{
}

/// An owner can always refresh its record, however full the store is.
pub proof fn law_owner_can_refresh(
    m: Map<(u64, [u8; 24]), Stored>,
    capacity: nat,
    key: (u64, [u8; 24]),
    value: Stored,
    now_ms: u64,
)
    requires
        live(m, now_ms).dom().contains(key),
        value.owner == m[key].owner,
        storable(value.record, value.expires_at_ms, now_ms),
    ensures
        publish_verdict(m, capacity, key, value, now_ms) is Ok,
{
}

/// What is stored under one key does not depend on what is offered under another.
pub proof fn law_other_keys_are_untouched(
    m: Map<(u64, [u8; 24]), Stored>,
    capacity: nat,
    key: (u64, [u8; 24]),
    value: Stored,
    now_ms: u64,
    other: (u64, [u8; 24]),
)
    requires
        other != key,
    ensures
        ({
            let then = live(after_publish(m, capacity, key, value, now_ms), now_ms);
            &&& then.dom().contains(other) <==> live(m, now_ms).dom().contains(other)
            &&& then.dom().contains(other) ==> then[other] == m[other]
        }),
{
}

/// What is kept is what has not expired, as it was stored.
pub proof fn law_what_is_kept(
    m: Map<(u64, [u8; 24]), Stored>,
    now_ms: u64,
    key: (u64, [u8; 24]),
)
    ensures
        live(m, now_ms).dom().contains(key) <==> m.dom().contains(key) && now_ms
            < m[key].expires_at_ms,
        live(m, now_ms).dom().contains(key) ==> live(m, now_ms)[key] == m[key],
{
}

/// A record is published exactly where it is neither empty nor too long, expires later than now and
/// within the longest lifetime, and its key either holds a record of the same owner that has not
/// expired, or holds none and fewer keys than there is room for do. Each refusal has one reason: a
/// record that cannot be stored, a key that another endpoint holds, a store that is full.
pub proof fn law_when_a_record_is_published(
    m: Map<(u64, [u8; 24]), Stored>,
    capacity: nat,
    key: (u64, [u8; 24]),
    value: Stored,
    now_ms: u64,
)
    ensures
        ({
            let held = m.dom().contains(key) && now_ms < m[key].expires_at_ms;
            let holding = m.dom().filter(|k: (u64, [u8; 24])| now_ms < m[k].expires_at_ms);
            let sound = 1 <= value.record.len() <= 16384 && now_ms < value.expires_at_ms
                && value.expires_at_ms - now_ms <= 300000;
            let verdict = publish_verdict(m, capacity, key, value, now_ms);
            &&& verdict is Ok <==> sound && (if held {
                m[key].owner == value.owner
            } else {
                holding.len() < capacity
            })
            &&& verdict == Err::<(), PresenceStoreError>(PresenceStoreError::Invalid) <==> !sound
            &&& verdict == Err::<(), PresenceStoreError>(PresenceStoreError::OwnedByAnother)
                <==> sound && held && m[key].owner != value.owner
            &&& verdict == Err::<(), PresenceStoreError>(PresenceStoreError::Full) <==> sound
                && !held && holding.len() >= capacity
        }),
{
    let holding = m.dom().filter(|k: (u64, [u8; 24])| now_ms < m[k].expires_at_ms);
    assert(live(m, now_ms).dom() =~= holding);
}

/// What an offer leaves behind: everything as it was where the record cannot be stored; otherwise
/// what has expired is gone, and only where the record was accepted is it there, under its key.
pub proof fn law_what_an_offer_leaves(
    m: Map<(u64, [u8; 24]), Stored>,
    capacity: nat,
    key: (u64, [u8; 24]),
    value: Stored,
    now_ms: u64,
    other: (u64, [u8; 24]),
)
    ensures
        ({
            let verdict = publish_verdict(m, capacity, key, value, now_ms);
            let left = after_publish(m, capacity, key, value, now_ms);
            &&& verdict == Err::<(), PresenceStoreError>(PresenceStoreError::Invalid) ==> left == m
            &&& verdict is Ok ==> left.dom().contains(key) && left[key] == value
            &&& verdict != Err::<(), PresenceStoreError>(PresenceStoreError::Invalid) && (other
                != key || verdict is Err) ==> {
                &&& left.dom().contains(other) <==> m.dom().contains(other) && now_ms
                    < m[other].expires_at_ms
                &&& left.dom().contains(other) ==> left[other] == m[other]
            }
        }),
{
}

} // verus!
