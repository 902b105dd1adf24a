//! Where the endpoints of one network can be reached, as far as is currently known.
use crate::discovery::address::SocketAddress;
use crate::discovery::lan::LanObservation;
use crate::discovery::presence;
use crate::discovery::presence::{Candidate, DiscoveryCandidate, DiscoveryError, PresenceRecord};
use crate::identifiers::{EndpointId, NetworkId};
use crate::outside;
use crate::outside::parse_relay_url;
use vstd::prelude::*;

verus! {

/// Where a change of what is known came from.
#[derive(Clone, Copy, Debug, PartialEq, Eq, Structural)]
pub enum AddressLookupSource {
    ProtectedLan,
    EncryptedPresence,
}

/// That something about an endpoint became known or is known no more.
#[derive(Clone, Copy, Debug, PartialEq, Eq)]
pub struct AddressLookupUpdate {
    pub endpoint_id: EndpointId,
    pub source: AddressLookupSource,
    pub expired: bool,
    pub candidate_count: usize,
}

/// What is known of one endpoint: whether anyone asked for it or anything was heard of it, where
/// it was seen on the local network, and what its presence record says.
pub struct Known {
    pub known: bool,
    pub lan: Option<Seq<SocketAddress>>,
    pub presence: Option<Seq<Candidate>>,
}

#[derive(Debug)]
struct LookupEntry {
    endpoint_id: EndpointId,
    lan: Option<Vec<SocketAddress>>,
    presence: Option<Vec<DiscoveryCandidate>>,
}

impl View for LookupEntry {
    type V = Known;

    closed spec fn view(&self) -> Known {
        Known {
            known: true,
            lan: match self.lan {
                Some(addresses) => Some(addresses@),
                None => None,
            },
            presence: match self.presence {
                Some(candidates) => Some(presence::candidate_views(candidates@)),
                None => None,
            },
        }
    }
}

/// What is known of an endpoint once it was seen on the local network, or reported gone from it.
pub open spec fn seen(k: Known, addresses: Seq<SocketAddress>, expired: bool) -> Known {
    Known {
        known: true,
        lan: if expired || addresses.len() == 0 {
            None
        } else {
            Some(addresses)
        },
        presence: k.presence,
    }
}

/// What is known of an endpoint once its presence announced these ways to reach it.
pub open spec fn announced(k: Known, transports: Seq<Candidate>) -> Known {
    Known {
        known: true,
        lan: k.lan,
        presence: if transports.len() == 0 {
            None
        } else {
            Some(transports)
        },
    }
}

/// What is known of an endpoint once its presence is withdrawn.
pub open spec fn withdrawn(k: Known) -> Known {
    Known { presence: None, ..k }
}

/// What is known of an endpoint that nobody asked for and nothing was heard of.
pub open spec fn unknown() -> Known {
    Known { known: false, lan: None, presence: None }
}

spec fn entry_in(s: Seq<LookupEntry>, endpoint: EndpointId) -> Known
    decreases s.len(),
{
    if s.len() == 0 {
        unknown()
    } else if s.last().endpoint_id == endpoint {
        s.last()@
    } else {
        entry_in(s.drop_last(), endpoint)
    }
}

/// Whether no endpoint is listed twice.
spec fn distinct(s: Seq<LookupEntry>) -> bool {
    forall|i: int, j: int|
        0 <= i < j < s.len() ==> (#[trigger] s[i]).endpoint_id != (#[trigger] s[j]).endpoint_id
}

proof fn lemma_entry_at(s: Seq<LookupEntry>, i: int)
    requires
        distinct(s),
        0 <= i < s.len(),
    ensures
        entry_in(s, s[i].endpoint_id) == s[i]@,
    decreases s.len(),
{
    if i < s.len() - 1 {
        let front = s.drop_last();
        assert(s[i].endpoint_id != s[s.len() - 1].endpoint_id);
        assert(front[i] == s[i]);
        assert(distinct(front)) by {
            assert forall|a: int, b: int| 0 <= a < b < front.len() implies (
            #[trigger] front[a]).endpoint_id != (#[trigger] front[b]).endpoint_id by {
                assert(front[a] == s[a] && front[b] == s[b]);
            }
        }
        lemma_entry_at(front, i);
    }
}

proof fn lemma_entry_absent(s: Seq<LookupEntry>, endpoint: EndpointId)
    requires
        forall|i: int| 0 <= i < s.len() ==> (#[trigger] s[i]).endpoint_id != endpoint,
    ensures
        entry_in(s, endpoint) == unknown(),
    decreases s.len(),
{
    if s.len() > 0 {
        let front = s.drop_last();
        assert(s[s.len() - 1].endpoint_id != endpoint);
        assert forall|i: int| 0 <= i < front.len() implies (#[trigger] front[i]).endpoint_id
            != endpoint by {
            assert(front[i] == s[i]);
        }
        lemma_entry_absent(front, endpoint);
    }
}

/// Changing one entry leaves the others as they were.
proof fn lemma_entry_update(s: Seq<LookupEntry>, i: int, e: LookupEntry, other: EndpointId)
    requires
        distinct(s),
        0 <= i < s.len(),
        e.endpoint_id == s[i].endpoint_id,
    ensures
        distinct(s.update(i, e)),
        entry_in(s.update(i, e), e.endpoint_id) == e@,
        other != e.endpoint_id ==> entry_in(s.update(i, e), other) == entry_in(s, other),
    decreases s.len(),
{
    let t = s.update(i, e);
    assert(distinct(t)) by {
        assert forall|a: int, b: int| 0 <= a < b < t.len() implies (#[trigger] t[a]).endpoint_id != (
        #[trigger] t[b]).endpoint_id by {
            assert(s[a].endpoint_id != s[b].endpoint_id);
        }
    }
    lemma_entry_at(t, i);
    if other != e.endpoint_id {
        if i == s.len() - 1 {
            assert(t.drop_last() =~= s.drop_last());
        } else {
            let front = s.drop_last();
            assert(t.drop_last() =~= front.update(i, e));
            assert(front[i] == s[i]);
            assert(distinct(front)) by {
                assert forall|a: int, b: int| 0 <= a < b < front.len() implies (
                #[trigger] front[a]).endpoint_id != (#[trigger] front[b]).endpoint_id by {
                    assert(front[a] == s[a] && front[b] == s[b]);
                }
            }
            lemma_entry_update(front, i, e, other);
        }
    }
}

/// What is handed out for an endpoint: where it was seen on the local network, then what its
/// presence record says; nothing, where both are empty.
pub open spec fn merged(k: Known) -> Option<Seq<Candidate>> {
    let lan = match k.lan {
        Some(addresses) => Seq::new(addresses.len(), |i: int| Candidate::Ip(addresses[i])),
        None => Seq::empty(),
    };
    let all = match k.presence {
        Some(candidates) => lan + candidates,
        None => lan,
    };
    if all.len() == 0 {
        None
    } else {
        Some(all)
    }
}

/// The candidates of a record as they can be dialled: relay addresses in their canonical
/// spelling, or an error where one is no address.
pub open spec fn dialable(s: Seq<Candidate>) -> Result<Seq<Candidate>, DiscoveryError>
    decreases s.len(),
{
    if s.len() == 0 {
        Ok(Seq::empty())
    } else {
        match dialable(s.drop_last()) {
            Err(e) => Err(e),
            Ok(front) => match s.last() {
                Candidate::Ip(address) => Ok(front.push(Candidate::Ip(address))),
                Candidate::Relay(url) => match outside::relay_url_canonical(url) {
                    Some(canonical) => Ok(front.push(Candidate::Relay(canonical))),
                    None => Err(DiscoveryError::InvalidPresence),
                },
            },
        }
    }
}

proof fn lemma_dialable_error(s: Seq<Candidate>, i: int)
    requires
        0 <= i <= s.len(),
        dialable(s.take(i)) is Err,
    ensures
        dialable(s) == dialable(s.take(i)),
    decreases s.len() - i,
{
    if i < s.len() {
        assert(s.take(i + 1).drop_last() =~= s.take(i));
        lemma_dialable_error(s, i + 1);
    } else {
        assert(s.take(i) =~= s);
    }
}

fn dialable_candidates(candidates: &Vec<DiscoveryCandidate>) -> (transports: Result<
    Vec<DiscoveryCandidate>,
    DiscoveryError,
>)
    ensures
        match dialable(presence::candidate_views(candidates@)) {
            Ok(all) => transports matches Ok(transports) && presence::candidate_views(transports@)
                == all,
            Err(reason) => transports matches Err(error) && error == reason,
        },
{
    let ghost all = presence::candidate_views(candidates@);
    let mut transports: Vec<DiscoveryCandidate> = Vec::new();
    let mut i: usize = 0;
    assert(all.take(0) =~= Seq::<Candidate>::empty());
    assert(presence::candidate_views(transports@) =~= Seq::<Candidate>::empty());
    while i < candidates.len()
        invariant
            i <= candidates.len(),
            all == presence::candidate_views(candidates@),
            dialable(all.take(i as int)) == Ok::<Seq<Candidate>, DiscoveryError>(
                presence::candidate_views(transports@),
            ),
        decreases candidates.len() - i,
    {
        let ghost before = transports@;
        proof {
            assert(all.take(i + 1).drop_last() =~= all.take(i as int));
            assert(all.take(i + 1).last() == candidates@[i as int]@);
            if dialable(all.take(i + 1)) is Err {
                lemma_dialable_error(all, i + 1);
            }
        }
        let transport: DiscoveryCandidate = match &candidates[i] {
            DiscoveryCandidate::Ip(address) => DiscoveryCandidate::Ip(*address),
            DiscoveryCandidate::Relay(url) => match parse_relay_url(url.as_str()) {
                Some(canonical) => DiscoveryCandidate::Relay(canonical),
                None => return Err(DiscoveryError::InvalidPresence),
            },
        };
        let ghost value = transport@;
        transports.push(transport);
        assert(presence::candidate_views(transports@) =~= presence::candidate_views(before).push(
            value,
        ));
        i = i + 1;
    }
    proof {
        assert(all.take(i as int) =~= all);
    }
    Ok(transports)
}

/// Where the endpoints of one network can be reached. What was heard on the local network and
/// what presence records say are kept apart, so that one can be withdrawn without the other.
#[derive(Debug)]
pub struct WeaverAddressLookup {
    network_id: NetworkId,
    entries: Vec<LookupEntry>,
    updates: Vec<AddressLookupUpdate>,
}

impl WeaverAddressLookup {
    #[verifier::type_invariant]
    spec fn well_formed(self) -> bool {
        distinct(self.entries@)
    }

    pub closed spec fn network(&self) -> NetworkId {
        self.network_id
    }

    /// What is known of an endpoint.
    pub closed spec fn entry(&self, endpoint: EndpointId) -> Known {
        entry_in(self.entries@, endpoint)
    }

    /// The changes that nobody has been told of yet.
    pub closed spec fn pending(&self) -> Seq<AddressLookupUpdate> {
        self.updates@
    }

    /// Whether nothing but one endpoint's entry differs from before.
    pub open spec fn only_changed(&self, before: &Self, endpoint: EndpointId) -> bool {
        &&& self.network() == before.network()
        &&& forall|other: EndpointId|
            other != endpoint ==> #[trigger] self.entry(other) == before.entry(other)
    }

    pub fn new(network_id: NetworkId) -> (lookup: Self)
        ensures
            lookup.network() == network_id,
            forall|endpoint: EndpointId| #[trigger] lookup.entry(endpoint) == unknown(),
            lookup.pending() == Seq::<AddressLookupUpdate>::empty(),
    {
        WeaverAddressLookup { network_id, entries: Vec::new(), updates: Vec::new() }
    }

    pub fn network_id(&self) -> (id: NetworkId)
        ensures
            id == self.network(),
    {
        self.network_id
    }

    /// Where the entry of an endpoint stands.
    fn find(entries: &Vec<LookupEntry>, endpoint_id: EndpointId) -> (at: usize)
        ensures
            at <= entries@.len(),
            at < entries@.len() ==> entries@[at as int].endpoint_id == endpoint_id,
            at == entries@.len() ==> forall|i: int|
                0 <= i < entries@.len() ==> (#[trigger] entries@[i]).endpoint_id != endpoint_id,
    {
        let mut i: usize = 0;
        while i < entries.len()
            invariant
                i <= entries.len(),
                forall|j: int| 0 <= j < i ==> (#[trigger] entries@[j]).endpoint_id != endpoint_id,
            decreases entries.len() - i,
        {
            if entries[i].endpoint_id == endpoint_id {
                return i;
            }
            i = i + 1;
        }
        i
    }

    /// Puts what is known of an endpoint in its place.
    fn put(&mut self, entry: LookupEntry)
        ensures
            final(self).only_changed(old(self), entry.endpoint_id),
            final(self).entry(entry.endpoint_id) == entry@,
            final(self).pending() == old(self).pending(),
    {
        proof {
            use_type_invariant(&*self);
        }
        let ghost s = self.entries@;
        let ghost e = entry;
        let at: usize = Self::find(&self.entries, entry.endpoint_id);
        let mut entries: Vec<LookupEntry> = Vec::new();
        std::mem::swap(&mut entries, &mut self.entries);
        if at < entries.len() {
            entries.set(at, entry);
            proof {
                assert forall|other: EndpointId| other != e.endpoint_id implies #[trigger] entry_in(
                    entries@,
                    other,
                ) == entry_in(s, other) by {
                    lemma_entry_update(s, at as int, e, other);
                }
                lemma_entry_update(s, at as int, e, e.endpoint_id);
            }
        } else {
            entries.push(entry);
            proof {
                assert(entries@.drop_last() =~= s);
                assert forall|a: int, b: int| 0 <= a < b < entries@.len() implies (
                #[trigger] entries@[a]).endpoint_id != (#[trigger] entries@[b]).endpoint_id by {
                    if b < s.len() {
                        assert(s[a].endpoint_id != s[b].endpoint_id);
                    }
                }
            }
        }
        self.entries = entries;
        assert forall|other: EndpointId| other != e.endpoint_id implies #[trigger] self.entry(other)
            == old(self).entry(other) by {
            assert(self.entry(other) == entry_in(self.entries@, other));
        }
    }

    /// Notes that someone asks for an endpoint, so that later changes concern it.
    pub fn watch(&mut self, endpoint_id: EndpointId)
        ensures
            final(self).only_changed(old(self), endpoint_id),
            final(self).entry(endpoint_id) == (Known {
                known: true,
                ..old(self).entry(endpoint_id)
            }),
            final(self).pending() == old(self).pending(),
    {
        proof {
            use_type_invariant(&*self);
        }
        let at: usize = Self::find(&self.entries, endpoint_id);
        proof {
            if at < self.entries@.len() {
                lemma_entry_at(self.entries@, at as int);
            } else {
                lemma_entry_absent(self.entries@, endpoint_id);
            }
        }
        if at == self.entries.len() {
            self.put(LookupEntry { endpoint_id, lan: None, presence: None });
        }
    }

    /// Notes where an endpoint was seen on the local network. What presence records say of it
    /// stays.
    pub fn apply_lan_observation(&mut self, observation: LanObservation)
        ensures
            final(self).only_changed(old(self), observation.endpoint_id),
            final(self).entry(observation.endpoint_id) == (Known {
                known: true,
                lan: if observation.expired || observation.addresses@.len() == 0 {
                    None
                } else {
                    Some(observation.addresses@)
                },
                presence: old(self).entry(observation.endpoint_id).presence,
            }),
            final(self).entry(observation.endpoint_id) == seen(
                old(self).entry(observation.endpoint_id),
                observation.addresses@,
                observation.expired,
            ),
            final(self).pending() == old(self).pending().push(
                AddressLookupUpdate {
                    endpoint_id: observation.endpoint_id,
                    source: AddressLookupSource::ProtectedLan,
                    expired: observation.expired,
                    candidate_count: observation.addresses@.len() as usize,
                },
            ),
    {
        let update = AddressLookupUpdate {
            endpoint_id: observation.endpoint_id,
            source: AddressLookupSource::ProtectedLan,
            expired: observation.expired,
            candidate_count: observation.addresses.len(),
        };
        let presence: Option<Vec<DiscoveryCandidate>> = self.presence_of(observation.endpoint_id);
        let lan: Option<Vec<SocketAddress>> = if observation.expired || observation.addresses.len()
            == 0 {
            None
        } else {
            Some(observation.addresses)
        };
        self.put(LookupEntry { endpoint_id: observation.endpoint_id, lan, presence });
        self.note(update);
    }

    /// Adds a change to those that nobody has been told of.
    fn note(&mut self, update: AddressLookupUpdate)
        ensures
            final(self).network() == old(self).network(),
            forall|endpoint: EndpointId| #[trigger]
                final(self).entry(endpoint) == old(self).entry(endpoint),
            final(self).pending() == old(self).pending().push(update),
    {
        proof {
            use_type_invariant(&*self);
        }
        let mut updates: Vec<AddressLookupUpdate> = Vec::new();
        std::mem::swap(&mut updates, &mut self.updates);
        updates.push(update);
        self.updates = updates;
    }

    /// A copy of what presence records say of an endpoint.
    fn presence_of(&self, endpoint_id: EndpointId) -> (candidates: Option<Vec<DiscoveryCandidate>>)
        ensures
            self.entry(endpoint_id).presence == (match candidates {
                Some(candidates) => Some(presence::candidate_views(candidates@)),
                None => None,
            }),
    {
        proof {
            use_type_invariant(self);
        }
        let at: usize = Self::find(&self.entries, endpoint_id);
        if at < self.entries.len() {
            proof {
                lemma_entry_at(self.entries@, at as int);
            }
            match &self.entries[at].presence {
                Some(candidates) => {
                    let copy: Vec<DiscoveryCandidate> = copy_candidates(candidates);
                    Some(copy)
                },
                None => None,
            }
        } else {
            proof {
                lemma_entry_absent(self.entries@, endpoint_id);
            }
            None
        }
    }

    /// A copy of where an endpoint was seen on the local network.
    fn lan_of(&self, endpoint_id: EndpointId) -> (addresses: Option<Vec<SocketAddress>>)
        ensures
            self.entry(endpoint_id).lan == (match addresses {
                Some(addresses) => Some(addresses@),
                None => None,
            }),
    {
        proof {
            use_type_invariant(self);
        }
        let at: usize = Self::find(&self.entries, endpoint_id);
        if at < self.entries.len() {
            proof {
                lemma_entry_at(self.entries@, at as int);
            }
            match &self.entries[at].lan {
                Some(addresses) => {
                    let copy: Vec<SocketAddress> = addresses.clone();
                    assert(copy@ =~= addresses@);
                    Some(copy)
                },
                None => None,
            }
        } else {
            proof {
                lemma_entry_absent(self.entries@, endpoint_id);
            }
            None
        }
    }

    /// Notes what a presence record says that was decrypted, checked and taken in. What was seen
    /// on the local network stays.
    pub fn apply_presence(&mut self, record: &PresenceRecord) -> (applied: Result<(), DiscoveryError>)
        ensures
            if record@.network_id != old(self).network() {
                applied == Err::<(), DiscoveryError>(DiscoveryError::WrongNetwork) && *final(self)
                    == *old(self)
            } else {
                match dialable(record@.candidates) {
                    Err(reason) => applied == Err::<(), DiscoveryError>(reason) && *final(self)
                        == *old(self),
                    Ok(transports) => {
                        &&& applied == Ok::<(), DiscoveryError>(())
                        &&& final(self).only_changed(old(self), record@.endpoint_id)
                        &&& final(self).entry(record@.endpoint_id) == (Known {
                            known: true,
                            lan: old(self).entry(record@.endpoint_id).lan,
                            presence: if transports.len() == 0 {
                                None
                            } else {
                                Some(transports)
                            },
                        })
                        &&& final(self).entry(record@.endpoint_id) == announced(
                            old(self).entry(record@.endpoint_id),
                            transports,
                        )
                        &&& final(self).pending() == old(self).pending().push(
                            AddressLookupUpdate {
                                endpoint_id: record@.endpoint_id,
                                source: AddressLookupSource::EncryptedPresence,
                                expired: false,
                                candidate_count: record@.candidates.len() as usize,
                            },
                        )
                    },
                }
            },
    {
        if record.network_id != self.network_id {
            return Err(DiscoveryError::WrongNetwork);
        }
        let transports: Vec<DiscoveryCandidate> = dialable_candidates(&record.candidates)?;
        let lan: Option<Vec<SocketAddress>> = self.lan_of(record.endpoint_id);
        let presence: Option<Vec<DiscoveryCandidate>> = if transports.len() == 0 {
            None
        } else {
            Some(transports)
        };
        self.put(LookupEntry { endpoint_id: record.endpoint_id, lan, presence });
        self.note(
            AddressLookupUpdate {
                endpoint_id: record.endpoint_id,
                source: AddressLookupSource::EncryptedPresence,
                expired: false,
                candidate_count: record.candidates.len(),
            },
        );
        Ok(())
    }

    /// Forgets what presence records said of an endpoint, if anything is known of it.
    pub fn clear_presence(&mut self, endpoint_id: EndpointId)
        ensures
            if old(self).entry(endpoint_id).known {
                &&& final(self).only_changed(old(self), endpoint_id)
                &&& final(self).entry(endpoint_id) == (Known {
                    presence: None,
                    ..old(self).entry(endpoint_id)
                })
                &&& final(self).entry(endpoint_id) == withdrawn(old(self).entry(endpoint_id))
                &&& final(self).pending() == old(self).pending().push(
                    AddressLookupUpdate {
                        endpoint_id,
                        source: AddressLookupSource::EncryptedPresence,
                        expired: true,
                        candidate_count: 0,
                    },
                )
            } else {
                *final(self) == *old(self)
            },
    {
        proof {
            use_type_invariant(&*self);
        }
        let at: usize = Self::find(&self.entries, endpoint_id);
        proof {
            if at < self.entries@.len() {
                lemma_entry_at(self.entries@, at as int);
            } else {
                lemma_entry_absent(self.entries@, endpoint_id);
            }
        }
        if at < self.entries.len() {
            let lan: Option<Vec<SocketAddress>> = self.lan_of(endpoint_id);
            self.put(LookupEntry { endpoint_id, lan, presence: None });
            self.note(
                AddressLookupUpdate {
                    endpoint_id,
                    source: AddressLookupSource::EncryptedPresence,
                    expired: true,
                    candidate_count: 0,
                },
            );
        }
    }

    /// What is handed out for an endpoint.
    pub fn published(&self, endpoint_id: EndpointId) -> (candidates: Option<Vec<DiscoveryCandidate>>)
        ensures
            merged(self.entry(endpoint_id)) == (match candidates {
                Some(candidates) => Some(presence::candidate_views(candidates@)),
                None => None,
            }),
    {
        let mut all: Vec<DiscoveryCandidate> = Vec::new();
        let ghost known = self.entry(endpoint_id);
        match self.lan_of(endpoint_id) {
            Some(addresses) => {
                let mut i: usize = 0;
                while i < addresses.len()
                    invariant
                        i <= addresses.len(),
                        all@.len() == i,
                        forall|j: int|
                            0 <= j < i ==> (#[trigger] all@[j])@ == Candidate::Ip(addresses@[j]),
                    decreases addresses.len() - i,
                {
                    all.push(DiscoveryCandidate::Ip(addresses[i]));
                    i = i + 1;
                }
            },
            None => {},
        }
        let ghost lan = match known.lan {
            Some(addresses) => Seq::new(addresses.len(), |i: int| Candidate::Ip(addresses[i])),
            None => Seq::empty(),
        };
        assert(presence::candidate_views(all@) =~= lan);
        match self.presence_of(endpoint_id) {
            Some(candidates) => {
                let ghost front = all@;
                let mut more: Vec<DiscoveryCandidate> = candidates;
                let ghost tail = more@;
                all.append(&mut more);
                assert(presence::candidate_views(all@) =~= presence::candidate_views(front)
                    + presence::candidate_views(tail));
            },
            None => {},
        }
        if all.len() == 0 {
            None
        } else {
            Some(all)
        }
    }

    /// Hands over the changes that nobody has been told of yet.
    pub fn take_updates(&mut self) -> (updates: Vec<AddressLookupUpdate>)
        ensures
            updates@ == old(self).pending(),
            final(self).pending() == Seq::<AddressLookupUpdate>::empty(),
            final(self).network() == old(self).network(),
            forall|endpoint: EndpointId| #[trigger]
                final(self).entry(endpoint) == old(self).entry(endpoint),
    {
        proof {
            use_type_invariant(&*self);
        }
        let mut updates: Vec<AddressLookupUpdate> = Vec::new();
        std::mem::swap(&mut updates, &mut self.updates);
        updates
    }
}

/// A copy of some candidates.
fn copy_candidates(candidates: &Vec<DiscoveryCandidate>) -> (copy: Vec<DiscoveryCandidate>)
    ensures
        presence::candidate_views(copy@) == presence::candidate_views(candidates@),
{
    let copy: Vec<DiscoveryCandidate> = candidates.clone();
    assert forall|i: int| 0 <= i < candidates@.len() implies presence::candidate_views(copy@)[i]
        == presence::candidate_views(candidates@)[i] by {
        assert(cloned(candidates@[i], copy@[i]));
    }
    assert(presence::candidate_views(copy@) =~= presence::candidate_views(candidates@));
    copy
}

/// Of an endpoint that nobody asked for and nothing was heard of, nothing is known.
pub proof fn lemma_unknown_is_empty(lookup: &WeaverAddressLookup, endpoint: EndpointId)
    ensures
        !lookup.entry(endpoint).known ==> lookup.entry(endpoint) == unknown(),
{
    lemma_unknown_in(lookup.entries@, endpoint);
}

proof fn lemma_unknown_in(s: Seq<LookupEntry>, endpoint: EndpointId)
    ensures
        !entry_in(s, endpoint).known ==> entry_in(s, endpoint) == unknown(),
    decreases s.len(),
{
    if s.len() > 0 {
        lemma_unknown_in(s.drop_last(), endpoint);
    }
}

/// A report that an endpoint is gone from the local network withdraws only what was seen there:
/// what its presence record says is still handed out.
pub proof fn law_lan_expiry_keeps_presence(k: Known)
    requires
        k.presence matches Some(candidates) && candidates.len() > 0,
    ensures
        merged(Known { lan: None, ..k }) == k.presence,
{
    assert(Seq::<Candidate>::empty() + k.presence->Some_0 =~= k.presence->Some_0);
}

/// What was seen on the local network and what presence says do not disturb each other: in whichever
/// order they come, both are dialed, the local network first; and each last word replaces only what
/// the same source said before.
pub proof fn law_sources_do_not_disturb_each_other(
    k: Known,
    addresses: Seq<SocketAddress>,
    expired: bool,
    transports: Seq<Candidate>,
    others: Seq<SocketAddress>,
    more: Seq<Candidate>,
)
    ensures
        seen(announced(k, transports), addresses, expired) == announced(
            seen(k, addresses, expired),
            transports,
        ),
        seen(seen(k, others, false), addresses, expired) == seen(k, addresses, expired),
        announced(announced(k, more), transports) == announced(k, transports),
        seen(k, addresses, true) == seen(k, Seq::empty(), false),
        withdrawn(announced(k, transports)) == withdrawn(Known { known: true, ..k }),
        withdrawn(seen(k, addresses, expired)).lan == seen(k, addresses, expired).lan,
{
}

/// What is dialed for an endpoint once it was seen on the local network and its presence announced
/// ways to reach it: the addresses, then the ways, each in their order. Once it is reported gone,
/// only the ways; once its presence is withdrawn, only the addresses; once both, nothing.
pub proof fn law_what_each_source_adds(
    k: Known,
    addresses: Seq<SocketAddress>,
    transports: Seq<Candidate>,
)
    requires
        addresses.len() > 0,
        transports.len() > 0,
    ensures
        ({
            let both = seen(announced(k, transports), addresses, false);
            let all = merged(both)->Some_0;
            &&& merged(both) is Some
            &&& all.len() == addresses.len() + transports.len()
            &&& forall|i: int|
                0 <= i < addresses.len() ==> #[trigger] all[i] == Candidate::Ip(addresses[i])
            &&& forall|i: int|
                0 <= i < transports.len() ==> all[addresses.len() + i] == #[trigger] transports[i]
            &&& merged(seen(both, addresses, true)) == Some(transports)
            &&& merged(withdrawn(seen(both, addresses, true))) is None
            &&& merged(withdrawn(both)) matches Some(left) && left.len() == addresses.len()
        }),
{
    let both = seen(announced(k, transports), addresses, false);
    assert(Seq::<Candidate>::empty() + transports =~= transports);
    assert forall|i: int| 0 <= i < transports.len() implies merged(both)->Some_0[addresses.len()
        + i] == #[trigger] transports[i] by {}
}

} // verus!
