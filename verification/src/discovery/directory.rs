//! The directory of virtual addresses that presence records make up.
use crate::config::snapshot::Config;
use crate::config::validate::ValidatedNetworkConfig;
use crate::discovery::authorize;
use crate::discovery::authorize::configured_endpoint;
use crate::discovery::cache;
use crate::discovery::cache::PresenceCache;
use crate::discovery::lan::LanObservation;
use crate::discovery::lookup;
use crate::discovery::lookup::{AddressLookupSource, AddressLookupUpdate, Known, WeaverAddressLookup};
use crate::discovery::presence::{DiscoveryError, Presence, PresenceRecord};
use crate::discovery::sealed;
use crate::discovery::sealed::{EncryptedPresenceRecord, SealedPresence};
use crate::identifiers::{EndpointId, NetworkId, ScopedVirtualAddr};
use vstd::prelude::*;

verus! {

/// What encrypted records have made known of the virtual addresses of one network, together with
/// where the endpoints behind them can be reached.
#[derive(Debug)]
pub struct PresenceDirectory {
    network_id: NetworkId,
    cache: PresenceCache,
    lookup: WeaverAddressLookup,
}

/// Whether an endpoint has a record among others.
pub open spec fn listed(s: Seq<Presence>, endpoint: EndpointId) -> bool {
    exists|i: int| 0 <= i < s.len() && (#[trigger] s[i]).endpoint_id == endpoint
}

/// What is known of an endpoint once its presence is forgotten.
pub open spec fn without_presence(k: Known) -> Known {
    Known { presence: None, ..k }
}

/// The change that a forgotten presence is.
pub open spec fn forgotten(endpoint_id: EndpointId) -> AddressLookupUpdate {
    AddressLookupUpdate {
        endpoint_id,
        source: AddressLookupSource::EncryptedPresence,
        expired: true,
        candidate_count: 0,
    }
}

/// What becomes of an encrypted record in the directory of a network: an error, or whether it
/// changes anything.
pub open spec fn directory_verdict(
    network: NetworkId,
    records: Seq<Presence>,
    config: Config,
    encrypted: SealedPresence,
    now_ms: u64,
) -> Result<bool, DiscoveryError> {
    if config.network_id != network {
        Err(DiscoveryError::WrongNetwork)
    } else {
        match sealed::presence_verdict(config, encrypted, now_ms) {
            Err(reason) => Err(reason),
            Ok(r) => match cache::apply_verdict(records, r) {
                Ok(true) => match lookup::dialable(r.candidates) {
                    Ok(_) => Ok(true),
                    Err(reason) => Err(reason),
                },
                verdict => verdict,
            },
        }
    }
}

impl PresenceDirectory {
    #[verifier::type_invariant]
    spec fn well_formed(self) -> bool {
        self.lookup.network() == self.network_id
    }

    pub closed spec fn network(&self) -> NetworkId {
        self.network_id
    }

    /// The records that are currently known.
    pub closed spec fn records(&self) -> Seq<Presence> {
        self.cache@
    }

    /// Where an endpoint can be reached.
    pub closed spec fn reach(&self, endpoint: EndpointId) -> Known {
        self.lookup.entry(endpoint)
    }

    /// The changes that nobody has been told of yet.
    pub closed spec fn pending(&self) -> Seq<AddressLookupUpdate> {
        self.lookup.pending()
    }

    /// Whether nothing differs from before.
    pub open spec fn unchanged(&self, before: &Self) -> bool {
        &&& self.network() == before.network()
        &&& self.records() == before.records()
        &&& forall|endpoint: EndpointId| #[trigger] self.reach(endpoint) == before.reach(endpoint)
        &&& self.pending() == before.pending()
    }

    /// The changes that are told when the records of these endpoints expire: one for each of
    /// them that was known and has no record left.
    pub open spec fn forgettings(&self, gone: Seq<EndpointId>, left: Seq<Presence>) -> Seq<
        AddressLookupUpdate,
    >
        decreases gone.len(),
    {
        if gone.len() == 0 {
            Seq::empty()
        } else {
            let earlier = self.forgettings(gone.drop_last(), left);
            if self.reach(gone.last()).known && !listed(left, gone.last()) {
                earlier.push(forgotten(gone.last()))
            } else {
                earlier
            }
        }
    }

    /// An empty directory. Its network must be the lookup's.
    pub fn new(network_id: NetworkId, lookup: WeaverAddressLookup) -> (directory: Self)
        requires
            lookup.network() == network_id,
        ensures
            directory.network() == network_id,
            directory.records() == Seq::<Presence>::empty(),
            forall|endpoint: EndpointId| #[trigger]
                directory.reach(endpoint) == lookup.entry(endpoint),
            directory.pending() == lookup.pending(),
    {
        PresenceDirectory { network_id, cache: PresenceCache::default(), lookup }
    }

    pub fn network_id(&self) -> (id: NetworkId)
        ensures
            id == self.network(),
    {
        self.network_id
    }

    /// Decrypts a record, checks it, guards against replays, and takes it in, all at once: what is
    /// refused for whatever reason changes nothing.
    pub fn apply_encrypted(
        &mut self,
        config: &ValidatedNetworkConfig,
        encrypted: &EncryptedPresenceRecord,
        now_ms: u64,
    ) -> (changed: Result<bool, DiscoveryError>)
        ensures
            changed == directory_verdict(
                old(self).network(),
                old(self).records(),
                config@,
                encrypted@,
                now_ms,
            ),
            changed != Ok::<bool, DiscoveryError>(true) ==> final(self).unchanged(old(self)),
            changed == Ok::<bool, DiscoveryError>(true) ==> {
                let r = sealed::presence_verdict(config@, encrypted@, now_ms)->Ok_0;
                let transports = lookup::dialable(r.candidates)->Ok_0;
                &&& final(self).network() == old(self).network()
                &&& final(self).records() == cache::applied(old(self).records(), r)
                &&& forall|other: EndpointId|
                    other != r.endpoint_id ==> #[trigger] final(self).reach(other) == old(
                        self,
                    ).reach(other)
                &&& final(self).reach(r.endpoint_id) == (Known {
                    known: true,
                    lan: old(self).reach(r.endpoint_id).lan,
                    presence: if transports.len() == 0 {
                        None
                    } else {
                        Some(transports)
                    },
                })
                &&& final(self).reach(r.endpoint_id) == lookup::announced(
                    old(self).reach(r.endpoint_id),
                    transports,
                )
                &&& final(self).pending() == old(self).pending().push(
                    AddressLookupUpdate {
                        endpoint_id: r.endpoint_id,
                        source: AddressLookupSource::EncryptedPresence,
                        expired: false,
                        candidate_count: r.candidates.len() as usize,
                    },
                )
            },
    {
        proof {
            use_type_invariant(&*self);
            sealed::lemma_opened_network(config@, encrypted@, now_ms);
        }
        if config.as_config().network_id != self.network_id {
            return Err(DiscoveryError::WrongNetwork);
        }
        let record: PresenceRecord = encrypted.open(config, now_ms)?;
        if !self.cache.check(&record)? {
            return Ok(false);
        }
        let mut lookup: WeaverAddressLookup = WeaverAddressLookup::new(self.network_id);
        std::mem::swap(&mut lookup, &mut self.lookup);
        let reached: Result<(), DiscoveryError> = lookup.apply_presence(&record);
        self.lookup = lookup;
        reached?;
        let mut cache: PresenceCache = PresenceCache::default();
        std::mem::swap(&mut cache, &mut self.cache);
        let applied: Result<bool, DiscoveryError> = cache.apply(record);
        self.cache = cache;
        applied
    }

    /// The endpoint that serves an address now.
    pub fn resolve(&self, address: ScopedVirtualAddr, now_ms: u64) -> (endpoint: Option<EndpointId>)
        ensures
            endpoint == (match cache::server_of(self.records(), self.network(), address) {
                Some(r) => if r.expires_at_ms > now_ms {
                    Some(r.endpoint_id)
                } else {
                    None
                },
                None => None,
            }),
            endpoint == cache::resolved(self.records(), self.network(), address, now_ms),
            cache::consistent(self.records()),
    {
        match self.cache.get(self.network_id, address, now_ms) {
            Some(record) => Some(record.endpoint_id),
            None => None,
        }
    }

    /// The endpoint that a configuration of this network puts behind an address.
    pub fn configured_endpoint(
        &self,
        config: &ValidatedNetworkConfig,
        address: ScopedVirtualAddr,
        now_ms: u64,
    ) -> (endpoint: Result<EndpointId, DiscoveryError>)
        ensures
            endpoint == (if config@.network_id != self.network() {
                Err(DiscoveryError::WrongNetwork)
            } else {
                authorize::endpoint_behind(config@, address, now_ms)
            }),
    {
        if config.as_config().network_id != self.network_id {
            return Err(DiscoveryError::WrongNetwork);
        }
        configured_endpoint(config, address, now_ms)
    }

    /// Forgets the records that have expired, and the presence of the endpoints that have none
    /// left.
    pub fn purge_expired(&mut self, now_ms: u64)
        ensures
            final(self).network() == old(self).network(),
            final(self).records() == old(self).records().filter(cache::live(now_ms)),
            forall|endpoint: EndpointId| #[trigger]
                final(self).reach(endpoint) == (if listed(
                    old(self).records().filter(cache::expired(now_ms)),
                    endpoint,
                ) && !listed(final(self).records(), endpoint) {
                    without_presence(old(self).reach(endpoint))
                } else {
                    old(self).reach(endpoint)
                }),
            final(self).pending() == old(self).pending() + old(self).forgettings(
                cache::endpoints(old(self).records().filter(cache::expired(now_ms))),
                final(self).records(),
            ),
    {
        proof {
            use_type_invariant(&*self);
        }
        let ghost gone = self.records().filter(cache::expired(now_ms));
        let mut cache: PresenceCache = PresenceCache::default();
        std::mem::swap(&mut cache, &mut self.cache);
        let removed: Vec<EndpointId> = cache.purge_expired(now_ms);
        let mut lookup: WeaverAddressLookup = WeaverAddressLookup::new(self.network_id);
        std::mem::swap(&mut lookup, &mut self.lookup);
        let ghost before = lookup;
        assert(lookup.pending() =~= before.pending() + old(self).forgettings(
            removed@.take(0),
            cache@,
        ));
        let mut i: usize = 0;
        while i < removed.len()
            invariant
                i <= removed.len(),
                lookup.network() == before.network(),
                forall|endpoint: EndpointId| #[trigger]
                    lookup.entry(endpoint) == (if removed@.take(i as int).contains(endpoint)
                        && !listed(cache@, endpoint) {
                        without_presence(before.entry(endpoint))
                    } else {
                        before.entry(endpoint)
                    }),
                forall|endpoint: EndpointId| #[trigger]
                    before.entry(endpoint) == old(self).reach(endpoint),
                before.pending() == old(self).pending(),
                lookup.pending() == before.pending() + old(self).forgettings(
                    removed@.take(i as int),
                    cache@,
                ),
            decreases removed.len() - i,
        {
            let endpoint_id: EndpointId = removed[i];
            let ghost earlier = removed@.take(i as int);
            let ghost later = removed@.take(i + 1);
            let ghost was = lookup;
            proof {
                assert(later =~= earlier.push(endpoint_id));
                assert forall|x: EndpointId| #[trigger]
                    later.contains(x) <==> (earlier.contains(x) || x == endpoint_id) by {
                    if earlier.contains(x) {
                        let k = choose|k: int| 0 <= k < earlier.len() && earlier[k] == x;
                        assert(later[k] == x);
                    }
                    assert(later[i as int] == endpoint_id);
                }
                assert(later.drop_last() =~= earlier);
                assert(was.entry(endpoint_id).known == before.entry(endpoint_id).known);
            }
            if !cache.contains_endpoint(endpoint_id) {
                lookup.clear_presence(endpoint_id);
            }
            proof {
                lookup::lemma_unknown_is_empty(&was, endpoint_id);
                assert forall|endpoint: EndpointId| #[trigger]
                    lookup.entry(endpoint) == (if later.contains(endpoint) && !listed(
                        cache@,
                        endpoint,
                    ) {
                        without_presence(before.entry(endpoint))
                    } else {
                        before.entry(endpoint)
                    }) by {
                    if endpoint != endpoint_id {
                        assert(lookup.entry(endpoint) == was.entry(endpoint));
                    } else {
                        assert(was.entry(endpoint_id) == was.entry(endpoint));
                    }
                }
            }
            i = i + 1;
        }
        self.cache = cache;
        self.lookup = lookup;
        proof {
            assert(removed@.take(i as int) =~= removed@);
            assert forall|endpoint: EndpointId| removed@.contains(endpoint) <==> listed(
                gone,
                endpoint,
            ) by {
                if removed@.contains(endpoint) {
                    let k = choose|k: int| 0 <= k < removed@.len() && removed@[k] == endpoint;
                    assert(gone[k].endpoint_id == endpoint);
                }
                if listed(gone, endpoint) {
                    let k = choose|k: int|
                        0 <= k < gone.len() && (#[trigger] gone[k]).endpoint_id == endpoint;
                    assert(removed@[k] == endpoint);
                }
            }
            assert forall|endpoint: EndpointId| #[trigger] self.reach(endpoint) == (if listed(
                gone,
                endpoint,
            ) && !listed(self.records(), endpoint) {
                without_presence(old(self).reach(endpoint))
            } else {
                old(self).reach(endpoint)
            }) by {
                assert(self.reach(endpoint) == lookup.entry(endpoint));
            }
        }
    }

    /// Notes that someone asks for an endpoint.
    pub fn watch(&mut self, endpoint_id: EndpointId)
        ensures
            final(self).network() == old(self).network(),
            final(self).records() == old(self).records(),
            final(self).reach(endpoint_id) == (Known {
                known: true,
                ..old(self).reach(endpoint_id)
            }),
            forall|other: EndpointId|
                other != endpoint_id ==> #[trigger] final(self).reach(other) == old(self).reach(
                    other,
                ),
            final(self).pending() == old(self).pending(),
    {
        proof {
            use_type_invariant(&*self);
        }
        let mut lookup: WeaverAddressLookup = WeaverAddressLookup::new(self.network_id);
        std::mem::swap(&mut lookup, &mut self.lookup);
        lookup.watch(endpoint_id);
        self.lookup = lookup;
    }

    /// Takes in where an endpoint was seen on the local network.
    pub fn apply_lan_observation(&mut self, observation: LanObservation)
        ensures
            final(self).network() == old(self).network(),
            final(self).records() == old(self).records(),
            final(self).reach(observation.endpoint_id) == (Known {
                known: true,
                lan: if observation.expired || observation.addresses@.len() == 0 {
                    None
                } else {
                    Some(observation.addresses@)
                },
                presence: old(self).reach(observation.endpoint_id).presence,
            }),
            forall|other: EndpointId|
                other != observation.endpoint_id ==> #[trigger] final(self).reach(other)
                    == old(self).reach(other),
            final(self).pending() == old(self).pending().push(
                AddressLookupUpdate {
                    endpoint_id: observation.endpoint_id,
                    source: AddressLookupSource::ProtectedLan,
                    expired: observation.expired,
                    candidate_count: observation.addresses@.len() as usize,
                },
            ),
    {
        proof {
            use_type_invariant(&*self);
        }
        let mut lookup: WeaverAddressLookup = WeaverAddressLookup::new(self.network_id);
        std::mem::swap(&mut lookup, &mut self.lookup);
        lookup.apply_lan_observation(observation);
        self.lookup = lookup;
    }

    /// Hands out the changes that nobody has been told of yet.
    pub fn take_updates(&mut self) -> (updates: Vec<AddressLookupUpdate>)
        ensures
            updates@ == old(self).pending(),
            final(self).network() == old(self).network(),
            final(self).records() == old(self).records(),
            forall|endpoint: EndpointId| #[trigger]
                final(self).reach(endpoint) == old(self).reach(endpoint),
            final(self).pending() == Seq::<AddressLookupUpdate>::empty(),
    {
        proof {
            use_type_invariant(&*self);
        }
        let mut lookup: WeaverAddressLookup = WeaverAddressLookup::new(self.network_id);
        std::mem::swap(&mut lookup, &mut self.lookup);
        let updates: Vec<AddressLookupUpdate> = lookup.take_updates();
        self.lookup = lookup;
        updates
    }

    /// Where the endpoints can be reached.
    pub fn lookup(&self) -> (lookup: &WeaverAddressLookup)
        ensures
            lookup.network() == self.network(),
            forall|endpoint: EndpointId| #[trigger]
                lookup.entry(endpoint) == self.reach(endpoint),
            lookup.pending() == self.pending(),
    {
        proof {
            use_type_invariant(self);
        }
        &self.lookup
    }
}

/// When records expire, one change is told for each of their endpoints that was known and has no
/// record left, and none for any other.
pub proof fn law_who_is_told_forgotten(
    d: PresenceDirectory,
    gone: Seq<EndpointId>,
    left: Seq<Presence>,
    endpoint: EndpointId,
)
    ensures
        d.forgettings(gone, left).contains(forgotten(endpoint)) <==> gone.contains(endpoint)
            && d.reach(endpoint).known && !listed(left, endpoint),
        forall|i: int|
            0 <= i < d.forgettings(gone, left).len() ==> (#[trigger] d.forgettings(
                gone,
                left,
            )[i]).expired && d.forgettings(gone, left)[i].candidate_count == 0 && d.forgettings(
                gone,
                left,
            )[i].source == AddressLookupSource::EncryptedPresence,
    decreases gone.len(),
{
    if gone.len() > 0 {
        let front = gone.drop_last();
        let last = gone.last();
        law_who_is_told_forgotten(d, front, left, endpoint);
        let earlier = d.forgettings(front, left);
        vstd::seq_lib::lemma_seq_contains_after_push(front, last, endpoint);
        assert(gone =~= front.push(last));
        vstd::seq_lib::lemma_seq_contains_after_push(
            earlier,
            forgotten(last),
            forgotten(endpoint),
        );
        assert(forgotten(last) == forgotten(endpoint) <==> last == endpoint);
        assert forall|i: int| 0 <= i < d.forgettings(gone, left).len() implies (
        #[trigger] d.forgettings(gone, left)[i]).expired && d.forgettings(
            gone,
            left,
        )[i].candidate_count == 0 && d.forgettings(gone, left)[i].source
            == AddressLookupSource::EncryptedPresence by {
            if i < earlier.len() {
                assert(d.forgettings(gone, left)[i] == earlier[i]);
            }
        }
    }
}

} // verus!
