//! What is currently known of where endpoints are.
use crate::discovery::presence::{DiscoveryError, Presence, PresenceRecord};
use crate::identifiers::{address_among, EndpointId, NetworkId, ScopedVirtualAddr};
use vstd::prelude::*;

verus! {

/// Whether a record is an endpoint's in a network.
pub open spec fn belongs(r: Presence, network: NetworkId, endpoint: EndpointId) -> bool {
    r.network_id == network && r.endpoint_id == endpoint
}

/// Where the record of an endpoint stands, or the length where there is none.
pub open spec fn place(s: Seq<Presence>, network: NetworkId, endpoint: EndpointId) -> int
    decreases s.len(),
{
    if s.len() == 0 {
        0
    } else {
        let p = place(s.drop_last(), network, endpoint);
        if p < s.len() - 1 || belongs(s.last(), network, endpoint) {
            p
        } else {
            s.len() as int
        }
    }
}

/// The record of an endpoint.
pub open spec fn record_of(s: Seq<Presence>, network: NetworkId, endpoint: EndpointId) -> Option<
    Presence,
> {
    if place(s, network, endpoint) < s.len() {
        Some(s[place(s, network, endpoint)])
    } else {
        None
    }
}

/// Whether a record serves an address in a network.
pub open spec fn serves(r: Presence, network: NetworkId, address: ScopedVirtualAddr) -> bool {
    r.network_id == network && r.virtual_addrs.contains(address)
}

/// The first record that serves an address.
pub open spec fn server_of(s: Seq<Presence>, network: NetworkId, address: ScopedVirtualAddr) -> Option<
    Presence,
>
    decreases s.len(),
{
    if s.len() == 0 {
        None
    } else if serves(s[0], network, address) {
        Some(s[0])
    } else {
        server_of(s.skip(1), network, address)
    }
}

/// The endpoint that serves an address now.
pub open spec fn resolved(
    s: Seq<Presence>,
    network: NetworkId,
    address: ScopedVirtualAddr,
    now_ms: u64,
) -> Option<EndpointId> {
    match server_of(s, network, address) {
        Some(r) => if r.expires_at_ms > now_ms {
            Some(r.endpoint_id)
        } else {
            None
        },
        None => None,
    }
}

/// Whether two records of different endpoints claim the same address in the same network.
pub open spec fn clash(a: Presence, b: Presence) -> bool {
    a.network_id == b.network_id && a.endpoint_id != b.endpoint_id && exists|address:
        ScopedVirtualAddr| #[trigger]
        a.virtual_addrs.contains(address) && b.virtual_addrs.contains(address)
}

/// Whether no endpoint has two records and no address is served twice.
pub open spec fn consistent(s: Seq<Presence>) -> bool {
    forall|i: int, j: int|
        0 <= i < j < s.len() ==> !belongs(
            #[trigger] s[i],
            (#[trigger] s[j]).network_id,
            s[j].endpoint_id,
        ) && !clash(s[i], s[j])
}

/// What becomes of a record that is offered: one that is older than what is known of the
/// endpoint, or as old and different, is a rollback; what is known already changes nothing; and
/// an address that another endpoint serves cannot be claimed.
pub open spec fn apply_verdict(s: Seq<Presence>, r: Presence) -> Result<bool, DiscoveryError> {
    match record_of(s, r.network_id, r.endpoint_id) {
        Some(current) => if r.sequence < current.sequence || (r.sequence == current.sequence && r
            != current) {
            Err(DiscoveryError::Rollback)
        } else if r == current {
            Ok(false)
        } else {
            claim_verdict(s, r)
        },
        None => claim_verdict(s, r),
    }
}

/// Whether an offered record claims an address that another endpoint serves.
pub open spec fn claim_verdict(s: Seq<Presence>, r: Presence) -> Result<bool, DiscoveryError> {
    if exists|i: int| 0 <= i < s.len() && clash(#[trigger] s[i], r) {
        Err(DiscoveryError::InvalidPresence)
    } else {
        Ok(true)
    }
}

/// What is known after a record was taken in: it takes the place of what was known of its
/// endpoint.
pub open spec fn applied(s: Seq<Presence>, r: Presence) -> Seq<Presence> {
    let p = place(s, r.network_id, r.endpoint_id);
    if p < s.len() {
        s.update(p, r)
    } else {
        s.push(r)
    }
}

/// Whether a record has not expired.
pub open spec fn live(now_ms: u64) -> spec_fn(Presence) -> bool {
    |r: Presence| r.expires_at_ms > now_ms
}

/// Whether a record has expired.
pub open spec fn expired(now_ms: u64) -> spec_fn(Presence) -> bool {
    |r: Presence| r.expires_at_ms <= now_ms
}

/// The endpoints of each of several records.
pub open spec fn endpoints(s: Seq<Presence>) -> Seq<EndpointId> {
    Seq::new(s.len(), |i: int| s[i].endpoint_id)
}

/// The place of a record is where it is, and nowhere before.
pub proof fn lemma_place(s: Seq<Presence>, network: NetworkId, endpoint: EndpointId)
    ensures
        0 <= place(s, network, endpoint) <= s.len(),
        place(s, network, endpoint) < s.len() ==> belongs(
            s[place(s, network, endpoint)],
            network,
            endpoint,
        ),
        forall|i: int|
            0 <= i < place(s, network, endpoint) ==> !belongs(#[trigger] s[i], network, endpoint),
    decreases s.len(),
{
    if s.len() > 0 {
        let front = s.drop_last();
        lemma_place(front, network, endpoint);
        let p = place(front, network, endpoint);
        if p < front.len() {
            assert(s[p] == front[p]);
        }
        assert forall|i: int| 0 <= i < place(s, network, endpoint) implies !belongs(
            #[trigger] s[i],
            network,
            endpoint,
        ) by {
            if i < front.len() {
                assert(s[i] == front[i]);
            }
        }
    }
}

/// The records that are currently known, at most one for each endpoint of each network, in the
/// order in which the endpoints were first seen.
#[derive(Debug)]
pub struct PresenceCache {
    records: Vec<PresenceRecord>,
}

/// The contents of each of several records.
pub open spec fn record_views(s: Seq<PresenceRecord>) -> Seq<Presence> {
    Seq::new(s.len(), |i: int| s[i]@)
}

impl View for PresenceCache {
    type V = Seq<Presence>;

    closed spec fn view(&self) -> Seq<Presence> {
        record_views(self.records@)
    }
}

impl Default for PresenceCache {
    fn default() -> (cache: Self)
        ensures
            cache@ == Seq::<Presence>::empty(),
    {
        let cache = PresenceCache { records: Vec::new() };
        assert(cache@ =~= Seq::<Presence>::empty());
        cache
    }
}

/// Whether two records of different endpoints claim the same address in the same network.
fn records_clash(a: &PresenceRecord, b: &PresenceRecord) -> (clashes: bool)
    ensures
        clashes == clash(a@, b@),
{
    if a.network_id != b.network_id || a.endpoint_id == b.endpoint_id {
        return false;
    }
    let mut i: usize = 0;
    while i < a.virtual_addrs.len()
        invariant
            i <= a.virtual_addrs.len(),
            forall|j: int|
                0 <= j < i ==> !b.virtual_addrs@.contains(#[trigger] a.virtual_addrs@[j]),
            a.network_id == b.network_id,
            a.endpoint_id != b.endpoint_id,
        decreases a.virtual_addrs.len() - i,
    {
        if address_among(&b.virtual_addrs, a.virtual_addrs[i]) {
            assert(a@.virtual_addrs.contains(a.virtual_addrs@[i as int]));
            return true;
        }
        i = i + 1;
    }
    false
}

impl PresenceCache {
    #[verifier::type_invariant]
    spec fn well_formed(self) -> bool {
        consistent(record_views(self.records@))
    }

    /// Where the record of an endpoint stands.
    fn find(records: &Vec<PresenceRecord>, network_id: NetworkId, endpoint_id: EndpointId) -> (at: usize)
        ensures
            at == place(record_views(records@), network_id, endpoint_id),
    {
        let ghost all = record_views(records@);
        let mut i: usize = 0;
        while i < records.len()
            invariant
                i <= records.len(),
                all == record_views(records@),
                forall|j: int|
                    0 <= j < i ==> !belongs(#[trigger] all[j], network_id, endpoint_id),
            decreases records.len() - i,
        {
            assert(all[i as int] == records@[i as int]@);
            if records[i].network_id == network_id && records[i].endpoint_id == endpoint_id {
                proof {
                    lemma_place(all, network_id, endpoint_id);
                    let p = place(all, network_id, endpoint_id);
                    assert(belongs(all[i as int], network_id, endpoint_id));
                    if p < i {
                        assert(!belongs(all[p], network_id, endpoint_id));
                    }
                }
                return i;
            }
            i = i + 1;
        }
        proof {
            lemma_place(all, network_id, endpoint_id);
        }
        i
    }

    /// Whether a record claims an address that another endpoint serves.
    fn claimed(records: &Vec<PresenceRecord>, record: &PresenceRecord) -> (taken: bool)
        ensures
            taken == exists|i: int|
                0 <= i < record_views(records@).len() && clash(
                    #[trigger] record_views(records@)[i],
                    record@,
                ),
    {
        let ghost all = record_views(records@);
        let mut i: usize = 0;
        while i < records.len()
            invariant
                i <= records.len(),
                all == record_views(records@),
                forall|j: int| 0 <= j < i ==> !clash(#[trigger] all[j], record@),
            decreases records.len() - i,
        {
            assert(all[i as int] == records@[i as int]@);
            if records_clash(&records[i], record) {
                return true;
            }
            i = i + 1;
        }
        false
    }

    /// What would become of a record: an error, or whether it would change anything.
    pub fn check(&self, record: &PresenceRecord) -> (changes: Result<bool, DiscoveryError>)
        ensures
            changes == apply_verdict(self@, record@),
    {
        proof {
            use_type_invariant(self);
        }
        let ghost s = self@;
        let at: usize = Self::find(&self.records, record.network_id, record.endpoint_id);
        proof {
            lemma_place(s, record.network_id, record.endpoint_id);
        }
        if at < self.records.len() {
            let current: &PresenceRecord = &self.records[at];
            assert(current@ == s[at as int]);
            let same: bool = record.same(current);
            if record.sequence < current.sequence || (record.sequence == current.sequence && !same) {
                return Err(DiscoveryError::Rollback);
            }
            if same {
                return Ok(false);
            }
        }
        if Self::claimed(&self.records, record) {
            return Err(DiscoveryError::InvalidPresence);
        }
        Ok(true)
    }

    /// Takes in a record that was decrypted and checked; tells whether anything changed.
    pub fn apply(&mut self, record: PresenceRecord) -> (changed: Result<bool, DiscoveryError>)
        ensures
            changed == apply_verdict(old(self)@, record@),
            final(self)@ == (if changed == Ok::<bool, DiscoveryError>(true) {
                applied(old(self)@, record@)
            } else {
                old(self)@
            }),
            consistent(old(self)@),
            consistent(final(self)@),
    {
        proof {
            use_type_invariant(&*self);
        }
        let ghost s = self@;
        let ghost r = record@;
        if !self.check(&record)? {
            return Ok(false);
        }
        let at: usize = Self::find(&self.records, record.network_id, record.endpoint_id);
        proof {
            lemma_place(s, record.network_id, record.endpoint_id);
        }
        let mut records: Vec<PresenceRecord> = Vec::new();
        std::mem::swap(&mut records, &mut self.records);
        if at < records.len() {
            records.set(at, record);
        } else {
            records.push(record);
        }
        proof {
            assert(record_views(records@) =~= applied(s, r));
            lemma_applied_consistent(s, r);
        }
        self.records = records;
        Ok(true)
    }

    /// The record that serves an address now.
    pub fn get(&self, network_id: NetworkId, virtual_addr: ScopedVirtualAddr, now_ms: u64) -> (found: Option<
        &PresenceRecord,
    >)
        ensures
            match server_of(self@, network_id, virtual_addr) {
                Some(r) => if r.expires_at_ms > now_ms {
                    found matches Some(record) && record@ == r
                } else {
                    found is None
                },
                None => found is None,
            },
            consistent(self@),
    {
        proof {
            use_type_invariant(self);
        }
        let ghost all = self@;
        let mut i: usize = 0;
        assert(all.skip(0) =~= all);
        while i < self.records.len()
            invariant
                i <= self.records.len(),
                all == record_views(self.records@),
                consistent(self@),
                server_of(self@, network_id, virtual_addr) == server_of(
                    all.skip(i as int),
                    network_id,
                    virtual_addr,
                ),
            decreases self.records.len() - i,
        {
            proof {
                assert(all.skip(i as int)[0] == self.records@[i as int]@);
                assert(all.skip(i as int).skip(1) =~= all.skip(i + 1));
            }
            if self.records[i].network_id == network_id && address_among(
                &self.records[i].virtual_addrs,
                virtual_addr,
            ) {
                if self.records[i].expires_at_ms > now_ms {
                    return Some(&self.records[i]);
                }
                return None;
            }
            i = i + 1;
        }
        None
    }

    /// Forgets what has expired; tells the endpoints concerned.
    pub fn purge_expired(&mut self, now_ms: u64) -> (removed: Vec<EndpointId>)
        ensures
            final(self)@ == old(self)@.filter(live(now_ms)),
            removed@ == endpoints(old(self)@.filter(expired(now_ms))),
            consistent(final(self)@),
    {
        proof {
            use_type_invariant(&*self);
        }
        let ghost s = self@;
        let mut records: Vec<PresenceRecord> = Vec::new();
        std::mem::swap(&mut records, &mut self.records);
        let mut kept: Vec<PresenceRecord> = Vec::new();
        let mut removed: Vec<EndpointId> = Vec::new();
        let mut i: usize = 0;
        proof {
            reveal(Seq::filter);
            assert(s.take(0).filter(live(now_ms)) =~= Seq::<Presence>::empty());
            assert(s.take(0).filter(expired(now_ms)) =~= Seq::<Presence>::empty());
            assert(record_views(kept@) =~= Seq::<Presence>::empty());
            assert(removed@ =~= endpoints(Seq::<Presence>::empty()));
        }
        while i < records.len()
            invariant
                i <= records.len(),
                s == record_views(records@),
                record_views(kept@) == s.take(i as int).filter(live(now_ms)),
                removed@ == endpoints(s.take(i as int).filter(expired(now_ms))),
            decreases records.len() - i,
        {
            let record: &PresenceRecord = &records[i];
            let ghost r = record@;
            proof {
                reveal(Seq::filter);
                assert(s.take(i + 1).drop_last() =~= s.take(i as int));
                assert(s.take(i + 1).last() == r);
            }
            let ghost before = kept@;
            let ghost gone = s.take(i as int).filter(expired(now_ms));
            if record.expires_at_ms > now_ms {
                kept.push(record.clone());
                assert(record_views(kept@) =~= record_views(before).push(r));
            } else {
                removed.push(record.endpoint_id);
                assert(removed@ =~= endpoints(gone.push(r)));
            }
            i = i + 1;
        }
        proof {
            assert(s.take(i as int) =~= s);
            lemma_filter_consistent(s, live(now_ms));
        }
        self.records = kept;
        removed
    }

    /// Whether anything is known of an endpoint, in any network.
    pub fn contains_endpoint(&self, endpoint_id: EndpointId) -> (known: bool)
        ensures
            known == exists|i: int|
                0 <= i < self@.len() && (#[trigger] self@[i]).endpoint_id == endpoint_id,
    {
        let ghost all = self@;
        let mut i: usize = 0;
        while i < self.records.len()
            invariant
                i <= self.records.len(),
                all == record_views(self.records@),
                all == self@,
                forall|j: int| 0 <= j < i ==> (#[trigger] all[j]).endpoint_id != endpoint_id,
            decreases self.records.len() - i,
        {
            assert(all[i as int] == self.records@[i as int]@);
            if self.records[i].endpoint_id == endpoint_id {
                return true;
            }
            i = i + 1;
        }
        false
    }
}

/// Taking in a record that claims nothing of others keeps what is known consistent.
proof fn lemma_applied_consistent(s: Seq<Presence>, r: Presence)
    requires
        consistent(s),
        !exists|i: int| 0 <= i < s.len() && clash(#[trigger] s[i], r),
    ensures
        consistent(applied(s, r)),
{
    let t = applied(s, r);
    let p = place(s, r.network_id, r.endpoint_id);
    lemma_place(s, r.network_id, r.endpoint_id);
    assert forall|i: int, j: int| 0 <= i < j < t.len() implies !belongs(
        #[trigger] t[i],
        (#[trigger] t[j]).network_id,
        t[j].endpoint_id,
    ) && !clash(t[i], t[j]) by {
        if i != p && j != p {
            assert(t[i] == s[i] && t[j] == s[j]);
        } else if j == p {
            assert(t[i] == s[i] && t[j] == r);
            assert(!clash(s[i], r));
            if p < s.len() {
                assert(!belongs(s[i], s[p].network_id, s[p].endpoint_id));
            }
        } else {
            assert(t[i] == r && t[j] == s[j]);
            assert(!clash(s[j], r));
            assert(!belongs(s[p], s[j].network_id, s[j].endpoint_id));
            if clash(r, s[j]) {
                let a = choose|a: ScopedVirtualAddr| #[trigger]
                    r.virtual_addrs.contains(a) && s[j].virtual_addrs.contains(a);
                assert(s[j].virtual_addrs.contains(a) && r.virtual_addrs.contains(a));
            }
        }
    }
}

/// What is kept was there.
proof fn lemma_filter_members(s: Seq<Presence>, keep: spec_fn(Presence) -> bool, i: int)
    requires
        0 <= i < s.filter(keep).len(),
    ensures
        s.contains(s.filter(keep)[i]),
    decreases s.len(),
{
    reveal(Seq::filter);
    let front = s.drop_last();
    let f = front.filter(keep);
    if i < f.len() {
        lemma_filter_members(front, keep, i);
        let k = choose|k: int| 0 <= k < front.len() && front[k] == f[i];
        assert(s[k] == f[i]);
    } else {
        assert(s[s.len() - 1] == s.filter(keep)[i]);
    }
}

/// Forgetting keeps what is known consistent.
proof fn lemma_filter_consistent(s: Seq<Presence>, keep: spec_fn(Presence) -> bool)
    requires
        consistent(s),
    ensures
        consistent(s.filter(keep)),
    decreases s.len(),
{
    reveal(Seq::filter);
    if s.len() > 0 {
        let front = s.drop_last();
        assert forall|i: int, j: int| 0 <= i < j < front.len() implies !belongs(
            #[trigger] front[i],
            (#[trigger] front[j]).network_id,
            front[j].endpoint_id,
        ) && !clash(front[i], front[j]) by {
            assert(front[i] == s[i] && front[j] == s[j]);
        }
        lemma_filter_consistent(front, keep);
        let t = s.filter(keep);
        let f = front.filter(keep);
        let last = s.last();
        assert forall|i: int| 0 <= i < f.len() implies (s.contains(#[trigger] f[i]) && !belongs(
            f[i],
            last.network_id,
            last.endpoint_id,
        ) && !clash(f[i], last)) by {
            lemma_filter_members(front, keep, i);
            let k = choose|k: int| 0 <= k < front.len() && front[k] == f[i];
            assert(s[k] == f[i]);
            assert(!belongs(s[k], s[s.len() - 1].network_id, s[s.len() - 1].endpoint_id));
        }
        assert forall|i: int, j: int| 0 <= i < j < t.len() implies !belongs(
            #[trigger] t[i],
            (#[trigger] t[j]).network_id,
            t[j].endpoint_id,
        ) && !clash(t[i], t[j]) by {
            if j < f.len() {
                assert(t[i] == f[i] && t[j] == f[j]);
            } else {
                assert(t[i] == f[i] && t[j] == last);
            }
        }
    }
}

/// Where an address is served by one record only, that record is the one that is found.
proof fn lemma_server_of(
    s: Seq<Presence>,
    network: NetworkId,
    address: ScopedVirtualAddr,
    i: int,
)
    requires
        0 <= i < s.len(),
        serves(s[i], network, address),
        forall|j: int| 0 <= j < s.len() && j != i ==> !serves(#[trigger] s[j], network, address),
    ensures
        server_of(s, network, address) == Some(s[i]),
    decreases s.len(),
{
    if i > 0 {
        let rest = s.skip(1);
        assert(rest[i - 1] == s[i]);
        assert forall|j: int| 0 <= j < rest.len() && j != i - 1 implies !serves(
            #[trigger] rest[j],
            network,
            address,
        ) by {
            assert(rest[j] == s[j + 1]);
        }
        assert(!serves(s[0], network, address));
        lemma_server_of(rest, network, address, i - 1);
    }
}

/// What is found serves the address.
proof fn lemma_served(s: Seq<Presence>, network: NetworkId, address: ScopedVirtualAddr)
    ensures
        match server_of(s, network, address) {
            Some(r) => serves(r, network, address) && s.contains(r),
            None => forall|i: int|
                0 <= i < s.len() ==> !serves(#[trigger] s[i], network, address),
        },
    decreases s.len(),
{
    if s.len() > 0 {
        let rest = s.skip(1);
        lemma_served(rest, network, address);
        if serves(s[0], network, address) {
            assert(s.contains(s[0]));
        } else {
            match server_of(rest, network, address) {
                Some(r) => {
                    let k = choose|k: int| 0 <= k < rest.len() && rest[k] == r;
                    assert(s[k + 1] == r);
                },
                None => {
                    assert forall|i: int| 0 <= i < s.len() implies !serves(
                        #[trigger] s[i],
                        network,
                        address,
                    ) by {
                        if i > 0 {
                            assert(rest[i - 1] == s[i]);
                        }
                    }
                },
            }
        }
    }
}

/// A record that was taken in is what is found for each of its addresses, and what is known of
/// its endpoint.
pub proof fn law_applied_record_is_found(s: Seq<Presence>, r: Presence, address: ScopedVirtualAddr)
    requires
        consistent(s),
        apply_verdict(s, r) == Ok::<bool, DiscoveryError>(true),
        r.virtual_addrs.contains(address),
    ensures
        server_of(applied(s, r), r.network_id, address) == Some(r),
        record_of(applied(s, r), r.network_id, r.endpoint_id) == Some(r),
{
    let t = applied(s, r);
    let p = place(s, r.network_id, r.endpoint_id);
    lemma_place(s, r.network_id, r.endpoint_id);
    lemma_place(t, r.network_id, r.endpoint_id);
    lemma_applied_consistent(s, r);
    assert(t[p] == r);
    assert forall|j: int| 0 <= j < t.len() && j != p implies !serves(
        #[trigger] t[j],
        r.network_id,
        address,
    ) by {
        if serves(t[j], r.network_id, address) {
            assert(t[j].virtual_addrs.contains(address) && r.virtual_addrs.contains(address));
            if t[j].endpoint_id != r.endpoint_id {
                assert(clash(t[j], r));
                assert(clash(r, t[j])) by {
                    assert(r.virtual_addrs.contains(address) && t[j].virtual_addrs.contains(address));
                }
            }
            if j < p {
                assert(!belongs(t[j], t[p].network_id, t[p].endpoint_id) && !clash(t[j], t[p]));
            } else {
                assert(!belongs(t[p], t[j].network_id, t[j].endpoint_id) && !clash(t[p], t[j]));
            }
        }
    }
    lemma_server_of(t, r.network_id, address, p);
    let q = place(t, r.network_id, r.endpoint_id);
    if q < p {
        assert(belongs(t[q], t[p].network_id, t[p].endpoint_id));
    }
    if p < q {
        assert(!belongs(t[p], r.network_id, r.endpoint_id));
    }
}

/// Taking in a record changes nothing of what is known of other endpoints.
pub proof fn law_other_endpoints_are_untouched(
    s: Seq<Presence>,
    r: Presence,
    network: NetworkId,
    endpoint: EndpointId,
)
    requires
        !belongs(r, network, endpoint),
    ensures
        record_of(applied(s, r), network, endpoint) == record_of(s, network, endpoint),
{
    let t = applied(s, r);
    let p = place(s, r.network_id, r.endpoint_id);
    lemma_place(s, r.network_id, r.endpoint_id);
    lemma_place(s, network, endpoint);
    lemma_place(t, network, endpoint);
    let a = place(s, network, endpoint);
    let b = place(t, network, endpoint);
    if a < s.len() {
        assert(a != p);
        assert(t[a] == s[a]);
        if b < a {
            assert(t[b] == s[b] || t[b] == r);
        }
        if a < b {
            assert(!belongs(t[a], network, endpoint));
        }
    } else if b < t.len() {
        if b < s.len() {
            assert(t[b] == s[b] || t[b] == r);
        }
    }
}

/// What is known of an endpoint never goes back: once a record with a sequence number was taken
/// in, a record with a smaller one, or another with the same one, is refused and changes nothing.
pub proof fn law_presence_never_rolls_back(s: Seq<Presence>, r: Presence, next: Presence)
    requires
        consistent(s),
        apply_verdict(s, r) is Ok,
        next.network_id == r.network_id,
        next.endpoint_id == r.endpoint_id,
        next.sequence < r.sequence || (next.sequence == r.sequence && next != r),
    ensures
        ({
            let t = if apply_verdict(s, r) == Ok::<bool, DiscoveryError>(true) {
                applied(s, r)
            } else {
                s
            };
            apply_verdict(t, next) == Err::<bool, DiscoveryError>(DiscoveryError::Rollback)
        }),
{
    if apply_verdict(s, r) == Ok::<bool, DiscoveryError>(true) {
        let t = applied(s, r);
        let p = place(s, r.network_id, r.endpoint_id);
        lemma_place(s, r.network_id, r.endpoint_id);
        lemma_place(t, r.network_id, r.endpoint_id);
        let q = place(t, r.network_id, r.endpoint_id);
        assert(t[p] == r);
        if q < p {
            assert(t[q] == s[q]);
            assert(!belongs(s[q], r.network_id, r.endpoint_id));
        }
        if p < q {
            assert(!belongs(t[p], r.network_id, r.endpoint_id));
        }
    }
}

/// The same record offered again changes nothing.
pub proof fn law_same_record_changes_nothing(s: Seq<Presence>, r: Presence)
    requires
        apply_verdict(s, r) == Ok::<bool, DiscoveryError>(true),
    ensures
        apply_verdict(applied(s, r), r) == Ok::<bool, DiscoveryError>(false),
{
    let t = applied(s, r);
    let p = place(s, r.network_id, r.endpoint_id);
    lemma_place(s, r.network_id, r.endpoint_id);
    lemma_place(t, r.network_id, r.endpoint_id);
    let q = place(t, r.network_id, r.endpoint_id);
    assert(t[p] == r);
    if q < p {
        assert(t[q] == s[q]);
        assert(!belongs(s[q], r.network_id, r.endpoint_id));
    }
    if p < q {
        assert(!belongs(t[p], r.network_id, r.endpoint_id));
    }
}

/// After expired records were forgotten, nothing that is found for any address has expired.
pub proof fn law_purge_forgets_what_expired(
    s: Seq<Presence>,
    now_ms: u64,
    network: NetworkId,
    address: ScopedVirtualAddr,
)
    ensures
        server_of(s.filter(live(now_ms)), network, address) matches Some(r) ==> r.expires_at_ms
            > now_ms && s.contains(r),
{
    let t = s.filter(live(now_ms));
    lemma_served(t, network, address);
    if server_of(t, network, address) is Some {
        let r = server_of(t, network, address)->Some_0;
        let i = choose|i: int| 0 <= i < t.len() && t[i] == r;
        s.lemma_filter_pred(live(now_ms), i);
        lemma_filter_members(s, live(now_ms), i);
    }
}

/// What is known of an endpoint is the one record that is its, where records are consistent.
proof fn lemma_the_record(s: Seq<Presence>, i: int)
    requires
        consistent(s),
        0 <= i < s.len(),
    ensures
        record_of(s, s[i].network_id, s[i].endpoint_id) == Some(s[i]),
{
    let p = place(s, s[i].network_id, s[i].endpoint_id);
    lemma_place(s, s[i].network_id, s[i].endpoint_id);
    if p < i {
        assert(!belongs(s[p], s[i].network_id, s[i].endpoint_id));
    }
}

/// A newer record of a known endpoint that claims no address of another endpoint in its network is
/// accepted, and becomes what is known of the endpoint.
pub proof fn law_newer_record_is_accepted(s: Seq<Presence>, r: Presence, i: int)
    requires
        consistent(s),
        0 <= i < s.len(),
        s[i].network_id == r.network_id,
        s[i].endpoint_id == r.endpoint_id,
        s[i].sequence < r.sequence,
        forall|k: int, address: ScopedVirtualAddr|
            0 <= k < s.len() && s[k].network_id == r.network_id && s[k].endpoint_id
                != r.endpoint_id && #[trigger] s[k].virtual_addrs.contains(address)
                ==> !r.virtual_addrs.contains(address),
    ensures
        apply_verdict(s, r) == Ok::<bool, DiscoveryError>(true),
        record_of(applied(s, r), r.network_id, r.endpoint_id) == Some(r),
        applied(s, r).len() == s.len(),
        applied(s, r)[i] == r,
        forall|k: int| 0 <= k < s.len() && k != i ==> #[trigger] applied(s, r)[k] == s[k],
        consistent(applied(s, r)),
{
    lemma_the_record(s, i);
    lemma_place(s, r.network_id, r.endpoint_id);
    let p = place(s, r.network_id, r.endpoint_id);
    if p < i {
        assert(!belongs(s[p], s[i].network_id, s[i].endpoint_id));
    }
    lemma_applied_consistent(s, r);
    lemma_the_record(applied(s, r), i);
}

/// The first record of an endpoint that claims no address of another endpoint in its network is
/// accepted, and becomes what is known of the endpoint, behind what was known before.
pub proof fn law_first_record_is_accepted(s: Seq<Presence>, r: Presence)
    requires
        consistent(s),
        forall|k: int|
            0 <= k < s.len() ==> (#[trigger] s[k]).network_id != r.network_id || s[k].endpoint_id
                != r.endpoint_id,
        forall|k: int, address: ScopedVirtualAddr|
            0 <= k < s.len() && s[k].network_id == r.network_id && #[trigger] s[k].virtual_addrs.contains(
                address,
            ) ==> !r.virtual_addrs.contains(address),
    ensures
        apply_verdict(s, r) == Ok::<bool, DiscoveryError>(true),
        applied(s, r) == s.push(r),
        record_of(applied(s, r), r.network_id, r.endpoint_id) == Some(r),
        consistent(applied(s, r)),
{
    lemma_place(s, r.network_id, r.endpoint_id);
    lemma_applied_consistent(s, r);
    lemma_the_record(applied(s, r), s.len() as int);
}

/// A rollback is reported exactly where what is known of the endpoint has a larger sequence number,
/// or the same one with other contents; a record is taken as known exactly where it is what is
/// known; and an address is refused exactly where a record that is neither claims one that another
/// endpoint of its network serves.
pub proof fn law_why_a_record_is_refused(s: Seq<Presence>, r: Presence)
    requires
        consistent(s),
    ensures
        apply_verdict(s, r) == Err::<bool, DiscoveryError>(DiscoveryError::Rollback) <==> exists|
            i: int,
        |
            0 <= i < s.len() && (#[trigger] s[i]).network_id == r.network_id && s[i].endpoint_id
                == r.endpoint_id && (r.sequence < s[i].sequence || (r.sequence == s[i].sequence
                && s[i] != r)),
        apply_verdict(s, r) == Ok::<bool, DiscoveryError>(false) <==> s.contains(r),
        apply_verdict(s, r) == Err::<bool, DiscoveryError>(DiscoveryError::InvalidPresence) ==> exists|
            i: int,
            address: ScopedVirtualAddr,
        |
            0 <= i < s.len() && s[i].network_id == r.network_id && s[i].endpoint_id != r.endpoint_id
                && #[trigger] s[i].virtual_addrs.contains(address) && r.virtual_addrs.contains(
                address,
            ),
        apply_verdict(s, r) matches Err(reason) ==> reason == DiscoveryError::Rollback || reason
            == DiscoveryError::InvalidPresence,
{
    lemma_place(s, r.network_id, r.endpoint_id);
    let p = place(s, r.network_id, r.endpoint_id);
    assert forall|i: int|
        0 <= i < s.len() && (#[trigger] s[i]).network_id == r.network_id && s[i].endpoint_id
            == r.endpoint_id implies record_of(s, r.network_id, r.endpoint_id) == Some(s[i]) by {
        lemma_the_record(s, i);
    }
    if s.contains(r) {
        let i = choose|i: int| 0 <= i < s.len() && s[i] == r;
        assert(s[i].network_id == r.network_id);
    }
    if apply_verdict(s, r) == Err::<bool, DiscoveryError>(DiscoveryError::InvalidPresence) {
        let i = choose|i: int| 0 <= i < s.len() && clash(#[trigger] s[i], r);
        let address = choose|address: ScopedVirtualAddr| #[trigger]
            s[i].virtual_addrs.contains(address) && r.virtual_addrs.contains(address);
        assert(s[i].virtual_addrs.contains(address));
    }
}

/// An address is found exactly where a record of the network claims it: that record, whatever else
/// is known.
pub proof fn law_who_serves_an_address(
    s: Seq<Presence>,
    network: NetworkId,
    address: ScopedVirtualAddr,
    r: Presence,
)
    requires
        consistent(s),
    ensures
        server_of(s, network, address) == Some(r) <==> s.contains(r) && r.network_id == network
            && r.virtual_addrs.contains(address),
{
    lemma_served(s, network, address);
    if s.contains(r) && r.network_id == network && r.virtual_addrs.contains(address) {
        let i = choose|i: int| 0 <= i < s.len() && s[i] == r;
        assert forall|j: int| 0 <= j < s.len() && j != i implies !serves(
            #[trigger] s[j],
            network,
            address,
        ) by {
            if serves(s[j], network, address) {
                if s[j].endpoint_id != r.endpoint_id {
                    assert(s[j].virtual_addrs.contains(address) && r.virtual_addrs.contains(address));
                    assert(clash(s[j], r));
                    assert(r.virtual_addrs.contains(address) && s[j].virtual_addrs.contains(address));
                    assert(clash(r, s[j]));
                }
                if j < i {
                    assert(!belongs(s[j], s[i].network_id, s[i].endpoint_id) && !clash(s[j], s[i]));
                } else {
                    assert(!belongs(s[i], s[j].network_id, s[j].endpoint_id) && !clash(s[i], s[j]));
                }
            }
        }
        lemma_server_of(s, network, address, i);
    }
    if server_of(s, network, address) == Some(r) {
        lemma_serves_what_is_found(s, network, address);
    }
}

proof fn lemma_serves_what_is_found(s: Seq<Presence>, network: NetworkId, address: ScopedVirtualAddr)
    ensures
        server_of(s, network, address) matches Some(r) ==> serves(r, network, address) && s.contains(
            r,
        ),
    decreases s.len(),
{
    if s.len() > 0 {
        let rest = s.skip(1);
        lemma_serves_what_is_found(rest, network, address);
        if serves(s[0], network, address) {
            assert(s.contains(s[0]));
        } else if server_of(rest, network, address) is Some {
            let r = server_of(rest, network, address)->Some_0;
            let i = choose|i: int| 0 <= i < rest.len() && rest[i] == r;
            assert(s[i + 1] == r);
        }
    }
}

/// What has expired is forgotten, and nothing else is: a record is still known afterwards exactly
/// where it was and has not expired, and told as gone exactly where it was and has.
pub proof fn law_what_a_purge_keeps(s: Seq<Presence>, now_ms: u64, r: Presence)
    ensures
        s.filter(live(now_ms)).contains(r) <==> s.contains(r) && now_ms < r.expires_at_ms,
        s.filter(expired(now_ms)).contains(r) <==> s.contains(r) && r.expires_at_ms <= now_ms,
{
    lemma_filter_contains(s, live(now_ms), r);
    lemma_filter_contains(s, expired(now_ms), r);
}

proof fn lemma_filter_contains(s: Seq<Presence>, keep: spec_fn(Presence) -> bool, r: Presence)
    ensures
        s.filter(keep).contains(r) <==> s.contains(r) && keep(r),
{
    let t = s.filter(keep);
    if t.contains(r) {
        let i = choose|i: int| 0 <= i < t.len() && t[i] == r;
        s.lemma_filter_pred(keep, i);
        s.lemma_filter_contains_rev(keep, r);
    }
    if s.contains(r) && keep(r) {
        let i = choose|i: int| 0 <= i < s.len() && s[i] == r;
        s.lemma_filter_contains(keep, i);
    }
}

/// An endpoint serves an address now exactly where a record of it that has not expired claims the
/// address in the network.
pub proof fn law_where_an_address_leads(
    s: Seq<Presence>,
    network: NetworkId,
    address: ScopedVirtualAddr,
    now_ms: u64,
    endpoint: EndpointId,
)
    requires
        consistent(s),
    ensures
        resolved(s, network, address, now_ms) == Some(endpoint) <==> exists|i: int|
            0 <= i < s.len() && (#[trigger] s[i]).network_id == network && s[i].endpoint_id
                == endpoint && s[i].virtual_addrs.contains(address) && now_ms < s[i].expires_at_ms,
{
    if exists|i: int|
        0 <= i < s.len() && (#[trigger] s[i]).network_id == network && s[i].endpoint_id == endpoint
            && s[i].virtual_addrs.contains(address) && now_ms < s[i].expires_at_ms {
        let i = choose|i: int|
            0 <= i < s.len() && (#[trigger] s[i]).network_id == network && s[i].endpoint_id
                == endpoint && s[i].virtual_addrs.contains(address) && now_ms < s[i].expires_at_ms;
        law_who_serves_an_address(s, network, address, s[i]);
    }
    if server_of(s, network, address) is Some {
        let r = server_of(s, network, address)->Some_0;
        law_who_serves_an_address(s, network, address, r);
        let i = choose|i: int| 0 <= i < s.len() && s[i] == r;
        assert(s[i].network_id == network);
    }
}

} // verus!
