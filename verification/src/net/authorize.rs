//! What a configuration gives an endpoint and its peers.
use crate::config::snapshot;
use crate::config::snapshot::{Config, NetworkConfigV1, Relay, RelayDescriptor, RelayRoles};
use crate::config::validate::ValidatedNetworkConfig;
use crate::crypto::app;
use crate::crypto::app::{AppBinding, AppBindingPayload};
use crate::crypto::endpoint;
use crate::crypto::endpoint::{EndpointBinding, EndpointBindingPayload};
use crate::crypto::keys::CertificateError;
use crate::crypto::member;
use crate::crypto::member::{MemberCertificate, MemberCertificatePayload};
use crate::discovery::authorize;
use crate::discovery::authorize::address_of;
use crate::identifiers::{AppAddr, ClientAddr, EndpointId, MemberId, NetworkId, ScopedVirtualAddr};
use crate::net::bindings::LocalBindings;
use crate::net::peers;
use crate::net::peers::ConfigAuthorizationError;
use crate::order;
use crate::order::{sorted_distinct, Keyed};
use crate::outside;
use crate::outside::{endpoint_id_ok, parse_relay_url};
use crate::wire;
use crate::wire::{arrays_equal, push_bytes};
use vstd::prelude::*;

verus! {

/// Which endpoint may use which addresses as a client.
#[derive(Debug)]
pub struct ClientAuthorizations {
    pairs: Vec<(EndpointId, ScopedVirtualAddr)>,
}

impl View for ClientAuthorizations {
    type V = Set<(EndpointId, ScopedVirtualAddr)>;

    closed spec fn view(&self) -> Set<(EndpointId, ScopedVirtualAddr)> {
        self.pairs@.to_set()
    }
}

impl Clone for ClientAuthorizations {
    fn clone(&self) -> (copy: Self)
        ensures
            copy@ == self@,
    {
        proof {
            use_type_invariant(self);
        }
        let mut pairs: Vec<(EndpointId, ScopedVirtualAddr)> = Vec::new();
        let mut i: usize = 0;
        while i < self.pairs.len()
            invariant
                i <= self.pairs.len(),
                pairs@ =~= self.pairs@.take(i as int),
            decreases self.pairs.len() - i,
        {
            pairs.push(self.pairs[i]);
            i = i + 1;
        }
        assert(pairs@ =~= self.pairs@);
        ClientAuthorizations { pairs }
    }
}

impl ClientAuthorizations {
    #[verifier::type_invariant]
    spec fn well_formed(self) -> bool {
        self.pairs@.no_duplicates()
    }

    /// Nobody may use anything.
    pub fn new() -> (none: Self)
        ensures
            none@ == Set::<(EndpointId, ScopedVirtualAddr)>::empty(),
    {
        let none = ClientAuthorizations { pairs: Vec::new() };
        assert(none@ =~= Set::empty());
        none
    }

    /// Whether an endpoint may use an address.
    pub fn contains(&self, endpoint: EndpointId, address: ScopedVirtualAddr) -> (allowed: bool)
        ensures
            allowed == self@.contains((endpoint, address)),
    {
        let mut i: usize = 0;
        while i < self.pairs.len()
            invariant
                i <= self.pairs.len(),
                forall|j: int| 0 <= j < i ==> self.pairs@[j] != (endpoint, address),
            decreases self.pairs.len() - i,
        {
            if self.pairs[i].0 == endpoint && self.pairs[i].1 == address {
                assert(self.pairs@[i as int] == (endpoint, address));
                return true;
            }
            i = i + 1;
        }
        false
    }

    /// Lets an endpoint use an address.
    pub fn insert(&mut self, endpoint: EndpointId, address: ScopedVirtualAddr)
        ensures
            final(self)@ == old(self)@.insert((endpoint, address)),
    {
        proof {
            use_type_invariant(&*self);
        }
        if self.contains(endpoint, address) {
            assert(self@.insert((endpoint, address)) =~= self@);
            return;
        }
        let ghost before = self.pairs@;
        let mut pairs: Vec<(EndpointId, ScopedVirtualAddr)> = Vec::new();
        std::mem::swap(&mut pairs, &mut self.pairs);
        pairs.push((endpoint, address));
        proof {
            assert forall|p: (EndpointId, ScopedVirtualAddr)| #[trigger]
                pairs@.contains(p) <==> before.contains(p) || p == (endpoint, address) by {
                vstd::seq_lib::lemma_seq_contains_after_push(before, (endpoint, address), p);
            }
            assert(pairs@.to_set() =~= before.to_set().insert((endpoint, address)));
        }
        self.pairs = pairs;
    }

    /// The addresses that an endpoint may use, each once.
    pub fn get(&self, endpoint: EndpointId) -> (addresses: Vec<ScopedVirtualAddr>)
        ensures
            addresses@.no_duplicates(),
            forall|a: ScopedVirtualAddr| #[trigger]
                addresses@.contains(a) <==> self@.contains((endpoint, a)),
    {
        proof {
            use_type_invariant(self);
        }
        let ghost all = self.pairs@;
        let mut addresses: Vec<ScopedVirtualAddr> = Vec::new();
        let mut i: usize = 0;
        while i < self.pairs.len()
            invariant
                i <= self.pairs.len(),
                all == self.pairs@,
                all.no_duplicates(),
                addresses@.no_duplicates(),
                forall|a: ScopedVirtualAddr| #[trigger]
                    addresses@.contains(a) <==> all.take(i as int).contains((endpoint, a)),
            decreases self.pairs.len() - i,
        {
            let ghost before = addresses@;
            let pair: (EndpointId, ScopedVirtualAddr) = self.pairs[i];
            proof {
                assert(all.take(i + 1) =~= all.take(i as int).push(pair));
                assert forall|a: ScopedVirtualAddr| #[trigger]
                    all.take(i + 1).contains((endpoint, a)) <==> all.take(i as int).contains(
                        (endpoint, a),
                    ) || pair == (endpoint, a) by {
                    vstd::seq_lib::lemma_seq_contains_after_push(
                        all.take(i as int),
                        pair,
                        (endpoint, a),
                    );
                }
                if all.take(i as int).contains(pair) {
                    let j = choose|j: int| 0 <= j < i && all.take(i as int)[j] == pair;
                    assert(all[j] == all[i as int]);
                }
            }
            if pair.0 == endpoint {
                assert(!before.contains(pair.1));
                addresses.push(pair.1);
                proof {
                    assert forall|a: ScopedVirtualAddr| #[trigger]
                        addresses@.contains(a) <==> before.contains(a) || a == pair.1 by {
                        vstd::seq_lib::lemma_seq_contains_after_push(before, pair.1, a);
                    }
                }
            }
            i = i + 1;
        }
        assert(all.take(i as int) =~= all);
        addresses
    }
}

/// Gathers what endpoints may use.
pub fn collect_client_authorizations(allowed_clients: Vec<(EndpointId, ScopedVirtualAddr)>) -> (collected: ClientAuthorizations)
    ensures
        collected@ == allowed_clients@.to_set(),
{
    let mut collected: ClientAuthorizations = ClientAuthorizations::new();
    let mut i: usize = 0;
    assert(allowed_clients@.take(0).to_set() =~= collected@);
    while i < allowed_clients.len()
        invariant
            i <= allowed_clients.len(),
            collected@ == allowed_clients@.take(i as int).to_set(),
        decreases allowed_clients.len() - i,
    {
        let ghost before = allowed_clients@.take(i as int);
        let pair: (EndpointId, ScopedVirtualAddr) = allowed_clients[i];
        collected.insert(pair.0, pair.1);
        proof {
            let after = allowed_clients@.take(i + 1);
            assert(after =~= before.push(pair));
            assert forall|p: (EndpointId, ScopedVirtualAddr)| #[trigger]
                after.contains(p) <==> before.contains(p) || p == pair by {
                vstd::seq_lib::lemma_seq_contains_after_push(before, pair, p);
            }
            assert(after.to_set() =~= before.to_set().insert(pair));
        }
        i = i + 1;
    }
    assert(allowed_clients@.take(i as int) =~= allowed_clients@);
    collected
}

/// The members and their endpoints, in order, or why they cannot be told.
pub open spec fn endpoint_pairs(raw: Seq<Seq<u8>>) -> Result<
    Seq<(MemberId, EndpointId)>,
    ConfigAuthorizationError,
>
    decreases raw.len(),
{
    if raw.len() == 0 {
        Ok(Seq::empty())
    } else {
        match endpoint_pairs(raw.drop_last()) {
            Err(e) => Err(e),
            Ok(front) => match endpoint::read_signed_endpoint(raw.last()) {
                None => Err(ConfigAuthorizationError::Credential(CertificateError::MalformedWire)),
                Some(b) => if outside::endpoint_key_ok(b.payload.endpoint_id@) {
                    Ok(front.push((b.payload.member_id, EndpointId(b.payload.endpoint_id))))
                } else {
                    Err(ConfigAuthorizationError::MalformedEndpoint)
                },
            },
        }
    }
}

proof fn lemma_pairs_error(raw: Seq<Seq<u8>>, i: int)
    requires
        0 <= i <= raw.len(),
        endpoint_pairs(raw.take(i)) is Err,
    ensures
        endpoint_pairs(raw) == endpoint_pairs(raw.take(i)),
    decreases raw.len() - i,
{
    if i < raw.len() {
        assert(raw.take(i + 1).drop_last() =~= raw.take(i));
        lemma_pairs_error(raw, i + 1);
    } else {
        assert(raw.take(i) =~= raw);
    }
}

fn read_endpoint_pairs(raw: &Vec<Vec<u8>>) -> (pairs: Result<
    Vec<(MemberId, EndpointId)>,
    ConfigAuthorizationError,
>)
    ensures
        match endpoint_pairs(snapshot::blobs(raw@)) {
            Ok(all) => pairs matches Ok(pairs) && pairs@ == all,
            Err(reason) => pairs matches Err(error) && error == reason,
        },
{
    let ghost all = snapshot::blobs(raw@);
    let mut pairs: Vec<(MemberId, EndpointId)> = Vec::new();
    let mut i: usize = 0;
    assert(all.take(0) =~= Seq::<Seq<u8>>::empty());
    assert(pairs@ =~= Seq::<(MemberId, EndpointId)>::empty());
    while i < raw.len()
        invariant
            i <= raw.len(),
            all == snapshot::blobs(raw@),
            endpoint_pairs(all.take(i as int)) == Ok::<
                Seq<(MemberId, EndpointId)>,
                ConfigAuthorizationError,
            >(pairs@),
        decreases raw.len() - i,
    {
        proof {
            assert(all.take(i + 1).drop_last() =~= all.take(i as int));
            assert(all.take(i + 1).last() == raw@[i as int]@);
            if endpoint_pairs(all.take(i + 1)) is Err {
                lemma_pairs_error(all, i + 1);
            }
        }
        match EndpointBinding::from_bytes(raw[i].as_slice()) {
            Ok(binding) => {
                let payload: &EndpointBindingPayload = binding.payload();
                if !endpoint_id_ok(&payload.endpoint_id) {
                    return Err(ConfigAuthorizationError::MalformedEndpoint);
                }
                pairs.push((payload.member_id, EndpointId(payload.endpoint_id)));
            },
            Err(error) => return Err(ConfigAuthorizationError::Credential(error)),
        }
        i = i + 1;
    }
    proof {
        assert(all.take(i as int) =~= all);
    }
    Ok(pairs)
}

/// The member that an endpoint belongs to: the last that it is paired with.
pub open spec fn owner_of(pairs: Seq<(MemberId, EndpointId)>, endpoint: EndpointId) -> Option<MemberId>
    decreases pairs.len(),
{
    if pairs.len() == 0 {
        None
    } else if pairs.last().1 == endpoint {
        Some(pairs.last().0)
    } else {
        owner_of(pairs.drop_last(), endpoint)
    }
}

fn find_owner(pairs: &Vec<(MemberId, EndpointId)>, endpoint: EndpointId) -> (owner: Option<MemberId>)
    ensures
        owner == owner_of(pairs@, endpoint),
{
    let mut n: usize = pairs.len();
    assert(pairs@.take(n as int) =~= pairs@);
    while n > 0
        invariant
            n <= pairs.len(),
            owner_of(pairs@, endpoint) == owner_of(pairs@.take(n as int), endpoint),
        decreases n,
    {
        assert(pairs@.take(n as int).drop_last() =~= pairs@.take(n - 1));
        if pairs[n - 1].1 == endpoint {
            return Some(pairs[n - 1].0);
        }
        n = n - 1;
    }
    None
}

/// The members and the addresses they are given, in order, or why they cannot be told.
pub open spec fn grants(raw: Seq<Seq<u8>>) -> Result<
    Seq<(MemberId, ScopedVirtualAddr)>,
    ConfigAuthorizationError,
>
    decreases raw.len(),
{
    if raw.len() == 0 {
        Ok(Seq::empty())
    } else {
        match grants(raw.drop_last()) {
            Err(e) => Err(e),
            Ok(front) => match app::read_signed_binding(raw.last()) {
                Err(e) => Err(ConfigAuthorizationError::Credential(e)),
                Ok(b) => match authorize::binding_address(b.payload) {
                    None => Err(ConfigAuthorizationError::ClientNotAuthorized),
                    Some(address) => Ok(front.push((b.payload.subject, address))),
                },
            },
        }
    }
}

proof fn lemma_grants_error(raw: Seq<Seq<u8>>, i: int)
    requires
        0 <= i <= raw.len(),
        grants(raw.take(i)) is Err,
    ensures
        grants(raw) == grants(raw.take(i)),
    decreases raw.len() - i,
{
    if i < raw.len() {
        assert(raw.take(i + 1).drop_last() =~= raw.take(i));
        lemma_grants_error(raw, i + 1);
    } else {
        assert(raw.take(i) =~= raw);
    }
}

fn read_grants(raw: &Vec<Vec<u8>>) -> (given: Result<
    Vec<(MemberId, ScopedVirtualAddr)>,
    ConfigAuthorizationError,
>)
    ensures
        match grants(snapshot::blobs(raw@)) {
            Ok(all) => given matches Ok(given) && given@ == all,
            Err(reason) => given matches Err(error) && error == reason,
        },
{
    let ghost all = snapshot::blobs(raw@);
    let mut given: Vec<(MemberId, ScopedVirtualAddr)> = Vec::new();
    let mut i: usize = 0;
    assert(all.take(0) =~= Seq::<Seq<u8>>::empty());
    assert(given@ =~= Seq::<(MemberId, ScopedVirtualAddr)>::empty());
    while i < raw.len()
        invariant
            i <= raw.len(),
            all == snapshot::blobs(raw@),
            grants(all.take(i as int)) == Ok::<
                Seq<(MemberId, ScopedVirtualAddr)>,
                ConfigAuthorizationError,
            >(given@),
        decreases raw.len() - i,
    {
        proof {
            assert(all.take(i + 1).drop_last() =~= all.take(i as int));
            assert(all.take(i + 1).last() == raw@[i as int]@);
            if grants(all.take(i + 1)) is Err {
                lemma_grants_error(all, i + 1);
            }
        }
        match AppBinding::from_bytes(raw[i].as_slice()) {
            Ok(binding) => {
                let payload: &AppBindingPayload = binding.payload();
                match address_of(payload) {
                    Some(address) => {
                        given.push((payload.subject, address));
                    },
                    None => return Err(ConfigAuthorizationError::ClientNotAuthorized),
                }
            },
            Err(error) => return Err(ConfigAuthorizationError::Credential(error)),
        }
        i = i + 1;
    }
    proof {
        assert(all.take(i as int) =~= all);
    }
    Ok(given)
}

/// What one grant lets endpoints use.
pub open spec fn granted_by(
    pairs: Seq<(MemberId, EndpointId)>,
    grant: (MemberId, ScopedVirtualAddr),
    p: (EndpointId, ScopedVirtualAddr),
) -> bool {
    grant.1 is Client && p.1 == grant.1 && pairs.contains((grant.0, p.0))
}

/// What endpoints may use: each client address that is given to a member, at each endpoint of
/// that member.
pub open spec fn client_pairs(
    pairs: Seq<(MemberId, EndpointId)>,
    given: Seq<(MemberId, ScopedVirtualAddr)>,
) -> Set<(EndpointId, ScopedVirtualAddr)> {
    Set::new(
        |p: (EndpointId, ScopedVirtualAddr)|
            exists|i: int| 0 <= i < given.len() && granted_by(pairs, #[trigger] given[i], p),
    )
}

proof fn lemma_client_pairs_after(
    pairs: Seq<(MemberId, EndpointId)>,
    given: Seq<(MemberId, ScopedVirtualAddr)>,
    i: int,
)
    requires
        0 <= i < given.len(),
    ensures
        forall|p: (EndpointId, ScopedVirtualAddr)| #[trigger]
            client_pairs(pairs, given.take(i + 1)).contains(p) <==> client_pairs(
                pairs,
                given.take(i),
            ).contains(p) || granted_by(pairs, given[i], p),
{
    let shorter = given.take(i);
    let longer = given.take(i + 1);
    assert forall|p: (EndpointId, ScopedVirtualAddr)| #[trigger]
        client_pairs(pairs, longer).contains(p) <==> client_pairs(pairs, shorter).contains(p)
            || granted_by(pairs, given[i], p) by {
        if client_pairs(pairs, longer).contains(p) {
            let j = choose|j: int|
                0 <= j < longer.len() && granted_by(pairs, #[trigger] longer[j], p);
            if j < i {
                assert(shorter[j] == longer[j]);
            }
        }
        if client_pairs(pairs, shorter).contains(p) {
            let j = choose|j: int|
                0 <= j < shorter.len() && granted_by(pairs, #[trigger] shorter[j], p);
            assert(longer[j] == shorter[j]);
        }
        if granted_by(pairs, given[i], p) {
            assert(longer[i] == given[i]);
        }
    }
}

fn give_to_endpoints(
    allowed: &mut ClientAuthorizations,
    pairs: &Vec<(MemberId, EndpointId)>,
    member: MemberId,
    address: ScopedVirtualAddr,
)
    ensures
        forall|p: (EndpointId, ScopedVirtualAddr)| #[trigger]
            final(allowed)@.contains(p) <==> old(allowed)@.contains(p) || (p.1 == address
                && pairs@.contains((member, p.0))),
{
    let ghost start = allowed@;
    let mut i: usize = 0;
    while i < pairs.len()
        invariant
            i <= pairs.len(),
            forall|p: (EndpointId, ScopedVirtualAddr)| #[trigger]
                allowed@.contains(p) <==> start.contains(p) || (p.1 == address && pairs@.take(
                    i as int,
                ).contains((member, p.0))),
        decreases pairs.len() - i,
    {
        let pair: (MemberId, EndpointId) = pairs[i];
        proof {
            assert(pairs@.take(i + 1) =~= pairs@.take(i as int).push(pair));
            assert forall|q: (MemberId, EndpointId)| #[trigger]
                pairs@.take(i + 1).contains(q) <==> pairs@.take(i as int).contains(q) || q == pair by {
                vstd::seq_lib::lemma_seq_contains_after_push(pairs@.take(i as int), pair, q);
            }
        }
        if pair.0 == member {
            allowed.insert(pair.1, address);
        }
        i = i + 1;
    }
    assert(pairs@.take(i as int) =~= pairs@);
}

fn clients_by_endpoint(
    pairs: &Vec<(MemberId, EndpointId)>,
    given: &Vec<(MemberId, ScopedVirtualAddr)>,
) -> (allowed: ClientAuthorizations)
    ensures
        allowed@ == client_pairs(pairs@, given@),
{
    let mut allowed: ClientAuthorizations = ClientAuthorizations::new();
    let mut i: usize = 0;
    assert(allowed@ =~= client_pairs(pairs@, given@.take(0)));
    while i < given.len()
        invariant
            i <= given.len(),
            allowed@ == client_pairs(pairs@, given@.take(i as int)),
        decreases given.len() - i,
    {
        let grant: (MemberId, ScopedVirtualAddr) = given[i];
        proof {
            lemma_client_pairs_after(pairs@, given@, i as int);
        }
        match grant.1 {
            ScopedVirtualAddr::Client { .. } => {
                give_to_endpoints(&mut allowed, pairs, grant.0, grant.1);
            },
            ScopedVirtualAddr::Server { .. } => {},
        }
        assert(allowed@ =~= client_pairs(pairs@, given@.take(i + 1)));
        i = i + 1;
    }
    assert(given@.take(i as int) =~= given@);
    allowed
}

/// The error for an address that an endpoint holds but is not given.
pub open spec fn refusal(address: ScopedVirtualAddr) -> ConfigAuthorizationError {
    match address {
        ScopedVirtualAddr::Server { .. } => ConfigAuthorizationError::ServerNotAuthorized,
        ScopedVirtualAddr::Client { .. } => ConfigAuthorizationError::ClientNotAuthorized,
    }
}

/// Whether an address is held but not given to the member.
pub open spec fn not_given(
    held: Set<ScopedVirtualAddr>,
    given: Seq<(MemberId, ScopedVirtualAddr)>,
    member: MemberId,
    address: ScopedVirtualAddr,
) -> bool {
    held.contains(address) && !given.contains((member, address))
}

fn is_given(given: &Vec<(MemberId, ScopedVirtualAddr)>, member: MemberId, address: ScopedVirtualAddr) -> (found: bool)
    ensures
        found == given@.contains((member, address)),
{
    let mut i: usize = 0;
    while i < given.len()
        invariant
            i <= given.len(),
            forall|j: int| 0 <= j < i ==> given@[j] != (member, address),
        decreases given.len() - i,
    {
        if given[i].0 == member && given[i].1 == address {
            assert(given@[i as int] == (member, address));
            return true;
        }
        i = i + 1;
    }
    false
}

fn check_held(
    held: &LocalBindings,
    given: &Vec<(MemberId, ScopedVirtualAddr)>,
    member: MemberId,
) -> (checked: Result<(), ConfigAuthorizationError>)
    ensures
        match checked {
            Ok(()) => forall|a: ScopedVirtualAddr| !#[trigger] not_given(held@, given@, member, a),
            Err(error) => exists|a: ScopedVirtualAddr|
                #[trigger] not_given(held@, given@, member, a) && error == refusal(a),
        },
{
    let addresses: Vec<ScopedVirtualAddr> = held.iter();
    let mut i: usize = 0;
    while i < addresses.len()
        invariant
            i <= addresses.len(),
            addresses@.to_set() == held@,
            forall|j: int| 0 <= j < i ==> given@.contains((member, #[trigger] addresses@[j])),
        decreases addresses.len() - i,
    {
        let address: ScopedVirtualAddr = addresses[i];
        if !is_given(given, member, address) {
            proof {
                assert(addresses@.to_set().contains(address));
                assert(not_given(held@, given@, member, address));
            }
            return match address {
                ScopedVirtualAddr::Server { .. } => Err(
                    ConfigAuthorizationError::ServerNotAuthorized,
                ),
                ScopedVirtualAddr::Client { .. } => Err(
                    ConfigAuthorizationError::ClientNotAuthorized,
                ),
            };
        }
        i = i + 1;
    }
    proof {
        assert forall|a: ScopedVirtualAddr| !#[trigger] not_given(held@, given@, member, a) by {
            if held@.contains(a) {
                assert(addresses@.to_set().contains(a));
                let j = choose|j: int| 0 <= j < addresses@.len() && addresses@[j] == a;
                assert(given@.contains((member, addresses@[j])));
            }
        }
    }
    Ok(())
}

impl Keyed for String {
    open spec fn key(&self) -> Seq<u8> {
        wire::utf8(self@)
    }

    fn key_bytes(&self) -> (bytes: Vec<u8>) {
        let mut bytes: Vec<u8> = Vec::new();
        push_bytes(&mut bytes, self.as_str().as_bytes());
        assert(bytes@ =~= self.key());
        bytes
    }
}

/// The characters of each of several texts.
pub open spec fn texts(s: Seq<String>) -> Seq<Seq<char>> {
    Seq::new(s.len(), |i: int| s[i]@)
}

/// The canonical URLs of the relays that carry application data, in order, if all are URLs.
pub open spec fn data_relay_urls(relays: Seq<Relay>) -> Option<Seq<Seq<char>>>
    decreases relays.len(),
{
    if relays.len() == 0 {
        Some(Seq::empty())
    } else {
        match data_relay_urls(relays.drop_last()) {
            None => None,
            Some(front) => if peers::relays_data(relays.last()) {
                match outside::relay_url_canonical(relays.last().url) {
                    None => None,
                    Some(url) => Some(front.push(url)),
                }
            } else {
                Some(front)
            },
        }
    }
}

proof fn lemma_urls_error(relays: Seq<Relay>, i: int)
    requires
        0 <= i <= relays.len(),
        data_relay_urls(relays.take(i)) is None,
    ensures
        data_relay_urls(relays) is None,
    decreases relays.len() - i,
{
    if i < relays.len() {
        assert(relays.take(i + 1).drop_last() =~= relays.take(i));
        lemma_urls_error(relays, i + 1);
    } else {
        assert(relays.take(i) =~= relays);
    }
}

fn read_relay_urls(relays: &Vec<RelayDescriptor>) -> (urls: Option<Vec<String>>)
    ensures
        match data_relay_urls(snapshot::relays(relays@)) {
            Some(all) => urls matches Some(urls) && texts(urls@) == all,
            None => urls is None,
        },
{
    let ghost all = snapshot::relays(relays@);
    let mut urls: Vec<String> = Vec::new();
    let mut i: usize = 0;
    assert(all.take(0) =~= Seq::<Relay>::empty());
    assert(texts(urls@) =~= Seq::<Seq<char>>::empty());
    while i < relays.len()
        invariant
            i <= relays.len(),
            all == snapshot::relays(relays@),
            data_relay_urls(all.take(i as int)) == Some(texts(urls@)),
        decreases relays.len() - i,
    {
        let ghost before = urls@;
        proof {
            assert(all.take(i + 1).drop_last() =~= all.take(i as int));
            assert(all.take(i + 1).last() == relays@[i as int]@);
            if data_relay_urls(all.take(i + 1)) is None {
                lemma_urls_error(all, i + 1);
            }
        }
        if relays[i].roles.contains(RelayRoles::data_relay()) {
            match parse_relay_url(relays[i].url.as_str()) {
                Some(url) => {
                    urls.push(url);
                    assert(texts(urls@) =~= texts(before).push(urls@.last()@));
                },
                None => return None,
            }
        }
        i = i + 1;
    }
    proof {
        assert(all.take(i as int) =~= all);
    }
    Some(urls)
}

/// Whether texts are others in sorted order, each once.
pub open spec fn sorted_texts(sorted: Seq<String>, all: Seq<Seq<char>>) -> bool {
    &&& order::strictly_sorted(sorted)
    &&& forall|t: Seq<char>| #[trigger] texts(sorted).contains(t) <==> all.contains(t)
}

/// Sorts texts and keeps each once.
pub fn sort_texts(items: Vec<String>) -> (sorted: Vec<String>)
    ensures
        sorted_texts(sorted@, texts(items@)),
{
    let ghost all = items@;
    let sorted: Vec<String> = sorted_distinct(items);
    proof {
        assert forall|t: Seq<char>| #[trigger]
            texts(sorted@).contains(t) <==> texts(all).contains(t) by {
            if texts(sorted@).contains(t) {
                let i = choose|i: int| 0 <= i < texts(sorted@).len() && texts(sorted@)[i] == t;
                assert(all.contains(sorted@[i]));
                let j = choose|j: int| 0 <= j < all.len() && all[j] == sorted@[i];
                assert(texts(all)[j] == t);
            }
            if texts(all).contains(t) {
                let i = choose|i: int| 0 <= i < texts(all).len() && texts(all)[i] == t;
                assert(order::has_key(sorted@, all[i].key()));
                let j = choose|j: int|
                    0 <= j < sorted@.len() && (#[trigger] sorted@[j]).key() == all[i].key();
                vstd::utf8::encode_utf8_decode_utf8(sorted@[j]@);
                vstd::utf8::encode_utf8_decode_utf8(all[i]@);
                assert(texts(sorted@)[j] == t);
            }
        }
    }
    sorted
}

/// What a configuration gives an endpoint: the relays to use, the clients to serve, and the
/// endpoints of all members.
#[derive(Debug)]
pub struct ConfigAuthorizations {
    pub relay_urls: Vec<String>,
    pub allowed_clients: ClientAuthorizations,
    pub member_endpoints: Vec<EndpointId>,
}

/// What the credentials of a configuration say to an endpoint.
pub struct Derived {
    pub pairs: Seq<(MemberId, EndpointId)>,
    pub local_member: MemberId,
    pub given: Seq<(MemberId, ScopedVirtualAddr)>,
}

/// What the credentials of a configuration say to an endpoint, or why they say nothing.
pub open spec fn derived(c: Config, local: EndpointId) -> Result<Derived, ConfigAuthorizationError> {
    match endpoint_pairs(c.endpoint_bindings) {
        Err(e) => Err(e),
        Ok(pairs) => match owner_of(pairs, local) {
            None => Err(ConfigAuthorizationError::LocalEndpointNotMember),
            Some(local_member) => match grants(c.app_bindings) {
                Err(e) => Err(e),
                Ok(given) => Ok(Derived { pairs, local_member, given }),
            },
        },
    }
}

/// Whether a result is what a configuration gives an endpoint that holds these addresses.
pub open spec fn derives(
    c: Config,
    local: EndpointId,
    held: Set<ScopedVirtualAddr>,
    res: Result<ConfigAuthorizations, ConfigAuthorizationError>,
) -> bool {
    match derived(c, local) {
        Err(reason) => res matches Err(error) && error == reason,
        Ok(d) => if exists|a: ScopedVirtualAddr| #[trigger]
            not_given(held, d.given, d.local_member, a) {
            res matches Err(error) && exists|a: ScopedVirtualAddr|
                #[trigger] not_given(held, d.given, d.local_member, a) && error == refusal(a)
        } else {
            match data_relay_urls(c.relays) {
                None => res matches Err(error) && error
                    == ConfigAuthorizationError::MalformedRelayUrl,
                Some(urls) => res matches Ok(got) && {
                    &&& sorted_texts(got.relay_urls@, urls)
                    &&& got.allowed_clients@ == client_pairs(d.pairs, d.given)
                    &&& forall|e: EndpointId| #[trigger]
                        got.member_endpoints@.contains(e) <==> exists|m: MemberId| #[trigger]
                            d.pairs.contains((m, e))
                },
            }
        },
    }
}

/// An endpoint that holds an address it is not given is refused for it.
proof fn lemma_derives_refusal(
    c: Config,
    local: EndpointId,
    held: Set<ScopedVirtualAddr>,
    d: Derived,
    error: ConfigAuthorizationError,
    a: ScopedVirtualAddr,
)
    requires
        derived(c, local) == Ok::<Derived, ConfigAuthorizationError>(d),
        not_given(held, d.given, d.local_member, a),
        error == refusal(a),
    ensures
        derives(c, local, held, Err(error)),
{
    let e = derived(c, local)->Ok_0;
    assert(not_given(held, e.given, e.local_member, a));
    assert(exists|a: ScopedVirtualAddr| #[trigger] not_given(held, e.given, e.local_member, a));
    assert(exists|a: ScopedVirtualAddr|
        #[trigger] not_given(held, e.given, e.local_member, a) && error == refusal(a));
}

/// An endpoint that holds only what it is given gets what the credentials say.
proof fn lemma_derives_gift(
    c: Config,
    local: EndpointId,
    held: Set<ScopedVirtualAddr>,
    d: Derived,
    urls: Seq<Seq<char>>,
    got: ConfigAuthorizations,
)
    requires
        derived(c, local) == Ok::<Derived, ConfigAuthorizationError>(d),
        forall|a: ScopedVirtualAddr| !#[trigger] not_given(held, d.given, d.local_member, a),
        data_relay_urls(c.relays) == Some(urls),
        sorted_texts(got.relay_urls@, urls),
        got.allowed_clients@ == client_pairs(d.pairs, d.given),
        forall|e: EndpointId| #[trigger]
            got.member_endpoints@.contains(e) <==> exists|m: MemberId| #[trigger]
                d.pairs.contains((m, e)),
    ensures
        derives(c, local, held, Ok(got)),
{
    let e = derived(c, local)->Ok_0;
    assert(forall|a: ScopedVirtualAddr|
        !#[trigger] not_given(held, e.given, e.local_member, a));
    assert(!exists|a: ScopedVirtualAddr| #[trigger]
        not_given(held, e.given, e.local_member, a));
    assert(forall|x: EndpointId| #[trigger]
        got.member_endpoints@.contains(x) <==> exists|m: MemberId| #[trigger]
            e.pairs.contains((m, x)));
}

fn endpoints_in(pairs: &Vec<(MemberId, EndpointId)>) -> (endpoints: Vec<EndpointId>)
    ensures
        forall|e: EndpointId| #[trigger]
            endpoints@.contains(e) <==> exists|m: MemberId| #[trigger] pairs@.contains((m, e)),
{
    let mut endpoints: Vec<EndpointId> = Vec::new();
    let mut i: usize = 0;
    while i < pairs.len()
        invariant
            i <= pairs.len(),
            endpoints@.len() == i,
            forall|j: int| 0 <= j < i ==> endpoints@[j] == (#[trigger] pairs@[j]).1,
        decreases pairs.len() - i,
    {
        endpoints.push(pairs[i].1);
        i = i + 1;
    }
    proof {
        assert forall|e: EndpointId| #[trigger] endpoints@.contains(e) <==> exists|m: MemberId|
            #[trigger] pairs@.contains((m, e)) by {
            if endpoints@.contains(e) {
                let j = choose|j: int| 0 <= j < endpoints@.len() && endpoints@[j] == e;
                assert(pairs@[j].1 == e);
                assert(pairs@.contains((pairs@[j].0, e)));
            }
            if exists|m: MemberId| #[trigger] pairs@.contains((m, e)) {
                let m = choose|m: MemberId| #[trigger] pairs@.contains((m, e));
                let j = choose|j: int| 0 <= j < pairs@.len() && pairs@[j] == (m, e);
                assert(endpoints@[j] == e);
            }
        }
    }
    endpoints
}

impl ConfigAuthorizations {
    /// What a configuration gives an endpoint that holds these addresses. Every address that is
    /// held must be given to the member that the endpoint belongs to.
    pub fn derive(
        validated: &ValidatedNetworkConfig,
        local_endpoint: EndpointId,
        local_bindings: &LocalBindings,
    ) -> (got: Result<Self, ConfigAuthorizationError>)
        ensures
            derives(validated@, local_endpoint, local_bindings@, got),
    {
        let config: &NetworkConfigV1 = validated.as_config();
        let pairs: Vec<(MemberId, EndpointId)> = read_endpoint_pairs(&config.endpoint_bindings)?;
        let local_member: MemberId = match find_owner(&pairs, local_endpoint) {
            Some(member) => member,
            None => return Err(ConfigAuthorizationError::LocalEndpointNotMember),
        };
        let given: Vec<(MemberId, ScopedVirtualAddr)> = read_grants(&config.app_bindings)?;
        let ghost d = Derived { local_member, pairs: pairs@, given: given@ };
        assert(derived(validated@, local_endpoint) == Ok::<_, ConfigAuthorizationError>(d));
        match check_held(local_bindings, &given, local_member) {
            Ok(()) => {},
            Err(error) => {
                proof {
                    let a = choose|a: ScopedVirtualAddr|
                        #[trigger] not_given(local_bindings@, given@, local_member, a) && error
                            == refusal(a);
                    lemma_derives_refusal(
                        validated@,
                        local_endpoint,
                        local_bindings@,
                        d,
                        error,
                        a,
                    );
                }
                return Err(error);
            },
        }
        assert(forall|a: ScopedVirtualAddr|
            !#[trigger] not_given(local_bindings@, d.given, d.local_member, a));
        let urls: Vec<String> = match read_relay_urls(&config.relays) {
            Some(urls) => urls,
            None => return Err(ConfigAuthorizationError::MalformedRelayUrl),
        };
        let ghost all = texts(urls@);
        let relay_urls: Vec<String> = sort_texts(urls);
        let allowed_clients: ClientAuthorizations = clients_by_endpoint(&pairs, &given);
        let member_endpoints: Vec<EndpointId> = endpoints_in(&pairs);
        let got = ConfigAuthorizations { relay_urls, allowed_clients, member_endpoints };
        proof {
            lemma_derives_gift(validated@, local_endpoint, local_bindings@, d, all, got);
        }
        Ok(got)
    }
}

/// The first client address of an application that is given to a member.
pub open spec fn first_client(given: Seq<(MemberId, ScopedVirtualAddr)>, member: MemberId, app: AppAddr) -> Option<
    ClientAddr,
>
    decreases given.len(),
{
    if given.len() == 0 {
        None
    } else {
        match given[0].1 {
            ScopedVirtualAddr::Client { app: used, device } => if given[0].0 == member && used
                == app {
                Some(ClientAddr { app, device })
            } else {
                first_client(given.skip(1), member, app)
            },
            ScopedVirtualAddr::Server { .. } => first_client(given.skip(1), member, app),
        }
    }
}

/// The address at which an endpoint is a client of an application, or why it is none.
pub open spec fn client_address(c: Config, local: EndpointId, app: AppAddr) -> Result<
    ClientAddr,
    ConfigAuthorizationError,
> {
    match derived(c, local) {
        Err(reason) => Err(reason),
        Ok(d) => match first_client(d.given, d.local_member, app) {
            Some(address) => Ok(address),
            None => Err(ConfigAuthorizationError::ClientNotAuthorized),
        },
    }
}

/// Finds the address at which an endpoint is a client of an application.
pub fn configured_client(config: &ValidatedNetworkConfig, local_endpoint: EndpointId, app: AppAddr) -> (address: Result<
    ClientAddr,
    ConfigAuthorizationError,
>)
    ensures
        address == client_address(config@, local_endpoint, app),
{
    let inner: &NetworkConfigV1 = config.as_config();
    let pairs: Vec<(MemberId, EndpointId)> = read_endpoint_pairs(&inner.endpoint_bindings)?;
    let member: MemberId = match find_owner(&pairs, local_endpoint) {
        Some(member) => member,
        None => return Err(ConfigAuthorizationError::LocalEndpointNotMember),
    };
    let given: Vec<(MemberId, ScopedVirtualAddr)> = read_grants(&inner.app_bindings)?;
    let mut i: usize = 0;
    assert(given@.skip(0) =~= given@);
    while i < given.len()
        invariant
            i <= given.len(),
            derived(config@, local_endpoint) == Ok::<Derived, ConfigAuthorizationError>(
                Derived { pairs: pairs@, local_member: member, given: given@ },
            ),
            first_client(given@, member, app) == first_client(given@.skip(i as int), member, app),
        decreases given.len() - i,
    {
        assert(given@.skip(i as int).skip(1) =~= given@.skip(i + 1));
        match given[i].1 {
            ScopedVirtualAddr::Client { app: used, device } => {
                if given[i].0 == member && used == app {
                    return Ok(ClientAddr::new(app, device));
                }
            },
            ScopedVirtualAddr::Server { .. } => {},
        }
        i = i + 1;
    }
    Err(ConfigAuthorizationError::ClientNotAuthorized)
}

/// An endpoint may use only client addresses, and only those that are given to a member it
/// belongs to.
pub proof fn law_allowed_clients_are_granted(d: Derived, p: (EndpointId, ScopedVirtualAddr))
    requires
        client_pairs(d.pairs, d.given).contains(p),
    ensures
        p.1 is Client,
        exists|m: MemberId| #[trigger] d.pairs.contains((m, p.0)) && d.given.contains((m, p.1)),
{
    let i = choose|i: int| 0 <= i < d.given.len() && granted_by(d.pairs, #[trigger] d.given[i], p);
    assert(d.pairs.contains((d.given[i].0, p.0)));
    assert(d.given[i] == (d.given[i].0, p.1));
}

/// The member of the first binding that names an endpoint and has not expired.
pub open spec fn bound_member(raw: Seq<Seq<u8>>, endpoint: EndpointId, now_ms: u64) -> Option<MemberId>
    decreases raw.len(),
{
    if raw.len() == 0 {
        None
    } else {
        match endpoint::read_signed_endpoint(raw[0]) {
            Some(b) => if b.payload.endpoint_id == endpoint.0 && b.payload.expires_at_ms > now_ms {
                Some(b.payload.member_id)
            } else {
                bound_member(raw.skip(1), endpoint, now_ms)
            },
            None => bound_member(raw.skip(1), endpoint, now_ms),
        }
    }
}

/// Whether a certificate is of this member and has not expired.
pub open spec fn certifies(raw: Seq<u8>, id: MemberId, now_ms: u64) -> bool {
    member::read_signed_member(raw) matches Some(m) && m.payload.member_id == id
        && m.payload.expires_at_ms > now_ms
}

/// The member that an endpoint belongs to now: that of the first current binding of the
/// endpoint, if the configuration and the member's certificate are current too.
pub open spec fn current_member(c: Config, endpoint: EndpointId, now_ms: u64) -> Option<MemberId> {
    if c.expires_at_ms <= now_ms {
        None
    } else {
        match bound_member(c.endpoint_bindings, endpoint, now_ms) {
            None => None,
            Some(id) => if exists|i: int|
                0 <= i < c.members.len() && certifies(#[trigger] c.members[i], id, now_ms) {
                Some(id)
            } else {
                None
            },
        }
    }
}

fn find_bound_member(raw: &Vec<Vec<u8>>, endpoint: EndpointId, now_ms: u64) -> (id: Option<MemberId>)
    ensures
        id == bound_member(snapshot::blobs(raw@), endpoint, now_ms),
{
    let ghost all = snapshot::blobs(raw@);
    let mut i: usize = 0;
    assert(all.skip(0) =~= all);
    while i < raw.len()
        invariant
            i <= raw.len(),
            all == snapshot::blobs(raw@),
            bound_member(snapshot::blobs(raw@), endpoint, now_ms) == bound_member(
                all.skip(i as int),
                endpoint,
                now_ms,
            ),
        decreases raw.len() - i,
    {
        proof {
            assert(all.skip(i as int)[0] == raw@[i as int]@);
            assert(all.skip(i as int).skip(1) =~= all.skip(i + 1));
        }
        match EndpointBinding::from_bytes(raw[i].as_slice()) {
            Ok(binding) => {
                let payload: &EndpointBindingPayload = binding.payload();
                if arrays_equal(&payload.endpoint_id, &endpoint.0) && payload.expires_at_ms
                    > now_ms {
                    return Some(payload.member_id);
                }
            },
            Err(_) => {},
        }
        i = i + 1;
    }
    None
}

fn has_certificate(raw: &Vec<Vec<u8>>, id: MemberId, now_ms: u64) -> (found: bool)
    ensures
        found == exists|i: int|
            0 <= i < snapshot::blobs(raw@).len() && certifies(
                #[trigger] snapshot::blobs(raw@)[i],
                id,
                now_ms,
            ),
{
    let ghost all = snapshot::blobs(raw@);
    let mut i: usize = 0;
    while i < raw.len()
        invariant
            i <= raw.len(),
            all == snapshot::blobs(raw@),
            forall|j: int| 0 <= j < i ==> !certifies(#[trigger] all[j], id, now_ms),
        decreases raw.len() - i,
    {
        assert(all[i as int] == raw@[i as int]@);
        match MemberCertificate::from_bytes(raw[i].as_slice()) {
            Ok(certificate) => {
                let payload: &MemberCertificatePayload = certificate.payload();
                if payload.member_id == id && payload.expires_at_ms > now_ms {
                    assert(certifies(all[i as int], id, now_ms));
                    return true;
                }
            },
            Err(_) => {},
        }
        i = i + 1;
    }
    false
}

/// The member that an endpoint belongs to now.
pub fn configured_member_for_endpoint(
    config: &ValidatedNetworkConfig,
    endpoint_id: EndpointId,
    now_ms: u64,
) -> (id: Option<MemberId>)
    ensures
        id == current_member(config@, endpoint_id, now_ms),
{
    let inner: &NetworkConfigV1 = config.as_config();
    if inner.expires_at_ms <= now_ms {
        return None;
    }
    match find_bound_member(&inner.endpoint_bindings, endpoint_id, now_ms) {
        None => None,
        Some(id) => if has_certificate(&inner.members, id, now_ms) {
            Some(id)
        } else {
            None
        },
    }
}

/// Whether a binding lets a member serve an application now.
pub open spec fn serves_app(raw: Seq<u8>, id: MemberId, app: AppAddr, now_ms: u64) -> bool {
    authorize::gives_address(raw, id, ScopedVirtualAddr::Server { app }, now_ms)
}

/// Whether all bindings can be read.
pub open spec fn all_readable(raw: Seq<Seq<u8>>) -> bool {
    forall|i: int| 0 <= i < raw.len() ==> app::read_signed_binding(#[trigger] raw[i]) is Ok
}

/// Whether a member may serve an application now.
pub open spec fn may_serve(raw: Seq<Seq<u8>>, id: MemberId, app: AppAddr, now_ms: u64) -> bool {
    exists|i: int| 0 <= i < raw.len() && serves_app(#[trigger] raw[i], id, app, now_ms)
}

/// Whether a member may use an address as a client now.
pub open spec fn may_use(raw: Seq<Seq<u8>>, id: MemberId, a: ScopedVirtualAddr, now_ms: u64) -> bool {
    a is Client && exists|i: int|
        0 <= i < raw.len() && authorize::gives_address(#[trigger] raw[i], id, a, now_ms)
}

/// Whether an endpoint may come from an address to a destination at another endpoint now: both
/// endpoints belong to members, the destination is a server address that the other's member may
/// serve, and the address is one that the endpoint's member may use as a client.
pub open spec fn admits(
    c: Config,
    local: EndpointId,
    remote: EndpointId,
    destination: ScopedVirtualAddr,
    source: ScopedVirtualAddr,
    now_ms: u64,
) -> bool {
    match (current_member(c, remote, now_ms), current_member(c, local, now_ms), destination) {
        (Some(theirs), Some(ours), ScopedVirtualAddr::Server { app }) => {
            &&& all_readable(c.app_bindings)
            &&& may_serve(c.app_bindings, ours, app, now_ms)
            &&& may_use(c.app_bindings, theirs, source, now_ms)
        },
        _ => false,
    }
}

/// What bindings say of a server and a client so far.
struct Seen {
    serving: bool,
    clients: Vec<ScopedVirtualAddr>,
}

fn look_through(raw: &Vec<Vec<u8>>, ours: MemberId, theirs: MemberId, app: AppAddr, now_ms: u64) -> (seen: Option<
    Seen,
>)
    ensures
        match seen {
            None => !all_readable(snapshot::blobs(raw@)),
            Some(seen) => {
                let all = snapshot::blobs(raw@);
                &&& all_readable(all)
                &&& seen.serving == may_serve(all, ours, app, now_ms)
                &&& forall|a: ScopedVirtualAddr| #[trigger]
                    seen.clients@.contains(a) <==> may_use(all, theirs, a, now_ms)
            },
        },
{
    let ghost all = snapshot::blobs(raw@);
    let mut serving: bool = false;
    let mut clients: Vec<ScopedVirtualAddr> = Vec::new();
    let mut i: usize = 0;
    while i < raw.len()
        invariant
            i <= raw.len(),
            all == snapshot::blobs(raw@),
            all_readable(all.take(i as int)),
            serving == may_serve(all.take(i as int), ours, app, now_ms),
            forall|a: ScopedVirtualAddr| #[trigger]
                clients@.contains(a) <==> may_use(all.take(i as int), theirs, a, now_ms),
        decreases raw.len() - i,
    {
        let ghost before = clients@;
        proof {
            assert(all[i as int] == raw@[i as int]@);
            lemma_looked_at(all, i as int, ours, theirs, app, now_ms);
        }
        match AppBinding::from_bytes(raw[i].as_slice()) {
            Err(_) => return None,
            Ok(binding) => {
                let payload: &AppBindingPayload = binding.payload();
                if payload.expires_at_ms > now_ms {
                    match address_of(payload) {
                        Some(ScopedVirtualAddr::Server { app: served }) => {
                            if payload.subject == ours && served == app {
                                serving = true;
                            }
                        },
                        Some(ScopedVirtualAddr::Client { app: used, device }) => {
                            if payload.subject == theirs {
                                let address = ScopedVirtualAddr::Client { app: used, device };
                                clients.push(address);
                                proof {
                                    assert forall|a: ScopedVirtualAddr| #[trigger]
                                        clients@.contains(a) <==> before.contains(a) || a
                                            == address by {
                                        vstd::seq_lib::lemma_seq_contains_after_push(
                                            before,
                                            address,
                                            a,
                                        );
                                    }
                                }
                            }
                        },
                        None => {},
                    }
                }
            },
        }
        i = i + 1;
    }
    assert(all.take(i as int) =~= all);
    Some(Seen { serving, clients })
}

proof fn lemma_looked_at(
    all: Seq<Seq<u8>>,
    i: int,
    ours: MemberId,
    theirs: MemberId,
    app: AppAddr,
    now_ms: u64,
)
    requires
        0 <= i < all.len(),
    ensures
        all_readable(all.take(i + 1)) <==> all_readable(all.take(i)) && app::read_signed_binding(
            all[i],
        ) is Ok,
        app::read_signed_binding(all[i]) is Err ==> !all_readable(all),
        may_serve(all.take(i + 1), ours, app, now_ms) <==> may_serve(
            all.take(i),
            ours,
            app,
            now_ms,
        ) || serves_app(all[i], ours, app, now_ms),
        forall|a: ScopedVirtualAddr| #[trigger]
            may_use(all.take(i + 1), theirs, a, now_ms) <==> may_use(
                all.take(i),
                theirs,
                a,
                now_ms,
            ) || (a is Client && authorize::gives_address(all[i], theirs, a, now_ms)),
{
    let s = all.take(i);
    let l = all.take(i + 1);
    assert(l[i] == all[i]);
    assert forall|j: int| 0 <= j < i implies s[j] == l[j] by {}
    if all_readable(s) && app::read_signed_binding(all[i]) is Ok {
        assert forall|j: int| 0 <= j < l.len() implies app::read_signed_binding(
            #[trigger] l[j],
        ) is Ok by {
            if j < i {
                assert(l[j] == s[j]);
            }
        }
    }
    if all_readable(l) {
        assert forall|j: int| 0 <= j < s.len() implies app::read_signed_binding(
            #[trigger] s[j],
        ) is Ok by {
            assert(l[j] == s[j]);
        }
    }
    if may_serve(l, ours, app, now_ms) {
        let j = choose|j: int| 0 <= j < l.len() && serves_app(#[trigger] l[j], ours, app, now_ms);
        if j < i {
            assert(s[j] == l[j]);
        }
    }
    if may_serve(s, ours, app, now_ms) {
        let j = choose|j: int| 0 <= j < s.len() && serves_app(#[trigger] s[j], ours, app, now_ms);
        assert(l[j] == s[j]);
    }
    assert forall|a: ScopedVirtualAddr| #[trigger] may_use(l, theirs, a, now_ms) <==> may_use(
        s,
        theirs,
        a,
        now_ms,
    ) || (a is Client && authorize::gives_address(all[i], theirs, a, now_ms)) by {
        if may_use(l, theirs, a, now_ms) {
            let j = choose|j: int|
                0 <= j < l.len() && authorize::gives_address(#[trigger] l[j], theirs, a, now_ms);
            if j < i {
                assert(s[j] == l[j]);
            }
        }
        if may_use(s, theirs, a, now_ms) {
            let j = choose|j: int|
                0 <= j < s.len() && authorize::gives_address(#[trigger] s[j], theirs, a, now_ms);
            assert(l[j] == s[j]);
        }
    }
}

/// Decides by lists that were drawn up once.
#[derive(Debug)]
pub struct StaticNetworkAuthorizer {
    pub clients: ClientAuthorizations,
    pub config_peers: Vec<EndpointId>,
    pub presence_peers: Vec<EndpointId>,
}

fn endpoint_among(endpoints: &Vec<EndpointId>, wanted: EndpointId) -> (found: bool)
    ensures
        found == endpoints@.contains(wanted),
{
    let mut i: usize = 0;
    while i < endpoints.len()
        invariant
            i <= endpoints.len(),
            forall|j: int| 0 <= j < i ==> endpoints@[j] != wanted,
        decreases endpoints.len() - i,
    {
        if endpoints[i] == wanted {
            assert(endpoints@[i as int] == wanted);
            return true;
        }
        i = i + 1;
    }
    false
}

impl StaticNetworkAuthorizer {
    /// Whether an endpoint may ask for configurations.
    pub fn allow_config_sync(&self, endpoint_id: EndpointId) -> (allowed: bool)
        ensures
            allowed == self.config_peers@.contains(endpoint_id),
    {
        endpoint_among(&self.config_peers, endpoint_id)
    }

    /// Whether an endpoint may publish and ask for presence records.
    pub fn allow_presence(&self, endpoint_id: EndpointId) -> (allowed: bool)
        ensures
            allowed == self.presence_peers@.contains(endpoint_id),
    {
        endpoint_among(&self.presence_peers, endpoint_id)
    }

    /// The addresses from which an endpoint may come, wherever it goes.
    pub fn authorized_client_addrs(&self, endpoint_id: EndpointId, destination: ScopedVirtualAddr) -> (addresses: Vec<
        ScopedVirtualAddr,
    >)
        ensures
            forall|a: ScopedVirtualAddr| #[trigger]
                addresses@.contains(a) <==> self.clients@.contains((endpoint_id, a)),
    {
        self.clients.get(endpoint_id)
    }
}

/// Decides by the current configuration, which can be replaced while connections stay open.
pub struct LiveConfigAuthorizer {
    network_id: NetworkId,
    local_endpoint: EndpointId,
    config: ValidatedNetworkConfig,
}

impl LiveConfigAuthorizer {
    #[verifier::type_invariant]
    spec fn well_formed(self) -> bool {
        self.config@.network_id == self.network_id
    }

    /// The configuration in force.
    pub closed spec fn current(&self) -> Config {
        self.config@
    }

    /// The endpoint that this authorizer decides for.
    pub closed spec fn local(&self) -> EndpointId {
        self.local_endpoint
    }

    /// Decides by a configuration for an endpoint that belongs to one of its members now.
    pub fn new(config: ValidatedNetworkConfig, local_endpoint: EndpointId, now_ms: u64) -> (made: Result<
        Self,
        ConfigAuthorizationError,
    >)
        ensures
            match current_member(config@, local_endpoint, now_ms) {
                Some(_) => made matches Ok(made) && made.current() == config@ && made.local()
                    == local_endpoint,
                None => made matches Err(error) && error
                    == ConfigAuthorizationError::LocalEndpointNotMember,
            },
    {
        let network_id: NetworkId = config.as_config().network_id;
        match configured_member_for_endpoint(&config, local_endpoint, now_ms) {
            None => Err(ConfigAuthorizationError::LocalEndpointNotMember),
            Some(_) => Ok(LiveConfigAuthorizer { network_id, local_endpoint, config }),
        }
    }

    /// Puts another configuration of the same network in force.
    pub fn update(&mut self, config: ValidatedNetworkConfig) -> (updated: Result<
        (),
        ConfigAuthorizationError,
    >)
        ensures
            final(self).local() == old(self).local(),
            final(self).current().network_id == old(self).current().network_id,
            if config@.network_id == old(self).current().network_id {
                updated is Ok && final(self).current() == config@
            } else {
                updated == Err::<(), ConfigAuthorizationError>(
                    ConfigAuthorizationError::WrongNetwork,
                ) && final(self).current() == old(self).current()
            },
    {
        proof {
            use_type_invariant(&*self);
        }
        if config.as_config().network_id != self.network_id {
            return Err(ConfigAuthorizationError::WrongNetwork);
        }
        self.config = config;
        Ok(())
    }

    /// The configuration in force.
    pub fn config(&self) -> (config: &ValidatedNetworkConfig)
        ensures
            config@ == self.current(),
    {
        &self.config
    }

    /// Whether an endpoint may ask for configurations: it belongs to a member now.
    pub fn allow_config_sync(&self, endpoint_id: EndpointId, now_ms: u64) -> (allowed: bool)
        ensures
            allowed == (current_member(self.current(), endpoint_id, now_ms) is Some),
    {
        configured_member_for_endpoint(&self.config, endpoint_id, now_ms).is_some()
    }

    /// Whether an endpoint may publish and ask for presence records: it belongs to a member now.
    pub fn allow_presence(&self, endpoint_id: EndpointId, now_ms: u64) -> (allowed: bool)
        ensures
            allowed == (current_member(self.current(), endpoint_id, now_ms) is Some),
    {
        self.allow_config_sync(endpoint_id, now_ms)
    }

    /// The addresses from which an endpoint may come to a destination now.
    pub fn authorized_client_addrs(
        &self,
        endpoint_id: EndpointId,
        destination: ScopedVirtualAddr,
        now_ms: u64,
    ) -> (addresses: Vec<ScopedVirtualAddr>)
        ensures
            forall|a: ScopedVirtualAddr| #[trigger]
                addresses@.contains(a) <==> admits(
                    self.current(),
                    self.local(),
                    endpoint_id,
                    destination,
                    a,
                    now_ms,
                ),
    {
        let theirs: MemberId = match configured_member_for_endpoint(
            &self.config,
            endpoint_id,
            now_ms,
        ) {
            Some(id) => id,
            None => return Vec::new(),
        };
        let ours: MemberId = match configured_member_for_endpoint(
            &self.config,
            self.local_endpoint,
            now_ms,
        ) {
            Some(id) => id,
            None => return Vec::new(),
        };
        let app: AppAddr = match destination {
            ScopedVirtualAddr::Server { app } => app,
            ScopedVirtualAddr::Client { .. } => return Vec::new(),
        };
        match look_through(&self.config.as_config().app_bindings, ours, theirs, app, now_ms) {
            None => Vec::new(),
            Some(seen) => if seen.serving {
                seen.clients
            } else {
                Vec::new()
            },
        }
    }
}

/// When a configuration has expired, nobody is admitted any more.
pub proof fn law_expired_config_admits_nobody(
    c: Config,
    local: EndpointId,
    remote: EndpointId,
    destination: ScopedVirtualAddr,
    source: ScopedVirtualAddr,
    now_ms: u64,
)
    requires
        c.expires_at_ms <= now_ms,
    ensures
        current_member(c, remote, now_ms) is None,
        !admits(c, local, remote, destination, source, now_ms),
{
}

/// An endpoint that no current binding names is admitted nowhere.
pub proof fn law_unbound_endpoint_is_refused(
    c: Config,
    local: EndpointId,
    remote: EndpointId,
    destination: ScopedVirtualAddr,
    source: ScopedVirtualAddr,
    now_ms: u64,
)
    requires
        forall|i: int, id: MemberId|
            0 <= i < c.endpoint_bindings.len() ==> !#[trigger] authorize::gives_endpoint(
                c.endpoint_bindings[i],
                id,
                remote,
                now_ms,
            ),
    ensures
        current_member(c, remote, now_ms) is None,
        !admits(c, local, remote, destination, source, now_ms),
{
    lemma_unbound(c.endpoint_bindings, remote, now_ms);
}

proof fn lemma_unbound(raw: Seq<Seq<u8>>, endpoint: EndpointId, now_ms: u64)
    requires
        forall|i: int, id: MemberId|
            0 <= i < raw.len() ==> !#[trigger] authorize::gives_endpoint(
                raw[i],
                id,
                endpoint,
                now_ms,
            ),
    ensures
        bound_member(raw, endpoint, now_ms) is None,
    decreases raw.len(),
{
    if raw.len() > 0 {
        match endpoint::read_signed_endpoint(raw[0]) {
            Some(b) => {
                assert(!authorize::gives_endpoint(raw[0], b.payload.member_id, endpoint, now_ms));
            },
            None => {},
        }
        assert forall|i: int, id: MemberId|
            0 <= i < raw.skip(1).len() implies !#[trigger] authorize::gives_endpoint(
            raw.skip(1)[i],
            id,
            endpoint,
            now_ms,
        ) by {
            assert(!authorize::gives_endpoint(raw[i + 1], id, endpoint, now_ms));
        }
        lemma_unbound(raw.skip(1), endpoint, now_ms);
    }
}

/// Only clients come in, and only at a server address: whoever is admitted uses a client address
/// that a current binding gives its member, at a server address that a current binding gives the
/// other's member.
pub proof fn law_admitted_parties_are_bound(
    c: Config,
    local: EndpointId,
    remote: EndpointId,
    destination: ScopedVirtualAddr,
    source: ScopedVirtualAddr,
    now_ms: u64,
)
    requires
        admits(c, local, remote, destination, source, now_ms),
    ensures
        source is Client,
        destination is Server,
        exists|i: int|
            0 <= i < c.app_bindings.len() && authorize::gives_address(
                #[trigger] c.app_bindings[i],
                current_member(c, remote, now_ms)->Some_0,
                source,
                now_ms,
            ),
        exists|i: int|
            0 <= i < c.app_bindings.len() && authorize::gives_address(
                #[trigger] c.app_bindings[i],
                current_member(c, local, now_ms)->Some_0,
                destination,
                now_ms,
            ),
{
    let ours = current_member(c, local, now_ms)->Some_0;
    let app = destination->Server_app;
    let i = choose|i: int|
        0 <= i < c.app_bindings.len() && serves_app(#[trigger] c.app_bindings[i], ours, app, now_ms);
    assert(authorize::gives_address(c.app_bindings[i], ours, destination, now_ms));
}

} // verus!
