//! Discovery on the local network under rotating tags that only members can tell apart.
use crate::config::validate::ValidatedNetworkConfig;
use crate::config::snapshot;
use crate::config::snapshot::NetworkConfigV1;
use crate::crypto::endpoint;
use crate::crypto::endpoint::EndpointBinding;
use crate::crypto::keys::CertificateError;
use crate::digits;
use crate::digits::read_pairs;
use crate::discovery::address;
use crate::discovery::address::{IpAddress, SocketAddress};
use crate::discovery::presence::DiscoveryError;
use crate::identifiers::{EndpointId, NetworkId};
use crate::order;
use crate::order::{sorted_distinct, Keyed};
use crate::outside;
use crate::outside::{endpoint_id_refusal, hex_encode, keyed_hash};
use crate::wire;
use crate::wire::{arrays_equal, copy_range, push_be, push_bytes, read_array, starts_at};
use vstd::prelude::*;
use vstd::string::StringExecFns;

verus! {

/// The service type under which members announce themselves.
pub const MDNS_SERVICE_TYPE: &'static str = "_weaver._udp.local";

/// How long a tag is announced.
pub const LAN_SLOT_MS: u64 = 300000;

/// What a tag is for.
pub const LAN_TAG_CONTEXT: [u8; 18] = [
    119,
    101,
    97,
    118,
    101,
    114,
    46,
    108,
    97,
    110,
    45,
    116,
    97,
    103,
    46,
    118,
    49,
    0,
];

/// What stands before the digits of a tag in a text record.
pub const TAG_PREFIX: [u8; 2] = [116, 61];

/// What a member announces instead of its identity.
#[derive(Clone, Copy, Debug, Eq, Hash)]
pub struct LanTag(pub [u8; 16]);

impl View for LanTag {
    type V = Seq<u8>;

    open spec fn view(&self) -> Seq<u8> {
        self.0@
    }
}

impl vstd::std_specs::cmp::PartialEqSpecImpl for LanTag {
    open spec fn obeys_eq_spec() -> bool {
        true
    }

    open spec fn eq_spec(&self, other: &Self) -> bool {
        *self == *other
    }
}

impl PartialEq for LanTag {
    fn eq(&self, other: &Self) -> (equal: bool) {
        arrays_equal(&self.0, &other.0)
    }
}

/// The tag that thirty-two digits spell. Each pair is a number, so that a plus sign may stand before
/// a single digit.
pub open spec fn tag_digits(text: Seq<u8>) -> Option<Seq<u8>> {
    if text.len() == 32 {
        digits::pairs_bytes(text, true)
    } else {
        None
    }
}

/// The tag that a text record gives: `t=` and the digits.
pub open spec fn tag_text(text: Seq<u8>) -> Option<Seq<u8>> {
    if wire::has_at(text, 0, TAG_PREFIX@) {
        tag_digits(text.subrange(2, text.len() as int))
    } else {
        None
    }
}

impl LanTag {
    pub fn from_bytes(bytes: [u8; 16]) -> (tag: Self)
        ensures
            tag == LanTag(bytes),
    {
        LanTag(bytes)
    }

    pub fn as_bytes(&self) -> (bytes: &[u8; 16])
        ensures
            *bytes == self.0,
    {
        &self.0
    }

    /// The tag as digits.
    pub fn digits(&self) -> (text: String)
        ensures
            text@ == outside::hex_text(self@),
    {
        hex_encode(self.0.as_slice())
    }

    /// The tag as a text record.
    pub fn txt_value(&self) -> (text: String)
        ensures
            text@ == "t="@ + outside::hex_text(self@),
    {
        let mut text: String = "t=".to_owned();
        text.append(self.digits().as_str());
        text
    }

    /// The tag that thirty-two digits spell.
    fn from_digits(text: &[u8]) -> (tag: Option<Self>)
        ensures
            match tag_digits(text@) {
                Some(bytes) => tag matches Some(tag) && tag@ == bytes,
                None => tag is None,
            },
    {
        if text.len() != 32 {
            return None;
        }
        match read_pairs::<16>(text, true) {
            Some(bytes) => Some(LanTag(bytes)),
            None => None,
        }
    }

    /// Reads a text record.
    pub fn from_txt(value: &str) -> (tag: Result<Self, DiscoveryError>)
        ensures
            match tag_text(wire::utf8(value@)) {
                Some(bytes) => tag matches Ok(tag) && tag@ == bytes,
                None => tag matches Err(error) && error == DiscoveryError::MalformedTag,
            },
    {
        let text: &[u8] = value.as_bytes();
        if !starts_at(text, 0, TAG_PREFIX.as_slice()) {
            return Err(DiscoveryError::MalformedTag);
        }
        let rest: Vec<u8> = copy_range(text, 2, text.len());
        match LanTag::from_digits(rest.as_slice()) {
            Some(tag) => Ok(tag),
            None => Err(DiscoveryError::MalformedTag),
        }
    }
}

/// A tag is read back from its text record.
pub proof fn law_tag_text_round_trip(tag: LanTag)
    ensures
        tag_text(wire::utf8("t="@ + outside::hex_text(tag@))) == Some(tag@),
{
    let hex = outside::hex_text(tag@);
    let text = "t="@ + hex;
    reveal_strlit("t=");
    digits::lemma_pairs_of_hex(tag@, true);
    assert forall|i: int| 0 <= i < hex.len() implies (hex[i] as u32) < 128 by {
        let n = if i % 2 == 0 {
            tag@[i / 2] / 16
        } else {
            tag@[i / 2] % 16
        };
        assert(n < 16);
    }
    assert(vstd::utf8::is_ascii_chars(hex));
    vstd::utf8::is_ascii_chars_encode_utf8(hex);
    assert(vstd::utf8::is_ascii_chars(text));
    vstd::utf8::is_ascii_chars_encode_utf8(text);
    let encoded = wire::utf8(text);
    assert(encoded =~= Seq::new(text.len(), |i: int| text[i] as u8));
    assert(encoded.subrange(0, 2) =~= TAG_PREFIX@);
    assert(encoded.subrange(2, encoded.len() as int) =~= wire::utf8(hex));
}

/// Which tags the members of one network announce in one epoch, and for which endpoints.
#[derive(Debug)]
pub struct ProtectedLanDiscovery {
    network_id: NetworkId,
    epoch: u64,
    seed: [u8; 32],
    known_endpoints: Vec<EndpointId>,
}

/// The contents of a protection.
pub struct Protection {
    pub network_id: NetworkId,
    pub epoch: u64,
    pub seed: [u8; 32],
    pub known_endpoints: Seq<EndpointId>,
}

impl View for ProtectedLanDiscovery {
    type V = Protection;

    closed spec fn view(&self) -> Protection {
        Protection {
            network_id: self.network_id,
            epoch: self.epoch,
            seed: self.seed,
            known_endpoints: self.known_endpoints@,
        }
    }
}

/// The period of five minutes that a time falls into.
pub open spec fn slot_of(now_ms: u64) -> u64 {
    now_ms / LAN_SLOT_MS
}

/// What a tag is made from.
pub open spec fn tag_material(p: Protection, endpoint: EndpointId, slot: u64) -> Seq<u8> {
    LAN_TAG_CONTEXT@ + p.network_id@ + wire::be(p.epoch as nat, 8) + wire::be(slot as nat, 8)
        + endpoint@
}

/// The tag of an endpoint in a period: the first half of a keyed hash.
pub open spec fn tag_at(p: Protection, endpoint: EndpointId, slot: u64) -> LanTag {
    LanTag(
        wire::array_of(
            outside::blake3_keyed(p.seed@, tag_material(p, endpoint, slot)).subrange(0, 16),
        ),
    )
}

/// The period before another.
pub open spec fn slot_before(slot: u64) -> u64 {
    if slot == 0 {
        0
    } else {
        (slot - 1) as u64
    }
}

/// The period after another.
pub open spec fn slot_after(slot: u64) -> u64 {
    if slot == u64::MAX {
        slot
    } else {
        (slot + 1) as u64
    }
}

/// Whether a tag is the endpoint's in this period, the one before or the one after.
pub open spec fn tag_fits(p: Protection, endpoint: EndpointId, tag: LanTag, slot: u64) -> bool {
    tag_at(p, endpoint, slot_before(slot)) == tag || tag_at(p, endpoint, slot) == tag || tag_at(
        p,
        endpoint,
        slot_after(slot),
    ) == tag
}

/// The first of some endpoints that a tag fits.
pub open spec fn first_fit(p: Protection, known: Seq<EndpointId>, tag: LanTag, slot: u64) -> Option<
    EndpointId,
>
    decreases known.len(),
{
    if known.len() == 0 {
        None
    } else if tag_fits(p, known[0], tag, slot) {
        Some(known[0])
    } else {
        first_fit(p, known.skip(1), tag, slot)
    }
}

/// The endpoints that a configuration binds, or why they cannot be told.
pub open spec fn bound_endpoints(raw: Seq<Seq<u8>>) -> Result<Seq<EndpointId>, DiscoveryError>
    decreases raw.len(),
{
    if raw.len() == 0 {
        Ok(Seq::empty())
    } else {
        match bound_endpoints(raw.drop_last()) {
            Err(e) => Err(e),
            Ok(front) => match endpoint::read_signed_endpoint(raw.last()) {
                None => Err(
                    DiscoveryError::Crypto(
                        CertificateError::MalformedWire,
                    ),
                ),
                Some(c) => if outside::endpoint_key_ok(c.payload.endpoint_id@) {
                    Ok(front.push(EndpointId(c.payload.endpoint_id)))
                } else {
                    Err(DiscoveryError::MalformedEndpoint)
                },
            },
        }
    }
}

proof fn lemma_bound_error(raw: Seq<Seq<u8>>, i: int)
    requires
        0 <= i <= raw.len(),
        bound_endpoints(raw.take(i)) is Err,
    ensures
        bound_endpoints(raw) == bound_endpoints(raw.take(i)),
    decreases raw.len() - i,
{
    if i < raw.len() {
        assert(raw.take(i + 1).drop_last() =~= raw.take(i));
        lemma_bound_error(raw, i + 1);
    } else {
        assert(raw.take(i) =~= raw);
    }
}

/// Why the endpoints of a configuration cannot be read, in words: bytes that are no endpoint are
/// reported in the words of `iroh`, whose `EndpointId::from_bytes` refuses them.
pub open spec fn unreadable_text(reason: DiscoveryError) -> Seq<char> {
    match reason {
        DiscoveryError::MalformedEndpoint => "data is not a valid public key"@,
        _ => reason.text(),
    }
}

/// Reads the endpoints that bindings name, or tells why they cannot be read, also in words.
pub(crate) fn read_bound_endpoints(raw: &Vec<Vec<u8>>) -> (endpoints: Result<
    Vec<EndpointId>,
    (DiscoveryError, String),
>)
    ensures
        match bound_endpoints(snapshot::blobs(raw@)) {
            Ok(all) => endpoints matches Ok(endpoints) && endpoints@ == all,
            Err(reason) => endpoints matches Err((error, words)) && error == reason && words@
                == unreadable_text(reason),
        },
{
    let ghost all = snapshot::blobs(raw@);
    let mut endpoints: Vec<EndpointId> = Vec::new();
    let mut i: usize = 0;
    assert(all.take(0) =~= Seq::<Seq<u8>>::empty());
    assert(endpoints@ =~= Seq::<EndpointId>::empty());
    while i < raw.len()
        invariant
            i <= raw.len(),
            all == snapshot::blobs(raw@),
            bound_endpoints(all.take(i as int)) == Ok::<Seq<EndpointId>, DiscoveryError>(endpoints@),
        decreases raw.len() - i,
    {
        proof {
            assert(all.take(i + 1).drop_last() =~= all.take(i as int));
            assert(all.take(i + 1).last() == raw@[i as int]@);
            if bound_endpoints(all.take(i + 1)) is Err {
                lemma_bound_error(all, i + 1);
            }
        }
        match EndpointBinding::from_bytes(raw[i].as_slice()) {
            Ok(binding) => {
                let id: [u8; 32] = binding.payload().endpoint_id;
                if let Some(words) = endpoint_id_refusal(&id) {
                    return Err((DiscoveryError::MalformedEndpoint, words));
                }
                endpoints.push(EndpointId(id));
            },
            Err(error) => {
                return Err((DiscoveryError::Crypto(error), error.message().to_owned()));
            },
        }
        i = i + 1;
    }
    proof {
        assert(all.take(i as int) =~= all);
    }
    Ok(endpoints)
}

impl Clone for ProtectedLanDiscovery {
    fn clone(&self) -> (copy: Self)
        ensures
            copy@ == self@,
    {
        let known_endpoints: Vec<EndpointId> = self.known_endpoints.clone();
        assert(known_endpoints@ =~= self.known_endpoints@);
        ProtectedLanDiscovery {
            network_id: self.network_id,
            epoch: self.epoch,
            seed: self.seed,
            known_endpoints,
        }
    }
}

impl ProtectedLanDiscovery {
    /// The protection that a configuration gives its members.
    pub fn from_config(config: &ValidatedNetworkConfig) -> (made: Result<Self, DiscoveryError>)
        ensures
            match bound_endpoints(config@.endpoint_bindings) {
                Ok(known_endpoints) => made matches Ok(made) && made@ == (Protection {
                    network_id: config@.network_id,
                    epoch: config@.epoch,
                    seed: config@.epoch_secrets.lan_discovery_seed,
                    known_endpoints,
                }),
                Err(reason) => made matches Err(error) && error == reason,
            },
    {
        let inner: &NetworkConfigV1 = config.as_config();
        let seeds: [[u8; 32]; 4] = inner.epoch_secrets.expose_bytes();
        let known_endpoints: Vec<EndpointId> = match read_bound_endpoints(
            &inner.endpoint_bindings,
        ) {
            Ok(endpoints) => endpoints,
            Err((error, _)) => return Err(error),
        };
        Ok(
            ProtectedLanDiscovery {
                network_id: inner.network_id,
                epoch: inner.epoch,
                seed: seeds[2],
                known_endpoints,
            },
        )
    }

    pub fn network_id(&self) -> (id: NetworkId)
        ensures
            id == self@.network_id,
    {
        self.network_id
    }

    /// The tag of an endpoint at a time.
    pub fn tag_for(&self, endpoint: EndpointId, now_ms: u64) -> (tag: LanTag)
        ensures
            tag == tag_at(self@, endpoint, slot_of(now_ms)),
    {
        self.tag_for_slot(endpoint, now_ms / LAN_SLOT_MS)
    }

    /// The text records that an endpoint announces at a time.
    pub fn txt_records(&self, endpoint: EndpointId, now_ms: u64) -> (records: [String; 2])
        ensures
            records@[0]@ == "v=1"@,
            records@[1]@ == "t="@ + outside::hex_text(tag_at(self@, endpoint, slot_of(now_ms))@),
    {
        ["v=1".to_owned(), self.tag_for(endpoint, now_ms).txt_value()]
    }

    /// The known endpoint that a tag belongs to now, give or take one period.
    pub fn match_tag(&self, tag: LanTag, now_ms: u64) -> (endpoint: Option<EndpointId>)
        ensures
            endpoint == first_fit(self@, self@.known_endpoints, tag, slot_of(now_ms)),
    {
        let current: u64 = now_ms / LAN_SLOT_MS;
        let previous: u64 = if current == 0 {
            0
        } else {
            current - 1
        };
        let next: u64 = if current == u64::MAX {
            current
        } else {
            current + 1
        };
        let ghost all = self@.known_endpoints;
        let mut i: usize = 0;
        assert(all.skip(0) =~= all);
        while i < self.known_endpoints.len()
            invariant
                i <= self.known_endpoints.len(),
                all == self@.known_endpoints,
                all == self.known_endpoints@,
                current == slot_of(now_ms),
                previous == slot_before(current),
                next == slot_after(current),
                first_fit(self@, all, tag, current) == first_fit(
                    self@,
                    all.skip(i as int),
                    tag,
                    current,
                ),
            decreases self.known_endpoints.len() - i,
        {
            proof {
                assert(all.skip(i as int)[0] == all[i as int]);
                assert(all.skip(i as int).skip(1) =~= all.skip(i + 1));
            }
            let endpoint: EndpointId = self.known_endpoints[i];
            if self.tag_for_slot(endpoint, previous) == tag || self.tag_for_slot(endpoint, current)
                == tag || self.tag_for_slot(endpoint, next) == tag {
                return Some(endpoint);
            }
            i = i + 1;
        }
        None
    }

    fn tag_for_slot(&self, endpoint: EndpointId, slot: u64) -> (tag: LanTag)
        ensures
            tag == tag_at(self@, endpoint, slot),
    {
        let mut material: Vec<u8> = Vec::new();
        push_bytes(&mut material, LAN_TAG_CONTEXT.as_slice());
        push_bytes(&mut material, self.network_id.0.as_slice());
        push_be(&mut material, self.epoch, 8);
        push_be(&mut material, slot, 8);
        push_bytes(&mut material, endpoint.0.as_slice());
        let digest: [u8; 32] = keyed_hash(&self.seed, material.as_slice());
        LanTag(read_array::<16>(digest.as_slice(), 0))
    }
}

proof fn lemma_first_fit(p: Protection, known: Seq<EndpointId>, tag: LanTag, slot: u64, i: int)
    requires
        0 <= i < known.len(),
        tag_fits(p, known[i], tag, slot),
    ensures
        first_fit(p, known, tag, slot) matches Some(found) && known.contains(found) && tag_fits(
            p,
            found,
            tag,
            slot,
        ),
        (forall|j: int| 0 <= j < i ==> !tag_fits(p, #[trigger] known[j], tag, slot)) ==> first_fit(
            p,
            known,
            tag,
            slot,
        ) == Some(known[i]),
    decreases known.len(),
{
    if tag_fits(p, known[0], tag, slot) {
        assert(known.contains(known[0]));
    } else {
        let rest = known.skip(1);
        assert(rest[i - 1] == known[i]);
        lemma_first_fit(p, rest, tag, slot, i - 1);
        let found = first_fit(p, rest, tag, slot)->Some_0;
        let k = choose|k: int| 0 <= k < rest.len() && rest[k] == found;
        assert(known[k + 1] == found);
        if forall|j: int| 0 <= j < i ==> !tag_fits(p, #[trigger] known[j], tag, slot) {
            assert forall|j: int| 0 <= j < i - 1 implies !tag_fits(
                p,
                #[trigger] rest[j],
                tag,
                slot,
            ) by {
                assert(rest[j] == known[j + 1]);
            }
        }
    }
}

/// The tag of a known endpoint is recognised in its own period, in the one before it and in the
/// one after it; and where no endpoint listed earlier happens to have the same tag, it is
/// recognised as that endpoint's.
pub proof fn law_tag_is_recognised_in_adjacent_periods(
    p: Protection,
    i: int,
    announced_ms: u64,
    now_ms: u64,
)
    requires
        0 <= i < p.known_endpoints.len(),
        slot_of(announced_ms) <= slot_of(now_ms) + 1,
        slot_of(now_ms) <= slot_of(announced_ms) + 1,
    ensures
        ({
            let endpoint = p.known_endpoints[i];
            let tag = tag_at(p, endpoint, slot_of(announced_ms));
            let found = first_fit(p, p.known_endpoints, tag, slot_of(now_ms));
            &&& found matches Some(other) && tag_fits(p, other, tag, slot_of(now_ms))
            &&& (forall|j: int|
                0 <= j < i ==> !tag_fits(
                    p,
                    #[trigger] p.known_endpoints[j],
                    tag,
                    slot_of(now_ms),
                )) ==> found == Some(endpoint)
        }),
{
    let tag = tag_at(p, p.known_endpoints[i], slot_of(announced_ms));
    lemma_first_fit(p, p.known_endpoints, tag, slot_of(now_ms), i);
}

/// Only known endpoints are ever recognised, and only by a tag of theirs.
pub proof fn law_only_known_endpoints_are_recognised(p: Protection, tag: LanTag, now_ms: u64)
    ensures
        first_fit(p, p.known_endpoints, tag, slot_of(now_ms)) matches Some(found)
            ==> p.known_endpoints.contains(found) && tag_fits(p, found, tag, slot_of(now_ms)),
{
    lemma_only_known(p, p.known_endpoints, tag, slot_of(now_ms));
}

proof fn lemma_only_known(p: Protection, known: Seq<EndpointId>, tag: LanTag, slot: u64)
    ensures
        first_fit(p, known, tag, slot) matches Some(found) ==> known.contains(found) && tag_fits(
            p,
            found,
            tag,
            slot,
        ),
    decreases known.len(),
{
    if known.len() > 0 {
        let rest = known.skip(1);
        lemma_only_known(p, rest, tag, slot);
        assert(known.contains(known[0]));
        if first_fit(p, rest, tag, slot) is Some {
            let found = first_fit(p, rest, tag, slot)->Some_0;
            let k = choose|k: int| 0 <= k < rest.len() && rest[k] == found;
            assert(known[k + 1] == found);
        }
    }
}

/// What was seen of a peer on the local network.
#[derive(Debug, PartialEq, Eq)]
pub struct LanPeer {
    pub peer_id: String,
    pub version: Option<String>,
    pub tag: Option<String>,
    pub addresses: Vec<SocketAddress>,
    pub expired: bool,
}

/// Where a known endpoint was seen on the local network, or that it was seen there no more.
#[derive(Debug, PartialEq, Eq)]
pub struct LanObservation {
    pub endpoint_id: EndpointId,
    pub addresses: Vec<SocketAddress>,
    pub expired: bool,
}

impl Clone for LanObservation {
    fn clone(&self) -> (copy: Self)
        ensures
            copy.endpoint_id == self.endpoint_id,
            copy.addresses@ == self.addresses@,
            copy.expired == self.expired,
    {
        let addresses: Vec<SocketAddress> = self.addresses.clone();
        assert(addresses@ =~= self.addresses@);
        LanObservation { endpoint_id: self.endpoint_id, addresses, expired: self.expired }
    }
}

/// The endpoint that a peer is: one that speaks this version, is named by its tag, and whose tag
/// belongs to a known endpoint.
pub open spec fn observed(
    p: Protection,
    peer_id: Seq<char>,
    version: Option<Seq<char>>,
    tag: Option<Seq<char>>,
    now_ms: u64,
) -> Option<EndpointId> {
    if version == Some("1"@) && tag == Some(peer_id) {
        match tag_digits(wire::utf8(peer_id)) {
            Some(bytes) => first_fit(
                p,
                p.known_endpoints,
                LanTag(wire::array_of(bytes)),
                slot_of(now_ms),
            ),
            None => None,
        }
    } else {
        None
    }
}

/// The text in an optional string.
pub open spec fn text_of(value: Option<String>) -> Option<Seq<char>> {
    match value {
        Some(text) => Some(text@),
        None => None,
    }
}

/// Tells which known endpoint a peer is, if any.
pub fn protected_observation(protected: &ProtectedLanDiscovery, peer: LanPeer, now_ms: u64) -> (seen: Option<
    LanObservation,
>)
    ensures
        match observed(protected@, peer.peer_id@, text_of(peer.version), text_of(peer.tag), now_ms) {
            Some(endpoint_id) => seen matches Some(seen) && seen.endpoint_id == endpoint_id
                && seen.addresses@ == peer.addresses@ && seen.expired == peer.expired,
            None => seen is None,
        },
{
    match &peer.version {
        Some(version) => {
            if *version != "1".to_owned() {
                return None;
            }
        },
        None => return None,
    }
    match &peer.tag {
        Some(tag) => {
            if *tag != peer.peer_id {
                return None;
            }
        },
        None => return None,
    }
    let tag: LanTag = match LanTag::from_digits(peer.peer_id.as_str().as_bytes()) {
        Some(tag) => tag,
        None => return None,
    };
    proof {
        wire::lemma_array_of(tag.0);
    }
    match protected.match_tag(tag, now_ms) {
        Some(endpoint_id) => Some(
            LanObservation { endpoint_id, addresses: peer.addresses, expired: peer.expired },
        ),
        None => None,
    }
}

/// What an endpoint announces, and when that has to change.
#[derive(Debug)]
pub struct LanPublisher {
    protected: ProtectedLanDiscovery,
    local_endpoint: EndpointId,
    port: u16,
    addresses: Vec<IpAddress>,
    slot: u64,
}

/// The state of a publisher.
pub struct Publisher {
    pub protected: Protection,
    pub local_endpoint: EndpointId,
    pub port: u16,
    pub addresses: Seq<IpAddress>,
    pub slot: u64,
}

impl View for LanPublisher {
    type V = Publisher;

    closed spec fn view(&self) -> Publisher {
        Publisher {
            protected: self.protected@,
            local_endpoint: self.local_endpoint,
            port: self.port,
            addresses: self.addresses@,
            slot: self.slot,
        }
    }
}

/// Whether an address is of the older version.
pub open spec fn is_v4() -> spec_fn(IpAddress) -> bool {
    |ip: IpAddress| ip is V4
}

impl Clone for LanPublisher {
    fn clone(&self) -> (copy: Self)
        ensures
            copy@ == self@,
    {
        let addresses: Vec<IpAddress> = self.addresses.clone();
        assert(addresses@ =~= self.addresses@);
        LanPublisher {
            protected: self.protected.clone(),
            local_endpoint: self.local_endpoint,
            port: self.port,
            addresses,
            slot: self.slot,
        }
    }
}

impl LanPublisher {
    pub fn new(
        protected: ProtectedLanDiscovery,
        local_endpoint: EndpointId,
        port: u16,
        addresses: Vec<IpAddress>,
        now_ms: u64,
    ) -> (publisher: Self)
        ensures
            publisher@ == (Publisher {
                protected: protected@,
                local_endpoint,
                port,
                addresses: addresses@,
                slot: slot_of(now_ms),
            }),
    {
        LanPublisher { protected, local_endpoint, port, addresses, slot: now_ms / LAN_SLOT_MS }
    }

    pub fn protection(&self) -> (protected: &ProtectedLanDiscovery)
        ensures
            protected@ == self@.protected,
    {
        &self.protected
    }

    pub fn port(&self) -> (port: u16)
        ensures
            port == self@.port,
    {
        self.port
    }

    pub fn addresses(&self) -> (addresses: &Vec<IpAddress>)
        ensures
            addresses@ == self@.addresses,
    {
        &self.addresses
    }

    /// The tag that is announced, as digits: the name under which peers see the endpoint.
    pub fn peer_id(&self) -> (digits: String)
        ensures
            digits@ == outside::hex_text(
                tag_at(self@.protected, self@.local_endpoint, self@.slot)@,
            ),
    {
        self.protected.tag_for_slot(self.local_endpoint, self.slot).digits()
    }

    /// The addresses of the older version, which name the interfaces to send on.
    pub fn multicast_interfaces(&self) -> (interfaces: Vec<IpAddress>)
        ensures
            interfaces@ == self@.addresses.filter(is_v4()),
    {
        let mut interfaces: Vec<IpAddress> = Vec::new();
        let ghost all = self.addresses@;
        let mut i: usize = 0;
        assert(all.take(0).filter(is_v4()) =~= Seq::<IpAddress>::empty()) by {
            reveal(Seq::filter);
        }
        while i < self.addresses.len()
            invariant
                i <= self.addresses.len(),
                all == self.addresses@,
                interfaces@ == all.take(i as int).filter(is_v4()),
            decreases self.addresses.len() - i,
        {
            let ip: IpAddress = self.addresses[i];
            proof {
                reveal(Seq::filter);
                assert(all.take(i + 1).drop_last() =~= all.take(i as int));
                assert(all.take(i + 1).last() == ip);
            }
            match ip {
                IpAddress::V4(_) => interfaces.push(ip),
                IpAddress::V6(_) => {},
            }
            i = i + 1;
        }
        assert(all.take(i as int) =~= all);
        interfaces
    }

    /// Moves on to the tag of the current period; tells whether it is another than before.
    pub fn refresh_tag(&mut self, now_ms: u64) -> (changed: bool)
        ensures
            changed == (old(self)@.slot != slot_of(now_ms)),
            final(self)@ == (Publisher { slot: slot_of(now_ms), ..old(self)@ }),
    {
        let slot: u64 = now_ms / LAN_SLOT_MS;
        if slot == self.slot {
            return false;
        }
        self.slot = slot;
        true
    }

    /// Announces other addresses under the same tag.
    pub fn replace_addresses(&mut self, port: u16, addresses: Vec<IpAddress>)
        ensures
            final(self)@ == (Publisher { port, addresses: addresses@, ..old(self)@ }),
    {
        self.port = port;
        self.addresses = addresses;
    }

    /// Announces other addresses under the tag of the current period.
    pub fn rebind_addresses(&mut self, port: u16, addresses: Vec<IpAddress>, now_ms: u64)
        ensures
            final(self)@ == (Publisher {
                port,
                addresses: addresses@,
                slot: slot_of(now_ms),
                ..old(self)@
            }),
    {
        self.port = port;
        self.addresses = addresses;
        self.slot = now_ms / LAN_SLOT_MS;
    }

    /// Goes over to the protection of another configuration of the same network.
    pub fn replace_protection(&mut self, protected: ProtectedLanDiscovery, now_ms: u64) -> (replaced: Result<
        (),
        DiscoveryError,
    >)
        ensures
            if protected@.network_id != old(self)@.protected.network_id {
                replaced == Err::<(), DiscoveryError>(DiscoveryError::WrongNetwork) && final(self)@
                    == old(self)@
            } else {
                replaced == Ok::<(), DiscoveryError>(()) && final(self)@ == (Publisher {
                    protected: protected@,
                    slot: slot_of(now_ms),
                    ..old(self)@
                })
            },
    {
        if protected.network_id != self.protected.network_id {
            return Err(DiscoveryError::WrongNetwork);
        }
        self.protected = protected;
        self.slot = now_ms / LAN_SLOT_MS;
        Ok(())
    }
}

/// A network interface and its addresses.
#[derive(Debug, PartialEq, Eq)]
pub struct Interface {
    pub up: bool,
    pub loopback: bool,
    pub addresses: Vec<IpAddress>,
}

/// Whether an address of one of the interfaces can be announced: the interface is up and no
/// loopback, and the address belongs to one host.
pub open spec fn announceable(interfaces: Seq<Interface>, ip: IpAddress) -> bool {
    &&& !address::unspecified(ip)
    &&& !address::multicast(ip)
    &&& exists|i: int|
        0 <= i < interfaces.len() && (#[trigger] interfaces[i]).up && !interfaces[i].loopback
            && interfaces[i].addresses@.contains(ip)
}

/// The addresses that can be announced, in order, each once.
pub fn announceable_addresses(interfaces: &Vec<Interface>) -> (addresses: Vec<IpAddress>)
    ensures
        order::strictly_sorted(addresses@),
        forall|ip: IpAddress| #[trigger]
            addresses@.contains(ip) <==> announceable(interfaces@, ip),
{
    let mut found: Vec<IpAddress> = Vec::new();
    let mut i: usize = 0;
    while i < interfaces.len()
        invariant
            i <= interfaces.len(),
            forall|ip: IpAddress| #[trigger]
                found@.contains(ip) <==> announceable(interfaces@.take(i as int), ip),
        decreases interfaces.len() - i,
    {
        let ghost before = found@;
        let ghost earlier = interfaces@.take(i as int);
        let ghost later = interfaces@.take(i + 1);
        let interface: &Interface = &interfaces[i];
        if interface.up && !interface.loopback {
            collect_addresses(&mut found, &interface.addresses);
        }
        proof {
            assert(later =~= earlier.push(*interface));
            assert forall|ip: IpAddress| #[trigger] found@.contains(ip) <==> announceable(
                later,
                ip,
            ) by {
                if announceable(later, ip) {
                    let k = choose|k: int|
                        0 <= k < later.len() && (#[trigger] later[k]).up && !later[k].loopback
                            && later[k].addresses@.contains(ip);
                    if k < i {
                        assert(earlier[k] == later[k]);
                        assert(announceable(earlier, ip));
                        assert(before.contains(ip));
                    }
                }
                if found@.contains(ip) {
                    if before.contains(ip) {
                        assert(announceable(earlier, ip));
                        let k = choose|k: int|
                            0 <= k < earlier.len() && (#[trigger] earlier[k]).up
                                && !earlier[k].loopback && earlier[k].addresses@.contains(ip);
                        assert(later[k] == earlier[k]);
                    } else {
                        assert(later[i as int] == *interface);
                    }
                }
            }
        }
        i = i + 1;
    }
    assert(interfaces@.take(i as int) =~= interfaces@);
    let ghost all = found@;
    let sorted: Vec<IpAddress> = sorted_distinct(found);
    proof {
        lemma_sorted_addresses(sorted@, all);
    }
    sorted
}

/// Sorting addresses keeps exactly those that were there.
proof fn lemma_sorted_addresses(sorted: Seq<IpAddress>, all: Seq<IpAddress>)
    requires
        order::sorted_from(sorted, all),
    ensures
        forall|ip: IpAddress| #[trigger] sorted.contains(ip) <==> all.contains(ip),
{
    assert forall|ip: IpAddress| #[trigger] sorted.contains(ip) <==> all.contains(ip) by {
        if all.contains(ip) {
            let i = choose|i: int| 0 <= i < all.len() && all[i] == ip;
            assert(order::has_key(sorted, all[i].key()));
            let k = choose|k: int| 0 <= k < sorted.len() && (#[trigger] sorted[k]).key() == ip.key();
            address::lemma_ip_key_injective(sorted[k], ip);
            assert(sorted[k] == ip);
        }
    }
}

/// Adds the addresses that belong to one host.
fn collect_addresses(found: &mut Vec<IpAddress>, addresses: &Vec<IpAddress>)
    ensures
        forall|ip: IpAddress| #[trigger]
            final(found)@.contains(ip) <==> (old(found)@.contains(ip) || (addresses@.contains(ip)
                && !address::unspecified(ip) && !address::multicast(ip))),
{
    let mut i: usize = 0;
    while i < addresses.len()
        invariant
            i <= addresses.len(),
            forall|ip: IpAddress| #[trigger]
                found@.contains(ip) <==> (old(found)@.contains(ip) || (addresses@.take(
                    i as int,
                ).contains(ip) && !address::unspecified(ip) && !address::multicast(ip))),
        decreases addresses.len() - i,
    {
        let ghost before = found@;
        let ghost earlier = addresses@.take(i as int);
        let ghost later = addresses@.take(i + 1);
        let ip: IpAddress = addresses[i];
        if !ip.is_unspecified() && !ip.is_multicast() {
            found.push(ip);
        }
        proof {
            assert(later =~= earlier.push(ip));
            assert forall|x: IpAddress| later.contains(x) <==> (earlier.contains(x) || x == ip) by {
                if earlier.contains(x) {
                    let k = choose|k: int| 0 <= k < earlier.len() && earlier[k] == x;
                    assert(later[k] == x);
                }
                assert(later[i as int] == ip);
            }
            assert forall|x: IpAddress| #[trigger] found@.contains(x) <==> (before.contains(x) || (x
                == ip && !address::unspecified(ip) && !address::multicast(ip))) by {
                if before.contains(x) {
                    let k = choose|k: int| 0 <= k < before.len() && before[k] == x;
                    assert(found@[k] == x);
                }
                if !address::unspecified(ip) && !address::multicast(ip) {
                    assert(found@[before.len() as int] == ip);
                }
            }
        }
        i = i + 1;
    }
    assert(addresses@.take(i as int) =~= addresses@);
}

/// Whether one of these addresses has this IP address and this port.
pub open spec fn listens_on(listening: Seq<SocketAddress>, ip: IpAddress, port: u16) -> bool {
    exists|i: int|
        0 <= i < listening.len() && address::ip_of(#[trigger] listening[i]) == ip
            && address::port_of(listening[i]) == port
}

/// The port and the addresses to announce for an endpoint that listens on these addresses: the
/// port of the first, and every address with that port, in order, each once. Nothing, where it
/// listens nowhere.
pub fn published_addresses(listening: &Vec<SocketAddress>) -> (published: Option<(u16, Vec<IpAddress>)>)
    ensures
        match published {
            None => listening@.len() == 0,
            Some((port, addresses)) => {
                &&& listening@.len() > 0
                &&& port == address::port_of(listening@[0])
                &&& order::strictly_sorted(addresses@)
                &&& forall|ip: IpAddress| #[trigger]
                    addresses@.contains(ip) <==> listens_on(listening@, ip, port)
            },
        },
{
    if listening.len() == 0 {
        return None;
    }
    let port: u16 = listening[0].port();
    let mut found: Vec<IpAddress> = Vec::new();
    let mut i: usize = 0;
    while i < listening.len()
        invariant
            i <= listening.len(),
            forall|ip: IpAddress| #[trigger]
                found@.contains(ip) <==> listens_on(listening@.take(i as int), ip, port),
        decreases listening.len() - i,
    {
        let ghost before = found@;
        let ghost earlier = listening@.take(i as int);
        let ghost later = listening@.take(i + 1);
        let one: SocketAddress = listening[i];
        if one.port() == port {
            found.push(one.ip());
        }
        proof {
            assert(later =~= earlier.push(one));
            assert forall|ip: IpAddress| #[trigger] found@.contains(ip) <==> listens_on(
                later,
                ip,
                port,
            ) by {
                if before.contains(ip) {
                    let k = choose|k: int| 0 <= k < before.len() && before[k] == ip;
                    assert(found@[k] == ip);
                }
                if listens_on(earlier, ip, port) {
                    let k = choose|k: int|
                        0 <= k < earlier.len() && address::ip_of(#[trigger] earlier[k]) == ip
                            && address::port_of(earlier[k]) == port;
                    assert(later[k] == earlier[k]);
                }
                assert(later[i as int] == one);
                if address::ip_of(one) == ip && address::port_of(one) == port {
                    assert(found@[before.len() as int] == ip);
                }
                if listens_on(later, ip, port) && !listens_on(earlier, ip, port) {
                    let k = choose|k: int|
                        0 <= k < later.len() && address::ip_of(#[trigger] later[k]) == ip
                            && address::port_of(later[k]) == port;
                    if k < i {
                        assert(earlier[k] == later[k]);
                    }
                }
                if found@.contains(ip) && !before.contains(ip) {
                    let k = choose|k: int| 0 <= k < found@.len() && found@[k] == ip;
                    if k < before.len() {
                        assert(before[k] == ip);
                    }
                }
            }
        }
        i = i + 1;
    }
    assert(listening@.take(i as int) =~= listening@);
    let ghost all = found@;
    let addresses: Vec<IpAddress> = sorted_distinct(found);
    proof {
        lemma_sorted_addresses(addresses@, all);
    }
    Some((port, addresses))
}

/// A period holds the times from its beginning on and before the next: five minutes.
pub proof fn law_periods(now_ms: u64)
    ensures
        slot_of(now_ms) * 300000 <= now_ms < (slot_of(now_ms) + 1) * 300000,
{
}

/// A tag is taken as that of an endpoint exactly where it is the endpoint's for this period, the one
/// before or the one after.
pub proof fn law_when_a_tag_fits(p: Protection, endpoint: EndpointId, tag: LanTag, slot: u64)
    ensures
        tag_fits(p, endpoint, tag, slot) <==> exists|s: u64|
            -1 <= s - slot <= 1 && #[trigger] tag_at(p, endpoint, s) == tag,
{
    if tag_fits(p, endpoint, tag, slot) {
        if tag_at(p, endpoint, slot) == tag {
        } else if tag_at(p, endpoint, slot_before(slot)) == tag {
            assert(-1 <= slot_before(slot) - slot <= 1);
        } else {
            assert(-1 <= slot_after(slot) - slot <= 1);
        }
    }
    if exists|s: u64| -1 <= s - slot <= 1 && #[trigger] tag_at(p, endpoint, s) == tag {
        let s = choose|s: u64| -1 <= s - slot <= 1 && #[trigger] tag_at(p, endpoint, s) == tag;
        assert(s == slot || s == slot_before(slot) || s == slot_after(slot));
    }
}

/// A tag is recognised as that of the first known endpoint that it fits, and of nobody exactly where
/// it fits none.
pub proof fn law_who_is_recognised(p: Protection, known: Seq<EndpointId>, tag: LanTag, slot: u64)
    ensures
        match first_fit(p, known, tag, slot) {
            Some(found) => exists|i: int|
                0 <= i < known.len() && #[trigger] known[i] == found && tag_fits(
                    p,
                    known[i],
                    tag,
                    slot,
                ) && forall|k: int| 0 <= k < i ==> !tag_fits(p, #[trigger] known[k], tag, slot),
            None => forall|k: int|
                0 <= k < known.len() ==> !tag_fits(p, #[trigger] known[k], tag, slot),
        },
    decreases known.len(),
{
    if known.len() > 0 {
        let rest = known.skip(1);
        law_who_is_recognised(p, rest, tag, slot);
        assert forall|k: int| 0 < k < known.len() implies #[trigger] known[k] == rest[k - 1] by {}
        if tag_fits(p, known[0], tag, slot) {
            assert(known[0] == known[0]);
        } else {
            match first_fit(p, rest, tag, slot) {
                Some(found) => {
                    let i = choose|i: int|
                        0 <= i < rest.len() && #[trigger] rest[i] == found && tag_fits(
                            p,
                            rest[i],
                            tag,
                            slot,
                        ) && forall|k: int|
                            0 <= k < i ==> !tag_fits(p, #[trigger] rest[k], tag, slot);
                    assert(known[i + 1] == rest[i]);
                },
                None => {},
            }
        }
    }
}

/// A peer on the local network is recognised exactly where it announces the first version, its tag
/// is its own name, that name spells sixteen bytes, and these are the tag of a known endpoint.
pub proof fn law_when_a_peer_is_recognised(
    p: Protection,
    peer_id: Seq<char>,
    version: Option<Seq<char>>,
    tag: Option<Seq<char>>,
    now_ms: u64,
    e: EndpointId,
)
    ensures
        observed(p, peer_id, version, tag, now_ms) == Some(e) <==> {
            &&& version == Some("1"@)
            &&& tag == Some(peer_id)
            &&& tag_digits(wire::utf8(peer_id)) matches Some(bytes)
            &&& first_fit(
                p,
                p.known_endpoints,
                LanTag(wire::array_of(bytes)),
                slot_of(now_ms),
            ) == Some(e)
        },
{
}

/// The endpoints of a configuration are told exactly where every binding can be read and names an
/// endpoint that can be one: each as its binding says.
pub proof fn law_bound_endpoints(raw: Seq<Seq<u8>>, all: Seq<EndpointId>)
    ensures
        bound_endpoints(raw) == Ok::<Seq<EndpointId>, DiscoveryError>(all) <==> {
            &&& all.len() == raw.len()
            &&& forall|i: int|
                0 <= i < raw.len() ==> (endpoint::read_signed_endpoint(#[trigger] raw[i]) matches Some(
                    b,
                ) && b.payload.endpoint_id == all[i].0 && outside::endpoint_key_ok(all[i].0@))
        },
    decreases raw.len(),
{
    if raw.len() > 0 {
        let front = raw.drop_last();
        let right = {
            &&& all.len() == raw.len()
            &&& forall|i: int|
                0 <= i < raw.len() ==> (endpoint::read_signed_endpoint(#[trigger] raw[i]) matches Some(
                    b,
                ) && b.payload.endpoint_id == all[i].0 && outside::endpoint_key_ok(all[i].0@))
        };
        if right {
            law_bound_endpoints(front, all.drop_last());
            assert forall|i: int| 0 <= i < front.len() implies (endpoint::read_signed_endpoint(
                #[trigger] front[i],
            ) matches Some(b) && b.payload.endpoint_id == all.drop_last()[i].0
                && outside::endpoint_key_ok(all.drop_last()[i].0@)) by {
                assert(front[i] == raw[i]);
            }
            assert(endpoint::read_signed_endpoint(raw[raw.len() - 1]) is Some);
            assert(all =~= all.drop_last().push(all.last()));
        }
        if bound_endpoints(raw) == Ok::<Seq<EndpointId>, DiscoveryError>(all) {
            law_bound_endpoints(front, all.drop_last());
            assert(all.drop_last() =~= bound_endpoints(front)->Ok_0);
            assert forall|i: int| 0 <= i < raw.len() implies (endpoint::read_signed_endpoint(
                #[trigger] raw[i],
            ) matches Some(b) && b.payload.endpoint_id == all[i].0 && outside::endpoint_key_ok(
                all[i].0@,
            )) by {
                if i < front.len() {
                    assert(front[i] == raw[i]);
                    assert(all.drop_last()[i] == all[i]);
                }
            }
        }
    } else if all.len() == 0 {
        assert(all =~= Seq::empty());
    }
}

/// An address is announced exactly where it is neither blank nor a group's, and an interface that
/// is up and leads out of the host has it.
pub proof fn law_which_addresses_are_announced(interfaces: Seq<Interface>, ip: IpAddress)
    ensures
        announceable(interfaces, ip) <==> {
            &&& (ip matches IpAddress::V4(o) ==> !(224 <= o@[0] <= 239) && exists|k: int|
                0 <= k < 4 && #[trigger] o@[k] != 0)
            &&& (ip matches IpAddress::V6(o) ==> o@[0] != 255 && exists|k: int|
                0 <= k < 16 && #[trigger] o@[k] != 0)
            &&& exists|i: int, k: int|
                0 <= i < interfaces.len() && interfaces[i].up && !interfaces[i].loopback && 0 <= k
                    < interfaces[i].addresses@.len() && #[trigger] interfaces[i].addresses@[k] == ip
        },
{
    match ip {
        IpAddress::V4(o) => {
            if forall|k: int| 0 <= k < 4 ==> #[trigger] o@[k] == 0 {
                assert(o@ =~= wire::zeros(4));
            }
        },
        IpAddress::V6(o) => {
            if forall|k: int| 0 <= k < 16 ==> #[trigger] o@[k] == 0 {
                assert(o@ =~= wire::zeros(16));
            }
        },
    }
    if exists|i: int, k: int|
        0 <= i < interfaces.len() && interfaces[i].up && !interfaces[i].loopback && 0 <= k
            < interfaces[i].addresses@.len() && #[trigger] interfaces[i].addresses@[k] == ip {
        let (i, k) = choose|i: int, k: int|
            0 <= i < interfaces.len() && interfaces[i].up && !interfaces[i].loopback && 0 <= k
                < interfaces[i].addresses@.len() && #[trigger] interfaces[i].addresses@[k] == ip;
        assert(interfaces[i].addresses@.contains(ip));
    }
}

} // verus!
