//! When and from whom configurations are pulled, and what is published of an endpoint.
use crate::config::chain::ConfigHead;
use crate::config::validate::ValidatedNetworkConfig;
use crate::crypto::keys::SigningKeypair;
use crate::discovery::lan;
use crate::discovery::presence;
use crate::discovery::presence::{Candidate, DiscoveryCandidate, DiscoveryError, MAX_PRESENCE_TTL_MS};
use crate::discovery::sealed;
use crate::discovery::sealed::EncryptedPresenceRecord;
use crate::identifiers::{EndpointId, NetworkId, ScopedVirtualAddr};
use crate::net::bindings::LocalBindings;
use crate::net::peers;
use crate::net::peers::{presence_endpoints, ConfigPeer, ConfigPeerDescriptor};
use crate::net::protocol::same_head;
use crate::order;
use crate::outside;
use vstd::prelude::*;

verus! {

/// How many nanoseconds a millisecond has.
pub const NS_PER_MS: u128 = 1000000;

/// The whole milliseconds of a time in nanoseconds, as far as they can be counted.
pub open spec fn whole_ms(ns: u128) -> u64 {
    if ns as int / NS_PER_MS as int > u64::MAX {
        u64::MAX
    } else {
        (ns as int / NS_PER_MS as int) as u64
    }
}

/// How often configurations are pulled, in nanoseconds, and how long to wait after a failure.
#[derive(Clone, Copy, Debug, PartialEq, Eq, Structural)]
pub struct ConfigSyncOptions {
    pub interval_ns: u128,
    pub retry_min_ns: u128,
    pub retry_max_ns: u128,
}

impl Default for ConfigSyncOptions {
    fn default() -> (options: Self)
        ensures
            options == (ConfigSyncOptions {
                interval_ns: 30000000000,
                retry_min_ns: 1000000000,
                retry_max_ns: 30000000000,
            }),
    {
        ConfigSyncOptions {
            interval_ns: 30000000000,
            retry_min_ns: 1000000000,
            retry_max_ns: 30000000000,
        }
    }
}

/// Whether options make sense.
pub open spec fn sync_options_ok(o: ConfigSyncOptions) -> bool {
    o.interval_ns > 0 && o.retry_min_ns > 0 && o.retry_max_ns >= o.retry_min_ns
}

impl ConfigSyncOptions {
    /// Whether the options make sense.
    pub fn is_valid(&self) -> (valid: bool)
        ensures
            valid == sync_options_ok(*self),
    {
        self.interval_ns > 0 && self.retry_min_ns > 0 && self.retry_max_ns >= self.retry_min_ns
    }
}

/// What came of a round of asking.
#[derive(Debug, PartialEq, Eq)]
pub enum ConfigSyncEvent {
    Applied { previous: ConfigHead, current: ConfigHead, envelopes: usize },
    UpToDate { head: ConfigHead },
    Failed { head: ConfigHead, error: String, retry_in_ns: u128 },
}

impl Clone for ConfigSyncEvent {
    fn clone(&self) -> (copy: Self)
        ensures
            match *self {
                ConfigSyncEvent::Failed { head, error, retry_in_ns } => {
                    &&& copy matches ConfigSyncEvent::Failed { head: h, error: e, retry_in_ns: r }
                    &&& h == head && e@ == error@ && r == retry_in_ns
                },
                event => copy == event,
            },
    {
        match self {
            ConfigSyncEvent::Applied { previous, current, envelopes } => ConfigSyncEvent::Applied {
                previous: *previous,
                current: *current,
                envelopes: *envelopes,
            },
            ConfigSyncEvent::UpToDate { head } => ConfigSyncEvent::UpToDate { head: *head },
            ConfigSyncEvent::Failed { head, error, retry_in_ns } => ConfigSyncEvent::Failed {
                head: *head,
                error: error.clone(),
                retry_in_ns: *retry_in_ns,
            },
        }
    }
}

/// The contents of an event.
pub enum SyncEvent {
    Applied { previous: ConfigHead, current: ConfigHead, envelopes: usize },
    UpToDate { head: ConfigHead },
    Failed { head: ConfigHead, error: Seq<char>, retry_in_ns: u128 },
}

impl View for ConfigSyncEvent {
    type V = SyncEvent;

    open spec fn view(&self) -> SyncEvent {
        match self {
            ConfigSyncEvent::Applied { previous, current, envelopes } => SyncEvent::Applied {
                previous: *previous,
                current: *current,
                envelopes: *envelopes,
            },
            ConfigSyncEvent::UpToDate { head } => SyncEvent::UpToDate { head: *head },
            ConfigSyncEvent::Failed { head, error, retry_in_ns } => SyncEvent::Failed {
                head: *head,
                error: error@,
                retry_in_ns: *retry_in_ns,
            },
        }
    }
}

/// What came of asking one peer.
#[derive(Debug)]
pub enum FetchOutcome {
    /// The updates of the peer were applied; this is the head now.
    Applied { current: ConfigHead, envelopes: usize },
    /// The peer could not be asked, or its updates were not accepted.
    Failed(String),
}

/// What to do next.
#[derive(Debug)]
pub enum SyncAction {
    /// Ask the peer with this index.
    Fetch(usize),
    /// Report, and wait before the next round.
    Report(ConfigSyncEvent),
}

/// Pulls configurations from any of several peers: asks one after the other until one serves
/// updates that can be applied, starts the next round with the peer after that one, and waits
/// longer and longer while none does.
#[derive(Debug)]
pub struct AntiEntropy {
    options: ConfigSyncOptions,
    targets: Vec<ConfigPeerDescriptor>,
    start_index: usize,
    offset: usize,
    delay_ns: u128,
    retry_ns: u128,
    head: ConfigHead,
}

/// Where pulling configurations stands.
#[verifier::ext_equal]
pub struct Round {
    pub options: ConfigSyncOptions,
    pub targets: Seq<ConfigPeer>,
    pub start_index: nat,
    pub offset: nat,
    pub delay_ns: u128,
    pub retry_ns: u128,
    pub head: ConfigHead,
}

impl View for AntiEntropy {
    type V = Round;

    closed spec fn view(&self) -> Round {
        Round {
            options: self.options,
            targets: peers::peer_views(self.targets@),
            start_index: self.start_index as nat,
            offset: self.offset as nat,
            delay_ns: self.delay_ns,
            retry_ns: self.retry_ns,
            head: self.head,
        }
    }
}

/// What always holds of it: there is somebody to ask, and the next wait is within bounds.
pub open spec fn round_ok(r: Round) -> bool {
    &&& sync_options_ok(r.options)
    &&& r.targets.len() > 0
    &&& r.start_index < r.targets.len()
    &&& r.offset < r.targets.len()
    &&& r.options.retry_min_ns <= r.retry_ns <= r.options.retry_max_ns
}

/// The peer that is asked after `offset` others.
pub open spec fn asked(start: nat, offset: nat, count: nat) -> nat {
    (start + offset) % count
}

/// A wait twice as long, up to the longest.
pub open spec fn doubled(retry: u128, longest: u128) -> u128 {
    if 2 * retry <= longest {
        (2 * retry) as u128
    } else {
        longest
    }
}

/// A new round: with the peers that are known now, if any are, from this head on.
pub open spec fn begun(r: Round, current: Option<Seq<ConfigPeer>>, head: ConfigHead) -> Round {
    match current {
        Some(targets) => if targets.len() > 0 {
            Round {
                targets,
                start_index: r.start_index % targets.len(),
                offset: 0,
                head,
                ..r
            }
        } else {
            Round { offset: 0, head, ..r }
        },
        None => Round { offset: 0, head, ..r },
    }
}

/// After updates were applied: the next round starts with the next peer, at the usual time.
pub open spec fn after_success(r: Round) -> Round {
    Round {
        start_index: (asked(r.start_index, r.offset, r.targets.len()) + 1) % r.targets.len(),
        offset: 0,
        retry_ns: r.options.retry_min_ns,
        delay_ns: r.options.interval_ns,
        ..r
    }
}

/// After a peer failed: the next one is asked.
pub open spec fn after_failure(r: Round) -> Round {
    Round { offset: r.offset + 1, ..r }
}

/// After all peers failed: the next round comes after the current wait, and the wait after that
/// is longer.
pub open spec fn after_all_failed(r: Round) -> Round {
    Round {
        offset: 0,
        delay_ns: r.retry_ns,
        retry_ns: doubled(r.retry_ns, r.options.retry_max_ns),
        ..r
    }
}

/// What a peer answers: where its updates lead and how many they are, or why there are none.
pub enum Answer {
    Applied { current: ConfigHead, envelopes: usize },
    Failed(Seq<char>),
}

/// The contents of an outcome.
pub open spec fn answer(outcome: FetchOutcome) -> Answer {
    match outcome {
        FetchOutcome::Applied { current, envelopes } => Answer::Applied { current, envelopes },
        FetchOutcome::Failed(error) => Answer::Failed(error@),
    }
}

/// Where a round stands after an answer, and what is reported: nothing where another peer is to
/// be asked.
pub open spec fn stepped(r: Round, a: Answer) -> (Round, Option<SyncEvent>) {
    match a {
        Answer::Applied { current, envelopes } => (
            after_success(r),
            Some(
                if current == r.head {
                    SyncEvent::UpToDate { head: current }
                } else {
                    SyncEvent::Applied { previous: r.head, current, envelopes }
                },
            ),
        ),
        Answer::Failed(error) => if r.offset + 1 < r.targets.len() {
            (after_failure(r), None)
        } else {
            (
                after_all_failed(r),
                Some(SyncEvent::Failed { head: r.head, error, retry_in_ns: r.retry_ns }),
            )
        },
    }
}

/// The rest of a round in which each peer gives this answer when it is asked: where it leads, what
/// it reports, and which peers it asks, in order.
pub open spec fn finished(r: Round, answers: spec_fn(nat) -> Answer) -> (Round, SyncEvent, Seq<nat>)
    decreases r.targets.len() - r.offset,
{
    let index = asked(r.start_index, r.offset, r.targets.len());
    match stepped(r, answers(index)) {
        (next, Some(event)) => (next, event, seq![index]),
        (next, None) => {
            let (end, event, order) = finished(next, answers);
            (end, event, seq![index] + order)
        },
    }
}

/// A round: who is known when it begins, if that is known, at which head, and what each peer
/// answers when it is asked.
pub struct Pull {
    pub current: Option<Seq<ConfigPeer>>,
    pub head: ConfigHead,
    pub answers: spec_fn(nat) -> Answer,
}

/// Where a round leads, what it reports, and which peers it asks.
pub open spec fn pulled(r: Round, p: Pull) -> (Round, SyncEvent, Seq<nat>) {
    finished(begun(r, p.current, p.head), p.answers)
}

/// Where rounds lead, one after the other.
pub open spec fn after_pulls(r: Round, pulls: Seq<Pull>) -> Round
    decreases pulls.len(),
{
    if pulls.len() == 0 {
        r
    } else {
        pulled(after_pulls(r, pulls.drop_last()), pulls.last()).0
    }
}

/// What the last of some rounds reports.
pub open spec fn last_event(r: Round, pulls: Seq<Pull>) -> SyncEvent {
    pulled(after_pulls(r, pulls.drop_last()), pulls.last()).1
}

/// How many rounds in a row have failed at the end of these.
pub open spec fn failed_in_a_row(r: Round, pulls: Seq<Pull>) -> nat
    decreases pulls.len(),
{
    if pulls.len() == 0 || !(last_event(r, pulls) is Failed) {
        0
    } else {
        failed_in_a_row(r, pulls.drop_last()) + 1
    }
}

/// The contents of optional descriptors.
pub open spec fn targets_view(current: Option<Vec<ConfigPeerDescriptor>>) -> Option<Seq<ConfigPeer>> {
    match current {
        Some(targets) => Some(peers::peer_views(targets@)),
        None => None,
    }
}

fn all_in_network(targets: &Vec<ConfigPeerDescriptor>, network_id: NetworkId) -> (all: bool)
    ensures
        all == forall|i: int|
            0 <= i < targets@.len() ==> (#[trigger] targets@[i]).network_id == network_id,
{
    let mut i: usize = 0;
    while i < targets.len()
        invariant
            i <= targets.len(),
            forall|j: int| 0 <= j < i ==> (#[trigger] targets@[j]).network_id == network_id,
        decreases targets.len() - i,
    {
        if targets[i].network_id != network_id {
            return false;
        }
        i = i + 1;
    }
    true
}

impl AntiEntropy {
    #[verifier::type_invariant]
    spec fn well_formed(self) -> bool {
        &&& sync_options_ok(self.options)
        &&& self.start_index < self.targets@.len()
        &&& self.offset < self.targets@.len()
        &&& self.options.retry_min_ns <= self.retry_ns <= self.options.retry_max_ns
    }

    /// Starts pulling configurations of a network from these peers, at once. There is nothing to
    /// start where there are no peers, a peer belongs to another network, or the options make no
    /// sense.
    pub fn new(
        network_id: NetworkId,
        targets: Vec<ConfigPeerDescriptor>,
        options: ConfigSyncOptions,
        head: ConfigHead,
    ) -> (started: Option<Self>)
        ensures
            match started {
                Some(started) => {
                    &&& targets@.len() > 0
                    &&& sync_options_ok(options)
                    &&& forall|i: int|
                        0 <= i < targets@.len() ==> (#[trigger] targets@[i]).network_id
                            == network_id
                    &&& started@ == (Round {
                        options,
                        targets: peers::peer_views(targets@),
                        start_index: 0,
                        offset: 0,
                        delay_ns: 0,
                        retry_ns: options.retry_min_ns,
                        head,
                    })
                },
                None => targets@.len() == 0 || !sync_options_ok(options) || exists|i: int|
                    0 <= i < targets@.len() && (#[trigger] targets@[i]).network_id != network_id,
            },
    {
        if targets.len() == 0 || !options.is_valid() || !all_in_network(&targets, network_id) {
            return None;
        }
        Some(
            AntiEntropy {
                options,
                targets,
                start_index: 0,
                offset: 0,
                delay_ns: 0,
                retry_ns: options.retry_min_ns,
                head,
            },
        )
    }

    /// How long to wait before the next round.
    pub fn delay_ns(&self) -> (delay_ns: u128)
        ensures
            delay_ns == self@.delay_ns,
            round_ok(self@),
    {
        proof {
            use_type_invariant(self);
        }
        self.delay_ns
    }

    /// The peer with this index.
    pub fn target(&self, index: usize) -> (target: Option<&ConfigPeerDescriptor>)
        ensures
            match target {
                Some(target) => index < self@.targets.len() && target@
                    == self@.targets[index as int],
                None => index >= self@.targets.len(),
            },
    {
        if index < self.targets.len() {
            Some(&self.targets[index])
        } else {
            None
        }
    }

    /// The peer to ask now.
    fn current_index(&self) -> (index: usize)
        ensures
            index == asked(self@.start_index, self@.offset, self@.targets.len()),
            index < self.targets@.len(),
    {
        proof {
            use_type_invariant(self);
        }
        let count: usize = self.targets.len();
        let left: usize = count - self.start_index;
        proof {
            let s = self.start_index as int;
            let o = self.offset as int;
            let n = count as int;
            if o < left {
                vstd::arithmetic::div_mod::lemma_small_mod((s + o) as nat, n as nat);
            } else {
                vstd::arithmetic::div_mod::lemma_mod_add_multiples_vanish(s + o - n, n);
                vstd::arithmetic::div_mod::lemma_small_mod((s + o - n) as nat, n as nat);
            }
        }
        if self.offset < left {
            self.start_index + self.offset
        } else {
            self.offset - left
        }
    }

    /// Begins a round: with the peers that are known now, if any are, from this head on. Gives
    /// the peer to ask first.
    pub fn begin_round(&mut self, current: Option<Vec<ConfigPeerDescriptor>>, head: ConfigHead) -> (index: usize)
        ensures
            final(self)@ == begun(old(self)@, targets_view(current), head),
            index == asked(
                final(self)@.start_index,
                0,
                final(self)@.targets.len(),
            ),
            round_ok(final(self)@),
    {
        proof {
            use_type_invariant(&*self);
        }
        self.offset = 0;
        self.head = head;
        match current {
            Some(targets) => {
                if targets.len() > 0 {
                    let start_index: usize = self.start_index % targets.len();
                    *self = AntiEntropy {
                        options: self.options,
                        targets,
                        start_index,
                        offset: 0,
                        delay_ns: self.delay_ns,
                        retry_ns: self.retry_ns,
                        head,
                    };
                }
            },
            None => {},
        }
        proof {
            use_type_invariant(&*self);
            assert(self@ =~= begun(old(self)@, targets_view(current), head));
        }
        self.current_index()
    }

    /// Goes on after a peer was asked.
    pub fn step(&mut self, outcome: FetchOutcome) -> (action: SyncAction)
        ensures
            round_ok(final(self)@),
            ({
                let (next, event) = stepped(old(self)@, answer(outcome));
                &&& final(self)@ == next
                &&& match event {
                    Some(event) => action matches SyncAction::Report(reported) && reported@
                        == event,
                    None => action matches SyncAction::Fetch(index) && index == asked(
                        next.start_index,
                        next.offset,
                        next.targets.len(),
                    ),
                }
            }),
    {
        proof {
            use_type_invariant(&*self);
        }
        match outcome {
            FetchOutcome::Applied { current, envelopes } => {
                let index: usize = self.current_index();
                let count: usize = self.targets.len();
                proof {
                    if index + 1 < count {
                        vstd::arithmetic::div_mod::lemma_small_mod(
                            (index + 1) as nat,
                            count as nat,
                        );
                    } else {
                        vstd::arithmetic::div_mod::lemma_mod_self_0(count as int);
                    }
                }
                if index + 1 < count {
                    self.start_index = index + 1;
                } else {
                    self.start_index = 0;
                }
                self.offset = 0;
                self.retry_ns = self.options.retry_min_ns;
                self.delay_ns = self.options.interval_ns;
                if same_head(&current, &self.head) {
                    SyncAction::Report(ConfigSyncEvent::UpToDate { head: current })
                } else {
                    SyncAction::Report(
                        ConfigSyncEvent::Applied { previous: self.head, current, envelopes },
                    )
                }
            },
            FetchOutcome::Failed(error) => {
                let count: usize = self.targets.len();
                if self.offset < count - 1 {
                    self.offset = self.offset + 1;
                    return SyncAction::Fetch(self.current_index());
                }
                let retry_in_ns: u128 = self.retry_ns;
                let longest: u128 = self.options.retry_max_ns;
                self.offset = 0;
                self.delay_ns = retry_in_ns;
                if retry_in_ns <= longest / 2 {
                    self.retry_ns = 2 * retry_in_ns;
                } else {
                    self.retry_ns = longest;
                }
                SyncAction::Report(
                    ConfigSyncEvent::Failed { head: self.head, error, retry_in_ns },
                )
            },
        }
    }
}

/// Every peer is asked in a round, and none twice, until one serves updates: each is asked at
/// exactly one offset.
pub proof fn law_every_peer_is_asked_once(start: nat, count: nat, index: nat) -> (offset: nat)
    requires
        start < count,
        index < count,
    ensures
        offset < count,
        asked(start, offset, count) == index,
        forall|other: nat|
            other < count && #[trigger] asked(start, other, count) == index ==> other == offset,
{
    let offset = if start <= index {
        (index - start) as nat
    } else {
        (index + count - start) as nat
    };
    if start <= index {
        vstd::arithmetic::div_mod::lemma_small_mod(index, count);
    } else {
        vstd::arithmetic::div_mod::lemma_mod_add_multiples_vanish(index as int, count as int);
        vstd::arithmetic::div_mod::lemma_small_mod(index, count);
    }
    assert forall|other: nat|
        other < count && #[trigger] asked(start, other, count) == index implies other == offset by {
        if start + other < count {
            vstd::arithmetic::div_mod::lemma_small_mod(start + other, count);
        } else {
            vstd::arithmetic::div_mod::lemma_mod_add_multiples_vanish(
                start + other - count,
                count as int,
            );
            vstd::arithmetic::div_mod::lemma_small_mod((start + other - count) as nat, count);
        }
    }
    offset
}

/// After a success the next round starts with the peer after the one that answered, unless the
/// peers change.
pub proof fn law_next_round_starts_with_the_next_peer(r: Round, head: ConfigHead)
    requires
        round_ok(r),
    ensures
        ({
            let next = begun(after_success(r), None, head);
            asked(next.start_index, 0, next.targets.len()) == (asked(
                r.start_index,
                r.offset,
                r.targets.len(),
            ) + 1) % r.targets.len()
        }),
{
    vstd::arithmetic::div_mod::lemma_mod_twice(
        (asked(r.start_index, r.offset, r.targets.len()) + 1) as int,
        r.targets.len() as int,
    );
}

/// The wait after this many failed rounds in a row.
pub open spec fn backoff(o: ConfigSyncOptions, failures: nat) -> u128
    decreases failures,
{
    if failures == 0 {
        o.retry_min_ns
    } else {
        doubled(backoff(o, (failures - 1) as nat), o.retry_max_ns)
    }
}

/// Where pulling stands after this many failed rounds in a row.
pub open spec fn after_failed_rounds(r: Round, rounds: nat) -> Round
    decreases rounds,
{
    if rounds == 0 {
        r
    } else {
        after_all_failed(after_failed_rounds(r, (rounds - 1) as nat))
    }
}

/// The shortest wait times two to the power of the failed rounds, or the longest.
pub open spec fn wait_after(o: ConfigSyncOptions, failures: nat) -> int {
    if o.retry_min_ns * vstd::arithmetic::power2::pow2(failures) <= o.retry_max_ns {
        o.retry_min_ns * vstd::arithmetic::power2::pow2(failures)
    } else {
        o.retry_max_ns as int
    }
}

proof fn lemma_backoff(o: ConfigSyncOptions, n: nat)
    requires
        sync_options_ok(o),
    ensures
        backoff(o, n) == wait_after(o, n),
        o.retry_min_ns <= backoff(o, n) <= o.retry_max_ns,
    decreases n,
{
    if n == 0 {
        vstd::arithmetic::power2::lemma2_to64();
    } else {
        lemma_backoff(o, (n - 1) as nat);
        vstd::arithmetic::power2::lemma_pow2_unfold(n);
        let p = vstd::arithmetic::power2::pow2((n - 1) as nat) as int;
        let m = o.retry_min_ns as int;
        assert(m * (2 * p) == 2 * (m * p)) by (nonlinear_arith);
        vstd::arithmetic::power2::lemma_pow2_pos((n - 1) as nat);
        assert(m * p >= m) by (nonlinear_arith)
            requires
                p >= 1,
                m >= 0,
        ;
    }
}

/// Waits double with every failed round and stay within their bounds: after a success and `n`
/// failed rounds, the next wait but one is the shortest times two to the `n`, or the longest.
pub proof fn law_waits_double_up_to_the_longest(r: Round, n: nat)
    requires
        sync_options_ok(r.options),
        r.retry_ns == r.options.retry_min_ns,
    ensures
        ({
            let after = after_failed_rounds(r, n);
            &&& after.options == r.options
            &&& after.retry_ns == wait_after(r.options, n)
            &&& n > 0 ==> after.delay_ns == wait_after(r.options, (n - 1) as nat)
            &&& r.options.retry_min_ns <= after.retry_ns <= r.options.retry_max_ns
        }),
    decreases n,
{
    lemma_backoff(r.options, n);
    if n > 0 {
        law_waits_double_up_to_the_longest(r, (n - 1) as nat);
        lemma_backoff(r.options, (n - 1) as nat);
    }
}

/// A round asks the peers in their order, from the one it starts with and around, until one
/// serves updates. Then it reports them, and the next round starts with the peer after that one,
/// at the usual time. Where no peer serves any, every peer has been asked, the failure of the last
/// one is reported with the wait, and the next wait is twice as long.
pub proof fn law_round_ends_with_the_first_success(r: Round, answers: spec_fn(nat) -> Answer)
    requires
        round_ok(r),
    ensures
        ({
            let (end, event, order) = finished(r, answers);
            let count = r.targets.len();
            &&& 0 < order.len() <= count - r.offset
            &&& forall|k: int|
                0 <= k < order.len() ==> #[trigger] order[k] == asked(
                    r.start_index,
                    r.offset + k as nat,
                    count,
                )
            &&& forall|k: int|
                0 <= k < order.len() - 1 ==> answers(#[trigger] order[k]) is Failed
            &&& match answers(order.last()) {
                Answer::Applied { current, envelopes } => {
                    &&& event == (if current == r.head {
                        SyncEvent::UpToDate { head: current }
                    } else {
                        SyncEvent::Applied { previous: r.head, current, envelopes }
                    })
                    &&& end == (Round {
                        start_index: (order.last() + 1) % count,
                        offset: 0,
                        retry_ns: r.options.retry_min_ns,
                        delay_ns: r.options.interval_ns,
                        ..r
                    })
                },
                Answer::Failed(error) => {
                    &&& order.len() == count - r.offset
                    &&& event == (SyncEvent::Failed {
                        head: r.head,
                        error,
                        retry_in_ns: r.retry_ns,
                    })
                    &&& end == after_all_failed(r)
                },
            }
            &&& round_ok(end)
        }),
    decreases r.targets.len() - r.offset,
{
    let index = asked(r.start_index, r.offset, r.targets.len());
    let (next, reported) = stepped(r, answers(index));
    vstd::arithmetic::div_mod::lemma_mod_bound((index + 1) as int, r.targets.len() as int);
    if reported is None {
        law_round_ends_with_the_first_success(next, answers);
        let (end, event, rest) = finished(next, answers);
        let order = seq![index] + rest;
        assert(order.last() == rest.last());
        assert forall|k: int| 0 <= k < order.len() implies #[trigger] order[k] == asked(
            r.start_index,
            r.offset + k as nat,
            r.targets.len(),
        ) by {
            if k > 0 {
                assert(order[k] == rest[k - 1]);
            }
        }
        assert forall|k: int| 0 <= k < order.len() - 1 implies answers(
            #[trigger] order[k],
        ) is Failed by {
            if k > 0 {
                assert(order[k] == rest[k - 1]);
            }
        }
        assert(after_all_failed(next) == after_all_failed(r));
    }
}

/// However rounds go, the wait after the next failed one is the shortest times two to the power of
/// the rounds that have failed in a row, or the longest: a success begins it anew. A failed round
/// reports the wait that follows it.
pub proof fn law_waits_count_the_failures_in_a_row(r: Round, pulls: Seq<Pull>)
    requires
        round_ok(r),
        r.retry_ns == r.options.retry_min_ns,
    ensures
        round_ok(after_pulls(r, pulls)),
        after_pulls(r, pulls).options == r.options,
        after_pulls(r, pulls).retry_ns == wait_after(r.options, failed_in_a_row(r, pulls)),
        pulls.len() > 0 ==> match last_event(r, pulls) {
            SyncEvent::Failed { retry_in_ns, .. } => {
                &&& retry_in_ns == wait_after(
                    r.options,
                    failed_in_a_row(r, pulls.drop_last()),
                )
                &&& after_pulls(r, pulls).delay_ns == retry_in_ns
            },
            _ => {
                &&& failed_in_a_row(r, pulls) == 0
                &&& after_pulls(r, pulls).delay_ns == r.options.interval_ns
            },
        },
    decreases pulls.len(),
{
    lemma_backoff(r.options, failed_in_a_row(r, pulls));
    if pulls.len() > 0 {
        let before = after_pulls(r, pulls.drop_last());
        law_waits_count_the_failures_in_a_row(r, pulls.drop_last());
        lemma_backoff(r.options, failed_in_a_row(r, pulls.drop_last()));
        let start = begun(before, pulls.last().current, pulls.last().head);
        match pulls.last().current {
            Some(targets) => if targets.len() > 0 {
                vstd::arithmetic::div_mod::lemma_mod_bound(
                    before.start_index as int,
                    targets.len() as int,
                );
            },
            None => {},
        }
        assert(round_ok(start));
        law_round_ends_with_the_first_success(start, pulls.last().answers);
    }
}

/// How often an endpoint is published and peers are asked for, in nanoseconds, and how long a
/// published record is valid.
#[derive(Clone, Copy, Debug, PartialEq, Eq, Structural)]
pub struct PresenceSyncOptions {
    pub publish_interval_ns: u128,
    pub query_interval_ns: u128,
    pub record_ttl_ns: u128,
}

impl Default for PresenceSyncOptions {
    fn default() -> (options: Self)
        ensures
            options == (PresenceSyncOptions {
                publish_interval_ns: 60000000000,
                query_interval_ns: 15000000000,
                record_ttl_ns: 120000000000,
            }),
    {
        PresenceSyncOptions {
            publish_interval_ns: 60000000000,
            query_interval_ns: 15000000000,
            record_ttl_ns: 120000000000,
        }
    }
}

/// Whether options for presence make sense.
pub open spec fn presence_options_ok(o: PresenceSyncOptions) -> bool {
    &&& o.publish_interval_ns > 0
    &&& o.query_interval_ns > 0
    &&& o.record_ttl_ns > 0
    &&& o.record_ttl_ns as int / NS_PER_MS as int <= MAX_PRESENCE_TTL_MS
}

impl PresenceSyncOptions {
    /// Whether the options make sense.
    pub fn is_valid(&self) -> (valid: bool)
        ensures
            valid == (self.publish_interval_ns > 0 && self.query_interval_ns > 0
                && self.record_ttl_ns > 0 && self.record_ttl_ns as int / NS_PER_MS as int
                <= MAX_PRESENCE_TTL_MS),
            valid == presence_options_ok(*self),
    {
        self.publish_interval_ns > 0 && self.query_interval_ns > 0 && self.record_ttl_ns > 0
            && self.record_ttl_ns / NS_PER_MS <= MAX_PRESENCE_TTL_MS as u128
    }
}

/// The contents of an optional candidate.
pub open spec fn way(c: Option<DiscoveryCandidate>) -> Option<Candidate> {
    match c {
        Some(c) => Some(c@),
        None => None,
    }
}

/// The candidates among ways to reach an endpoint.
pub open spec fn candidates_of(s: Seq<Option<DiscoveryCandidate>>) -> Seq<Candidate>
    decreases s.len(),
{
    if s.len() == 0 {
        Seq::empty()
    } else {
        match way(s.last()) {
            Some(c) => candidates_of(s.drop_last()).push(c),
            None => candidates_of(s.drop_last()),
        }
    }
}

/// At most this many ways to reach an endpoint are looked at.
pub const MAX_PUBLISHED_WAYS: usize = 16;

/// The first ways to reach an endpoint.
pub open spec fn first_ways(s: Seq<Option<DiscoveryCandidate>>) -> Seq<Option<DiscoveryCandidate>> {
    if s.len() > MAX_PUBLISHED_WAYS {
        s.take(MAX_PUBLISHED_WAYS as int)
    } else {
        s
    }
}

/// The candidates that are published of the ways to reach an endpoint; a way that no record can
/// hold is none.
pub fn published_candidates(ways: &Vec<Option<DiscoveryCandidate>>) -> (candidates: Vec<
    DiscoveryCandidate,
>)
    ensures
        presence::candidate_views(candidates@) == candidates_of(first_ways(ways@)),
{
    let count: usize = if ways.len() > MAX_PUBLISHED_WAYS {
        MAX_PUBLISHED_WAYS
    } else {
        ways.len()
    };
    let mut candidates: Vec<DiscoveryCandidate> = Vec::new();
    let mut i: usize = 0;
    assert(presence::candidate_views(candidates@) =~= candidates_of(ways@.take(0)));
    while i < count
        invariant
            i <= count <= ways.len(),
            presence::candidate_views(candidates@) == candidates_of(ways@.take(i as int)),
        decreases count - i,
    {
        let ghost before = candidates@;
        assert(ways@.take(i + 1).drop_last() =~= ways@.take(i as int));
        match &ways[i] {
            Some(candidate) => {
                candidates.push(candidate.clone());
                assert(presence::candidate_views(candidates@) =~= presence::candidate_views(
                    before,
                ).push(candidate@));
            },
            None => {},
        }
        i = i + 1;
    }
    assert(ways@.take(count as int) =~= first_ways(ways@));
    candidates
}

/// When a record that is published now expires: after its lifetime, but not after the
/// configuration.
pub open spec fn expiry(now_ms: u64, ttl_ms: u64, config_expires_at_ms: u64) -> u64 {
    let end = if now_ms + ttl_ms > u64::MAX {
        u64::MAX
    } else {
        (now_ms + ttl_ms) as u64
    };
    if end < config_expires_at_ms {
        end
    } else {
        config_expires_at_ms
    }
}

/// The sequence number after another: larger, and larger than the time.
pub open spec fn next_sequence(sequence: u64, now_ms: u64) -> u64 {
    let last = if sequence > now_ms {
        sequence
    } else {
        now_ms
    };
    if last == u64::MAX {
        u64::MAX
    } else {
        (last + 1) as u64
    }
}

/// Sequence numbers grow from one publication to the next, so that a later record is never taken
/// for an earlier one, and a record does not outlive its configuration.
pub proof fn law_publications_move_forward(sequence: u64, now_ms: u64, ttl_ms: u64, config_expires_at_ms: u64)
    ensures
        sequence < u64::MAX ==> next_sequence(sequence, now_ms) > sequence,
        now_ms < u64::MAX ==> next_sequence(sequence, now_ms) > now_ms,
        expiry(now_ms, ttl_ms, config_expires_at_ms) <= config_expires_at_ms,
        expiry(now_ms, ttl_ms, config_expires_at_ms) <= now_ms + ttl_ms,
{
}

/// Seals what is to be published of an endpoint now, and tells when that expires. Nothing is to be
/// published where there is no way to reach the endpoint.
pub fn prepare_publication(
    config: &ValidatedNetworkConfig,
    signing: &SigningKeypair,
    endpoint_id: EndpointId,
    local_bindings: &LocalBindings,
    ways: &Vec<Option<DiscoveryCandidate>>,
    ttl_ns: u128,
    sequence: &mut u64,
    now_ms: u64,
) -> (publication: Option<Result<(EncryptedPresenceRecord, u64), DiscoveryError>>)
    ensures
        ({
            let candidates = candidates_of(first_ways(ways@));
            let expires_at_ms = expiry(now_ms, whole_ms(ttl_ns), config@.expires_at_ms);
            if candidates.len() == 0 {
                publication is None && *final(sequence) == *old(sequence)
            } else {
                &&& *final(sequence) == next_sequence(*old(sequence), now_ms)
                &&& publication matches Some(result)
                &&& exists|addresses: Seq<ScopedVirtualAddr>|
                    {
                        &&& #[trigger] addresses.no_duplicates()
                        &&& addresses.to_set() == local_bindings@
                        &&& match sealed::published(
                            config@,
                            outside::ed25519_public(signing@),
                            endpoint_id,
                            addresses,
                            candidates,
                            0,
                            *final(sequence),
                            now_ms,
                            expires_at_ms,
                        ) {
                            Err(reason) => result matches Err(error) && error == reason,
                            Ok(record) => match result {
                                Ok((sealed, expires)) => sealed::seals(
                                    sealed@,
                                    config@,
                                    record,
                                    signing@,
                                ) && expires == expires_at_ms,
                                Err(error) => error == DiscoveryError::RandomnessUnavailable,
                            },
                        }
                    }
            }
        }),
{
    let candidates: Vec<DiscoveryCandidate> = published_candidates(ways);
    assert(presence::candidate_views(candidates@).len() == candidates@.len());
    if candidates.len() == 0 {
        return None;
    }
    let whole: u128 = ttl_ns / NS_PER_MS;
    let ttl_ms: u64 = if whole > u64::MAX as u128 {
        u64::MAX
    } else {
        whole as u64
    };
    let end: u64 = now_ms.saturating_add(ttl_ms);
    let limit: u64 = config.as_config().expires_at_ms;
    let expires_at_ms: u64 = if end < limit {
        end
    } else {
        limit
    };
    let last: u64 = if *sequence > now_ms {
        *sequence
    } else {
        now_ms
    };
    *sequence = last.saturating_add(1);
    let addresses: Vec<ScopedVirtualAddr> = local_bindings.iter();
    let ghost held = addresses@;
    assert(held.no_duplicates());
    match EncryptedPresenceRecord::seal(
        config,
        signing,
        endpoint_id,
        addresses,
        candidates,
        0,
        *sequence,
        now_ms,
        expires_at_ms,
    ) {
        Ok(sealed) => Some(Ok((sealed, expires_at_ms))),
        Err(error) => Some(Err(error)),
    }
}

/// What came of publishing an endpoint or asking for others.
#[derive(Debug, PartialEq, Eq)]
pub enum PresenceSyncEvent {
    Published { candidate_count: usize },
    Refreshed { queried: usize, applied: usize },
    Failed { operation: &'static str, error: String },
}

impl Clone for PresenceSyncEvent {
    fn clone(&self) -> (copy: Self)
        ensures
            match *self {
                PresenceSyncEvent::Failed { operation, error } => {
                    &&& copy matches PresenceSyncEvent::Failed { operation: o, error: e }
                    &&& o == operation && e@ == error@
                },
                event => copy == event,
            },
    {
        match self {
            PresenceSyncEvent::Published { candidate_count } => PresenceSyncEvent::Published {
                candidate_count: *candidate_count,
            },
            PresenceSyncEvent::Refreshed { queried, applied } => PresenceSyncEvent::Refreshed {
                queried: *queried,
                applied: *applied,
            },
            PresenceSyncEvent::Failed { operation, error } => PresenceSyncEvent::Failed {
                operation: *operation,
                error: error.clone(),
            },
        }
    }
}

/// What came of asking for one endpoint.
#[derive(Debug)]
pub enum QueryOutcome {
    /// A record came and was accepted; tells whether anything changed.
    Applied { changed: bool },
    /// A record came and was not accepted.
    Refused(String),
    /// There is no record.
    Missing,
    /// The service could not be asked.
    Failed(String),
}

/// Asks for the presence of every endpoint that a configuration names, one after the other.
#[derive(Debug)]
pub struct PresenceRefresh {
    endpoints: Vec<EndpointId>,
    asked: usize,
    applied: usize,
}

/// Where a round of asking stands.
pub struct Refresh {
    pub endpoints: Seq<EndpointId>,
    pub asked: nat,
    pub applied: nat,
}

impl View for PresenceRefresh {
    type V = Refresh;

    closed spec fn view(&self) -> Refresh {
        Refresh {
            endpoints: self.endpoints@,
            asked: self.asked as nat,
            applied: self.applied as nat,
        }
    }
}

/// Where a round of asking stands after an endpoint was asked for.
pub open spec fn after_query(r: Refresh, outcome: QueryOutcome) -> Refresh {
    if r.asked < r.endpoints.len() {
        Refresh {
            asked: r.asked + 1,
            applied: if outcome == (QueryOutcome::Applied { changed: true }) {
                r.applied + 1
            } else {
                r.applied
            },
            ..r
        }
    } else {
        r
    }
}

/// Where a round of asking stands after several.
pub open spec fn after_queries(r: Refresh, outcomes: Seq<QueryOutcome>) -> Refresh
    decreases outcomes.len(),
{
    if outcomes.len() == 0 {
        r
    } else {
        after_query(after_queries(r, outcomes.drop_last()), outcomes.last())
    }
}

impl PresenceRefresh {
    #[verifier::type_invariant]
    spec fn well_formed(self) -> bool {
        self.applied <= self.asked <= self.endpoints@.len()
    }

    /// Begins a round: all endpoints but this one are to be asked for, in the order of their
    /// bytes, each once. There is no round where the configuration cannot be read: that is
    /// reported.
    pub fn new(config: &ValidatedNetworkConfig, local_endpoint: EndpointId) -> (round: Result<
        Self,
        PresenceSyncEvent,
    >)
        ensures
            match lan::bound_endpoints(config@.endpoint_bindings) {
                Err(reason) => {
                    &&& round matches Err(PresenceSyncEvent::Failed { operation, error })
                    &&& operation@ == "query"@
                    &&& error@ == lan::unreadable_text(reason)
                },
                Ok(all) => {
                    &&& round matches Ok(round)
                    &&& round@.asked == 0
                    &&& round@.applied == 0
                    &&& order::strictly_sorted(round@.endpoints)
                    &&& forall|e: EndpointId| #[trigger]
                        round@.endpoints.contains(e) <==> all.contains(e) && e != local_endpoint
                },
            },
    {
        match presence_endpoints(config, local_endpoint) {
            Ok(endpoints) => Ok(PresenceRefresh { endpoints, asked: 0, applied: 0 }),
            Err(words) => Err(PresenceSyncEvent::Failed { operation: "query", error: words }),
        }
    }

    /// The endpoint to ask for now, unless all have been asked for.
    pub fn current(&self) -> (endpoint: Option<EndpointId>)
        ensures
            endpoint == (if self@.asked < self@.endpoints.len() {
                Some(self@.endpoints[self@.asked as int])
            } else {
                None
            }),
            self@.applied <= self@.asked <= self@.endpoints.len(),
    {
        proof {
            use_type_invariant(self);
        }
        if self.asked < self.endpoints.len() {
            Some(self.endpoints[self.asked])
        } else {
            None
        }
    }

    /// Goes on after an endpoint was asked for; gives what is to be reported at once.
    pub fn step(&mut self, outcome: QueryOutcome) -> (event: Option<PresenceSyncEvent>)
        ensures
            final(self)@.endpoints == old(self)@.endpoints,
            if old(self)@.asked < old(self)@.endpoints.len() {
                &&& final(self)@.asked == old(self)@.asked + 1
                &&& final(self)@.applied == old(self)@.applied + (if outcome
                    == (QueryOutcome::Applied { changed: true }) {
                    1int
                } else {
                    0int
                })
                &&& match outcome {
                    QueryOutcome::Refused(text) => event matches Some(
                        PresenceSyncEvent::Failed { operation, error },
                    ) && operation@ == "apply"@ && error == text,
                    QueryOutcome::Failed(text) => event matches Some(
                        PresenceSyncEvent::Failed { operation, error },
                    ) && operation@ == "query"@ && error == text,
                    _ => event is None,
                }
            } else {
                final(self)@ == old(self)@ && event is None
            },
            final(self)@ == after_query(old(self)@, outcome),
    {
        proof {
            use_type_invariant(&*self);
        }
        if self.asked >= self.endpoints.len() {
            return None;
        }
        self.asked = self.asked + 1;
        match outcome {
            QueryOutcome::Applied { changed } => {
                if changed {
                    self.applied = self.applied + 1;
                }
                None
            },
            QueryOutcome::Refused(error) => Some(
                PresenceSyncEvent::Failed { operation: "apply", error },
            ),
            QueryOutcome::Missing => None,
            QueryOutcome::Failed(error) => Some(
                PresenceSyncEvent::Failed { operation: "query", error },
            ),
        }
    }

    /// What is to be reported at the end: how many were asked for, and how many records changed
    /// something.
    pub fn report(&self) -> (event: PresenceSyncEvent)
        ensures
            event matches PresenceSyncEvent::Refreshed { queried, applied } && queried
                == self@.endpoints.len() && applied == self@.applied,
    {
        PresenceSyncEvent::Refreshed { queried: self.endpoints.len(), applied: self.applied }
    }
}

/// Why a running loop cannot be told anything.
#[derive(Clone, Copy, Debug, PartialEq, Eq, Structural)]
pub enum ConfigSyncRuntimeError {
    Stopped,
}

impl ConfigSyncRuntimeError {
    /// What went wrong, in words.
    pub fn message(&self) -> (text: &'static str)
        ensures
            text@ == "configuration sync runtime has stopped"@,
    {
        "configuration sync runtime has stopped"
    }
}

/// What became of a signal to a running loop.
#[derive(Clone, Copy, Debug, PartialEq, Eq, Structural)]
pub enum Signal {
    Sent,
    /// One is waiting already.
    Full,
    Closed,
}

/// Whether a signal to a running loop will be heard: one that is waiting already stands for it.
pub fn signalled(signal: Signal) -> (heard: Result<(), ConfigSyncRuntimeError>)
    ensures
        heard == (match signal {
            Signal::Closed => Err(ConfigSyncRuntimeError::Stopped),
            _ => Ok::<(), ConfigSyncRuntimeError>(()),
        }),
{
    match signal {
        Signal::Closed => Err(ConfigSyncRuntimeError::Stopped),
        _ => Ok(()),
    }
}

/// A round that begins with known peers asks exactly those, whatever peers were held before: where
/// none serves updates every one of them is asked, and none twice; where one does, nobody outside
/// the list was asked. The list is kept for the rounds after it.
pub proof fn law_a_round_asks_the_known_peers(
    r: Round,
    known: Seq<ConfigPeer>,
    head: ConfigHead,
    answers: spec_fn(nat) -> Answer,
)
    requires
        round_ok(r),
        known.len() > 0,
    ensures
        ({
            let start = begun(r, Some(known), head);
            let (end, event, order) = pulled(r, Pull { current: Some(known), head, answers });
            &&& start.targets == known
            &&& start.head == head
            &&& start.start_index < known.len()
            &&& r.start_index < known.len() ==> start.start_index == r.start_index
            &&& end.targets == known
            &&& end.head == head
            &&& 0 < order.len() <= known.len()
            &&& forall|k: int| 0 <= k < order.len() ==> #[trigger] order[k] < known.len()
            &&& forall|j: int, k: int|
                0 <= j < k < order.len() ==> #[trigger] order[j] != #[trigger] order[k]
            &&& (forall|n: nat| n < known.len() ==> #[trigger] answers(n) is Failed) ==> order.len()
                == known.len() && forall|n: nat|
                n < known.len() ==> #[trigger] order.contains(n)
            &&& answers(order[0]) is Applied ==> order.len() == 1
        }),
{
    let start = begun(r, Some(known), head);
    let count = known.len();
    vstd::arithmetic::div_mod::lemma_mod_bound(r.start_index as int, count as int);
    if r.start_index < count {
        vstd::arithmetic::div_mod::lemma_small_mod(r.start_index, count);
    }
    law_round_ends_with_the_first_success(start, answers);
    let (end, event, order) = finished(start, answers);
    assert forall|k: int| 0 <= k < order.len() implies #[trigger] order[k] < count by {
        vstd::arithmetic::div_mod::lemma_mod_bound((start.start_index + k) as int, count as int);
    }
    assert forall|j: int, k: int| 0 <= j < k < order.len() implies #[trigger] order[j]
        != #[trigger] order[k] by {
        if order[j] == order[k] {
            let offset = law_every_peer_is_asked_once(start.start_index, count, order[j]);
            assert(asked(start.start_index, j as nat, count) == order[j]);
            assert(asked(start.start_index, k as nat, count) == order[j]);
        }
    }
    if forall|n: nat| n < count ==> #[trigger] answers(n) is Failed {
        assert(answers(order.last()) is Failed);
        assert forall|n: nat| n < count implies #[trigger] order.contains(n) by {
            let offset = law_every_peer_is_asked_once(start.start_index, count, n);
            assert(order[offset as int] == n);
        }
    }
}

/// A round that begins without known peers goes on with those of the round before it, from the
/// same one.
pub proof fn law_a_round_keeps_its_peers(r: Round, head: ConfigHead)
    requires
        round_ok(r),
    ensures
        begun(r, None, head) == begun(r, Some(Seq::empty()), head),
        begun(r, None, head).targets == r.targets,
        begun(r, None, head).start_index == r.start_index,
        begun(r, None, head).offset == 0,
        begun(r, None, head).head == head,
        begun(r, None, head).delay_ns == r.delay_ns,
        begun(r, None, head).retry_ns == r.retry_ns,
        begun(r, None, head).options == r.options,
{
}

/// Which peers a round asks does not depend on which were known before: two rounds that begin with
/// the same peers and start with the same one ask the same ones, in the same order.
pub proof fn law_earlier_peers_do_not_matter(
    r: Round,
    other: Round,
    known: Seq<ConfigPeer>,
    head: ConfigHead,
)
    requires
        round_ok(r),
        round_ok(other),
        known.len() > 0,
    ensures
        begun(r, Some(known), head).targets == begun(other, Some(known), head).targets,
        r.start_index == other.start_index ==> begun(r, Some(known), head).start_index == begun(
            other,
            Some(known),
            head,
        ).start_index,
        begun(r, Some(known), head).offset == 0,
        begun(r, Some(known), head).retry_ns == r.retry_ns,
        begun(r, Some(known), head).delay_ns == r.delay_ns,
        begun(r, Some(known), head).options == r.options,
{
}

/// The next sequence number is the least that is larger than the last one and than the time, unless
/// there is none.
pub proof fn law_next_sequence_is_the_least(sequence: u64, now_ms: u64, other: u64)
    ensures
        sequence < other && now_ms < other ==> next_sequence(sequence, now_ms) <= other,
        sequence < u64::MAX && now_ms < u64::MAX ==> sequence < next_sequence(sequence, now_ms)
            && now_ms < next_sequence(sequence, now_ms),
        sequence == u64::MAX || now_ms == u64::MAX ==> next_sequence(sequence, now_ms) == u64::MAX,
{
}

/// A published record lasts as long as it may: until its lifetime is over, its configuration
/// expires, or time ends, whichever comes first.
pub proof fn law_a_record_lasts_as_long_as_it_may(now_ms: u64, ttl_ms: u64, config_expires_at_ms: u64, other: u64)
    ensures
        expiry(now_ms, ttl_ms, config_expires_at_ms) <= now_ms + ttl_ms,
        expiry(now_ms, ttl_ms, config_expires_at_ms) <= config_expires_at_ms,
        other <= now_ms + ttl_ms && other <= config_expires_at_ms ==> other <= expiry(
            now_ms,
            ttl_ms,
            config_expires_at_ms,
        ),
{
}

/// A span in whole milliseconds is the number of milliseconds that fit in it, as far as it can be
/// written.
pub proof fn law_whole_milliseconds(ns: u128)
    ensures
        whole_ms(ns) * 1000000 <= ns,
        whole_ms(ns) < u64::MAX ==> ns < (whole_ms(ns) + 1) * 1000000,
{
}

/// The candidates among some ways are those among the first of them, followed by those among the
/// rest.
proof fn lemma_candidates_join(
    a: Seq<Option<DiscoveryCandidate>>,
    b: Seq<Option<DiscoveryCandidate>>,
)
    ensures
        candidates_of(a + b) == candidates_of(a) + candidates_of(b),
    decreases b.len(),
{
    if b.len() == 0 {
        assert(a + b =~= a);
        assert(candidates_of(a) + candidates_of(b) =~= candidates_of(a));
    } else {
        lemma_candidates_join(a, b.drop_last());
        assert((a + b).drop_last() =~= a + b.drop_last());
        assert(candidates_of(a + b) =~= candidates_of(a) + candidates_of(b));
    }
}

/// What is published are the ways that a record can hold, in their order: one more way at the end
/// adds its candidate at the end, or nothing where no record can hold it. Only the first sixteen
/// ways are looked at, and all of them.
pub proof fn law_published_ways_keep_their_order(
    ways: Seq<Option<DiscoveryCandidate>>,
    one: Option<DiscoveryCandidate>,
    rest: Seq<Option<DiscoveryCandidate>>,
)
    ensures
        candidates_of(Seq::<Option<DiscoveryCandidate>>::empty()) == Seq::<Candidate>::empty(),
        one is None ==> candidates_of(ways.push(one) + rest) == candidates_of(ways + rest),
        one matches Some(c) ==> candidates_of(ways.push(one) + rest) == candidates_of(ways).push(c@)
            + candidates_of(rest),
        ways.len() <= 16 ==> first_ways(ways) == ways,
        ways.len() == 16 ==> first_ways(ways + rest) == ways,
{
    lemma_candidates_join(ways.push(one), rest);
    lemma_candidates_join(ways, rest);
    assert(ways.push(one).drop_last() =~= ways);
    if ways.len() == 16 {
        assert((ways + rest).take(16) =~= ways);
    }
    if rest.len() == 0 {
        assert(ways + rest =~= ways);
    }
}

/// Options make sense exactly where there is a time between rounds, a shortest wait, and a longest
/// one that is no shorter.
pub proof fn law_which_sync_options_make_sense(o: ConfigSyncOptions)
    ensures
        sync_options_ok(o) <==> 1 <= o.interval_ns && 1 <= o.retry_min_ns <= o.retry_max_ns,
{
}

/// Options for presence make sense exactly where there is a time between publications and between
/// queries, and records last for some time, less than a millisecond over the longest lifetime.
pub proof fn law_which_presence_options_make_sense(o: PresenceSyncOptions)
    ensures
        presence_options_ok(o) <==> 1 <= o.publish_interval_ns && 1 <= o.query_interval_ns && 1
            <= o.record_ttl_ns < 300001000000,
{
}

/// A round of asking asks for every endpoint once, whatever comes of each, and counts the records
/// that changed something: after as many answers as there are endpoints it is done, and further
/// ones change nothing.
pub proof fn law_a_refresh_asks_for_each_once(r: Refresh, outcomes: Seq<QueryOutcome>)
    requires
        r.asked == 0,
        r.applied == 0,
        outcomes.len() <= r.endpoints.len(),
    ensures
        after_queries(r, outcomes).endpoints == r.endpoints,
        after_queries(r, outcomes).asked == outcomes.len(),
        after_queries(r, outcomes).applied == outcomes.filter(
            |o: QueryOutcome| o == QueryOutcome::Applied { changed: true },
        ).len(),
        outcomes.len() == r.endpoints.len() ==> forall|o: QueryOutcome| #[trigger]
            after_query(after_queries(r, outcomes), o) == after_queries(r, outcomes),
    decreases outcomes.len(),
{
    reveal(Seq::filter);
    if outcomes.len() > 0 {
        law_a_refresh_asks_for_each_once(r, outcomes.drop_last());
    }
}

} // verus!
