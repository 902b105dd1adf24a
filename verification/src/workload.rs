//! The workload of the network benchmark: what is sent, what is expected, and what counts as
//! success.
use crate::discovery::lookup::{AddressLookupSource, AddressLookupUpdate};
use crate::identifiers::EndpointId;
use crate::net::paths::{TransportPathKind, TransportPathStatus};
use vstd::prelude::*;

verus! {

/// At most this many bytes are sent at once.
pub const DATA_CHUNK: usize = 65536;

/// The byte of the pattern at a position.
pub open spec fn pattern_byte(position: nat) -> u8 {
    ((position * 31 + position / 251) % 256) as u8
}

/// The bytes of the pattern from an offset on.
pub open spec fn pattern(offset: nat, len: nat) -> Seq<u8> {
    Seq::new(len, |i: int| pattern_byte((offset + i) as nat))
}

/// The byte of the pattern at a position.
fn pattern_at(position: u64) -> (byte: u8)
    ensures
        byte == pattern_byte(position as nat),
{
    let product: u64 = position.wrapping_mul(31);
    let quotient: u64 = position / 251;
    let sum: u64 = product.wrapping_add(quotient);
    let low: u64 = sum & 0xff;
    proof {
        let p = position as int;
        let m = 0x1_0000_0000_0000_0000int;
        assert(sum & 0xff == sum % 256) by (bit_vector);
        assert(product == (p * 31) % m);
        let a = (p * 31) / m;
        vstd::arithmetic::div_mod::lemma_fundamental_div_mod(p * 31, m);
        assert(p * 31 == product + m * a);
        let s = product + quotient;
        let b = if s >= m {
            1int
        } else {
            0int
        };
        assert(sum == s - m * b);
        assert(p * 31 + p / 251 == sum + 256 * (0x100_0000_0000_0000int * (a + b))) by {
            assert(m * a + m * b == 256 * (0x100_0000_0000_0000int * (a + b)));
        }
        vstd::arithmetic::div_mod::lemma_mod_multiples_vanish(
            0x100_0000_0000_0000int * (a + b),
            sum as int,
            256,
        );
        assert((256 * (0x100_0000_0000_0000int * (a + b)) + sum) % 256 == sum as int % 256);
    }
    low as u8
}

/// Fills bytes with the pattern from an offset on.
pub fn fill_pattern(bytes: &mut [u8], offset: u64)
    requires
        offset + old(bytes)@.len() <= u64::MAX + 1,
    ensures
        final(bytes)@ == pattern(offset as nat, old(bytes)@.len()),
{
    let count: usize = bytes.len();
    let mut i: usize = 0;
    while i < count
        invariant
            i <= count,
            count == bytes@.len(),
            offset + count <= u64::MAX + 1,
            forall|j: int| 0 <= j < i ==> #[trigger] bytes@[j] == pattern_byte((offset + j) as nat),
        decreases count - i,
    {
        bytes[i] = pattern_at(offset + i as u64);
        i = i + 1;
    }
    assert(bytes@ =~= pattern(offset as nat, count as nat));
}

/// The pattern does not depend on where it is cut.
pub proof fn law_pattern_is_independent_of_chunks(offset: nat, first: nat, second: nat)
    ensures
        pattern(offset, first) + pattern(offset + first, second) == pattern(
            offset,
            first + second,
        ),
{
    assert(pattern(offset, first) + pattern(offset + first, second) =~= pattern(
        offset,
        first + second,
    ));
}

/// How many bytes come next of `total`, when `offset` have gone before.
pub fn next_chunk(total: u64, offset: u64) -> (len: usize)
    ensures
        len == (if offset >= total {
            0
        } else if total - offset < DATA_CHUNK {
            total - offset
        } else {
            DATA_CHUNK as int
        }),
{
    if offset >= total {
        return 0;
    }
    let rest: u64 = total - offset;
    if rest < DATA_CHUNK as u64 {
        rest as usize
    } else {
        DATA_CHUNK
    }
}

/// Whether received bytes are those of the pattern from an offset on.
pub fn matches_pattern(received: &[u8], offset: u64) -> (same: bool)
    requires
        offset + received@.len() <= u64::MAX + 1,
    ensures
        same == (received@ == pattern(offset as nat, received@.len())),
{
    let count: usize = received.len();
    let mut i: usize = 0;
    while i < count
        invariant
            i <= count,
            count == received@.len(),
            offset + count <= u64::MAX + 1,
            forall|j: int| 0 <= j < i ==> #[trigger] received@[j] == pattern_byte((offset + j) as nat),
        decreases count - i,
    {
        if received[i] != pattern_at(offset + i as u64) {
            assert(pattern(offset as nat, count as nat)[i as int] != received@[i as int]);
            return false;
        }
        i = i + 1;
    }
    assert(received@ =~= pattern(offset as nat, count as nat));
    true
}

/// What a client of the benchmark asks for.
#[derive(Clone, Copy, Debug, PartialEq, Eq, Structural)]
pub enum WorkloadCommand {
    /// Send a number back.
    Ping,
    /// Take in data and check it.
    Data,
    /// End.
    Quit,
}

/// What a byte asks for.
pub open spec fn command_of(byte: u8) -> Option<WorkloadCommand> {
    if byte == 80 {
        Some(WorkloadCommand::Ping)
    } else if byte == 68 {
        Some(WorkloadCommand::Data)
    } else if byte == 81 {
        Some(WorkloadCommand::Quit)
    } else {
        None
    }
}

impl WorkloadCommand {
    /// The byte that asks for this.
    pub fn byte(self) -> (byte: u8)
        ensures
            command_of(byte) == Some(self),
    {
        match self {
            WorkloadCommand::Ping => 80,
            WorkloadCommand::Data => 68,
            WorkloadCommand::Quit => 81,
        }
    }

    /// What a byte asks for.
    pub fn from_byte(byte: u8) -> (command: Option<Self>)
        ensures
            command == command_of(byte),
    {
        if byte == 80 {
            Some(WorkloadCommand::Ping)
        } else if byte == 68 {
            Some(WorkloadCommand::Data)
        } else if byte == 81 {
            Some(WorkloadCommand::Quit)
        } else {
            None
        }
    }
}

/// What the server of the benchmark does next.
#[derive(Clone, Copy, Debug, PartialEq, Eq, Structural)]
pub enum WorkloadStep {
    /// Read a command.
    Command,
    /// Read a number and send it back.
    Echo,
    /// Read how much data comes.
    Total,
    /// Read this many bytes and check them from the offset on.
    Receive { offset: u64, len: usize },
    /// Confirm that all data came.
    Confirm,
    /// Close the stream.
    Close,
    /// Give up: a command is unknown.
    UnknownCommand,
    /// Give up: data at this offset is not what it should be.
    Mismatch { offset: u64 },
}

/// What happened to the server of the benchmark.
#[derive(Clone, Copy, Debug, PartialEq, Eq, Structural)]
pub enum WorkloadEvent {
    /// A command came.
    Command(u8),
    /// A number was sent back.
    Echoed,
    /// It was announced how much data comes.
    Total(u64),
    /// Data came; tells whether it was the pattern.
    Received { matches: bool },
    /// It was confirmed that all data came.
    Confirmed,
}

/// The server of the benchmark.
#[derive(Clone, Copy, Debug, PartialEq, Eq, Structural)]
pub struct WorkloadServer {
    pub total: u64,
    pub offset: u64,
}

/// What is to be received next, or that all data came.
pub open spec fn receive_step(total: u64, offset: u64) -> WorkloadStep {
    if offset >= total {
        WorkloadStep::Confirm
    } else if total - offset < DATA_CHUNK {
        WorkloadStep::Receive { offset, len: (total - offset) as usize }
    } else {
        WorkloadStep::Receive { offset, len: DATA_CHUNK }
    }
}

/// How much data there is after a chunk.
pub open spec fn advanced(total: u64, offset: u64) -> u64 {
    if offset >= total {
        offset
    } else if total - offset < DATA_CHUNK {
        total
    } else {
        (offset + DATA_CHUNK) as u64
    }
}

impl WorkloadServer {
    /// A server to which no data was announced.
    pub fn new() -> (server: Self)
        ensures
            server == (WorkloadServer { total: 0, offset: 0 }),
    {
        WorkloadServer { total: 0, offset: 0 }
    }

    /// Goes on after something happened.
    pub fn step(&mut self, event: WorkloadEvent) -> (step: WorkloadStep)
        ensures
            match event {
                WorkloadEvent::Command(byte) => *final(self) == *old(self) && step == (
                match command_of(byte) {
                    Some(WorkloadCommand::Ping) => WorkloadStep::Echo,
                    Some(WorkloadCommand::Data) => WorkloadStep::Total,
                    Some(WorkloadCommand::Quit) => WorkloadStep::Close,
                    None => WorkloadStep::UnknownCommand,
                }),
                WorkloadEvent::Echoed => *final(self) == *old(self) && step
                    == WorkloadStep::Command,
                WorkloadEvent::Total(total) => *final(self) == (WorkloadServer { total, offset: 0 })
                    && step == receive_step(total, 0),
                WorkloadEvent::Received { matches: false } => *final(self) == *old(self) && step
                    == (WorkloadStep::Mismatch { offset: old(self).offset }),
                WorkloadEvent::Received { matches: true } => {
                    let offset = advanced(old(self).total, old(self).offset);
                    &&& *final(self) == (WorkloadServer { total: old(self).total, offset })
                    &&& step == receive_step(old(self).total, offset)
                },
                WorkloadEvent::Confirmed => *final(self) == *old(self) && step
                    == WorkloadStep::Command,
            },
    {
        match event {
            WorkloadEvent::Command(byte) => match WorkloadCommand::from_byte(byte) {
                Some(WorkloadCommand::Ping) => WorkloadStep::Echo,
                Some(WorkloadCommand::Data) => WorkloadStep::Total,
                Some(WorkloadCommand::Quit) => WorkloadStep::Close,
                None => WorkloadStep::UnknownCommand,
            },
            WorkloadEvent::Echoed => WorkloadStep::Command,
            WorkloadEvent::Total(total) => {
                self.total = total;
                self.offset = 0;
                self.receive()
            },
            WorkloadEvent::Received { matches } => {
                if !matches {
                    return WorkloadStep::Mismatch { offset: self.offset };
                }
                let len: usize = next_chunk(self.total, self.offset);
                self.offset = self.offset + len as u64;
                self.receive()
            },
            WorkloadEvent::Confirmed => WorkloadStep::Command,
        }
    }

    fn receive(&self) -> (step: WorkloadStep)
        ensures
            step == receive_step(self.total, self.offset),
    {
        let len: usize = next_chunk(self.total, self.offset);
        if len == 0 {
            WorkloadStep::Confirm
        } else {
            WorkloadStep::Receive { offset: self.offset, len }
        }
    }
}

/// The chunks that were received, while all matched, cover the data without a gap, and end exactly
/// at its end: each step moves the offset by the length that was asked for, never beyond the total.
pub proof fn law_chunks_cover_the_data(total: u64, offset: u64)
    requires
        offset < total,
    ensures
        receive_step(total, offset) matches WorkloadStep::Receive { offset: o, len } && o == offset
            && 0 < len <= DATA_CHUNK && advanced(total, offset) == offset + len,
        advanced(total, offset) <= total,
        receive_step(total, total) == WorkloadStep::Confirm,
{
}

/// Whether some selected path has this kind.
pub open spec fn selected_kind(paths: Seq<TransportPathStatus>, kind: TransportPathKind) -> bool {
    exists|i: int| 0 <= i < paths.len() && (#[trigger] paths[i]).selected && paths[i].kind == kind
}

/// Notes which kinds of paths are in use.
pub fn observe_paths(paths: &Vec<TransportPathStatus>, relay: &mut bool, direct: &mut bool)
    ensures
        *final(relay) == (*old(relay) || selected_kind(paths@, TransportPathKind::Relay)),
        *final(direct) == (*old(direct) || selected_kind(paths@, TransportPathKind::Direct)),
{
    let mut i: usize = 0;
    while i < paths.len()
        invariant
            i <= paths.len(),
            *relay == (*old(relay) || selected_kind(
                paths@.take(i as int),
                TransportPathKind::Relay,
            )),
            *direct == (*old(direct) || selected_kind(
                paths@.take(i as int),
                TransportPathKind::Direct,
            )),
        decreases paths.len() - i,
    {
        proof {
            lemma_selected_after(paths@, i as int, TransportPathKind::Relay);
            lemma_selected_after(paths@, i as int, TransportPathKind::Direct);
        }
        if paths[i].selected {
            if paths[i].kind == TransportPathKind::Relay {
                *relay = true;
            }
            if paths[i].kind == TransportPathKind::Direct {
                *direct = true;
            }
        }
        i = i + 1;
    }
    assert(paths@.take(i as int) =~= paths@);
}

proof fn lemma_selected_after(paths: Seq<TransportPathStatus>, i: int, kind: TransportPathKind)
    requires
        0 <= i < paths.len(),
    ensures
        selected_kind(paths.take(i + 1), kind) <==> selected_kind(paths.take(i), kind) || (
        paths[i].selected && paths[i].kind == kind),
{
    let s = paths.take(i);
    let l = paths.take(i + 1);
    if selected_kind(l, kind) {
        let j = choose|j: int| 0 <= j < l.len() && (#[trigger] l[j]).selected && l[j].kind == kind;
        if j < i {
            assert(s[j] == l[j]);
        }
    }
    if selected_kind(s, kind) {
        let j = choose|j: int| 0 <= j < s.len() && (#[trigger] s[j]).selected && s[j].kind == kind;
        assert(l[j] == s[j]);
    }
    assert(l[i] == paths[i]);
}

/// The kind of the first selected path.
pub open spec fn first_selected(paths: Seq<TransportPathStatus>) -> Option<TransportPathKind>
    decreases paths.len(),
{
    if paths.len() == 0 {
        None
    } else if paths[0].selected {
        Some(paths[0].kind)
    } else {
        first_selected(paths.skip(1))
    }
}

/// The kind of the first selected path.
fn first_selected_kind(paths: &Vec<TransportPathStatus>) -> (kind: Option<TransportPathKind>)
    ensures
        kind == first_selected(paths@),
{
    let mut i: usize = 0;
    assert(paths@.skip(0) =~= paths@);
    while i < paths.len()
        invariant
            i <= paths.len(),
            first_selected(paths@) == first_selected(paths@.skip(i as int)),
        decreases paths.len() - i,
    {
        assert(paths@.skip(i as int).skip(1) =~= paths@.skip(i + 1));
        if paths[i].selected {
            return Some(paths[i].kind);
        }
        i = i + 1;
    }
    None
}

/// What the first selected path is called.
pub open spec fn path_name(paths: Seq<TransportPathStatus>) -> Seq<char> {
    match first_selected(paths) {
        Some(TransportPathKind::Relay) => "relay"@,
        Some(TransportPathKind::Direct) => "direct"@,
        Some(TransportPathKind::Other) => "other"@,
        None => "none"@,
    }
}

/// What the path in use is called.
pub fn selected_path(paths: &Vec<TransportPathStatus>) -> (name: &'static str)
    ensures
        name@ == path_name(paths@),
{
    match first_selected_kind(paths) {
        Some(TransportPathKind::Relay) => "relay",
        Some(TransportPathKind::Direct) => "direct",
        Some(TransportPathKind::Other) => "other",
        None => "none",
    }
}

/// Whether an update tells that an endpoint was seen on the local network.
pub open spec fn seen_on_lan(update: AddressLookupUpdate, endpoint: EndpointId) -> bool {
    update.endpoint_id == endpoint && update.source == AddressLookupSource::ProtectedLan
        && !update.expired && update.candidate_count > 0
}

/// Whether an update tells that an endpoint was seen on the local network.
pub fn is_lan_sighting(update: &AddressLookupUpdate, endpoint: EndpointId) -> (seen: bool)
    ensures
        seen == seen_on_lan(*update, endpoint),
{
    update.endpoint_id == endpoint && update.source == AddressLookupSource::ProtectedLan
        && !update.expired && update.candidate_count > 0
}

/// How long it took until a direct path was seen, noted once: when one was seen, and the network
/// had changed.
pub fn migration_latency(known: Option<u64>, saw_direct: bool, since_change_ms: Option<u64>) -> (latency: Option<
    u64,
>)
    ensures
        latency == (if saw_direct && known is None {
            since_change_ms
        } else {
            known
        }),
{
    if saw_direct && known.is_none() {
        since_change_ms
    } else {
        known
    }
}

/// What a run of the benchmark showed.
#[derive(Clone, Copy, Debug, PartialEq, Eq, Structural)]
pub struct Acceptance {
    pub saw_relay: bool,
    pub saw_direct: bool,
    pub peer_identity_stable: bool,
    pub payload_verified: bool,
    pub protected_lan_observations: u64,
}

impl Acceptance {
    /// Whether the run was a success: it moved from a relay to a direct path with the same peer,
    /// all data came, and the peer was seen on the local network.
    pub fn passed(&self) -> (passed: bool)
        ensures
            passed == (self.saw_relay && self.saw_direct && self.peer_identity_stable
                && self.payload_verified && self.protected_lan_observations != 0),
    {
        self.saw_relay && self.saw_direct && self.peer_identity_stable && self.payload_verified
            && self.protected_lan_observations != 0
    }
}

/// How far the client of the benchmark is.
#[derive(Clone, Copy, Debug, PartialEq, Eq, Structural)]
pub enum ClientPhase {
    /// It measures round trips over the path that the connection began on.
    FirstPings,
    /// It announces its data.
    Announcing,
    /// It sends its data.
    Sending,
    /// It lets all data out.
    Flushing,
    /// It waits until a direct path is in use, or the time is up.
    Settling,
    /// It waits for the server to confirm the data.
    Confirming,
    /// It measures round trips over the direct path.
    DirectPings,
    /// It ends.
    Quitting,
    /// It is through.
    Done,
}

/// What the client of the benchmark does next.
#[derive(Clone, Copy, Debug, PartialEq, Eq, Structural)]
pub enum ClientStep {
    /// Ask for a number to be sent back, and read it.
    Ping { sequence: u64 },
    /// Announce this much data.
    Announce { total: u64 },
    /// Send this many bytes of the pattern from the offset on.
    Send { offset: u64, len: usize },
    /// Let all data out.
    Flush,
    /// Look at the paths and wait a moment, unless the time is up.
    Settle,
    /// Read the confirmation of the server.
    Confirm,
    /// Ask the server to end, and close the stream.
    Quit,
    /// Report what the run showed.
    Report,
    /// Give up: another number came back than was sent.
    Corrupted,
    /// Nothing: this was not what the client was waiting for.
    OutOfTurn,
}

/// What happened to the client of the benchmark.
#[derive(Clone, Copy, Debug, PartialEq, Eq, Structural)]
pub enum ClientEvent {
    /// A number came back.
    Echoed(u64),
    /// The data was announced.
    Announced,
    /// The bytes were sent.
    Sent,
    /// All data is out.
    Flushed,
    /// The client waited; tells whether the time was up before.
    Settled { time_up: bool },
    /// The server confirmed, with this byte.
    Confirmed(u8),
    /// The stream was closed; tells whether the peer was the same throughout.
    Closed { same_peer: bool },
}

/// The client of the benchmark.
#[derive(Clone, Copy, Debug, PartialEq, Eq, Structural)]
pub struct WorkloadClient {
    pub total: u64,
    pub pings: u32,
    pub phase: ClientPhase,
    pub sequence: u64,
    pub offset: u64,
    pub saw_relay: bool,
    pub saw_direct: bool,
    pub latency: Option<u64>,
    pub observations: u64,
    pub payload_verified: bool,
    pub peer_identity_stable: bool,
}

/// What is to be sent next, or that all data was sent.
pub open spec fn send_step(total: u64, offset: u64) -> ClientStep {
    if offset >= total {
        ClientStep::Flush
    } else if total - offset < DATA_CHUNK {
        ClientStep::Send { offset, len: (total - offset) as usize }
    } else {
        ClientStep::Send { offset, len: DATA_CHUNK }
    }
}

/// The client, in another phase.
pub open spec fn in_phase(c: WorkloadClient, phase: ClientPhase) -> WorkloadClient {
    WorkloadClient { phase, ..c }
}

/// A number came back to a client that measures round trips.
pub open spec fn after_echo(c: WorkloadClient, echoed: u64) -> (WorkloadClient, ClientStep) {
    if echoed != c.sequence {
        (in_phase(c, ClientPhase::Done), ClientStep::Corrupted)
    } else if c.sequence + 1 < c.pings {
        let next = (c.sequence + 1) as u64;
        (WorkloadClient { sequence: next, ..c }, ClientStep::Ping { sequence: next })
    } else if c.phase == ClientPhase::FirstPings {
        (in_phase(c, ClientPhase::Announcing), ClientStep::Announce { total: c.total })
    } else {
        (in_phase(c, ClientPhase::Quitting), ClientStep::Quit)
    }
}

/// The client sends on from an offset.
pub open spec fn sending(c: WorkloadClient, offset: u64) -> (WorkloadClient, ClientStep) {
    (
        WorkloadClient {
            offset,
            phase: if offset >= c.total {
                ClientPhase::Flushing
            } else {
                ClientPhase::Sending
            },
            ..c
        },
        send_step(c.total, offset),
    )
}

/// All data is out: the client reads the confirmation once a direct path is in use or the time is
/// up.
pub open spec fn settling(c: WorkloadClient, time_up: bool) -> (WorkloadClient, ClientStep) {
    if c.saw_direct || time_up {
        (in_phase(c, ClientPhase::Confirming), ClientStep::Confirm)
    } else {
        (in_phase(c, ClientPhase::Settling), ClientStep::Settle)
    }
}

/// The server answered: the client measures round trips again if a direct path is in use.
pub open spec fn after_confirmation(c: WorkloadClient, reply: u8) -> (WorkloadClient, ClientStep) {
    let c = WorkloadClient { payload_verified: reply == 0, ..c };
    if c.saw_direct {
        (
            WorkloadClient { sequence: 0, phase: ClientPhase::DirectPings, ..c },
            ClientStep::Ping { sequence: 0 },
        )
    } else {
        (in_phase(c, ClientPhase::Quitting), ClientStep::Quit)
    }
}

/// How the client goes on after something happened.
pub open spec fn client_next(c: WorkloadClient, event: ClientEvent) -> (WorkloadClient, ClientStep) {
    match (c.phase, event) {
        (ClientPhase::FirstPings, ClientEvent::Echoed(echoed)) => after_echo(c, echoed),
        (ClientPhase::DirectPings, ClientEvent::Echoed(echoed)) => after_echo(c, echoed),
        (ClientPhase::Announcing, ClientEvent::Announced) => sending(c, 0),
        (ClientPhase::Sending, ClientEvent::Sent) => sending(c, advanced(c.total, c.offset)),
        (ClientPhase::Flushing, ClientEvent::Flushed) => settling(c, false),
        (ClientPhase::Settling, ClientEvent::Settled { time_up }) => settling(c, time_up),
        (ClientPhase::Confirming, ClientEvent::Confirmed(reply)) => after_confirmation(c, reply),
        (ClientPhase::Quitting, ClientEvent::Closed { same_peer }) => (
            WorkloadClient { peer_identity_stable: same_peer, phase: ClientPhase::Done, ..c },
            ClientStep::Report,
        ),
        _ => (c, ClientStep::OutOfTurn),
    }
}

impl WorkloadClient {
    /// A client that sends `total` bytes and measures `pings` round trips at a time; none of
    /// either is no run.
    pub fn new(total: u64, pings: u32) -> (client: Option<Self>)
        ensures
            client == (if total == 0 || pings == 0 {
                None
            } else {
                Some(
                    WorkloadClient {
                        total,
                        pings,
                        phase: ClientPhase::FirstPings,
                        sequence: 0,
                        offset: 0,
                        saw_relay: false,
                        saw_direct: false,
                        latency: None,
                        observations: 0,
                        payload_verified: false,
                        peer_identity_stable: false,
                    },
                )
            }),
    {
        if total == 0 || pings == 0 {
            return None;
        }
        Some(
            WorkloadClient {
                total,
                pings,
                phase: ClientPhase::FirstPings,
                sequence: 0,
                offset: 0,
                saw_relay: false,
                saw_direct: false,
                latency: None,
                observations: 0,
                payload_verified: false,
                peer_identity_stable: false,
            },
        )
    }

    /// Begins with the paths of a new connection: the one in use counts as seen, and round trips
    /// are measured over it.
    pub fn begin(&mut self, paths: &Vec<TransportPathStatus>) -> (step: ClientStep)
        ensures
            *final(self) == (WorkloadClient {
                phase: ClientPhase::FirstPings,
                sequence: 0,
                saw_relay: first_selected(paths@) == Some(TransportPathKind::Relay),
                saw_direct: first_selected(paths@) == Some(TransportPathKind::Direct),
                ..*old(self)
            }),
            step == (ClientStep::Ping { sequence: 0 }),
    {
        let kind: Option<TransportPathKind> = first_selected_kind(paths);
        self.phase = ClientPhase::FirstPings;
        self.sequence = 0;
        self.saw_relay = matches!(kind, Some(TransportPathKind::Relay));
        self.saw_direct = matches!(kind, Some(TransportPathKind::Direct));
        ClientStep::Ping { sequence: 0 }
    }

    /// Notes which paths are in use, and how long ago the network changed.
    pub fn observe(&mut self, paths: &Vec<TransportPathStatus>, since_change_ms: Option<u64>)
        ensures
            ({
                let saw_direct = old(self).saw_direct || selected_kind(
                    paths@,
                    TransportPathKind::Direct,
                );
                *final(self) == (WorkloadClient {
                    saw_relay: old(self).saw_relay || selected_kind(
                        paths@,
                        TransportPathKind::Relay,
                    ),
                    saw_direct,
                    latency: if saw_direct && old(self).latency is None {
                        since_change_ms
                    } else {
                        old(self).latency
                    },
                    ..*old(self)
                })
            }),
    {
        let mut saw_relay: bool = self.saw_relay;
        let mut saw_direct: bool = self.saw_direct;
        observe_paths(paths, &mut saw_relay, &mut saw_direct);
        self.saw_relay = saw_relay;
        self.saw_direct = saw_direct;
        self.latency = migration_latency(self.latency, saw_direct, since_change_ms);
    }

    /// Counts an update that tells that the server was seen on the local network.
    pub fn note_update(&mut self, update: &AddressLookupUpdate, server: EndpointId)
        requires
            old(self).observations < u64::MAX,
        ensures
            *final(self) == (WorkloadClient {
                observations: if seen_on_lan(*update, server) {
                    (old(self).observations + 1) as u64
                } else {
                    old(self).observations
                },
                ..*old(self)
            }),
    {
        if is_lan_sighting(update, server) {
            self.observations = self.observations + 1;
        }
    }

    /// Goes on after something happened.
    pub fn step(&mut self, event: ClientEvent) -> (step: ClientStep)
        ensures
            (*final(self), step) == client_next(*old(self), event),
    {
        match (self.phase, event) {
            (ClientPhase::FirstPings, ClientEvent::Echoed(echoed)) => self.echoed(echoed),
            (ClientPhase::DirectPings, ClientEvent::Echoed(echoed)) => self.echoed(echoed),
            (ClientPhase::Announcing, ClientEvent::Announced) => self.send_from(0),
            (ClientPhase::Sending, ClientEvent::Sent) => {
                let len: usize = next_chunk(self.total, self.offset);
                self.send_from(self.offset + len as u64)
            },
            (ClientPhase::Flushing, ClientEvent::Flushed) => self.settled(false),
            (ClientPhase::Settling, ClientEvent::Settled { time_up }) => self.settled(time_up),
            (ClientPhase::Confirming, ClientEvent::Confirmed(reply)) => self.confirmed(reply),
            (ClientPhase::Quitting, ClientEvent::Closed { same_peer }) => {
                self.peer_identity_stable = same_peer;
                self.phase = ClientPhase::Done;
                ClientStep::Report
            },
            _ => ClientStep::OutOfTurn,
        }
    }

    fn echoed(&mut self, echoed: u64) -> (step: ClientStep)
        ensures
            (*final(self), step) == after_echo(*old(self), echoed),
    {
        if echoed != self.sequence {
            self.phase = ClientPhase::Done;
            return ClientStep::Corrupted;
        }
        let pings: u64 = self.pings as u64;
        if self.sequence < pings && pings - self.sequence > 1 {
            self.sequence = self.sequence + 1;
            return ClientStep::Ping { sequence: self.sequence };
        }
        if self.phase == ClientPhase::FirstPings {
            self.phase = ClientPhase::Announcing;
            ClientStep::Announce { total: self.total }
        } else {
            self.phase = ClientPhase::Quitting;
            ClientStep::Quit
        }
    }

    fn send_from(&mut self, offset: u64) -> (step: ClientStep)
        ensures
            (*final(self), step) == sending(*old(self), offset),
    {
        self.offset = offset;
        let len: usize = next_chunk(self.total, offset);
        if len == 0 {
            self.phase = ClientPhase::Flushing;
            ClientStep::Flush
        } else {
            self.phase = ClientPhase::Sending;
            ClientStep::Send { offset, len }
        }
    }

    fn settled(&mut self, time_up: bool) -> (step: ClientStep)
        ensures
            (*final(self), step) == settling(*old(self), time_up),
    {
        if self.saw_direct || time_up {
            self.phase = ClientPhase::Confirming;
            ClientStep::Confirm
        } else {
            self.phase = ClientPhase::Settling;
            ClientStep::Settle
        }
    }

    fn confirmed(&mut self, reply: u8) -> (step: ClientStep)
        ensures
            (*final(self), step) == after_confirmation(*old(self), reply),
    {
        self.payload_verified = reply == 0;
        if self.saw_direct {
            self.sequence = 0;
            self.phase = ClientPhase::DirectPings;
            ClientStep::Ping { sequence: 0 }
        } else {
            self.phase = ClientPhase::Quitting;
            ClientStep::Quit
        }
    }

    /// What the run showed.
    pub fn acceptance(&self) -> (acceptance: Acceptance)
        ensures
            acceptance == (Acceptance {
                saw_relay: self.saw_relay,
                saw_direct: self.saw_direct,
                peer_identity_stable: self.peer_identity_stable,
                payload_verified: self.payload_verified,
                protected_lan_observations: self.observations,
            }),
    {
        Acceptance {
            saw_relay: self.saw_relay,
            saw_direct: self.saw_direct,
            peer_identity_stable: self.peer_identity_stable,
            payload_verified: self.payload_verified,
            protected_lan_observations: self.observations,
        }
    }
}

/// The client after `count` round trips that all came back as they were sent.
pub open spec fn after_echoes(c: WorkloadClient, count: nat) -> (WorkloadClient, ClientStep)
    decreases count,
{
    if count == 0 {
        (c, ClientStep::Ping { sequence: 0 })
    } else {
        let before = after_echoes(c, (count - 1) as nat);
        client_next(before.0, ClientEvent::Echoed(before.0.sequence))
    }
}

/// A client measures exactly as many round trips as it was told to, numbered from zero on, and
/// then announces its data; or ends, if it has sent it already.
pub proof fn law_round_trips_are_counted(c: WorkloadClient, count: nat)
    requires
        c.phase == ClientPhase::FirstPings || c.phase == ClientPhase::DirectPings,
        c.sequence == 0,
        count <= c.pings,
        0 < c.pings,
    ensures
        count < c.pings ==> after_echoes(c, count) == (
            WorkloadClient { sequence: count as u64, ..c },
            ClientStep::Ping { sequence: count as u64 },
        ),
        count == c.pings ==> after_echoes(c, count).1 == (if c.phase == ClientPhase::FirstPings {
            ClientStep::Announce { total: c.total }
        } else {
            ClientStep::Quit
        }),
    decreases count,
{
    if count > 0 {
        law_round_trips_are_counted(c, (count - 1) as nat);
    }
}

/// A number that comes back changed ends the run.
pub proof fn law_corruption_ends_the_run(c: WorkloadClient, echoed: u64)
    requires
        c.phase == ClientPhase::FirstPings || c.phase == ClientPhase::DirectPings,
        echoed != c.sequence,
    ensures
        client_next(c, ClientEvent::Echoed(echoed)).1 == ClientStep::Corrupted,
        forall|event: ClientEvent| #[trigger]
            client_next(client_next(c, ClientEvent::Echoed(echoed)).0, event).1
                == ClientStep::OutOfTurn,
{
}

/// The bytes that a client sends from an offset on.
pub open spec fn sent_from(total: u64, offset: u64) -> Seq<u8>
    decreases total - offset,
{
    match send_step(total, offset) {
        ClientStep::Send { offset: from, len } => pattern(from as nat, len as nat) + sent_from(
            total,
            advanced(total, offset),
        ),
        _ => Seq::empty(),
    }
}

/// What a client sends is the pattern, from its beginning to the announced end.
pub proof fn law_client_sends_the_pattern(total: u64, offset: u64)
    requires
        offset <= total,
    ensures
        sent_from(total, offset) == pattern(offset as nat, (total - offset) as nat),
    decreases total - offset,
{
    if offset < total {
        let next = advanced(total, offset);
        law_client_sends_the_pattern(total, next);
        law_pattern_is_independent_of_chunks(
            offset as nat,
            (next - offset) as nat,
            (total - next) as nat,
        );
    } else {
        assert(sent_from(total, offset) =~= pattern(offset as nat, 0));
    }
}

/// A client and a server cut the data at the same places: what the one sends next is what the
/// other reads next, and the server confirms when the client has sent everything.
pub proof fn law_client_and_server_agree(total: u64, offset: u64)
    ensures
        match send_step(total, offset) {
            ClientStep::Send { offset: from, len } => receive_step(total, offset) == (
            WorkloadStep::Receive { offset: from, len }),
            _ => receive_step(total, offset) == WorkloadStep::Confirm,
        },
{
}

/// A client measures round trips a second time only over a direct path.
pub proof fn law_direct_round_trips_need_a_direct_path(c: WorkloadClient, event: ClientEvent)
    requires
        c.phase != ClientPhase::DirectPings,
        client_next(c, event).0.phase == ClientPhase::DirectPings,
    ensures
        c.saw_direct,
        c.phase == ClientPhase::Confirming,
{
}

/// The path in use is the first that is selected, whatever stands before it; there is none exactly
/// where none is selected.
pub proof fn law_which_path_is_in_use(paths: Seq<TransportPathStatus>, i: int)
    requires
        0 <= i <= paths.len(),
        forall|k: int| 0 <= k < i ==> !(#[trigger] paths[k]).selected,
        i < paths.len() ==> paths[i].selected,
    ensures
        first_selected(paths) == (if i < paths.len() {
            Some(paths[i].kind)
        } else {
            None
        }),
    decreases i,
{
    if i > 0 {
        let rest = paths.skip(1);
        assert(!paths[0].selected);
        assert forall|k: int| 0 <= k < i - 1 implies !(#[trigger] rest[k]).selected by {
            assert(rest[k] == paths[k + 1]);
        }
        if i < paths.len() {
            assert(rest[i - 1] == paths[i]);
        }
        law_which_path_is_in_use(rest, i - 1);
    }
}

/// Once all data is out, the confirmation is read exactly where a direct path was seen or the time
/// is up; until then the client waits and looks again. The payload counts as verified exactly where
/// the server answers with zero, and round trips are measured again exactly where a direct path was
/// seen.
pub proof fn law_how_a_run_settles(c: WorkloadClient, time_up: bool, reply: u8)
    ensures
        c.phase == ClientPhase::Settling ==> {
            let (next, step) = client_next(c, ClientEvent::Settled { time_up });
            &&& step == ClientStep::Confirm <==> c.saw_direct || time_up
            &&& step == ClientStep::Settle <==> !c.saw_direct && !time_up
            &&& step == ClientStep::Settle ==> next == c
        },
        c.phase == ClientPhase::Flushing ==> {
            let (next, step) = client_next(c, ClientEvent::Flushed);
            &&& step == ClientStep::Confirm <==> c.saw_direct
            &&& step == ClientStep::Settle <==> !c.saw_direct
        },
        c.phase == ClientPhase::Confirming ==> {
            let (next, step) = client_next(c, ClientEvent::Confirmed(reply));
            &&& next.payload_verified <==> reply == 0
            &&& step == (ClientStep::Ping { sequence: 0 }) <==> c.saw_direct
            &&& step == ClientStep::Quit <==> !c.saw_direct
            &&& next.saw_direct == c.saw_direct
        },
{
}

/// Nothing that comes out of turn changes anything, and a run that is over stays over.
pub proof fn law_what_comes_out_of_turn(c: WorkloadClient, event: ClientEvent)
    ensures
        client_next(c, event).1 == ClientStep::OutOfTurn ==> client_next(c, event).0 == c,
        c.phase == ClientPhase::Done ==> client_next(c, event) == (c, ClientStep::OutOfTurn),
        client_next(c, event).1 == ClientStep::Report <==> c.phase == ClientPhase::Quitting
            && event is Closed,
        client_next(c, event).1 == ClientStep::Report ==> (client_next(c, event).0.peer_identity_stable
            <==> event == (ClientEvent::Closed { same_peer: true })),
{
}

/// An update tells of a sighting exactly where it is about the endpoint, comes from the local
/// network, and brings at least one address.
pub proof fn law_what_a_sighting_is(update: AddressLookupUpdate, endpoint: EndpointId)
    ensures
        seen_on_lan(update, endpoint) <==> update.endpoint_id == endpoint && update.source
            == AddressLookupSource::ProtectedLan && !update.expired && 1 <= update.candidate_count,
{
}

} // verus!
