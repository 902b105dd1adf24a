use weaver::discovery::lookup::{AddressLookupSource, AddressLookupUpdate};
use weaver::identifiers::EndpointId;
use weaver::net::paths::{describe_path, TransportPathKind, TransportPathStatus};
use weaver::workload::{
    fill_pattern, is_lan_sighting, matches_pattern, migration_latency, next_chunk, observe_paths,
    selected_path, Acceptance, ClientEvent, ClientPhase, ClientStep, WorkloadClient,
    WorkloadCommand, WorkloadEvent, WorkloadServer, WorkloadStep,
};

#[test]
fn deterministic_pattern_is_independent_of_chunk_boundaries() {
    let mut whole = vec![0; 10_000];
    fill_pattern(&mut whole, 0);
    let mut split = vec![0; 10_000];
    fill_pattern(&mut split[..3_333], 0);
    fill_pattern(&mut split[3_333..], 3_333);
    assert_eq!(whole, split);
    assert!(matches_pattern(&whole, 0));
    assert!(!matches_pattern(&whole, 1));
}

#[test]
fn chunks_cover_the_data() {
    assert_eq!(next_chunk(100_000, 0), 65_536);
    assert_eq!(next_chunk(100_000, 65_536), 34_464);
    assert_eq!(next_chunk(100_000, 100_000), 0);
}

#[test]
fn server_answers_commands() {
    let mut server = WorkloadServer::new();
    let ping = WorkloadCommand::Ping.byte();
    assert_eq!(WorkloadCommand::from_byte(ping), Some(WorkloadCommand::Ping));
    assert_eq!(server.step(WorkloadEvent::Command(ping)), WorkloadStep::Echo);
    assert_eq!(server.step(WorkloadEvent::Echoed), WorkloadStep::Command);
    assert_eq!(
        server.step(WorkloadEvent::Command(WorkloadCommand::Data.byte())),
        WorkloadStep::Total
    );
    assert_eq!(
        server.step(WorkloadEvent::Total(70_000)),
        WorkloadStep::Receive {
            offset: 0,
            len: 65_536
        }
    );
    assert_eq!(
        server.step(WorkloadEvent::Received { matches: true }),
        WorkloadStep::Receive {
            offset: 65_536,
            len: 4_464
        }
    );
    assert_eq!(
        server.step(WorkloadEvent::Received { matches: true }),
        WorkloadStep::Confirm
    );
    assert_eq!(server.step(WorkloadEvent::Confirmed), WorkloadStep::Command);
    assert_eq!(
        server.step(WorkloadEvent::Command(WorkloadCommand::Quit.byte())),
        WorkloadStep::Close
    );
    assert_eq!(
        server.step(WorkloadEvent::Command(0)),
        WorkloadStep::UnknownCommand
    );
}

#[test]
fn server_notices_wrong_data() {
    let mut server = WorkloadServer::new();
    server.step(WorkloadEvent::Command(WorkloadCommand::Data.byte()));
    server.step(WorkloadEvent::Total(10));
    assert_eq!(
        server.step(WorkloadEvent::Received { matches: false }),
        WorkloadStep::Mismatch { offset: 0 }
    );
}

#[test]
fn observations_add_up() {
    let relayed = describe_path(false, true, None, false, 1);
    let direct = describe_path(true, false, None, true, 1);
    let mut saw_relay = false;
    let mut saw_direct = false;
    observe_paths(&vec![relayed], &mut saw_relay, &mut saw_direct);
    assert!(!saw_direct);
    observe_paths(&vec![relayed, direct], &mut saw_relay, &mut saw_direct);
    assert!(saw_direct);
    assert_eq!(selected_path(&vec![relayed, direct]), "direct");
    assert_eq!(selected_path(&Vec::new()), "none");
    assert_eq!(migration_latency(Some(3), true, Some(9)), Some(3));
    assert_eq!(migration_latency(None, true, Some(9)), Some(9));
    assert_eq!(migration_latency(None, false, Some(9)), None);
    let endpoint = EndpointId::from_bytes([1; 32]);
    let update = AddressLookupUpdate {
        endpoint_id: endpoint,
        source: AddressLookupSource::ProtectedLan,
        expired: false,
        candidate_count: 1,
    };
    assert!(is_lan_sighting(&update, endpoint));
    assert!(!is_lan_sighting(&update, EndpointId::from_bytes([2; 32])));
}

#[test]
fn acceptance_needs_everything() {
    let all = Acceptance {
        saw_relay: true,
        saw_direct: true,
        peer_identity_stable: true,
        payload_verified: true,
        protected_lan_observations: 1,
    };
    assert!(all.passed());
    assert!(!Acceptance {
        payload_verified: false,
        ..all
    }
    .passed());
    assert!(!Acceptance {
        protected_lan_observations: 0,
        ..all
    }
    .passed());
}

fn path(kind: TransportPathKind, selected: bool) -> TransportPathStatus {
    TransportPathStatus {
        kind,
        selected,
        direct_scope: None,
        rtt_ns: 10,
    }
}

#[test]
fn client_runs_from_relay_to_direct() {
    let server = EndpointId::from_bytes([1; 32]);
    let mut client = WorkloadClient::new(70_000, 2).unwrap();
    let relay = vec![
        path(TransportPathKind::Direct, false),
        path(TransportPathKind::Relay, true),
    ];
    assert_eq!(client.begin(&relay), ClientStep::Ping { sequence: 0 });
    assert!(client.saw_relay && !client.saw_direct);
    assert_eq!(
        client.step(ClientEvent::Echoed(0)),
        ClientStep::Ping { sequence: 1 }
    );
    assert_eq!(
        client.step(ClientEvent::Echoed(1)),
        ClientStep::Announce { total: 70_000 }
    );
    assert_eq!(
        client.step(ClientEvent::Announced),
        ClientStep::Send {
            offset: 0,
            len: 65_536
        }
    );
    client.observe(&relay, Some(5));
    assert_eq!(client.latency, None);
    assert_eq!(
        client.step(ClientEvent::Sent),
        ClientStep::Send {
            offset: 65_536,
            len: 4_464
        }
    );
    assert_eq!(client.step(ClientEvent::Sent), ClientStep::Flush);
    assert_eq!(client.step(ClientEvent::Flushed), ClientStep::Settle);
    assert_eq!(
        client.step(ClientEvent::Settled { time_up: false }),
        ClientStep::Settle
    );
    client.observe(&vec![path(TransportPathKind::Direct, true)], Some(40));
    assert_eq!(client.latency, Some(40));
    client.note_update(
        &AddressLookupUpdate {
            endpoint_id: server,
            source: AddressLookupSource::ProtectedLan,
            expired: false,
            candidate_count: 1,
        },
        server,
    );
    assert_eq!(client.observations, 1);
    assert_eq!(
        client.step(ClientEvent::Settled { time_up: false }),
        ClientStep::Confirm
    );
    assert_eq!(
        client.step(ClientEvent::Confirmed(0)),
        ClientStep::Ping { sequence: 0 }
    );
    assert_eq!(client.phase, ClientPhase::DirectPings);
    assert_eq!(
        client.step(ClientEvent::Echoed(0)),
        ClientStep::Ping { sequence: 1 }
    );
    assert_eq!(client.step(ClientEvent::Echoed(1)), ClientStep::Quit);
    assert_eq!(
        client.step(ClientEvent::Closed { same_peer: true }),
        ClientStep::Report
    );
    assert!(client.acceptance().passed());
}

#[test]
fn client_without_a_direct_path_fails_acceptance() {
    let mut client = WorkloadClient::new(1, 1).unwrap();
    client.begin(&vec![path(TransportPathKind::Relay, true)]);
    assert_eq!(
        client.step(ClientEvent::Echoed(0)),
        ClientStep::Announce { total: 1 }
    );
    assert_eq!(
        client.step(ClientEvent::Announced),
        ClientStep::Send { offset: 0, len: 1 }
    );
    assert_eq!(client.step(ClientEvent::Sent), ClientStep::Flush);
    assert_eq!(client.step(ClientEvent::Flushed), ClientStep::Settle);
    assert_eq!(
        client.step(ClientEvent::Settled { time_up: true }),
        ClientStep::Confirm
    );
    assert_eq!(client.step(ClientEvent::Confirmed(1)), ClientStep::Quit);
    assert_eq!(
        client.step(ClientEvent::Closed { same_peer: true }),
        ClientStep::Report
    );
    let acceptance = client.acceptance();
    assert!(!acceptance.payload_verified);
    assert!(!acceptance.passed());
}

#[test]
fn client_stops_at_corruption_and_keeps_to_its_turn() {
    assert_eq!(WorkloadClient::new(0, 1), None);
    assert_eq!(WorkloadClient::new(1, 0), None);
    let mut client = WorkloadClient::new(1, 2).unwrap();
    client.begin(&Vec::new());
    assert!(!client.saw_relay && !client.saw_direct);
    assert_eq!(client.step(ClientEvent::Sent), ClientStep::OutOfTurn);
    assert_eq!(client.step(ClientEvent::Echoed(7)), ClientStep::Corrupted);
    assert_eq!(client.step(ClientEvent::Echoed(0)), ClientStep::OutOfTurn);
}

#[test]
fn server_takes_what_the_client_sends() {
    let total = 200_001;
    let mut client = WorkloadClient::new(total, 1).unwrap();
    client.begin(&Vec::new());
    client.step(ClientEvent::Echoed(0));
    let mut server = WorkloadServer::new();
    let mut sent = client.step(ClientEvent::Announced);
    let mut read = server.step(WorkloadEvent::Total(total));
    let mut bytes: Vec<u8> = Vec::new();
    while let ClientStep::Send { offset, len } = sent {
        assert_eq!(read, WorkloadStep::Receive { offset, len });
        let mut chunk = vec![0; len];
        fill_pattern(&mut chunk, offset);
        read = server.step(WorkloadEvent::Received {
            matches: matches_pattern(&chunk, offset),
        });
        bytes.extend_from_slice(&chunk);
        sent = client.step(ClientEvent::Sent);
    }
    assert_eq!(sent, ClientStep::Flush);
    assert_eq!(read, WorkloadStep::Confirm);
    let mut whole = vec![0; total as usize];
    fill_pattern(&mut whole, 0);
    assert_eq!(bytes, whole);
}
