use libp2p::kad::store::MemoryStore;
use libp2p::kad::{self, QueryId};
use libp2p::{Multiaddr, PeerId};
use navy_lib::discovery::{settle_discovery, DriverFault, EngineAction, NetworkEvent, PendingQueries, Step};
use navy_lib::node::{
    listen_plan, node_identity, parse_address, Role, StartError, BOOT_DIAL_ADDR, BOOT_LISTEN_ADDR, BOOT_LISTEN_PORT,
    EPHEMERAL_LISTEN_ADDR, INSECURE_DEFAULT_BOOT_KEY,
};

fn routing_engine() -> kad::Behaviour<MemoryStore> {
    let me = PeerId::random();
    kad::Behaviour::new(me, MemoryStore::new(me))
}

fn query(engine: &mut kad::Behaviour<MemoryStore>) -> QueryId {
    engine.get_closest_peers(PeerId::random())
}

fn addr(text: &str) -> Multiaddr {
    text.parse().unwrap()
}

fn finished(id: QueryId, peers: Option<Vec<PeerId>>) -> NetworkEvent {
    NetworkEvent::ClosestPeersProgressed { id, last: true, peers }
}

fn reply_of(step: Result<Step<u32>, DriverFault>) -> (u32, Vec<PeerId>) {
    match step {
        Ok(Step::Reply(caller, peers)) => (caller, peers),
        _ => panic!("expected a reply"),
    }
}

#[test]
fn each_of_many_requests_gets_its_own_reply_once() {
    let mut engine = routing_engine();
    let mut pending: PendingQueries<u32> = PendingQueries::new();
    let ids: Vec<QueryId> = (0..5).map(|_| query(&mut engine)).collect();
    for (caller, id) in ids.iter().enumerate() {
        assert_eq!(pending.handle_command(*id, caller as u32), Ok(()));
    }
    assert_eq!(pending.len(), 5);
    for caller in [3usize, 0, 4, 1, 2] {
        let (got, _) = reply_of(pending.handle_event(finished(ids[caller], Some(Vec::new()))));
        assert_eq!(got, caller as u32);
        assert!(!pending.contains(&ids[caller]));
    }
    assert_eq!(pending.len(), 0);
    assert!(matches!(pending.handle_event(finished(ids[0], None)), Err(DriverFault::UnknownQuery)));
}

#[test]
fn a_pending_query_id_is_never_reused() {
    let mut engine = routing_engine();
    let mut pending: PendingQueries<u32> = PendingQueries::new();
    let id = query(&mut engine);
    assert_eq!(pending.handle_command(id, 1), Ok(()));
    assert_eq!(pending.handle_command(id, 2), Err(DriverFault::DuplicateQuery));
    let (got, _) = reply_of(pending.handle_event(finished(id, None)));
    assert_eq!(got, 1);
}

#[test]
fn found_peers_are_returned_unchanged() {
    let mut engine = routing_engine();
    let mut pending: PendingQueries<u32> = PendingQueries::new();
    let id = query(&mut engine);
    pending.handle_command(id, 9).unwrap();
    let peers: Vec<PeerId> = (0..4).map(|_| PeerId::random()).collect();
    let (got, found) = reply_of(pending.handle_event(finished(id, Some(peers.clone()))));
    assert_eq!(got, 9);
    assert_eq!(found, peers);
}

#[test]
fn a_failed_query_returns_no_peers_not_an_error() {
    let mut engine = routing_engine();
    let mut pending: PendingQueries<u32> = PendingQueries::new();
    let id = query(&mut engine);
    pending.handle_command(id, 4).unwrap();
    let (got, found) = reply_of(pending.handle_event(finished(id, None)));
    assert_eq!(got, 4);
    assert!(found.is_empty());
}

#[test]
fn intermediate_progress_and_other_events_are_ignored() {
    let mut engine = routing_engine();
    let mut pending: PendingQueries<u32> = PendingQueries::new();
    let id = query(&mut engine);
    pending.handle_command(id, 1).unwrap();
    let step = pending.handle_event(NetworkEvent::ClosestPeersProgressed { id, last: false, peers: Some(vec![PeerId::random()]) });
    assert!(matches!(step, Ok(Step::Ignore)));
    assert!(matches!(pending.handle_event(NetworkEvent::Other), Ok(Step::Ignore)));
    assert!(pending.contains(&id));
}

#[test]
fn identify_becomes_address_hints_in_order() {
    let mut pending: PendingQueries<u32> = PendingQueries::new();
    let peer = PeerId::random();
    let a = addr("/ip4/10.0.0.1/udp/4000/quic-v1");
    let b = addr("/ip4/10.0.0.2/udp/4001/quic-v1");
    let seen = addr("/ip4/1.2.3.4/udp/5000/quic-v1");
    let step = pending.handle_event(NetworkEvent::IdentifyReceived {
        peer,
        listen_addrs: vec![a.clone(), b.clone()],
        observed_addr: seen.clone(),
    });
    let actions = match step {
        Ok(Step::Update(actions)) => actions,
        _ => panic!("expected address hints"),
    };
    assert_eq!(actions.len(), 3);
    assert!(matches!(&actions[0], EngineAction::AddExternalAddress(x) if *x == seen));
    assert!(matches!(&actions[1], EngineAction::AddPeerAddress(p, x) if *p == peer && *x == a));
    assert!(matches!(&actions[2], EngineAction::AddPeerAddress(p, x) if *p == peer && *x == b));
    assert_eq!(pending.len(), 0);
}

#[test]
fn regular_node_learns_of_the_bootstrap_peer() {
    let mut engine = routing_engine();
    let mut pending: PendingQueries<u32> = PendingQueries::new();
    let boot = PeerId::random();
    let step = pending.handle_event(NetworkEvent::IdentifyReceived {
        peer: boot,
        listen_addrs: vec![addr(BOOT_DIAL_ADDR)],
        observed_addr: addr("/ip4/127.0.0.1/udp/41000/quic-v1"),
    });
    assert!(matches!(step, Ok(Step::Update(_))));
    let id = query(&mut engine);
    pending.handle_command(id, 0).unwrap();
    let (_, found) = reply_of(pending.handle_event(finished(id, Some(vec![boot]))));
    assert!(settle_discovery(found.clone()).is_some());
    assert!(found.contains(&boot));
}

#[test]
fn two_back_to_back_requests_resolve_independently() {
    let mut engine = routing_engine();
    let mut pending: PendingQueries<u32> = PendingQueries::new();
    let first = query(&mut engine);
    pending.handle_command(first, 1).unwrap();
    let second = query(&mut engine);
    pending.handle_command(second, 2).unwrap();
    let p = PeerId::random();
    let q = PeerId::random();
    let (got, found) = reply_of(pending.handle_event(finished(second, Some(vec![q]))));
    assert_eq!((got, found), (2, vec![q]));
    let (got, found) = reply_of(pending.handle_event(finished(first, Some(vec![p]))));
    assert_eq!((got, found), (1, vec![p]));
}

#[test]
fn empty_discovery_means_retry() {
    assert_eq!(settle_discovery(Vec::new()), None);
    let peers = vec![PeerId::random(), PeerId::random()];
    assert_eq!(settle_discovery(peers.clone()), Some(peers));
}

#[test]
fn role_from_command_line_flag() {
    assert_eq!(Role::from_flag(Some("-b")), Role::Bootstrap);
    assert_eq!(Role::from_flag(Some("-x")), Role::Regular);
    assert_eq!(Role::from_flag(Some("-bb")), Role::Regular);
    assert_eq!(Role::from_flag(None), Role::Regular);
}

#[test]
fn bootstrap_listens_on_fixed_port_and_dials_nobody() {
    let plan = listen_plan(Role::Bootstrap);
    assert_eq!(plan.listen_port, BOOT_LISTEN_PORT);
    assert_eq!(plan.listen_port, 50000);
    assert_eq!(plan.listen_addr, BOOT_LISTEN_ADDR);
    assert!(plan.dial_addrs.is_empty());
}

#[test]
fn regular_listens_on_ephemeral_port_and_dials_bootstrap_once() {
    let plan = listen_plan(Role::Regular);
    assert_eq!(plan.listen_port, 0);
    assert_eq!(plan.listen_addr, EPHEMERAL_LISTEN_ADDR);
    assert_eq!(plan.dial_addrs, vec![BOOT_DIAL_ADDR]);
}

#[test]
fn configured_addresses_parse() {
    assert_eq!(parse_address(BOOT_LISTEN_ADDR).unwrap(), addr("/ip4/0.0.0.0/udp/50000/quic-v1"));
    assert!(parse_address(EPHEMERAL_LISTEN_ADDR).is_ok());
    assert!(parse_address(BOOT_DIAL_ADDR).is_ok());
    assert!(matches!(parse_address("ip4/1.2.3.4"), Err(StartError::Address)));
}

#[test]
fn bootstrap_identity_comes_from_the_configured_key() {
    let first = node_identity(Role::Bootstrap, INSECURE_DEFAULT_BOOT_KEY).unwrap();
    let second = node_identity(Role::Bootstrap, INSECURE_DEFAULT_BOOT_KEY).unwrap();
    assert_eq!(first.public().to_peer_id(), second.public().to_peer_id());
    assert!(matches!(node_identity(Role::Bootstrap, "not base64!"), Err(StartError::BootKeyEncoding)));
    assert!(matches!(node_identity(Role::Bootstrap, "AAAA"), Err(StartError::BootKey)));
}

#[test]
fn regular_identity_is_fresh() {
    let a = node_identity(Role::Regular, "").unwrap();
    let b = node_identity(Role::Regular, "").unwrap();
    assert_ne!(a.public().to_peer_id(), b.public().to_peer_id());
}

#[test]
fn discover_records_a_fresh_query_per_request() {
    let mut engine = routing_engine();
    let mut pending: PendingQueries<u32> = PendingQueries::new();
    let first = pending.discover(&mut engine, 1).unwrap();
    let second = pending.discover(&mut engine, 2).unwrap();
    assert_ne!(first, second);
    assert_eq!(pending.len(), 2);
    assert!(pending.contains(&first) && pending.contains(&second));
    let (got, _) = reply_of(pending.handle_event(finished(first, None)));
    assert_eq!(got, 1);
    assert!(pending.contains(&second));
}
