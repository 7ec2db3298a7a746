use udp_tracker::protocol::{
    AnnounceEvent, AnnounceRequest, ConnectRequest, ConnectionID, PeerV4, Request, ScrapeRequest,
    TransactionID, PROTOCOL_MAGIC,
};
use udp_tracker::tracker::{PeerAddr, PeerV6, TorrentInfo, Tracker};

fn addr_a() -> PeerAddr {
    PeerAddr::V4(PeerV4 { ip: 0x0A000001, port: 6881 })
}

fn addr_b() -> PeerAddr {
    PeerAddr::V4(PeerV4 { ip: 0x0A000002, port: 6882 })
}

fn connect(tracker: &mut Tracker, src: PeerAddr) -> ConnectionID {
    let request = ConnectRequest {
        connection_id: ConnectionID(PROTOCOL_MAGIC),
        transaction_id: TransactionID(1),
    };
    let response = tracker
        .handle_connect(src, &request, ConnectionID(0x1234))
        .expect("a magic connect must be answered");
    response.connection_id
}

fn announce(cid: ConnectionID, hash: [u8; 20], event: AnnounceEvent) -> AnnounceRequest {
    AnnounceRequest {
        connection_id: cid,
        transaction_id: TransactionID(2),
        info_hash: hash,
        peer_id: [9; 20],
        downloaded: 0,
        left: 100,
        uploaded: 0,
        event,
        ip: 0,
        key: 0,
        num_want: -1,
        port: 6881,
    }
}

#[test]
fn connect_gate_rejects_wrong_magic() {
    let mut tracker = Tracker::new();
    let request = ConnectRequest {
        connection_id: ConnectionID(0xDEAD),
        transaction_id: TransactionID(1),
    };
    let response = tracker.handle_connect(addr_a(), &request, ConnectionID(7));
    assert_eq!(response, None);
    // the failed connect registered nothing: an announce with the offered id is refused
    let req = announce(ConnectionID(7), [1; 20], AnnounceEvent::Started);
    assert!(tracker.handle_announce(addr_a(), &req).is_none());
}

#[test]
fn connect_issues_fresh_id_and_echoes_transaction() {
    let mut tracker = Tracker::new();
    let request = ConnectRequest {
        connection_id: ConnectionID(PROTOCOL_MAGIC),
        transaction_id: TransactionID(0x55AA),
    };
    let response = tracker
        .handle_connect(addr_a(), &request, ConnectionID(0x7777))
        .expect("magic connect");
    assert_eq!(response.transaction_id, TransactionID(0x55AA));
    assert_eq!(response.connection_id, ConnectionID(0x7777));
}

#[test]
fn unauthorized_announce_is_dropped() {
    let mut tracker = Tracker::new();
    // never connected
    let req = announce(ConnectionID(1), [1; 20], AnnounceEvent::Started);
    assert!(tracker.handle_announce(addr_a(), &req).is_none());
    // connected, but claiming a mismatched id
    let cid = connect(&mut tracker, addr_a());
    let req = announce(ConnectionID(cid.0.wrapping_add(1)), [1; 20], AnnounceEvent::Started);
    assert!(tracker.handle_announce(addr_a(), &req).is_none());
    // and no swarm state was created by either attempt
    let scrape_cid = connect(&mut tracker, addr_b());
    let scrape = ScrapeRequest {
        connection_id: scrape_cid,
        transaction_id: TransactionID(3),
        info_hashes: vec![[1; 20]],
    };
    let response = tracker.handle_scrape(addr_b(), &scrape).expect("authorized scrape");
    assert_eq!(response.scrapes.len(), 1);
    assert_eq!(response.scrapes[0].seeders, 0);
    assert_eq!(response.scrapes[0].completed, 0);
    assert_eq!(response.scrapes[0].leechers, 0);
}

#[test]
fn unauthorized_scrape_is_dropped() {
    let tracker = Tracker::new();
    let scrape = ScrapeRequest {
        connection_id: ConnectionID(5),
        transaction_id: TransactionID(3),
        info_hashes: vec![[1; 20]],
    };
    assert!(tracker.handle_scrape(addr_a(), &scrape).is_none());
}

#[test]
fn swarm_lifecycle() {
    let mut tracker = Tracker::new();
    let hash = [7; 20];

    // peer A starts: first announce creates the swarm with one seeder
    let cid_a = connect(&mut tracker, addr_a());
    let resp = tracker
        .handle_announce(addr_a(), &announce(cid_a, hash, AnnounceEvent::Started))
        .expect("authorized");
    assert_eq!(resp.seeders, 1);
    assert_eq!(resp.leechers, 0);
    assert_eq!(resp.interval, 900);

    // a second, distinct peer B starts: one new leecher
    let cid_b = connect(&mut tracker, addr_b());
    let resp = tracker
        .handle_announce(addr_b(), &announce(cid_b, hash, AnnounceEvent::Started))
        .expect("authorized");
    assert_eq!(resp.seeders, 1);
    assert_eq!(resp.leechers, 1);

    // peer A completes: leecher becomes seeder, one completion recorded
    let resp = tracker
        .handle_announce(addr_a(), &announce(cid_a, hash, AnnounceEvent::Completed))
        .expect("authorized");
    assert_eq!(resp.seeders, 2);
    assert_eq!(resp.leechers, 0);
    let scrape = ScrapeRequest {
        connection_id: cid_a,
        transaction_id: TransactionID(4),
        info_hashes: vec![hash],
    };
    let response = tracker.handle_scrape(addr_a(), &scrape).expect("authorized");
    assert_eq!(response.scrapes[0].completed, 1);
}

#[test]
fn scrape_aggregation_known_and_unknown() {
    let known = [1; 20];
    let unknown = [2; 20];
    let tracker = Tracker {
        connections: vec![(addr_a(), ConnectionID(42))],
        torrents: vec![(
            known,
            TorrentInfo { leechers: 2, completed: 5, seeders: 3, peers: vec![] },
        )],
    };
    let scrape = ScrapeRequest {
        connection_id: ConnectionID(42),
        transaction_id: TransactionID(6),
        info_hashes: vec![known, unknown],
    };
    let response = tracker.handle_scrape(addr_a(), &scrape).expect("authorized");
    assert_eq!(response.transaction_id, TransactionID(6));
    assert_eq!(response.scrapes.len(), 2);
    assert_eq!(response.scrapes[0].seeders, 3);
    assert_eq!(response.scrapes[0].completed, 5);
    assert_eq!(response.scrapes[0].leechers, 2);
    assert_eq!(response.scrapes[1].seeders, 0);
    assert_eq!(response.scrapes[1].completed, 0);
    assert_eq!(response.scrapes[1].leechers, 0);
}

#[test]
fn repeated_started_announces_are_idempotent() {
    let mut tracker = Tracker::new();
    let hash = [3; 20];
    let cid_a = connect(&mut tracker, addr_a());
    let cid_b = connect(&mut tracker, addr_b());
    tracker
        .handle_announce(addr_a(), &announce(cid_a, hash, AnnounceEvent::Started))
        .expect("authorized");
    let first = tracker
        .handle_announce(addr_b(), &announce(cid_b, hash, AnnounceEvent::Started))
        .expect("authorized");
    assert_eq!(first.leechers, 1);
    // keep-alive repeats from B never push leechers past the first insertion
    for _ in 0..3 {
        let again = tracker
            .handle_announce(addr_b(), &announce(cid_b, hash, AnnounceEvent::Started))
            .expect("authorized");
        assert_eq!(again.leechers, 1);
        assert_eq!(again.seeders, 1);
        assert_eq!(again.peers, first.peers);
    }
}

#[test]
fn ipv6_peer_is_accepted_but_never_registered() {
    let mut tracker = Tracker::new();
    let v6 = PeerAddr::V6(PeerV6 { ip_hi: 0x20010DB800000000, ip_lo: 1, port: 6881 });
    let request = ConnectRequest {
        connection_id: ConnectionID(PROTOCOL_MAGIC),
        transaction_id: TransactionID(1),
    };
    let cid = tracker
        .handle_connect(v6, &request, ConnectionID(11))
        .expect("magic connect")
        .connection_id;
    let resp = tracker
        .handle_announce(v6, &announce(cid, [4; 20], AnnounceEvent::Started))
        .expect("authorized");
    // the swarm record exists but the v6 peer was not registered
    assert_eq!(resp.seeders, 0);
    assert_eq!(resp.leechers, 0);
    assert!(resp.peers.is_empty());
}

#[test]
fn reconnect_overwrites_the_issued_id() {
    let mut tracker = Tracker::new();
    let request = ConnectRequest {
        connection_id: ConnectionID(PROTOCOL_MAGIC),
        transaction_id: TransactionID(1),
    };
    let first = tracker.handle_connect(addr_a(), &request, ConnectionID(100)).unwrap();
    let second = tracker.handle_connect(addr_a(), &request, ConnectionID(200)).unwrap();
    assert_eq!(first.connection_id, ConnectionID(100));
    assert_eq!(second.connection_id, ConnectionID(200));
    // the old id is now stale
    let stale = announce(ConnectionID(100), [1; 20], AnnounceEvent::Started);
    assert!(tracker.handle_announce(addr_a(), &stale).is_none());
    let live = announce(ConnectionID(200), [1; 20], AnnounceEvent::Started);
    assert!(tracker.handle_announce(addr_a(), &live).is_some());
}

#[test]
fn process_datagram_connect_and_garbage() {
    let mut tracker = Tracker::new();
    let request = Request::Connect(ConnectRequest {
        connection_id: ConnectionID(PROTOCOL_MAGIC),
        transaction_id: TransactionID(0x0102_0304),
    });
    let mut datagram: Vec<u8> = Vec::new();
    request.write(&mut datagram);
    let reply = tracker
        .process_datagram(addr_a(), &datagram)
        .expect("a magic connect datagram is answered");
    assert_eq!(reply.len(), 16);
    // action 0, then the echoed transaction id
    assert_eq!(&reply[0..4], &[0, 0, 0, 0]);
    assert_eq!(&reply[4..8], &[1, 2, 3, 4]);

    // a truncated datagram is dropped without a reply
    assert_eq!(tracker.process_datagram(addr_a(), &datagram[..11]), None);
    // a wrong-magic connect is dropped without a reply
    let bad = Request::Connect(ConnectRequest {
        connection_id: ConnectionID(1),
        transaction_id: TransactionID(1),
    });
    let mut bad_bytes: Vec<u8> = Vec::new();
    bad.write(&mut bad_bytes);
    assert_eq!(tracker.process_datagram(addr_a(), &bad_bytes), None);
}

#[test]
fn stopped_decrements_leechers_without_removing_the_peer() {
    let mut tracker = Tracker::new();
    let hash = [8; 20];
    let cid_a = connect(&mut tracker, addr_a());
    let cid_b = connect(&mut tracker, addr_b());
    tracker
        .handle_announce(addr_a(), &announce(cid_a, hash, AnnounceEvent::Started))
        .expect("authorized");
    let joined = tracker
        .handle_announce(addr_b(), &announce(cid_b, hash, AnnounceEvent::Started))
        .expect("authorized");
    assert_eq!(joined.leechers, 1);
    assert_eq!(joined.peers.len(), 2);
    let stopped = tracker
        .handle_announce(addr_b(), &announce(cid_b, hash, AnnounceEvent::Stopped))
        .expect("authorized");
    assert_eq!(stopped.leechers, 0);
    // the address stays in the peer set by design
    assert_eq!(stopped.peers.len(), 2);
}
