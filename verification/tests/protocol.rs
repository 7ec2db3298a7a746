use udp_tracker::protocol::{
    Action, AnnounceEvent, AnnounceRequest, AnnounceResponse, ConnectRequest, ConnectResponse,
    ConnectionID, ParseError, PeerV4, Request, RequestHeader, ScrapeInfo, ScrapeRequest,
    ScrapeResponse, TransactionID, PROTOCOL_MAGIC,
};

#[test]
fn parse_connect() {
    let bytes = [
        0x00, 0x00, 0x04, 0x17, 0x27, 0x10, 0x19, 0x80, 0x00, 0x00, 0x00, 0x00, 0x00, 0x00, 0x00,
        0x10,
    ];
    let request = Request::from_bytes(&bytes);
    let connect_request = Request::Connect(ConnectRequest {
        connection_id: ConnectionID(0x41727101980),
        transaction_id: TransactionID(16),
    });
    assert_eq!(request, Ok(connect_request));
}

#[test]
fn parse_announce() {
    let bytes = [
        1, 2, 3, 4, 5, 6, 7, 8, 0, 0, 0, 1, 1, 2, 3, 4, 1, 1, 1, 1, 1, 1, 1, 1, 1, 1, 1, 1, 1, 1,
        1, 1, 1, 1, 1, 1, 2, 2, 2, 2, 2, 2, 2, 2, 2, 2, 2, 2, 2, 2, 2, 2, 2, 2, 2, 2, 0, 0, 0, 0,
        0, 0, 0, 1, 0, 0, 0, 0, 0, 0, 0, 1, 0, 0, 0, 0, 0, 0, 0, 1, 0, 0, 0, 0, 0, 0, 0, 0, 0, 0,
        0, 1, 0, 0, 0, 1, 0, 1,
    ];
    let request = Request::from_bytes(&bytes);
    let announce_request = Request::Announce(AnnounceRequest {
        connection_id: ConnectionID(0x102030405060708),
        transaction_id: TransactionID(0x1020304),
        info_hash: [1; 20],
        peer_id: [2; 20],
        downloaded: 1,
        left: 1,
        uploaded: 1,
        event: AnnounceEvent::Nothing,
        ip: 0,
        key: 1,
        num_want: 1,
        port: 1,
    });
    assert_eq!(request, Ok(announce_request));
}

#[test]
fn parse_scrape() {
    let bytes = [
        1, 2, 3, 4, 5, 6, 7, 8, 0, 0, 0, 2, 1, 2, 3, 4, 1, 1, 1, 1, 1, 1, 1, 1, 1, 1, 1, 1, 1, 1,
        1, 1, 1, 1, 1, 1, 2, 2, 2, 2, 2, 2, 2, 2, 2, 2, 2, 2, 2, 2, 2, 2, 2, 2, 2, 2,
    ];
    let request = Request::from_bytes(&bytes);
    let scrape_request = Request::Scrape(ScrapeRequest {
        connection_id: ConnectionID(0x102030405060708),
        transaction_id: TransactionID(0x1020304),
        info_hashes: vec![[1; 20], [2; 20]],
    });
    assert_eq!(request, Ok(scrape_request));
}

#[test]
fn parse_header_short_buffer() {
    let bytes = [0u8; 11];
    assert_eq!(
        RequestHeader::from_bytes(&bytes),
        Err(ParseError::InsufficientBytes)
    );
    assert_eq!(Request::from_bytes(&bytes), Err(ParseError::InsufficientBytes));
}

#[test]
fn parse_connect_one_byte_short() {
    // 15 bytes: enough for the header, one short of a connect request
    let mut bytes = vec![0u8; 15];
    bytes[11] = 0; // action = Connect
    assert_eq!(Request::from_bytes(&bytes), Err(ParseError::InsufficientBytes));
}

#[test]
fn parse_announce_one_byte_short() {
    let mut bytes = vec![0u8; 97];
    bytes[11] = 1; // action = Announce
    assert_eq!(Request::from_bytes(&bytes), Err(ParseError::InsufficientBytes));
}

#[test]
fn parse_scrape_ragged_tail() {
    // 16 + 19 bytes: not an exact multiple of 20 after the prefix
    let mut bytes = vec![0u8; 35];
    bytes[11] = 2; // action = Scrape
    assert_eq!(Request::from_bytes(&bytes), Err(ParseError::InsufficientBytes));
}

#[test]
fn parse_scrape_empty_hash_list() {
    let mut bytes = vec![0u8; 16];
    bytes[11] = 2; // action = Scrape
    let request = Request::from_bytes(&bytes);
    let scrape_request = Request::Scrape(ScrapeRequest {
        connection_id: ConnectionID(0),
        transaction_id: TransactionID(0),
        info_hashes: vec![],
    });
    assert_eq!(request, Ok(scrape_request));
}

#[test]
fn parse_unknown_action() {
    let mut bytes = vec![0u8; 16];
    bytes[11] = 7;
    assert_eq!(Request::from_bytes(&bytes), Err(ParseError::UnknownAction));
    assert_eq!(Action::from_i32(7), Err(ParseError::UnknownAction));
}

#[test]
fn parse_unknown_announce_event() {
    let mut bytes = vec![0u8; 98];
    bytes[11] = 1; // action = Announce
    bytes[83] = 9; // event = 9, unknown
    assert_eq!(Request::from_bytes(&bytes), Err(ParseError::UnknownAnnounceEvent));
    assert_eq!(AnnounceEvent::from_i32(9), Err(ParseError::UnknownAnnounceEvent));
}

#[test]
fn connect_request_round_trip() {
    let request = ConnectRequest {
        connection_id: ConnectionID(PROTOCOL_MAGIC),
        transaction_id: TransactionID(0),
    };
    let mut buf: Vec<u8> = Vec::new();
    let written = request.write(&mut buf);
    assert_eq!(written, 16);
    assert_eq!(buf.len(), 16);
    assert_eq!(
        Request::from_bytes(&buf),
        Ok(Request::Connect(request))
    );
}

#[test]
fn announce_request_round_trip_boundary_values() {
    let request = AnnounceRequest {
        connection_id: ConnectionID(-1),
        transaction_id: TransactionID(0),
        info_hash: [0xFF; 20],
        peer_id: [0x00; 20],
        downloaded: i64::MIN,
        left: i64::MAX,
        uploaded: -1,
        event: AnnounceEvent::Stopped,
        ip: 0xFFFFFFFF,
        key: 0,
        num_want: -1,
        port: 0xFFFF,
    };
    let mut buf: Vec<u8> = Vec::new();
    let written = request.write(&mut buf);
    assert_eq!(written, 98);
    assert_eq!(
        Request::from_bytes(&buf),
        Ok(Request::Announce(request))
    );
}

#[test]
fn scrape_request_round_trip() {
    let request = ScrapeRequest {
        connection_id: ConnectionID(77),
        transaction_id: TransactionID(-5),
        info_hashes: vec![[0x00; 20], [0xFF; 20], [0xAB; 20]],
    };
    let mut buf: Vec<u8> = Vec::new();
    let written = request.write(&mut buf);
    assert_eq!(written, 16 + 3 * 20);
    assert_eq!(
        Request::from_bytes(&buf),
        Ok(Request::Scrape(request))
    );
}

#[test]
fn connect_response_round_trip() {
    let response = ConnectResponse {
        transaction_id: TransactionID(16),
        connection_id: ConnectionID(-99),
    };
    let mut buf: Vec<u8> = Vec::new();
    let written = response.write(&mut buf);
    assert_eq!(written, 16);
    assert_eq!(ConnectResponse::from_bytes(&buf), Ok(response));
}

#[test]
fn announce_response_round_trip() {
    let response = AnnounceResponse {
        transaction_id: TransactionID(3),
        interval: 900,
        leechers: 2,
        seeders: 5,
        peers: vec![
            PeerV4 { ip: 0x7F000001, port: 6881 },
            PeerV4 { ip: 0xC0A80001, port: 51413 },
        ],
    };
    let mut buf: Vec<u8> = Vec::new();
    let written = response.write(&mut buf);
    assert_eq!(written, 20 + 2 * 6);
    assert_eq!(AnnounceResponse::from_bytes(&buf), Ok(response));
}

#[test]
fn scrape_response_round_trip() {
    let response = ScrapeResponse {
        transaction_id: TransactionID(8),
        scrapes: vec![
            ScrapeInfo { seeders: 3, completed: 5, leechers: 2 },
            ScrapeInfo { seeders: 0, completed: 0, leechers: 0 },
        ],
    };
    let mut buf: Vec<u8> = Vec::new();
    let written = response.write(&mut buf);
    assert_eq!(written, 8 + 2 * 12);
    assert_eq!(ScrapeResponse::from_bytes(&buf), Ok(response));
}

#[test]
fn announce_response_wire_layout() {
    // fixed expected bytes: action 1, tid 7, interval 900, counters, one peer
    let response = AnnounceResponse {
        transaction_id: TransactionID(7),
        interval: 900,
        leechers: 1,
        seeders: 2,
        peers: vec![PeerV4 { ip: 0x01020304, port: 0x0506 }],
    };
    let mut buf: Vec<u8> = Vec::new();
    response.write(&mut buf);
    let expected: Vec<u8> = vec![
        0, 0, 0, 1, // action
        0, 0, 0, 7, // transaction id
        0, 0, 3, 0x84, // interval 900
        0, 0, 0, 1, // leechers
        0, 0, 0, 2, // seeders
        1, 2, 3, 4, 5, 6, // peer
    ];
    assert_eq!(buf, expected);
}

#[test]
fn magic_id_check() {
    assert!(ConnectionID(PROTOCOL_MAGIC).is_magic_id());
    assert!(ConnectionID(0x41727101980).is_magic_id());
    assert!(!ConnectionID(0).is_magic_id());
    assert!(!ConnectionID(0x41727101981).is_magic_id());
}

#[test]
fn scrape_info_empty_is_zero() {
    let info = ScrapeInfo::empty();
    assert_eq!(info, ScrapeInfo { seeders: 0, completed: 0, leechers: 0 });
}
