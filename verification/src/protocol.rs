//! The wire codec: length-checked conversion between raw datagrams and typed
//! protocol messages.
//!
//! All multi-byte integers are big-endian. Every decoder rejects input that is
//! shorter than the layout requires with [`ParseError::InsufficientBytes`]
//! instead of reading out of bounds. Each message type has a specification-
//! level parser and encoder, and the executable code is proved to match them;
//! the round-trip lemmas at the end of the module show that decoding an
//! encoded message yields the message back.

use vstd::prelude::*;
use vstd::slice::slice_subrange;

use crate::wire::{
    lemma_i32_be_round_trip, lemma_i64_be_round_trip, lemma_u16_be_round_trip,
    lemma_u32_be_round_trip, read_i32, read_i64, read_u16, read_u32, spec_i32_from_be,
    spec_i32_to_be, spec_i64_from_be, spec_i64_to_be, spec_u16_from_be, spec_u16_to_be,
    spec_u32_from_be, spec_u32_to_be, write_i32, write_i64, write_u16, write_u32,
};

verus! {

/// The connection-id value a Connect request must carry.
pub const PROTOCOL_MAGIC: i64 = 0x41727101980;

/// The ways a datagram can fail to decode.
#[derive(Debug, Clone, Copy, PartialEq, Eq, Structural)]
pub enum ParseError {
    /// The action field held an unknown value
    UnknownAction,
    /// The announce event field held an unknown value
    UnknownAnnounceEvent,
    /// The byte size for the data was insufficient
    InsufficientBytes,
}

/// A specialized `Result` for parse errors
pub type ParseResult<T> = Result<T, ParseError>;

/// Communicates the client's intent to the tracker.
#[derive(Debug, Clone, Copy, PartialEq, Eq, Structural)]
pub enum Action {
    /// The client wishes to connect to the tracker
    Connect,
    /// The client wants announce information from the tracker
    Announce,
    /// The client wants to scrape from the tracker
    Scrape,
}

/// The transaction ID chosen by the client, echoed verbatim in the response.
#[derive(Debug, Copy, Clone, PartialEq, Eq, Structural)]
pub struct TransactionID(pub i32);

/// A random ID used to confirm the identity of the client.
#[derive(Debug, Copy, Clone, PartialEq, Eq, Structural)]
pub struct ConnectionID(pub i64);

impl ConnectionID {
    /// True iff this is the fixed protocol magic a Connect request must carry.
    pub fn is_magic_id(&self) -> (r: bool)
        ensures
            r == (self.0 == PROTOCOL_MAGIC),
    {
        self.0 == PROTOCOL_MAGIC
    }
}

/// An IPv4 peer endpoint as it appears on the wire: 4 address bytes, 2 port bytes.
#[derive(Debug, Copy, Clone, PartialEq, Eq, Structural)]
pub struct PeerV4 {
    pub ip: u32,
    pub port: u16,
}

/// The shared 12-byte prefix of every request.
#[derive(Debug, Clone, Copy, PartialEq, Eq, Structural)]
pub struct RequestHeader {
    pub connection_id: ConnectionID,
    pub action: Action,
}

/// An initial handshake request from the client.
#[derive(Debug, Clone, Copy, PartialEq, Eq, Structural)]
pub struct ConnectRequest {
    /// Carries the magic value when the client plays by the rules
    pub connection_id: ConnectionID,
    /// The transaction ID identifying this exchange
    pub transaction_id: TransactionID,
}

/// The tracker's response to a `ConnectRequest`.
#[derive(Debug, Clone, Copy, PartialEq, Eq, Structural)]
pub struct ConnectResponse {
    /// The transaction ID identifying the client
    pub transaction_id: TransactionID,
    /// The freshly issued ID for this connection
    pub connection_id: ConnectionID,
}

/// The lifecycle event reported in an announce.
#[derive(Debug, Clone, Copy, PartialEq, Eq, Structural)]
pub enum AnnounceEvent {
    /// Nothing new to report
    Nothing,
    /// The client has successfully downloaded the file
    Completed,
    /// The client has started to download the file
    Started,
    /// The client has stopped downloading the file
    Stopped,
}

/// A request to join or refresh membership in a swarm.
#[derive(Debug, Clone, PartialEq)]
pub struct AnnounceRequest {
    /// The ID identifying this connection
    pub connection_id: ConnectionID,
    /// The ID identifying this transaction
    pub transaction_id: TransactionID,
    /// Any bytes are valid for the info hash
    pub info_hash: [u8; 20],
    /// The ID the peer wishes to use
    pub peer_id: [u8; 20],
    /// How many bytes the client has downloaded
    pub downloaded: i64,
    /// How many bytes the client has left to download
    pub left: i64,
    /// How many bytes the client has uploaded this session
    pub uploaded: i64,
    /// The event the client is reporting
    pub event: AnnounceEvent,
    /// The 4-byte IP address the client would like us to use
    pub ip: u32,
    /// A 4-byte key to help identify the user
    pub key: u32,
    /// The number of peers to send to the client; negative means no preference
    pub num_want: i32,
    /// The port the client would like us to use
    pub port: u16,
}

/// The mathematical model of an [`AnnounceRequest`].
#[verifier::ext_equal]
pub ghost struct AnnounceRequestModel {
    pub connection_id: ConnectionID,
    pub transaction_id: TransactionID,
    pub info_hash: Seq<u8>,
    pub peer_id: Seq<u8>,
    pub downloaded: i64,
    pub left: i64,
    pub uploaded: i64,
    pub event: AnnounceEvent,
    pub ip: u32,
    pub key: u32,
    pub num_want: i32,
    pub port: u16,
}

impl AnnounceRequestModel {
    /// Both raw-byte identifiers have their fixed 20-byte width.
    pub open spec fn wf(self) -> bool {
        self.info_hash.len() == 20 && self.peer_id.len() == 20
    }
}

impl View for AnnounceRequest {
    type V = AnnounceRequestModel;

    open spec fn view(&self) -> AnnounceRequestModel {
        AnnounceRequestModel {
            connection_id: self.connection_id,
            transaction_id: self.transaction_id,
            info_hash: self.info_hash@,
            peer_id: self.peer_id@,
            downloaded: self.downloaded,
            left: self.left,
            uploaded: self.uploaded,
            event: self.event,
            ip: self.ip,
            key: self.key,
            num_want: self.num_want,
            port: self.port,
        }
    }
}

/// A client's request for the statistics of a list of swarms.
#[derive(Debug, Clone, PartialEq)]
pub struct ScrapeRequest {
    /// The ID identifying this connection
    pub connection_id: ConnectionID,
    /// The ID identifying this transaction
    pub transaction_id: TransactionID,
    /// Info hashes to scrape
    pub info_hashes: Vec<[u8; 20]>,
}

/// The sequence of 20-byte identifiers held in a list of info hashes.
pub open spec fn hash_list_view(v: Seq<[u8; 20]>) -> Seq<Seq<u8>> {
    v.map_values(|h: [u8; 20]| h@)
}

/// The mathematical model of a [`ScrapeRequest`].
#[verifier::ext_equal]
pub ghost struct ScrapeRequestModel {
    pub connection_id: ConnectionID,
    pub transaction_id: TransactionID,
    pub info_hashes: Seq<Seq<u8>>,
}

impl ScrapeRequestModel {
    /// Every requested identifier has its fixed 20-byte width.
    pub open spec fn wf(self) -> bool {
        forall|k: int| 0 <= k < self.info_hashes.len() ==> (#[trigger] self.info_hashes[k]).len() == 20
    }
}

impl View for ScrapeRequest {
    type V = ScrapeRequestModel;

    open spec fn view(&self) -> ScrapeRequestModel {
        ScrapeRequestModel {
            connection_id: self.connection_id,
            transaction_id: self.transaction_id,
            info_hashes: hash_list_view(self.info_hashes@),
        }
    }
}

/// The different requests a client can make.
#[derive(Debug, Clone, PartialEq)]
pub enum Request {
    Connect(ConnectRequest),
    Announce(AnnounceRequest),
    Scrape(ScrapeRequest),
}

/// The mathematical model of a [`Request`].
#[verifier::ext_equal]
pub ghost enum RequestModel {
    Connect(ConnectRequest),
    Announce(AnnounceRequestModel),
    Scrape(ScrapeRequestModel),
}

impl RequestModel {
    pub open spec fn wf(self) -> bool {
        match self {
            RequestModel::Connect(_) => true,
            RequestModel::Announce(a) => a.wf(),
            RequestModel::Scrape(s) => s.wf(),
        }
    }
}

impl View for Request {
    type V = RequestModel;

    open spec fn view(&self) -> RequestModel {
        match self {
            Request::Connect(c) => RequestModel::Connect(*c),
            Request::Announce(a) => RequestModel::Announce(a@),
            Request::Scrape(s) => RequestModel::Scrape(s@),
        }
    }
}

/// Maps the `Ok` side of a parse result to its model.
pub open spec fn view_result<T: View>(r: Result<T, ParseError>) -> Result<T::V, ParseError> {
    match r {
        Ok(v) => Ok(v@),
        Err(e) => Err(e),
    }
}

// ---------------------------------------------------------------------------
// Specification-level parsers
// ---------------------------------------------------------------------------

/// Which action a decoded action number selects.
pub open spec fn spec_parse_action(n: i32) -> Result<Action, ParseError> {
    if n == 0 {
        Ok(Action::Connect)
    } else if n == 1 {
        Ok(Action::Announce)
    } else if n == 2 {
        Ok(Action::Scrape)
    } else {
        Err(ParseError::UnknownAction)
    }
}

/// Which announce event a decoded event number selects.
pub open spec fn spec_parse_event(n: i32) -> Result<AnnounceEvent, ParseError> {
    if n == 0 {
        Ok(AnnounceEvent::Nothing)
    } else if n == 1 {
        Ok(AnnounceEvent::Completed)
    } else if n == 2 {
        Ok(AnnounceEvent::Started)
    } else if n == 3 {
        Ok(AnnounceEvent::Stopped)
    } else {
        Err(ParseError::UnknownAnnounceEvent)
    }
}

/// The shared 12-byte request prefix: connection id, then action.
pub open spec fn spec_parse_header(s: Seq<u8>) -> Result<RequestHeader, ParseError> {
    if s.len() < 12 {
        Err(ParseError::InsufficientBytes)
    } else {
        match spec_parse_action(spec_i32_from_be(s.subrange(8, 12))) {
            Ok(action) => Ok(
                RequestHeader {
                    connection_id: ConnectionID(spec_i64_from_be(s.subrange(0, 8))),
                    action,
                },
            ),
            Err(e) => Err(e),
        }
    }
}

/// A connect request: the 12-byte header plus the transaction id.
pub open spec fn spec_parse_connect(cid: ConnectionID, s: Seq<u8>) -> Result<
    ConnectRequest,
    ParseError,
> {
    if s.len() < 16 {
        Err(ParseError::InsufficientBytes)
    } else {
        Ok(
            ConnectRequest {
                connection_id: cid,
                transaction_id: TransactionID(spec_i32_from_be(s.subrange(12, 16))),
            },
        )
    }
}

/// An announce request: header, transaction id, the two 20-byte identifiers,
/// the three byte counters, event, ip override, key, num_want and port.
pub open spec fn spec_parse_announce(cid: ConnectionID, s: Seq<u8>) -> Result<
    AnnounceRequestModel,
    ParseError,
> {
    if s.len() < 98 {
        Err(ParseError::InsufficientBytes)
    } else {
        match spec_parse_event(spec_i32_from_be(s.subrange(80, 84))) {
            Ok(event) => Ok(
                AnnounceRequestModel {
                    connection_id: cid,
                    transaction_id: TransactionID(spec_i32_from_be(s.subrange(12, 16))),
                    info_hash: s.subrange(16, 36),
                    peer_id: s.subrange(36, 56),
                    downloaded: spec_i64_from_be(s.subrange(56, 64)),
                    left: spec_i64_from_be(s.subrange(64, 72)),
                    uploaded: spec_i64_from_be(s.subrange(72, 80)),
                    event,
                    ip: spec_u32_from_be(s.subrange(84, 88)),
                    key: spec_u32_from_be(s.subrange(88, 92)),
                    num_want: spec_i32_from_be(s.subrange(92, 96)),
                    port: spec_u16_from_be(s.subrange(96, 98)),
                },
            ),
            Err(e) => Err(e),
        }
    }
}

/// Splits a trailing byte sequence into consecutive 20-byte info hashes.
pub open spec fn spec_parse_hash_list(s: Seq<u8>) -> Seq<Seq<u8>>
    decreases s.len(),
{
    if s.len() < 20 {
        seq![]
    } else {
        seq![s.subrange(0, 20)] + spec_parse_hash_list(s.skip(20))
    }
}

/// A scrape request: header, transaction id, then an exact multiple of
/// 20-byte info hashes.
pub open spec fn spec_parse_scrape(cid: ConnectionID, s: Seq<u8>) -> Result<
    ScrapeRequestModel,
    ParseError,
> {
    if s.len() < 16 || (s.len() - 16) % 20 != 0 {
        Err(ParseError::InsufficientBytes)
    } else {
        Ok(
            ScrapeRequestModel {
                connection_id: cid,
                transaction_id: TransactionID(spec_i32_from_be(s.subrange(12, 16))),
                info_hashes: spec_parse_hash_list(s.skip(16)),
            },
        )
    }
}

/// The full decode dispatch: header first, then the per-action parser.
pub open spec fn spec_parse_request(s: Seq<u8>) -> Result<RequestModel, ParseError> {
    match spec_parse_header(s) {
        Err(e) => Err(e),
        Ok(header) => match header.action {
            Action::Connect => match spec_parse_connect(header.connection_id, s) {
                Ok(c) => Ok(RequestModel::Connect(c)),
                Err(e) => Err(e),
            },
            Action::Announce => match spec_parse_announce(header.connection_id, s) {
                Ok(a) => Ok(RequestModel::Announce(a)),
                Err(e) => Err(e),
            },
            Action::Scrape => match spec_parse_scrape(header.connection_id, s) {
                Ok(sc) => Ok(RequestModel::Scrape(sc)),
                Err(e) => Err(e),
            },
        },
    }
}

// ---------------------------------------------------------------------------
// Executable decoders
// ---------------------------------------------------------------------------

impl Action {
    /// Decodes the 32-bit action number.
    pub fn from_i32(id: i32) -> (r: ParseResult<Action>)
        ensures
            r == spec_parse_action(id),
    {
        match id {
            0 => Ok(Action::Connect),
            1 => Ok(Action::Announce),
            2 => Ok(Action::Scrape),
            _ => Err(ParseError::UnknownAction),
        }
    }
}

impl AnnounceEvent {
    /// Decodes the 32-bit announce event number.
    pub fn from_i32(num: i32) -> (r: ParseResult<AnnounceEvent>)
        ensures
            r == spec_parse_event(num),
    {
        match num {
            0 => Ok(AnnounceEvent::Nothing),
            1 => Ok(AnnounceEvent::Completed),
            2 => Ok(AnnounceEvent::Started),
            3 => Ok(AnnounceEvent::Stopped),
            _ => Err(ParseError::UnknownAnnounceEvent),
        }
    }
}

/// Copies the 20 bytes starting at `offset` into a fresh info-hash array.
fn read_hash(bytes: &[u8], offset: usize) -> (r: [u8; 20])
    requires
        offset + 20 <= bytes@.len(),
    ensures
        r@ == bytes@.subrange(offset as int, offset + 20),
{
    let n = bytes.len();
    let mut hash: [u8; 20] = [0; 20];
    let mut i: usize = 0;
    while i < 20
        invariant
            i <= 20,
            offset + 20 <= n == bytes@.len(),
            forall|j: int| 0 <= j < i ==> hash@[j] == bytes@[offset + j],
        decreases 20 - i,
    {
        hash[i] = bytes[offset + i];
        i += 1;
    }
    proof {
        assert(hash@ =~= bytes@.subrange(offset as int, offset + 20));
    }
    hash
}

impl RequestHeader {
    /// Decodes the shared request prefix.
    pub fn from_bytes(bytes: &[u8]) -> (r: ParseResult<RequestHeader>)
        ensures
            r == spec_parse_header(bytes@),
    {
        if bytes.len() < 12 {
            return Err(ParseError::InsufficientBytes);
        }
        let connection_id = ConnectionID(read_i64(bytes));
        proof {
            assert(bytes@.subrange(0, 8).subrange(0, 8) =~= bytes@.subrange(0, 8));
        }
        let action_bytes = slice_subrange(bytes, 8, 12);
        proof {
            assert(action_bytes@.subrange(0, 4) =~= bytes@.subrange(8, 12));
        }
        let action = match Action::from_i32(read_i32(action_bytes)) {
            Ok(a) => a,
            Err(e) => {
                return Err(e);
            },
        };
        Ok(RequestHeader { connection_id, action })
    }
}

impl ConnectRequest {
    /// Decodes a connect request, given the already-decoded connection id.
    pub fn from_bytes(connection_id: ConnectionID, bytes: &[u8]) -> (r: ParseResult<
        ConnectRequest,
    >)
        ensures
            r == spec_parse_connect(connection_id, bytes@),
    {
        if bytes.len() < 16 {
            return Err(ParseError::InsufficientBytes);
        }
        let tid_bytes = slice_subrange(bytes, 12, 16);
        proof {
            assert(tid_bytes@.subrange(0, 4) =~= bytes@.subrange(12, 16));
        }
        let transaction_id = TransactionID(read_i32(tid_bytes));
        Ok(ConnectRequest { connection_id, transaction_id })
    }
}

impl AnnounceRequest {
    /// Decodes an announce request, given the already-decoded connection id.
    pub fn from_bytes(connection_id: ConnectionID, bytes: &[u8]) -> (r: ParseResult<
        AnnounceRequest,
    >)
        ensures
            view_result(r) == spec_parse_announce(connection_id, bytes@),
    {
        if bytes.len() < 98 {
            return Err(ParseError::InsufficientBytes);
        }
        let info_hash = read_hash(bytes, 16);
        let peer_id = read_hash(bytes, 36);
        let event_bytes = slice_subrange(bytes, 80, 84);
        proof {
            assert(event_bytes@.subrange(0, 4) =~= bytes@.subrange(80, 84));
        }
        let event = match AnnounceEvent::from_i32(read_i32(event_bytes)) {
            Ok(e) => e,
            Err(e) => {
                return Err(e);
            },
        };
        let tid_bytes = slice_subrange(bytes, 12, 16);
        let downloaded_bytes = slice_subrange(bytes, 56, 64);
        let left_bytes = slice_subrange(bytes, 64, 72);
        let uploaded_bytes = slice_subrange(bytes, 72, 80);
        let ip_bytes = slice_subrange(bytes, 84, 88);
        let key_bytes = slice_subrange(bytes, 88, 92);
        let num_want_bytes = slice_subrange(bytes, 92, 96);
        let port_bytes = slice_subrange(bytes, 96, 98);
        proof {
            assert(tid_bytes@.subrange(0, 4) =~= bytes@.subrange(12, 16));
            assert(downloaded_bytes@.subrange(0, 8) =~= bytes@.subrange(56, 64));
            assert(left_bytes@.subrange(0, 8) =~= bytes@.subrange(64, 72));
            assert(uploaded_bytes@.subrange(0, 8) =~= bytes@.subrange(72, 80));
            assert(ip_bytes@.subrange(0, 4) =~= bytes@.subrange(84, 88));
            assert(key_bytes@.subrange(0, 4) =~= bytes@.subrange(88, 92));
            assert(num_want_bytes@.subrange(0, 4) =~= bytes@.subrange(92, 96));
            assert(port_bytes@.subrange(0, 2) =~= bytes@.subrange(96, 98));
        }
        let r = AnnounceRequest {
            connection_id,
            transaction_id: TransactionID(read_i32(tid_bytes)),
            info_hash,
            peer_id,
            downloaded: read_i64(downloaded_bytes),
            left: read_i64(left_bytes),
            uploaded: read_i64(uploaded_bytes),
            event,
            ip: read_u32(ip_bytes),
            key: read_u32(key_bytes),
            num_want: read_i32(num_want_bytes),
            port: read_u16(port_bytes),
        };
        proof {
            let m = spec_parse_announce(connection_id, bytes@)->Ok_0;
            assert(r@ =~= m);
        }
        Ok(r)
    }
}

impl ScrapeRequest {
    /// Decodes a scrape request, given the already-decoded connection id.
    pub fn from_bytes(connection_id: ConnectionID, bytes: &[u8]) -> (r: ParseResult<
        ScrapeRequest,
    >)
        ensures
            view_result(r) == spec_parse_scrape(connection_id, bytes@),
    {
        let len = bytes.len();
        if len < 16 || (len - 16) % 20 != 0 {
            return Err(ParseError::InsufficientBytes);
        }
        let tid_bytes = slice_subrange(bytes, 12, 16);
        proof {
            assert(tid_bytes@.subrange(0, 4) =~= bytes@.subrange(12, 16));
        }
        let transaction_id = TransactionID(read_i32(tid_bytes));
        let count = (len - 16) / 20;
        proof {
            vstd::arithmetic::div_mod::lemma_fundamental_div_mod((len - 16) as int, 20);
        }
        let mut info_hashes: Vec<[u8; 20]> = Vec::new();
        let mut k: usize = 0;
        while k < count
            invariant
                k <= count,
                len == bytes@.len(),
                len - 16 == 20 * count,
                info_hashes@.len() == k,
                hash_list_view(info_hashes@) + spec_parse_hash_list(bytes@.skip(16 + 20 * k))
                    =~= spec_parse_hash_list(bytes@.skip(16)),
            decreases count - k,
        {
            let hash = read_hash(bytes, 16 + 20 * k);
            proof {
                let tail = bytes@.skip(16 + 20 * k);
                assert(tail.len() >= 20);
                assert(tail.subrange(0, 20) =~= bytes@.subrange(16 + 20 * k, 36 + 20 * k));
                assert(tail.skip(20) =~= bytes@.skip(16 + 20 * (k + 1)));
                assert(hash_list_view(info_hashes@.push(hash)) =~= hash_list_view(info_hashes@)
                    + seq![hash@]);
            }
            info_hashes.push(hash);
            k += 1;
        }
        proof {
            assert(bytes@.skip(16 + 20 * count).len() < 20);
            assert(hash_list_view(info_hashes@) + spec_parse_hash_list(
                bytes@.skip(16 + 20 * count),
            ) =~= hash_list_view(info_hashes@));
            let r = ScrapeRequest { connection_id, transaction_id, info_hashes };
            assert(r@ =~= spec_parse_scrape(connection_id, bytes@)->Ok_0);
        }
        Ok(ScrapeRequest { connection_id, transaction_id, info_hashes })
    }
}

impl Request {
    /// Decodes a whole datagram: the header, then the per-action layout.
    pub fn from_bytes(bytes: &[u8]) -> (r: ParseResult<Request>)
        ensures
            view_result(r) == spec_parse_request(bytes@),
    {
        let header = match RequestHeader::from_bytes(bytes) {
            Ok(h) => h,
            Err(e) => {
                return Err(e);
            },
        };
        match header.action {
            Action::Connect => match ConnectRequest::from_bytes(header.connection_id, bytes) {
                Ok(c) => Ok(Request::Connect(c)),
                Err(e) => Err(e),
            },
            Action::Announce => match AnnounceRequest::from_bytes(header.connection_id, bytes) {
                Ok(a) => Ok(Request::Announce(a)),
                Err(e) => Err(e),
            },
            Action::Scrape => match ScrapeRequest::from_bytes(header.connection_id, bytes) {
                Ok(s) => Ok(Request::Scrape(s)),
                Err(e) => Err(e),
            },
        }
    }
}


// ---------------------------------------------------------------------------
// Responses
// ---------------------------------------------------------------------------

/// The tracker's response to an announce: interval policy, counters, peers.
#[derive(Debug, Clone, PartialEq)]
pub struct AnnounceResponse {
    /// The transaction ID identifying the client
    pub transaction_id: TransactionID,
    /// Seconds the client should wait before the next announce
    pub interval: i32,
    /// How many peers in the swarm are still downloading
    pub leechers: i32,
    /// How many peers in the swarm hold the whole file
    pub seeders: i32,
    /// A sample of the swarm's peers
    pub peers: Vec<PeerV4>,
}

/// The mathematical model of an [`AnnounceResponse`].
#[verifier::ext_equal]
pub ghost struct AnnounceResponseModel {
    pub transaction_id: TransactionID,
    pub interval: i32,
    pub leechers: i32,
    pub seeders: i32,
    pub peers: Seq<PeerV4>,
}

impl View for AnnounceResponse {
    type V = AnnounceResponseModel;

    open spec fn view(&self) -> AnnounceResponseModel {
        AnnounceResponseModel {
            transaction_id: self.transaction_id,
            interval: self.interval,
            leechers: self.leechers,
            seeders: self.seeders,
            peers: self.peers@,
        }
    }
}

/// One swarm's statistics triple in a scrape response.
#[derive(Debug, Clone, Copy, PartialEq, Eq, Structural)]
pub struct ScrapeInfo {
    /// How many peers hold the whole file
    pub seeders: i32,
    /// How many downloads have completed
    pub completed: i32,
    /// How many peers are still downloading
    pub leechers: i32,
}

impl ScrapeInfo {
    /// The all-zero triple reported for a swarm the tracker has never seen.
    pub fn empty() -> (r: ScrapeInfo)
        ensures
            r == (ScrapeInfo { seeders: 0, completed: 0, leechers: 0 }),
    {
        ScrapeInfo { seeders: 0, completed: 0, leechers: 0 }
    }
}

/// The tracker's response to a scrape: one triple per requested hash.
#[derive(Debug, Clone, PartialEq)]
pub struct ScrapeResponse {
    /// The transaction ID identifying the client
    pub transaction_id: TransactionID,
    /// One entry per requested info hash, in request order
    pub scrapes: Vec<ScrapeInfo>,
}

/// The mathematical model of a [`ScrapeResponse`].
#[verifier::ext_equal]
pub ghost struct ScrapeResponseModel {
    pub transaction_id: TransactionID,
    pub scrapes: Seq<ScrapeInfo>,
}

impl View for ScrapeResponse {
    type V = ScrapeResponseModel;

    open spec fn view(&self) -> ScrapeResponseModel {
        ScrapeResponseModel { transaction_id: self.transaction_id, scrapes: self.scrapes@ }
    }
}

/// The different responses the tracker can send.
#[derive(Debug, Clone, PartialEq)]
pub enum Response {
    Connect(ConnectResponse),
    Announce(AnnounceResponse),
    Scrape(ScrapeResponse),
}

/// The mathematical model of a [`Response`].
#[verifier::ext_equal]
pub ghost enum ResponseModel {
    Connect(ConnectResponse),
    Announce(AnnounceResponseModel),
    Scrape(ScrapeResponseModel),
}

impl View for Response {
    type V = ResponseModel;

    open spec fn view(&self) -> ResponseModel {
        match self {
            Response::Connect(c) => ResponseModel::Connect(*c),
            Response::Announce(a) => ResponseModel::Announce(a@),
            Response::Scrape(s) => ResponseModel::Scrape(s@),
        }
    }
}

// ---------------------------------------------------------------------------
// Specification-level parsers for responses
// ---------------------------------------------------------------------------

/// A connect response: action 0, transaction id, fresh connection id.
pub open spec fn spec_parse_connect_resp(s: Seq<u8>) -> Result<ConnectResponse, ParseError> {
    if s.len() < 16 {
        Err(ParseError::InsufficientBytes)
    } else if spec_i32_from_be(s.subrange(0, 4)) != 0 {
        Err(ParseError::UnknownAction)
    } else {
        Ok(
            ConnectResponse {
                transaction_id: TransactionID(spec_i32_from_be(s.subrange(4, 8))),
                connection_id: ConnectionID(spec_i64_from_be(s.subrange(8, 16))),
            },
        )
    }
}

/// Splits a trailing byte sequence into consecutive 6-byte peer entries.
pub open spec fn spec_parse_peer_list(s: Seq<u8>) -> Seq<PeerV4>
    decreases s.len(),
{
    if s.len() < 6 {
        seq![]
    } else {
        seq![
            PeerV4 {
                ip: spec_u32_from_be(s.subrange(0, 4)),
                port: spec_u16_from_be(s.subrange(4, 6)),
            },
        ] + spec_parse_peer_list(s.skip(6))
    }
}

/// An announce response: action 1, transaction id, interval, the two
/// counters, then an exact multiple of 6-byte peer entries.
pub open spec fn spec_parse_announce_resp(s: Seq<u8>) -> Result<
    AnnounceResponseModel,
    ParseError,
> {
    if s.len() < 20 {
        Err(ParseError::InsufficientBytes)
    } else if spec_i32_from_be(s.subrange(0, 4)) != 1 {
        Err(ParseError::UnknownAction)
    } else if (s.len() - 20) % 6 != 0 {
        Err(ParseError::InsufficientBytes)
    } else {
        Ok(
            AnnounceResponseModel {
                transaction_id: TransactionID(spec_i32_from_be(s.subrange(4, 8))),
                interval: spec_i32_from_be(s.subrange(8, 12)),
                leechers: spec_i32_from_be(s.subrange(12, 16)),
                seeders: spec_i32_from_be(s.subrange(16, 20)),
                peers: spec_parse_peer_list(s.skip(20)),
            },
        )
    }
}

/// Splits a trailing byte sequence into consecutive 12-byte statistic triples.
pub open spec fn spec_parse_scrape_list(s: Seq<u8>) -> Seq<ScrapeInfo>
    decreases s.len(),
{
    if s.len() < 12 {
        seq![]
    } else {
        seq![
            ScrapeInfo {
                seeders: spec_i32_from_be(s.subrange(0, 4)),
                completed: spec_i32_from_be(s.subrange(4, 8)),
                leechers: spec_i32_from_be(s.subrange(8, 12)),
            },
        ] + spec_parse_scrape_list(s.skip(12))
    }
}

/// A scrape response: action 2, transaction id, then an exact multiple of
/// 12-byte statistic triples.
pub open spec fn spec_parse_scrape_resp(s: Seq<u8>) -> Result<ScrapeResponseModel, ParseError> {
    if s.len() < 8 {
        Err(ParseError::InsufficientBytes)
    } else if spec_i32_from_be(s.subrange(0, 4)) != 2 {
        Err(ParseError::UnknownAction)
    } else if (s.len() - 8) % 12 != 0 {
        Err(ParseError::InsufficientBytes)
    } else {
        Ok(
            ScrapeResponseModel {
                transaction_id: TransactionID(spec_i32_from_be(s.subrange(4, 8))),
                scrapes: spec_parse_scrape_list(s.skip(8)),
            },
        )
    }
}

// ---------------------------------------------------------------------------
// Executable decoders for responses
// ---------------------------------------------------------------------------

impl ConnectResponse {
    /// Decodes a connect response.
    pub fn from_bytes(bytes: &[u8]) -> (r: ParseResult<ConnectResponse>)
        ensures
            r == spec_parse_connect_resp(bytes@),
    {
        if bytes.len() < 16 {
            return Err(ParseError::InsufficientBytes);
        }
        let action_bytes = slice_subrange(bytes, 0, 4);
        let tid_bytes = slice_subrange(bytes, 4, 8);
        let cid_bytes = slice_subrange(bytes, 8, 16);
        proof {
            assert(action_bytes@.subrange(0, 4) =~= bytes@.subrange(0, 4));
            assert(tid_bytes@.subrange(0, 4) =~= bytes@.subrange(4, 8));
            assert(cid_bytes@.subrange(0, 8) =~= bytes@.subrange(8, 16));
        }
        if read_i32(action_bytes) != 0 {
            return Err(ParseError::UnknownAction);
        }
        Ok(
            ConnectResponse {
                transaction_id: TransactionID(read_i32(tid_bytes)),
                connection_id: ConnectionID(read_i64(cid_bytes)),
            },
        )
    }
}

impl AnnounceResponse {
    /// Decodes an announce response.
    pub fn from_bytes(bytes: &[u8]) -> (r: ParseResult<AnnounceResponse>)
        ensures
            view_result(r) == spec_parse_announce_resp(bytes@),
    {
        let len = bytes.len();
        if len < 20 {
            return Err(ParseError::InsufficientBytes);
        }
        let action_bytes = slice_subrange(bytes, 0, 4);
        proof {
            assert(action_bytes@.subrange(0, 4) =~= bytes@.subrange(0, 4));
        }
        if read_i32(action_bytes) != 1 {
            return Err(ParseError::UnknownAction);
        }
        if (len - 20) % 6 != 0 {
            return Err(ParseError::InsufficientBytes);
        }
        let tid_bytes = slice_subrange(bytes, 4, 8);
        let interval_bytes = slice_subrange(bytes, 8, 12);
        let leechers_bytes = slice_subrange(bytes, 12, 16);
        let seeders_bytes = slice_subrange(bytes, 16, 20);
        proof {
            assert(tid_bytes@.subrange(0, 4) =~= bytes@.subrange(4, 8));
            assert(interval_bytes@.subrange(0, 4) =~= bytes@.subrange(8, 12));
            assert(leechers_bytes@.subrange(0, 4) =~= bytes@.subrange(12, 16));
            assert(seeders_bytes@.subrange(0, 4) =~= bytes@.subrange(16, 20));
        }
        let count = (len - 20) / 6;
        proof {
            vstd::arithmetic::div_mod::lemma_fundamental_div_mod((len - 20) as int, 6);
        }
        let mut peers: Vec<PeerV4> = Vec::new();
        let mut k: usize = 0;
        while k < count
            invariant
                k <= count,
                len == bytes@.len(),
                len - 20 == 6 * count,
                peers@.len() == k,
                peers@ + spec_parse_peer_list(bytes@.skip(20 + 6 * k)) =~= spec_parse_peer_list(
                    bytes@.skip(20),
                ),
            decreases count - k,
        {
            let ip_bytes = slice_subrange(bytes, 20 + 6 * k, 24 + 6 * k);
            let port_bytes = slice_subrange(bytes, 24 + 6 * k, 26 + 6 * k);
            proof {
                let tail = bytes@.skip(20 + 6 * k);
                assert(tail.len() >= 6);
                assert(ip_bytes@.subrange(0, 4) =~= tail.subrange(0, 4));
                assert(port_bytes@.subrange(0, 2) =~= tail.subrange(4, 6));
                assert(tail.skip(6) =~= bytes@.skip(20 + 6 * (k + 1)));
            }
            let peer = PeerV4 { ip: read_u32(ip_bytes), port: read_u16(port_bytes) };
            proof {
                assert(peers@.push(peer) + spec_parse_peer_list(bytes@.skip(20 + 6 * (k + 1)))
                    =~= peers@ + spec_parse_peer_list(bytes@.skip(20 + 6 * k)));
            }
            peers.push(peer);
            k += 1;
        }
        proof {
            assert(bytes@.skip(20 + 6 * count).len() < 6);
            assert(peers@ + spec_parse_peer_list(bytes@.skip(20 + 6 * count)) =~= peers@);
        }
        let r = AnnounceResponse {
            transaction_id: TransactionID(read_i32(tid_bytes)),
            interval: read_i32(interval_bytes),
            leechers: read_i32(leechers_bytes),
            seeders: read_i32(seeders_bytes),
            peers,
        };
        proof {
            assert(r@ =~= spec_parse_announce_resp(bytes@)->Ok_0);
        }
        Ok(r)
    }
}

impl ScrapeResponse {
    /// Decodes a scrape response.
    pub fn from_bytes(bytes: &[u8]) -> (r: ParseResult<ScrapeResponse>)
        ensures
            view_result(r) == spec_parse_scrape_resp(bytes@),
    {
        let len = bytes.len();
        if len < 8 {
            return Err(ParseError::InsufficientBytes);
        }
        let action_bytes = slice_subrange(bytes, 0, 4);
        let tid_bytes = slice_subrange(bytes, 4, 8);
        proof {
            assert(action_bytes@.subrange(0, 4) =~= bytes@.subrange(0, 4));
            assert(tid_bytes@.subrange(0, 4) =~= bytes@.subrange(4, 8));
        }
        if read_i32(action_bytes) != 2 {
            return Err(ParseError::UnknownAction);
        }
        if (len - 8) % 12 != 0 {
            return Err(ParseError::InsufficientBytes);
        }
        let count = (len - 8) / 12;
        proof {
            vstd::arithmetic::div_mod::lemma_fundamental_div_mod((len - 8) as int, 12);
        }
        let mut scrapes: Vec<ScrapeInfo> = Vec::new();
        let mut k: usize = 0;
        while k < count
            invariant
                k <= count,
                len == bytes@.len(),
                len - 8 == 12 * count,
                scrapes@.len() == k,
                scrapes@ + spec_parse_scrape_list(bytes@.skip(8 + 12 * k))
                    =~= spec_parse_scrape_list(bytes@.skip(8)),
            decreases count - k,
        {
            let seeders_bytes = slice_subrange(bytes, 8 + 12 * k, 12 + 12 * k);
            let completed_bytes = slice_subrange(bytes, 12 + 12 * k, 16 + 12 * k);
            let leechers_bytes = slice_subrange(bytes, 16 + 12 * k, 20 + 12 * k);
            proof {
                let tail = bytes@.skip(8 + 12 * k);
                assert(tail.len() >= 12);
                assert(seeders_bytes@.subrange(0, 4) =~= tail.subrange(0, 4));
                assert(completed_bytes@.subrange(0, 4) =~= tail.subrange(4, 8));
                assert(leechers_bytes@.subrange(0, 4) =~= tail.subrange(8, 12));
                assert(tail.skip(12) =~= bytes@.skip(8 + 12 * (k + 1)));
            }
            let info = ScrapeInfo {
                seeders: read_i32(seeders_bytes),
                completed: read_i32(completed_bytes),
                leechers: read_i32(leechers_bytes),
            };
            proof {
                assert(scrapes@.push(info) + spec_parse_scrape_list(bytes@.skip(8 + 12 * (k + 1)))
                    =~= scrapes@ + spec_parse_scrape_list(bytes@.skip(8 + 12 * k)));
            }
            scrapes.push(info);
            k += 1;
        }
        proof {
            assert(bytes@.skip(8 + 12 * count).len() < 12);
            assert(scrapes@ + spec_parse_scrape_list(bytes@.skip(8 + 12 * count)) =~= scrapes@);
        }
        let r = ScrapeResponse { transaction_id: TransactionID(read_i32(tid_bytes)), scrapes };
        proof {
            assert(r@ =~= spec_parse_scrape_resp(bytes@)->Ok_0);
        }
        Ok(r)
    }
}


// ---------------------------------------------------------------------------
// Specification-level encoders
// ---------------------------------------------------------------------------

/// The wire number of each announce event.
pub open spec fn spec_event_number(e: AnnounceEvent) -> i32 {
    match e {
        AnnounceEvent::Nothing => 0,
        AnnounceEvent::Completed => 1,
        AnnounceEvent::Started => 2,
        AnnounceEvent::Stopped => 3,
    }
}

/// The shared 16-byte request prefix: connection id, action, transaction id.
pub open spec fn spec_encode_request_prefix(
    cid: ConnectionID,
    action: i32,
    tid: TransactionID,
) -> Seq<u8> {
    spec_i64_to_be(cid.0) + spec_i32_to_be(action) + spec_i32_to_be(tid.0)
}

pub open spec fn spec_encode_connect_req(m: ConnectRequest) -> Seq<u8> {
    spec_encode_request_prefix(m.connection_id, 0, m.transaction_id)
}

pub open spec fn spec_encode_announce_req(m: AnnounceRequestModel) -> Seq<u8> {
    spec_encode_request_prefix(m.connection_id, 1, m.transaction_id) + m.info_hash + m.peer_id
        + spec_i64_to_be(m.downloaded) + spec_i64_to_be(m.left) + spec_i64_to_be(m.uploaded)
        + spec_i32_to_be(spec_event_number(m.event)) + spec_u32_to_be(m.ip) + spec_u32_to_be(m.key)
        + spec_i32_to_be(m.num_want) + spec_u16_to_be(m.port)
}

/// Concatenates a list of 20-byte info hashes.
pub open spec fn spec_encode_hash_list(hs: Seq<Seq<u8>>) -> Seq<u8>
    decreases hs.len(),
{
    if hs.len() == 0 {
        seq![]
    } else {
        hs[0] + spec_encode_hash_list(hs.drop_first())
    }
}

pub open spec fn spec_encode_scrape_req(m: ScrapeRequestModel) -> Seq<u8> {
    spec_encode_request_prefix(m.connection_id, 2, m.transaction_id) + spec_encode_hash_list(
        m.info_hashes,
    )
}

pub open spec fn spec_encode_request(m: RequestModel) -> Seq<u8> {
    match m {
        RequestModel::Connect(c) => spec_encode_connect_req(c),
        RequestModel::Announce(a) => spec_encode_announce_req(a),
        RequestModel::Scrape(s) => spec_encode_scrape_req(s),
    }
}

pub open spec fn spec_encode_connect_resp(m: ConnectResponse) -> Seq<u8> {
    spec_i32_to_be(0) + spec_i32_to_be(m.transaction_id.0) + spec_i64_to_be(m.connection_id.0)
}

/// One peer entry: 4 address bytes, then 2 port bytes.
pub open spec fn spec_encode_peer(p: PeerV4) -> Seq<u8> {
    spec_u32_to_be(p.ip) + spec_u16_to_be(p.port)
}

/// Concatenates a list of 6-byte peer entries.
pub open spec fn spec_encode_peer_list(ps: Seq<PeerV4>) -> Seq<u8>
    decreases ps.len(),
{
    if ps.len() == 0 {
        seq![]
    } else {
        spec_encode_peer(ps[0]) + spec_encode_peer_list(ps.drop_first())
    }
}

pub open spec fn spec_encode_announce_resp(m: AnnounceResponseModel) -> Seq<u8> {
    spec_i32_to_be(1) + spec_i32_to_be(m.transaction_id.0) + spec_i32_to_be(m.interval)
        + spec_i32_to_be(m.leechers) + spec_i32_to_be(m.seeders) + spec_encode_peer_list(m.peers)
}

/// One statistics triple: seeders, completed, leechers.
pub open spec fn spec_encode_scrape_info(i: ScrapeInfo) -> Seq<u8> {
    spec_i32_to_be(i.seeders) + spec_i32_to_be(i.completed) + spec_i32_to_be(i.leechers)
}

/// Concatenates a list of 12-byte statistic triples.
pub open spec fn spec_encode_scrape_list(xs: Seq<ScrapeInfo>) -> Seq<u8>
    decreases xs.len(),
{
    if xs.len() == 0 {
        seq![]
    } else {
        spec_encode_scrape_info(xs[0]) + spec_encode_scrape_list(xs.drop_first())
    }
}

pub open spec fn spec_encode_scrape_resp(m: ScrapeResponseModel) -> Seq<u8> {
    spec_i32_to_be(2) + spec_i32_to_be(m.transaction_id.0) + spec_encode_scrape_list(m.scrapes)
}

pub open spec fn spec_encode_response(m: ResponseModel) -> Seq<u8> {
    match m {
        ResponseModel::Connect(c) => spec_encode_connect_resp(c),
        ResponseModel::Announce(a) => spec_encode_announce_resp(a),
        ResponseModel::Scrape(s) => spec_encode_scrape_resp(s),
    }
}

// ---------------------------------------------------------------------------
// List encoders grow one entry at a time
// ---------------------------------------------------------------------------

proof fn lemma_encode_hash_list_take_step(hs: Seq<Seq<u8>>, j: int)
    requires
        0 <= j < hs.len(),
    ensures
        spec_encode_hash_list(hs.take(j + 1)) == spec_encode_hash_list(hs.take(j)) + hs[j],
    decreases j,
{
    if j == 0 {
        reveal_with_fuel(spec_encode_hash_list, 2);
        assert(hs.take(1) =~= seq![hs[0]]);
        assert(hs.take(0) =~= Seq::<Seq<u8>>::empty());
        assert(seq![hs[0]].drop_first() =~= Seq::<Seq<u8>>::empty());
        assert(spec_encode_hash_list(seq![hs[0]]) =~= hs[0]);
        assert(spec_encode_hash_list(hs.take(0)) + hs[0] =~= hs[0]);
    } else {
        let rest = hs.drop_first();
        lemma_encode_hash_list_take_step(rest, j - 1);
        assert(hs.take(j + 1).drop_first() =~= rest.take(j));
        assert(hs.take(j).drop_first() =~= rest.take(j - 1));
        assert(hs.take(j + 1)[0] == hs[0]);
        assert(hs.take(j)[0] == hs[0]);
        assert(hs[0] + (spec_encode_hash_list(rest.take(j - 1)) + rest[j - 1]) =~= (hs[0]
            + spec_encode_hash_list(rest.take(j - 1))) + rest[j - 1]);
        assert(rest[j - 1] == hs[j]);
    }
}

proof fn lemma_encode_peer_list_take_step(ps: Seq<PeerV4>, j: int)
    requires
        0 <= j < ps.len(),
    ensures
        spec_encode_peer_list(ps.take(j + 1)) == spec_encode_peer_list(ps.take(j))
            + spec_encode_peer(ps[j]),
    decreases j,
{
    if j == 0 {
        reveal_with_fuel(spec_encode_peer_list, 2);
        assert(ps.take(1) =~= seq![ps[0]]);
        assert(ps.take(0) =~= Seq::<PeerV4>::empty());
        assert(seq![ps[0]].drop_first() =~= Seq::<PeerV4>::empty());
        assert(spec_encode_peer_list(seq![ps[0]]) =~= spec_encode_peer(ps[0]));
        assert(spec_encode_peer_list(ps.take(0)) + spec_encode_peer(ps[0]) =~= spec_encode_peer(
            ps[0],
        ));
    } else {
        let rest = ps.drop_first();
        lemma_encode_peer_list_take_step(rest, j - 1);
        assert(ps.take(j + 1).drop_first() =~= rest.take(j));
        assert(ps.take(j).drop_first() =~= rest.take(j - 1));
        assert(ps.take(j + 1)[0] == ps[0]);
        assert(ps.take(j)[0] == ps[0]);
        assert(spec_encode_peer(ps[0]) + (spec_encode_peer_list(rest.take(j - 1))
            + spec_encode_peer(rest[j - 1])) =~= (spec_encode_peer(ps[0]) + spec_encode_peer_list(
            rest.take(j - 1),
        )) + spec_encode_peer(rest[j - 1]));
        assert(rest[j - 1] == ps[j]);
    }
}

proof fn lemma_encode_scrape_list_take_step(xs: Seq<ScrapeInfo>, j: int)
    requires
        0 <= j < xs.len(),
    ensures
        spec_encode_scrape_list(xs.take(j + 1)) == spec_encode_scrape_list(xs.take(j))
            + spec_encode_scrape_info(xs[j]),
    decreases j,
{
    if j == 0 {
        reveal_with_fuel(spec_encode_scrape_list, 2);
        assert(xs.take(1) =~= seq![xs[0]]);
        assert(xs.take(0) =~= Seq::<ScrapeInfo>::empty());
        assert(seq![xs[0]].drop_first() =~= Seq::<ScrapeInfo>::empty());
        assert(spec_encode_scrape_list(seq![xs[0]]) =~= spec_encode_scrape_info(xs[0]));
        assert(spec_encode_scrape_list(xs.take(0)) + spec_encode_scrape_info(xs[0])
            =~= spec_encode_scrape_info(xs[0]));
    } else {
        let rest = xs.drop_first();
        lemma_encode_scrape_list_take_step(rest, j - 1);
        assert(xs.take(j + 1).drop_first() =~= rest.take(j));
        assert(xs.take(j).drop_first() =~= rest.take(j - 1));
        assert(xs.take(j + 1)[0] == xs[0]);
        assert(xs.take(j)[0] == xs[0]);
        assert(spec_encode_scrape_info(xs[0]) + (spec_encode_scrape_list(rest.take(j - 1))
            + spec_encode_scrape_info(rest[j - 1])) =~= (spec_encode_scrape_info(xs[0])
            + spec_encode_scrape_list(rest.take(j - 1))) + spec_encode_scrape_info(rest[j - 1]));
        assert(rest[j - 1] == xs[j]);
    }
}

// ---------------------------------------------------------------------------
// Executable encoders
// ---------------------------------------------------------------------------

/// Appends the 20 bytes of an info-hash array to `buf`.
fn write_hash(hash: &[u8; 20], buf: &mut Vec<u8>)
    ensures
        final(buf)@ == old(buf)@ + hash@,
{
    let mut i: usize = 0;
    while i < 20
        invariant
            i <= 20,
            buf@ == old(buf)@ + hash@.subrange(0, i as int),
        decreases 20 - i,
    {
        buf.push(hash[i]);
        proof {
            assert(old(buf)@ + hash@.subrange(0, i as int) + seq![hash@[i as int]] =~= old(buf)@
                + hash@.subrange(0, i + 1));
        }
        i += 1;
    }
    proof {
        assert(hash@.subrange(0, 20) =~= hash@);
    }
}

impl ConnectRequest {
    /// Encodes this request onto the end of `buf`; returns the bytes added.
    pub fn write(&self, buf: &mut Vec<u8>) -> (r: usize)
        ensures
            final(buf)@ == old(buf)@ + spec_encode_connect_req(*self),
            r == spec_encode_connect_req(*self).len(),
    {
        write_i64(self.connection_id.0, buf);
        write_i32(0, buf);
        write_i32(self.transaction_id.0, buf);
        proof {
            assert(buf@ =~= old(buf)@ + spec_encode_connect_req(*self));
        }
        16
    }
}

impl AnnounceRequest {
    /// Encodes this request onto the end of `buf`; returns the bytes added.
    pub fn write(&self, buf: &mut Vec<u8>) -> (r: usize)
        ensures
            final(buf)@ == old(buf)@ + spec_encode_announce_req(self@),
            r == spec_encode_announce_req(self@).len(),
    {
        write_i64(self.connection_id.0, buf);
        write_i32(1, buf);
        write_i32(self.transaction_id.0, buf);
        write_hash(&self.info_hash, buf);
        write_hash(&self.peer_id, buf);
        write_i64(self.downloaded, buf);
        write_i64(self.left, buf);
        write_i64(self.uploaded, buf);
        let event_num: i32 = match self.event {
            AnnounceEvent::Nothing => 0,
            AnnounceEvent::Completed => 1,
            AnnounceEvent::Started => 2,
            AnnounceEvent::Stopped => 3,
        };
        write_i32(event_num, buf);
        write_u32(self.ip, buf);
        write_u32(self.key, buf);
        write_i32(self.num_want, buf);
        write_u16(self.port, buf);
        proof {
            assert(buf@ =~= old(buf)@ + spec_encode_announce_req(self@));
        }
        98
    }
}

impl ScrapeRequest {
    /// Encodes this request onto the end of `buf`; returns the bytes added.
    pub fn write(&self, buf: &mut Vec<u8>) -> (r: usize)
        ensures
            final(buf)@ == old(buf)@ + spec_encode_scrape_req(self@),
            r == spec_encode_scrape_req(self@).len(),
    {
        let start = buf.len();
        write_i64(self.connection_id.0, buf);
        write_i32(2, buf);
        write_i32(self.transaction_id.0, buf);
        let ghost prefix = spec_encode_request_prefix(self.connection_id, 2, self.transaction_id);
        proof {
            assert(buf@ =~= old(buf)@ + prefix);
        }
        let n = self.info_hashes.len();
        let mut k: usize = 0;
        while k < n
            invariant
                k <= n,
                n == self.info_hashes@.len(),
                buf@ =~= old(buf)@ + prefix + spec_encode_hash_list(
                    hash_list_view(self.info_hashes@).take(k as int),
                ),
            decreases n - k,
        {
            proof {
                lemma_encode_hash_list_take_step(hash_list_view(self.info_hashes@), k as int);
            }
            write_hash(&self.info_hashes[k], buf);
            proof {
                assert(hash_list_view(self.info_hashes@)[k as int] == self.info_hashes@[k as int]@);
                assert(old(buf)@ + prefix + spec_encode_hash_list(
                    hash_list_view(self.info_hashes@).take(k as int),
                ) + self.info_hashes@[k as int]@ =~= old(buf)@ + prefix + (spec_encode_hash_list(
                    hash_list_view(self.info_hashes@).take(k as int),
                ) + self.info_hashes@[k as int]@));
            }
            k += 1;
        }
        proof {
            assert(hash_list_view(self.info_hashes@).take(n as int) =~= hash_list_view(
                self.info_hashes@,
            ));
            assert(old(buf)@ + prefix + spec_encode_hash_list(hash_list_view(self.info_hashes@))
                =~= old(buf)@ + spec_encode_scrape_req(self@));
        }
        buf.len() - start
    }
}

impl Request {
    /// Encodes this request onto the end of `buf`; returns the bytes added.
    pub fn write(&self, buf: &mut Vec<u8>) -> (r: usize)
        ensures
            final(buf)@ == old(buf)@ + spec_encode_request(self@),
            r == spec_encode_request(self@).len(),
    {
        match self {
            Request::Connect(c) => c.write(buf),
            Request::Announce(a) => a.write(buf),
            Request::Scrape(s) => s.write(buf),
        }
    }
}

impl ConnectResponse {
    /// Encodes this response onto the end of `buf`; returns the bytes added.
    pub fn write(&self, buf: &mut Vec<u8>) -> (r: usize)
        ensures
            final(buf)@ == old(buf)@ + spec_encode_connect_resp(*self),
            r == spec_encode_connect_resp(*self).len(),
    {
        write_i32(0, buf);
        write_i32(self.transaction_id.0, buf);
        write_i64(self.connection_id.0, buf);
        proof {
            assert(buf@ =~= old(buf)@ + spec_encode_connect_resp(*self));
        }
        16
    }
}

impl AnnounceResponse {
    /// Encodes this response onto the end of `buf`; returns the bytes added.
    pub fn write(&self, buf: &mut Vec<u8>) -> (r: usize)
        ensures
            final(buf)@ == old(buf)@ + spec_encode_announce_resp(self@),
            r == spec_encode_announce_resp(self@).len(),
    {
        let start = buf.len();
        write_i32(1, buf);
        write_i32(self.transaction_id.0, buf);
        write_i32(self.interval, buf);
        write_i32(self.leechers, buf);
        write_i32(self.seeders, buf);
        let ghost prefix = spec_i32_to_be(1) + spec_i32_to_be(self.transaction_id.0)
            + spec_i32_to_be(self.interval) + spec_i32_to_be(self.leechers) + spec_i32_to_be(
            self.seeders,
        );
        proof {
            assert(buf@ =~= old(buf)@ + prefix);
        }
        let n = self.peers.len();
        let mut k: usize = 0;
        while k < n
            invariant
                k <= n,
                n == self.peers@.len(),
                buf@ =~= old(buf)@ + prefix + spec_encode_peer_list(self.peers@.take(k as int)),
            decreases n - k,
        {
            proof {
                lemma_encode_peer_list_take_step(self.peers@, k as int);
            }
            let peer = self.peers[k];
            write_u32(peer.ip, buf);
            write_u16(peer.port, buf);
            proof {
                assert(old(buf)@ + prefix + spec_encode_peer_list(self.peers@.take(k as int))
                    + spec_u32_to_be(peer.ip) + spec_u16_to_be(peer.port) =~= old(buf)@ + prefix + (
                spec_encode_peer_list(self.peers@.take(k as int)) + spec_encode_peer(
                    self.peers@[k as int],
                )));
            }
            k += 1;
        }
        proof {
            assert(self.peers@.take(n as int) =~= self.peers@);
            assert(old(buf)@ + prefix + spec_encode_peer_list(self.peers@) =~= old(buf)@
                + spec_encode_announce_resp(self@));
        }
        buf.len() - start
    }
}

impl ScrapeResponse {
    /// Encodes this response onto the end of `buf`; returns the bytes added.
    pub fn write(&self, buf: &mut Vec<u8>) -> (r: usize)
        ensures
            final(buf)@ == old(buf)@ + spec_encode_scrape_resp(self@),
            r == spec_encode_scrape_resp(self@).len(),
    {
        let start = buf.len();
        write_i32(2, buf);
        write_i32(self.transaction_id.0, buf);
        let ghost prefix = spec_i32_to_be(2) + spec_i32_to_be(self.transaction_id.0);
        proof {
            assert(buf@ =~= old(buf)@ + prefix);
        }
        let n = self.scrapes.len();
        let mut k: usize = 0;
        while k < n
            invariant
                k <= n,
                n == self.scrapes@.len(),
                buf@ =~= old(buf)@ + prefix + spec_encode_scrape_list(self.scrapes@.take(k as int)),
            decreases n - k,
        {
            proof {
                lemma_encode_scrape_list_take_step(self.scrapes@, k as int);
            }
            let info = self.scrapes[k];
            write_i32(info.seeders, buf);
            write_i32(info.completed, buf);
            write_i32(info.leechers, buf);
            proof {
                assert(old(buf)@ + prefix + spec_encode_scrape_list(self.scrapes@.take(k as int))
                    + spec_i32_to_be(info.seeders) + spec_i32_to_be(info.completed)
                    + spec_i32_to_be(info.leechers) =~= old(buf)@ + prefix + (
                spec_encode_scrape_list(self.scrapes@.take(k as int)) + spec_encode_scrape_info(
                    self.scrapes@[k as int],
                )));
            }
            k += 1;
        }
        proof {
            assert(self.scrapes@.take(n as int) =~= self.scrapes@);
            assert(old(buf)@ + prefix + spec_encode_scrape_list(self.scrapes@) =~= old(buf)@
                + spec_encode_scrape_resp(self@));
        }
        buf.len() - start
    }
}

impl Response {
    /// Encodes this response onto the end of `buf`; returns the bytes added.
    pub fn write(&self, buf: &mut Vec<u8>) -> (r: usize)
        ensures
            final(buf)@ == old(buf)@ + spec_encode_response(self@),
            r == spec_encode_response(self@).len(),
    {
        match self {
            Response::Connect(c) => c.write(buf),
            Response::Announce(a) => a.write(buf),
            Response::Scrape(s) => s.write(buf),
        }
    }

    /// Encodes this response into a fresh buffer.
    pub fn to_bytes(&self) -> (r: Vec<u8>)
        ensures
            r@ == spec_encode_response(self@),
    {
        let mut buf: Vec<u8> = Vec::new();
        self.write(&mut buf);
        buf
    }
}


// ---------------------------------------------------------------------------
// Round-trip laws: decoding an encoded message yields the message
// ---------------------------------------------------------------------------

/// A list of 20-byte hashes survives the encode/parse round trip.
pub proof fn lemma_hash_list_round_trip(hs: Seq<Seq<u8>>)
    requires
        forall|k: int| 0 <= k < hs.len() ==> (#[trigger] hs[k]).len() == 20,
    ensures
        spec_encode_hash_list(hs).len() == 20 * hs.len(),
        spec_parse_hash_list(spec_encode_hash_list(hs)) == hs,
    decreases hs.len(),
{
    if hs.len() == 0 {
        assert(spec_parse_hash_list(spec_encode_hash_list(hs)) =~= hs);
    } else {
        let rest = hs.drop_first();
        assert forall|k: int| 0 <= k < rest.len() implies (#[trigger] rest[k]).len() == 20 by {
            assert(rest[k] == hs[k + 1]);
        }
        lemma_hash_list_round_trip(rest);
        let enc = spec_encode_hash_list(hs);
        assert(hs[0].len() == 20);
        assert(enc.subrange(0, 20) =~= hs[0]);
        assert(enc.skip(20) =~= spec_encode_hash_list(rest));
        assert(spec_parse_hash_list(enc) =~= hs);
    }
}

/// A list of peer entries survives the encode/parse round trip.
pub proof fn lemma_peer_list_round_trip(ps: Seq<PeerV4>)
    ensures
        spec_encode_peer_list(ps).len() == 6 * ps.len(),
        spec_parse_peer_list(spec_encode_peer_list(ps)) == ps,
    decreases ps.len(),
{
    if ps.len() == 0 {
        assert(spec_parse_peer_list(spec_encode_peer_list(ps)) =~= ps);
    } else {
        let p = ps[0];
        let rest = ps.drop_first();
        lemma_peer_list_round_trip(rest);
        lemma_u32_be_round_trip(p.ip);
        lemma_u16_be_round_trip(p.port);
        let enc = spec_encode_peer_list(ps);
        assert(enc.subrange(0, 4) =~= spec_u32_to_be(p.ip));
        assert(enc.subrange(4, 6) =~= spec_u16_to_be(p.port));
        assert(enc.skip(6) =~= spec_encode_peer_list(rest));
        assert(spec_parse_peer_list(enc) =~= ps);
    }
}

/// A list of statistic triples survives the encode/parse round trip.
pub proof fn lemma_scrape_list_round_trip(xs: Seq<ScrapeInfo>)
    ensures
        spec_encode_scrape_list(xs).len() == 12 * xs.len(),
        spec_parse_scrape_list(spec_encode_scrape_list(xs)) == xs,
    decreases xs.len(),
{
    if xs.len() == 0 {
        assert(spec_parse_scrape_list(spec_encode_scrape_list(xs)) =~= xs);
    } else {
        let x = xs[0];
        let rest = xs.drop_first();
        lemma_scrape_list_round_trip(rest);
        lemma_i32_be_round_trip(x.seeders);
        lemma_i32_be_round_trip(x.completed);
        lemma_i32_be_round_trip(x.leechers);
        let enc = spec_encode_scrape_list(xs);
        assert(enc.subrange(0, 4) =~= spec_i32_to_be(x.seeders));
        assert(enc.subrange(4, 8) =~= spec_i32_to_be(x.completed));
        assert(enc.subrange(8, 12) =~= spec_i32_to_be(x.leechers));
        assert(enc.skip(12) =~= spec_encode_scrape_list(rest));
        assert(spec_parse_scrape_list(enc) =~= xs);
    }
}

/// Decoding an encoded connect request yields the request back.
pub proof fn lemma_connect_request_round_trip(m: ConnectRequest)
    ensures
        spec_parse_request(spec_encode_connect_req(m)) == Ok::<RequestModel, ParseError>(RequestModel::Connect(m)),
{
    let enc = spec_encode_connect_req(m);
    lemma_i64_be_round_trip(m.connection_id.0);
    lemma_i32_be_round_trip(0);
    lemma_i32_be_round_trip(m.transaction_id.0);
    assert(enc.len() == 16);
    assert(enc.subrange(0, 8) =~= spec_i64_to_be(m.connection_id.0));
    assert(enc.subrange(8, 12) =~= spec_i32_to_be(0));
    assert(enc.subrange(12, 16) =~= spec_i32_to_be(m.transaction_id.0));
    assert(spec_parse_header(enc) == Ok::<RequestHeader, ParseError>(
        RequestHeader { connection_id: m.connection_id, action: Action::Connect },
    ));
    assert(spec_parse_connect(m.connection_id, enc) == Ok::<ConnectRequest, ParseError>(m));
}

/// Decoding an encoded announce request yields the request back.
pub proof fn lemma_announce_request_round_trip(m: AnnounceRequestModel)
    requires
        m.wf(),
    ensures
        spec_parse_request(spec_encode_announce_req(m)) == Ok::<RequestModel, ParseError>(RequestModel::Announce(m)),
{
    let enc = spec_encode_announce_req(m);
    lemma_i64_be_round_trip(m.connection_id.0);
    lemma_i32_be_round_trip(1);
    lemma_i32_be_round_trip(m.transaction_id.0);
    lemma_i64_be_round_trip(m.downloaded);
    lemma_i64_be_round_trip(m.left);
    lemma_i64_be_round_trip(m.uploaded);
    lemma_i32_be_round_trip(spec_event_number(m.event));
    lemma_u32_be_round_trip(m.ip);
    lemma_u32_be_round_trip(m.key);
    lemma_i32_be_round_trip(m.num_want);
    lemma_u16_be_round_trip(m.port);
    assert(enc.len() == 98);
    assert(enc.subrange(0, 8) =~= spec_i64_to_be(m.connection_id.0));
    assert(enc.subrange(8, 12) =~= spec_i32_to_be(1));
    assert(enc.subrange(12, 16) =~= spec_i32_to_be(m.transaction_id.0));
    assert(enc.subrange(16, 36) =~= m.info_hash);
    assert(enc.subrange(36, 56) =~= m.peer_id);
    assert(enc.subrange(56, 64) =~= spec_i64_to_be(m.downloaded));
    assert(enc.subrange(64, 72) =~= spec_i64_to_be(m.left));
    assert(enc.subrange(72, 80) =~= spec_i64_to_be(m.uploaded));
    assert(enc.subrange(80, 84) =~= spec_i32_to_be(spec_event_number(m.event)));
    assert(enc.subrange(84, 88) =~= spec_u32_to_be(m.ip));
    assert(enc.subrange(88, 92) =~= spec_u32_to_be(m.key));
    assert(enc.subrange(92, 96) =~= spec_i32_to_be(m.num_want));
    assert(enc.subrange(96, 98) =~= spec_u16_to_be(m.port));
    assert(spec_parse_header(enc) == Ok::<RequestHeader, ParseError>(
        RequestHeader { connection_id: m.connection_id, action: Action::Announce },
    ));
    assert(spec_parse_event(spec_event_number(m.event)) == Ok::<AnnounceEvent, ParseError>(m.event));
    let parsed = spec_parse_announce(m.connection_id, enc);
    assert(parsed is Ok && parsed->Ok_0 =~= m);
}

/// Decoding an encoded scrape request yields the request back.
pub proof fn lemma_scrape_request_round_trip(m: ScrapeRequestModel)
    requires
        m.wf(),
    ensures
        spec_parse_request(spec_encode_scrape_req(m)) == Ok::<RequestModel, ParseError>(RequestModel::Scrape(m)),
{
    let enc = spec_encode_scrape_req(m);
    lemma_i64_be_round_trip(m.connection_id.0);
    lemma_i32_be_round_trip(2);
    lemma_i32_be_round_trip(m.transaction_id.0);
    lemma_hash_list_round_trip(m.info_hashes);
    assert(enc.len() == 16 + 20 * m.info_hashes.len());
    vstd::arithmetic::div_mod::lemma_mod_multiples_basic(m.info_hashes.len() as int, 20);
    assert((enc.len() - 16) % 20 == 0);
    assert(enc.subrange(0, 8) =~= spec_i64_to_be(m.connection_id.0));
    assert(enc.subrange(8, 12) =~= spec_i32_to_be(2));
    assert(enc.subrange(12, 16) =~= spec_i32_to_be(m.transaction_id.0));
    assert(enc.skip(16) =~= spec_encode_hash_list(m.info_hashes));
    assert(spec_parse_header(enc) == Ok::<RequestHeader, ParseError>(
        RequestHeader { connection_id: m.connection_id, action: Action::Scrape },
    ));
    let parsed = spec_parse_scrape(m.connection_id, enc);
    assert(parsed is Ok && parsed->Ok_0 =~= m);
}

/// Decoding any encoded well-formed request yields the request back.
pub proof fn lemma_request_round_trip(m: RequestModel)
    requires
        m.wf(),
    ensures
        spec_parse_request(spec_encode_request(m)) == Ok::<RequestModel, ParseError>(m),
{
    match m {
        RequestModel::Connect(c) => lemma_connect_request_round_trip(c),
        RequestModel::Announce(a) => lemma_announce_request_round_trip(a),
        RequestModel::Scrape(s) => lemma_scrape_request_round_trip(s),
    }
}

/// Decoding an encoded connect response yields the response back.
pub proof fn lemma_connect_response_round_trip(m: ConnectResponse)
    ensures
        spec_parse_connect_resp(spec_encode_connect_resp(m)) == Ok::<ConnectResponse, ParseError>(m),
{
    let enc = spec_encode_connect_resp(m);
    lemma_i32_be_round_trip(0);
    lemma_i32_be_round_trip(m.transaction_id.0);
    lemma_i64_be_round_trip(m.connection_id.0);
    assert(enc.len() == 16);
    assert(enc.subrange(0, 4) =~= spec_i32_to_be(0));
    assert(enc.subrange(4, 8) =~= spec_i32_to_be(m.transaction_id.0));
    assert(enc.subrange(8, 16) =~= spec_i64_to_be(m.connection_id.0));
}

/// Decoding an encoded announce response yields the response back.
pub proof fn lemma_announce_response_round_trip(m: AnnounceResponseModel)
    ensures
        spec_parse_announce_resp(spec_encode_announce_resp(m)) == Ok::<AnnounceResponseModel, ParseError>(m),
{
    let enc = spec_encode_announce_resp(m);
    lemma_i32_be_round_trip(1);
    lemma_i32_be_round_trip(m.transaction_id.0);
    lemma_i32_be_round_trip(m.interval);
    lemma_i32_be_round_trip(m.leechers);
    lemma_i32_be_round_trip(m.seeders);
    lemma_peer_list_round_trip(m.peers);
    assert(enc.len() == 20 + 6 * m.peers.len());
    vstd::arithmetic::div_mod::lemma_mod_multiples_basic(m.peers.len() as int, 6);
    assert((enc.len() - 20) % 6 == 0);
    assert(enc.subrange(0, 4) =~= spec_i32_to_be(1));
    assert(enc.subrange(4, 8) =~= spec_i32_to_be(m.transaction_id.0));
    assert(enc.subrange(8, 12) =~= spec_i32_to_be(m.interval));
    assert(enc.subrange(12, 16) =~= spec_i32_to_be(m.leechers));
    assert(enc.subrange(16, 20) =~= spec_i32_to_be(m.seeders));
    assert(enc.skip(20) =~= spec_encode_peer_list(m.peers));
    let parsed = spec_parse_announce_resp(enc);
    assert(parsed is Ok && parsed->Ok_0 =~= m);
}

/// Decoding an encoded scrape response yields the response back.
pub proof fn lemma_scrape_response_round_trip(m: ScrapeResponseModel)
    ensures
        spec_parse_scrape_resp(spec_encode_scrape_resp(m)) == Ok::<ScrapeResponseModel, ParseError>(m),
{
    let enc = spec_encode_scrape_resp(m);
    lemma_i32_be_round_trip(2);
    lemma_i32_be_round_trip(m.transaction_id.0);
    lemma_scrape_list_round_trip(m.scrapes);
    assert(enc.len() == 8 + 12 * m.scrapes.len());
    vstd::arithmetic::div_mod::lemma_mod_multiples_basic(m.scrapes.len() as int, 12);
    assert((enc.len() - 8) % 12 == 0);
    assert(enc.subrange(0, 4) =~= spec_i32_to_be(2));
    assert(enc.subrange(4, 8) =~= spec_i32_to_be(m.transaction_id.0));
    assert(enc.skip(8) =~= spec_encode_scrape_list(m.scrapes));
    let parsed = spec_parse_scrape_resp(enc);
    assert(parsed is Ok && parsed->Ok_0 =~= m);
}

/// Decoding any encoded response yields the response back.
pub proof fn lemma_response_round_trip(m: ResponseModel)
    ensures
        match m {
            ResponseModel::Connect(c) => spec_parse_connect_resp(spec_encode_response(m)) == Ok::<ConnectResponse, ParseError>(c),
            ResponseModel::Announce(a) => spec_parse_announce_resp(spec_encode_response(m)) == Ok::<AnnounceResponseModel, ParseError>(a),
            ResponseModel::Scrape(s) => spec_parse_scrape_resp(spec_encode_response(m)) == Ok::<ScrapeResponseModel, ParseError>(s),
        },
{
    match m {
        ResponseModel::Connect(c) => lemma_connect_response_round_trip(c),
        ResponseModel::Announce(a) => lemma_announce_response_round_trip(a),
        ResponseModel::Scrape(s) => lemma_scrape_response_round_trip(s),
    }
}


/// A truncated buffer is always rejected with a length error: nothing
/// decodes below the 12-byte header, and each action rejects anything
/// below its own minimum, so no decoder ever reads out of bounds.
pub proof fn lemma_truncated_rejected(s: Seq<u8>)
    ensures
        s.len() < 12 ==> spec_parse_request(s) == Err::<RequestModel, ParseError>(
            ParseError::InsufficientBytes,
        ),
        (spec_parse_header(s) matches Ok(h) && h.action == Action::Connect && s.len() < 16)
            ==> spec_parse_request(s) == Err::<RequestModel, ParseError>(
            ParseError::InsufficientBytes,
        ),
        (spec_parse_header(s) matches Ok(h) && h.action == Action::Announce && s.len() < 98)
            ==> spec_parse_request(s) == Err::<RequestModel, ParseError>(
            ParseError::InsufficientBytes,
        ),
        (spec_parse_header(s) matches Ok(h) && h.action == Action::Scrape && (s.len() < 16 || (
        s.len() - 16) % 20 != 0)) ==> spec_parse_request(s) == Err::<RequestModel, ParseError>(
            ParseError::InsufficientBytes,
        ),
        s.len() < 16 ==> spec_parse_connect_resp(s) == Err::<ConnectResponse, ParseError>(
            ParseError::InsufficientBytes,
        ),
        s.len() < 20 ==> spec_parse_announce_resp(s) == Err::<AnnounceResponseModel, ParseError>(
            ParseError::InsufficientBytes,
        ),
        s.len() < 8 ==> spec_parse_scrape_resp(s) == Err::<ScrapeResponseModel, ParseError>(
            ParseError::InsufficientBytes,
        ),
{
}

} // verus!
