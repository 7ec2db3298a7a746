//! The tracker engine: per-swarm bookkeeping, the connection registry, and
//! the per-datagram state machine.
//!
//! The tracker owns two tables: one binding each client address to the
//! connection identifier it was last issued, and one binding each info hash
//! to its swarm record. Both are association lists whose behaviour is
//! specified through [`spec_assoc_lookup`] and [`spec_assoc_update`]. Every
//! handler is specified as a pure transition over the tracker's model, so
//! the authorization gates and the swarm lifecycle are stated exactly.

use vstd::prelude::*;

use crate::protocol::{
    AnnounceEvent, AnnounceRequest, AnnounceRequestModel, AnnounceResponse,
    AnnounceResponseModel, ConnectRequest, ConnectResponse, ConnectionID, PeerV4, Request,
    RequestModel, Response, ResponseModel, ScrapeInfo, ScrapeRequest, ScrapeRequestModel,
    ScrapeResponse, ScrapeResponseModel, PROTOCOL_MAGIC,
};

verus! {

/// The interval, in seconds, clients are told to wait between announces.
pub const ANNOUNCE_INTERVAL_SECS: i32 = 900;

/// An IPv6 peer endpoint. Such peers are accepted on the wire but never
/// registered in a swarm and never affect its counters.
#[derive(Debug, Copy, Clone, PartialEq, Eq, Structural)]
pub struct PeerV6 {
    pub ip_hi: u64,
    pub ip_lo: u64,
    pub port: u16,
}

/// A peer's source address as the engine sees it.
#[derive(Debug, Copy, Clone, PartialEq, Eq, Structural)]
pub enum PeerAddr {
    V4(PeerV4),
    V6(PeerV6),
}

// ---------------------------------------------------------------------------
// Counters: two's-complement wrap-around at the i32 bounds
// ---------------------------------------------------------------------------

pub open spec fn spec_inc_wrap(x: i32) -> i32 {
    if x == i32::MAX {
        i32::MIN
    } else {
        (x + 1) as i32
    }
}

pub open spec fn spec_dec_wrap(x: i32) -> i32 {
    if x == i32::MIN {
        i32::MAX
    } else {
        (x - 1) as i32
    }
}

fn inc_wrap(x: i32) -> (r: i32)
    ensures
        r == spec_inc_wrap(x),
{
    if x == i32::MAX {
        i32::MIN
    } else {
        x + 1
    }
}

fn dec_wrap(x: i32) -> (r: i32)
    ensures
        r == spec_dec_wrap(x),
{
    if x == i32::MIN {
        i32::MAX
    } else {
        x - 1
    }
}

// ---------------------------------------------------------------------------
// Association lists
// ---------------------------------------------------------------------------

/// The value bound to `key`, reading from the front of the list.
pub open spec fn spec_assoc_lookup<K, V>(s: Seq<(K, V)>, key: K) -> Option<V>
    decreases s.len(),
{
    if s.len() == 0 {
        None
    } else if s[0].0 == key {
        Some(s[0].1)
    } else {
        spec_assoc_lookup(s.drop_first(), key)
    }
}

/// Overwrites the first binding of `key`, or appends one if there is none.
pub open spec fn spec_assoc_update<K, V>(s: Seq<(K, V)>, key: K, value: V) -> Seq<(K, V)>
    decreases s.len(),
{
    if s.len() == 0 {
        seq![(key, value)]
    } else if s[0].0 == key {
        seq![(key, value)] + s.drop_first()
    } else {
        seq![s[0]] + spec_assoc_update(s.drop_first(), key, value)
    }
}

proof fn lemma_assoc_lookup_index<K, V>(s: Seq<(K, V)>, key: K, i: int)
    requires
        0 <= i < s.len(),
        s[i].0 == key,
        forall|j: int| 0 <= j < i ==> (#[trigger] s[j]).0 != key,
    ensures
        spec_assoc_lookup(s, key) == Some(s[i].1),
    decreases i,
{
    if i > 0 {
        let rest = s.drop_first();
        assert(forall|j: int| 0 <= j < i - 1 ==> (#[trigger] rest[j]).0 != key);
        lemma_assoc_lookup_index(rest, key, i - 1);
    }
}

proof fn lemma_assoc_lookup_none<K, V>(s: Seq<(K, V)>, key: K)
    requires
        forall|j: int| 0 <= j < s.len() ==> (#[trigger] s[j]).0 != key,
    ensures
        spec_assoc_lookup(s, key) is None,
    decreases s.len(),
{
    if s.len() > 0 {
        let rest = s.drop_first();
        assert(forall|j: int| 0 <= j < rest.len() ==> (#[trigger] rest[j]).0 != key);
        lemma_assoc_lookup_none(rest, key);
    }
}

proof fn lemma_assoc_update_index<K, V>(s: Seq<(K, V)>, key: K, value: V, i: int)
    requires
        0 <= i < s.len(),
        s[i].0 == key,
        forall|j: int| 0 <= j < i ==> (#[trigger] s[j]).0 != key,
    ensures
        spec_assoc_update(s, key, value) == s.update(i, (key, value)),
    decreases i,
{
    if i == 0 {
        assert(seq![(key, value)] + s.drop_first() =~= s.update(0, (key, value)));
    } else {
        let rest = s.drop_first();
        assert(forall|j: int| 0 <= j < i - 1 ==> (#[trigger] rest[j]).0 != key);
        lemma_assoc_update_index(rest, key, value, i - 1);
        assert(seq![s[0]] + rest.update(i - 1, (key, value)) =~= s.update(i, (key, value)));
    }
}

proof fn lemma_assoc_update_missing<K, V>(s: Seq<(K, V)>, key: K, value: V)
    requires
        forall|j: int| 0 <= j < s.len() ==> (#[trigger] s[j]).0 != key,
    ensures
        spec_assoc_update(s, key, value) == s.push((key, value)),
    decreases s.len(),
{
    if s.len() == 0 {
        assert(spec_assoc_update(s, key, value) =~= s.push((key, value)));
    } else {
        let rest = s.drop_first();
        assert(forall|j: int| 0 <= j < rest.len() ==> (#[trigger] rest[j]).0 != key);
        lemma_assoc_update_missing(rest, key, value);
        assert(seq![s[0]] + rest.push((key, value)) =~= s.push((key, value)));
    }
}

/// How every lookup reads after an update: the updated key maps to the new
/// value and every other key is untouched.
pub proof fn lemma_assoc_update_lookup<K, V>(s: Seq<(K, V)>, key: K, value: V, other: K)
    ensures
        spec_assoc_lookup(spec_assoc_update(s, key, value), other) == if other == key {
            Some(value)
        } else {
            spec_assoc_lookup(s, other)
        },
    decreases s.len(),
{
    let u = spec_assoc_update(s, key, value);
    if s.len() == 0 {
        assert(u =~= seq![(key, value)]);
        assert(u[0] == (key, value));
        if other != key {
            assert(u.drop_first() =~= Seq::<(K, V)>::empty());
            assert(spec_assoc_lookup(u, other) == spec_assoc_lookup(u.drop_first(), other));
            assert(spec_assoc_lookup(Seq::<(K, V)>::empty(), other) is None);
        }
    } else if s[0].0 == key {
        assert(u =~= seq![(key, value)] + s.drop_first());
        assert(u[0] == (key, value));
        if other != key {
            assert(u.drop_first() =~= s.drop_first());
            assert(spec_assoc_lookup(u, other) == spec_assoc_lookup(u.drop_first(), other));
            assert(spec_assoc_lookup(s, other) == spec_assoc_lookup(s.drop_first(), other));
        }
    } else {
        let rest = s.drop_first();
        lemma_assoc_update_lookup(rest, key, value, other);
        assert(u =~= seq![s[0]] + spec_assoc_update(rest, key, value));
        assert(u[0] == s[0]);
        assert(u.drop_first() =~= spec_assoc_update(rest, key, value));
        if s[0].0 == other {
            assert(spec_assoc_lookup(u, other) == Some(s[0].1));
            assert(spec_assoc_lookup(s, other) == Some(s[0].1));
        } else {
            assert(spec_assoc_lookup(u, other) == spec_assoc_lookup(u.drop_first(), other));
            assert(spec_assoc_lookup(s, other) == spec_assoc_lookup(rest, other));
        }
    }
}

/// Updating a key with the value it already holds changes nothing.
pub proof fn lemma_assoc_update_same<K, V>(s: Seq<(K, V)>, key: K, value: V)
    requires
        spec_assoc_lookup(s, key) == Some(value),
    ensures
        spec_assoc_update(s, key, value) == s,
    decreases s.len(),
{
    if s.len() > 0 {
        if s[0].0 == key {
            assert(s[0] == (key, value));
            assert(seq![(key, value)] + s.drop_first() =~= s);
        } else {
            let rest = s.drop_first();
            lemma_assoc_update_same(rest, key, value);
            assert(seq![s[0]] + rest =~= s);
        }
    }
}


// ---------------------------------------------------------------------------
// One swarm's record
// ---------------------------------------------------------------------------

/// The information associated with one torrent swarm. The counters wrap at
/// the i32 bounds, like the 32-bit values they travel as on the wire, and
/// track peer-set membership only approximately: a Stopped announce
/// decrements `leechers` without removing the peer from the set.
#[derive(Debug, Clone, PartialEq)]
pub struct TorrentInfo {
    pub leechers: i32,
    pub completed: i32,
    pub seeders: i32,
    pub peers: Vec<PeerV4>,
}

/// The mathematical model of a [`TorrentInfo`].
#[verifier::ext_equal]
pub ghost struct TorrentInfoModel {
    pub leechers: i32,
    pub completed: i32,
    pub seeders: i32,
    pub peers: Seq<PeerV4>,
}

impl TorrentInfoModel {
    /// No peer address occurs twice in the peer list.
    pub open spec fn peers_unique(self) -> bool {
        forall|i: int, j: int| 0 <= i < j < self.peers.len() ==> self.peers[i] != self.peers[j]
    }
}

impl View for TorrentInfo {
    type V = TorrentInfoModel;

    open spec fn view(&self) -> TorrentInfoModel {
        TorrentInfoModel {
            leechers: self.leechers,
            completed: self.completed,
            seeders: self.seeders,
            peers: self.peers@,
        }
    }
}

/// How one announce event changes a swarm. An IPv6 peer changes nothing.
/// A Started event registers the peer and counts a new leecher only if the
/// address is new; Completed moves one peer from leecher to seeder and
/// counts a completion; Stopped only decrements the leecher counter.
pub open spec fn spec_apply_event(
    s: TorrentInfoModel,
    peer: PeerAddr,
    event: AnnounceEvent,
) -> TorrentInfoModel {
    match peer {
        PeerAddr::V4(v4) => match event {
            AnnounceEvent::Nothing => s,
            AnnounceEvent::Completed => TorrentInfoModel {
                leechers: spec_dec_wrap(s.leechers),
                completed: spec_inc_wrap(s.completed),
                seeders: spec_inc_wrap(s.seeders),
                peers: s.peers,
            },
            AnnounceEvent::Started => if s.peers.contains(v4) {
                s
            } else {
                TorrentInfoModel {
                    leechers: spec_inc_wrap(s.leechers),
                    completed: s.completed,
                    seeders: s.seeders,
                    peers: s.peers.push(v4),
                }
            },
            AnnounceEvent::Stopped => TorrentInfoModel {
                leechers: spec_dec_wrap(s.leechers),
                completed: s.completed,
                seeders: s.seeders,
                peers: s.peers,
            },
        },
        PeerAddr::V6(_) => s,
    }
}

/// The swarm created by the first announce for an unseen info hash: the
/// announcing IPv4 peer is registered as its one seeder; an IPv6 first
/// peer leaves an empty record.
pub open spec fn spec_from_first_peer(peer: PeerAddr) -> TorrentInfoModel {
    match peer {
        PeerAddr::V4(v4) => TorrentInfoModel {
            leechers: 0,
            completed: 0,
            seeders: 1,
            peers: seq![v4],
        },
        PeerAddr::V6(_) => TorrentInfoModel { leechers: 0, completed: 0, seeders: 0, peers: seq![] },
    }
}

/// True iff `p` is in `peers`.
fn contains_peer(peers: &Vec<PeerV4>, p: PeerV4) -> (r: bool)
    ensures
        r == peers@.contains(p),
{
    let n = peers.len();
    let mut i: usize = 0;
    while i < n
        invariant
            i <= n,
            n == peers@.len(),
            forall|j: int| 0 <= j < i ==> peers@[j] != p,
        decreases n - i,
    {
        if peers[i] == p {
            return true;
        }
        i += 1;
    }
    proof {
        assert(!peers@.contains(p));
    }
    false
}

impl TorrentInfo {
    /// Applies one announce event from the given peer to this swarm.
    pub fn handle_peer(&mut self, peer: PeerAddr, event: AnnounceEvent)
        ensures
            final(self)@ == spec_apply_event(old(self)@, peer, event),
    {
        match peer {
            PeerAddr::V4(ip) => {
                match event {
                    AnnounceEvent::Nothing => {},
                    AnnounceEvent::Completed => {
                        self.leechers = dec_wrap(self.leechers);
                        self.seeders = inc_wrap(self.seeders);
                        self.completed = inc_wrap(self.completed);
                    },
                    AnnounceEvent::Started => {
                        if !contains_peer(&self.peers, ip) {
                            self.peers.push(ip);
                            self.leechers = inc_wrap(self.leechers);
                        }
                    },
                    AnnounceEvent::Stopped => {
                        self.leechers = dec_wrap(self.leechers);
                    },
                }
            },
            // IPv6 peers are out of scope for swarm bookkeeping
            PeerAddr::V6(_) => {},
        }
        proof {
            assert(self@ =~= spec_apply_event(old(self)@, peer, event));
        }
    }

    /// Creates a swarm from the first peer to announce its torrent.
    pub fn from_first_peer(peer: PeerAddr) -> (r: TorrentInfo)
        ensures
            r@ == spec_from_first_peer(peer),
    {
        let mut info = TorrentInfo { leechers: 0, completed: 0, seeders: 0, peers: Vec::new() };
        match peer {
            PeerAddr::V4(ip) => {
                info.peers.push(ip);
                info.seeders = 1;
            },
            PeerAddr::V6(_) => {},
        }
        proof {
            assert(info@ =~= spec_from_first_peer(peer));
        }
        info
    }

    /// Returns the swarm's peers, in registration order.
    pub fn sample_peers(&self) -> (r: Vec<PeerV4>)
        ensures
            r@ == self@.peers,
    {
        let n = self.peers.len();
        let mut acc: Vec<PeerV4> = Vec::new();
        let mut i: usize = 0;
        while i < n
            invariant
                i <= n,
                n == self.peers@.len(),
                acc@ == self.peers@.take(i as int),
            decreases n - i,
        {
            acc.push(self.peers[i]);
            proof {
                assert(self.peers@.take(i as int).push(self.peers@[i as int]) =~= self.peers@.take(
                    i + 1,
                ));
            }
            i += 1;
        }
        proof {
            assert(self.peers@.take(n as int) =~= self.peers@);
        }
        acc
    }
}

// ---------------------------------------------------------------------------
// Swarm laws
// ---------------------------------------------------------------------------

/// A Started announce from a peer already in the swarm changes nothing.
pub proof fn lemma_started_idempotent(s: TorrentInfoModel, v4: PeerV4)
    requires
        s.peers.contains(v4),
    ensures
        spec_apply_event(s, PeerAddr::V4(v4), AnnounceEvent::Started) == s,
{
}

/// Repeated Started announces from the same peer address do not change the
/// swarm beyond the first one; in particular `leechers` is not incremented
/// again.
pub proof fn lemma_started_twice(s: TorrentInfoModel, peer: PeerAddr)
    ensures
        spec_apply_event(
            spec_apply_event(s, peer, AnnounceEvent::Started),
            peer,
            AnnounceEvent::Started,
        ) == spec_apply_event(s, peer, AnnounceEvent::Started),
{
    match peer {
        PeerAddr::V4(v4) => {
            let s1 = spec_apply_event(s, peer, AnnounceEvent::Started);
            if !s.peers.contains(v4) {
                assert(s1.peers[s.peers.len() as int] == v4);
                assert(s1.peers.contains(v4));
            }
            lemma_started_idempotent(s1, v4);
        },
        PeerAddr::V6(_) => {},
    }
}

/// No announce event ever duplicates an address in the peer set.
pub proof fn lemma_apply_event_preserves_unique(
    s: TorrentInfoModel,
    peer: PeerAddr,
    event: AnnounceEvent,
)
    requires
        s.peers_unique(),
    ensures
        spec_apply_event(s, peer, event).peers_unique(),
{
    let s2 = spec_apply_event(s, peer, event);
    match peer {
        PeerAddr::V4(v4) => {
            if event == AnnounceEvent::Started && !s.peers.contains(v4) {
                assert forall|i: int, j: int| 0 <= i < j < s2.peers.len() implies s2.peers[i]
                    != s2.peers[j] by {
                    if j == s.peers.len() as int {
                        assert(s2.peers[i] == s.peers[i]);
                        assert(!s.peers.contains(v4));
                        assert(s.peers[i] != v4);
                    }
                }
            }
        },
        PeerAddr::V6(_) => {},
    }
}

/// The swarm created for a first peer has no duplicate addresses.
pub proof fn lemma_from_first_peer_unique(peer: PeerAddr)
    ensures
        spec_from_first_peer(peer).peers_unique(),
{
}


// ---------------------------------------------------------------------------
// The tracker and its model
// ---------------------------------------------------------------------------

/// All the state the engine keeps between datagrams: the connection
/// registry and the swarm table. Registry entries are overwritten on each
/// successful connect and never expire; swarms are created lazily on the
/// first announce and never evicted.
pub struct Tracker {
    pub connections: Vec<(PeerAddr, ConnectionID)>,
    pub torrents: Vec<([u8; 20], TorrentInfo)>,
}

/// The mathematical model of a [`Tracker`]: both tables as association
/// lists, the swarm table keyed by the 20 info-hash bytes.
#[verifier::ext_equal]
pub ghost struct TrackerModel {
    pub connections: Seq<(PeerAddr, ConnectionID)>,
    pub torrents: Seq<(Seq<u8>, TorrentInfoModel)>,
}

impl View for Tracker {
    type V = TrackerModel;

    open spec fn view(&self) -> TrackerModel {
        TrackerModel {
            connections: self.connections@,
            torrents: self.torrents@.map_values(|e: ([u8; 20], TorrentInfo)| (e.0@, e.1@)),
        }
    }
}

// ---------------------------------------------------------------------------
// The engine as a pure transition over the model
// ---------------------------------------------------------------------------

/// An announce or scrape is authorized iff the registry holds exactly the
/// claimed id for the source address; a never-connected address and a
/// mismatched id are both refused.
pub open spec fn spec_authorized(t: TrackerModel, src: PeerAddr, cid: ConnectionID) -> bool {
    spec_assoc_lookup(t.connections, src) == Some(cid)
}

/// A connect: if the request carries the protocol magic, bind the source
/// address to the freshly minted id and answer; otherwise do nothing.
pub open spec fn spec_handle_connect(
    t: TrackerModel,
    src: PeerAddr,
    req: ConnectRequest,
    fresh: ConnectionID,
) -> (TrackerModel, Option<ConnectResponse>) {
    if req.connection_id.0 == PROTOCOL_MAGIC {
        (
            TrackerModel {
                connections: spec_assoc_update(t.connections, src, fresh),
                torrents: t.torrents,
            },
            Some(ConnectResponse { transaction_id: req.transaction_id, connection_id: fresh }),
        )
    } else {
        (t, None)
    }
}

/// The swarm record an announce leaves behind for its info hash.
pub open spec fn spec_announce_swarm(
    t: TrackerModel,
    src: PeerAddr,
    hash: Seq<u8>,
    event: AnnounceEvent,
) -> TorrentInfoModel {
    match spec_assoc_lookup(t.torrents, hash) {
        Some(swarm) => spec_apply_event(swarm, src, event),
        None => spec_from_first_peer(src),
    }
}

/// An announce: if authorized, apply the event to the request's swarm
/// (creating it on first sight) and answer with the resulting counters and
/// the full peer list; otherwise do nothing.
pub open spec fn spec_handle_announce(
    t: TrackerModel,
    src: PeerAddr,
    req: AnnounceRequestModel,
) -> (TrackerModel, Option<AnnounceResponseModel>) {
    if !spec_authorized(t, src, req.connection_id) {
        (t, None)
    } else {
        let swarm = spec_announce_swarm(t, src, req.info_hash, req.event);
        (
            TrackerModel {
                connections: t.connections,
                torrents: spec_assoc_update(t.torrents, req.info_hash, swarm),
            },
            Some(
                AnnounceResponseModel {
                    transaction_id: req.transaction_id,
                    interval: ANNOUNCE_INTERVAL_SECS,
                    leechers: swarm.leechers,
                    seeders: swarm.seeders,
                    peers: swarm.peers,
                },
            ),
        )
    }
}

/// The statistics triple reported for one info hash: the swarm's counters,
/// or all zeroes if the hash is unknown.
pub open spec fn spec_scrape_triple(t: TrackerModel, hash: Seq<u8>) -> ScrapeInfo {
    match spec_assoc_lookup(t.torrents, hash) {
        Some(swarm) => ScrapeInfo {
            seeders: swarm.seeders,
            completed: swarm.completed,
            leechers: swarm.leechers,
        },
        None => ScrapeInfo { seeders: 0, completed: 0, leechers: 0 },
    }
}

/// A scrape: if authorized, answer with one triple per requested hash in
/// request order; otherwise do nothing. The state never changes.
pub open spec fn spec_handle_scrape(
    t: TrackerModel,
    src: PeerAddr,
    req: ScrapeRequestModel,
) -> Option<ScrapeResponseModel> {
    if !spec_authorized(t, src, req.connection_id) {
        None
    } else {
        Some(
            ScrapeResponseModel {
                transaction_id: req.transaction_id,
                scrapes: Seq::new(
                    req.info_hashes.len(),
                    |k: int| spec_scrape_triple(t, req.info_hashes[k]),
                ),
            },
        )
    }
}

/// One decoded request, dispatched by action.
pub open spec fn spec_handle_request(
    t: TrackerModel,
    src: PeerAddr,
    req: RequestModel,
    fresh: ConnectionID,
) -> (TrackerModel, Option<ResponseModel>) {
    match req {
        RequestModel::Connect(c) => {
            let r = spec_handle_connect(t, src, c, fresh);
            (
                r.0,
                match r.1 {
                    Some(x) => Some(ResponseModel::Connect(x)),
                    None => None,
                },
            )
        },
        RequestModel::Announce(a) => {
            let r = spec_handle_announce(t, src, a);
            (
                r.0,
                match r.1 {
                    Some(x) => Some(ResponseModel::Announce(x)),
                    None => None,
                },
            )
        },
        RequestModel::Scrape(sc) => (
            t,
            match spec_handle_scrape(t, src, sc) {
                Some(x) => Some(ResponseModel::Scrape(x)),
                None => None,
            },
        ),
    }
}

/// One whole datagram: a datagram that fails to decode is dropped and
/// changes nothing; otherwise the decoded request is handled and any
/// response is encoded.
pub open spec fn spec_process_datagram(
    t: TrackerModel,
    src: PeerAddr,
    bytes: Seq<u8>,
    fresh: ConnectionID,
) -> (TrackerModel, Option<Seq<u8>>) {
    match crate::protocol::spec_parse_request(bytes) {
        Err(_) => (t, None),
        Ok(req) => {
            let r = spec_handle_request(t, src, req, fresh);
            (
                r.0,
                match r.1 {
                    Some(resp) => Some(crate::protocol::spec_encode_response(resp)),
                    None => None,
                },
            )
        },
    }
}

/// Relates an executable outcome to the model's outcome.
pub open spec fn spec_output_matches(out: Option<Seq<u8>>, r: Option<Vec<u8>>) -> bool {
    match r {
        Some(v) => out == Some(v@),
        None => out is None,
    }
}

// ---------------------------------------------------------------------------
// Authorization laws
// ---------------------------------------------------------------------------

/// A connect whose connection-id field is not the protocol magic produces
/// no response and leaves the tracker unchanged.
pub proof fn lemma_connect_gate(
    t: TrackerModel,
    src: PeerAddr,
    req: ConnectRequest,
    fresh: ConnectionID,
)
    requires
        req.connection_id.0 != PROTOCOL_MAGIC,
    ensures
        spec_handle_connect(t, src, req, fresh) == (t, Option::<ConnectResponse>::None),
{
}

/// An announce from an address with no prior connect, or with a stale or
/// mismatched id, produces no response and mutates no swarm state.
pub proof fn lemma_unauthorized_announce(t: TrackerModel, src: PeerAddr, req: AnnounceRequestModel)
    requires
        spec_assoc_lookup(t.connections, src) != Some(req.connection_id),
    ensures
        spec_handle_announce(t, src, req) == (t, Option::<AnnounceResponseModel>::None),
{
}

/// A scrape from an address with no prior connect, or with a stale or
/// mismatched id, produces no response; a scrape never mutates state.
pub proof fn lemma_unauthorized_scrape(t: TrackerModel, src: PeerAddr, req: ScrapeRequestModel)
    requires
        spec_assoc_lookup(t.connections, src) != Some(req.connection_id),
    ensures
        spec_handle_scrape(t, src, req) is None,
{
}

/// Repeated Started announces from the same peer leave the tracker exactly
/// where the first one left it: the keep-alive path is idempotent.
pub proof fn lemma_keep_alive_idempotent(t: TrackerModel, src: PeerAddr, req: AnnounceRequestModel)
    requires
        req.event == AnnounceEvent::Started,
    ensures
        ({
            let t1 = spec_handle_announce(t, src, req).0;
            spec_handle_announce(t1, src, req).0 == t1
        }),
{
    if spec_authorized(t, src, req.connection_id) {
        let swarm1 = spec_announce_swarm(t, src, req.info_hash, req.event);
        let t1 = spec_handle_announce(t, src, req).0;
        assert(t1.connections == t.connections);
        lemma_assoc_update_lookup(t.torrents, req.info_hash, swarm1, req.info_hash);
        assert(spec_assoc_lookup(t1.torrents, req.info_hash) == Some(swarm1));
        match src {
            PeerAddr::V4(v4) => {
                if spec_assoc_lookup(t.torrents, req.info_hash) is Some {
                    let s0 = spec_assoc_lookup(t.torrents, req.info_hash)->Some_0;
                    if !s0.peers.contains(v4) {
                        assert(swarm1.peers[s0.peers.len() as int] == v4);
                    }
                } else {
                    assert(swarm1.peers[0] == v4);
                }
                assert(swarm1.peers.contains(v4));
                lemma_started_idempotent(swarm1, v4);
            },
            PeerAddr::V6(_) => {},
        }
        assert(spec_announce_swarm(t1, src, req.info_hash, req.event) == swarm1);
        lemma_assoc_update_same(t1.torrents, req.info_hash, swarm1);
        assert(spec_handle_announce(t1, src, req).0 =~= t1);
    }
}

// ---------------------------------------------------------------------------
// The executable engine
// ---------------------------------------------------------------------------

/// Compares two 20-byte info hashes.
fn hash_eq(a: &[u8; 20], b: &[u8; 20]) -> (r: bool)
    ensures
        r == (a@ == b@),
{
    let mut i: usize = 0;
    while i < 20
        invariant
            i <= 20,
            forall|j: int| 0 <= j < i ==> a@[j] == b@[j],
        decreases 20 - i,
    {
        if a[i] != b[i] {
            return false;
        }
        i += 1;
    }
    proof {
        assert(a@ =~= b@);
    }
    true
}

impl Tracker {
    /// A tracker with no connections and no swarms.
    pub fn new() -> (r: Tracker)
        ensures
            r@.connections == Seq::<(PeerAddr, ConnectionID)>::empty(),
            r@.torrents == Seq::<(Seq<u8>, TorrentInfoModel)>::empty(),
    {
        let t = Tracker { connections: Vec::new(), torrents: Vec::new() };
        proof {
            assert(t@.torrents =~= Seq::<(Seq<u8>, TorrentInfoModel)>::empty());
        }
        t
    }

    /// The index of the registry entry for `src`, if there is one.
    fn find_connection(&self, src: PeerAddr) -> (r: Option<usize>)
        ensures
            match r {
                Some(i) => i < self@.connections.len() && self@.connections[i as int].0 == src
                    && forall|j: int|
                    0 <= j < i ==> (#[trigger] self@.connections[j]).0 != src,
                None => forall|j: int|
                    0 <= j < self@.connections.len() ==> (#[trigger] self@.connections[j]).0
                        != src,
            },
    {
        let n = self.connections.len();
        let mut i: usize = 0;
        while i < n
            invariant
                i <= n,
                n == self.connections@.len(),
                forall|j: int| 0 <= j < i ==> (#[trigger] self.connections@[j]).0 != src,
            decreases n - i,
        {
            if self.connections[i].0 == src {
                return Some(i);
            }
            i += 1;
        }
        None
    }

    /// The index of the swarm entry for `hash`, if there is one.
    fn find_torrent(&self, hash: &[u8; 20]) -> (r: Option<usize>)
        ensures
            match r {
                Some(i) => i < self@.torrents.len() && self@.torrents[i as int].0 == hash@
                    && forall|j: int| 0 <= j < i ==> (#[trigger] self@.torrents[j]).0 != hash@,
                None => forall|j: int|
                    0 <= j < self@.torrents.len() ==> (#[trigger] self@.torrents[j]).0 != hash@,
            },
    {
        let n = self.torrents.len();
        let mut i: usize = 0;
        while i < n
            invariant
                i <= n,
                n == self.torrents@.len(),
                forall|j: int| 0 <= j < i ==> (#[trigger] self@.torrents[j]).0 != hash@,
            decreases n - i,
        {
            if hash_eq(&self.torrents[i].0, hash) {
                return Some(i);
            }
            i += 1;
        }
        None
    }

    /// True iff the registry authorizes this claimed connection id for `src`.
    fn validate_connection(&self, src: PeerAddr, cid: ConnectionID) -> (r: bool)
        ensures
            r == spec_authorized(self@, src, cid),
    {
        match self.find_connection(src) {
            Some(i) => {
                proof {
                    lemma_assoc_lookup_index(self@.connections, src, i as int);
                }
                self.connections[i].1 == cid
            },
            None => {
                proof {
                    lemma_assoc_lookup_none(self@.connections, src);
                }
                false
            },
        }
    }

    /// Handles a connect request: gate on the protocol magic, then bind
    /// `src` to the freshly minted id and answer.
    pub fn handle_connect(&mut self, src: PeerAddr, req: &ConnectRequest, fresh: ConnectionID)
        -> (r: Option<ConnectResponse>)
        ensures
            ({
                let t = spec_handle_connect(old(self)@, src, *req, fresh);
                final(self)@ == t.0 && r == t.1
            }),
    {
        if !req.connection_id.is_magic_id() {
            return None;
        }
        match self.find_connection(src) {
            Some(i) => {
                proof {
                    lemma_assoc_update_index(old(self)@.connections, src, fresh, i as int);
                }
                let _ = self.connections.remove(i);
                self.connections.insert(i, (src, fresh));
                proof {
                    assert(self.connections@ =~= old(self)@.connections.update(
                        i as int,
                        (src, fresh),
                    ));
                    assert(self@ =~= spec_handle_connect(old(self)@, src, *req, fresh).0);
                }
            },
            None => {
                proof {
                    lemma_assoc_update_missing(old(self)@.connections, src, fresh);
                }
                self.connections.push((src, fresh));
                proof {
                    assert(self@ =~= spec_handle_connect(old(self)@, src, *req, fresh).0);
                }
            },
        }
        Some(ConnectResponse { transaction_id: req.transaction_id, connection_id: fresh })
    }

    /// Handles an announce request: gate on the registry, apply the event
    /// to the request's swarm, and answer with the resulting counters and
    /// the peer list.
    pub fn handle_announce(&mut self, src: PeerAddr, req: &AnnounceRequest) -> (r: Option<
        AnnounceResponse,
    >)
        ensures
            ({
                let t = spec_handle_announce(old(self)@, src, req@);
                final(self)@ == t.0 && (match r {
                    Some(resp) => t.1 == Some(resp@),
                    None => t.1 is None,
                })
            }),
    {
        if !self.validate_connection(src, req.connection_id) {
            return None;
        }
        let ghost old_model = self@;
        let ghost hash = req.info_hash@;
        let ghost swarm_after = spec_announce_swarm(old_model, src, hash, req.event);
        match self.find_torrent(&req.info_hash) {
            Some(i) => {
                proof {
                    lemma_assoc_lookup_index(old_model.torrents, hash, i as int);
                    lemma_assoc_update_index(old_model.torrents, hash, swarm_after, i as int);
                }
                let (stored_hash, mut info) = self.torrents.remove(i);
                info.handle_peer(src, req.event);
                let leechers = info.leechers;
                let seeders = info.seeders;
                let peers = info.sample_peers();
                self.torrents.insert(i, (stored_hash, info));
                proof {
                    assert(self.torrents@ =~= old(self).torrents@.update(
                        i as int,
                        (old(self).torrents@[i as int].0, info),
                    ));
                    assert(self@.torrents =~= old_model.torrents.update(
                        i as int,
                        (hash, swarm_after),
                    ));
                    assert(self@ =~= spec_handle_announce(old(self)@, src, req@).0);
                }
                let resp = AnnounceResponse {
                    transaction_id: req.transaction_id,
                    interval: ANNOUNCE_INTERVAL_SECS,
                    leechers,
                    seeders,
                    peers,
                };
                proof {
                    assert(resp@ =~= spec_handle_announce(old(self)@, src, req@).1->Some_0);
                }
                Some(resp)
            },
            None => {
                proof {
                    lemma_assoc_lookup_none(old_model.torrents, hash);
                    lemma_assoc_update_missing(old_model.torrents, hash, swarm_after);
                }
                let info = TorrentInfo::from_first_peer(src);
                let leechers = info.leechers;
                let seeders = info.seeders;
                let peers = info.sample_peers();
                self.torrents.push((req.info_hash, info));
                proof {
                    assert(self@.torrents =~= old_model.torrents.push((hash, swarm_after)));
                    assert(self@ =~= spec_handle_announce(old(self)@, src, req@).0);
                }
                let resp = AnnounceResponse {
                    transaction_id: req.transaction_id,
                    interval: ANNOUNCE_INTERVAL_SECS,
                    leechers,
                    seeders,
                    peers,
                };
                proof {
                    assert(resp@ =~= spec_handle_announce(old(self)@, src, req@).1->Some_0);
                }
                Some(resp)
            },
        }
    }

    /// Handles a scrape request: gate on the registry, then report one
    /// statistics triple per requested hash, in request order.
    pub fn handle_scrape(&self, src: PeerAddr, req: &ScrapeRequest) -> (r: Option<ScrapeResponse>)
        ensures
            ({
                let out = spec_handle_scrape(self@, src, req@);
                match r {
                    Some(resp) => out == Some(resp@),
                    None => out is None,
                }
            }),
    {
        if !self.validate_connection(src, req.connection_id) {
            return None;
        }
        let n = req.info_hashes.len();
        let mut scrapes: Vec<ScrapeInfo> = Vec::new();
        let mut k: usize = 0;
        while k < n
            invariant
                k <= n,
                n == req.info_hashes@.len(),
                scrapes@.len() == k,
                forall|j: int|
                    0 <= j < k ==> scrapes@[j] == spec_scrape_triple(
                        self@,
                        (#[trigger] req.info_hashes@[j])@,
                    ),
            decreases n - k,
        {
            let info = match self.find_torrent(&req.info_hashes[k]) {
                Some(i) => {
                    proof {
                        lemma_assoc_lookup_index(self@.torrents, req.info_hashes@[k as int]@, i as int);
                    }
                    let entry = &self.torrents[i];
                    ScrapeInfo {
                        seeders: entry.1.seeders,
                        completed: entry.1.completed,
                        leechers: entry.1.leechers,
                    }
                },
                None => {
                    proof {
                        lemma_assoc_lookup_none(self@.torrents, req.info_hashes@[k as int]@);
                    }
                    ScrapeInfo::empty()
                },
            };
            scrapes.push(info);
            k += 1;
        }
        let resp = ScrapeResponse { transaction_id: req.transaction_id, scrapes };
        proof {
            assert(resp@.scrapes =~= spec_handle_scrape(self@, src, req@)->Some_0.scrapes);
            assert(resp@ =~= spec_handle_scrape(self@, src, req@)->Some_0);
        }
        Some(resp)
    }

    /// Handles one decoded request, dispatching on its action.
    pub fn handle_request(&mut self, src: PeerAddr, request: &Request, fresh: ConnectionID) -> (r:
        Option<Response>)
        ensures
            ({
                let t = spec_handle_request(old(self)@, src, request@, fresh);
                final(self)@ == t.0 && (match r {
                    Some(resp) => t.1 == Some(resp@),
                    None => t.1 is None,
                })
            }),
    {
        match request {
            Request::Connect(c) => match self.handle_connect(src, c, fresh) {
                Some(x) => Some(Response::Connect(x)),
                None => None,
            },
            Request::Announce(a) => match self.handle_announce(src, a) {
                Some(x) => Some(Response::Announce(x)),
                None => None,
            },
            Request::Scrape(sc) => match self.handle_scrape(src, sc) {
                Some(x) => Some(Response::Scrape(x)),
                None => None,
            },
        }
    }

    /// Handles one raw datagram with the given fresh id at hand for a
    /// successful connect: decode, gate, transition, encode.
    pub fn process_datagram_with(&mut self, src: PeerAddr, bytes: &[u8], fresh: ConnectionID)
        -> (r: Option<Vec<u8>>)
        ensures
            ({
                let t = spec_process_datagram(old(self)@, src, bytes@, fresh);
                final(self)@ == t.0 && spec_output_matches(t.1, r)
            }),
    {
        let request = match Request::from_bytes(bytes) {
            Ok(req) => req,
            Err(_) => {
                return None;
            },
        };
        match self.handle_request(src, &request, fresh) {
            Some(resp) => Some(resp.to_bytes()),
            None => None,
        }
    }

    /// Handles one raw datagram, minting a random connection id for a
    /// successful connect. Which id is minted is up to the generator, so
    /// the contract promises the model transition for some fresh id.
    pub fn process_datagram(&mut self, src: PeerAddr, bytes: &[u8]) -> (r: Option<Vec<u8>>)
        ensures
            exists|fresh: ConnectionID|
                {
                    let t = #[trigger] spec_process_datagram(old(self)@, src, bytes@, fresh);
                    final(self)@ == t.0 && spec_output_matches(t.1, r)
                },
    {
        let fresh = ConnectionID(random_i64());
        let r = self.process_datagram_with(src, bytes, fresh);
        proof {
            let t = spec_process_datagram(old(self)@, src, bytes@, fresh);
            assert(self@ == t.0 && spec_output_matches(t.1, r));
        }
        r
    }
}

/// Relies on rand::random: draws a value from the thread-local generator.
/// The result is random, so nothing is promised about it.
#[verifier::external_body]
fn random_i64() -> i64 {
    rand::random::<i64>()
}

} // verus!
