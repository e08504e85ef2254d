//! Many connections over one socket: peers are told apart by their
//! address, get an id, and what arrives is handed out per peer. Packets to
//! send are collected with the address they go to.
use vstd::prelude::*;
use crate::connection::{
    Connection, ConnectionView, Error, Phase, ReceiveChunk, ReceivePacket, Received, SEND_INTERVAL,
    after_tick_action, chunk_fits, control_packet, feed_outcome, feed_resends, flush_packets,
    flushed, fresh_online, new_connection, packets, queued, received_view, tick_packets,
    tick_timeout,
};
use crate::packer::no_nul;
use crate::protocol::{
    CTRLMSG_CONNECT, ConnectedPacketType, ControlPacket, MAX_PAYLOAD, Packet, Warning,
    connless_header, is_connless, is_control, packet_payload, read_error,
};
use crate::huffman::Huffman;

verus! {

/// The id of a peer.
#[derive(Clone, Copy, Debug, PartialEq, Eq, Structural, Hash, PartialOrd, Ord)]
pub struct PeerId(pub u32);

/// The id after `p`, wrapping around.
pub open spec fn next_id(p: PeerId) -> PeerId {
    PeerId(if p.0 == u32::MAX {
        0
    } else {
        (p.0 + 1) as u32
    })
}

impl PeerId {
    /// Returns this id and advances to the next one.
    fn get_and_increment(&mut self) -> (r: PeerId)
        ensures
            r == *old(self),
            *final(self) == next_id(*old(self)),
    {
        let old = *self;
        self.0 = self.0.wrapping_add(1);
        old
    }
}

/// Values by peer id, in the order they were added; removing one moves
/// the last into its place.
pub struct PeerMap<T> {
    map: Vec<(PeerId, T)>,
}

/// The ids of the entries `s`.
pub open spec fn ids<T>(s: Seq<(PeerId, T)>) -> Seq<PeerId> {
    s.map_values(|e: (PeerId, T)| e.0)
}

/// No id occurs twice in `s`.
pub open spec fn distinct_ids<T>(s: Seq<(PeerId, T)>) -> bool {
    forall|i: int, j: int| 0 <= i < j < s.len() ==> s[i].0 != s[j].0
}

/// The position of `pid` in `s`, if it is there.
pub open spec fn position_of<T>(s: Seq<(PeerId, T)>, pid: PeerId) -> Option<int> {
    if exists|i: int| 0 <= i < s.len() && s[i].0 == pid {
        Some(choose|i: int| 0 <= i < s.len() && s[i].0 == pid)
    } else {
        None
    }
}

/// `pid` has a position in `s` exactly when it is one of its ids.
pub proof fn lemma_position_contains<T>(s: Seq<(PeerId, T)>, pid: PeerId)
    ensures
        (position_of(s, pid) is Some) == ids(s).contains(pid),
{
    if ids(s).contains(pid) {
        let k = choose|k: int| 0 <= k < ids(s).len() && ids(s)[k] == pid;
        assert(s[k].0 == pid);
    }
    if position_of(s, pid) is Some {
        let i = position_of(s, pid)->0;
        assert(ids(s)[i] == pid);
    }
}

/// `s` with the entry at `i` removed and the last entry moved into its
/// place.
pub open spec fn swap_removed<T>(s: Seq<T>, i: int) -> Seq<T> {
    if i == s.len() - 1 {
        s.drop_last()
    } else {
        s.drop_last().update(i, s.last())
    }
}

impl<T> View for PeerMap<T> {
    type V = Seq<(PeerId, T)>;

    closed spec fn view(&self) -> Seq<(PeerId, T)> {
        self.map@
    }
}

impl<T> PeerMap<T> {
    /// The map has no id twice.
    pub closed spec fn wf(&self) -> bool {
        distinct_ids(self.map@)
    }

    /// The empty map.
    pub fn new() -> (r: PeerMap<T>)
        ensures
            r.wf(),
            r@ == Seq::<(PeerId, T)>::empty(),
    {
        PeerMap { map: Vec::new() }
    }

    /// The empty map, with room for `cap` entries.
    pub fn with_capacity(cap: usize) -> (r: PeerMap<T>)
        ensures
            r.wf(),
            r@ == Seq::<(PeerId, T)>::empty(),
    {
        PeerMap { map: Vec::with_capacity(cap) }
    }

    /// Removes all entries.
    pub fn clear(&mut self)
        ensures
            final(self).wf(),
            final(self)@ == Seq::<(PeerId, T)>::empty(),
    {
        self.map.clear();
    }

    /// The number of entries.
    pub fn len(&self) -> (r: usize)
        ensures
            r == self@.len(),
    {
        self.map.len()
    }

    /// Whether there are no entries.
    pub fn is_empty(&self) -> (r: bool)
        ensures
            r == (self@.len() == 0),
    {
        self.map.len() == 0
    }

    /// The position of `pid`.
    fn find(&self, pid: PeerId) -> (r: Option<usize>)
        requires
            self.wf(),
        ensures
            match position_of(self@, pid) {
                Some(i) => r == Some(i as usize),
                None => r is None,
            },
            r matches Some(i) ==> i < self@.len() && self@[i as int].0 == pid,
    {
        let mut i: usize = 0;
        while i < self.map.len()
            invariant
                i <= self@.len(),
                distinct_ids(self@),
                forall|k: int| 0 <= k < i ==> self@[k].0 != pid,
            decreases self.map.len() - i,
        {
            if self.map[i].0 == pid {
                proof {
                    let c = choose|k: int| 0 <= k < self@.len() && self@[k].0 == pid;
                    assert(c == i as int);
                }
                return Some(i);
            }
            i = i + 1;
        }
        None
    }

    /// Whether `pid` has an entry.
    pub fn contains_key(&self, pid: PeerId) -> (r: bool)
        requires
            self.wf(),
        ensures
            r == (position_of(self@, pid) is Some),
    {
        self.find(pid).is_some()
    }

    /// The value of `pid`.
    pub fn get(&self, pid: PeerId) -> (r: Option<&T>)
        requires
            self.wf(),
        ensures
            match position_of(self@, pid) {
                Some(i) => r == Some(&self@[i].1),
                None => r is None,
            },
    {
        match self.find(pid) {
            Some(i) => Some(&self.map[i].1),
            None => None,
        }
    }

    /// Sets the value of `pid`; returns the value it replaces. A new id
    /// goes last.
    pub fn insert(&mut self, pid: PeerId, value: T) -> (r: Option<T>)
        requires
            old(self).wf(),
        ensures
            final(self).wf(),
            match position_of(old(self)@, pid) {
                Some(i) => r == Some(old(self)@[i].1) && final(self)@ == old(self)@.update(i, (pid, value)),
                None => r is None && final(self)@ == old(self)@.push((pid, value)),
            },
    {
        match self.find(pid) {
            Some(i) => {
                let (_, old_value) = self.map.remove(i);
                self.map.insert(i, (pid, value));
                proof {
                    assert(self.map@ =~= old(self)@.update(i as int, (pid, value)));
                }
                Some(old_value)
            },
            None => {
                self.map.push((pid, value));
                None
            },
        }
    }

    /// Removes the entry of `pid`, moving the last entry into its place.
    pub fn remove(&mut self, pid: PeerId)
        requires
            old(self).wf(),
            position_of(old(self)@, pid) is Some,
        ensures
            final(self).wf(),
            final(self)@ == swap_removed(old(self)@, position_of(old(self)@, pid)->0),
    {
        let i = self.find(pid).unwrap();
        self.map.swap_remove(i);
        proof {
            assert(self.map@ =~= swap_removed(old(self)@, i as int));
        }
    }

    /// The ids, in order.
    pub fn keys(&self) -> (r: Vec<PeerId>)
        ensures
            r@ == ids(self@),
    {
        let mut r: Vec<PeerId> = Vec::new();
        let mut i: usize = 0;
        while i < self.map.len()
            invariant
                i <= self@.len(),
                r@ == ids(self@.subrange(0, i as int)),
            decreases self.map.len() - i,
        {
            r.push(self.map[i].0);
            i = i + 1;
            proof {
                assert(r@ =~= ids(self@.subrange(0, i as int)));
            }
        }
        assert(self@.subrange(0, self@.len() as int) =~= self@);
        r
    }
}

/// After setting the value of `pid`, reading `pid` gives that value and
/// every other id keeps its value.
pub proof fn lemma_insert_get<T>(s: Seq<(PeerId, T)>, pid: PeerId, value: T, other: PeerId)
    requires
        distinct_ids(s),
        other != pid,
    ensures
        ({
            let t = match position_of(s, pid) {
                Some(i) => s.update(i, (pid, value)),
                None => s.push((pid, value)),
            };
            &&& position_of(t, pid) matches Some(j) && t[j].1 == value
            &&& (position_of(t, other) is Some) == (position_of(s, other) is Some)
            &&& position_of(s, other) matches Some(k) ==> (position_of(t, other) matches Some(l) && t[l].1 == s[k].1)
        }),
{
    let t = match position_of(s, pid) {
        Some(i) => s.update(i, (pid, value)),
        None => s.push((pid, value)),
    };
    let j = match position_of(s, pid) {
        Some(i) => i,
        None => s.len() as int,
    };
    assert(t[j].0 == pid);
    let pj = position_of(t, pid)->0;
    assert(pj == j) by {
        if pj != j {
            if pj < s.len() && j < s.len() {
                assert(s[pj].0 == pid);
            }
        }
    }
    if let Some(k) = position_of(s, other) {
        assert(k != j);
        assert(t[k] == s[k]);
        let l = position_of(t, other)->0;
        assert(l == k) by {
            if l != k {
                if l < s.len() {
                    assert(t[l] == s[l]);
                }
            }
        }
    }
    if position_of(t, other) is Some {
        let l = position_of(t, other)->0;
        assert(l != j);
        assert(t[l] == s[l]);
    }
}

/// After removing `pid`, it is gone and every other id keeps its value.
pub proof fn lemma_remove_get<T>(s: Seq<(PeerId, T)>, pid: PeerId, other: PeerId)
    requires
        distinct_ids(s),
        position_of(s, pid) is Some,
        other != pid,
    ensures
        ({
            let t = swap_removed(s, position_of(s, pid)->0);
            &&& position_of(t, pid) is None
            &&& (position_of(t, other) is Some) == (position_of(s, other) is Some)
            &&& position_of(s, other) matches Some(k) ==> (position_of(t, other) matches Some(l) && t[l].1 == s[k].1)
        }),
{
    let i = position_of(s, pid)->0;
    let t = swap_removed(s, i);
    let last = s.len() - 1;
    assert forall|x: int| 0 <= x < t.len() implies #[trigger] t[x] == s[if x == i { last } else { x }] by {}
    if position_of(t, pid) is Some {
        let x = position_of(t, pid)->0;
        let y = if x == i { last } else { x };
        assert(s[y].0 == pid);
        assert(y == i);
    }
    if let Some(k) = position_of(s, other) {
        let x = if k == last { i } else { k };
        assert(t[x] == s[k]);
        let l = position_of(t, other)->0;
        let yl = if l == i { last } else { l };
        assert(s[yl].0 == other);
        assert(yl == k);
    }
    if position_of(t, other) is Some {
        let l = position_of(t, other)->0;
        let yl = if l == i { last } else { l };
        assert(s[yl].0 == other);
    }
}

// ---------------------------------------------------------------------------
// Peers.

struct Peer<A> {
    conn: Connection,
    addr: A,
}

/// A chunk a peer sent.
#[derive(Clone, Copy, Debug, PartialEq, Eq)]
pub struct Chunk<'a> {
    pub pid: PeerId,
    pub vital: bool,
    pub data: &'a [u8],
}

/// A connectionless packet, from a peer or from an unknown address.
#[derive(Clone, Copy, Debug, PartialEq, Eq)]
pub struct ConnlessChunk<'a, A> {
    pub addr: A,
    pub pid: Option<PeerId>,
    pub data: &'a [u8],
}

/// What receiving a packet yields.
#[derive(Clone, Copy, Debug, PartialEq, Eq)]
pub enum ChunkOrEvent<'a, A> {
    Chunk(Chunk<'a>),
    Connless(ConnlessChunk<'a, A>),
    Connect(PeerId),
    Ready(PeerId),
    Disconnect(PeerId, &'a [u8]),
}

/// What receiving a packet yields, by value.
pub enum Event<A> {
    Chunk(PeerId, bool, Seq<u8>),
    Connless(A, Option<PeerId>, Seq<u8>),
    Connect(PeerId),
    Ready(PeerId),
    Disconnect(PeerId, Seq<u8>),
}

/// The value of a yielded chunk or event.
pub open spec fn event_view<'a, A>(e: ChunkOrEvent<'a, A>) -> Event<A> {
    match e {
        ChunkOrEvent::Chunk(c) => Event::Chunk(c.pid, c.vital, c.data@),
        ChunkOrEvent::Connless(c) => Event::Connless(c.addr, c.pid, c.data@),
        ChunkOrEvent::Connect(p) => Event::Connect(p),
        ChunkOrEvent::Ready(p) => Event::Ready(p),
        ChunkOrEvent::Disconnect(p, r) => Event::Disconnect(p, r@),
    }
}

/// The values of yielded chunks and events.
pub open spec fn events_view<'a, A>(s: Seq<ChunkOrEvent<'a, A>>) -> Seq<Event<A>> {
    s.map_values(|e: ChunkOrEvent<'a, A>| event_view(e))
}

/// What the connection of peer `pid` at `addr` received, as events.
pub open spec fn peer_event<A>(addr: A, pid: PeerId, r: Received) -> Event<A> {
    match r {
        Received::Connless(d) => Event::Connless(addr, Some(pid), d),
        Received::Connected(d, vital) => Event::Chunk(pid, vital, d),
        Received::Ready => Event::Ready(pid),
        Received::Disconnect(d) => Event::Disconnect(pid, d),
    }
}

/// What the connection of peer `pid` at `addr` received, as events.
pub open spec fn peer_events<A>(addr: A, pid: PeerId, rs: Seq<Received>) -> Seq<Event<A>> {
    rs.map_values(|r: Received| peer_event(addr, pid, r))
}

/// The packets to send, with the address each goes to.
pub open spec fn outgoing<A>(out: Seq<(A, Vec<u8>)>) -> Seq<(A, Seq<u8>)> {
    out.map_values(|p: (A, Vec<u8>)| (p.0, p.1@))
}

/// The packets `ps`, all to `addr`.
pub open spec fn to_addr<A>(addr: A, ps: Seq<Seq<u8>>) -> Seq<(A, Seq<u8>)> {
    ps.map_values(|p: Seq<u8>| (addr, p))
}

/// Many connections, as a value: the peers with their id, address and
/// connection; the id to try next for a new peer; whether peers may
/// connect.
#[verifier::ext_equal]
pub struct NetView<A> {
    pub peers: Seq<(PeerId, A, ConnectionView)>,
    pub next_peer_id: PeerId,
    pub accept_connections: bool,
}

/// The ids of the peers `s`.
pub open spec fn peer_ids<A>(s: Seq<(PeerId, A, ConnectionView)>) -> Seq<PeerId> {
    s.map_values(|e: (PeerId, A, ConnectionView)| e.0)
}

/// The position of peer `pid` in `s`, if it is there.
pub open spec fn peer_position<A>(s: Seq<(PeerId, A, ConnectionView)>, pid: PeerId) -> Option<int> {
    if exists|i: int| 0 <= i < s.len() && s[i].0 == pid {
        Some(choose|i: int| 0 <= i < s.len() && s[i].0 == pid)
    } else {
        None
    }
}

/// `r` is the first id from `start` on, wrapping around, that no peer of
/// `s` has.
pub open spec fn first_free_id<A>(s: Seq<(PeerId, A, ConnectionView)>, start: PeerId, r: PeerId) -> bool {
    let d = (r.0 - start.0) % 0x1_0000_0000int;
    &&& !peer_ids(s).contains(r)
    &&& forall|k: int| 0 <= k < d ==> #[trigger] peer_ids(s).contains(PeerId(((start.0 + k) % 0x1_0000_0000int) as u32))
}

/// Many connections over one socket.
pub struct Net<A> {
    peers: PeerMap<Peer<A>>,
    next_peer_id: PeerId,
    accept_connections: bool,
}

impl<A> View for Net<A> {
    type V = NetView<A>;

    closed spec fn view(&self) -> NetView<A> {
        NetView {
            peers: self.peers.map@.map_values(|e: (PeerId, Peer<A>)| (e.0, e.1.addr, e.1.conn@)),
            next_peer_id: self.next_peer_id,
            accept_connections: self.accept_connections,
        }
    }
}

/// The peer with the used id `x`, and ids tried before that were all used
/// and all different: there are more peers than ids tried.
proof fn lemma_more_peers(used: Seq<PeerId>, tried: Set<PeerId>, x: PeerId)
    requires
        tried.finite(),
        forall|y: PeerId| tried.contains(y) ==> used.contains(y),
        used.contains(x),
        !tried.contains(x),
    ensures
        tried.len() + 1 <= used.len(),
{
    let t2 = tried.insert(x);
    assert(t2.subset_of(used.to_set()));
    vstd::seq_lib::seq_to_set_is_finite(used);
    vstd::set_lib::lemma_len_subset(t2, used.to_set());
    used.lemma_cardinality_of_set();
}

impl<A: Copy> Net<A> {
    /// The invariant: no id twice, every connection well-formed.
    pub closed spec fn wf(&self) -> bool {
        &&& distinct_ids(self.peers.map@)
        &&& forall|i: int| 0 <= i < self.peers.map@.len() ==> (#[trigger] self.peers.map@[i]).1.conn.wf()
    }

    fn new(accept_connections: bool) -> (r: Net<A>)
        ensures
            r.wf(),
            r@ == (NetView::<A> {
                peers: Seq::empty(),
                next_peer_id: PeerId(0),
                accept_connections,
            }),
    {
        let r = Net { peers: PeerMap::new(), next_peer_id: PeerId(0), accept_connections };
        assert(r@ =~= NetView::<A> { peers: Seq::empty(), next_peer_id: PeerId(0), accept_connections });
        r
    }

    /// No peers; others may connect.
    pub fn server() -> (r: Net<A>)
        ensures
            r.wf(),
            r@ == (NetView::<A> { peers: Seq::empty(), next_peer_id: PeerId(0), accept_connections: true }),
    {
        Net::new(true)
    }

    /// No peers; only own connections.
    pub fn client() -> (r: Net<A>)
        ensures
            r.wf(),
            r@ == (NetView::<A> { peers: Seq::empty(), next_peer_id: PeerId(0), accept_connections: false }),
    {
        Net::new(false)
    }

    /// The time until the first peer must be ticked, where any must.
    pub fn needs_tick(&self) -> (r: Option<u64>)
        ensures
            r is None <==> forall|i: int| 0 <= i < self@.peers.len() ==> (#[trigger] self@.peers[i]).2.timeout is None,
            r matches Some(t) ==> (exists|i: int| 0 <= i < self@.peers.len() && (#[trigger] self@.peers[i]).2.timeout == Some(t))
                && forall|i: int| 0 <= i < self@.peers.len() ==> ((#[trigger] self@.peers[i]).2.timeout matches Some(u) ==> t <= u),
    {
        let mut best: Option<u64> = None;
        let mut i: usize = 0;
        while i < self.peers.map.len()
            invariant
                i <= self@.peers.len(),
                self@.peers.len() == self.peers.map@.len(),
                forall|k: int| 0 <= k < self@.peers.len() ==> (#[trigger] self@.peers[k]).2 == self.peers.map@[k].1.conn@,
                best is None <==> forall|k: int| 0 <= k < i ==> (#[trigger] self@.peers[k]).2.timeout is None,
                best matches Some(t) ==> (exists|k: int| 0 <= k < i && (#[trigger] self@.peers[k]).2.timeout == Some(t))
                    && forall|k: int| 0 <= k < i ==> ((#[trigger] self@.peers[k]).2.timeout matches Some(u) ==> t <= u),
            decreases self.peers.map.len() - i,
        {
            let t = self.peers.map[i].1.conn.timeout();
            assert(self@.peers[i as int].2.timeout == t);
            match (t, best) {
                (Some(t), Some(b)) => {
                    if t < b {
                        best = Some(t);
                    }
                },
                (Some(t), None) => {
                    best = Some(t);
                },
                _ => {},
            }
            i = i + 1;
        }
        best
    }

    /// Whether the chunk or event `chunk` still belongs to a peer that is
    /// there: a chunk whose peer left is not.
    pub fn is_receive_chunk_still_valid(&self, chunk: &ChunkOrEvent<A>) -> (r: bool)
        requires
            self.wf(),
        ensures
            r == (match *chunk {
                ChunkOrEvent::Chunk(c) => peer_ids(self@.peers).contains(c.pid),
                _ => true,
            }),
    {
        match *chunk {
            ChunkOrEvent::Chunk(c) => {
                let found = self.peers.find(c.pid);
                proof {
                    assert(peer_ids(self@.peers) =~= ids(self.peers.map@));
                    lemma_position_contains(self.peers.map@, c.pid);
                }
                found.is_some()
            },
            _ => true,
        }
    }

    /// Adds a peer at `addr` with a new connection, under the first id
    /// from the next one on that is free.
    fn new_peer(&mut self, addr: A) -> (r: PeerId)
        requires
            old(self).wf(),
            old(self)@.peers.len() < u32::MAX,
        ensures
            final(self).wf(),
            first_free_id(old(self)@.peers, old(self)@.next_peer_id, r),
            final(self)@.peers == old(self)@.peers.push((r, addr, new_connection())),
            final(self)@.next_peer_id == next_id(r),
            final(self)@.accept_connections == old(self)@.accept_connections,
    {
        let ghost start = self.next_peer_id;
        let ghost used = peer_ids(self@.peers);
        let ghost mut tried: Set<PeerId> = Set::empty();
        let ghost mut k: int = 0;
        proof {
            assert(used =~= ids(self.peers.map@));
        }
        loop
            invariant
                self.wf(),
                start == old(self)@.next_peer_id,
                self@.peers == old(self)@.peers,
                self@.accept_connections == old(self)@.accept_connections,
                used == peer_ids(self@.peers),
                used =~= ids(self.peers.map@),
                self@.peers.len() < u32::MAX,
                0 <= k <= used.len(),
                self.next_peer_id.0 == (start.0 + k) % 0x1_0000_0000int,
                tried.finite(),
                tried.len() == k,
                forall|y: PeerId| tried.contains(y) ==> used.contains(y),
                forall|y: PeerId| tried.contains(y) ==> (y.0 - start.0) % 0x1_0000_0000int < k,
                forall|j: int| 0 <= j < k ==> #[trigger] used.contains(PeerId(((start.0 + j) % 0x1_0000_0000int) as u32)),
            decreases used.len() - k,
        {
            let pid = self.next_peer_id.get_and_increment();
            proof {
                assert(pid.0 == (start.0 + k) % 0x1_0000_0000int);
                assert((pid.0 - start.0) % 0x1_0000_0000int == k) by {
                    assert(0 <= k < 0x1_0000_0000int);
                }
            }
            if !self.peers.contains_key(pid) {
                let ghost before = self.peers.map@;
                self.peers.map.push((pid, Peer { conn: Connection::new(), addr }));
                proof {
                    assert(!used.contains(pid)) by {
                        if used.contains(pid) {
                            let i = choose|i: int| 0 <= i < used.len() && used[i] == pid;
                            assert(before[i].0 == pid);
                        }
                    }
                    assert(self@.peers =~= old(self)@.peers.push((pid, addr, new_connection())));
                    assert forall|i: int| 0 <= i < self.peers.map@.len() implies (#[trigger] self.peers.map@[i]).1.conn.wf() by {
                        if i < before.len() {
                            assert(self.peers.map@[i] == before[i]);
                        }
                    }
                    assert forall|i: int, j: int| 0 <= i < j < self.peers.map@.len() implies self.peers.map@[i].0
                        != self.peers.map@[j].0 by {
                        if j == before.len() {
                            assert(used[i] == before[i].0);
                        }
                    }
                    assert(!peer_ids(old(self)@.peers).contains(pid));
                    assert(start == old(self)@.next_peer_id);
                    assert forall|j: int| 0 <= j < (pid.0 - start.0) % 0x1_0000_0000int implies #[trigger] peer_ids(
                        old(self)@.peers,
                    ).contains(PeerId(((start.0 + j) % 0x1_0000_0000int) as u32)) by {
                        assert(used.contains(PeerId(((start.0 + j) % 0x1_0000_0000int) as u32)));
                    }
                }
                return pid;
            }
            proof {
                let i = choose|i: int| 0 <= i < self.peers.map@.len() && self.peers.map@[i].0 == pid;
                assert(used[i] == pid);
                assert(used.contains(pid));
                assert(!tried.contains(pid));
                lemma_more_peers(used, tried, pid);
                tried = tried.insert(pid);
                k = k + 1;
            }
        }
    }

    /// Connects to `addr`: adds a peer and sends it a connection request.
    pub fn connect(&mut self, huffman: &Huffman, time_since_tick: u64, out: &mut Vec<(A, Vec<u8>)>, addr: A) -> (r:
        PeerId)
        requires
            old(self).wf(),
            old(self)@.peers.len() < u32::MAX,
            time_since_tick + SEND_INTERVAL <= u64::MAX,
        ensures
            final(self).wf(),
            first_free_id(old(self)@.peers, old(self)@.next_peer_id, r),
            final(self)@.next_peer_id == next_id(r),
            final(self)@.accept_connections == old(self)@.accept_connections,
            final(self)@.peers == old(self)@.peers.push(
                (
                    r,
                    addr,
                    ConnectionView {
                        phase: Phase::Connecting,
                        timeout: Some((time_since_tick + SEND_INTERVAL) as u64),
                        online: crate::connection::fresh_online(),
                    },
                ),
            ),
            outgoing(final(out)@) == outgoing(old(out)@) + to_addr(
                addr,
                seq![crate::connection::control_packet(0, crate::protocol::ControlPacket::Connect)],
            ),
    {
        let pid = self.new_peer(addr);
        let ghost before = self.peers.map@;
        let ghost mid = self@.peers;
        proof {
            assert(self@.peers.len() == before.len());
            assert(self@.peers[before.len() - 1] == (pid, addr, new_connection()));
            assert(before[before.len() - 1].1.conn@ == new_connection());
        }
        let last = self.peers.map.len() - 1;
        let (id, mut peer) = self.peers.map.remove(last);
        let mut sent: Vec<Vec<u8>> = Vec::new();
        peer.conn.connect(huffman, time_since_tick, &mut sent);
        self.peers.map.push((id, peer));
        send_all(out, addr, sent);
        proof {
            assert(packets(Seq::<Vec<u8>>::empty()) =~= Seq::<Seq<u8>>::empty());
            assert(self.peers.map@ =~= before.update(last as int, (id, peer)));
            assert forall|i: int| 0 <= i < self.peers.map@.len() implies (#[trigger] self.peers.map@[i]).1.conn.wf() by {
                if i < last {
                    assert(self.peers.map@[i] == before[i]);
                }
            }
            assert(self@.peers =~= mid.update(last as int, (pid, addr, peer.conn@)));
            assert(self@.peers =~= old(self)@.peers.push(
                (
                    pid,
                    addr,
                    ConnectionView {
                        phase: Phase::Connecting,
                        timeout: Some((time_since_tick + SEND_INTERVAL) as u64),
                        online: crate::connection::fresh_online(),
                    },
                ),
            ));
        }
        pid
    }
}

/// `s` with the connection of the peer at `i` replaced by `c`.
pub open spec fn with_conn<A>(s: Seq<(PeerId, A, ConnectionView)>, i: int, c: ConnectionView) -> Seq<
    (PeerId, A, ConnectionView),
> {
    s.update(i, (s[i].0, s[i].1, c))
}

/// What ticking the connection `c` by `delta` makes of it.
pub open spec fn ticked(c: ConnectionView, time_since_tick: u64, delta: u64) -> ConnectionView {
    if c.timeout matches Some(t) && delta >= t {
        after_tick_action(c, time_since_tick)
    } else {
        ConnectionView { timeout: tick_timeout(c.timeout, delta), ..c }
    }
}

/// What ticking the connection `c` by `delta` sends.
pub open spec fn tick_sent(c: ConnectionView, nodes: Seq<crate::huffman::Node>, delta: u64) -> Seq<Seq<u8>> {
    if c.timeout matches Some(t) && delta >= t {
        tick_packets(c, nodes)
    } else {
        Seq::empty()
    }
}

/// What ticking the first `n` peers of `s` sends, in order.
pub open spec fn ticks_sent<A>(
    s: Seq<(PeerId, A, ConnectionView)>,
    nodes: Seq<crate::huffman::Node>,
    delta: u64,
    n: int,
) -> Seq<(A, Seq<u8>)>
    decreases n,
{
    if n <= 0 {
        Seq::empty()
    } else {
        ticks_sent(s, nodes, delta, n - 1) + to_addr(s[n - 1].1, tick_sent(s[n - 1].2, nodes, delta))
    }
}

/// The first peer of `s` at `addr`.
pub open spec fn peer_at<A>(s: Seq<(PeerId, A, ConnectionView)>, addr: A) -> Option<int> {
    if exists|i: int| 0 <= i < s.len() && s[i].1 == addr {
        Some(choose|i: int| 0 <= i < s.len() && s[i].1 == addr && forall|j: int| 0 <= j < i ==> s[j].1 != addr)
    } else {
        None
    }
}

/// One of `rs` closes the connection.
pub open spec fn has_disconnect(rs: Seq<Received>) -> bool {
    exists|k: int| 0 <= k < rs.len() && rs[k] is Disconnect
}

/// The packet every connection request is: a control packet asking to
/// connect.
pub open spec fn connect_packet() -> Seq<u8> {
    seq![0x10u8, 0x00u8, 0x00u8, 0x01u8]
}

impl<A: Copy> Net<A> {
    /// The position of the peer `pid`.
    fn index_of(&self, pid: PeerId) -> (r: usize)
        requires
            self.wf(),
            peer_position(self@.peers, pid) is Some,
        ensures
            r == peer_position(self@.peers, pid)->0,
            r < self@.peers.len(),
            self@.peers[r as int].0 == pid,
    {
        proof {
            let i = peer_position(self@.peers, pid)->0;
            assert(self.peers.map@[i].0 == pid);
        }
        let r = self.peers.find(pid).unwrap();
        proof {
            let i = peer_position(self@.peers, pid)->0;
            assert(self@.peers[r as int].0 == pid);
            assert(i == r) by {
                if i != r {
                    assert(self.peers.map@[i].0 == self.peers.map@[r as int].0);
                }
            }
        }
        r
    }

    /// Removes the peer at position `i`; the last one takes its place.
    fn remove_at(&mut self, i: usize)
        requires
            old(self).wf(),
            i < old(self)@.peers.len(),
        ensures
            final(self).wf(),
            final(self)@ == (NetView { peers: swap_removed(old(self)@.peers, i as int), ..old(self)@ }),
    {
        let ghost before = self.peers.map@;
        self.peers.map.swap_remove(i);
        proof {
            assert(self.peers.map@ =~= swap_removed(before, i as int));
            assert(self@.peers =~= swap_removed(old(self)@.peers, i as int));
            assert forall|a: int, b: int| 0 <= a < b < self.peers.map@.len() implies self.peers.map@[a].0
                != self.peers.map@[b].0 by {
                let last = before.len() - 1;
                let ia = if a == i { last } else { a };
                let ib = if b == i { last } else { b };
                assert(self.peers.map@[a] == before[ia]);
                assert(self.peers.map@[b] == before[ib]);
            }
            assert forall|k: int| 0 <= k < self.peers.map@.len() implies (#[trigger] self.peers.map@[k]).1.conn.wf() by {
                let last = before.len() - 1;
                let ik = if k == i { last } else { k };
                assert(self.peers.map@[k] == before[ik]);
            }
        }
        assert(self@ =~= NetView { peers: swap_removed(old(self)@.peers, i as int), ..old(self)@ });
    }

    /// Forgets the peer `pid` without telling it.
    pub fn ignore(&mut self, pid: PeerId)
        requires
            old(self).wf(),
            peer_position(old(self)@.peers, pid) is Some,
        ensures
            final(self).wf(),
            final(self)@ == (NetView {
                peers: swap_removed(old(self)@.peers, peer_position(old(self)@.peers, pid)->0),
                ..old(self)@
            }),
    {
        let i = self.index_of(pid);
        self.remove_at(i);
    }

    /// Closes the connection to the peer `pid`, telling it `reason`, and
    /// forgets it.
    pub fn disconnect(&mut self, out: &mut Vec<(A, Vec<u8>)>, pid: PeerId, reason: &[u8])
        requires
            old(self).wf(),
            peer_position(old(self)@.peers, pid) is Some,
            old(self)@.peers[peer_position(old(self)@.peers, pid)->0].2.phase != Phase::Unconnected,
            old(self)@.peers[peer_position(old(self)@.peers, pid)->0].2.phase != Phase::Disconnected,
            no_nul(reason@),
            reason@.len() < 128,
        ensures
            final(self).wf(),
            ({
                let i = peer_position(old(self)@.peers, pid)->0;
                let p = old(self)@.peers[i];
                &&& final(self)@ == (NetView { peers: swap_removed(old(self)@.peers, i), ..old(self)@ })
                &&& outgoing(final(out)@) == outgoing(old(out)@) + to_addr(
                    p.1,
                    seq![control_packet(p.2.online.ack, ControlPacket::Close(reason))],
                )
            }),
    {
        let i = self.index_of(pid);
        let addr = self.peers.map[i].1.addr;
        let mut sent: Vec<Vec<u8>> = Vec::new();
        {
            let ghost before = self.peers.map@;
            let (id, mut peer) = self.peers.map.remove(i);
            peer.conn.disconnect(&mut sent, reason);
            self.peers.map.insert(i, (id, peer));
            proof {
                assert(self.peers.map@ =~= before.update(i as int, (id, peer)));
                assert forall|k: int| 0 <= k < self.peers.map@.len() implies (#[trigger] self.peers.map@[k]).1.conn.wf() by {
                    if k != i {
                        assert(self.peers.map@[k] == before[k]);
                    }
                }
                assert(packets(Seq::<Vec<u8>>::empty()) =~= Seq::<Seq<u8>>::empty());
            }
        }
        send_all(out, addr, sent);
        self.remove_at(i);
        assert(self@.peers =~= swap_removed(old(self)@.peers, i as int));
    }
}

impl<A: Copy> Net<A> {
    /// Queues the chunk `chunk` on the connection of its peer, first
    /// sending what is collected where it does not fit after it.
    pub fn send(&mut self, huffman: &Huffman, out: &mut Vec<(A, Vec<u8>)>, chunk: Chunk) -> (r: Result<(), Error>)
        requires
            old(self).wf(),
            peer_position(old(self)@.peers, chunk.pid) is Some,
            ({
                let c = old(self)@.peers[peer_position(old(self)@.peers, chunk.pid)->0].2;
                &&& c.phase == Phase::Online
                &&& chunk.data@.len() > MAX_PAYLOAD || chunk.data@.len() < 1024
                &&& !(chunk_fits(c.online.packet, chunk.data@, chunk.vital) && c.online.num_chunks == 255)
            }),
        ensures
            final(self).wf(),
            ({
                let i = peer_position(old(self)@.peers, chunk.pid)->0;
                let p = old(self)@.peers[i];
                let c = p.2;
                let fits = chunk_fits(c.online.packet, chunk.data@, chunk.vital);
                let o = if fits {
                    c.online
                } else {
                    flushed(c.online)
                };
                if chunk.data@.len() > MAX_PAYLOAD {
                    &&& r == Err::<(), Error>(Error::TooLongData)
                    &&& final(self)@ == old(self)@
                    &&& outgoing(final(out)@) == outgoing(old(out)@)
                } else {
                    &&& r is Ok
                    &&& final(self)@ == (NetView {
                        peers: with_conn(old(self)@.peers, i, ConnectionView { online: queued(o, chunk.data@, chunk.vital), ..c }),
                        ..old(self)@
                    })
                    &&& outgoing(final(out)@) == outgoing(old(out)@) + to_addr(
                        p.1,
                        if fits {
                            Seq::empty()
                        } else {
                            flush_packets(c.online, huffman.spec_nodes())
                        },
                    )
                }
            }),
    {
        let i = self.index_of(chunk.pid);
        let addr = self.peers.map[i].1.addr;
        let mut sent: Vec<Vec<u8>> = Vec::new();
        let ghost before = self.peers.map@;
        let (id, mut peer) = self.peers.map.remove(i);
        let r = peer.conn.send(huffman, &mut sent, chunk.data, chunk.vital);
        let ghost c = peer.conn@;
        self.peers.map.insert(i, (id, peer));
        proof {
            assert(self.peers.map@ =~= before.update(i as int, (id, peer)));
            assert forall|k: int| 0 <= k < self.peers.map@.len() implies (#[trigger] self.peers.map@[k]).1.conn.wf() by {
                if k != i {
                    assert(self.peers.map@[k] == before[k]);
                }
            }
            assert(packets(Seq::<Vec<u8>>::empty()) =~= Seq::<Seq<u8>>::empty());
            assert(self@.peers =~= with_conn(old(self)@.peers, i as int, c));
            if chunk.data@.len() > MAX_PAYLOAD {
                assert(with_conn(old(self)@.peers, i as int, c) =~= old(self)@.peers);
            }
        }
        send_all(out, addr, sent);
        proof {
            assert(to_addr(addr, Seq::<Seq<u8>>::empty()) =~= Seq::<(A, Seq<u8>)>::empty());
            assert(outgoing(old(out)@) + Seq::<(A, Seq<u8>)>::empty() =~= outgoing(old(out)@));
        }
        assert(self@ =~= NetView { peers: self@.peers, ..old(self)@ });
        r
    }

    /// Sends what the connection of the peer `pid` collected.
    pub fn flush(&mut self, huffman: &Huffman, time_since_tick: u64, out: &mut Vec<(A, Vec<u8>)>, pid: PeerId)
        requires
            old(self).wf(),
            peer_position(old(self)@.peers, pid) is Some,
            old(self)@.peers[peer_position(old(self)@.peers, pid)->0].2.phase == Phase::Online,
            time_since_tick + SEND_INTERVAL <= u64::MAX,
        ensures
            final(self).wf(),
            ({
                let i = peer_position(old(self)@.peers, pid)->0;
                let p = old(self)@.peers[i];
                &&& final(self)@ == (NetView {
                    peers: with_conn(
                        old(self)@.peers,
                        i,
                        ConnectionView {
                            phase: Phase::Online,
                            timeout: Some((time_since_tick + SEND_INTERVAL) as u64),
                            online: flushed(p.2.online),
                        },
                    ),
                    ..old(self)@
                })
                &&& outgoing(final(out)@) == outgoing(old(out)@) + to_addr(p.1, flush_packets(p.2.online, huffman.spec_nodes()))
            }),
    {
        let i = self.index_of(pid);
        let addr = self.peers.map[i].1.addr;
        let mut sent: Vec<Vec<u8>> = Vec::new();
        let ghost before = self.peers.map@;
        let (id, mut peer) = self.peers.map.remove(i);
        peer.conn.flush(huffman, time_since_tick, &mut sent);
        let ghost c = peer.conn@;
        self.peers.map.insert(i, (id, peer));
        proof {
            assert(self.peers.map@ =~= before.update(i as int, (id, peer)));
            assert forall|k: int| 0 <= k < self.peers.map@.len() implies (#[trigger] self.peers.map@[k]).1.conn.wf() by {
                if k != i {
                    assert(self.peers.map@[k] == before[k]);
                }
            }
            assert(packets(Seq::<Vec<u8>>::empty()) =~= Seq::<Seq<u8>>::empty());
            assert(self@.peers =~= with_conn(old(self)@.peers, i as int, c));
        }
        send_all(out, addr, sent);
        assert(self@ =~= NetView { peers: self@.peers, ..old(self)@ });
    }

    /// Sends a connectionless packet with `data` to `addr`.
    pub fn send_connless(&mut self, out: &mut Vec<(A, Vec<u8>)>, addr: A, data: &[u8]) -> (r: Result<(), Error>)
        ensures
            final(self)@ == old(self)@,
            data@.len() > MAX_PAYLOAD ==> r == Err::<(), Error>(Error::TooLongData) && outgoing(final(out)@)
                == outgoing(old(out)@),
            data@.len() <= MAX_PAYLOAD ==> r is Ok && outgoing(final(out)@) == outgoing(old(out)@).push(
                (addr, connless_header() + data@),
            ),
    {
        if data.len() > MAX_PAYLOAD {
            return Err(Error::TooLongData);
        }
        let mut packet: Vec<u8> = vec![0xff, 0xff, 0xff, 0xff, 0xff, 0xff];
        assert(packet@ =~= connless_header());
        crate::packer::extend_bytes(&mut packet, data);
        let ghost before = out@;
        out.push((addr, packet));
        assert(outgoing(out@) =~= outgoing(before).push((addr, connless_header() + data@)));
        Ok(())
    }

    /// Accepts the peer `pid` that asked to connect: its connection
    /// receives the connection request, and answers it.
    pub fn accept(&mut self, huffman: &Huffman, time_since_tick: u64, out: &mut Vec<(A, Vec<u8>)>, pid: PeerId)
        requires
            old(self).wf(),
            peer_position(old(self)@.peers, pid) is Some,
            old(self)@.peers[peer_position(old(self)@.peers, pid)->0].2.phase == Phase::Unconnected,
            time_since_tick + SEND_INTERVAL <= u64::MAX,
        ensures
            final(self).wf(),
            ({
                let i = peer_position(old(self)@.peers, pid)->0;
                let p = old(self)@.peers[i];
                let (c, _, sent) = feed_outcome(p.2, connect_packet(), huffman.spec_nodes(), time_since_tick);
                &&& final(self)@ == (NetView { peers: with_conn(old(self)@.peers, i, c), ..old(self)@ })
                &&& outgoing(final(out)@) == outgoing(old(out)@) + to_addr(p.1, sent)
            }),
    {
        let i = self.index_of(pid);
        let addr = self.peers.map[i].1.addr;
        let mut sent: Vec<Vec<u8>> = Vec::new();
        let ghost before = self.peers.map@;
        let (id, mut peer) = self.peers.map.remove(i);
        let packet: [u8; 4] = [0x10, 0x00, 0x00, 0x01];
        assert(packet@ =~= connect_packet());
        let mut buffer: Vec<u8> = Vec::new();
        let _ = peer.conn.feed(huffman, time_since_tick, &mut sent, &packet, &mut buffer);
        let ghost c = peer.conn@;
        self.peers.map.insert(i, (id, peer));
        proof {
            assert(self.peers.map@ =~= before.update(i as int, (id, peer)));
            assert forall|k: int| 0 <= k < self.peers.map@.len() implies (#[trigger] self.peers.map@[k]).1.conn.wf() by {
                if k != i {
                    assert(self.peers.map@[k] == before[k]);
                }
            }
            assert(packets(Seq::<Vec<u8>>::empty()) =~= Seq::<Seq<u8>>::empty());
            assert(self@.peers =~= with_conn(old(self)@.peers, i as int, c));
        }
        send_all(out, addr, sent);
        assert(self@ =~= NetView { peers: self@.peers, ..old(self)@ });
    }

    /// Advances time by `delta` for every peer, in order; each does what is
    /// due.
    pub fn tick(&mut self, huffman: &Huffman, time_since_tick: u64, out: &mut Vec<(A, Vec<u8>)>, delta: u64)
        requires
            old(self).wf(),
            time_since_tick + SEND_INTERVAL <= u64::MAX,
        ensures
            final(self).wf(),
            final(self)@.next_peer_id == old(self)@.next_peer_id,
            final(self)@.accept_connections == old(self)@.accept_connections,
            final(self)@.peers.len() == old(self)@.peers.len(),
            forall|i: int|
                0 <= i < old(self)@.peers.len() ==> #[trigger] final(self)@.peers[i] == (
                    old(self)@.peers[i].0,
                    old(self)@.peers[i].1,
                    ticked(old(self)@.peers[i].2, time_since_tick, delta),
                ),
            outgoing(final(out)@) == outgoing(old(out)@) + ticks_sent(
                old(self)@.peers,
                huffman.spec_nodes(),
                delta,
                old(self)@.peers.len() as int,
            ),
    {
        let ghost s0 = self@.peers;
        let ghost o0 = outgoing(out@);
        let mut i: usize = 0;
        while i < self.peers.map.len()
            invariant
                self.wf(),
                time_since_tick + SEND_INTERVAL <= u64::MAX,
                self@.next_peer_id == old(self)@.next_peer_id,
                self@.accept_connections == old(self)@.accept_connections,
                s0 == old(self)@.peers,
                o0 == outgoing(old(out)@),
                self@.peers.len() == s0.len(),
                i <= s0.len(),
                forall|k: int|
                    0 <= k < i ==> #[trigger] self@.peers[k] == (s0[k].0, s0[k].1, ticked(s0[k].2, time_since_tick, delta)),
                forall|k: int| i <= k < s0.len() ==> #[trigger] self@.peers[k] == s0[k],
                outgoing(out@) == o0 + ticks_sent(s0, huffman.spec_nodes(), delta, i as int),
            decreases s0.len() - i,
        {
            let addr = self.peers.map[i].1.addr;
            let mut sent: Vec<Vec<u8>> = Vec::new();
            let ghost before = self.peers.map@;
            let ghost vb = self@.peers;
            let (id, mut peer) = self.peers.map.remove(i);
            assert(vb[i as int].2 == peer.conn@);
            peer.conn.tick(huffman, time_since_tick, &mut sent, delta);
            let ghost c = peer.conn@;
            self.peers.map.insert(i, (id, peer));
            proof {
                assert(self.peers.map@ =~= before.update(i as int, (id, peer)));
                assert forall|k: int| 0 <= k < self.peers.map@.len() implies (#[trigger] self.peers.map@[k]).1.conn.wf() by {
                    if k != i {
                        assert(self.peers.map@[k] == before[k]);
                    }
                }
                assert(self@.peers =~= with_conn(vb, i as int, c));
                assert(packets(Seq::<Vec<u8>>::empty()) =~= Seq::<Seq<u8>>::empty());
                if !(s0[i as int].2.timeout matches Some(t) && delta >= t) {
                    assert(sent@ =~= Seq::<Vec<u8>>::empty());
                    assert(packets(sent@) =~= Seq::<Seq<u8>>::empty());
                }
            }
            let ghost ob = outgoing(out@);
            send_all(out, addr, sent);
            proof {
                assert(ticks_sent(s0, huffman.spec_nodes(), delta, i + 1) == ticks_sent(s0, huffman.spec_nodes(), delta, i as int)
                    + to_addr(s0[i as int].1, tick_sent(s0[i as int].2, huffman.spec_nodes(), delta)));
                assert(outgoing(out@) =~= o0 + ticks_sent(s0, huffman.spec_nodes(), delta, i + 1));
            }
            i = i + 1;
        }
    }
}

/// What a packet `b` from an address that is no peer yields: a
/// connectionless packet is passed on, a connection request makes a new
/// peer where others may connect; anything else is passed over.
pub open spec fn stranger_packet(b: Seq<u8>, nodes: Seq<crate::huffman::Node>) -> Option<bool> {
    if read_error(b, nodes) is Some {
        None
    } else if is_connless(b) {
        Some(false)
    } else if is_control(b) && packet_payload(b, nodes)->0[0] == CTRLMSG_CONNECT {
        Some(true)
    } else {
        None
    }
}

/// Receiving `data` from the peer at position `i` took the net from
/// `before` to `after`, yielded `events` and added `sent` to the packets
/// to send: the peer's connection received it, and a peer that closed
/// its connection is forgotten.
#[verifier::opaque]
pub open spec fn peer_fed<A>(
    before: NetView<A>,
    after: NetView<A>,
    i: int,
    data: Seq<u8>,
    nodes: Seq<crate::huffman::Node>,
    time_since_tick: u64,
    events: Seq<Event<A>>,
    sent: Seq<(A, Seq<u8>)>,
) -> bool {
    let p = before.peers[i];
    let (c, rs, s) = feed_outcome(p.2, data, nodes, time_since_tick);
    let updated = with_conn(before.peers, i, c);
    &&& events == peer_events(p.1, p.0, rs)
    &&& sent == to_addr(p.1, s)
    &&& after == (NetView {
        peers: if has_disconnect(rs) {
            swap_removed(updated, i)
        } else {
            updated
        },
        ..before
    })
}

/// Receiving `data` from `addr`, which is no peer, took the net from
/// `before` to `after` and yielded `events`: a connectionless packet is
/// passed on, a connection request makes a new peer where others may
/// connect, anything else is passed over.
#[verifier::opaque]
pub open spec fn stranger_fed<A>(
    before: NetView<A>,
    after: NetView<A>,
    addr: A,
    data: Seq<u8>,
    nodes: Seq<crate::huffman::Node>,
    events: Seq<Event<A>>,
) -> bool {
    match stranger_packet(data, nodes) {
        Some(false) => events == seq![Event::Connless(addr, None, data.subrange(6, data.len() as int))]
            && after == before,
        Some(true) => if before.accept_connections {
            exists|pid: PeerId|
                {
                    &&& events == seq![Event::<A>::Connect(pid)]
                    &&& first_free_id(before.peers, before.next_peer_id, pid)
                    &&& after == (NetView {
                        peers: before.peers.push((pid, addr, new_connection())),
                        next_peer_id: next_id(pid),
                        ..before
                    })
                }
        } else {
            events.len() == 0 && after == before
        },
        None => events.len() == 0 && after == before,
    }
}

/// Takes what a connection received, as events of the peer `pid` at
/// `addr`.
fn peer_chunks<'a, A: Copy>(addr: A, pid: PeerId, rp: ReceivePacket<'a>) -> (r: Vec<ChunkOrEvent<'a, A>>)
    ensures
        events_view(r@) == peer_events(addr, pid, rp@),
{
    let mut rp = rp;
    let ghost all = rp@;
    let mut r: Vec<ChunkOrEvent<'a, A>> = Vec::new();
    while rp.len() > 0
        invariant
            events_view(r@) == peer_events(addr, pid, all.subrange(0, all.len() - rp@.len())),
            rp@.len() <= all.len(),
            rp@ == all.subrange(all.len() - rp@.len(), all.len() as int),
        decreases rp@.len(),
    {
        let ghost before = rp@;
        let ghost rb = r@;
        let c = rp.next().unwrap();
        let e = match c {
            ReceiveChunk::Connless(d) => ChunkOrEvent::Connless(ConnlessChunk { addr, pid: Some(pid), data: d }),
            ReceiveChunk::Connected(d, vital) => ChunkOrEvent::Chunk(Chunk { pid, vital, data: d }),
            ReceiveChunk::Ready => ChunkOrEvent::Ready(pid),
            ReceiveChunk::Disconnect(d) => ChunkOrEvent::Disconnect(pid, d),
        };
        r.push(e);
        proof {
            let n = all.len() - before.len();
            assert(all[n] == before[0]);
            assert(all.subrange(0, n + 1) =~= all.subrange(0, n).push(before[0]));
            assert(events_view(r@) =~= events_view(rb).push(event_view(e)));
            assert(peer_events(addr, pid, all.subrange(0, n + 1)) =~= peer_events(addr, pid, all.subrange(0, n)).push(
                peer_event(addr, pid, before[0]),
            ));
            assert(rp@ =~= all.subrange(all.len() - rp@.len(), all.len() as int));
        }
    }
    assert(all.subrange(0, all.len() as int) =~= all);
    r
}

impl<A: Copy + PartialEq> Net<A> {
    /// The first peer at `addr`.
    fn peer_at_addr(&self, addr: A) -> (r: Option<usize>)
        requires
            vstd::laws_eq::obeys_concrete_eq::<A>(),
        ensures
            peer_at(self@.peers, addr) is None ==> r is None,
            r matches Some(i) ==> i < self.peers.map@.len() && peer_at(self@.peers, addr) == Some(i as int),
            peer_at(self@.peers, addr) is Some ==> r is Some,
    {
        proof {
            reveal(vstd::laws_eq::obeys_concrete_eq);
        }
        let mut i: usize = 0;
        while i < self.peers.map.len()
            invariant
                vstd::laws_eq::obeys_concrete_eq::<A>(),
                i <= self@.peers.len(),
                self@.peers.len() == self.peers.map@.len(),
                forall|k: int| 0 <= k < i ==> self@.peers[k].1 != addr,
            decreases self.peers.map.len() - i,
        {
            proof {
                reveal(vstd::laws_eq::obeys_concrete_eq);
            }
            let a = self.peers.map[i].1.addr;
            assert(self@.peers[i as int].1 == a);
            if a == addr {
                proof {
                    let c = choose|j: int| 0 <= j < self@.peers.len() && self@.peers[j].1 == addr && forall|k: int| 0 <= k < j ==> self@.peers[k].1 != addr;
                    assert(c == i as int) by {
                        if c < i {
                        } else if c > i {
                            assert(self@.peers[i as int].1 == addr);
                        }
                    }
                }
                return Some(i);
            }
            i = i + 1;
        }
        None
    }

    /// Receives the packet `data` from the peer at position `i`.
    fn feed_peer<'a>(
        &mut self,
        huffman: &Huffman,
        time_since_tick: u64,
        out: &mut Vec<(A, Vec<u8>)>,
        i: usize,
        data: &'a [u8],
        buffer: &'a mut Vec<u8>,
    ) -> (r: Vec<ChunkOrEvent<'a, A>>)
        requires
            old(self).wf(),
            i < old(self)@.peers.len(),
            time_since_tick + SEND_INTERVAL <= u64::MAX,
            !feed_resends(old(self)@.peers[i as int].2, data@, huffman.spec_nodes()),
        ensures
            final(self).wf(),
            exists|sent: Seq<(A, Seq<u8>)>|
                {
                    &&& outgoing(final(out)@) == outgoing(old(out)@) + sent
                    &&& peer_fed(
                        old(self)@,
                        final(self)@,
                        i as int,
                        data@,
                        huffman.spec_nodes(),
                        time_since_tick,
                        events_view(r@),
                        sent,
                    )
                },
    {
        let pid = self.peers.map[i].0;
        let addr = self.peers.map[i].1.addr;
        assert(old(self)@.peers[i as int].0 == pid && old(self)@.peers[i as int].1 == addr);
        let mut sent: Vec<Vec<u8>> = Vec::new();
        let ghost before = self.peers.map@;
        let (id, mut peer) = self.peers.map.remove(i);
        let rp = peer.conn.feed(huffman, time_since_tick, &mut sent, data, buffer);
        let ghost c = peer.conn@;
        let ghost rs = rp@;
        self.peers.map.insert(i, (id, peer));
        proof {
            assert(self.peers.map@ =~= before.update(i as int, (id, peer)));
            assert forall|k: int| 0 <= k < self.peers.map@.len() implies (#[trigger] self.peers.map@[k]).1.conn.wf() by {
                if k != i {
                    assert(self.peers.map@[k] == before[k]);
                }
            }
            assert(packets(Seq::<Vec<u8>>::empty()) =~= Seq::<Seq<u8>>::empty());
            assert(self@.peers =~= with_conn(old(self)@.peers, i as int, c));
        }
        send_all(out, addr, sent);
        let events = peer_chunks(addr, pid, rp);
        let disconnects = has_disconnect_event(&events);
        proof {
            assert(events_view(events@) == peer_events(addr, pid, rs));
            assert(events_view(events@).len() == events@.len());
            assert(peer_events(addr, pid, rs).len() == rs.len());
            if disconnects {
                let k = choose|k: int| 0 <= k < events@.len() && events@[k] is Disconnect;
                assert(events_view(events@)[k] is Disconnect);
                assert(events_view(events@)[k] == peer_event(addr, pid, rs[k]));
                assert(rs[k] is Disconnect);
            }
            if has_disconnect(rs) {
                let k = choose|k: int| 0 <= k < rs.len() && rs[k] is Disconnect;
                assert(events_view(events@)[k] == peer_event(addr, pid, rs[k]));
                assert(events@[k] is Disconnect);
            }
        }
        if disconnects {
            self.remove_at(i);
        }
        assert(self@ =~= NetView { peers: self@.peers, ..old(self)@ });
        proof {
            reveal(peer_fed);
            let (cc, rr, ss) = feed_outcome(old(self)@.peers[i as int].2, data@, huffman.spec_nodes(), time_since_tick);
            assert(peer_fed(
                old(self)@,
                self@,
                i as int,
                data@,
                huffman.spec_nodes(),
                time_since_tick,
                events_view(events@),
                to_addr(addr, ss),
            ));
        }
        events
    }

    /// Receives the packet `data` from `addr`, which is no peer.
    fn feed_stranger<'a>(
        &mut self,
        huffman: &Huffman,
        addr: A,
        data: &'a [u8],
        buffer: &'a mut Vec<u8>,
    ) -> (r: Vec<ChunkOrEvent<'a, A>>)
        requires
            old(self).wf(),
            old(self)@.peers.len() < u32::MAX,
        ensures
            final(self).wf(),
            stranger_fed(old(self)@, final(self)@, addr, data@, huffman.spec_nodes(), events_view(r@)),
    {
        let mut warns: Vec<Warning> = Vec::new();
        let mut r: Vec<ChunkOrEvent<'a, A>> = Vec::new();
        match Packet::read(&mut warns, huffman, data, buffer) {
            Ok(Packet::Connless(d)) => {
                r.push(ChunkOrEvent::Connless(ConnlessChunk { addr, pid: None, data: d }));
                assert(events_view(r@) =~= seq![Event::Connless(addr, None, data@.subrange(6, data@.len() as int))]);
            },
            Ok(Packet::Connected(c)) => match c.type_ {
                ConnectedPacketType::Control(ControlPacket::Connect) => {
                    if self.accept_connections {
                        let pid = self.new_peer(addr);
                        r.push(ChunkOrEvent::Connect(pid));
                        assert(self@ =~= NetView {
                            peers: old(self)@.peers.push((pid, addr, new_connection())),
                            next_peer_id: next_id(pid),
                            ..old(self)@
                        });
                    }
                },
                _ => {},
            },
            Err(_) => {},
        }
        proof {
            reveal(stranger_fed);
            if r@.len() == 0 {
                assert(events_view(r@) =~= Seq::<Event<A>>::empty());
            }
            if r@.len() == 1 {
                if let ChunkOrEvent::Connect(pid) = r@[0] {
                    assert(events_view(r@) =~= seq![Event::<A>::Connect(pid)]);
                }
            }
        }
        r
    }

    /// Receives the packet `data` from `addr`; a compressed payload is
    /// decompressed into `buffer`. From a peer, its connection receives it,
    /// and a peer that closes the connection is forgotten. From anybody
    /// else, a connectionless packet is passed on and a connection request
    /// makes a new peer, where others may connect. Returns what the packet
    /// yields.
    pub fn feed<'a>(
        &mut self,
        huffman: &Huffman,
        time_since_tick: u64,
        out: &mut Vec<(A, Vec<u8>)>,
        addr: A,
        data: &'a [u8],
        buffer: &'a mut Vec<u8>,
    ) -> (r: Vec<ChunkOrEvent<'a, A>>)
        requires
            old(self).wf(),
            vstd::laws_eq::obeys_concrete_eq::<A>(),
            old(self)@.peers.len() < u32::MAX,
            time_since_tick + SEND_INTERVAL <= u64::MAX,
            peer_at(old(self)@.peers, addr) matches Some(i) ==> !feed_resends(
                old(self)@.peers[i].2,
                data@,
                huffman.spec_nodes(),
            ),
        ensures
            final(self).wf(),
            match peer_at(old(self)@.peers, addr) {
                Some(i) => exists|sent: Seq<(A, Seq<u8>)>|
                    {
                        &&& outgoing(final(out)@) == outgoing(old(out)@) + sent
                        &&& peer_fed(
                            old(self)@,
                            final(self)@,
                            i,
                            data@,
                            huffman.spec_nodes(),
                            time_since_tick,
                            events_view(r@),
                            sent,
                        )
                    },
                None => outgoing(final(out)@) == outgoing(old(out)@) && stranger_fed(
                    old(self)@,
                    final(self)@,
                    addr,
                    data@,
                    huffman.spec_nodes(),
                    events_view(r@),
                ),
            },
    {
        match self.peer_at_addr(addr) {
            Some(i) => self.feed_peer(huffman, time_since_tick, out, i, data, buffer),
            None => self.feed_stranger(huffman, addr, data, buffer),
        }
    }
}

/// Whether one of the events `es` of a peer closes its connection.
fn has_disconnect_event<'a, A>(es: &Vec<ChunkOrEvent<'a, A>>) -> (r: bool)
    ensures
        r == exists|k: int| 0 <= k < es@.len() && es@[k] is Disconnect,
{
    let mut i: usize = 0;
    while i < es.len()
        invariant
            i <= es@.len(),
            forall|k: int| 0 <= k < i ==> !(es@[k] is Disconnect),
        decreases es.len() - i,
    {
        if let ChunkOrEvent::Disconnect(_, _) = es[i] {
            return true;
        }
        i = i + 1;
    }
    false
}

/// Adds the packets `sent` to `out`, all to `addr`.
fn send_all<A: Copy>(out: &mut Vec<(A, Vec<u8>)>, addr: A, sent: Vec<Vec<u8>>)
    ensures
        outgoing(final(out)@) == outgoing(old(out)@) + to_addr(addr, packets(sent@)),
{
    let mut sent = sent;
    let ghost all = sent@;
    let ghost start = out@;
    let ghost mut moved: Seq<Vec<u8>> = Seq::empty();
    assert(outgoing(out@) =~= outgoing(start) + to_addr(addr, packets(moved)));
    while sent.len() > 0
        invariant
            all == moved + sent@,
            outgoing(out@) == outgoing(start) + to_addr(addr, packets(moved)),
        decreases sent.len(),
    {
        let ghost before = out@;
        let ghost rest = sent@;
        let p = sent.remove(0);
        out.push((addr, p));
        proof {
            assert(outgoing(out@) =~= outgoing(before).push((addr, p@)));
            assert(packets(moved.push(p)) =~= packets(moved).push(p@));
            assert(to_addr(addr, packets(moved.push(p))) =~= to_addr(addr, packets(moved)).push((addr, p@)));
            moved = moved.push(p);
            assert(all =~= moved + sent@);
            assert(outgoing(out@) =~= outgoing(start) + to_addr(addr, packets(moved)));
        }
    }
    assert(moved =~= all);
}

} // verus!
