//! Sequence numbers of vital chunks, which wrap around at
//! `SEQUENCE_MODULUS`, and what receiving a packet yields.
use vstd::prelude::*;
use crate::protocol::SEQUENCE_MODULUS;
use crate::buffer::Buffer;
use crate::huffman::Huffman;
use crate::protocol::ConnectedPacket;
use crate::protocol::ConnectedPacketType;
use crate::protocol::ControlPacket;
use crate::protocol::HEADER_SIZE;
use crate::protocol::MAX_PACKETSIZE;
use crate::protocol::MAX_PAYLOAD;
use crate::protocol::PACKETFLAG_COMPRESSION;
use crate::protocol::PACKETFLAG_CONTROL;
use crate::protocol::PACKETFLAG_REQUEST_RESEND;
use crate::protocol::Packet;
use crate::protocol::PacketHeader;
use crate::protocol::chunk_header_bytes;
use crate::protocol::chunk_header_size;
use crate::protocol::control_body;
use crate::protocol::packet_bytes;
use crate::protocol::ph_pack;
use crate::protocol::sent_payload;
use crate::protocol::write_chunk;
use crate::protocol::connless_header;
use crate::protocol::write_connless_packet;
use crate::protocol::CHUNKFLAG_RESEND;
use crate::protocol::CTRLMSG_CLOSE;
use crate::protocol::CTRLMSG_CONNECT;
use crate::protocol::CTRLMSG_CONNECTACCEPT;
use crate::protocol::ChunksIter;
use crate::protocol::Warning;
use crate::protocol::ch_flags;
use crate::protocol::ch_header_len;
use crate::protocol::ch_sequence;
use crate::protocol::ch_size;
use crate::protocol::ch_vital;
use crate::protocol::close_reason_len;
use crate::protocol::is_connless;
use crate::protocol::is_control;
use crate::protocol::packet_payload;
use crate::protocol::read_error;
use crate::protocol::requests_resend;
use crate::protocol::CHUNKFLAG_VITAL;
use crate::protocol::ChunkHeader;
use crate::protocol::ChunkHeaderVital;
use crate::protocol::lemma_chunk_header_roundtrip;
use crate::protocol::lemma_chunk_header_unpack;
use crate::protocol::lemma_packet_header_roundtrip;
use crate::protocol::ph_ack;
use crate::protocol::ph_unpack;
use crate::protocol::ph_flags;
use crate::protocol::is_compressed;
use crate::packer::no_nul;
use crate::packer::extend_bytes;
use std::collections::VecDeque;

verus! {

/// A sequence number of a vital chunk, below `SEQUENCE_MODULUS`.
#[derive(Clone, Copy, Debug, PartialEq, Eq, Structural)]
pub struct Sequence {
    seq: u16,
}

/// Where a sequence number stands relative to another one.
#[derive(Clone, Copy, Debug, PartialEq, Eq, Structural, PartialOrd, Ord)]
pub enum SequenceOrdering {
    Past,
    Current,
    Future,
}

/// How far `other` lies ahead of `this`, going forward around the circle
/// of sequence numbers.
pub open spec fn distance(this: int, other: int) -> int {
    (other - this) % (SEQUENCE_MODULUS as int)
}

/// Where `other` stands relative to `this`: the same number is current,
/// numbers less than half the circle ahead lie in the future, all others
/// in the past.
pub open spec fn ordering(this: int, other: int) -> SequenceOrdering {
    let d = distance(this, other);
    if d == 0 {
        SequenceOrdering::Current
    } else if d < (SEQUENCE_MODULUS / 2) as int {
        SequenceOrdering::Future
    } else {
        SequenceOrdering::Past
    }
}

impl Sequence {
    /// The number.
    pub closed spec fn value(self) -> int {
        self.seq as int
    }

    #[verifier::type_invariant]
    spec fn inv(self) -> bool {
        self.seq < SEQUENCE_MODULUS
    }

    /// Sequence number 0.
    pub fn new() -> (r: Sequence)
        ensures
            r.value() == 0,
    {
        Sequence { seq: 0 }
    }

    pub fn from_u16(seq: u16) -> (r: Sequence)
        requires
            seq < SEQUENCE_MODULUS,
        ensures
            r.value() == seq,
    {
        Sequence { seq }
    }

    pub fn to_u16(self) -> (r: u16)
        ensures
            r == self.value(),
            r < SEQUENCE_MODULUS,
    {
        proof {
            use_type_invariant(self);
        }
        self.seq
    }

    /// Returns the number and advances to the following one.
    pub fn next(&mut self) -> (r: Sequence)
        ensures
            r == *old(self),
            final(self).value() == (old(self).value() + 1) % (SEQUENCE_MODULUS as int),
    {
        proof {
            use_type_invariant(&*self);
        }
        let result = *self;
        self.seq = (self.seq + 1) % SEQUENCE_MODULUS;
        result
    }

    /// Where `other` stands relative to this number; advances this number
    /// if `other` is the current one.
    pub fn update(&mut self, other: Sequence) -> (r: SequenceOrdering)
        ensures
            r == ordering(old(self).value(), other.value()),
            r == SequenceOrdering::Current ==> final(self).value() == (old(self).value() + 1) % (
            SEQUENCE_MODULUS as int),
            r != SequenceOrdering::Current ==> *final(self) == *old(self),
    {
        let result = self.compare(other);
        let current = match result {
            SequenceOrdering::Current => true,
            _ => false,
        };
        if current {
            self.next();
        }
        result
    }

    /// Where `other` stands relative to this number.
    pub fn compare(self, other: Sequence) -> (r: SequenceOrdering)
        ensures
            r == ordering(self.value(), other.value()),
    {
        proof {
            use_type_invariant(self);
            use_type_invariant(other);
        }
        let half = SEQUENCE_MODULUS / 2;
        let less;
        if self.seq < other.seq {
            less = other.seq - self.seq < half;
        } else if self.seq > other.seq {
            less = self.seq - other.seq > half;
        } else {
            return SequenceOrdering::Current;
        }
        if less {
            SequenceOrdering::Future
        } else {
            SequenceOrdering::Past
        }
    }
}

/// A number that is in the future of another one sees that one in the
/// past; only numbers exactly half the circle apart see each other in the
/// past.
pub proof fn lemma_ordering_antisymmetric(a: int, b: int)
    requires
        0 <= a < SEQUENCE_MODULUS,
        0 <= b < SEQUENCE_MODULUS,
    ensures
        ordering(a, b) == SequenceOrdering::Current <==> a == b,
        ordering(a, b) == SequenceOrdering::Future ==> ordering(b, a) == SequenceOrdering::Past,
        ordering(a, b) == SequenceOrdering::Past ==> (ordering(b, a) == SequenceOrdering::Future
            || distance(a, b) == (SEQUENCE_MODULUS / 2) as int),
{
}

/// The number `next` moves to lies in the future of the number it left.
pub proof fn lemma_next_is_future(a: int)
    requires
        0 <= a < SEQUENCE_MODULUS,
    ensures
        ordering(a, (a + 1) % (SEQUENCE_MODULUS as int)) == SequenceOrdering::Future,
{
}

/// What receiving a packet yields.
#[derive(Clone, Copy, Debug)]
pub enum ReceiveChunk<'a> {
    Connless(&'a [u8]),
    /// Connected(data, vital)
    Connected(&'a [u8], bool),
    Ready,
    Disconnect(&'a [u8]),
}


// ---------------------------------------------------------------------------
// Connections.

/// How long a connection waits before it sends again, in nanoseconds.
pub const SEND_INTERVAL: u64 = 500_000_000;

/// Capacity of the buffers that collect the chunks of a packet.
pub const PACKET_CONTENTS_CAPACITY: usize = 2048;

/// A timeout, counted in nanoseconds from the last tick.
struct Timeout {
    timeout: Option<u64>,
}

impl Timeout {
    fn new() -> (r: Timeout)
        ensures
            r.timeout is None,
    {
        Timeout { timeout: None }
    }

    /// Sets the timeout `value` after `time_since_tick`.
    fn set(&mut self, time_since_tick: u64, value: u64)
        requires
            time_since_tick + value <= u64::MAX,
        ensures
            final(self).timeout == Some((time_since_tick + value) as u64),
    {
        self.timeout = Some(time_since_tick + value);
    }

    fn is_active(&self) -> (r: bool)
        ensures
            r == self.timeout is Some,
    {
        self.timeout.is_some()
    }

    /// Advances time by `delta`; whether the timeout expired, which unsets
    /// it.
    fn tick(&mut self, delta: u64) -> (r: bool)
        ensures
            r == (match old(self).timeout {
                Some(t) => delta >= t,
                None => false,
            }),
            final(self).timeout == tick_timeout(old(self).timeout, delta),
    {
        match self.timeout {
            Some(t) => if delta >= t {
                self.timeout = None;
                true
            } else {
                self.timeout = Some(t - delta);
                false
            },
            None => false,
        }
    }
}

/// The timeout `t` after time advanced by `delta`.
pub open spec fn tick_timeout(t: Option<u64>, delta: u64) -> Option<u64> {
    match t {
        Some(t) => if delta >= t {
            None
        } else {
            Some((t - delta) as u64)
        },
        None => None,
    }
}

/// The chunks collected for the next packet.
struct PacketContents {
    num_chunks: u8,
    data: Buffer,
}

impl PacketContents {
    spec fn wf(&self) -> bool {
        &&& self.data.capacity() == PACKET_CONTENTS_CAPACITY
        &&& self.data@.len() <= MAX_PAYLOAD
        &&& self.num_chunks == 0 ==> self.data@.len() == 0
    }

    fn new() -> (r: PacketContents)
        ensures
            r.wf(),
            r.num_chunks == 0,
            r.data@ == Seq::<u8>::empty(),
    {
        PacketContents { num_chunks: 0, data: Buffer::new(PACKET_CONTENTS_CAPACITY) }
    }

    fn write_chunk(&mut self, data: &[u8], vital: Option<(u16, bool)>)
        requires
            old(self).data.capacity() == PACKET_CONTENTS_CAPACITY,
            old(self).data@.len() + 3 + data@.len() <= PACKET_CONTENTS_CAPACITY,
            data@.len() < 1024,
            old(self).num_chunks < 255,
            vital matches Some((s, _)) ==> s < 1024,
        ensures
            final(self).data.capacity() == PACKET_CONTENTS_CAPACITY,
            final(self).num_chunks == old(self).num_chunks + 1,
            final(self).data@ == old(self).data@ + chunk_header_bytes(data@.len() as u16, vital) + data@,
    {
        proof {
            assert(chunk_header_bytes(data@.len() as u16, vital).len() <= 3);
        }
        let r = write_chunk(data, vital, &mut self.data);
        match r {
            Ok(()) => {},
            Err(_) => {},
        }
        self.num_chunks = self.num_chunks + 1;
    }

    /// The chunk fits into the packet.
    fn can_fit_chunk(&self, data: &[u8], vital: bool) -> (r: bool)
        requires
            self.data@.len() <= MAX_PAYLOAD,
            data@.len() <= MAX_PAYLOAD,
        ensures
            r == chunk_fits(self.data@, data@, vital),
    {
        self.data.initialized().len() + chunk_header_size(vital) + data.len() <= MAX_PAYLOAD
    }
}

/// A chunk of `data`, vital or not, fits after `packet`.
pub open spec fn chunk_fits(packet: Seq<u8>, data: Seq<u8>, vital: bool) -> bool {
    packet.len() + (if vital {
        3int
    } else {
        2int
    }) + data.len() <= MAX_PAYLOAD
}

/// A vital chunk kept until the peer acknowledges it.
struct ResendChunk {
    sequence: Sequence,
    data: Vec<u8>,
}

/// The state of an online connection.
struct OnlineState {
    ack: Sequence,
    sequence: Sequence,
    request_resend: bool,
    packet: PacketContents,
    packet_nonvital: PacketContents,
    resend_queue: VecDeque<ResendChunk>,
}

/// Where a connection stands.
#[derive(Clone, Copy, Debug, PartialEq, Eq, Structural)]
pub enum Phase {
    Unconnected,
    Connecting,
    Pending,
    Online,
    Disconnected,
}

#[verifier::ext_equal]
/// What an online connection keeps: the sequence number of the vital chunk
/// of the peer to acknowledge next, the sequence number of its own next
/// vital chunk, whether to ask the peer to resend, the chunks of the next
/// packet (all, and the non-vital ones) and the vital chunks sent.
pub struct OnlineView {
    pub ack: int,
    pub sequence: int,
    pub request_resend: bool,
    pub packet: Seq<u8>,
    pub num_chunks: int,
    pub nonvital: Seq<u8>,
    pub num_nonvital: int,
    pub resend_queue: Seq<(int, Seq<u8>)>,
}

/// The state a connection starts being online with.
pub open spec fn fresh_online() -> OnlineView {
    OnlineView {
        ack: 0,
        sequence: 0,
        request_resend: false,
        packet: Seq::empty(),
        num_chunks: 0,
        nonvital: Seq::empty(),
        num_nonvital: 0,
        resend_queue: Seq::empty(),
    }
}

#[verifier::ext_equal]
/// What a connection is: its phase, its timeout and, when online, its
/// online state.
pub struct ConnectionView {
    pub phase: Phase,
    pub timeout: Option<u64>,
    pub online: OnlineView,
}

impl OnlineState {
    fn new() -> (r: OnlineState)
        ensures
            r.wf(),
            r.view() == fresh_online(),
    {
        let r = OnlineState {
            ack: Sequence::new(),
            sequence: Sequence::new(),
            request_resend: false,
            packet: PacketContents::new(),
            packet_nonvital: PacketContents::new(),
            resend_queue: VecDeque::new(),
        };
        assert(r.view().resend_queue =~= Seq::<(int, Seq<u8>)>::empty());
        r
    }

    spec fn wf(&self) -> bool {
        &&& self.packet.wf()
        &&& self.packet_nonvital.wf()
        &&& self.packet_nonvital.data@.len() <= self.packet.data@.len()
        &&& self.packet_nonvital.num_chunks <= self.packet.num_chunks
    }

    spec fn view(&self) -> OnlineView {
        OnlineView {
            ack: self.ack.value(),
            sequence: self.sequence.value(),
            request_resend: self.request_resend,
            packet: self.packet.data@,
            num_chunks: self.packet.num_chunks as int,
            nonvital: self.packet_nonvital.data@,
            num_nonvital: self.packet_nonvital.num_chunks as int,
            resend_queue: self.resend_queue@.map_values(|c: ResendChunk| (c.sequence.value(), c.data@)),
        }
    }

    fn can_send(&self) -> (r: bool)
        ensures
            r == can_send(self.view()),
    {
        self.packet.num_chunks != 0 || self.request_resend
    }

    /// Sends the collected chunks, if there is anything to send.
    fn flush(&mut self, huffman: &Huffman, out: &mut Vec<Vec<u8>>)
        requires
            old(self).wf(),
        ensures
            final(self).wf(),
            final(self).view() == flushed(old(self).view()),
            packets(final(out)@) == packets(old(out)@) + flush_packets(old(self).view(), huffman.spec_nodes()),
    {
        if !self.can_send() {
            assert(packets(out@) =~= packets(old(out)@) + Seq::<Seq<u8>>::empty());
            return;
        }
        let ack = self.ack.to_u16();
        let mut buffer = Buffer::new(MAX_PACKETSIZE);
        {
            let payload = self.packet.data.initialized();
            let packet = Packet::Connected(ConnectedPacket {
                ack,
                type_: ConnectedPacketType::Chunks(self.request_resend, self.packet.num_chunks, payload),
            });
            proof {
                lemma_chunks_packet_len(self.request_resend, ack, self.packet.num_chunks, payload@, huffman.spec_nodes());
                assert(packet_bytes(packet, huffman.spec_nodes(), MAX_PACKETSIZE) == chunks_packet(
                    self.request_resend,
                    ack as int,
                    self.packet.num_chunks,
                    payload@,
                    huffman.spec_nodes(),
                ));
            }
            let _ = packet.write(huffman, MAX_PACKETSIZE, &mut buffer);
        }
        let ghost before = out@;
        out.push(buffer.into_vec());
        proof {
            assert(packets(out@) =~= packets(before) + flush_packets(old(self).view(), huffman.spec_nodes()));
        }
        self.request_resend = false;
        self.packet = PacketContents::new();
        self.packet_nonvital = PacketContents::new();
    }
}

/// There is something to send: chunks, or a request to resend.
pub open spec fn can_send(o: OnlineView) -> bool {
    o.num_chunks != 0 || o.request_resend
}

/// The online state after a flush.
pub open spec fn flushed(o: OnlineView) -> OnlineView {
    if can_send(o) {
        OnlineView {
            request_resend: false,
            packet: Seq::empty(),
            num_chunks: 0,
            nonvital: Seq::empty(),
            num_nonvital: 0,
            ..o
        }
    } else {
        o
    }
}

/// The bytes of a packet carrying the chunks `payload`, compressed where
/// that is shorter.
pub open spec fn chunks_packet(
    request_resend: bool,
    ack: int,
    num_chunks: u8,
    payload: Seq<u8>,
    nodes: Seq<crate::huffman::Node>,
) -> Seq<u8> {
    let sent = sent_payload(payload, nodes, MAX_PACKETSIZE);
    let compression = if sent != payload {
        PACKETFLAG_COMPRESSION
    } else {
        0u8
    };
    let resend = if request_resend {
        PACKETFLAG_REQUEST_RESEND
    } else {
        0u8
    };
    ph_pack(PacketHeader { flags: resend | compression, ack: ack as u16, num_chunks }) + sent
}

/// The packets a flush sends.
pub open spec fn flush_packets(o: OnlineView, nodes: Seq<crate::huffman::Node>) -> Seq<Seq<u8>> {
    if can_send(o) {
        seq![chunks_packet(o.request_resend, o.ack, o.num_chunks as u8, o.packet, nodes)]
    } else {
        Seq::empty()
    }
}

/// The bytes of the packets in `out`.
pub open spec fn packets(out: Seq<Vec<u8>>) -> Seq<Seq<u8>> {
    out.map_values(|v: Vec<u8>| v@)
}

proof fn lemma_chunks_packet_len(rr: bool, ack: u16, n: u8, payload: Seq<u8>, nodes: Seq<crate::huffman::Node>)
    requires
        payload.len() <= MAX_PAYLOAD,
    ensures
        chunks_packet(rr, ack as int, n, payload, nodes).len() <= HEADER_SIZE + MAX_PAYLOAD,
{
}

/// The bytes of a control packet.
pub open spec fn control_packet(ack: int, c: ControlPacket) -> Seq<u8> {
    ph_pack(PacketHeader { flags: PACKETFLAG_CONTROL, ack: ack as u16, num_chunks: 0 }) + control_body(c)
}

/// The online state after queueing the chunk `d`, vital or not.
pub open spec fn queued(o: OnlineView, d: Seq<u8>, vital: bool) -> OnlineView {
    if vital {
        OnlineView {
            sequence: (o.sequence + 1) % (SEQUENCE_MODULUS as int),
            resend_queue: o.resend_queue.push((o.sequence, d)),
            packet: o.packet + chunk_header_bytes(d.len() as u16, Some((o.sequence as u16, false))) + d,
            num_chunks: o.num_chunks + 1,
            ..o
        }
    } else {
        OnlineView {
            nonvital: o.nonvital + chunk_header_bytes(d.len() as u16, None) + d,
            num_nonvital: o.num_nonvital + 1,
            packet: o.packet + chunk_header_bytes(d.len() as u16, None) + d,
            num_chunks: o.num_chunks + 1,
            ..o
        }
    }
}

impl OnlineState {
    /// Adds the chunk `buffer` to the next packet; a vital chunk gets the
    /// next sequence number and is kept for resending.
    fn queue(&mut self, buffer: &[u8], vital: bool)
        requires
            old(self).wf(),
            buffer@.len() < 1024,
            chunk_fits(old(self).packet.data@, buffer@, vital),
            old(self).packet.num_chunks < 255,
        ensures
            final(self).wf(),
            final(self).view() == queued(old(self).view(), buffer@, vital),
    {
        let ghost o = self.view();
        if vital {
            let sequence = self.sequence.next();
            let s = sequence.to_u16();
            let mut data: Vec<u8> = Vec::new();
            extend_bytes(&mut data, buffer);
            assert(data@ =~= buffer@);
            let ghost q0 = self.resend_queue@;
            self.resend_queue.push_back(ResendChunk { sequence, data });
            self.packet.write_chunk(buffer, Some((s, false)));
            proof {
                assert(self.view().resend_queue =~= o.resend_queue.push((o.sequence, buffer@)));
                assert(self.view() =~= queued(o, buffer@, vital));
            }
        } else {
            self.packet_nonvital.write_chunk(buffer, None);
            self.packet.write_chunk(buffer, None);
            proof {
                assert(self.view().resend_queue =~= o.resend_queue);
                assert(self.view() =~= queued(o, buffer@, vital));
            }
        }
    }
}

/// A packet could not be sent.
#[derive(Clone, Copy, Debug, PartialEq, Eq, Structural)]
pub enum Error {
    /// The data does not fit into a packet.
    TooLongData,
}

enum State {
    Unconnected,
    Connecting,
    Pending,
    Online(OnlineState),
    Disconnected,
}

/// One end of a connection. It does no input or output itself: what it
/// sends it appends to `out`, and it is told the time elapsed since the
/// last tick, in nanoseconds, where it sets its timeout.
pub struct Connection {
    state: State,
    send_: Timeout,
}

/// A connection that has just been made.
pub open spec fn new_connection() -> ConnectionView {
    ConnectionView { phase: Phase::Unconnected, timeout: None, online: fresh_online() }
}

/// The packets the periodic action of a connection sends.
pub open spec fn tick_packets(c: ConnectionView, nodes: Seq<crate::huffman::Node>) -> Seq<Seq<u8>> {
    match c.phase {
        Phase::Connecting => seq![control_packet(0, ControlPacket::Connect)],
        Phase::Pending => seq![control_packet(0, ControlPacket::ConnectAccept)],
        Phase::Online => if can_send(c.online) {
            flush_packets(c.online, nodes)
        } else {
            seq![control_packet(c.online.ack, ControlPacket::KeepAlive)]
        },
        _ => Seq::empty(),
    }
}

/// The connection after its periodic action at `time_since_tick`.
pub open spec fn after_tick_action(c: ConnectionView, time_since_tick: u64) -> ConnectionView {
    ConnectionView {
        timeout: Some((time_since_tick + SEND_INTERVAL) as u64),
        online: if c.phase == Phase::Online {
            flushed(c.online)
        } else {
            c.online
        },
        ..c
    }
}

impl View for Connection {
    type V = ConnectionView;

    closed spec fn view(&self) -> ConnectionView {
        ConnectionView {
            phase: match self.state {
                State::Unconnected => Phase::Unconnected,
                State::Connecting => Phase::Connecting,
                State::Pending => Phase::Pending,
                State::Online(_) => Phase::Online,
                State::Disconnected => Phase::Disconnected,
            },
            timeout: self.send_.timeout,
            online: match self.state {
                State::Online(o) => o.view(),
                _ => fresh_online(),
            },
        }
    }
}

impl Connection {
    /// The connection's internal invariant: the chunks collected for the
    /// next packet fit into a packet.
    pub closed spec fn wf(&self) -> bool {
        match self.state {
            State::Online(o) => o.wf(),
            _ => true,
        }
    }

    pub fn new() -> (r: Connection)
        ensures
            r.wf(),
            r@ == new_connection(),
    {
        Connection { state: State::Unconnected, send_: Timeout::new() }
    }

    /// Makes a disconnected connection new again.
    pub fn reset(&mut self)
        requires
            old(self).wf(),
            old(self)@.phase == Phase::Disconnected,
        ensures
            final(self).wf(),
            final(self)@ == new_connection(),
    {
        *self = Connection::new();
    }

    /// The time until the connection must be ticked, where it is set.
    pub fn timeout(&self) -> (r: Option<u64>)
        ensures
            r == self@.timeout,
    {
        self.send_.timeout
    }

    /// Where the connection stands.
    pub fn phase(&self) -> (r: Phase)
        ensures
            r == self@.phase,
    {
        match self.state {
            State::Unconnected => Phase::Unconnected,
            State::Connecting => Phase::Connecting,
            State::Pending => Phase::Pending,
            State::Online(_) => Phase::Online,
            State::Disconnected => Phase::Disconnected,
        }
    }

    /// The connection has a timeout set and must be ticked.
    pub fn needs_tick(&self) -> (r: bool)
        ensures
            r == self@.timeout is Some,
    {
        self.send_.is_active()
    }

    /// The acknowledgement sent along: that of an online connection, else 0.
    fn ack(&self) -> (r: u16)
        ensures
            r == self@.online.ack,
            r < SEQUENCE_MODULUS,
    {
        match &self.state {
            State::Online(online) => online.ack.to_u16(),
            _ => 0,
        }
    }

    fn send_control(&self, out: &mut Vec<Vec<u8>>, control: ControlPacket)
        requires
            control matches ControlPacket::Close(m) ==> no_nul(m@) && m@.len() < 128,
        ensures
            packets(final(out)@) == packets(old(out)@).push(control_packet(self@.online.ack, control)),
    {
        let ack = self.ack();
        let mut buffer = Buffer::new(MAX_PACKETSIZE);
        let _ = control.write(ack, &mut buffer);
        let ghost before = out@;
        out.push(buffer.into_vec());
        proof {
            assert(packets(out@) =~= packets(before).push(control_packet(self@.online.ack, control)));
        }
    }

    fn tick_action(&mut self, huffman: &Huffman, time_since_tick: u64, out: &mut Vec<Vec<u8>>)
        requires
            old(self).wf(),
            time_since_tick + SEND_INTERVAL <= u64::MAX,
        ensures
            final(self).wf(),
            final(self)@ == after_tick_action(old(self)@, time_since_tick),
            packets(final(out)@) == packets(old(out)@) + tick_packets(old(self)@, huffman.spec_nodes()),
    {
        self.send_.set(time_since_tick, SEND_INTERVAL);
        let control = match &mut self.state {
            State::Connecting => ControlPacket::Connect,
            State::Pending => ControlPacket::ConnectAccept,
            State::Online(online) => {
                if online.can_send() {
                    online.flush(huffman, out);
                    return;
                }
                ControlPacket::KeepAlive
            },
            _ => {
                assert(packets(out@) =~= packets(old(out)@) + Seq::<Seq<u8>>::empty());
                return;
            },
        };
        let ghost before = out@;
        self.send_control(out, control);
        proof {
            assert(packets(out@) =~= packets(before) + tick_packets(old(self)@, huffman.spec_nodes()));
        }
    }

    /// Starts connecting: sends a connect packet.
    pub fn connect(&mut self, huffman: &Huffman, time_since_tick: u64, out: &mut Vec<Vec<u8>>)
        requires
            old(self).wf(),
            old(self)@.phase == Phase::Unconnected,
            time_since_tick + SEND_INTERVAL <= u64::MAX,
        ensures
            final(self).wf(),
            final(self)@ == (ConnectionView {
                phase: Phase::Connecting,
                timeout: Some((time_since_tick + SEND_INTERVAL) as u64),
                online: fresh_online(),
            }),
            packets(final(out)@) == packets(old(out)@).push(control_packet(0, ControlPacket::Connect)),
    {
        self.state = State::Connecting;
        self.tick_action(huffman, time_since_tick, out);
        proof {
            assert(packets(out@) =~= packets(old(out)@).push(control_packet(0, ControlPacket::Connect)));
        }
    }

    /// Closes the connection, telling the peer `reason`.
    pub fn disconnect(&mut self, out: &mut Vec<Vec<u8>>, reason: &[u8])
        requires
            old(self).wf(),
            old(self)@.phase != Phase::Unconnected,
            old(self)@.phase != Phase::Disconnected,
            no_nul(reason@),
            reason@.len() < 128,
        ensures
            final(self).wf(),
            final(self)@ == (ConnectionView {
                phase: Phase::Disconnected,
                timeout: old(self)@.timeout,
                online: fresh_online(),
            }),
            packets(final(out)@) == packets(old(out)@).push(
                control_packet(old(self)@.online.ack, ControlPacket::Close(reason)),
            ),
    {
        self.send_control(out, ControlPacket::Close(reason));
        self.state = State::Disconnected;
    }

    /// Sends the chunks collected so far.
    pub fn flush(&mut self, huffman: &Huffman, time_since_tick: u64, out: &mut Vec<Vec<u8>>)
        requires
            old(self).wf(),
            old(self)@.phase == Phase::Online,
            time_since_tick + SEND_INTERVAL <= u64::MAX,
        ensures
            final(self).wf(),
            final(self)@ == (ConnectionView {
                phase: Phase::Online,
                timeout: Some((time_since_tick + SEND_INTERVAL) as u64),
                online: flushed(old(self)@.online),
            }),
            packets(final(out)@) == packets(old(out)@) + flush_packets(old(self)@.online, huffman.spec_nodes()),
    {
        self.send_.set(time_since_tick, SEND_INTERVAL);
        match &mut self.state {
            State::Online(online) => online.flush(huffman, out),
            _ => {},
        }
    }

    /// Queues `buffer` as a chunk, vital or not, first sending the chunks
    /// collected so far where it does not fit after them.
    pub fn send(&mut self, huffman: &Huffman, out: &mut Vec<Vec<u8>>, buffer: &[u8], vital: bool) -> (r: Result<(), Error>)
        requires
            old(self).wf(),
            old(self)@.phase == Phase::Online,
            buffer@.len() > MAX_PAYLOAD || buffer@.len() < 1024,
            !(chunk_fits(old(self)@.online.packet, buffer@, vital) && old(self)@.online.num_chunks == 255),
        ensures
            final(self).wf(),
            buffer@.len() > MAX_PAYLOAD ==> r == Err::<(), Error>(Error::TooLongData) && final(self)@ == old(self)@
                && final(out)@ == old(out)@,
            buffer@.len() <= MAX_PAYLOAD ==> {
                let fits = chunk_fits(old(self)@.online.packet, buffer@, vital);
                let o = if fits {
                    old(self)@.online
                } else {
                    flushed(old(self)@.online)
                };
                &&& r is Ok
                &&& final(self)@ == (ConnectionView { online: queued(o, buffer@, vital), ..old(self)@ })
                &&& packets(final(out)@) == packets(old(out)@) + (if fits {
                    Seq::empty()
                } else {
                    flush_packets(old(self)@.online, huffman.spec_nodes())
                })
            },
    {
        if buffer.len() > MAX_PAYLOAD {
            return Err(Error::TooLongData);
        }
        match &mut self.state {
            State::Online(online) => {
                if !online.packet.can_fit_chunk(buffer, vital) {
                    online.flush(huffman, out);
                } else {
                    assert(packets(out@) =~= packets(old(out)@) + Seq::<Seq<u8>>::empty());
                }
                online.queue(buffer, vital);
            },
            _ => {},
        }
        Ok(())
    }

    /// Sends a connectionless packet with `data` to the peer.
    pub fn send_connless(&mut self, time_since_tick: u64, out: &mut Vec<Vec<u8>>, data: &[u8]) -> (r: Result<(), Error>)
        requires
            old(self).wf(),
            old(self)@.phase == Phase::Online,
            time_since_tick + SEND_INTERVAL <= u64::MAX,
        ensures
            final(self).wf(),
            final(self)@ == (ConnectionView {
                timeout: Some((time_since_tick + SEND_INTERVAL) as u64),
                ..old(self)@
            }),
            data@.len() > MAX_PAYLOAD ==> r == Err::<(), Error>(Error::TooLongData) && final(out)@ == old(out)@,
            data@.len() <= MAX_PAYLOAD ==> r is Ok && packets(final(out)@) == packets(old(out)@).push(
                connless_header() + data@,
            ),
    {
        self.send_.set(time_since_tick, SEND_INTERVAL);
        if data.len() > MAX_PAYLOAD {
            return Err(Error::TooLongData);
        }
        let mut buffer = Buffer::new(MAX_PACKETSIZE);
        let _ = write_connless_packet(data, &mut buffer);
        let ghost before = out@;
        out.push(buffer.into_vec());
        proof {
            assert(packets(out@) =~= packets(before).push(connless_header() + data@));
        }
        Ok(())
    }

    /// Advances time by `delta`; where the timeout expires, does what is
    /// due: resends connection requests, flushes or keeps the connection
    /// alive.
    pub fn tick(&mut self, huffman: &Huffman, time_since_tick: u64, out: &mut Vec<Vec<u8>>, delta: u64)
        requires
            old(self).wf(),
            time_since_tick + SEND_INTERVAL <= u64::MAX,
        ensures
            final(self).wf(),
            ({
                let expired = old(self)@.timeout matches Some(t) && delta >= t;
                if expired {
                    &&& final(self)@ == after_tick_action(old(self)@, time_since_tick)
                    &&& packets(final(out)@) == packets(old(out)@) + tick_packets(old(self)@, huffman.spec_nodes())
                } else {
                    &&& final(self)@ == (ConnectionView {
                        timeout: tick_timeout(old(self)@.timeout, delta),
                        ..old(self)@
                    })
                    &&& final(out)@ == old(out)@
                }
            }),
    {
        if self.send_.tick(delta) {
            self.tick_action(huffman, time_since_tick, out);
        }
    }
}

// ---------------------------------------------------------------------------
// Receiving.

/// A chunk of a payload: its data and, for a vital chunk, its sequence
/// number and whether it is resent.
pub type ChunkView = (Seq<u8>, Option<(u16, bool)>);

/// The chunks read from the payload `d` of a packet announcing `n` chunks,
/// up to the first that cannot be read. Four bytes left after the last
/// announced chunk are a token, not a chunk.
pub open spec fn payload_chunks(d: Seq<u8>, n: int) -> Seq<ChunkView>
    decreases d.len(),
{
    let header_ok = d.len() >= 2 && d.len() >= ch_header_len(d);
    let size = ch_size(d) as int;
    let hl = ch_header_len(d);
    if d.len() == 0 {
        Seq::empty()
    } else if d.len() == 4 && n == 0 {
        Seq::empty()
    } else if header_ok && d.len() - hl >= size {
        seq![(d.subrange(hl, hl + size), if ch_vital(d) {
            Some((ch_sequence(d), ch_flags(d) & CHUNKFLAG_RESEND != 0))
        } else {
            None
        })] + payload_chunks(d.subrange(hl + size, d.len() as int), n - 1)
    } else {
        Seq::empty()
    }
}

/// The sequence number to acknowledge after receiving the chunks `cs`,
/// starting from `ack`: each vital chunk with the current number advances
/// it.
pub open spec fn receive_ack(ack: int, cs: Seq<ChunkView>) -> int
    decreases cs.len(),
{
    if cs.len() == 0 {
        ack
    } else {
        let a = receive_ack(ack, cs.drop_last());
        match cs.last().1 {
            Some((s, _)) => if ordering(a, s as int) == SequenceOrdering::Current {
                (a + 1) % (SEQUENCE_MODULUS as int)
            } else {
                a
            },
            None => a,
        }
    }
}

/// The chunks passed on of `cs`, with whether each is vital: all non-vital
/// chunks, and the vital chunks with the current sequence number.
pub open spec fn received(ack: int, cs: Seq<ChunkView>) -> Seq<(Seq<u8>, bool)>
    decreases cs.len(),
{
    if cs.len() == 0 {
        Seq::empty()
    } else {
        let prev = received(ack, cs.drop_last());
        let a = receive_ack(ack, cs.drop_last());
        match cs.last().1 {
            Some((s, _)) => if ordering(a, s as int) == SequenceOrdering::Current {
                prev.push((cs.last().0, true))
            } else {
                prev
            },
            None => prev.push((cs.last().0, false)),
        }
    }
}

/// How many of the chunks `r` passed on are vital.
pub open spec fn vital_count(r: Seq<(Seq<u8>, bool)>) -> nat
    decreases r.len(),
{
    if r.len() == 0 {
        0
    } else {
        vital_count(r.drop_last()) + if r.last().1 {
            1nat
        } else {
            0nat
        }
    }
}

/// A vital chunk is passed on only when it carries the sequence number
/// that is due: where no vital chunk of `cs` carries the acknowledged
/// number `ack` (a resent one from the past, or one from the future), none
/// is passed on and the acknowledged number stays.
pub proof fn lemma_stale_vital_dropped(ack: int, cs: Seq<ChunkView>)
    requires
        0 <= ack < SEQUENCE_MODULUS,
        forall|i: int|
            0 <= i < cs.len() ==> ((#[trigger] cs[i]).1 matches Some((s, _)) ==> s < SEQUENCE_MODULUS && s != ack),
    ensures
        receive_ack(ack, cs) == ack,
        vital_count(received(ack, cs)) == 0,
        forall|i: int| 0 <= i < received(ack, cs).len() ==> !(#[trigger] received(ack, cs)[i]).1,
        missed_vital(ack, cs) == exists|i: int| 0 <= i < cs.len() && (#[trigger] cs[i]).1 is Some,
    decreases cs.len(),
{
    if cs.len() > 0 {
        let p = cs.drop_last();
        if exists|i: int| 0 <= i < p.len() && (#[trigger] p[i]).1 is Some {
            let i = choose|i: int| 0 <= i < p.len() && (#[trigger] p[i]).1 is Some;
            assert(cs[i] == p[i]);
        }
        if exists|i: int| 0 <= i < cs.len() && (#[trigger] cs[i]).1 is Some {
            let i = choose|i: int| 0 <= i < cs.len() && (#[trigger] cs[i]).1 is Some;
            if i < p.len() {
                assert(p[i] == cs[i]);
            }
        }
        assert forall|i: int| 0 <= i < p.len() implies ((#[trigger] p[i]).1 matches Some((s, _)) ==> s
            < SEQUENCE_MODULUS && s != ack) by {
            assert(p[i] == cs[i]);
        }
        lemma_stale_vital_dropped(ack, p);
        let last = cs[cs.len() - 1];
        if let Some((s, _)) = last.1 {
            assert(s != ack && s < SEQUENCE_MODULUS);
            assert(distance(ack, s as int) != 0);
        }
        let r = received(ack, cs);
        let rp = received(ack, p);
        assert forall|i: int| 0 <= i < r.len() implies !(#[trigger] r[i]).1 by {
            if i < rp.len() {
                assert(r[i] == rp[i]);
            }
        }
        if r.len() > rp.len() {
            assert(r.drop_last() =~= rp);
        }
    }
}

/// A vital chunk with the sequence number that is due is passed on once:
/// received again (resent), it is dropped.
pub proof fn lemma_vital_once(ack: int, d: Seq<u8>, resend: bool)
    requires
        0 <= ack < SEQUENCE_MODULUS,
    ensures
        ({
            let c: ChunkView = (d, Some((ack as u16, resend)));
            let a1 = receive_ack(ack, seq![c]);
            &&& received(ack, seq![c]) == seq![(d, true)]
            &&& a1 == (ack + 1) % (SEQUENCE_MODULUS as int)
            &&& received(a1, seq![c]) == Seq::<(Seq<u8>, bool)>::empty()
            &&& receive_ack(a1, seq![c]) == a1
        }),
{
    let c: ChunkView = (d, Some((ack as u16, resend)));
    let one = seq![c];
    assert(one.drop_last() =~= Seq::<ChunkView>::empty());
    assert(one.last() == c);
    assert(receive_ack(ack, one.drop_last()) == ack);
    assert(received(ack, one.drop_last()) == Seq::<(Seq<u8>, bool)>::empty());
    assert((ack as u16) as int == ack);
    assert(distance(ack, ack) == 0);
    assert(ordering(ack, ack) == SequenceOrdering::Current);
    let a1 = receive_ack(ack, one);
    assert(a1 == (ack + 1) % 1024);
    assert(distance(a1, ack) != 0);
    assert(received(ack, one) =~= seq![(d, true)]);
    assert(receive_ack(a1, one.drop_last()) == a1);
    assert(received(a1, one.drop_last()) == Seq::<(Seq<u8>, bool)>::empty());
}

/// Chunks that are not vital are all passed on, in order, and leave the
/// acknowledged number as it is.
pub proof fn lemma_non_vital_passed(ack: int, cs: Seq<ChunkView>)
    requires
        forall|i: int| 0 <= i < cs.len() ==> (#[trigger] cs[i]).1 is None,
    ensures
        receive_ack(ack, cs) == ack,
        received(ack, cs) == cs.map_values(|c: ChunkView| (c.0, false)),
        !missed_vital(ack, cs),
    decreases cs.len(),
{
    if cs.len() > 0 {
        let p = cs.drop_last();
        assert forall|i: int| 0 <= i < p.len() implies (#[trigger] p[i]).1 is None by {
            assert(p[i] == cs[i]);
        }
        lemma_non_vital_passed(ack, p);
        assert(cs[cs.len() - 1].1 is None);
        assert(received(ack, cs) =~= cs.map_values(|c: ChunkView| (c.0, false)));
    }
}

/// Each vital chunk passed on moves the acknowledged number one ahead, and
/// nothing else moves it: the vital chunks passed on are counted by how far
/// it moved (around the circle of sequence numbers).
pub proof fn lemma_vital_count_ack(ack: int, cs: Seq<ChunkView>)
    requires
        0 <= ack < SEQUENCE_MODULUS,
    ensures
        0 <= receive_ack(ack, cs) < SEQUENCE_MODULUS,
        (vital_count(received(ack, cs)) as int) % (SEQUENCE_MODULUS as int) == distance(ack, receive_ack(ack, cs)),
    decreases cs.len(),
{
    if cs.len() > 0 {
        let p = cs.drop_last();
        lemma_vital_count_ack(ack, p);
        let a = receive_ack(ack, p);
        let r = received(ack, cs);
        let rp = received(ack, p);
        let n = vital_count(rp) as int;
        match cs.last().1 {
            Some((s, _)) => if ordering(a, s as int) == SequenceOrdering::Current {
                assert(r == rp.push((cs.last().0, true)));
                assert(r.drop_last() =~= rp);
                assert(vital_count(r) == vital_count(rp) + 1);
                assert(((n + 1) % 1024) == ((n % 1024) + 1) % 1024);
                assert(distance(ack, (a + 1) % 1024) == (distance(ack, a) + 1) % 1024);
            } else {
                assert(r == rp);
            },
            None => {
                assert(r == rp.push((cs.last().0, false)));
                assert(r.drop_last() =~= rp);
            },
        }
    }
}

/// Some vital chunk of `cs` did not have the current sequence number.
pub open spec fn missed_vital(ack: int, cs: Seq<ChunkView>) -> bool
    decreases cs.len(),
{
    if cs.len() == 0 {
        false
    } else {
        let a = receive_ack(ack, cs.drop_last());
        missed_vital(ack, cs.drop_last()) || match cs.last().1 {
            Some((s, _)) => ordering(a, s as int) != SequenceOrdering::Current,
            None => false,
        }
    }
}

/// What receiving a packet yields, by value.
pub enum Received {
    Connless(Seq<u8>),
    Connected(Seq<u8>, bool),
    Ready,
    Disconnect(Seq<u8>),
}

/// The value of a received chunk.
pub open spec fn received_view(c: ReceiveChunk) -> Received {
    match c {
        ReceiveChunk::Connless(d) => Received::Connless(d@),
        ReceiveChunk::Connected(d, vital) => Received::Connected(d@, vital),
        ReceiveChunk::Ready => Received::Ready,
        ReceiveChunk::Disconnect(d) => Received::Disconnect(d@),
    }
}

/// The chunks `cs` passed on, as received.
pub open spec fn connected_chunks(cs: Seq<(Seq<u8>, bool)>) -> Seq<Received> {
    cs.map_values(|c: (Seq<u8>, bool)| Received::Connected(c.0, c.1))
}

/// What receiving a packet yielded, to be taken one at a time.
pub struct ReceivePacket<'a> {
    chunks: Vec<ReceiveChunk<'a>>,
    pos: usize,
}

impl<'a> View for ReceivePacket<'a> {
    type V = Seq<Received>;

    /// What is left to take.
    closed spec fn view(&self) -> Seq<Received> {
        self.chunks@.subrange(self.pos as int, self.chunks@.len() as int).map_values(
            |c: ReceiveChunk<'a>| received_view(c),
        )
    }
}

impl<'a> ReceivePacket<'a> {
    #[verifier::type_invariant]
    spec fn inv(self) -> bool {
        self.pos <= self.chunks@.len()
    }

    fn from_vec(chunks: Vec<ReceiveChunk<'a>>) -> (r: ReceivePacket<'a>)
        ensures
            r@ == chunks@.map_values(|c: ReceiveChunk<'a>| received_view(c)),
    {
        let r = ReceivePacket { chunks, pos: 0 };
        assert(r@ =~= chunks@.map_values(|c: ReceiveChunk<'a>| received_view(c)));
        r
    }

    fn none() -> (r: ReceivePacket<'a>)
        ensures
            r@ == Seq::<Received>::empty(),
    {
        let r = ReceivePacket::from_vec(Vec::new());
        assert(r@ =~= Seq::<Received>::empty());
        r
    }

    fn one(c: ReceiveChunk<'a>) -> (r: ReceivePacket<'a>)
        ensures
            r@ == seq![received_view(c)],
    {
        let mut v: Vec<ReceiveChunk<'a>> = Vec::new();
        v.push(c);
        let r = ReceivePacket::from_vec(v);
        assert(r@ =~= seq![received_view(c)]);
        r
    }

    /// Takes the next chunk.
    pub fn next(&mut self) -> (r: Option<ReceiveChunk<'a>>)
        ensures
            old(self)@.len() == 0 ==> r is None && final(self)@ == old(self)@,
            old(self)@.len() > 0 ==> (r matches Some(c) && received_view(c) == old(self)@[0])
                && final(self)@ == old(self)@.drop_first(),
    {
        proof {
            use_type_invariant(&*self);
        }
        if self.pos >= self.chunks.len() {
            return None;
        }
        let c = self.chunks[self.pos];
        self.pos = self.pos + 1;
        proof {
            assert(self@ =~= old(self)@.drop_first());
        }
        Some(c)
    }

    /// Number of chunks left.
    pub fn len(&self) -> (r: usize)
        ensures
            r == self@.len(),
    {
        proof {
            use_type_invariant(self);
        }
        if self.pos >= self.chunks.len() {
            0
        } else {
            self.chunks.len() - self.pos
        }
    }
}

impl OnlineState {
    /// Receives the chunks of `payload`: passes on the non-vital ones and
    /// the vital ones with the current sequence number, advancing it, and
    /// asks for a resend where a vital one has another number.
    fn receive<'a>(&mut self, payload: &'a [u8], num_chunks: u8) -> (r: Vec<ReceiveChunk<'a>>)
        requires
            old(self).wf(),
            payload@.len() <= MAX_PAYLOAD,
        ensures
            final(self).wf(),
            ({
                let o = old(self).view();
                let cs = payload_chunks(payload@, num_chunks as int);
                &&& final(self).view() == (OnlineView {
                    ack: receive_ack(o.ack, cs),
                    request_resend: o.request_resend || missed_vital(o.ack, cs),
                    ..o
                })
                &&& r@.map_values(|c: ReceiveChunk<'a>| received_view(c)) == connected_chunks(received(o.ack, cs))
            }),
    {
        let ghost o = self.view();
        let ghost all = payload_chunks(payload@, num_chunks as int);
        let mut it = ChunksIter::new(payload, num_chunks);
        let mut ignore: Vec<Warning> = Vec::new();
        let mut result: Vec<ReceiveChunk<'a>> = Vec::new();
        let ghost mut consumed: Seq<ChunkView> = Seq::empty();
        loop
            invariant
                self.wf(),
                all == payload_chunks(payload@, num_chunks as int),
                all == consumed + payload_chunks(it.spec_data(), it.spec_remaining()),
                self.view() == (OnlineView {
                    ack: receive_ack(o.ack, consumed),
                    request_resend: o.request_resend || missed_vital(o.ack, consumed),
                    ..o
                }),
                result@.map_values(|c: ReceiveChunk<'a>| received_view(c)) == connected_chunks(
                    received(o.ack, consumed),
                ),
            ensures
                self.wf(),
                all == consumed,
                self.view() == (OnlineView {
                    ack: receive_ack(o.ack, consumed),
                    request_resend: o.request_resend || missed_vital(o.ack, consumed),
                    ..o
                }),
                result@.map_values(|c: ReceiveChunk<'a>| received_view(c)) == connected_chunks(
                    received(o.ack, consumed),
                ),
            decreases it.spec_data().len(),
        {
            let ghost d = it.spec_data();
            let ghost n = it.spec_remaining();
            match it.next_warn(&mut ignore) {
                None => {
                    assert(payload_chunks(d, n) =~= Seq::<ChunkView>::empty());
                    assert(all =~= consumed);
                    break;
                },
                Some(c) => {
                    let ghost cv: ChunkView = (c.data@, c.vital);
                    assert(payload_chunks(d, n) == seq![cv] + payload_chunks(it.spec_data(), it.spec_remaining()));
                    let ghost prev = consumed;
                    proof {
                        consumed = consumed.push(cv);
                        assert(all =~= consumed + payload_chunks(it.spec_data(), it.spec_remaining()));
                        assert(consumed.drop_last() =~= prev);
                    }
                    let ghost before = result@;
                    let ghost a = self.ack.value();
                    let ghost prev_received = received(o.ack, prev);
                    assert(a == receive_ack(o.ack, prev));
                    assert(consumed.last() == cv);
                    match c.vital {
                        Some((s, _)) => {
                            proof {
                                lemma_chunk_header_unpack(d[0], d[1], d[2]);
                                assert(ch_sequence(seq![d[0], d[1], d[2]]) == ch_sequence(d));
                            }
                            let ordering = self.ack.update(Sequence::from_u16(s));
                            let current = match ordering {
                                SequenceOrdering::Current => true,
                                _ => false,
                            };
                            if current {
                                result.push(ReceiveChunk::Connected(c.data, true));
                                proof {
                                    assert(received(o.ack, consumed) == prev_received.push((c.data@, true)));
                                    assert(connected_chunks(prev_received.push((c.data@, true))) =~= connected_chunks(
                                        prev_received,
                                    ).push(Received::Connected(c.data@, true)));
                                    assert(result@.map_values(|c: ReceiveChunk<'a>| received_view(c)) =~= before.map_values(
                                        |c: ReceiveChunk<'a>| received_view(c),
                                    ).push(Received::Connected(c.data@, true)));
                                }
                            } else {
                                self.request_resend = true;
                                proof {
                                    assert(received(o.ack, consumed) == prev_received);
                                }
                            }
                        },
                        None => {
                            result.push(ReceiveChunk::Connected(c.data, false));
                            proof {
                                assert(received(o.ack, consumed) == prev_received.push((c.data@, false)));
                                assert(connected_chunks(prev_received.push((c.data@, false))) =~= connected_chunks(
                                    prev_received,
                                ).push(Received::Connected(c.data@, false)));
                                assert(result@.map_values(|c: ReceiveChunk<'a>| received_view(c)) =~= before.map_values(
                                    |c: ReceiveChunk<'a>| received_view(c),
                                ).push(Received::Connected(c.data@, false)));
                            }
                        },
                    }
                    proof {
                        assert(result@.map_values(|c: ReceiveChunk<'a>| received_view(c)) =~= connected_chunks(
                            received(o.ack, consumed),
                        ));
                    }
                },
            }
        }
        result
    }
}

/// What receiving the packet `b` does to the connection `c`, and what it
/// yields; `None` where it changes and yields nothing.
pub open spec fn feed_outcome(
    c: ConnectionView,
    b: Seq<u8>,
    nodes: Seq<crate::huffman::Node>,
    time_since_tick: u64,
) -> (ConnectionView, Seq<Received>, Seq<Seq<u8>>) {
    let none = (c, Seq::<Received>::empty(), Seq::<Seq<u8>>::empty());
    if read_error(b, nodes) is Some {
        none
    } else if is_connless(b) {
        (c, seq![Received::Connless(b.subrange(6, b.len() as int))], Seq::empty())
    } else {
        let p = packet_payload(b, nodes)->0;
        if !is_control(b) {
            if c.phase == Phase::Pending || c.phase == Phase::Online {
                let o = if c.phase == Phase::Pending {
                    fresh_online()
                } else {
                    c.online
                };
                let cs = payload_chunks(p, b[2] as int);
                (
                    ConnectionView {
                        phase: Phase::Online,
                        timeout: c.timeout,
                        online: OnlineView {
                            ack: receive_ack(o.ack, cs),
                            request_resend: o.request_resend || missed_vital(o.ack, cs),
                            ..o
                        },
                    },
                    connected_chunks(received(o.ack, cs)),
                    Seq::empty(),
                )
            } else {
                none
            }
        } else if p[0] == CTRLMSG_CONNECT {
            if c.phase == Phase::Unconnected {
                (
                    ConnectionView {
                        phase: Phase::Pending,
                        timeout: Some((time_since_tick + SEND_INTERVAL) as u64),
                        online: c.online,
                    },
                    Seq::empty(),
                    seq![control_packet(0, ControlPacket::ConnectAccept)],
                )
            } else {
                none
            }
        } else if p[0] == CTRLMSG_CONNECTACCEPT {
            if c.phase == Phase::Connecting {
                (
                    ConnectionView { phase: Phase::Online, timeout: c.timeout, online: fresh_online() },
                    seq![Received::Ready],
                    seq![control_packet(0, ControlPacket::Accept)],
                )
            } else {
                none
            }
        } else if p[0] == CTRLMSG_CLOSE {
            (
                ConnectionView { phase: Phase::Disconnected, timeout: c.timeout, online: fresh_online() },
                seq![Received::Disconnect(p.subrange(1, 1 + close_reason_len(p.subrange(1, p.len() as int))))],
                Seq::empty(),
            )
        } else {
            none
        }
    }
}

/// The packet `b` would make an online connection `c` resend its vital
/// chunks, which cannot be done while any are kept.
pub open spec fn feed_resends(c: ConnectionView, b: Seq<u8>, nodes: Seq<crate::huffman::Node>) -> bool {
    &&& read_error(b, nodes) is None
    &&& !is_connless(b)
    &&& !is_control(b)
    &&& requests_resend(b)
    &&& c.phase == Phase::Online
    &&& c.online.resend_queue.len() > 0
}

impl Connection {
    /// Receives the packet `data`; a compressed payload is decompressed into
    /// `buffer`. Returns what the packet yields.
    pub fn feed<'a>(
        &mut self,
        huffman: &Huffman,
        time_since_tick: u64,
        out: &mut Vec<Vec<u8>>,
        data: &'a [u8],
        buffer: &'a mut Vec<u8>,
    ) -> (r: ReceivePacket<'a>)
        requires
            old(self).wf(),
            time_since_tick + SEND_INTERVAL <= u64::MAX,
            !feed_resends(old(self)@, data@, huffman.spec_nodes()),
        ensures
            final(self).wf(),
            ({
                let (c, received, sent) = feed_outcome(old(self)@, data@, huffman.spec_nodes(), time_since_tick);
                &&& final(self)@ == c
                &&& r@ == received
                &&& packets(final(out)@) == packets(old(out)@) + sent
            }),
    {
        let mut warns: Vec<Warning> = Vec::new();
        let packet = match Packet::read(&mut warns, huffman, data, buffer) {
            Ok(p) => p,
            Err(_) => {
                assert(packets(out@) =~= packets(old(out)@) + Seq::<Seq<u8>>::empty());
                return ReceivePacket::none();
            },
        };
        let connected = match packet {
            Packet::Connless(d) => {
                assert(packets(out@) =~= packets(old(out)@) + Seq::<Seq<u8>>::empty());
                return ReceivePacket::one(ReceiveChunk::Connless(d));
            },
            Packet::Connected(c) => c,
        };
        let ghost p = packet_payload(data@, huffman.spec_nodes())->0;
        match connected.type_ {
            ConnectedPacketType::Chunks(_request_resend, num_chunks, chunks) => {
                assert(packets(out@) =~= packets(old(out)@) + Seq::<Seq<u8>>::empty());
                let pending = match self.state {
                    State::Pending => true,
                    _ => false,
                };
                if pending {
                    self.state = State::Online(OnlineState::new());
                }
                match &mut self.state {
                    State::Online(online) => {
                        let chunks = online.receive(chunks, num_chunks);
                        let r = ReceivePacket::from_vec(chunks);
                        r
                    },
                    _ => ReceivePacket::none(),
                }
            },
            ConnectedPacketType::Control(ControlPacket::KeepAlive) => {
                assert(packets(out@) =~= packets(old(out)@) + Seq::<Seq<u8>>::empty());
                ReceivePacket::none()
            },
            ConnectedPacketType::Control(ControlPacket::Connect) => {
                let unconnected = match self.state {
                    State::Unconnected => true,
                    _ => false,
                };
                if unconnected {
                    self.state = State::Pending;
                    self.tick_action(huffman, time_since_tick, out);
                } else {
                    assert(packets(out@) =~= packets(old(out)@) + Seq::<Seq<u8>>::empty());
                }
                ReceivePacket::none()
            },
            ConnectedPacketType::Control(ControlPacket::ConnectAccept) => {
                let connecting = match self.state {
                    State::Connecting => true,
                    _ => false,
                };
                if connecting {
                    self.state = State::Online(OnlineState::new());
                    self.send_control(out, ControlPacket::Accept);
                    ReceivePacket::one(ReceiveChunk::Ready)
                } else {
                    assert(packets(out@) =~= packets(old(out)@) + Seq::<Seq<u8>>::empty());
                    ReceivePacket::none()
                }
            },
            ConnectedPacketType::Control(ControlPacket::Accept) => {
                assert(packets(out@) =~= packets(old(out)@) + Seq::<Seq<u8>>::empty());
                ReceivePacket::none()
            },
            ConnectedPacketType::Control(ControlPacket::Close(reason)) => {
                assert(packets(out@) =~= packets(old(out)@) + Seq::<Seq<u8>>::empty());
                self.state = State::Disconnected;
                ReceivePacket::one(ReceiveChunk::Disconnect(reason))
            },
        }
    }
}

// ---------------------------------------------------------------------------
// Laws of the chunk stream.

/// The bytes of a chunk as it is written into a packet.
pub open spec fn chunk_bytes(c: ChunkView) -> Seq<u8> {
    chunk_header_bytes(c.0.len() as u16, c.1) + c.0
}

/// The bytes of the chunks `cs`, one after the other.
pub open spec fn chunks_bytes(cs: Seq<ChunkView>) -> Seq<u8>
    decreases cs.len(),
{
    if cs.len() == 0 {
        Seq::empty()
    } else {
        chunk_bytes(cs[0]) + chunks_bytes(cs.drop_first())
    }
}

/// The chunk can be written: its size and sequence number fit in ten bits.
pub open spec fn chunk_writable(c: ChunkView) -> bool {
    &&& c.0.len() < 1024
    &&& c.1 matches Some((s, _)) ==> s < 1024
}

proof fn lemma_chunk_flag_bits()
    by (bit_vector)
    ensures
        (1u8 | 2u8) < 4 && (1u8 | 2u8) & 1u8 != 0 && (1u8 | 2u8) & 2u8 != 0,
        (1u8 | 0u8) < 4 && (1u8 | 0u8) & 1u8 != 0 && (1u8 | 0u8) & 2u8 == 0,
        (0u8 | 0u8) < 4 && (0u8 | 0u8) & 1u8 == 0,
{
}

/// Appending a chunk to a stream appends its bytes.
pub proof fn lemma_chunks_bytes_push(cs: Seq<ChunkView>, c: ChunkView)
    ensures
        chunks_bytes(cs.push(c)) == chunks_bytes(cs) + chunk_bytes(c),
    decreases cs.len(),
{
    if cs.len() == 0 {
        assert(cs.push(c).drop_first() =~= Seq::<ChunkView>::empty());
        assert(cs.push(c)[0] == c);
        assert(chunks_bytes(Seq::<ChunkView>::empty()) == Seq::<u8>::empty());
        assert(chunks_bytes(cs.push(c)) == chunk_bytes(c) + Seq::<u8>::empty());
        assert(chunks_bytes(cs.push(c)) =~= chunks_bytes(cs) + chunk_bytes(c));
    } else {
        lemma_chunks_bytes_push(cs.drop_first(), c);
        assert(cs.push(c).drop_first() =~= cs.drop_first().push(c));
        assert(cs.push(c)[0] == cs[0]);
        let head = chunk_bytes(cs[0]);
        assert(chunks_bytes(cs.push(c)) == head + chunks_bytes(cs.drop_first().push(c)));
        assert(chunks_bytes(cs) == head + chunks_bytes(cs.drop_first()));
        assert(head + (chunks_bytes(cs.drop_first()) + chunk_bytes(c)) =~= (head + chunks_bytes(cs.drop_first())) + chunk_bytes(c));
    }
}

/// Reading the chunks written one after the other gives them back.
pub proof fn lemma_chunks_roundtrip(cs: Seq<ChunkView>)
    requires
        forall|i: int| 0 <= i < cs.len() ==> chunk_writable(#[trigger] cs[i]),
    ensures
        payload_chunks(chunks_bytes(cs), cs.len() as int) == cs,
    decreases cs.len(),
{
    if cs.len() > 0 {
        let c = cs[0];
        let rest = cs.drop_first();
        assert forall|i: int| 0 <= i < rest.len() implies chunk_writable(#[trigger] rest[i]) by {
            assert(rest[i] == cs[i + 1]);
        }
        lemma_chunks_roundtrip(rest);
        assert(chunk_writable(cs[0]));
        let size = c.0.len() as u16;
        let header = chunk_header_bytes(size, c.1);
        let d = chunks_bytes(cs);
        lemma_chunk_flag_bits();
        match c.1 {
            Some((s, resend)) => {
                let flags: u8 = CHUNKFLAG_VITAL | (if resend {
                    CHUNKFLAG_RESEND
                } else {
                    0u8
                });
                lemma_chunk_header_roundtrip(ChunkHeaderVital { h: ChunkHeader { flags, size }, sequence: s });
            },
            None => {
                lemma_chunk_header_roundtrip(ChunkHeaderVital { h: ChunkHeader { flags: 0u8 | 0u8, size }, sequence: 0 });
            },
        }
        assert(d == header + c.0 + chunks_bytes(rest));
        assert(d[0] == header[0] && d[1] == header[1]);
        if c.1 is Some {
            assert(d[2] == header[2]);
        }
        assert(ch_flags(d) == ch_flags(header));
        assert(ch_size(d) == ch_size(header));
        let hl = ch_header_len(d);
        assert(hl == header.len());
        assert(d.subrange(hl, hl + size) =~= c.0);
        assert(d.subrange(hl + size, d.len() as int) =~= chunks_bytes(rest));
        assert(cs =~= seq![c] + rest);
    } else {
        assert(chunks_bytes(cs) =~= Seq::<u8>::empty());
    }
}

proof fn lemma_packet_flag_bits(r: u8, c: u8)
    by (bit_vector)
    requires
        r == 0 || r == 4,
        c == 0 || c == 8,
    ensures
        (r | c) < 16,
        (r | c) & 2u8 == 0,
        (r | c) & 1u8 == 0,
        ((r | c) & 4u8 != 0) == (r == 4),
        ((r | c) & 8u8 != 0) == (c == 8),
{
}

#[verifier::spinoff_prover]
#[verifier::rlimit(40)]
/// A packet of chunks as a flush sends it, compressed with a tree built
/// from byte frequencies, reads back as a packet of chunks with the flush's
/// acknowledgement, resend request, chunk count and payload.
pub proof fn lemma_chunks_packet_read(
    request_resend: bool,
    ack: int,
    num_chunks: u8,
    payload: Seq<u8>,
    frequencies: Seq<u32>,
)
    requires
        0 <= ack < SEQUENCE_MODULUS,
        payload.len() <= MAX_PAYLOAD,
        crate::huffman::built_tree(frequencies).0,
    ensures
        ({
            let nodes = crate::huffman::built_tree(frequencies).1;
            let b = chunks_packet(request_resend, ack, num_chunks, payload, nodes);
            &&& read_error(b, nodes) is None
            &&& !is_connless(b)
            &&& !is_control(b)
            &&& requests_resend(b) == request_resend
            &&& ph_ack(b) == ack
            &&& b[2] == num_chunks
            &&& packet_payload(b, nodes) == Some(payload)
        }),
{
    let nodes = crate::huffman::built_tree(frequencies).1;
    let sent = sent_payload(payload, nodes, MAX_PACKETSIZE);
    crate::huffman::lemma_compress_roundtrip(frequencies, payload, (MAX_PACKETSIZE - HEADER_SIZE) as nat, false);
    let compression = if sent != payload {
        PACKETFLAG_COMPRESSION
    } else {
        0u8
    };
    let resend = if request_resend {
        PACKETFLAG_REQUEST_RESEND
    } else {
        0u8
    };
    let h = PacketHeader { flags: resend | compression, ack: ack as u16, num_chunks };
    lemma_packet_flag_bits(resend, compression);
    lemma_packet_header_roundtrip(h);
    let b = chunks_packet(request_resend, ack, num_chunks, payload, nodes);
    assert(b == ph_pack(h) + sent);
    assert(b[0] == ph_pack(h)[0] && b[1] == ph_pack(h)[1] && b[2] == ph_pack(h)[2]);
    assert(ph_unpack(b) == ph_unpack(ph_pack(h)));
    assert(ph_flags(b) == resend | compression);
    assert(!is_connless(b) && !is_control(b));
    assert(requests_resend(b) == request_resend);
    assert(is_compressed(b) == (sent != payload));
    assert(b.subrange(3, b.len() as int) =~= sent);
    assert(sent.len() <= payload.len());
    assert(b.len() <= MAX_PACKETSIZE);
    assert(packet_payload(b, nodes) == Some(payload));
}

/// What the peer reads of a packet a flush sends, compressed with a tree
/// built from byte frequencies: the chunks that were queued, in order.
pub proof fn lemma_flush_delivers(o: OnlineView, cs: Seq<ChunkView>, frequencies: Seq<u32>)
    requires
        0 <= o.ack < SEQUENCE_MODULUS,
        o.packet == chunks_bytes(cs),
        o.num_chunks == cs.len(),
        o.packet.len() <= MAX_PAYLOAD,
        forall|i: int| 0 <= i < cs.len() ==> chunk_writable(#[trigger] cs[i]),
        cs.len() > 0,
        cs.len() < 256,
        crate::huffman::built_tree(frequencies).0,
    ensures
        flush_packets(o, crate::huffman::built_tree(frequencies).1).len() == 1,
        ({
            let nodes = crate::huffman::built_tree(frequencies).1;
            let b = flush_packets(o, nodes)[0];
            &&& read_error(b, nodes) is None
            &&& !is_connless(b)
            &&& !is_control(b)
            &&& payload_chunks(packet_payload(b, nodes)->0, b[2] as int) == cs
        }),
{
    lemma_chunks_packet_read(o.request_resend, o.ack, o.num_chunks as u8, o.packet, frequencies);
    lemma_chunks_roundtrip(cs);
}

/// Queueing a chunk appends it to the chunks of the next packet; a vital
/// chunk carries the connection's next sequence number.
pub proof fn lemma_queue_appends(o: OnlineView, cs: Seq<ChunkView>, d: Seq<u8>, vital: bool)
    requires
        o.packet == chunks_bytes(cs),
        o.num_chunks == cs.len(),
    ensures
        ({
            let c: ChunkView = (d, if vital {
                Some((o.sequence as u16, false))
            } else {
                None
            });
            &&& queued(o, d, vital).packet == chunks_bytes(cs.push(c))
            &&& queued(o, d, vital).num_chunks == cs.len() + 1
        }),
{
    let c: ChunkView = (d, if vital {
        Some((o.sequence as u16, false))
    } else {
        None
    });
    lemma_chunks_bytes_push(cs, c);
    assert(chunks_bytes(cs) + chunk_header_bytes(d.len() as u16, c.1) + d =~= chunks_bytes(cs) + chunk_bytes(c));
}

} // verus!
