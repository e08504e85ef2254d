//! The low-level Teeworlds 0.6 / DDNet network protocol: packet headers,
//! chunk headers, control packets and connectionless packets.
use vstd::prelude::*;
use crate::buffer::Buffer;
use crate::buffer::CapacityError;
use crate::huffman::DecompressionError;
use crate::huffman::Huffman;
use crate::huffman::decompressed;
use crate::packer::first_nul;
use crate::packer::no_nul;
use crate::packer::slice_head;
use crate::packer::slice_tail;

verus! {

pub const CHUNK_HEADER_SIZE: usize = 2;

pub const CHUNK_HEADER_SIZE_VITAL: usize = 3;

pub const HEADER_SIZE: usize = 3;

pub const MAX_PACKETSIZE: usize = 1400;

pub const PADDING_SIZE_CONNLESS: usize = 3;

/// Largest payload of a packet. For connectionless packets this is
/// `MAX_PACKETSIZE - HEADER_SIZE - PADDING_SIZE_CONNLESS`; packets in a
/// connection have a chunk header of the same size in place of the padding.
pub const MAX_PAYLOAD: usize = 1394;

pub const PACKETFLAG_CONTROL: u8 = 1;

pub const PACKETFLAG_CONNLESS: u8 = 2;

pub const PACKETFLAG_REQUEST_RESEND: u8 = 4;

pub const PACKETFLAG_COMPRESSION: u8 = 8;

pub const CHUNKFLAG_RESEND: u8 = 2;

pub const CHUNKFLAG_VITAL: u8 = 1;

pub const CTRLMSG_KEEPALIVE: u8 = 0;

pub const CTRLMSG_CONNECT: u8 = 1;

pub const CTRLMSG_CONNECTACCEPT: u8 = 2;

pub const CTRLMSG_ACCEPT: u8 = 3;

pub const CTRLMSG_CLOSE: u8 = 4;

pub const CTRLMSG_CLOSE_REASON_LENGTH: usize = 127;

pub const CHUNK_FLAGS_BITS: u32 = 2;

pub const CHUNK_SIZE_BITS: u32 = 10;

pub const PACKET_FLAGS_BITS: u32 = 4;

pub const SEQUENCE_BITS: u32 = 10;

pub const SEQUENCE_MODULUS: u16 = 1024;

/// Size of the chunk header of a vital or non-vital chunk.
pub fn chunk_header_size(vital: bool) -> (r: usize)
    ensures
        r == (if vital {
            CHUNK_HEADER_SIZE_VITAL
        } else {
            CHUNK_HEADER_SIZE
        }),
{
    if vital {
        CHUNK_HEADER_SIZE_VITAL
    } else {
        CHUNK_HEADER_SIZE
    }
}

/// Writing a packet failed.
#[derive(Clone, Copy, Debug, PartialEq, Eq, Structural)]
pub enum Error {
    Capacity(CapacityError),
    TooLongData,
}

/// Non-fatal irregularities noticed while reading packets.
#[derive(Clone, Copy, Debug, PartialEq, Eq, Structural)]
pub enum Warning {
    ChunkHeaderPadding,
    ChunkHeaderSequence,
    ChunksNoChunks,
    ChunksNumChunks,
    ChunksUnknownData,
    ConnlessPadding,
    ControlExcessData,
    ControlFlags,
    ControlNulTermination,
    ControlNumChunks,
    PacketHeaderPadding,
}

/// Reading a packet failed.
#[derive(Clone, Copy, Debug, PartialEq, Eq, Structural)]
pub enum PacketReadError {
    Compression,
    ControlMissing,
    ShortConnless,
    TooLong,
    TooShort,
    UnknownControl,
}

#[derive(Clone, Copy, Debug)]
pub enum ControlPacket<'a> {
    KeepAlive,
    Connect,
    ConnectAccept,
    Accept,
    Close(&'a [u8]),
}

#[derive(Clone, Copy, Debug)]
pub struct ConnectedPacket<'a> {
    /// Only the low 10 bits are used.
    pub ack: u16,
    pub type_: ConnectedPacketType<'a>,
}

#[derive(Clone, Copy, Debug)]
pub enum ConnectedPacketType<'a> {
    /// Chunks(request_resend, num_chunks, payload)
    Chunks(bool, u8, &'a [u8]),
    Control(ControlPacket<'a>),
}

#[derive(Clone, Copy, Debug)]
pub enum Packet<'a> {
    Connless(&'a [u8]),
    Connected(ConnectedPacket<'a>),
}

#[derive(Clone, Copy, Debug)]
pub struct Chunk<'a> {
    pub data: &'a [u8],
    /// `Some((sequence, resend))` for vital chunks.
    pub vital: Option<(u16, bool)>,
}

// ---------------------------------------------------------------------------
// Headers.

/// A packet header as it is sent: `FFFF_PPAA AAAA_AAAA NNNN_NNNN` (flags,
/// padding, ack, number of chunks).
#[derive(Clone, Copy, Debug)]
pub struct PacketHeaderPacked {
    flags_padding_ack: u8,
    ack: u8,
    num_chunks: u8,
}

#[derive(Clone, Copy, Debug, PartialEq, Eq, Structural)]
pub struct PacketHeader {
    /// Only the low 4 bits are used.
    pub flags: u8,
    /// Only the low 10 bits are used.
    pub ack: u16,
    pub num_chunks: u8,
}

#[derive(Clone, Copy, Debug, PartialEq, Eq, Structural)]
pub struct ChunkHeader {
    /// Only the low 2 bits are used.
    pub flags: u8,
    /// Only the low 10 bits are used.
    pub size: u16,
}

#[derive(Clone, Copy, Debug, PartialEq, Eq, Structural)]
pub struct ChunkHeaderVital {
    pub h: ChunkHeader,
    /// Only the low 10 bits are used.
    pub sequence: u16,
}

/// A chunk header as it is sent: `FFSS_SSSS PPPP_SSSS` (flags, size, padding).
#[derive(Clone, Copy, Debug)]
pub struct ChunkHeaderPacked {
    flags_size: u8,
    padding_size: u8,
}

/// A vital chunk header as it is sent: `FFSS_SSSS QQQQ_SSSS QQQQ_QQQQ`
/// (flags, size, sequence).
#[derive(Clone, Copy, Debug)]
pub struct ChunkHeaderVitalPacked {
    flags_size: u8,
    sequence_size: u8,
    sequence: u8,
}

/// Flags of the packet header at the start of `b`.
pub open spec fn ph_flags(b: Seq<u8>) -> u8 {
    (b[0] & 0b1111_0000u8) >> 4u8
}

/// Ack of the packet header at the start of `b`.
pub open spec fn ph_ack(b: Seq<u8>) -> u16 {
    ((b[0] & 0b11u8) as u16) << 8u16 | (b[1] as u16)
}

/// The packet header at the start of `b` has padding bits set.
pub open spec fn ph_padding(b: Seq<u8>) -> bool {
    b[0] & 0b0010_0000u8 == 0 && b[0] & 0b0000_1100u8 != 0
}

/// The packet header at the start of `b`.
pub open spec fn ph_unpack(b: Seq<u8>) -> PacketHeader {
    PacketHeader { flags: ph_flags(b), ack: ph_ack(b), num_chunks: b[2] }
}

/// The bytes of a packet header.
pub open spec fn ph_pack(h: PacketHeader) -> Seq<u8> {
    seq![h.flags << 4u8 | (h.ack >> 8u16) as u8, h.ack as u8, h.num_chunks]
}

/// Flags of the chunk header at the start of `d`.
pub open spec fn ch_flags(d: Seq<u8>) -> u8 {
    (d[0] & 0b1100_0000u8) >> 6u8
}

/// Size of the chunk header at the start of `d`.
pub open spec fn ch_size(d: Seq<u8>) -> u16 {
    ((d[0] & 0b0011_1111u8) as u16) << 4u16 | (d[1] & 0b0000_1111u8) as u16
}

/// Sequence number of the vital chunk header at the start of `d`.
pub open spec fn ch_sequence(d: Seq<u8>) -> u16 {
    ((d[1] & 0b1111_0000u8) as u16) << 2u16 | (d[2] as u16)
}

/// The chunk header at the start of `d` is that of a vital chunk.
pub open spec fn ch_vital(d: Seq<u8>) -> bool {
    ch_flags(d) & CHUNKFLAG_VITAL != 0
}

/// Length of the chunk header at the start of `d`.
pub open spec fn ch_header_len(d: Seq<u8>) -> int {
    if ch_vital(d) {
        3
    } else {
        2
    }
}

/// Warnings reading the chunk header at the start of `d` raises.
pub open spec fn ch_warnings(d: Seq<u8>) -> Seq<Warning> {
    if ch_vital(d) {
        if (d[1] & 0b0011_0000u8) >> 4u8 != (d[2] & 0b1100_0000u8) >> 6u8 {
            seq![Warning::ChunkHeaderSequence]
        } else {
            Seq::empty()
        }
    } else {
        if d[1] & 0b1111_0000u8 != 0 {
            seq![Warning::ChunkHeaderPadding]
        } else {
            Seq::empty()
        }
    }
}

/// The bytes of a chunk header.
pub open spec fn ch_pack(h: ChunkHeader) -> Seq<u8> {
    seq![(h.flags & 0b11u8) << 6u8 | ((h.size & 0b11_1111_0000u16) >> 4u16) as u8, (h.size & 0b00_0000_1111u16) as u8]
}

/// The bytes of a vital chunk header.
pub open spec fn chv_pack(h: ChunkHeaderVital) -> Seq<u8> {
    let p = ch_pack(h.h);
    seq![p[0], (p[1] & 0b0000_1111u8) | ((h.sequence & 0b11_1100_0000u16) >> 2u16) as u8, (h.sequence & 0b00_1111_1111u16) as u8]
}

/// Optional warning as a sequence.
pub open spec fn warn_if(c: bool, w: Warning) -> Seq<Warning> {
    if c {
        seq![w]
    } else {
        Seq::empty()
    }
}

impl PacketHeaderPacked {
    /// The three bytes.
    pub closed spec fn bytes(&self) -> Seq<u8> {
        seq![self.flags_padding_ack, self.ack, self.num_chunks]
    }

    pub fn from_bytes(b: &[u8]) -> (r: PacketHeaderPacked)
        requires
            b@.len() == HEADER_SIZE,
        ensures
            r.bytes() == b@,
    {
        let r = PacketHeaderPacked { flags_padding_ack: b[0], ack: b[1], num_chunks: b[2] };
        assert(r.bytes() =~= b@);
        r
    }

    /// Splits off a header from the front of `b`.
    pub fn from_byte_slice<'b>(b: &'b [u8]) -> (r: Option<(PacketHeaderPacked, &'b [u8])>)
        ensures
            (r is Some) <==> b@.len() >= HEADER_SIZE,
            r matches Some((h, rest)) ==> h.bytes() == b@.subrange(0, 3) && rest@ == b@.subrange(
                3,
                b@.len() as int,
            ),
    {
        if b.len() < HEADER_SIZE {
            return None;
        }
        let h = PacketHeaderPacked::from_bytes(slice_head(b, HEADER_SIZE));
        Some((h, slice_tail(b, HEADER_SIZE)))
    }

    pub fn as_bytes(&self) -> (r: [u8; 3])
        ensures
            r@ == self.bytes(),
    {
        let r = [self.flags_padding_ack, self.ack, self.num_chunks];
        assert(r@ =~= self.bytes());
        r
    }

    pub fn unpack_warn(self, warns: &mut Vec<Warning>) -> (r: PacketHeader)
        ensures
            r == ph_unpack(self.bytes()),
            final(warns)@ == old(warns)@ + warn_if(ph_padding(self.bytes()), Warning::PacketHeaderPadding),
    {
        let fpa = self.flags_padding_ack;
        if fpa & 0b0010_0000u8 == 0 && fpa & 0b0000_1100u8 != 0 {
            warns.push(Warning::PacketHeaderPadding);
        }
        proof {
            assert(final(warns)@ =~= old(warns)@ + warn_if(ph_padding(self.bytes()), Warning::PacketHeaderPadding));
        }
        PacketHeader {
            flags: (fpa & 0b1111_0000u8) >> 4u8,
            ack: ((fpa & 0b11u8) as u16) << 8u16 | (self.ack as u16),
            num_chunks: self.num_chunks,
        }
    }

    pub fn unpack(self) -> (r: PacketHeader)
        ensures
            r == ph_unpack(self.bytes()),
    {
        let mut ignore: Vec<Warning> = Vec::new();
        self.unpack_warn(&mut ignore)
    }
}

impl PacketHeader {
    pub fn pack(self) -> (r: PacketHeaderPacked)
        requires
            self.flags < 16,
            self.ack < 1024,
        ensures
            r.bytes() == ph_pack(self),
    {
        let r = PacketHeaderPacked {
            flags_padding_ack: self.flags << 4u8 | (self.ack >> 8u16) as u8,
            ack: self.ack as u8,
            num_chunks: self.num_chunks,
        };
        assert(r.bytes() =~= ph_pack(self));
        r
    }
}

impl ChunkHeaderPacked {
    /// The two bytes.
    pub closed spec fn bytes(&self) -> Seq<u8> {
        seq![self.flags_size, self.padding_size]
    }

    pub fn from_bytes(b: &[u8]) -> (r: ChunkHeaderPacked)
        requires
            b@.len() == CHUNK_HEADER_SIZE,
        ensures
            r.bytes() == b@,
    {
        let r = ChunkHeaderPacked { flags_size: b[0], padding_size: b[1] };
        assert(r.bytes() =~= b@);
        r
    }

    pub fn as_bytes(&self) -> (r: [u8; 2])
        ensures
            r@ == self.bytes(),
    {
        let r = [self.flags_size, self.padding_size];
        assert(r@ =~= self.bytes());
        r
    }

    pub fn unpack_warn(self, warns: &mut Vec<Warning>) -> (r: ChunkHeader)
        ensures
            r.flags == ch_flags(self.bytes()),
            r.size == ch_size(self.bytes()),
            final(warns)@ == old(warns)@ + warn_if(
                self.bytes()[1] & 0b1111_0000u8 != 0,
                Warning::ChunkHeaderPadding,
            ),
    {
        if self.padding_size & 0b1111_0000u8 != 0 {
            warns.push(Warning::ChunkHeaderPadding);
        }
        proof {
            assert(final(warns)@ =~= old(warns)@ + warn_if(
                self.bytes()[1] & 0b1111_0000u8 != 0,
                Warning::ChunkHeaderPadding,
            ));
        }
        ChunkHeader {
            flags: (self.flags_size & 0b1100_0000u8) >> 6u8,
            size: ((self.flags_size & 0b0011_1111u8) as u16) << 4u16 | (self.padding_size
                & 0b0000_1111u8) as u16,
        }
    }

    pub fn unpack(self) -> (r: ChunkHeader)
        ensures
            r.flags == ch_flags(self.bytes()),
            r.size == ch_size(self.bytes()),
    {
        let mut ignore: Vec<Warning> = Vec::new();
        self.unpack_warn(&mut ignore)
    }
}

impl ChunkHeader {
    pub fn pack(self) -> (r: ChunkHeaderPacked)
        requires
            self.flags < 4,
            self.size < 1024,
        ensures
            r.bytes() == ch_pack(self),
    {
        let r = ChunkHeaderPacked {
            flags_size: (self.flags & 0b11u8) << 6u8 | ((self.size & 0b11_1111_0000u16) >> 4u16) as u8,
            padding_size: (self.size & 0b00_0000_1111u16) as u8,
        };
        assert(r.bytes() =~= ch_pack(self));
        r
    }
}

impl ChunkHeaderVitalPacked {
    /// The three bytes.
    pub closed spec fn bytes(&self) -> Seq<u8> {
        seq![self.flags_size, self.sequence_size, self.sequence]
    }

    pub fn from_bytes(b: &[u8]) -> (r: ChunkHeaderVitalPacked)
        requires
            b@.len() == CHUNK_HEADER_SIZE_VITAL,
        ensures
            r.bytes() == b@,
    {
        let r = ChunkHeaderVitalPacked { flags_size: b[0], sequence_size: b[1], sequence: b[2] };
        assert(r.bytes() =~= b@);
        r
    }

    pub fn as_bytes(&self) -> (r: [u8; 3])
        ensures
            r@ == self.bytes(),
    {
        let r = [self.flags_size, self.sequence_size, self.sequence];
        assert(r@ =~= self.bytes());
        r
    }

    pub fn unpack_warn(self, warns: &mut Vec<Warning>) -> (r: ChunkHeaderVital)
        ensures
            r.h.flags == ch_flags(self.bytes()),
            r.h.size == ch_size(self.bytes()),
            r.sequence == ch_sequence(self.bytes()),
            final(warns)@ == old(warns)@ + warn_if(
                (self.bytes()[1] & 0b0011_0000u8) >> 4u8 != (self.bytes()[2] & 0b1100_0000u8) >> 6u8,
                Warning::ChunkHeaderSequence,
            ),
    {
        if (self.sequence_size & 0b0011_0000u8) >> 4u8 != (self.sequence & 0b1100_0000u8) >> 6u8 {
            warns.push(Warning::ChunkHeaderSequence);
        }
        let ss = self.sequence_size;
        let inner = ChunkHeaderPacked { flags_size: self.flags_size, padding_size: ss & 0b0000_1111u8 };
        assert((ss & 0b0000_1111u8) & 0b1111_0000u8 == 0) by (bit_vector);
        assert((ss & 0b0000_1111u8) & 0b0000_1111u8 == ss & 0b0000_1111u8) by (bit_vector);
        let h = inner.unpack_warn(warns);
        proof {
            assert(final(warns)@ =~= old(warns)@ + warn_if(
                (self.bytes()[1] & 0b0011_0000u8) >> 4u8 != (self.bytes()[2] & 0b1100_0000u8) >> 6u8,
                Warning::ChunkHeaderSequence,
            ));
        }
        ChunkHeaderVital {
            h,
            sequence: ((ss & 0b1111_0000u8) as u16) << 2u16 | (self.sequence as u16),
        }
    }

    pub fn unpack(self) -> (r: ChunkHeaderVital)
        ensures
            r.h.flags == ch_flags(self.bytes()),
            r.h.size == ch_size(self.bytes()),
            r.sequence == ch_sequence(self.bytes()),
    {
        let mut ignore: Vec<Warning> = Vec::new();
        self.unpack_warn(&mut ignore)
    }
}

impl ChunkHeaderVital {
    pub fn pack(self) -> (r: ChunkHeaderVitalPacked)
        requires
            self.h.flags < 4,
            self.h.size < 1024,
            self.sequence < 1024,
        ensures
            r.bytes() == chv_pack(self),
    {
        let p = self.h.pack();
        let pb = p.as_bytes();
        let r = ChunkHeaderVitalPacked {
            flags_size: pb[0],
            sequence_size: (pb[1] & 0b0000_1111u8) | ((self.sequence & 0b11_1100_0000u16) >> 2u16) as u8,
            sequence: (self.sequence & 0b00_1111_1111u16) as u8,
        };
        assert(r.bytes() =~= chv_pack(self));
        r
    }
}

// ---------------------------------------------------------------------------
// Laws of the header formats.

/// Packing a packet header and unpacking it gives it back.
pub proof fn lemma_packet_header_roundtrip(h: PacketHeader)
    requires
        h.flags < 16,
        h.ack < 1024,
    ensures
        ph_unpack(ph_pack(h)) == h,
        !ph_padding(ph_pack(h)) || h.flags & PACKETFLAG_CONNLESS == 0,
{
    let f = h.flags;
    let a = h.ack;
    let b0 = f << 4u8 | (a >> 8u16) as u8;
    let b1 = a as u8;
    assert((b0 & 0b1111_0000u8) >> 4u8 == f) by (bit_vector)
        requires
            f < 16,
            a < 1024,
            b0 == f << 4u8 | (a >> 8u16) as u8,
    ;
    assert(((b0 & 0b11u8) as u16) << 8u16 | (b1 as u16) == a) by (bit_vector)
        requires
            f < 16,
            a < 1024,
            b0 == f << 4u8 | (a >> 8u16) as u8,
            b1 == a as u8,
    ;
    assert(b0 & 0b0000_1100u8 == 0) by (bit_vector)
        requires
            a < 1024,
            b0 == f << 4u8 | (a >> 8u16) as u8,
    ;
    assert(ph_pack(h)[0] == b0 && ph_pack(h)[1] == b1 && ph_pack(h)[2] == h.num_chunks);
}

/// Unpacking packet header bytes whose two padding bits are zero and packing
/// the result gives the same bytes.
pub proof fn lemma_packet_header_unpack(b0: u8, b1: u8, b2: u8)
    requires
        b0 & 0b0000_1100u8 == 0,
    ensures
        ph_pack(ph_unpack(seq![b0, b1, b2])) == seq![b0, b1, b2],
{
    let b = seq![b0, b1, b2];
    let f = (b0 & 0b1111_0000u8) >> 4u8;
    let a = ((b0 & 0b11u8) as u16) << 8u16 | (b1 as u16);
    assert(ph_flags(b) == f && ph_ack(b) == a);
    assert(f << 4u8 | (a >> 8u16) as u8 == b0) by (bit_vector)
        requires
            b0 & 0b0000_1100u8 == 0,
            f == (b0 & 0b1111_0000u8) >> 4u8,
            a == ((b0 & 0b11u8) as u16) << 8u16 | (b1 as u16),
    ;
    assert(a as u8 == b1) by (bit_vector)
        requires
            a == ((b0 & 0b11u8) as u16) << 8u16 | (b1 as u16),
    ;
    assert(ph_pack(ph_unpack(b)) =~= b);
}

/// Packing chunk headers and unpacking them gives them back.
pub proof fn lemma_chunk_header_roundtrip(h: ChunkHeaderVital)
    requires
        h.h.flags < 4,
        h.h.size < 1024,
        h.sequence < 1024,
    ensures
        ch_flags(ch_pack(h.h)) == h.h.flags,
        ch_size(ch_pack(h.h)) == h.h.size,
        ch_flags(chv_pack(h)) == h.h.flags,
        ch_size(chv_pack(h)) == h.h.size,
        ch_sequence(chv_pack(h)) == h.sequence,
{
    let f = h.h.flags;
    let s = h.h.size;
    let q = h.sequence;
    let c0 = (f & 0b11u8) << 6u8 | ((s & 0b11_1111_0000u16) >> 4u16) as u8;
    let c1 = (s & 0b00_0000_1111u16) as u8;
    let v1 = (c1 & 0b0000_1111u8) | ((q & 0b11_1100_0000u16) >> 2u16) as u8;
    let v2 = (q & 0b00_1111_1111u16) as u8;
    assert((c0 & 0b1100_0000u8) >> 6u8 == f) by (bit_vector)
        requires
            f < 4,
            s < 1024,
            c0 == (f & 0b11u8) << 6u8 | ((s & 0b11_1111_0000u16) >> 4u16) as u8,
    ;
    assert(((c0 & 0b0011_1111u8) as u16) << 4u16 | (c1 & 0b0000_1111u8) as u16 == s) by (bit_vector)
        requires
            s < 1024,
            c0 == (f & 0b11u8) << 6u8 | ((s & 0b11_1111_0000u16) >> 4u16) as u8,
            c1 == (s & 0b00_0000_1111u16) as u8,
    ;
    assert(((c0 & 0b0011_1111u8) as u16) << 4u16 | (v1 & 0b0000_1111u8) as u16 == s) by (bit_vector)
        requires
            s < 1024,
            q < 1024,
            c0 == (f & 0b11u8) << 6u8 | ((s & 0b11_1111_0000u16) >> 4u16) as u8,
            c1 == (s & 0b00_0000_1111u16) as u8,
            v1 == (c1 & 0b0000_1111u8) | ((q & 0b11_1100_0000u16) >> 2u16) as u8,
    ;
    assert(((v1 & 0b1111_0000u8) as u16) << 2u16 | (v2 as u16) == q) by (bit_vector)
        requires
            s < 1024,
            q < 1024,
            c1 == (s & 0b00_0000_1111u16) as u8,
            v1 == (c1 & 0b0000_1111u8) | ((q & 0b11_1100_0000u16) >> 2u16) as u8,
            v2 == (q & 0b00_1111_1111u16) as u8,
    ;
    assert(ch_pack(h.h)[0] == c0 && ch_pack(h.h)[1] == c1);
    assert(chv_pack(h)[0] == c0 && chv_pack(h)[1] == v1 && chv_pack(h)[2] == v2);
}

/// Unpacking chunk header bytes and packing the result gives the bytes with
/// the padding cleared; for vital headers, the two copies of the high
/// sequence bits are merged.
pub proof fn lemma_chunk_header_unpack(b0: u8, b1: u8, b2: u8)
    ensures
        ch_size(seq![b0, b1]) < 1024,
        ch_pack(ChunkHeader { flags: ch_flags(seq![b0, b1]), size: ch_size(seq![b0, b1]) })
            == seq![b0, b1 & 0b0000_1111u8],
        ch_sequence(seq![b0, b1, b2]) < 1024,
        chv_pack(
            ChunkHeaderVital {
                h: ChunkHeader { flags: ch_flags(seq![b0, b1, b2]), size: ch_size(seq![b0, b1, b2]) },
                sequence: ch_sequence(seq![b0, b1, b2]),
            },
        ) == seq![b0, b1 | ((b2 & 0b1100_0000u8) >> 2u8), b2 | ((b1 & 0b0011_0000u8) << 2u8)],
{
    let f = (b0 & 0b1100_0000u8) >> 6u8;
    let s = ((b0 & 0b0011_1111u8) as u16) << 4u16 | (b1 & 0b0000_1111u8) as u16;
    let q = ((b1 & 0b1111_0000u8) as u16) << 2u16 | (b2 as u16);
    assert(ch_flags(seq![b0, b1]) == f && ch_size(seq![b0, b1]) == s);
    assert(ch_flags(seq![b0, b1, b2]) == f && ch_size(seq![b0, b1, b2]) == s);
    assert(ch_sequence(seq![b0, b1, b2]) == q);
    let c0 = (f & 0b11u8) << 6u8 | ((s & 0b11_1111_0000u16) >> 4u16) as u8;
    let c1 = (s & 0b00_0000_1111u16) as u8;
    assert(s < 1024 && q < 1024) by (bit_vector)
        requires
            s == ((b0 & 0b0011_1111u8) as u16) << 4u16 | (b1 & 0b0000_1111u8) as u16,
            q == ((b1 & 0b1111_0000u8) as u16) << 2u16 | (b2 as u16),
    ;
    assert(c0 == b0 && c1 == b1 & 0b0000_1111u8) by (bit_vector)
        requires
            f == (b0 & 0b1100_0000u8) >> 6u8,
            s == ((b0 & 0b0011_1111u8) as u16) << 4u16 | (b1 & 0b0000_1111u8) as u16,
            c0 == (f & 0b11u8) << 6u8 | ((s & 0b11_1111_0000u16) >> 4u16) as u8,
            c1 == (s & 0b00_0000_1111u16) as u8,
    ;
    assert((c1 & 0b0000_1111u8) | ((q & 0b11_1100_0000u16) >> 2u16) as u8 == b1 | ((b2
        & 0b1100_0000u8) >> 2u8)) by (bit_vector)
        requires
            c1 == b1 & 0b0000_1111u8,
            q == ((b1 & 0b1111_0000u8) as u16) << 2u16 | (b2 as u16),
    ;
    assert((q & 0b00_1111_1111u16) as u8 == b2 | ((b1 & 0b0011_0000u8) << 2u8)) by (bit_vector)
        requires
            q == ((b1 & 0b1111_0000u8) as u16) << 2u16 | (b2 as u16),
    ;
    assert(ch_pack(ChunkHeader { flags: f, size: s }) =~= seq![b0, b1 & 0b0000_1111u8]);
    assert(chv_pack(ChunkHeaderVital { h: ChunkHeader { flags: f, size: s }, sequence: q }) =~= seq![
        b0,
        b1 | ((b2 & 0b1100_0000u8) >> 2u8),
        b2 | ((b1 & 0b0011_0000u8) << 2u8),
    ]);
}

// ---------------------------------------------------------------------------
// Chunks.

/// Reads the chunk header at the start of `data`; returns the header, the
/// sequence number of a vital chunk and the rest of `data`.
pub fn read_chunk_header<'a>(warns: &mut Vec<Warning>, data: &'a [u8]) -> (r: Option<
    (ChunkHeader, Option<u16>, &'a [u8]),
>)
    ensures
        (r is Some) <==> data@.len() >= 2 && data@.len() >= ch_header_len(data@),
        r matches Some((h, seq, rest)) ==> {
            &&& h.flags == ch_flags(data@)
            &&& h.size == ch_size(data@)
            &&& seq == (if ch_vital(data@) {
                Some(ch_sequence(data@))
            } else {
                None
            })
            &&& rest@ == data@.subrange(ch_header_len(data@), data@.len() as int)
            &&& final(warns)@ == old(warns)@ + ch_warnings(data@)
        },
        r is None ==> final(warns)@ == old(warns)@,
{
    if data.len() < CHUNK_HEADER_SIZE {
        return None;
    }
    let raw = ChunkHeaderPacked::from_bytes(slice_head(data, CHUNK_HEADER_SIZE));
    let header = raw.unpack();
    if header.flags & CHUNKFLAG_VITAL != 0 {
        if data.len() < CHUNK_HEADER_SIZE_VITAL {
            return None;
        }
        let vh = ChunkHeaderVitalPacked::from_bytes(slice_head(data, CHUNK_HEADER_SIZE_VITAL));
        let v = vh.unpack_warn(warns);
        proof {
            assert(final(warns)@ =~= old(warns)@ + ch_warnings(data@));
        }
        Some((v.h, Some(v.sequence), slice_tail(data, CHUNK_HEADER_SIZE_VITAL)))
    } else {
        raw.unpack_warn(warns);
        proof {
            assert(final(warns)@ =~= old(warns)@ + ch_warnings(data@));
        }
        Some((header, None, slice_tail(data, CHUNK_HEADER_SIZE)))
    }
}

/// Iterates over the chunks of a packet payload.
#[derive(Debug)]
pub struct ChunksIter<'a> {
    data: &'a [u8],
    initial_len: usize,
    num_remaining_chunks: i32,
    checked_num_chunks_warning: bool,
}

impl<'a> ChunksIter<'a> {
    #[verifier::type_invariant]
    spec fn inv(self) -> bool {
        &&& self.initial_len <= i32::MAX
        &&& self.data@.len() <= self.initial_len
        &&& 2 * self.num_remaining_chunks + (self.initial_len - self.data@.len()) >= 0
        &&& self.num_remaining_chunks <= 255
    }

    /// The bytes not yet read.
    pub closed spec fn spec_data(&self) -> Seq<u8> {
        self.data@
    }

    /// A copy of the iterator in its current state.
    pub fn clone(&self) -> (r: ChunksIter<'a>)
        ensures
            r.spec_data() == self.spec_data(),
            r.spec_initial_len() == self.spec_initial_len(),
            r.spec_remaining() == self.spec_remaining(),
            r.spec_checked() == self.spec_checked(),
    {
        proof {
            use_type_invariant(self);
        }
        ChunksIter {
            data: self.data,
            initial_len: self.initial_len,
            num_remaining_chunks: self.num_remaining_chunks,
            checked_num_chunks_warning: self.checked_num_chunks_warning,
        }
    }

    /// Length of the whole payload.
    pub closed spec fn spec_initial_len(&self) -> int {
        self.initial_len as int
    }

    /// Number of chunks the header announced, minus the chunks read.
    pub closed spec fn spec_remaining(&self) -> int {
        self.num_remaining_chunks as int
    }

    /// Whether the end of the data was already reached.
    pub closed spec fn spec_checked(&self) -> bool {
        self.checked_num_chunks_warning
    }

    pub fn new(data: &'a [u8], num_chunks: u8) -> (r: ChunksIter<'a>)
        requires
            data@.len() <= i32::MAX,
        ensures
            r.spec_data() == data@,
            r.spec_initial_len() == data@.len(),
            r.spec_remaining() == num_chunks,
            !r.spec_checked(),
    {
        ChunksIter {
            data,
            initial_len: data.len(),
            num_remaining_chunks: num_chunks as i32,
            checked_num_chunks_warning: false,
        }
    }

    fn excess_data(&mut self, warns: &mut Vec<Warning>) -> (r: Option<Chunk<'static>>)
        ensures
            r is None,
            final(self).spec_data() == Seq::<u8>::empty(),
            final(self).spec_initial_len() == old(self).spec_initial_len(),
            final(self).spec_remaining() == old(self).spec_remaining(),
            final(self).spec_checked() == old(self).spec_checked(),
            final(warns)@ == old(warns)@.push(Warning::ChunksUnknownData),
    {
        proof {
            use_type_invariant(&*self);
        }
        warns.push(Warning::ChunksUnknownData);
        self.data = slice_tail(self.data, self.data.len());
        None
    }

    /// Number of bytes read so far.
    pub fn pos(&self) -> (r: usize)
        ensures
            r == self.spec_initial_len() - self.spec_data().len(),
    {
        proof {
            use_type_invariant(self);
        }
        self.initial_len - self.data.len()
    }

    /// The next chunk, warning about irregularities.
    pub fn next_warn(&mut self, warns: &mut Vec<Warning>) -> (r: Option<Chunk<'a>>)
        ensures
            final(self).spec_initial_len() == old(self).spec_initial_len(),
            ({
                let d = old(self).spec_data();
                let n = old(self).spec_remaining();
                let header_ok = d.len() >= 2 && d.len() >= ch_header_len(d);
                let size = ch_size(d) as int;
                let hl = ch_header_len(d);
                if d.len() == 0 {
                    &&& r is None
                    &&& final(self).spec_data() == d
                    &&& final(self).spec_remaining() == n
                    &&& final(self).spec_checked()
                    &&& final(warns)@ == old(warns)@ + warn_if(
                        !old(self).spec_checked() && n != 0,
                        Warning::ChunksNumChunks,
                    )
                } else if d.len() == 4 && n == 0 {
                    &&& r is None
                    &&& final(self).spec_data() == d
                    &&& final(self).spec_remaining() == n
                    &&& final(self).spec_checked() == old(self).spec_checked()
                    &&& final(warns)@ == old(warns)@
                } else if header_ok && d.len() - hl >= size {
                    &&& r matches Some(c) && c.data@ == d.subrange(hl, hl + size) && c.vital == (
                    if ch_vital(d) {
                        Some((ch_sequence(d), ch_flags(d) & CHUNKFLAG_RESEND != 0))
                    } else {
                        None
                    })
                    &&& final(self).spec_data() == d.subrange(hl + size, d.len() as int)
                    &&& final(self).spec_remaining() == n - 1
                    &&& final(self).spec_checked() == old(self).spec_checked()
                    &&& final(warns)@ == old(warns)@ + ch_warnings(d)
                } else {
                    &&& r is None
                    &&& final(self).spec_data() == Seq::<u8>::empty()
                    &&& final(self).spec_remaining() == n
                    &&& final(self).spec_checked() == old(self).spec_checked()
                    &&& final(warns)@ == old(warns)@ + (if header_ok {
                        ch_warnings(d)
                    } else {
                        Seq::empty()
                    }) + seq![Warning::ChunksUnknownData]
                }
            }),
    {
        proof {
            use_type_invariant(&*self);
        }
        if self.data.len() == 0 {
            if !self.checked_num_chunks_warning {
                self.checked_num_chunks_warning = true;
                if self.num_remaining_chunks != 0 {
                    warns.push(Warning::ChunksNumChunks);
                }
            }
            proof {
                assert(final(warns)@ =~= old(warns)@ + warn_if(
                    !old(self).spec_checked() && old(self).spec_remaining() != 0,
                    Warning::ChunksNumChunks,
                ));
            }
            return None;
        }
        if self.data.len() == 4 && self.num_remaining_chunks == 0 {
            return None;
        }
        let ghost w0 = warns@;
        let (header, sequence, chunk_data_and_rest) = match read_chunk_header(warns, self.data) {
            Some(x) => x,
            None => {
                let r = self.excess_data(warns);
                proof {
                    assert(final(warns)@ =~= old(warns)@ + Seq::<Warning>::empty() + seq![
                        Warning::ChunksUnknownData,
                    ]);
                }
                return r;
            },
        };
        let vital = match sequence {
            Some(s) => Some((s, header.flags & CHUNKFLAG_RESEND != 0)),
            None => None,
        };
        let size = header.size as usize;
        if chunk_data_and_rest.len() < size {
            let r = self.excess_data(warns);
            proof {
                assert(final(warns)@ =~= old(warns)@ + ch_warnings(old(self).spec_data()) + seq![
                    Warning::ChunksUnknownData,
                ]);
            }
            return r;
        }
        let chunk_data = slice_head(chunk_data_and_rest, size);
        let rest = slice_tail(chunk_data_and_rest, size);
        proof {
            let d = old(self).spec_data();
            let hl = ch_header_len(d);
            assert(chunk_data@ =~= d.subrange(hl, hl + size));
            assert(rest@ =~= d.subrange(hl + size, d.len() as int));
        }
        self.data = rest;
        self.num_remaining_chunks = self.num_remaining_chunks - 1;
        Some(Chunk { data: chunk_data, vital })
    }

    /// The next chunk, ignoring irregularities.
    pub fn next(&mut self) -> (r: Option<Chunk<'a>>)
        ensures
            final(self).spec_initial_len() == old(self).spec_initial_len(),
    {
        let mut ignore: Vec<Warning> = Vec::new();
        self.next_warn(&mut ignore)
    }
}

/// Writes a chunk header and `bytes`; `vital` is `Some((sequence, resend))`
/// for vital chunks.
pub fn write_chunk(bytes: &[u8], vital: Option<(u16, bool)>, buffer: &mut Buffer) -> (r: Result<
    (),
    CapacityError,
>)
    requires
        bytes@.len() < 1024,
        vital matches Some((s, _)) ==> s < 1024,
    ensures
        final(buffer).capacity() == old(buffer).capacity(),
        ({
            let header = chunk_header_bytes(bytes@.len() as u16, vital);
            &&& (r is Ok) <==> old(buffer)@.len() + header.len() + bytes@.len() <= old(
                buffer,
            ).capacity()
            &&& r is Ok ==> final(buffer)@ == old(buffer)@ + header + bytes@
            &&& r is Err ==> final(buffer)@ == old(buffer)@ || final(buffer)@ == old(buffer)@ + header
        }),
{
    let size: u16 = bytes.len() as u16;
    let (sequence, resend) = match vital {
        Some(v) => v,
        None => (0, false),
    };
    let resend_flag: u8 = if resend {
        CHUNKFLAG_RESEND
    } else {
        0
    };
    let vital_flag: u8 = if vital.is_some() {
        CHUNKFLAG_VITAL
    } else {
        0
    };
    let flags: u8 = vital_flag | resend_flag;
    assert(flags < 4) by (bit_vector)
        requires
            flags == vital_flag | resend_flag,
            vital_flag == 0 || vital_flag == 1,
            resend_flag == 0 || resend_flag == 2,
    ;
    let header_nonvital = ChunkHeader { flags, size };
    if vital.is_some() {
        let h = ChunkHeaderVital { h: header_nonvital, sequence }.pack().as_bytes();
        buffer.write(&h)?;
    } else {
        let h = header_nonvital.pack().as_bytes();
        buffer.write(&h)?;
    }
    buffer.write(bytes)?;
    Ok(())
}

/// The header `write_chunk` writes for a chunk of `size` bytes.
pub open spec fn chunk_header_bytes(size: u16, vital: Option<(u16, bool)>) -> Seq<u8> {
    match vital {
        Some((s, resend)) => chv_pack(
            ChunkHeaderVital {
                h: ChunkHeader {
                    flags: CHUNKFLAG_VITAL | (if resend {
                        CHUNKFLAG_RESEND
                    } else {
                        0u8
                    }),
                    size,
                },
                sequence: s,
            },
        ),
        None => ch_pack(ChunkHeader { flags: 0u8 | 0u8, size }),
    }
}

// ---------------------------------------------------------------------------
// Packets.

/// Flags of the packet that `b` holds.
pub open spec fn packet_flags(b: Seq<u8>) -> u8 {
    ph_flags(b)
}

pub open spec fn is_connless(b: Seq<u8>) -> bool {
    packet_flags(b) & PACKETFLAG_CONNLESS != 0
}

pub open spec fn is_compressed(b: Seq<u8>) -> bool {
    packet_flags(b) & PACKETFLAG_COMPRESSION != 0
}

pub open spec fn is_control(b: Seq<u8>) -> bool {
    packet_flags(b) & PACKETFLAG_CONTROL != 0
}

pub open spec fn requests_resend(b: Seq<u8>) -> bool {
    packet_flags(b) & PACKETFLAG_REQUEST_RESEND != 0
}

/// The first six bytes of a connectionless packet are all `0xff`.
pub open spec fn connless_padding_ok(b: Seq<u8>) -> bool {
    forall|i: int| 0 <= i < 6 ==> b[i] == 0xff
}

/// The payload of the connected packet `b` (decompressed if needed), or
/// `None` if decompression fails or the payload is too long.
pub open spec fn packet_payload(b: Seq<u8>, nodes: Seq<crate::huffman::Node>) -> Option<Seq<u8>> {
    let p = if is_compressed(b) {
        decompressed(nodes, b.subrange(3, b.len() as int), (MAX_PACKETSIZE - HEADER_SIZE) as nat)
    } else {
        Some(b.subrange(3, b.len() as int))
    };
    match p {
        Some(p) => if p.len() > MAX_PAYLOAD {
            None
        } else {
            Some(p)
        },
        None => None,
    }
}

/// Length of the reason of a close control packet whose data after the
/// control byte is `rest`.
pub open spec fn close_reason_len(rest: Seq<u8>) -> int {
    let nul = match first_nul(rest) {
        Some(i) => i,
        None => rest.len() as int,
    };
    if nul < CTRLMSG_CLOSE_REASON_LENGTH {
        nul
    } else {
        CTRLMSG_CLOSE_REASON_LENGTH as int
    }
}

/// Warnings reading a control packet with header flags `f`, `n` announced
/// chunks and payload `p` raises.
pub open spec fn control_warnings(f: u8, n: u8, p: Seq<u8>) -> Seq<Warning> {
    warn_if(n != 0, Warning::ControlNumChunks) + warn_if(
        f & PACKETFLAG_COMPRESSION != 0 || f & PACKETFLAG_REQUEST_RESEND != 0,
        Warning::ControlFlags,
    ) + if p.len() == 0 {
        Seq::empty()
    } else {
        let rest = p.subrange(1, p.len() as int);
        if p[0] != CTRLMSG_CLOSE {
            warn_if(rest.len() != 0, Warning::ControlExcessData)
        } else {
            close_warnings(rest)
        }
    }
}

/// Error reading a control packet with payload `p`.
pub open spec fn control_error(p: Seq<u8>) -> Option<PacketReadError> {
    if p.len() == 0 {
        Some(PacketReadError::ControlMissing)
    } else if p[0] > CTRLMSG_CLOSE {
        Some(PacketReadError::UnknownControl)
    } else {
        None
    }
}

/// `c` is the control packet with payload `p`.
pub open spec fn control_matches(p: Seq<u8>, c: ControlPacket) -> bool {
    &&& p.len() > 0
    &&& match c {
        ControlPacket::KeepAlive => p[0] == CTRLMSG_KEEPALIVE,
        ControlPacket::Connect => p[0] == CTRLMSG_CONNECT,
        ControlPacket::ConnectAccept => p[0] == CTRLMSG_CONNECTACCEPT,
        ControlPacket::Accept => p[0] == CTRLMSG_ACCEPT,
        ControlPacket::Close(reason) => p[0] == CTRLMSG_CLOSE && reason@ == p.subrange(
            1,
            1 + close_reason_len(p.subrange(1, p.len() as int)),
        ),
    }
}

/// Error reading the packet `b`, if any.
pub open spec fn read_error(b: Seq<u8>, nodes: Seq<crate::huffman::Node>) -> Option<PacketReadError> {
    if b.len() > MAX_PACKETSIZE {
        Some(PacketReadError::TooLong)
    } else if b.len() < HEADER_SIZE {
        Some(PacketReadError::TooShort)
    } else if is_connless(b) {
        if b.len() < HEADER_SIZE + PADDING_SIZE_CONNLESS {
            Some(PacketReadError::ShortConnless)
        } else {
            None
        }
    } else {
        match packet_payload(b, nodes) {
            None => Some(PacketReadError::Compression),
            Some(p) => if is_control(b) {
                control_error(p)
            } else {
                None
            },
        }
    }
}

/// Warnings reading the packet `b` raises.
pub open spec fn read_warnings(b: Seq<u8>, nodes: Seq<crate::huffman::Node>) -> Seq<Warning> {
    if b.len() > MAX_PACKETSIZE || b.len() < HEADER_SIZE {
        Seq::empty()
    } else {
        warn_if(ph_padding(b), Warning::PacketHeaderPadding) + if is_connless(b) {
            if b.len() < HEADER_SIZE + PADDING_SIZE_CONNLESS {
                Seq::empty()
            } else {
                warn_if(!connless_padding_ok(b), Warning::ConnlessPadding)
            }
        } else {
            match packet_payload(b, nodes) {
                None => Seq::empty(),
                Some(p) => if is_control(b) {
                    control_warnings(packet_flags(b), b[2], p)
                } else {
                    warn_if(b[2] == 0 && !requests_resend(b), Warning::ChunksNoChunks)
                },
            }
        }
    }
}

/// `pk` is what reading the packet `b` gives.
pub open spec fn read_matches(b: Seq<u8>, nodes: Seq<crate::huffman::Node>, pk: Packet) -> bool {
    match pk {
        Packet::Connless(d) => is_connless(b) && d@ == b.subrange(
            (HEADER_SIZE + PADDING_SIZE_CONNLESS) as int,
            b.len() as int,
        ),
        Packet::Connected(c) => {
            &&& !is_connless(b)
            &&& c.ack == ph_ack(b)
            &&& packet_payload(b, nodes) is Some
            &&& match c.type_ {
                ConnectedPacketType::Chunks(rr, n, d) => !is_control(b) && rr == requests_resend(b)
                    && n == b[2] && d@ == packet_payload(b, nodes)->0,
                ConnectedPacketType::Control(ctrl) => is_control(b) && control_matches(
                    packet_payload(b, nodes)->0,
                    ctrl,
                ),
            }
        },
    }
}

/// Position of the first NUL in `s`, or its length.
fn nul_or_len(s: &[u8]) -> (r: usize)
    ensures
        r == (match first_nul(s@) {
            Some(i) => i,
            None => s@.len() as int,
        }),
        r <= s@.len(),
{
    match crate::packer::find_nul(s) {
        Some(i) => i,
        None => s.len(),
    }
}

/// Warnings a control close packet with data `rest` after its control byte
/// raises.
pub open spec fn close_warnings(rest: Seq<u8>) -> Seq<Warning> {
    let nul = close_reason_len(rest);
    if rest.len() != 0 && nul + 1 != rest.len() {
        if nul + 1 < rest.len() {
            seq![Warning::ControlExcessData]
        } else {
            seq![Warning::ControlNulTermination]
        }
    } else {
        Seq::empty()
    }
}

/// The reason of a close control packet is a prefix of the data after the
/// control byte.
pub proof fn lemma_close_reason_len(rest: Seq<u8>)
    ensures
        0 <= close_reason_len(rest) <= rest.len(),
{
    if exists|i: int| 0 <= i < rest.len() && rest[i] == 0 {
        crate::packer::lemma_first_nul_exists(rest);
    }
}

/// The reason of a close control packet with data `rest` after its control
/// byte: everything up to the first NUL byte, at most
/// `CTRLMSG_CLOSE_REASON_LENGTH` bytes.
pub fn close_reason(rest: &[u8]) -> (r: &[u8])
    ensures
        0 <= close_reason_len(rest@) <= rest@.len(),
        r@ == rest@.subrange(0, close_reason_len(rest@)),
{
    proof {
        lemma_close_reason_len(rest@);
    }
    let nul = nul_or_len(rest);
    let nul = if nul < CTRLMSG_CLOSE_REASON_LENGTH {
        nul
    } else {
        CTRLMSG_CLOSE_REASON_LENGTH
    };
    slice_head(rest, nul)
}

/// The reason of a close control packet with data `rest` after its control
/// byte.
fn read_close<'b>(warns: &mut Vec<Warning>, rest: &'b [u8]) -> (r: &'b [u8])
    ensures
        r@ == rest@.subrange(0, close_reason_len(rest@)),
        final(warns)@ == old(warns)@ + close_warnings(rest@),
{
    let reason = close_reason(rest);
    let nul = reason.len();
    if rest.len() != 0 && nul + 1 != rest.len() {
        if nul + 1 < rest.len() {
            warns.push(Warning::ControlExcessData);
        } else {
            warns.push(Warning::ControlNulTermination);
        }
    }
    proof {
        assert(warns@ =~= old(warns)@ + close_warnings(rest@));
    }
    reason
}

/// Warnings about the header of a control packet.
fn control_header_warnings(warns: &mut Vec<Warning>, flags: u8, num_chunks: u8)
    ensures
        final(warns)@ == old(warns)@ + warn_if(num_chunks != 0, Warning::ControlNumChunks) + warn_if(
            flags & PACKETFLAG_COMPRESSION != 0 || flags & PACKETFLAG_REQUEST_RESEND != 0,
            Warning::ControlFlags,
        ),
{
    if num_chunks != 0 {
        warns.push(Warning::ControlNumChunks);
    }
    if flags & PACKETFLAG_COMPRESSION != 0 || flags & PACKETFLAG_REQUEST_RESEND != 0 {
        warns.push(Warning::ControlFlags);
    }
    proof {
        assert(warns@ =~= old(warns)@ + warn_if(num_chunks != 0, Warning::ControlNumChunks) + warn_if(
            flags & PACKETFLAG_COMPRESSION != 0 || flags & PACKETFLAG_REQUEST_RESEND != 0,
            Warning::ControlFlags,
        ));
    }
}

/// Reads a control packet from its header fields and payload.
fn read_control<'b>(warns: &mut Vec<Warning>, flags: u8, num_chunks: u8, payload: &'b [u8]) -> (r: Result<
    ControlPacket<'b>,
    PacketReadError,
>)
    ensures
        final(warns)@ == old(warns)@ + control_warnings(flags, num_chunks, payload@),
        (r is Err) <==> control_error(payload@) is Some,
        r matches Err(e) ==> control_error(payload@) == Some(e),
        r matches Ok(c) ==> control_matches(payload@, c),
{
    control_header_warnings(warns, flags, num_chunks);
    let ghost w1 = warns@;
    if payload.len() == 0 {
        proof {
            assert(warns@ =~= old(warns)@ + control_warnings(flags, num_chunks, payload@));
        }
        return Err(PacketReadError::ControlMissing);
    }
    let control = payload[0];
    let rest = slice_tail(payload, 1);
    if control == CTRLMSG_CLOSE {
        let reason = read_close(warns, rest);
        proof {
            lemma_close_reason_len(rest@);
            assert(warns@ =~= old(warns)@ + control_warnings(flags, num_chunks, payload@));
            assert(reason@ =~= payload@.subrange(1, 1 + close_reason_len(payload@.subrange(1, payload@.len() as int))));
        }
        return Ok(ControlPacket::Close(reason));
    }
    if rest.len() != 0 {
        warns.push(Warning::ControlExcessData);
    }
    proof {
        assert(warns@ =~= old(warns)@ + control_warnings(flags, num_chunks, payload@));
    }
    if control == CTRLMSG_KEEPALIVE {
        Ok(ControlPacket::KeepAlive)
    } else if control == CTRLMSG_CONNECT {
        Ok(ControlPacket::Connect)
    } else if control == CTRLMSG_CONNECTACCEPT {
        Ok(ControlPacket::ConnectAccept)
    } else if control == CTRLMSG_ACCEPT {
        Ok(ControlPacket::Accept)
    } else {
        Err(PacketReadError::UnknownControl)
    }
}

/// The packed header of the packet `b` (at least `HEADER_SIZE` bytes long).
fn packet_header(b: &[u8], warns: &mut Vec<Warning>) -> (r: PacketHeader)
    requires
        b@.len() >= HEADER_SIZE,
    ensures
        r == ph_unpack(b@),
        final(warns)@ == old(warns)@ + warn_if(ph_padding(b@), Warning::PacketHeaderPadding),
{
    let h = PacketHeaderPacked::from_bytes(slice_head(b, HEADER_SIZE));
    assert(h.bytes()[0] == b@[0] && h.bytes()[1] == b@[1] && h.bytes()[2] == b@[2]);
    h.unpack_warn(warns)
}

/// Decompresses the payload of the packet `b` with `huffman`.
fn decompress_payload(huffman: &Huffman, b: &[u8]) -> (r: Result<Vec<u8>, DecompressionError>)
    requires
        b@.len() >= HEADER_SIZE,
    ensures
        (r is Ok) <==> decompressed(huffman.spec_nodes(), b@.subrange(3, b@.len() as int), (MAX_PACKETSIZE - HEADER_SIZE) as nat) is Some,
        r matches Ok(d) ==> decompressed(huffman.spec_nodes(), b@.subrange(3, b@.len() as int), (MAX_PACKETSIZE - HEADER_SIZE) as nat) == Some(d@),
{
    huffman.decompress(slice_tail(b, HEADER_SIZE), MAX_PACKETSIZE - HEADER_SIZE)
}

/// The header a decompressed copy of the compressed packet `b` starts with:
/// that of `b` without the compression flag.
pub open spec fn decompressed_header(b: Seq<u8>) -> Seq<u8> {
    ph_pack(PacketHeader { flags: ph_flags(b) & !PACKETFLAG_COMPRESSION, ack: ph_ack(b), num_chunks: b[2] })
}

/// How many bytes decompressing into a buffer with `remaining` free bytes
/// may produce after the header.
pub open spec fn decompression_capacity(remaining: int) -> nat {
    if remaining - HEADER_SIZE > 0xffff_ffff {
        0xffff_ffff
    } else {
        (remaining - HEADER_SIZE) as nat
    }
}

impl<'a> Packet<'a> {
    /// Whether `packet` is a compressed connected packet.
    pub fn needs_decompression(packet: &[u8]) -> (r: bool)
        ensures
            r == (packet@.len() <= MAX_PACKETSIZE && packet@.len() >= HEADER_SIZE && !is_connless(
                packet@,
            ) && is_compressed(packet@)),
    {
        if packet.len() > MAX_PACKETSIZE || packet.len() < HEADER_SIZE {
            return false;
        }
        let mut ignore: Vec<Warning> = Vec::new();
        let header = packet_header(packet, &mut ignore);
        header.flags & PACKETFLAG_CONNLESS == 0 && header.flags & PACKETFLAG_COMPRESSION != 0
    }

    /// Where `packet` is a compressed connected packet, appends to `buffer`
    /// its header without the compression flag and its decompressed payload
    /// and returns `true`; returns `false` for any other packet.
    pub fn decompress_if_needed(huffman: &Huffman, packet: &[u8], buffer: &mut Buffer) -> (r: Result<
        bool,
        DecompressionError,
    >)
        requires
            old(buffer)@.len() + MAX_PACKETSIZE <= old(buffer).capacity(),
        ensures
            final(buffer).capacity() == old(buffer).capacity(),
            ({
                let needed = packet@.len() <= MAX_PACKETSIZE && packet@.len() >= HEADER_SIZE
                    && !is_connless(packet@) && is_compressed(packet@);
                let cap = decompression_capacity(old(buffer).capacity() - old(buffer)@.len());
                let d = decompressed(
                    huffman.spec_nodes(),
                    packet@.subrange(HEADER_SIZE as int, packet@.len() as int),
                    cap,
                );
                if !needed {
                    r == Ok::<bool, DecompressionError>(false) && final(buffer)@ == old(buffer)@
                } else {
                    match d {
                        Some(d) => r == Ok::<bool, DecompressionError>(true) && final(buffer)@ == old(
                            buffer,
                        )@ + decompressed_header(packet@) + d,
                        None => r is Err && final(buffer)@ == old(buffer)@,
                    }
                }
            }),
    {
        if !Packet::needs_decompression(packet) {
            return Ok(false);
        }
        let rem = buffer.remaining();
        let cap: usize = if rem - HEADER_SIZE > 0xffff_ffff {
            0xffff_ffff
        } else {
            rem - HEADER_SIZE
        };
        let d = match huffman.decompress(slice_tail(packet, HEADER_SIZE), cap) {
            Ok(d) => d,
            Err(e) => return Err(e),
        };
        let mut ignore: Vec<Warning> = Vec::new();
        let header = packet_header(packet, &mut ignore);
        let hf = header.flags;
        let ha = header.ack;
        let k = PACKETFLAG_COMPRESSION;
        let flags: u8 = hf & !k;
        let p0 = packet[0];
        let p1 = packet[1];
        assert(hf < 16 && ha < 1024) by (bit_vector)
            requires
                hf == (p0 & 0b1111_0000u8) >> 4u8 || hf == (p0 & 0b0011_1100u8) >> 2u8,
                ha == ((p0 & 0b11u8) as u16) << 8u16 | (p1 as u16),
        ;
        assert(flags < 16) by (bit_vector)
            requires
                hf < 16,
                flags == hf & !k,
        ;
        let fake = PacketHeader { flags, ack: header.ack, num_chunks: header.num_chunks };
        let hb = fake.pack().as_bytes();
        let ghost b0 = buffer@;
        match buffer.write(&hb) {
            Ok(()) => {},
            Err(_) => return Err(DecompressionError::Capacity(CapacityError)),
        }
        match buffer.write(d.as_slice()) {
            Ok(()) => {},
            Err(_) => return Err(DecompressionError::Capacity(CapacityError)),
        }
        proof {
            assert(buffer@ =~= b0 + decompressed_header(packet@) + d@);
        }
        Ok(true)
    }

    /// Parses a packet. A compressed payload is decompressed with `huffman`
    /// into `buffer`, which the result then borrows.
    pub fn read<'b>(warns: &mut Vec<Warning>, huffman: &Huffman, bytes: &'b [u8], buffer: &'b mut Vec<u8>) -> (r: Result<
        Packet<'b>,
        PacketReadError,
    >)
        ensures
            (r is Err) <==> read_error(bytes@, huffman.spec_nodes()) is Some,
            r matches Err(e) ==> read_error(bytes@, huffman.spec_nodes()) == Some(e),
            r matches Ok(pk) ==> read_matches(bytes@, huffman.spec_nodes(), pk),
            final(warns)@ == old(warns)@ + read_warnings(bytes@, huffman.spec_nodes()),
    {
        if bytes.len() > MAX_PACKETSIZE {
            return Err(PacketReadError::TooLong);
        }
        if bytes.len() < HEADER_SIZE {
            return Err(PacketReadError::TooShort);
        }
        if Packet::needs_decompression(bytes) {
            match decompress_payload(huffman, bytes) {
                Ok(d) => {
                    *buffer = d;
                    let stored: &'b Vec<u8> = buffer;
                    Packet::read_impl(warns, bytes, stored.as_slice(), Ghost(huffman.spec_nodes()))
                },
                Err(_) => {
                    let _ = packet_header(bytes, warns);
                    Err(PacketReadError::Compression)
                },
            }
        } else {
            Packet::read_impl(warns, bytes, slice_tail(bytes, HEADER_SIZE), Ghost(huffman.spec_nodes()))
        }
    }

    /// Parses a packet that must not be compressed.
    pub fn read_panic_on_decompression<'b>(warns: &mut Vec<Warning>, bytes: &'b [u8]) -> (r: Result<
        Packet<'b>,
        PacketReadError,
    >)
        requires
            !(bytes@.len() <= MAX_PACKETSIZE && bytes@.len() >= HEADER_SIZE && !is_connless(bytes@)
                && is_compressed(bytes@)),
        ensures
            forall|nodes: Seq<crate::huffman::Node>| {
                &&& (r is Err) <==> read_error(bytes@, nodes) is Some
                &&& r matches Err(e) ==> read_error(bytes@, nodes) == Some(e)
                &&& r matches Ok(pk) ==> read_matches(bytes@, nodes, pk)
                &&& final(warns)@ == old(warns)@ + read_warnings(bytes@, nodes)
            },
    {
        if bytes.len() > MAX_PACKETSIZE {
            return Err(PacketReadError::TooLong);
        }
        if bytes.len() < HEADER_SIZE {
            return Err(PacketReadError::TooShort);
        }
        Packet::read_impl(warns, bytes, slice_tail(bytes, HEADER_SIZE), Ghost(Seq::empty()))
    }

    /// Reads the packet `bytes` whose (decompressed) payload is `payload`.
    fn read_impl<'b>(warns: &mut Vec<Warning>, bytes: &'b [u8], payload: &'b [u8], Ghost(nodes): Ghost<Seq<crate::huffman::Node>>) -> (r: Result<
        Packet<'b>,
        PacketReadError,
    >)
        requires
            HEADER_SIZE <= bytes@.len() <= MAX_PACKETSIZE,
            !is_connless(bytes@) ==> if is_compressed(bytes@) {
                decompressed(nodes, bytes@.subrange(3, bytes@.len() as int), (MAX_PACKETSIZE - HEADER_SIZE) as nat) == Some(payload@)
            } else {
                payload@ == bytes@.subrange(3, bytes@.len() as int)
            },
        ensures
            forall|nodes2: Seq<crate::huffman::Node>| (is_connless(bytes@) || !is_compressed(bytes@) || nodes2 == nodes) ==> {
                &&& (r is Err) <==> read_error(bytes@, nodes2) is Some
                &&& r matches Err(e) ==> read_error(bytes@, nodes2) == Some(e)
                &&& r matches Ok(pk) ==> read_matches(bytes@, nodes2, pk)
                &&& final(warns)@ == old(warns)@ + read_warnings(bytes@, nodes2)
            },
    {
        let header = packet_header(bytes, warns);
        let ghost w1 = warns@;
        if header.flags & PACKETFLAG_CONNLESS != 0 {
            if bytes.len() < HEADER_SIZE + PADDING_SIZE_CONNLESS {
                return Err(PacketReadError::ShortConnless);
            }
            let mut all_ff = true;
            let mut i: usize = 0;
            while i < 6
                invariant
                    i <= 6,
                    bytes@.len() >= 6,
                    all_ff == forall|j: int| 0 <= j < i ==> bytes@[j] == 0xff,
                decreases 6 - i,
            {
                if bytes[i] != 0xff {
                    all_ff = false;
                }
                i = i + 1;
            }
            if !all_ff {
                warns.push(Warning::ConnlessPadding);
            }
            proof {
                assert(warns@ =~= old(warns)@ + read_warnings(bytes@, nodes));
                assert forall|nodes2: Seq<crate::huffman::Node>| read_warnings(bytes@, nodes2) == read_warnings(bytes@, nodes) by {}
            }
            return Ok(Packet::Connless(slice_tail(bytes, HEADER_SIZE + PADDING_SIZE_CONNLESS)));
        }
        if payload.len() > MAX_PAYLOAD {
            return Err(PacketReadError::Compression);
        }
        let ack = header.ack;
        let type_ = if header.flags & PACKETFLAG_CONTROL != 0 {
            match read_control(warns, header.flags, header.num_chunks, payload) {
                Ok(c) => ConnectedPacketType::Control(c),
                Err(e) => return Err(e),
            }
        } else {
            let request_resend = header.flags & PACKETFLAG_REQUEST_RESEND != 0;
            if header.num_chunks == 0 && !request_resend {
                warns.push(Warning::ChunksNoChunks);
            }
            proof {
                assert(warns@ =~= w1 + warn_if(bytes@[2] == 0 && !requests_resend(bytes@), Warning::ChunksNoChunks));
            }
            ConnectedPacketType::Chunks(request_resend, header.num_chunks, payload)
        };
        Ok(Packet::Connected(ConnectedPacket { ack, type_ }))
    }

    /// Writes the packet: connected packets with a compressed payload if that
    /// is shorter (`compression_capacity` bounds the compressed size).
    pub fn write(&self, huffman: &Huffman, compression_capacity: usize, buffer: &mut Buffer) -> (r: Result<(), Error>)
        requires
            compression_capacity >= MAX_PAYLOAD,
            packet_writable(*self),
        ensures
            final(buffer).capacity() == old(buffer).capacity(),
            r is Ok ==> final(buffer)@ == old(buffer)@ + packet_bytes(*self, huffman.spec_nodes(), compression_capacity),
            (r is Ok) <==> packet_write_error(*self, huffman.spec_nodes(), compression_capacity, old(buffer)@.len(), old(buffer).capacity()) is None,
            r matches Err(e) ==> packet_write_error(*self, huffman.spec_nodes(), compression_capacity, old(buffer)@.len(), old(buffer).capacity()) == Some(e),
    {
        match *self {
            Packet::Connected(p) => p.write(huffman, compression_capacity, buffer),
            Packet::Connless(d) => write_connless_packet(d, buffer),
        }
    }
}

/// Writes a connectionless packet: six `0xff` bytes, then `bytes`.
pub(crate) fn write_connless_packet(bytes: &[u8], buffer: &mut Buffer) -> (r: Result<(), Error>)
    ensures
        final(buffer).capacity() == old(buffer).capacity(),
        bytes@.len() > MAX_PAYLOAD ==> r == Err::<(), Error>(Error::TooLongData) && final(buffer)@ == old(buffer)@,
        bytes@.len() <= MAX_PAYLOAD ==> {
            &&& (r is Ok) <==> old(buffer)@.len() + 6 + bytes@.len() <= old(buffer).capacity()
            &&& r is Ok ==> final(buffer)@ == old(buffer)@ + connless_header() + bytes@
            &&& r matches Err(e) ==> e == Error::Capacity(CapacityError)
        },
{
    if bytes.len() > MAX_PAYLOAD {
        return Err(Error::TooLongData);
    }
    let pad: [u8; 6] = [0xff, 0xff, 0xff, 0xff, 0xff, 0xff];
    assert(pad@ =~= connless_header());
    match buffer.write(&pad) {
        Ok(()) => {},
        Err(e) => return Err(Error::Capacity(e)),
    }
    match buffer.write(bytes) {
        Ok(()) => {},
        Err(e) => return Err(Error::Capacity(e)),
    }
    Ok(())
}

/// The six `0xff` bytes starting a connectionless packet.
pub open spec fn connless_header() -> Seq<u8> {
    seq![0xffu8, 0xffu8, 0xffu8, 0xffu8, 0xffu8, 0xffu8]
}

/// The control byte of a control packet.
pub open spec fn control_magic(c: ControlPacket) -> u8 {
    match c {
        ControlPacket::KeepAlive => CTRLMSG_KEEPALIVE,
        ControlPacket::Connect => CTRLMSG_CONNECT,
        ControlPacket::ConnectAccept => CTRLMSG_CONNECTACCEPT,
        ControlPacket::Accept => CTRLMSG_ACCEPT,
        ControlPacket::Close(_) => CTRLMSG_CLOSE,
    }
}

/// The bytes of a control packet after its header.
pub open spec fn control_body(c: ControlPacket) -> Seq<u8> {
    match c {
        ControlPacket::Close(m) => seq![CTRLMSG_CLOSE] + m@ + seq![0u8],
        _ => seq![control_magic(c)],
    }
}

/// The packet can be written: acks fit in 10 bits, close reasons hold no
/// NUL and fit into a packet.
pub open spec fn packet_writable(p: Packet) -> bool {
    match p {
        Packet::Connless(_) => true,
        Packet::Connected(c) => c.ack < 1024 && match c.type_ {
            ConnectedPacketType::Control(ControlPacket::Close(m)) => no_nul(m@) && m@.len() + 5 <= MAX_PACKETSIZE,
            _ => true,
        },
    }
}

/// The payload a chunks packet is sent with: compressed if that fits into
/// `cap` bytes and is shorter.
pub open spec fn sent_payload(payload: Seq<u8>, nodes: Seq<crate::huffman::Node>, cap: usize) -> Seq<u8> {
    let c = crate::huffman::compressed(nodes, payload, false);
    if c.len() <= cap && c.len() < payload.len() {
        c
    } else {
        payload
    }
}

/// The bytes writing the packet `p` appends (when it succeeds).
pub open spec fn packet_bytes(p: Packet, nodes: Seq<crate::huffman::Node>, cap: usize) -> Seq<u8> {
    match p {
        Packet::Connless(d) => connless_header() + d@,
        Packet::Connected(c) => match c.type_ {
            ConnectedPacketType::Chunks(rr, n, payload) => {
                let sent = sent_payload(payload@, nodes, cap);
                let compression = if sent != payload@ {
                    PACKETFLAG_COMPRESSION
                } else {
                    0u8
                };
                let resend = if rr {
                    PACKETFLAG_REQUEST_RESEND
                } else {
                    0u8
                };
                ph_pack(PacketHeader { flags: resend | compression, ack: c.ack, num_chunks: n }) + sent
            },
            ConnectedPacketType::Control(ctrl) => ph_pack(
                PacketHeader { flags: PACKETFLAG_CONTROL, ack: c.ack, num_chunks: 0 },
            ) + control_body(ctrl),
        },
    }
}

/// The error writing `p` into a buffer holding `len` of `cap` bytes gives.
pub open spec fn packet_write_error(
    p: Packet,
    nodes: Seq<crate::huffman::Node>,
    ccap: usize,
    len: nat,
    cap: nat,
) -> Option<Error> {
    match p {
        Packet::Connless(d) => if d@.len() > MAX_PAYLOAD {
            Some(Error::TooLongData)
        } else if len + 6 + d@.len() > cap {
            Some(Error::Capacity(CapacityError))
        } else {
            None
        },
        Packet::Connected(c) => if len + packet_bytes(p, nodes, ccap).len() > cap {
            Some(Error::Capacity(CapacityError))
        } else {
            None
        },
    }
}

impl<'a> ConnectedPacket<'a> {
    /// Writes the packet.
    pub fn write(&self, huffman: &Huffman, compression_capacity: usize, buffer: &mut Buffer) -> (r: Result<(), Error>)
        requires
            compression_capacity >= MAX_PAYLOAD,
            packet_writable(Packet::Connected(*self)),
        ensures
            final(buffer).capacity() == old(buffer).capacity(),
            (r is Ok) <==> old(buffer)@.len() + packet_bytes(Packet::Connected(*self), huffman.spec_nodes(), compression_capacity).len() <= old(buffer).capacity(),
            r is Ok ==> final(buffer)@ == old(buffer)@ + packet_bytes(Packet::Connected(*self), huffman.spec_nodes(), compression_capacity),
            r matches Err(e) ==> e == Error::Capacity(CapacityError),
    {
        match self.type_ {
            ConnectedPacketType::Chunks(request_resend, num_chunks, payload) => {
                let comp = huffman.compress(payload, compression_capacity);
                let use_comp: bool = match &comp {
                    Ok(c) => c.len() < payload.len(),
                    Err(_) => false,
                };
                let compression: u8 = if use_comp {
                    PACKETFLAG_COMPRESSION
                } else {
                    0
                };
                let resend: u8 = if request_resend {
                    PACKETFLAG_REQUEST_RESEND
                } else {
                    0
                };
                let flags: u8 = resend | compression;
                assert(flags < 16) by (bit_vector)
                    requires
                        flags == resend | compression,
                        resend == 0 || resend == 4,
                        compression == 0 || compression == 8,
                ;
                let header = PacketHeader { flags, ack: self.ack, num_chunks }.pack().as_bytes();
                let total = if use_comp {
                    match &comp {
                        Ok(c) => c.len(),
                        Err(_) => 0,
                    }
                } else {
                    payload.len()
                };
                proof {
                    let sent = sent_payload(payload@, huffman.spec_nodes(), compression_capacity);
                    if use_comp {
                        assert(sent != payload@);
                    }
                }
                match buffer.write(&header) {
                    Ok(()) => {},
                    Err(e) => return Err(Error::Capacity(e)),
                }
                let w = match &comp {
                    Ok(c) => if use_comp {
                        buffer.write(c.as_slice())
                    } else {
                        buffer.write(payload)
                    },
                    Err(_) => buffer.write(payload),
                };
                match w {
                    Ok(()) => Ok(()),
                    Err(e) => Err(Error::Capacity(e)),
                }
            },
            ConnectedPacketType::Control(c) => c.write(self.ack, buffer),
        }
    }
}

impl<'a> ControlPacket<'a> {
    pub(crate) fn write(&self, ack: u16, buffer: &mut Buffer) -> (r: Result<(), Error>)
        requires
            ack < 1024,
            self matches ControlPacket::Close(m) ==> no_nul(m@) && m@.len() + 5 <= MAX_PACKETSIZE,
        ensures
            final(buffer).capacity() == old(buffer).capacity(),
            ({
                let all = ph_pack(PacketHeader { flags: PACKETFLAG_CONTROL, ack, num_chunks: 0 }) + control_body(*self);
                &&& (r is Ok) <==> old(buffer)@.len() + all.len() <= old(buffer).capacity()
                &&& r is Ok ==> final(buffer)@ == old(buffer)@ + all
                &&& r matches Err(e) ==> e == Error::Capacity(CapacityError)
            }),
    {
        let header = PacketHeader { flags: PACKETFLAG_CONTROL, ack, num_chunks: 0 }.pack().as_bytes();
        let ghost b0 = old(buffer)@;
        match buffer.write(&header) {
            Ok(()) => {},
            Err(e) => return Err(Error::Capacity(e)),
        }
        let magic: u8 = match *self {
            ControlPacket::KeepAlive => CTRLMSG_KEEPALIVE,
            ControlPacket::Connect => CTRLMSG_CONNECT,
            ControlPacket::ConnectAccept => CTRLMSG_CONNECTACCEPT,
            ControlPacket::Accept => CTRLMSG_ACCEPT,
            ControlPacket::Close(_) => CTRLMSG_CLOSE,
        };
        let mb: [u8; 1] = [magic];
        match buffer.write(&mb) {
            Ok(()) => {},
            Err(e) => return Err(Error::Capacity(e)),
        }
        match *self {
            ControlPacket::Close(m) => {
                match buffer.write(m) {
                    Ok(()) => {},
                    Err(e) => return Err(Error::Capacity(e)),
                }
                let nul: [u8; 1] = [0];
                match buffer.write(&nul) {
                    Ok(()) => {},
                    Err(e) => return Err(Error::Capacity(e)),
                }
                proof {
                    assert(buffer@ =~= b0 + ph_pack(PacketHeader { flags: PACKETFLAG_CONTROL, ack, num_chunks: 0 }) + control_body(*self));
                }
            },
            _ => {
                proof {
                    assert(buffer@ =~= b0 + ph_pack(PacketHeader { flags: PACKETFLAG_CONTROL, ack, num_chunks: 0 }) + control_body(*self));
                }
            },
        }
        Ok(())
    }
}

} // verus!
