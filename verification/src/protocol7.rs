//! The low-level Teeworlds 0.7 network protocol: packet headers with tokens,
//! connectionless headers, chunk headers and control packets.
use vstd::prelude::*;
use crate::buffer::Buffer;
use crate::buffer::CapacityError;
use crate::huffman::DecompressionError;
use crate::huffman::Huffman;
use crate::huffman::decompressed;
use crate::packer::slice_head;
use crate::packer::slice_tail;
use crate::protocol::close_reason;
use crate::protocol::close_reason_len;
use crate::protocol::lemma_close_reason_len;

verus! {

pub const CHUNK_HEADER_SIZE: usize = 2;

pub const CHUNK_HEADER_SIZE_VITAL: usize = 3;

pub const HEADER_SIZE: usize = 7;

pub const HEADER_SIZE_CONNLESS: usize = 9;

pub const MAX_PACKETSIZE: usize = 1400;

/// Largest payload of a packet in a connection: `MAX_PACKETSIZE -
/// HEADER_SIZE - CHUNK_HEADER_SIZE_VITAL`.
pub const MAX_PAYLOAD: usize = 1390;

pub const PACKETFLAG_CONTROL: u8 = 1;

pub const PACKETFLAG_REQUEST_RESEND: u8 = 2;

pub const PACKETFLAG_COMPRESSION: u8 = 4;

pub const PACKETFLAG_CONNLESS: u8 = 8;

pub const CHUNKFLAG_VITAL: u8 = 1;

pub const CHUNKFLAG_RESEND: u8 = 2;

pub const CTRLMSG_KEEPALIVE: u8 = 0;

pub const CTRLMSG_CONNECT: u8 = 1;

pub const CTRLMSG_ACCEPT: u8 = 2;

pub const CTRLMSG_CLOSE: u8 = 4;

pub const CTRLMSG_TOKEN: u8 = 5;

pub const CONNLESS_VERSION: u8 = 1;

pub const CTRLMSG_CLOSE_REASON_LENGTH: usize = 127;

pub const TOKEN_REQUEST_PACKET_SIZE: usize = 519;

pub const CHUNK_FLAGS_BITS: u32 = 2;

pub const CHUNK_SIZE_BITS: u32 = 12;

pub const PACKET_FLAGS_BITS: u32 = 4;

pub const SEQUENCE_BITS: u32 = 10;

pub const SEQUENCE_MODULUS: u16 = 1024;

pub const VERSION_BITS: u32 = 2;

/// Size of the chunk header of a vital or non-vital chunk.
pub fn chunk_header_size(vital: bool) -> (r: usize)
    ensures
        r == (if vital {
            CHUNK_HEADER_SIZE_VITAL
        } else {
            CHUNK_HEADER_SIZE
        }),
{
    if vital {
        CHUNK_HEADER_SIZE_VITAL
    } else {
        CHUNK_HEADER_SIZE
    }
}

/// Non-fatal irregularities noticed while reading packets.
#[derive(Clone, Copy, Debug, PartialEq, Eq, Structural)]
pub enum Warning {
    ChunkHeaderPadding,
    ChunksNoChunks,
    ChunksNumChunks,
    ChunksUnknownData,
    ConnlessFlags,
    ControlExcessData,
    ControlFlags,
    ControlNulTermination,
    ControlNumChunks,
    PacketHeaderPadding,
}

/// Reading a packet failed.
#[derive(Clone, Copy, Debug, PartialEq, Eq, Structural)]
pub enum PacketReadError {
    Compression,
    ControlMissing,
    ControlResponseTokenMissing,
    ControlTokenRequestTooShort,
    TooLong,
    TooShort,
    UnknownConnlessVersion,
    UnknownControl,
}

/// A connection token.
#[derive(Clone, Copy, Debug, PartialEq, Eq)]
pub struct Token(pub [u8; 4]);

/// The token meaning "no token".
pub fn token_none() -> (r: Token)
    ensures
        r.0@ == seq![0xffu8, 0xffu8, 0xffu8, 0xffu8],
{
    let r = Token([0xff, 0xff, 0xff, 0xff]);
    assert(r.0@ =~= seq![0xffu8, 0xffu8, 0xffu8, 0xffu8]);
    r
}

#[derive(Clone, Copy, Debug)]
pub enum ControlPacket<'a> {
    KeepAlive,
    /// Connect(response_token)
    Connect(Token),
    Accept,
    /// Close(reason)
    Close(&'a [u8]),
    /// Token(response_token)
    Token(Token),
}

#[derive(Clone, Copy, Debug)]
pub struct ConnectedPacket<'a> {
    /// Only the low 10 bits are used.
    pub ack: u16,
    pub type_: ConnectedPacketType<'a>,
}

#[derive(Clone, Copy, Debug)]
pub enum ConnectedPacketType<'a> {
    /// Chunks(request_resend, num_chunks, payload)
    Chunks(bool, u8, &'a [u8]),
    Control(ControlPacket<'a>),
}

#[derive(Clone, Copy, Debug)]
pub enum Packet<'a> {
    Connless(&'a [u8]),
    Connected(ConnectedPacket<'a>),
}

#[derive(Clone, Copy, Debug)]
pub struct Chunk<'a> {
    pub data: &'a [u8],
    /// `Some((sequence, resend))` for vital chunks.
    pub vital: Option<(u16, bool)>,
}

// ---------------------------------------------------------------------------
// Headers.

/// A packet header as it is sent: `PPFF_FFAA AAAA_AAAA NNNN_NNNN` and four
/// token bytes (padding, flags, ack, number of chunks).
#[derive(Clone, Copy, Debug)]
pub struct PacketHeaderPacked {
    padding_flags_ack: u8,
    ack: u8,
    num_chunks: u8,
    token: [u8; 4],
}

#[derive(Clone, Copy, Debug, PartialEq, Eq)]
pub struct PacketHeader {
    /// Only the low 4 bits are used.
    pub flags: u8,
    /// Only the low 10 bits are used.
    pub ack: u16,
    pub num_chunks: u8,
    pub token: Token,
}

/// A connectionless packet header as it is sent: `PPFF_FFVV` (padding,
/// flags, version), the token and the response token.
#[derive(Clone, Copy, Debug)]
pub struct PacketHeaderConnlessPacked {
    padding_flags_version: u8,
    token: [u8; 4],
    response_token: [u8; 4],
}

#[derive(Clone, Copy, Debug, PartialEq, Eq)]
pub struct PacketHeaderConnless {
    /// Only the low 4 bits are used.
    pub flags: u8,
    /// Only the low 2 bits are used.
    pub version: u8,
    pub token: Token,
    pub response_token: Token,
}

#[derive(Clone, Copy, Debug, PartialEq, Eq, Structural)]
pub struct ChunkHeader {
    /// Only the low 2 bits are used.
    pub flags: u8,
    /// Only the low 12 bits are used.
    pub size: u16,
}

#[derive(Clone, Copy, Debug, PartialEq, Eq, Structural)]
pub struct ChunkHeaderVital {
    pub h: ChunkHeader,
    /// Only the low 10 bits are used.
    pub sequence: u16,
}

/// A chunk header as it is sent: `FFSS_SSSS PPSS_SSSS` (flags, size,
/// padding).
#[derive(Clone, Copy, Debug)]
pub struct ChunkHeaderPacked {
    flags_size: u8,
    padding_size: u8,
}

/// A vital chunk header as it is sent: `FFSS_SSSS QQSS_SSSS QQQQ_QQQQ`
/// (flags, size, sequence).
#[derive(Clone, Copy, Debug)]
pub struct ChunkHeaderVitalPacked {
    flags_size: u8,
    sequence_size: u8,
    sequence: u8,
}

/// Optional warning as a sequence.
pub open spec fn warn_if(c: bool, w: Warning) -> Seq<Warning> {
    if c {
        seq![w]
    } else {
        Seq::empty()
    }
}

/// The token in the four bytes of `b` from `i`.
pub open spec fn token_at(b: Seq<u8>, i: int) -> Token {
    Token([b[i], b[i + 1], b[i + 2], b[i + 3]])
}

/// The token is the "no token" value.
pub open spec fn is_token_none(t: Token) -> bool {
    t.0@ == seq![0xffu8, 0xffu8, 0xffu8, 0xffu8]
}

/// Flags of the packet header at the start of `b`.
pub open spec fn ph_flags(b: Seq<u8>) -> u8 {
    (b[0] & 0b0011_1100u8) >> 2u8
}

/// Ack of the packet header at the start of `b`.
pub open spec fn ph_ack(b: Seq<u8>) -> u16 {
    ((b[0] & 0b11u8) as u16) << 8u16 | (b[1] as u16)
}

/// The header byte `b0` has padding bits set.
pub open spec fn padding_set(b0: u8) -> bool {
    b0 & 0b1100_0000u8 != 0
}

/// The packet header at the start of `b`.
pub open spec fn ph_unpack(b: Seq<u8>) -> PacketHeader {
    PacketHeader { flags: ph_flags(b), ack: ph_ack(b), num_chunks: b[2], token: token_at(b, 3) }
}

/// The bytes of a packet header.
pub open spec fn ph_pack(h: PacketHeader) -> Seq<u8> {
    seq![h.flags << 2u8 | (h.ack >> 8u16) as u8, h.ack as u8, h.num_chunks] + h.token.0@
}

/// The connectionless packet header at the start of `b`.
pub open spec fn phc_unpack(b: Seq<u8>) -> PacketHeaderConnless {
    PacketHeaderConnless {
        flags: (b[0] & 0b0011_1100u8) >> 2u8,
        version: b[0] & 0b0000_0011u8,
        token: token_at(b, 1),
        response_token: token_at(b, 5),
    }
}

/// The bytes of a connectionless packet header.
pub open spec fn phc_pack(h: PacketHeaderConnless) -> Seq<u8> {
    seq![h.flags << 2u8 | h.version] + h.token.0@ + h.response_token.0@
}

/// Flags of the chunk header at the start of `d`.
pub open spec fn ch_flags(d: Seq<u8>) -> u8 {
    (d[0] & 0b1100_0000u8) >> 6u8
}

/// Size of the chunk header at the start of `d`.
pub open spec fn ch_size(d: Seq<u8>) -> u16 {
    ((d[0] & 0b0011_1111u8) as u16) << 6u16 | (d[1] & 0b0011_1111u8) as u16
}

/// Sequence number of the vital chunk header at the start of `d`.
pub open spec fn ch_sequence(d: Seq<u8>) -> u16 {
    ((d[1] & 0b1100_0000u8) as u16) << 2u16 | (d[2] as u16)
}

/// The chunk header at the start of `d` is that of a vital chunk.
pub open spec fn ch_vital(d: Seq<u8>) -> bool {
    ch_flags(d) & CHUNKFLAG_VITAL != 0
}

/// Length of the chunk header at the start of `d`.
pub open spec fn ch_header_len(d: Seq<u8>) -> int {
    if ch_vital(d) {
        3
    } else {
        2
    }
}

/// Warnings reading the chunk header at the start of `d` raises: the
/// padding check looks at the two padding bits of the second byte (of
/// which a vital header only keeps the lower six, the size bits).
pub open spec fn ch_warnings(d: Seq<u8>) -> Seq<Warning> {
    if ch_vital(d) {
        warn_if((d[1] & 0b0011_1111u8) & 0b1100_0000u8 != 0, Warning::ChunkHeaderPadding)
    } else {
        warn_if(d[1] & 0b1100_0000u8 != 0, Warning::ChunkHeaderPadding)
    }
}

/// The bytes of a chunk header.
pub open spec fn ch_pack(h: ChunkHeader) -> Seq<u8> {
    seq![(h.flags & 0b11u8) << 6u8 | ((h.size & 0b1111_1100_0000u16) >> 6u16) as u8, (h.size & 0b0000_0011_1111u16) as u8]
}

/// The bytes of a vital chunk header.
pub open spec fn chv_pack(h: ChunkHeaderVital) -> Seq<u8> {
    let p = ch_pack(h.h);
    seq![p[0], (p[1] & 0b0011_1111u8) | ((h.sequence & 0b11_0000_0000u16) >> 2u16) as u8, (h.sequence & 0b00_1111_1111u16) as u8]
}

fn token_from(b: &[u8], i: usize) -> (r: Token)
    requires
        i + 4 <= b@.len(),
    ensures
        r == token_at(b@, i as int),
{
    Token([b[i], b[i + 1], b[i + 2], b[i + 3]])
}

fn token_eq(a: Token, b: Token) -> (r: bool)
    ensures
        r == (a == b),
{
    let r = a.0[0] == b.0[0] && a.0[1] == b.0[1] && a.0[2] == b.0[2] && a.0[3] == b.0[3];
    proof {
        if r {
            assert(a.0 =~= b.0);
        }
    }
    r
}

impl PacketHeaderPacked {
    /// The seven bytes.
    pub closed spec fn bytes(&self) -> Seq<u8> {
        seq![self.padding_flags_ack, self.ack, self.num_chunks] + self.token@
    }

    pub fn from_bytes(b: &[u8]) -> (r: PacketHeaderPacked)
        requires
            b@.len() == HEADER_SIZE,
        ensures
            r.bytes() == b@,
    {
        let r = PacketHeaderPacked {
            padding_flags_ack: b[0],
            ack: b[1],
            num_chunks: b[2],
            token: [b[3], b[4], b[5], b[6]],
        };
        assert(r.bytes() =~= b@);
        r
    }

    pub fn as_bytes(&self) -> (r: [u8; 7])
        ensures
            r@ == self.bytes(),
    {
        let r = [
            self.padding_flags_ack,
            self.ack,
            self.num_chunks,
            self.token[0],
            self.token[1],
            self.token[2],
            self.token[3],
        ];
        assert(r@ =~= self.bytes());
        r
    }

    pub fn unpack_warn(self, warns: &mut Vec<Warning>) -> (r: PacketHeader)
        ensures
            r == ph_unpack(self.bytes()),
            final(warns)@ == old(warns)@ + warn_if(
                padding_set(self.bytes()[0]),
                Warning::PacketHeaderPadding,
            ),
    {
        let pfa = self.padding_flags_ack;
        if pfa & 0b1100_0000u8 != 0 {
            warns.push(Warning::PacketHeaderPadding);
        }
        proof {
            assert(final(warns)@ =~= old(warns)@ + warn_if(
                padding_set(self.bytes()[0]),
                Warning::PacketHeaderPadding,
            ));
        }
        let r = PacketHeader {
            flags: (pfa & 0b0011_1100u8) >> 2u8,
            ack: ((pfa & 0b11u8) as u16) << 8u16 | (self.ack as u16),
            num_chunks: self.num_chunks,
            token: Token(self.token),
        };
        assert(r.token.0 =~= token_at(self.bytes(), 3).0);
        r
    }

    pub fn unpack(self) -> (r: PacketHeader)
        ensures
            r == ph_unpack(self.bytes()),
    {
        let mut ignore: Vec<Warning> = Vec::new();
        self.unpack_warn(&mut ignore)
    }
}

impl PacketHeader {
    pub fn pack(self) -> (r: PacketHeaderPacked)
        requires
            self.flags < 16,
            self.ack < 1024,
        ensures
            r.bytes() == ph_pack(self),
    {
        let r = PacketHeaderPacked {
            padding_flags_ack: self.flags << 2u8 | (self.ack >> 8u16) as u8,
            ack: self.ack as u8,
            num_chunks: self.num_chunks,
            token: self.token.0,
        };
        assert(r.bytes() =~= ph_pack(self));
        r
    }
}

impl PacketHeaderConnlessPacked {
    /// The nine bytes.
    pub closed spec fn bytes(&self) -> Seq<u8> {
        seq![self.padding_flags_version] + self.token@ + self.response_token@
    }

    pub fn from_bytes(b: &[u8]) -> (r: PacketHeaderConnlessPacked)
        requires
            b@.len() == HEADER_SIZE_CONNLESS,
        ensures
            r.bytes() == b@,
    {
        let r = PacketHeaderConnlessPacked {
            padding_flags_version: b[0],
            token: [b[1], b[2], b[3], b[4]],
            response_token: [b[5], b[6], b[7], b[8]],
        };
        assert(r.bytes() =~= b@);
        r
    }

    pub fn as_bytes(&self) -> (r: [u8; 9])
        ensures
            r@ == self.bytes(),
    {
        let r = [
            self.padding_flags_version,
            self.token[0],
            self.token[1],
            self.token[2],
            self.token[3],
            self.response_token[0],
            self.response_token[1],
            self.response_token[2],
            self.response_token[3],
        ];
        assert(r@ =~= self.bytes());
        r
    }

    pub fn unpack_warn(self, warns: &mut Vec<Warning>) -> (r: PacketHeaderConnless)
        ensures
            r == phc_unpack(self.bytes()),
            final(warns)@ == old(warns)@ + warn_if(
                padding_set(self.bytes()[0]),
                Warning::PacketHeaderPadding,
            ),
    {
        let pfv = self.padding_flags_version;
        if pfv & 0b1100_0000u8 != 0 {
            warns.push(Warning::PacketHeaderPadding);
        }
        proof {
            assert(final(warns)@ =~= old(warns)@ + warn_if(
                padding_set(self.bytes()[0]),
                Warning::PacketHeaderPadding,
            ));
        }
        let r = PacketHeaderConnless {
            flags: (pfv & 0b0011_1100u8) >> 2u8,
            version: pfv & 0b0000_0011u8,
            token: Token(self.token),
            response_token: Token(self.response_token),
        };
        assert(r.token.0 =~= token_at(self.bytes(), 1).0);
        assert(r.response_token.0 =~= token_at(self.bytes(), 5).0);
        r
    }

    pub fn unpack(self) -> (r: PacketHeaderConnless)
        ensures
            r == phc_unpack(self.bytes()),
    {
        let mut ignore: Vec<Warning> = Vec::new();
        self.unpack_warn(&mut ignore)
    }
}

impl PacketHeaderConnless {
    pub fn pack(self) -> (r: PacketHeaderConnlessPacked)
        requires
            self.flags < 16,
            self.version < 4,
        ensures
            r.bytes() == phc_pack(self),
    {
        let r = PacketHeaderConnlessPacked {
            padding_flags_version: self.flags << 2u8 | self.version,
            token: self.token.0,
            response_token: self.response_token.0,
        };
        assert(r.bytes() =~= phc_pack(self));
        r
    }
}

impl ChunkHeaderPacked {
    /// The two bytes.
    pub closed spec fn bytes(&self) -> Seq<u8> {
        seq![self.flags_size, self.padding_size]
    }

    pub fn from_bytes(b: &[u8]) -> (r: ChunkHeaderPacked)
        requires
            b@.len() == CHUNK_HEADER_SIZE,
        ensures
            r.bytes() == b@,
    {
        let r = ChunkHeaderPacked { flags_size: b[0], padding_size: b[1] };
        assert(r.bytes() =~= b@);
        r
    }

    pub fn as_bytes(&self) -> (r: [u8; 2])
        ensures
            r@ == self.bytes(),
    {
        let r = [self.flags_size, self.padding_size];
        assert(r@ =~= self.bytes());
        r
    }

    pub fn unpack_warn(self, warns: &mut Vec<Warning>) -> (r: ChunkHeader)
        ensures
            r.flags == ch_flags(self.bytes()),
            r.size == ch_size(self.bytes()),
            final(warns)@ == old(warns)@ + warn_if(
                self.bytes()[1] & 0b1100_0000u8 != 0,
                Warning::ChunkHeaderPadding,
            ),
    {
        if self.padding_size & 0b1100_0000u8 != 0 {
            warns.push(Warning::ChunkHeaderPadding);
        }
        proof {
            assert(final(warns)@ =~= old(warns)@ + warn_if(
                self.bytes()[1] & 0b1100_0000u8 != 0,
                Warning::ChunkHeaderPadding,
            ));
        }
        ChunkHeader {
            flags: (self.flags_size & 0b1100_0000u8) >> 6u8,
            size: ((self.flags_size & 0b0011_1111u8) as u16) << 6u16 | (self.padding_size
                & 0b0011_1111u8) as u16,
        }
    }

    pub fn unpack(self) -> (r: ChunkHeader)
        ensures
            r.flags == ch_flags(self.bytes()),
            r.size == ch_size(self.bytes()),
    {
        let mut ignore: Vec<Warning> = Vec::new();
        self.unpack_warn(&mut ignore)
    }
}

impl ChunkHeader {
    pub fn pack(self) -> (r: ChunkHeaderPacked)
        requires
            self.flags < 4,
            self.size < 4096,
        ensures
            r.bytes() == ch_pack(self),
    {
        let r = ChunkHeaderPacked {
            flags_size: (self.flags & 0b11u8) << 6u8 | ((self.size & 0b1111_1100_0000u16) >> 6u16) as u8,
            padding_size: (self.size & 0b0000_0011_1111u16) as u8,
        };
        assert(r.bytes() =~= ch_pack(self));
        r
    }
}

impl ChunkHeaderVitalPacked {
    /// The three bytes.
    pub closed spec fn bytes(&self) -> Seq<u8> {
        seq![self.flags_size, self.sequence_size, self.sequence]
    }

    pub fn from_bytes(b: &[u8]) -> (r: ChunkHeaderVitalPacked)
        requires
            b@.len() == CHUNK_HEADER_SIZE_VITAL,
        ensures
            r.bytes() == b@,
    {
        let r = ChunkHeaderVitalPacked { flags_size: b[0], sequence_size: b[1], sequence: b[2] };
        assert(r.bytes() =~= b@);
        r
    }

    pub fn as_bytes(&self) -> (r: [u8; 3])
        ensures
            r@ == self.bytes(),
    {
        let r = [self.flags_size, self.sequence_size, self.sequence];
        assert(r@ =~= self.bytes());
        r
    }

    pub fn unpack_warn(self, warns: &mut Vec<Warning>) -> (r: ChunkHeaderVital)
        ensures
            r.h.flags == ch_flags(self.bytes()),
            r.h.size == ch_size(self.bytes()),
            r.sequence == ch_sequence(self.bytes()),
            final(warns)@ == old(warns)@ + warn_if(
                (self.bytes()[1] & 0b0011_1111u8) & 0b1100_0000u8 != 0,
                Warning::ChunkHeaderPadding,
            ),
    {
        let ss = self.sequence_size;
        let inner = ChunkHeaderPacked { flags_size: self.flags_size, padding_size: ss & 0b0011_1111u8 };
        assert((ss & 0b0011_1111u8) & 0b0011_1111u8 == ss & 0b0011_1111u8) by (bit_vector);
        let h = inner.unpack_warn(warns);
        ChunkHeaderVital {
            h,
            sequence: ((ss & 0b1100_0000u8) as u16) << 2u16 | (self.sequence as u16),
        }
    }

    pub fn unpack(self) -> (r: ChunkHeaderVital)
        ensures
            r.h.flags == ch_flags(self.bytes()),
            r.h.size == ch_size(self.bytes()),
            r.sequence == ch_sequence(self.bytes()),
    {
        let mut ignore: Vec<Warning> = Vec::new();
        self.unpack_warn(&mut ignore)
    }
}

impl ChunkHeaderVital {
    pub fn pack(self) -> (r: ChunkHeaderVitalPacked)
        requires
            self.h.flags < 4,
            self.h.size < 4096,
            self.sequence < 1024,
        ensures
            r.bytes() == chv_pack(self),
    {
        let p = self.h.pack();
        let pb = p.as_bytes();
        let r = ChunkHeaderVitalPacked {
            flags_size: pb[0],
            sequence_size: (pb[1] & 0b0011_1111u8) | ((self.sequence & 0b11_0000_0000u16) >> 2u16) as u8,
            sequence: (self.sequence & 0b00_1111_1111u16) as u8,
        };
        assert(r.bytes() =~= chv_pack(self));
        r
    }
}

// ---------------------------------------------------------------------------
// Laws of the header formats.

/// Packing a packet header and unpacking it gives it back.
pub proof fn lemma_packet_header_roundtrip(h: PacketHeader)
    requires
        h.flags < 16,
        h.ack < 1024,
    ensures
        ph_unpack(ph_pack(h)) == h,
        !padding_set(ph_pack(h)[0]),
{
    let f = h.flags;
    let a = h.ack;
    let b0 = f << 2u8 | (a >> 8u16) as u8;
    let b1 = a as u8;
    assert((b0 & 0b0011_1100u8) >> 2u8 == f && ((b0 & 0b11u8) as u16) << 8u16 | (b1 as u16) == a
        && b0 & 0b1100_0000u8 == 0) by (bit_vector)
        requires
            f < 16,
            a < 1024,
            b0 == f << 2u8 | (a >> 8u16) as u8,
            b1 == a as u8,
    ;
    let p = ph_pack(h);
    assert(p[0] == b0 && p[1] == b1 && p[2] == h.num_chunks);
    assert(token_at(p, 3).0 =~= h.token.0);
}

/// Packing a connectionless packet header and unpacking it gives it back,
/// and no padding bit is set.
pub proof fn lemma_packet_header_connless_roundtrip(h: PacketHeaderConnless)
    requires
        h.flags < 16,
        h.version < 4,
    ensures
        phc_unpack(phc_pack(h)) == h,
        !padding_set(phc_pack(h)[0]),
{
    let f = h.flags;
    let v = h.version;
    let b0 = f << 2u8 | v;
    assert((b0 & 0b0011_1100u8) >> 2u8 == f && b0 & 0b0000_0011u8 == v && b0 & 0b1100_0000u8 == 0)
        by (bit_vector)
        requires
            f < 16,
            v < 4,
            b0 == f << 2u8 | v,
    ;
    let p = phc_pack(h);
    assert(p[0] == b0);
    assert(token_at(p, 1).0 =~= h.token.0);
    assert(token_at(p, 5).0 =~= h.response_token.0);
}

/// Unpacking packet header bytes whose two padding bits are zero and packing
/// the result gives the same bytes.
pub proof fn lemma_packet_header_unpack(b: Seq<u8>)
    requires
        b.len() == HEADER_SIZE,
        b[0] & 0b1100_0000u8 == 0,
    ensures
        ph_pack(ph_unpack(b)) == b,
{
    let b0 = b[0];
    let b1 = b[1];
    let f = (b0 & 0b0011_1100u8) >> 2u8;
    let a = ((b0 & 0b11u8) as u16) << 8u16 | (b1 as u16);
    assert(f << 2u8 | (a >> 8u16) as u8 == b0) by (bit_vector)
        requires
            b0 & 0b1100_0000u8 == 0,
            f == (b0 & 0b0011_1100u8) >> 2u8,
            a == ((b0 & 0b11u8) as u16) << 8u16 | (b1 as u16),
    ;
    assert(a as u8 == b1) by (bit_vector)
        requires
            a == ((b0 & 0b11u8) as u16) << 8u16 | (b1 as u16),
    ;
    assert(ph_pack(ph_unpack(b)) =~= b);
}

/// Packing chunk headers and unpacking them gives them back.
pub proof fn lemma_chunk_header_roundtrip(h: ChunkHeaderVital)
    requires
        h.h.flags < 4,
        h.h.size < 4096,
        h.sequence < 1024,
    ensures
        ch_flags(ch_pack(h.h)) == h.h.flags,
        ch_size(ch_pack(h.h)) == h.h.size,
        ch_flags(chv_pack(h)) == h.h.flags,
        ch_size(chv_pack(h)) == h.h.size,
        ch_sequence(chv_pack(h)) == h.sequence,
{
    let f = h.h.flags;
    let s = h.h.size;
    let q = h.sequence;
    let c0 = (f & 0b11u8) << 6u8 | ((s & 0b1111_1100_0000u16) >> 6u16) as u8;
    let c1 = (s & 0b0000_0011_1111u16) as u8;
    let v1 = (c1 & 0b0011_1111u8) | ((q & 0b11_0000_0000u16) >> 2u16) as u8;
    let v2 = (q & 0b00_1111_1111u16) as u8;
    assert((c0 & 0b1100_0000u8) >> 6u8 == f) by (bit_vector)
        requires
            f < 4,
            s < 4096,
            c0 == (f & 0b11u8) << 6u8 | ((s & 0b1111_1100_0000u16) >> 6u16) as u8,
    ;
    assert(((c0 & 0b0011_1111u8) as u16) << 6u16 | (c1 & 0b0011_1111u8) as u16 == s) by (bit_vector)
        requires
            s < 4096,
            c0 == (f & 0b11u8) << 6u8 | ((s & 0b1111_1100_0000u16) >> 6u16) as u8,
            c1 == (s & 0b0000_0011_1111u16) as u8,
    ;
    assert(((c0 & 0b0011_1111u8) as u16) << 6u16 | (v1 & 0b0011_1111u8) as u16 == s) by (bit_vector)
        requires
            s < 4096,
            q < 1024,
            c0 == (f & 0b11u8) << 6u8 | ((s & 0b1111_1100_0000u16) >> 6u16) as u8,
            c1 == (s & 0b0000_0011_1111u16) as u8,
            v1 == (c1 & 0b0011_1111u8) | ((q & 0b11_0000_0000u16) >> 2u16) as u8,
    ;
    assert(((v1 & 0b1100_0000u8) as u16) << 2u16 | (v2 as u16) == q) by (bit_vector)
        requires
            q < 1024,
            c1 == (s & 0b0000_0011_1111u16) as u8,
            v1 == (c1 & 0b0011_1111u8) | ((q & 0b11_0000_0000u16) >> 2u16) as u8,
            v2 == (q & 0b00_1111_1111u16) as u8,
    ;
    assert(ch_pack(h.h)[0] == c0 && ch_pack(h.h)[1] == c1);
    assert(chv_pack(h)[0] == c0 && chv_pack(h)[1] == v1 && chv_pack(h)[2] == v2);
}

/// Unpacking chunk header bytes and packing the result gives the bytes with
/// the padding of a non-vital header cleared; vital headers come back
/// unchanged.
pub proof fn lemma_chunk_header_unpack(b0: u8, b1: u8, b2: u8)
    ensures
        ch_size(seq![b0, b1]) < 4096,
        ch_pack(ChunkHeader { flags: ch_flags(seq![b0, b1]), size: ch_size(seq![b0, b1]) })
            == seq![b0, b1 & 0b0011_1111u8],
        ch_sequence(seq![b0, b1, b2]) < 1024,
        chv_pack(
            ChunkHeaderVital {
                h: ChunkHeader { flags: ch_flags(seq![b0, b1, b2]), size: ch_size(seq![b0, b1, b2]) },
                sequence: ch_sequence(seq![b0, b1, b2]),
            },
        ) == seq![b0, b1, b2],
{
    let f = (b0 & 0b1100_0000u8) >> 6u8;
    let s = ((b0 & 0b0011_1111u8) as u16) << 6u16 | (b1 & 0b0011_1111u8) as u16;
    let q = ((b1 & 0b1100_0000u8) as u16) << 2u16 | (b2 as u16);
    assert(ch_flags(seq![b0, b1]) == f && ch_size(seq![b0, b1]) == s);
    assert(ch_flags(seq![b0, b1, b2]) == f && ch_size(seq![b0, b1, b2]) == s);
    assert(ch_sequence(seq![b0, b1, b2]) == q);
    let c0 = (f & 0b11u8) << 6u8 | ((s & 0b1111_1100_0000u16) >> 6u16) as u8;
    let c1 = (s & 0b0000_0011_1111u16) as u8;
    assert(s < 4096 && q < 1024) by (bit_vector)
        requires
            s == ((b0 & 0b0011_1111u8) as u16) << 6u16 | (b1 & 0b0011_1111u8) as u16,
            q == ((b1 & 0b1100_0000u8) as u16) << 2u16 | (b2 as u16),
    ;
    assert(c0 == b0 && c1 == b1 & 0b0011_1111u8) by (bit_vector)
        requires
            f == (b0 & 0b1100_0000u8) >> 6u8,
            s == ((b0 & 0b0011_1111u8) as u16) << 6u16 | (b1 & 0b0011_1111u8) as u16,
            c0 == (f & 0b11u8) << 6u8 | ((s & 0b1111_1100_0000u16) >> 6u16) as u8,
            c1 == (s & 0b0000_0011_1111u16) as u8,
    ;
    assert((c1 & 0b0011_1111u8) | ((q & 0b11_0000_0000u16) >> 2u16) as u8 == b1) by (bit_vector)
        requires
            c1 == b1 & 0b0011_1111u8,
            q == ((b1 & 0b1100_0000u8) as u16) << 2u16 | (b2 as u16),
    ;
    assert((q & 0b00_1111_1111u16) as u8 == b2) by (bit_vector)
        requires
            q == ((b1 & 0b1100_0000u8) as u16) << 2u16 | (b2 as u16),
    ;
    assert(ch_pack(ChunkHeader { flags: f, size: s }) =~= seq![b0, b1 & 0b0011_1111u8]);
    assert(chv_pack(ChunkHeaderVital { h: ChunkHeader { flags: f, size: s }, sequence: q }) =~= seq![
        b0,
        b1,
        b2,
    ]);
}

// ---------------------------------------------------------------------------
// Chunks.

/// Reads the chunk header at the start of `data`; returns the header, the
/// sequence number of a vital chunk and the rest of `data`.
pub fn read_chunk_header<'a>(warns: &mut Vec<Warning>, data: &'a [u8]) -> (r: Option<
    (ChunkHeader, Option<u16>, &'a [u8]),
>)
    ensures
        (r is Some) <==> data@.len() >= 2 && data@.len() >= ch_header_len(data@),
        r matches Some((h, seq, rest)) ==> {
            &&& h.flags == ch_flags(data@)
            &&& h.size == ch_size(data@)
            &&& seq == (if ch_vital(data@) {
                Some(ch_sequence(data@))
            } else {
                None
            })
            &&& rest@ == data@.subrange(ch_header_len(data@), data@.len() as int)
            &&& final(warns)@ == old(warns)@ + ch_warnings(data@)
        },
        r is None ==> final(warns)@ == old(warns)@,
{
    if data.len() < CHUNK_HEADER_SIZE {
        return None;
    }
    let raw = ChunkHeaderPacked::from_bytes(slice_head(data, CHUNK_HEADER_SIZE));
    let header = raw.unpack();
    if header.flags & CHUNKFLAG_VITAL != 0 {
        if data.len() < CHUNK_HEADER_SIZE_VITAL {
            return None;
        }
        let vh = ChunkHeaderVitalPacked::from_bytes(slice_head(data, CHUNK_HEADER_SIZE_VITAL));
        let v = vh.unpack_warn(warns);
        Some((v.h, Some(v.sequence), slice_tail(data, CHUNK_HEADER_SIZE_VITAL)))
    } else {
        raw.unpack_warn(warns);
        Some((header, None, slice_tail(data, CHUNK_HEADER_SIZE)))
    }
}

/// Iterates over the chunks of a packet payload.
#[derive(Debug)]
pub struct ChunksIter<'a> {
    data: &'a [u8],
    initial_len: usize,
    num_remaining_chunks: i32,
    checked_num_chunks_warning: bool,
}

impl<'a> ChunksIter<'a> {
    #[verifier::type_invariant]
    spec fn inv(self) -> bool {
        &&& self.initial_len <= i32::MAX
        &&& self.data@.len() <= self.initial_len
        &&& 2 * self.num_remaining_chunks + (self.initial_len - self.data@.len()) >= 0
        &&& self.num_remaining_chunks <= 255
    }

    /// The bytes not yet read.
    pub closed spec fn spec_data(&self) -> Seq<u8> {
        self.data@
    }

    /// Length of the whole payload.
    pub closed spec fn spec_initial_len(&self) -> int {
        self.initial_len as int
    }

    /// Number of chunks the header announced, minus the chunks read.
    pub closed spec fn spec_remaining(&self) -> int {
        self.num_remaining_chunks as int
    }

    /// Whether the end of the data was already reached.
    pub closed spec fn spec_checked(&self) -> bool {
        self.checked_num_chunks_warning
    }

    /// A copy of the iterator in its current state.
    pub fn clone(&self) -> (r: ChunksIter<'a>)
        ensures
            r.spec_data() == self.spec_data(),
            r.spec_initial_len() == self.spec_initial_len(),
            r.spec_remaining() == self.spec_remaining(),
            r.spec_checked() == self.spec_checked(),
    {
        proof {
            use_type_invariant(self);
        }
        ChunksIter {
            data: self.data,
            initial_len: self.initial_len,
            num_remaining_chunks: self.num_remaining_chunks,
            checked_num_chunks_warning: self.checked_num_chunks_warning,
        }
    }

    pub fn new(data: &'a [u8], num_chunks: u8) -> (r: ChunksIter<'a>)
        requires
            data@.len() <= i32::MAX,
        ensures
            r.spec_data() == data@,
            r.spec_initial_len() == data@.len(),
            r.spec_remaining() == num_chunks,
            !r.spec_checked(),
    {
        ChunksIter {
            data,
            initial_len: data.len(),
            num_remaining_chunks: num_chunks as i32,
            checked_num_chunks_warning: false,
        }
    }

    fn excess_data(&mut self, warns: &mut Vec<Warning>) -> (r: Option<Chunk<'static>>)
        ensures
            r is None,
            final(self).spec_data() == Seq::<u8>::empty(),
            final(self).spec_initial_len() == old(self).spec_initial_len(),
            final(self).spec_remaining() == old(self).spec_remaining(),
            final(self).spec_checked() == old(self).spec_checked(),
            final(warns)@ == old(warns)@.push(Warning::ChunksUnknownData),
    {
        proof {
            use_type_invariant(&*self);
        }
        warns.push(Warning::ChunksUnknownData);
        self.data = slice_tail(self.data, self.data.len());
        None
    }

    /// Number of bytes read so far.
    pub fn pos(&self) -> (r: usize)
        ensures
            r == self.spec_initial_len() - self.spec_data().len(),
    {
        proof {
            use_type_invariant(self);
        }
        self.initial_len - self.data.len()
    }

    /// The next chunk, warning about irregularities.
    pub fn next_warn(&mut self, warns: &mut Vec<Warning>) -> (r: Option<Chunk<'a>>)
        ensures
            final(self).spec_initial_len() == old(self).spec_initial_len(),
            ({
                let d = old(self).spec_data();
                let n = old(self).spec_remaining();
                let header_ok = d.len() >= 2 && d.len() >= ch_header_len(d);
                let size = ch_size(d) as int;
                let hl = ch_header_len(d);
                if d.len() == 0 {
                    &&& r is None
                    &&& final(self).spec_data() == d
                    &&& final(self).spec_remaining() == n
                    &&& final(self).spec_checked()
                    &&& final(warns)@ == old(warns)@ + warn_if(
                        !old(self).spec_checked() && n != 0,
                        Warning::ChunksNumChunks,
                    )
                } else if header_ok && d.len() - hl >= size {
                    &&& r matches Some(c) && c.data@ == d.subrange(hl, hl + size) && c.vital == (
                    if ch_vital(d) {
                        Some((ch_sequence(d), ch_flags(d) & CHUNKFLAG_RESEND != 0))
                    } else {
                        None
                    })
                    &&& final(self).spec_data() == d.subrange(hl + size, d.len() as int)
                    &&& final(self).spec_remaining() == n - 1
                    &&& final(self).spec_checked() == old(self).spec_checked()
                    &&& final(warns)@ == old(warns)@ + ch_warnings(d)
                } else {
                    &&& r is None
                    &&& final(self).spec_data() == Seq::<u8>::empty()
                    &&& final(self).spec_remaining() == n
                    &&& final(self).spec_checked() == old(self).spec_checked()
                    &&& final(warns)@ == old(warns)@ + (if header_ok {
                        ch_warnings(d)
                    } else {
                        Seq::empty()
                    }) + seq![Warning::ChunksUnknownData]
                }
            }),
    {
        proof {
            use_type_invariant(&*self);
        }
        if self.data.len() == 0 {
            if !self.checked_num_chunks_warning {
                self.checked_num_chunks_warning = true;
                if self.num_remaining_chunks != 0 {
                    warns.push(Warning::ChunksNumChunks);
                }
            }
            proof {
                assert(final(warns)@ =~= old(warns)@ + warn_if(
                    !old(self).spec_checked() && old(self).spec_remaining() != 0,
                    Warning::ChunksNumChunks,
                ));
            }
            return None;
        }
        let (header, sequence, chunk_data_and_rest) = match read_chunk_header(warns, self.data) {
            Some(x) => x,
            None => {
                let r = self.excess_data(warns);
                proof {
                    assert(final(warns)@ =~= old(warns)@ + Seq::<Warning>::empty() + seq![
                        Warning::ChunksUnknownData,
                    ]);
                }
                return r;
            },
        };
        let vital = match sequence {
            Some(s) => Some((s, header.flags & CHUNKFLAG_RESEND != 0)),
            None => None,
        };
        let size = header.size as usize;
        if chunk_data_and_rest.len() < size {
            let r = self.excess_data(warns);
            proof {
                assert(final(warns)@ =~= old(warns)@ + ch_warnings(old(self).spec_data()) + seq![
                    Warning::ChunksUnknownData,
                ]);
            }
            return r;
        }
        let chunk_data = slice_head(chunk_data_and_rest, size);
        let rest = slice_tail(chunk_data_and_rest, size);
        proof {
            let d = old(self).spec_data();
            let hl = ch_header_len(d);
            assert(chunk_data@ =~= d.subrange(hl, hl + size));
            assert(rest@ =~= d.subrange(hl + size, d.len() as int));
        }
        self.data = rest;
        self.num_remaining_chunks = self.num_remaining_chunks - 1;
        Some(Chunk { data: chunk_data, vital })
    }

    /// The next chunk, ignoring irregularities.
    pub fn next(&mut self) -> (r: Option<Chunk<'a>>)
        ensures
            final(self).spec_initial_len() == old(self).spec_initial_len(),
    {
        let mut ignore: Vec<Warning> = Vec::new();
        self.next_warn(&mut ignore)
    }
}

// ---------------------------------------------------------------------------
// Packets.

pub open spec fn is_connless(b: Seq<u8>) -> bool {
    ph_flags(b) & PACKETFLAG_CONNLESS != 0
}

pub open spec fn is_compressed(b: Seq<u8>) -> bool {
    ph_flags(b) & PACKETFLAG_COMPRESSION != 0
}

pub open spec fn is_control(b: Seq<u8>) -> bool {
    ph_flags(b) & PACKETFLAG_CONTROL != 0
}

pub open spec fn requests_resend(b: Seq<u8>) -> bool {
    ph_flags(b) & PACKETFLAG_REQUEST_RESEND != 0
}

/// The payload of the connected packet `b` (decompressed if needed), or
/// `None` if decompression fails or the payload is too long.
pub open spec fn packet_payload(b: Seq<u8>, nodes: Seq<crate::huffman::Node>) -> Option<Seq<u8>> {
    let p = if is_compressed(b) {
        decompressed(nodes, b.subrange(7, b.len() as int), (MAX_PACKETSIZE - HEADER_SIZE) as nat)
    } else {
        Some(b.subrange(7, b.len() as int))
    };
    match p {
        Some(p) => if p.len() > MAX_PAYLOAD {
            None
        } else {
            Some(p)
        },
        None => None,
    }
}

/// Warnings about the header of a control packet with flags `f` and `n`
/// announced chunks.
pub open spec fn control_header_warnings(f: u8, n: u8) -> Seq<Warning> {
    warn_if(n != 0, Warning::ControlNumChunks) + warn_if(
        f & PACKETFLAG_COMPRESSION != 0 || f & PACKETFLAG_REQUEST_RESEND != 0,
        Warning::ControlFlags,
    )
}

/// Warnings reading the control packet `b` (header token `token`) with
/// payload `p` raises after the header warnings.
pub open spec fn control_body_warnings(b: Seq<u8>, token: Token, p: Seq<u8>) -> Seq<Warning> {
    if p.len() == 0 {
        Seq::empty()
    } else {
        let rest = p.subrange(1, p.len() as int);
        if p[0] == CTRLMSG_KEEPALIVE || p[0] == CTRLMSG_ACCEPT {
            warn_if(rest.len() != 0, Warning::ControlExcessData)
        } else if p[0] == CTRLMSG_CONNECT {
            warn_if(rest.len() > 4, Warning::ControlExcessData)
        } else if p[0] == CTRLMSG_CLOSE {
            let nul = close_reason_len(rest);
            if rest.len() != 0 && nul + 1 != rest.len() {
                if nul + 1 < rest.len() {
                    seq![Warning::ControlExcessData]
                } else {
                    seq![Warning::ControlNulTermination]
                }
            } else {
                Seq::empty()
            }
        } else if p[0] == CTRLMSG_TOKEN {
            if is_token_none(token) && b.len() < TOKEN_REQUEST_PACKET_SIZE {
                Seq::empty()
            } else {
                warn_if(!is_token_none(token) && rest.len() > 4, Warning::ControlExcessData)
            }
        } else {
            Seq::empty()
        }
    }
}

/// Error reading the control packet `b` (header token `token`) with payload
/// `p`.
pub open spec fn control_error(b: Seq<u8>, token: Token, p: Seq<u8>) -> Option<PacketReadError> {
    if p.len() == 0 {
        Some(PacketReadError::ControlMissing)
    } else {
        let rest = p.subrange(1, p.len() as int);
        if p[0] == CTRLMSG_CONNECT {
            if rest.len() < 4 {
                Some(PacketReadError::ControlResponseTokenMissing)
            } else {
                None
            }
        } else if p[0] == CTRLMSG_TOKEN {
            if is_token_none(token) && b.len() < TOKEN_REQUEST_PACKET_SIZE {
                Some(PacketReadError::ControlTokenRequestTooShort)
            } else if rest.len() < 4 {
                Some(PacketReadError::ControlResponseTokenMissing)
            } else {
                None
            }
        } else if p[0] == CTRLMSG_KEEPALIVE || p[0] == CTRLMSG_ACCEPT || p[0] == CTRLMSG_CLOSE {
            None
        } else {
            Some(PacketReadError::UnknownControl)
        }
    }
}

/// `c` is the control packet with payload `p`.
pub open spec fn control_matches(p: Seq<u8>, c: ControlPacket) -> bool {
    &&& p.len() > 0
    &&& match c {
        ControlPacket::KeepAlive => p[0] == CTRLMSG_KEEPALIVE,
        ControlPacket::Connect(t) => p[0] == CTRLMSG_CONNECT && t == token_at(p, 1),
        ControlPacket::Accept => p[0] == CTRLMSG_ACCEPT,
        ControlPacket::Close(reason) => p[0] == CTRLMSG_CLOSE && reason@ == p.subrange(
            1,
            1 + close_reason_len(p.subrange(1, p.len() as int)),
        ),
        ControlPacket::Token(t) => p[0] == CTRLMSG_TOKEN && t == token_at(p, 1),
    }
}

/// Error reading the connectionless packet `b`, if any.
pub open spec fn connless_error(b: Seq<u8>) -> Option<PacketReadError> {
    if b.len() < HEADER_SIZE_CONNLESS {
        Some(PacketReadError::TooShort)
    } else if phc_unpack(b).version != CONNLESS_VERSION {
        Some(PacketReadError::UnknownConnlessVersion)
    } else {
        None
    }
}

/// Warnings reading the connectionless header of the packet `b` raises.
pub open spec fn connless_warnings(b: Seq<u8>) -> Seq<Warning> {
    if b.len() < HEADER_SIZE_CONNLESS {
        Seq::empty()
    } else {
        let h = phc_unpack(b);
        warn_if(padding_set(b[0]), Warning::PacketHeaderPadding) + if h.version != CONNLESS_VERSION {
            Seq::empty()
        } else {
            warn_if(
                h.flags & PACKETFLAG_COMPRESSION != 0 || h.flags & PACKETFLAG_REQUEST_RESEND != 0
                    || h.flags & PACKETFLAG_CONTROL != 0,
                Warning::ConnlessFlags,
            )
        }
    }
}

/// Error reading the packet `b`, if any.
pub open spec fn read_error(b: Seq<u8>, nodes: Seq<crate::huffman::Node>) -> Option<PacketReadError> {
    if b.len() > MAX_PACKETSIZE {
        Some(PacketReadError::TooLong)
    } else if b.len() < HEADER_SIZE {
        Some(PacketReadError::TooShort)
    } else if is_connless(b) {
        connless_error(b)
    } else {
        match packet_payload(b, nodes) {
            None => Some(PacketReadError::Compression),
            Some(p) => if is_control(b) {
                control_error(b, token_at(b, 3), p)
            } else {
                None
            },
        }
    }
}

/// Warnings reading the packet `b` raises.
pub open spec fn read_warnings(b: Seq<u8>, nodes: Seq<crate::huffman::Node>) -> Seq<Warning> {
    if b.len() > MAX_PACKETSIZE || b.len() < HEADER_SIZE {
        Seq::empty()
    } else {
        warn_if(padding_set(b[0]), Warning::PacketHeaderPadding) + if is_connless(b) {
            connless_warnings(b)
        } else {
            match packet_payload(b, nodes) {
                None => Seq::empty(),
                Some(p) => if is_control(b) {
                    control_header_warnings(ph_flags(b), b[2]) + control_body_warnings(
                        b,
                        token_at(b, 3),
                        p,
                    )
                } else {
                    warn_if(b[2] == 0 && !requests_resend(b), Warning::ChunksNoChunks)
                },
            }
        }
    }
}

/// `pk` is what reading the packet `b` gives.
pub open spec fn read_matches(b: Seq<u8>, nodes: Seq<crate::huffman::Node>, pk: Packet) -> bool {
    match pk {
        Packet::Connless(d) => is_connless(b) && d@ == b.subrange(
            HEADER_SIZE_CONNLESS as int,
            b.len() as int,
        ),
        Packet::Connected(c) => {
            &&& !is_connless(b)
            &&& c.ack == ph_ack(b)
            &&& packet_payload(b, nodes) is Some
            &&& match c.type_ {
                ConnectedPacketType::Chunks(rr, n, d) => !is_control(b) && rr == requests_resend(b)
                    && n == b[2] && d@ == packet_payload(b, nodes)->0,
                ConnectedPacketType::Control(ctrl) => is_control(b) && control_matches(
                    packet_payload(b, nodes)->0,
                    ctrl,
                ),
            }
        },
    }
}

fn push_header_warnings(warns: &mut Vec<Warning>, flags: u8, num_chunks: u8)
    ensures
        final(warns)@ == old(warns)@ + control_header_warnings(flags, num_chunks),
{
    if num_chunks != 0 {
        warns.push(Warning::ControlNumChunks);
    }
    if flags & PACKETFLAG_COMPRESSION != 0 || flags & PACKETFLAG_REQUEST_RESEND != 0 {
        warns.push(Warning::ControlFlags);
    }
    proof {
        assert(warns@ =~= old(warns)@ + control_header_warnings(flags, num_chunks));
    }
}

/// Reads the response token at the start of `rest`; warns about more data
/// after it if `warn_more`.
fn read_token(warns: &mut Vec<Warning>, rest: &[u8], warn_more: bool) -> (r: Result<Token, PacketReadError>)
    ensures
        (r is Ok) <==> rest@.len() >= 4,
        r matches Ok(t) ==> t == token_at(rest@, 0),
        r matches Err(e) ==> e == PacketReadError::ControlResponseTokenMissing,
        final(warns)@ == old(warns)@ + warn_if(rest@.len() >= 4 && warn_more && rest@.len() > 4, Warning::ControlExcessData),
{
    if rest.len() < 4 {
        proof {
            assert(warns@ =~= old(warns)@ + warn_if(rest@.len() >= 4 && warn_more && rest@.len() > 4, Warning::ControlExcessData));
        }
        return Err(PacketReadError::ControlResponseTokenMissing);
    }
    if warn_more && rest.len() > 4 {
        warns.push(Warning::ControlExcessData);
    }
    proof {
        assert(warns@ =~= old(warns)@ + warn_if(rest@.len() >= 4 && warn_more && rest@.len() > 4, Warning::ControlExcessData));
    }
    Ok(token_from(rest, 0))
}

/// Reads a control packet of the packet `bytes` with header `header` and
/// payload `payload`.
fn read_control<'b>(warns: &mut Vec<Warning>, bytes: &[u8], header: PacketHeader, payload: &'b [u8]) -> (r: Result<
    ControlPacket<'b>,
    PacketReadError,
>)
    ensures
        final(warns)@ == old(warns)@ + control_header_warnings(header.flags, header.num_chunks)
            + control_body_warnings(bytes@, header.token, payload@),
        (r is Err) <==> control_error(bytes@, header.token, payload@) is Some,
        r matches Err(e) ==> control_error(bytes@, header.token, payload@) == Some(e),
        r matches Ok(c) ==> control_matches(payload@, c),
{
    push_header_warnings(warns, header.flags, header.num_chunks);
    let ghost w1 = warns@;
    if payload.len() == 0 {
        proof {
            assert(warns@ =~= w1 + control_body_warnings(bytes@, header.token, payload@));
        }
        return Err(PacketReadError::ControlMissing);
    }
    let control = payload[0];
    let rest = slice_tail(payload, 1);
    let ghost p = payload@;
    assert(rest@ =~= p.subrange(1, p.len() as int));
    let result = if control == CTRLMSG_KEEPALIVE || control == CTRLMSG_ACCEPT {
        if rest.len() != 0 {
            warns.push(Warning::ControlExcessData);
        }
        if control == CTRLMSG_KEEPALIVE {
            Ok(ControlPacket::KeepAlive)
        } else {
            Ok(ControlPacket::Accept)
        }
    } else if control == CTRLMSG_CONNECT {
        match read_token(warns, rest, true) {
            Ok(t) => {
                assert(t == token_at(p, 1));
                Ok(ControlPacket::Connect(t))
            },
            Err(e) => Err(e),
        }
    } else if control == CTRLMSG_CLOSE {
        let reason = read_close(warns, rest);
        proof {
            lemma_close_reason_len(rest@);
            assert(reason@ =~= p.subrange(1, 1 + close_reason_len(p.subrange(1, p.len() as int))));
        }
        Ok(ControlPacket::Close(reason))
    } else if control == CTRLMSG_TOKEN {
        let none = token_none();
        let is_none = token_eq(header.token, none);
        proof {
            assert(is_none == is_token_none(header.token)) by {
                if is_token_none(header.token) {
                    assert(header.token.0 =~= none.0);
                    assert(header.token.0 == none.0);
                }
            }
        }
        if is_none && bytes.len() < TOKEN_REQUEST_PACKET_SIZE {
            Err(PacketReadError::ControlTokenRequestTooShort)
        } else {
            match read_token(warns, rest, !is_none) {
                Ok(t) => {
                    assert(t == token_at(p, 1));
                    Ok(ControlPacket::Token(t))
                },
                Err(e) => Err(e),
            }
        }
    } else {
        Err(PacketReadError::UnknownControl)
    };
    proof {
        assert(warns@ =~= w1 + control_body_warnings(bytes@, header.token, payload@));
    }
    result
}

/// The reason of a close control packet with data `rest` after its control
/// byte.
fn read_close<'b>(warns: &mut Vec<Warning>, rest: &'b [u8]) -> (r: &'b [u8])
    ensures
        r@ == rest@.subrange(0, close_reason_len(rest@)),
        final(warns)@ == old(warns)@ + (if rest@.len() != 0 && close_reason_len(rest@) + 1 != rest@.len() {
            if close_reason_len(rest@) + 1 < rest@.len() {
                seq![Warning::ControlExcessData]
            } else {
                seq![Warning::ControlNulTermination]
            }
        } else {
            Seq::empty()
        }),
{
    proof {
        lemma_close_reason_len(rest@);
    }
    let reason = close_reason(rest);
    let nul = reason.len();
    if rest.len() != 0 && nul + 1 != rest.len() {
        if nul + 1 < rest.len() {
            warns.push(Warning::ControlExcessData);
        } else {
            warns.push(Warning::ControlNulTermination);
        }
    }
    proof {
        assert(warns@ =~= old(warns)@ + (if rest@.len() != 0 && close_reason_len(rest@) + 1 != rest@.len() {
            if close_reason_len(rest@) + 1 < rest@.len() {
                seq![Warning::ControlExcessData]
            } else {
                seq![Warning::ControlNulTermination]
            }
        } else {
            Seq::empty()
        }));
    }
    reason
}

/// The packet header of the packet `b` (at least `HEADER_SIZE` bytes long).
fn packet_header(b: &[u8], warns: &mut Vec<Warning>) -> (r: PacketHeader)
    requires
        b@.len() >= HEADER_SIZE,
    ensures
        r == ph_unpack(b@),
        final(warns)@ == old(warns)@ + warn_if(padding_set(b@[0]), Warning::PacketHeaderPadding),
{
    let h = PacketHeaderPacked::from_bytes(slice_head(b, HEADER_SIZE));
    assert(h.bytes() =~= b@.subrange(0, 7));
    let r = h.unpack_warn(warns);
    assert(token_at(h.bytes(), 3) == token_at(b@, 3));
    r
}

/// Decompresses the payload of the packet `b` with `huffman`.
fn decompress_payload(huffman: &Huffman, b: &[u8]) -> (r: Result<Vec<u8>, DecompressionError>)
    requires
        b@.len() >= HEADER_SIZE,
    ensures
        (r is Ok) <==> decompressed(huffman.spec_nodes(), b@.subrange(7, b@.len() as int), (MAX_PACKETSIZE - HEADER_SIZE) as nat) is Some,
        r matches Ok(d) ==> decompressed(huffman.spec_nodes(), b@.subrange(7, b@.len() as int), (MAX_PACKETSIZE - HEADER_SIZE) as nat) == Some(d@),
{
    huffman.decompress(slice_tail(b, HEADER_SIZE), MAX_PACKETSIZE - HEADER_SIZE)
}

/// The header a decompressed copy of the compressed packet `b` starts with:
/// that of `b` without the compression flag.
pub open spec fn decompressed_header(b: Seq<u8>) -> Seq<u8> {
    ph_pack(PacketHeader { flags: ph_flags(b) & !PACKETFLAG_COMPRESSION, ack: ph_ack(b), num_chunks: b[2], token: token_at(b, 3) })
}

/// How many bytes decompressing into a buffer with `remaining` free bytes
/// may produce after the header.
pub open spec fn decompression_capacity(remaining: int) -> nat {
    if remaining - HEADER_SIZE > 0xffff_ffff {
        0xffff_ffff
    } else {
        (remaining - HEADER_SIZE) as nat
    }
}

impl<'a> Packet<'a> {
    /// Whether `packet` is a compressed connected packet.
    pub fn needs_decompression(packet: &[u8]) -> (r: bool)
        ensures
            r == (packet@.len() <= MAX_PACKETSIZE && packet@.len() >= HEADER_SIZE && !is_connless(
                packet@,
            ) && is_compressed(packet@)),
    {
        if packet.len() > MAX_PACKETSIZE || packet.len() < HEADER_SIZE {
            return false;
        }
        let mut ignore: Vec<Warning> = Vec::new();
        let header = packet_header(packet, &mut ignore);
        header.flags & PACKETFLAG_CONNLESS == 0 && header.flags & PACKETFLAG_COMPRESSION != 0
    }

    /// Where `packet` is a compressed connected packet, appends to `buffer`
    /// its header without the compression flag and its decompressed payload
    /// and returns `true`; returns `false` for any other packet.
    pub fn decompress_if_needed(huffman: &Huffman, packet: &[u8], buffer: &mut Buffer) -> (r: Result<
        bool,
        DecompressionError,
    >)
        requires
            old(buffer)@.len() + MAX_PACKETSIZE <= old(buffer).capacity(),
        ensures
            final(buffer).capacity() == old(buffer).capacity(),
            ({
                let needed = packet@.len() <= MAX_PACKETSIZE && packet@.len() >= HEADER_SIZE
                    && !is_connless(packet@) && is_compressed(packet@);
                let cap = decompression_capacity(old(buffer).capacity() - old(buffer)@.len());
                let d = decompressed(
                    huffman.spec_nodes(),
                    packet@.subrange(HEADER_SIZE as int, packet@.len() as int),
                    cap,
                );
                if !needed {
                    r == Ok::<bool, DecompressionError>(false) && final(buffer)@ == old(buffer)@
                } else {
                    match d {
                        Some(d) => r == Ok::<bool, DecompressionError>(true) && final(buffer)@ == old(
                            buffer,
                        )@ + decompressed_header(packet@) + d,
                        None => r is Err && final(buffer)@ == old(buffer)@,
                    }
                }
            }),
    {
        if !Packet::needs_decompression(packet) {
            return Ok(false);
        }
        let rem = buffer.remaining();
        let cap: usize = if rem - HEADER_SIZE > 0xffff_ffff {
            0xffff_ffff
        } else {
            rem - HEADER_SIZE
        };
        let d = match huffman.decompress(slice_tail(packet, HEADER_SIZE), cap) {
            Ok(d) => d,
            Err(e) => return Err(e),
        };
        let mut ignore: Vec<Warning> = Vec::new();
        let header = packet_header(packet, &mut ignore);
        let hf = header.flags;
        let ha = header.ack;
        let k = PACKETFLAG_COMPRESSION;
        let flags: u8 = hf & !k;
        let p0 = packet[0];
        let p1 = packet[1];
        assert(hf < 16 && ha < 1024) by (bit_vector)
            requires
                hf == (p0 & 0b1100_0000u8) >> 4u8 || hf == (p0 & 0b0011_1100u8) >> 2u8,
                ha == ((p0 & 0b11u8) as u16) << 8u16 | (p1 as u16),
        ;
        assert(flags < 16) by (bit_vector)
            requires
                hf < 16,
                flags == hf & !k,
        ;
        let fake = PacketHeader { flags, ack: header.ack, num_chunks: header.num_chunks, token: header.token };
        let hb = fake.pack().as_bytes();
        let ghost b0 = buffer@;
        match buffer.write(&hb) {
            Ok(()) => {},
            Err(_) => return Err(DecompressionError::Capacity(CapacityError)),
        }
        match buffer.write(d.as_slice()) {
            Ok(()) => {},
            Err(_) => return Err(DecompressionError::Capacity(CapacityError)),
        }
        proof {
            assert(buffer@ =~= b0 + decompressed_header(packet@) + d@);
        }
        Ok(true)
    }

    /// Parses a packet. A compressed payload is decompressed with `huffman`
    /// into `buffer`, which the result then borrows.
    pub fn read<'b>(warns: &mut Vec<Warning>, huffman: &Huffman, bytes: &'b [u8], buffer: &'b mut Vec<u8>) -> (r: Result<
        Packet<'b>,
        PacketReadError,
    >)
        ensures
            (r is Err) <==> read_error(bytes@, huffman.spec_nodes()) is Some,
            r matches Err(e) ==> read_error(bytes@, huffman.spec_nodes()) == Some(e),
            r matches Ok(pk) ==> read_matches(bytes@, huffman.spec_nodes(), pk),
            final(warns)@ == old(warns)@ + read_warnings(bytes@, huffman.spec_nodes()),
    {
        if bytes.len() > MAX_PACKETSIZE {
            return Err(PacketReadError::TooLong);
        }
        if bytes.len() < HEADER_SIZE {
            return Err(PacketReadError::TooShort);
        }
        if Packet::needs_decompression(bytes) {
            match decompress_payload(huffman, bytes) {
                Ok(d) => {
                    *buffer = d;
                    let stored: &'b Vec<u8> = buffer;
                    Packet::read_impl(warns, bytes, stored.as_slice(), Ghost(huffman.spec_nodes()))
                },
                Err(_) => {
                    let _ = packet_header(bytes, warns);
                    Err(PacketReadError::Compression)
                },
            }
        } else {
            Packet::read_impl(warns, bytes, slice_tail(bytes, HEADER_SIZE), Ghost(huffman.spec_nodes()))
        }
    }

    /// Parses a packet that must not be compressed.
    pub fn read_panic_on_decompression<'b>(warns: &mut Vec<Warning>, bytes: &'b [u8]) -> (r: Result<
        Packet<'b>,
        PacketReadError,
    >)
        requires
            !(bytes@.len() <= MAX_PACKETSIZE && bytes@.len() >= HEADER_SIZE && !is_connless(bytes@)
                && is_compressed(bytes@)),
        ensures
            forall|nodes: Seq<crate::huffman::Node>| {
                &&& (r is Err) <==> read_error(bytes@, nodes) is Some
                &&& r matches Err(e) ==> read_error(bytes@, nodes) == Some(e)
                &&& r matches Ok(pk) ==> read_matches(bytes@, nodes, pk)
                &&& final(warns)@ == old(warns)@ + read_warnings(bytes@, nodes)
            },
    {
        if bytes.len() > MAX_PACKETSIZE {
            return Err(PacketReadError::TooLong);
        }
        if bytes.len() < HEADER_SIZE {
            return Err(PacketReadError::TooShort);
        }
        Packet::read_impl(warns, bytes, slice_tail(bytes, HEADER_SIZE), Ghost(Seq::empty()))
    }

    fn read_connless<'b>(warns: &mut Vec<Warning>, bytes: &'b [u8]) -> (r: Result<Packet<'b>, PacketReadError>)
        requires
            HEADER_SIZE <= bytes@.len(),
        ensures
            (r is Err) <==> connless_error(bytes@) is Some,
            r matches Err(e) ==> connless_error(bytes@) == Some(e),
            r matches Ok(pk) ==> pk matches Packet::Connless(d) && d@ == bytes@.subrange(
                HEADER_SIZE_CONNLESS as int,
                bytes@.len() as int,
            ),
            final(warns)@ == old(warns)@ + connless_warnings(bytes@),
    {
        if bytes.len() < HEADER_SIZE_CONNLESS {
            return Err(PacketReadError::TooShort);
        }
        let h = PacketHeaderConnlessPacked::from_bytes(slice_head(bytes, HEADER_SIZE_CONNLESS));
        assert(h.bytes() =~= bytes@.subrange(0, 9));
        let header = h.unpack_warn(warns);
        let ghost w1 = warns@;
        assert(header == phc_unpack(bytes@));
        if header.version != CONNLESS_VERSION {
            proof {
                assert(warns@ =~= old(warns)@ + connless_warnings(bytes@));
            }
            return Err(PacketReadError::UnknownConnlessVersion);
        }
        if header.flags & PACKETFLAG_COMPRESSION != 0 || header.flags & PACKETFLAG_REQUEST_RESEND != 0
            || header.flags & PACKETFLAG_CONTROL != 0 {
            warns.push(Warning::ConnlessFlags);
        }
        proof {
            assert(warns@ =~= old(warns)@ + connless_warnings(bytes@));
        }
        Ok(Packet::Connless(slice_tail(bytes, HEADER_SIZE_CONNLESS)))
    }

    /// Reads the packet `bytes` whose (decompressed) payload is `payload`.
    fn read_impl<'b>(warns: &mut Vec<Warning>, bytes: &'b [u8], payload: &'b [u8], Ghost(nodes): Ghost<Seq<crate::huffman::Node>>) -> (r: Result<
        Packet<'b>,
        PacketReadError,
    >)
        requires
            HEADER_SIZE <= bytes@.len() <= MAX_PACKETSIZE,
            !is_connless(bytes@) ==> if is_compressed(bytes@) {
                decompressed(nodes, bytes@.subrange(7, bytes@.len() as int), (MAX_PACKETSIZE - HEADER_SIZE) as nat) == Some(payload@)
            } else {
                payload@ == bytes@.subrange(7, bytes@.len() as int)
            },
        ensures
            forall|nodes2: Seq<crate::huffman::Node>| (is_connless(bytes@) || !is_compressed(bytes@) || nodes2 == nodes) ==> {
                &&& (r is Err) <==> read_error(bytes@, nodes2) is Some
                &&& r matches Err(e) ==> read_error(bytes@, nodes2) == Some(e)
                &&& r matches Ok(pk) ==> read_matches(bytes@, nodes2, pk)
                &&& final(warns)@ == old(warns)@ + read_warnings(bytes@, nodes2)
            },
    {
        let header = packet_header(bytes, warns);
        let ghost w1 = warns@;
        if header.flags & PACKETFLAG_CONNLESS != 0 {
            let r = Packet::read_connless(warns, bytes);
            proof {
                assert(warns@ =~= old(warns)@ + warn_if(padding_set(bytes@[0]), Warning::PacketHeaderPadding)
                    + connless_warnings(bytes@));
            }
            return r;
        }
        if payload.len() > MAX_PAYLOAD {
            return Err(PacketReadError::Compression);
        }
        let ack = header.ack;
        let type_ = if header.flags & PACKETFLAG_CONTROL != 0 {
            match read_control(warns, bytes, header, payload) {
                Ok(c) => ConnectedPacketType::Control(c),
                Err(e) => return Err(e),
            }
        } else {
            let request_resend = header.flags & PACKETFLAG_REQUEST_RESEND != 0;
            if header.num_chunks == 0 && !request_resend {
                warns.push(Warning::ChunksNoChunks);
            }
            proof {
                assert(warns@ =~= w1 + warn_if(bytes@[2] == 0 && !requests_resend(bytes@), Warning::ChunksNoChunks));
            }
            ConnectedPacketType::Chunks(request_resend, header.num_chunks, payload)
        };
        Ok(Packet::Connected(ConnectedPacket { ack, type_ }))
    }
}

} // verus!
