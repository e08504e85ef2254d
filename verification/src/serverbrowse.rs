//! Server browsing: the requests sent to master servers and game servers,
//! and what their responses hold.
use vstd::prelude::*;

verus! {

pub const MASTERSERVER_PORT: u16 = 8300;

pub const MASTERSERVER_7_PORT: u16 = 8283;

/// Length of the packet headers of the 0.5 and 0.6 protocols.
pub const HEADER_LEN: usize = 14;

pub const REQUEST_LIST_5: [u8; 14] = [0xff, 0xff, 0xff, 0xff, 0xff, 0xff, 0xff, 0xff, 0xff, 0xff, 0x72, 0x65, 0x71, 0x74];

pub const REQUEST_LIST_6: [u8; 14] = [0xff, 0xff, 0xff, 0xff, 0xff, 0xff, 0xff, 0xff, 0xff, 0xff, 0x72, 0x65, 0x71, 0x32];

pub const LIST_5: [u8; 14] = [0xff, 0xff, 0xff, 0xff, 0xff, 0xff, 0xff, 0xff, 0xff, 0xff, 0x6c, 0x69, 0x73, 0x74];

pub const LIST_6: [u8; 14] = [0xff, 0xff, 0xff, 0xff, 0xff, 0xff, 0xff, 0xff, 0xff, 0xff, 0x6c, 0x69, 0x73, 0x32];

pub const REQUEST_COUNT: [u8; 14] = [0xff, 0xff, 0xff, 0xff, 0xff, 0xff, 0xff, 0xff, 0xff, 0xff, 0x63, 0x6f, 0x75, 0x32];

pub const COUNT: [u8; 14] = [0xff, 0xff, 0xff, 0xff, 0xff, 0xff, 0xff, 0xff, 0xff, 0xff, 0x73, 0x69, 0x7a, 0x32];

pub const REQUEST_INFO_5: [u8; 14] = [0xff, 0xff, 0xff, 0xff, 0xff, 0xff, 0xff, 0xff, 0xff, 0xff, 0x67, 0x69, 0x65, 0x32];

pub const REQUEST_INFO_6: [u8; 14] = [0xff, 0xff, 0xff, 0xff, 0xff, 0xff, 0xff, 0xff, 0xff, 0xff, 0x67, 0x69, 0x65, 0x33];

pub const REQUEST_INFO_6_64: [u8; 14] = [0xff, 0xff, 0xff, 0xff, 0xff, 0xff, 0xff, 0xff, 0xff, 0xff, 0x66, 0x73, 0x74, 0x64];

pub const REQUEST_INFO_6_EX: [u8; 14] = [0x78, 0x65, 0x00, 0x00, 0x00, 0x00, 0xff, 0xff, 0xff, 0xff, 0x67, 0x69, 0x65, 0x33];

pub const INFO_5: [u8; 14] = [0xff, 0xff, 0xff, 0xff, 0xff, 0xff, 0xff, 0xff, 0xff, 0xff, 0x69, 0x6e, 0x66, 0x32];

pub const INFO_6: [u8; 14] = [0xff, 0xff, 0xff, 0xff, 0xff, 0xff, 0xff, 0xff, 0xff, 0xff, 0x69, 0x6e, 0x66, 0x33];

pub const INFO_6_DDPER: [u8; 14] = [0x64, 0x70, 0x00, 0x00, 0x00, 0x00, 0xff, 0xff, 0xff, 0xff, 0x69, 0x6e, 0x66, 0x33];

pub const INFO_6_64: [u8; 14] = [0xff, 0xff, 0xff, 0xff, 0xff, 0xff, 0xff, 0xff, 0xff, 0xff, 0x64, 0x74, 0x73, 0x66];

pub const INFO_6_EX: [u8; 14] = [0xff, 0xff, 0xff, 0xff, 0xff, 0xff, 0xff, 0xff, 0xff, 0xff, 0x69, 0x65, 0x78, 0x74];

pub const INFO_6_EX_MORE: [u8; 14] = [0xff, 0xff, 0xff, 0xff, 0xff, 0xff, 0xff, 0xff, 0xff, 0xff, 0x69, 0x65, 0x78, 0x2b];

pub const TOKEN_7: [u8; 8] = [0x04, 0x00, 0x00, 0xff, 0xff, 0xff, 0xff, 0x05];

pub const REQUEST_LIST_7: [u8; 17] = [0x21, 0xff, 0xff, 0xff, 0xff, 0xff, 0xff, 0xff, 0xff, 0xff, 0xff, 0xff, 0xff, 0x72, 0x65, 0x71, 0x32];

pub const LIST_7: [u8; 17] = [0x21, 0xff, 0xff, 0xff, 0xff, 0xff, 0xff, 0xff, 0xff, 0xff, 0xff, 0xff, 0xff, 0x6c, 0x69, 0x73, 0x32];

pub const REQUEST_COUNT_7: [u8; 17] = [0x21, 0xff, 0xff, 0xff, 0xff, 0xff, 0xff, 0xff, 0xff, 0xff, 0xff, 0xff, 0xff, 0x63, 0x6f, 0x75, 0x32];

pub const COUNT_7: [u8; 17] = [0x21, 0xff, 0xff, 0xff, 0xff, 0xff, 0xff, 0xff, 0xff, 0xff, 0xff, 0xff, 0xff, 0x73, 0x69, 0x7a, 0x32];

pub const REQUEST_INFO_7: [u8; 17] = [0x21, 0xff, 0xff, 0xff, 0xff, 0xff, 0xff, 0xff, 0xff, 0xff, 0xff, 0xff, 0xff, 0x67, 0x69, 0x65, 0x33];

pub const INFO_7: [u8; 17] = [0x21, 0xff, 0xff, 0xff, 0xff, 0xff, 0xff, 0xff, 0xff, 0xff, 0xff, 0xff, 0xff, 0x69, 0x6e, 0x66, 0x33];

pub const PACKETFLAG_CONNLESS: u8 = 64;

pub const SERVERINFO_FLAG_PASSWORDED: i32 = 1;

pub const SERVERINFO_FLAG_TIMESCORE: i32 = 2;

pub const CLIENTINFO_FLAG_SPECTATOR: i32 = 1;

pub const CLIENTINFO_FLAG_BOT: i32 = 2;

pub const IPV4_MAPPING: [u8; 12] = [0x00, 0x00, 0x00, 0x00, 0x00, 0x00, 0x00, 0x00, 0x00, 0x00, 0xff, 0xff];

/// Asks master servers to leave out servers that are only reachable by
/// HTTP.
pub const NO_BACKCOMPAT: [u8; 16] = [0xe0, 0x2c, 0xb6, 0x30, 0xb6, 0x80, 0x38, 0xf6, 0x81, 0xa6, 0xda, 0x09, 0x6e, 0x96, 0x96, 0xd1];

const MAX_CLIENTS_5: u32 = 16;

const MAX_CLIENTS_6_64: u32 = 64;

const MAX_CLIENTS_7: u32 = 64;

/// A connection token of the 0.7 protocol.
#[derive(Clone, Copy, Debug, PartialEq, Eq)]
pub struct Token7(pub [u8; 4]);

/// `header` with the token `their` in bytes 1 to 4 and `own` in bytes 5 to 8.
pub open spec fn with_tokens(header: Seq<u8>, own: Token7, their: Token7) -> Seq<u8> {
    header.subrange(0, 1) + their.0@ + own.0@ + header.subrange(9, header.len() as int)
}

/// Copies `src` into `dst` from index `at` on.
fn write_at<const N: usize>(dst: &mut [u8; N], at: usize, src: &[u8])
    requires
        at + src@.len() <= N,
    ensures
        final(dst)@ == old(dst)@.subrange(0, at as int) + src@ + old(dst)@.subrange(
            at + src@.len(),
            N as int,
        ),
{
    let mut i: usize = 0;
    while i < src.len()
        invariant
            at + src@.len() <= N,
            i <= src@.len(),
            dst@.len() == N,
            dst@ == old(dst)@.subrange(0, at as int) + src@.subrange(0, i as int) + old(
                dst,
            )@.subrange(at + i, N as int),
        decreases src.len() - i,
    {
        dst[at + i] = src[i];
        i = i + 1;
        proof {
            assert(dst@ =~= old(dst)@.subrange(0, at as int) + src@.subrange(0, i as int) + old(
                dst,
            )@.subrange(at + i, N as int));
        }
    }
    proof {
        assert(src@.subrange(0, src@.len() as int) =~= src@);
    }
}

/// A 0.7 request with header `header`, carrying the tokens `own` and
/// `their`.
fn request_7(header: &[u8; 17], own_token: Token7, their_token: Token7) -> (r: [u8; 17])
    ensures
        r@ == with_tokens(header@, own_token, their_token),
{
    let mut request = *header;
    write_at(&mut request, 1, &their_token.0);
    write_at(&mut request, 5, &own_token.0);
    proof {
        assert(request@ =~= with_tokens(header@, own_token, their_token));
    }
    request
}

/// `header` followed by `tail`.
fn concat<const N: usize, const M: usize, const L: usize>(header: &[u8; N], tail: &[u8; M]) -> (r: [u8; L])
    requires
        N + M == L,
    ensures
        r@ == header@ + tail@,
{
    let mut request = [0u8; L];
    write_at(&mut request, 0, header);
    write_at(&mut request, N, tail);
    proof {
        assert(request@ =~= header@ + tail@);
    }
    request
}

/// Asks a 0.5 master server for its server list.
pub fn request_list_5() -> (r: [u8; 14])
    ensures
        r@ == REQUEST_LIST_5@,
{
    REQUEST_LIST_5
}

/// Asks a 0.6 master server for its server list.
pub fn request_list_6() -> (r: [u8; 14])
    ensures
        r@ == REQUEST_LIST_6@,
{
    REQUEST_LIST_6
}

/// Asks a 0.7 master server for its server list.
pub fn request_list_7(own_token: Token7, their_token: Token7) -> (r: [u8; 17])
    ensures
        r@ == with_tokens(REQUEST_LIST_7@, own_token, their_token),
{
    request_7(&REQUEST_LIST_7, own_token, their_token)
}

pub fn request_list_5_nobackcompat() -> (r: [u8; 30])
    ensures
        r@ == REQUEST_LIST_5@ + NO_BACKCOMPAT@,
{
    concat(&REQUEST_LIST_5, &NO_BACKCOMPAT)
}

pub fn request_list_6_nobackcompat() -> (r: [u8; 30])
    ensures
        r@ == REQUEST_LIST_6@ + NO_BACKCOMPAT@,
{
    concat(&REQUEST_LIST_6, &NO_BACKCOMPAT)
}

pub fn request_list_7_nobackcompat(own_token: Token7, their_token: Token7) -> (r: [u8; 33])
    ensures
        r@ == with_tokens(REQUEST_LIST_7@, own_token, their_token) + NO_BACKCOMPAT@,
{
    concat(&request_list_7(own_token, their_token), &NO_BACKCOMPAT)
}

/// An info request with header `header` and the challenge byte.
fn request_info(header: &[u8; 14], challenge: u8) -> (r: [u8; 15])
    ensures
        r@ == header@.push(challenge),
{
    let mut request = [0u8; 15];
    write_at(&mut request, 0, header);
    request[HEADER_LEN] = challenge;
    proof {
        assert(request@ =~= header@.push(challenge));
    }
    request
}

/// Asks a 0.5 game server for its info.
pub fn request_info_5(challenge: u8) -> (r: [u8; 15])
    ensures
        r@ == REQUEST_INFO_5@.push(challenge),
{
    request_info(&REQUEST_INFO_5, challenge)
}

/// Asks a 0.6 game server for its info.
pub fn request_info_6(challenge: u8) -> (r: [u8; 15])
    ensures
        r@ == REQUEST_INFO_6@.push(challenge),
{
    request_info(&REQUEST_INFO_6, challenge)
}

/// Asks a 0.6 game server with 64 slots for its info.
pub fn request_info_6_64(challenge: u8) -> (r: [u8; 15])
    ensures
        r@ == REQUEST_INFO_6_64@.push(challenge),
{
    request_info(&REQUEST_INFO_6_64, challenge)
}

/// Asks a game server for its extended info; only the lower 24 bits of
/// `challenge` are sent.
pub fn request_info_6_ex(challenge: u32) -> (r: [u8; 15])
    requires
        challenge & 0x00ff_ffff == challenge,
    ensures
        r@ == REQUEST_INFO_6_EX@.update(2, ((challenge & 0x00ff_0000) >> 16) as u8).update(
            3,
            ((challenge & 0x0000_ff00) >> 8) as u8,
        ).push((challenge & 0x0000_00ff) as u8),
{
    let mut request = [0u8; 15];
    write_at(&mut request, 0, &REQUEST_INFO_6_EX);
    request[2] = ((challenge & 0x00ff_0000) >> 16) as u8;
    request[3] = ((challenge & 0x0000_ff00) >> 8) as u8;
    request[HEADER_LEN] = (challenge & 0x0000_00ff) as u8;
    proof {
        assert(request@ =~= REQUEST_INFO_6_EX@.update(2, ((challenge & 0x00ff_0000) >> 16) as u8).update(
            3,
            ((challenge & 0x0000_ff00) >> 8) as u8,
        ).push((challenge & 0x0000_00ff) as u8));
    }
    request
}

/// Asks a 0.7 server for a token: `TOKEN_7` with the "no token" bytes,
/// then `own_token`, padded with zeros to 520 bytes.
pub fn request_token_7(own_token: Token7) -> (r: [u8; 520])
    ensures
        r@ == TOKEN_7@ + own_token.0@ + Seq::new(508, |i: int| 0u8),
{
    let mut request = [0u8; 520];
    write_at(&mut request, 0, &TOKEN_7);
    write_at(&mut request, 8, &own_token.0);
    proof {
        assert(request@ =~= TOKEN_7@ + own_token.0@ + Seq::new(508, |i: int| 0u8));
    }
    request
}

/// Asks a 0.7 game server for its info; only the lower 6 bits of
/// `challenge` can be used.
pub fn request_info_7(own_token: Token7, their_token: Token7, challenge: u8) -> (r: [u8; 18])
    requires
        challenge & 0x3f == challenge,
    ensures
        r@ == with_tokens(REQUEST_INFO_7@, own_token, their_token).push(challenge),
{
    let header = request_7(&REQUEST_INFO_7, own_token, their_token);
    let mut request = [0u8; 18];
    write_at(&mut request, 0, &header);
    request[17] = challenge;
    proof {
        assert(request@ =~= with_tokens(REQUEST_INFO_7@, own_token, their_token).push(challenge));
    }
    request
}

/// Asks a master server for its number of servers.
pub fn request_count() -> (r: [u8; 14])
    ensures
        r@ == REQUEST_COUNT@,
{
    REQUEST_COUNT
}

pub fn request_count_nobackcompat() -> (r: [u8; 30])
    ensures
        r@ == REQUEST_COUNT@ + NO_BACKCOMPAT@,
{
    concat(&REQUEST_COUNT, &NO_BACKCOMPAT)
}

pub fn request_count_7(own_token: Token7, their_token: Token7) -> (r: [u8; 17])
    ensures
        r@ == with_tokens(REQUEST_COUNT_7@, own_token, their_token),
{
    request_7(&REQUEST_COUNT_7, own_token, their_token)
}

pub fn request_count_7_nobackcompat(own_token: Token7, their_token: Token7) -> (r: [u8; 33])
    ensures
        r@ == with_tokens(REQUEST_COUNT_7@, own_token, their_token) + NO_BACKCOMPAT@,
{
    concat(&request_count_7(own_token, their_token), &NO_BACKCOMPAT)
}

/// The version of the server info format, in the order of their features.
#[derive(Clone, Copy, Debug, PartialEq, Eq, Structural, PartialOrd, Ord, Hash)]
pub enum ServerInfoVersion {
    V5,
    V6,
    V6Ddper,
    V664,
    V6Ex,
    V7,
}

impl ServerInfoVersion {
    /// The position of the version in the order of versions.
    pub open spec fn order(self) -> int {
        match self {
            ServerInfoVersion::V5 => 0,
            ServerInfoVersion::V6 => 1,
            ServerInfoVersion::V6Ddper => 2,
            ServerInfoVersion::V664 => 3,
            ServerInfoVersion::V6Ex => 4,
            ServerInfoVersion::V7 => 5,
        }
    }

    /// Most clients a server can have, where the version bounds it.
    pub fn max_clients(self) -> (r: Option<u32>)
        ensures
            r == (match self {
                ServerInfoVersion::V5 | ServerInfoVersion::V6 | ServerInfoVersion::V6Ddper => Some(16u32),
                ServerInfoVersion::V664 | ServerInfoVersion::V7 => Some(64u32),
                ServerInfoVersion::V6Ex => None,
            }),
    {
        match self {
            ServerInfoVersion::V5 => Some(MAX_CLIENTS_5),
            ServerInfoVersion::V6 => Some(MAX_CLIENTS_5),
            ServerInfoVersion::V6Ddper => Some(MAX_CLIENTS_5),
            ServerInfoVersion::V664 => Some(MAX_CLIENTS_6_64),
            ServerInfoVersion::V6Ex => None,
            ServerInfoVersion::V7 => Some(MAX_CLIENTS_7),
        }
    }

    /// Most clients one info packet lists, where the version bounds it.
    pub fn clients_per_packet(self) -> (r: Option<u32>)
        ensures
            r == (match self {
                ServerInfoVersion::V664 => Some(24u32),
                ServerInfoVersion::V6Ex => None,
                _ => Some(16u32),
            }),
    {
        match self {
            ServerInfoVersion::V5 => Some(16),
            ServerInfoVersion::V6 => Some(16),
            ServerInfoVersion::V6Ddper => Some(16),
            ServerInfoVersion::V664 => Some(24),
            ServerInfoVersion::V6Ex => None,
            ServerInfoVersion::V7 => Some(16),
        }
    }

    pub fn has_hostname(self) -> (r: bool)
        ensures
            r == (self.order() >= ServerInfoVersion::V7.order()),
    {
        match self {
            ServerInfoVersion::V7 => true,
            _ => false,
        }
    }

    pub fn has_progression(self) -> (r: bool)
        ensures
            r == (self == ServerInfoVersion::V5),
    {
        self == ServerInfoVersion::V5
    }

    pub fn has_skill_level(self) -> (r: bool)
        ensures
            r == (self.order() >= ServerInfoVersion::V7.order()),
    {
        match self {
            ServerInfoVersion::V7 => true,
            _ => false,
        }
    }

    pub fn has_offset(self) -> (r: bool)
        ensures
            r == (self == ServerInfoVersion::V664),
    {
        self == ServerInfoVersion::V664
    }

    pub fn has_extended_player_info(self) -> (r: bool)
        ensures
            r == (self.order() >= ServerInfoVersion::V6.order()),
    {
        match self {
            ServerInfoVersion::V5 => false,
            _ => true,
        }
    }

    pub fn has_extended_map_info(self) -> (r: bool)
        ensures
            r == (self == ServerInfoVersion::V6Ex),
    {
        self == ServerInfoVersion::V6Ex
    }

    pub fn has_extra_info(self) -> (r: bool)
        ensures
            r == (self == ServerInfoVersion::V6Ex),
    {
        self == ServerInfoVersion::V6Ex
    }

    pub fn has_full_client_flags(self) -> (r: bool)
        ensures
            r == (self == ServerInfoVersion::V7),
    {
        self == ServerInfoVersion::V7
    }
}

/// Merging two parts of a server info failed.
#[derive(Clone, Copy, Debug, PartialEq, Eq, Structural)]
pub enum MergeError {
    DifferingTokens,
    DifferingVersions,
    NotMultipartVersion,
    OverlappingInfos,
}

#[derive(Clone, Copy, Debug)]
pub struct Info5Response<'a>(pub &'a [u8]);

#[derive(Clone, Copy, Debug)]
pub struct Info6Response<'a>(pub &'a [u8]);

#[derive(Clone, Copy, Debug)]
pub struct Info6DdperResponse<'a>(pub &'a [u8]);

#[derive(Clone, Copy, Debug)]
pub struct Info664Response<'a>(pub &'a [u8]);

#[derive(Clone, Copy, Debug)]
pub struct Info6ExResponse<'a>(pub &'a [u8]);

#[derive(Clone, Copy, Debug)]
pub struct Info6ExMoreResponse<'a>(pub &'a [u8]);

#[derive(Clone, Copy, Debug)]
pub struct Info7Response<'a>(pub Token7, pub Token7, pub &'a [u8]);

#[derive(Clone, Copy, Debug, PartialEq, Eq, Structural)]
pub struct CountResponse(pub u16);

#[derive(Clone, Copy, Debug, PartialEq, Eq)]
pub struct Count7Response(pub Token7, pub Token7, pub u16);

#[derive(Clone, Copy, Debug, PartialEq, Eq)]
pub struct Token7Response(pub Token7, pub Token7);

} // verus!
