//! Telling apart the answers of master and game servers by their headers,
//! and reading the server lists and counts they carry.
use vstd::prelude::*;
use crate::register::bytes_eq;
use crate::serverbrowse::{
    Count7Response, CountResponse, Info5Response, Info664Response, Info6DdperResponse,
    Info6ExMoreResponse, Info6ExResponse, Info6Response, Info7Response, Token7, Token7Response,
    COUNT, COUNT_7, HEADER_LEN, INFO_5, INFO_6, INFO_6_64, INFO_6_DDPER, INFO_6_EX,
    INFO_6_EX_MORE, INFO_7, IPV4_MAPPING, LIST_5, LIST_6, LIST_7, PACKETFLAG_CONNLESS, TOKEN_7,
};

verus! {

/// An IP address: four bytes, or sixteen.
#[derive(Clone, Copy, Debug, PartialEq, Eq, Hash, PartialOrd, Ord)]
pub enum IpAddr {
    V4([u8; 4]),
    V6([u8; 16]),
}

/// The address of a server.
#[derive(Clone, Copy, Debug, PartialEq, Eq, Hash, PartialOrd, Ord)]
pub struct Addr {
    pub ip_address: IpAddr,
    pub port: u16,
}

/// A server address as a 0.5 master server lists it: IPv4 address, then
/// the port, little-endian.
#[derive(Clone, Copy, Debug, PartialEq, Eq)]
pub struct Addr5Packed {
    pub ip_address: [u8; 4],
    pub port: [u8; 2],
}

/// A server address as a 0.6 or 0.7 master server lists it: IPv6 address
/// (IPv4 ones mapped into it), then the port, big-endian.
#[derive(Clone, Copy, Debug, PartialEq, Eq)]
pub struct Addr6Packed {
    pub ip_address: [u8; 16],
    pub port: [u8; 2],
}

impl Addr5Packed {
    /// The address that is listed.
    pub fn unpack(self) -> (r: Addr)
        ensures
            r.ip_address == IpAddr::V4(self.ip_address),
            r.port == self.port[0] + 256 * self.port[1],
    {
        Addr { ip_address: IpAddr::V4(self.ip_address), port: self.port[0] as u16 + 256 * self.port[1] as u16 }
    }
}

impl Addr6Packed {
    /// The address that is listed: an IPv4 one where the first twelve
    /// bytes are the IPv4 mapping.
    pub fn unpack(self) -> (r: Addr)
        ensures
            self.ip_address@.subrange(0, 12) == IPV4_MAPPING@ ==> r.ip_address == IpAddr::V4(
                [self.ip_address[12], self.ip_address[13], self.ip_address[14], self.ip_address[15]],
            ),
            self.ip_address@.subrange(0, 12) != IPV4_MAPPING@ ==> r.ip_address == IpAddr::V6(self.ip_address),
            r.port == 256 * self.port[0] + self.port[1],
    {
        let ip = self.ip_address;
        let ip_address = if bytes_eq(&ip[0..12], &IPV4_MAPPING) {
            IpAddr::V4([ip[12], ip[13], ip[14], ip[15]])
        } else {
            IpAddr::V6(ip)
        };
        Addr { ip_address, port: 256 * self.port[0] as u16 + self.port[1] as u16 }
    }
}

/// The addresses a 0.5 master server lists in `p`, six bytes each; a cut
/// entry at the end is dropped.
pub open spec fn addr5_list_ok(p: Seq<u8>, l: Seq<Addr5Packed>) -> bool {
    &&& l.len() == p.len() / 6
    &&& forall|i: int|
        0 <= i < l.len() ==> #[trigger] l[i].ip_address@ == p.subrange(6 * i, 6 * i + 4) && l[i].port@
            == p.subrange(6 * i + 4, 6 * i + 6)
}

/// The addresses a 0.6 or 0.7 master server lists in `p`, eighteen bytes
/// each; a cut entry at the end is dropped.
pub open spec fn addr6_list_ok(p: Seq<u8>, l: Seq<Addr6Packed>) -> bool {
    &&& l.len() == p.len() / 18
    &&& forall|i: int|
        0 <= i < l.len() ==> #[trigger] l[i].ip_address@ == p.subrange(18 * i, 18 * i + 16) && l[i].port@
            == p.subrange(18 * i + 16, 18 * i + 18)
}

/// Copies `N` bytes of `data` from `at` on.
fn take_bytes<const N: usize>(data: &[u8], at: usize) -> (r: [u8; N])
    requires
        at + N <= data@.len(),
    ensures
        r@ == data@.subrange(at as int, at + N),
{
    let len = data.len();
    let mut r = [0u8; N];
    let mut i: usize = 0;
    while i < N
        invariant
            at + N <= data@.len(),
            len == data@.len(),
            i <= N,
            r@.len() == N,
            forall|k: int| 0 <= k < i ==> r@[k] == data@[at + k],
        decreases N - i,
    {
        let b = data[at + i];
        r[i] = b;
        i = i + 1;
    }
    assert(r@ =~= data@.subrange(at as int, at + N));
    r
}

/// Reads the addresses of a 0.5 server list.
pub fn parse_list5(data: &[u8]) -> (r: Vec<Addr5Packed>)
    ensures
        addr5_list_ok(data@, r@),
{
    let mut r: Vec<Addr5Packed> = Vec::new();
    let mut at: usize = 0;
    while data.len() - at >= 6
        invariant
            at == 6 * r@.len(),
            at <= data@.len(),
            forall|k: int|
                0 <= k < r@.len() ==> #[trigger] r@[k].ip_address@ == data@.subrange(6 * k, 6 * k + 4)
                    && r@[k].port@ == data@.subrange(6 * k + 4, 6 * k + 6),
        decreases data.len() - at,
    {
        let ghost before = r@;
        let a = Addr5Packed { ip_address: take_bytes(data, at), port: take_bytes(data, at + 4) };
        r.push(a);
        proof {
            assert forall|k: int| 0 <= k < r@.len() implies #[trigger] r@[k].ip_address@ == data@.subrange(6 * k, 6 * k + 4)
                && r@[k].port@ == data@.subrange(6 * k + 4, 6 * k + 6) by {
                if k < before.len() {
                    assert(r@[k] == before[k]);
                } else {
                    assert(k == before.len());
                    assert(r@[k] == a);
                    assert(a.ip_address@ == data@.subrange(at as int, at + a.ip_address@.len()));
                }
            }
        }
        at = at + 6;
    }
    proof {
        vstd::arithmetic::div_mod::lemma_fundamental_div_mod_converse(
            data@.len() as int,
            6,
            r@.len() as int,
            data@.len() - at,
        );
        assert forall|i: int| 0 <= i < r@.len() implies #[trigger] r@[i].ip_address@ == data@.subrange(6 * i, 6 * i + 4)
            && r@[i].port@ == data@.subrange(6 * i + 4, 6 * i + 6) by {
        }
        assert(addr5_list_ok(data@, r@));
    }
    r
}

/// Reads the addresses of a 0.6 or 0.7 server list.
pub fn parse_list6(data: &[u8]) -> (r: Vec<Addr6Packed>)
    ensures
        addr6_list_ok(data@, r@),
{
    let mut r: Vec<Addr6Packed> = Vec::new();
    let mut at: usize = 0;
    while data.len() - at >= 18
        invariant
            at == 18 * r@.len(),
            at <= data@.len(),
            forall|k: int|
                0 <= k < r@.len() ==> #[trigger] r@[k].ip_address@ == data@.subrange(18 * k, 18 * k + 16)
                    && r@[k].port@ == data@.subrange(18 * k + 16, 18 * k + 18),
        decreases data.len() - at,
    {
        let ghost before = r@;
        let a = Addr6Packed { ip_address: take_bytes(data, at), port: take_bytes(data, at + 16) };
        r.push(a);
        proof {
            assert forall|k: int| 0 <= k < r@.len() implies #[trigger] r@[k].ip_address@ == data@.subrange(18 * k, 18 * k + 16)
                && r@[k].port@ == data@.subrange(18 * k + 16, 18 * k + 18) by {
                if k < before.len() {
                    assert(r@[k] == before[k]);
                } else {
                    assert(k == before.len());
                    assert(r@[k] == a);
                    assert(a.ip_address@ == data@.subrange(at as int, at + a.ip_address@.len()));
                }
            }
        }
        at = at + 18;
    }
    proof {
        vstd::arithmetic::div_mod::lemma_fundamental_div_mod_converse(
            data@.len() as int,
            18,
            r@.len() as int,
            data@.len() - at,
        );
        assert forall|i: int| 0 <= i < r@.len() implies #[trigger] r@[i].ip_address@ == data@.subrange(18 * i, 18 * i + 16)
            && r@[i].port@ == data@.subrange(18 * i + 16, 18 * i + 18) by {
        }
        assert(addr6_list_ok(data@, r@));
    }
    r
}

/// The count a master server sends: two bytes, big-endian; more are
/// ignored.
pub open spec fn count_of(p: Seq<u8>) -> Option<u16> {
    if p.len() < 2 {
        None
    } else {
        Some((p[0] * 256 + p[1]) as u16)
    }
}

/// Reads a server count.
pub fn parse_count(data: &[u8]) -> (r: Option<u16>)
    ensures
        r == count_of(data@),
{
    if data.len() < 2 {
        return None;
    }
    Some(data[0] as u16 * 256 + data[1] as u16)
}

/// The token in bytes `at` to `at + 4` of `s`.
pub open spec fn token_at(s: Seq<u8>, at: int) -> Token7 {
    Token7([s[at], s[at + 1], s[at + 2], s[at + 3]])
}

/// Reads a token: the first four bytes; more are ignored.
pub fn parse_token7(data: &[u8]) -> (r: Option<Token7>)
    ensures
        data@.len() < 4 ==> r is None,
        data@.len() >= 4 ==> r == Some(token_at(data@, 0)),
{
    if data.len() < 4 {
        return None;
    }
    Some(Token7([data[0], data[1], data[2], data[3]]))
}

/// A 0.5 server list.
#[derive(Clone, Debug)]
pub struct List5Response(pub Vec<Addr5Packed>);

/// A 0.6 server list.
#[derive(Clone, Debug)]
pub struct List6Response(pub Vec<Addr6Packed>);

/// A 0.7 server list, with the tokens of the connection.
#[derive(Clone, Debug)]
pub struct List7Response(pub Token7, pub Token7, pub Vec<Addr6Packed>);

/// An answer of a master or game server.
#[derive(Clone, Debug)]
pub enum Response<'a> {
    List5(List5Response),
    List6(List6Response),
    List7(List7Response),
    Count(CountResponse),
    Count7(Count7Response),
    Info5(Info5Response<'a>),
    Info6(Info6Response<'a>),
    Info6Ddper(Info6DdperResponse<'a>),
    Info664(Info664Response<'a>),
    Info6Ex(Info6ExResponse<'a>),
    Info6ExMore(Info6ExMoreResponse<'a>),
    Info7(Info7Response<'a>),
    Token7(Token7Response),
}

/// The kinds of answers, by their headers.
#[derive(Clone, Copy, Debug, PartialEq, Eq, Structural)]
pub enum ResponseKind {
    List5,
    List6,
    List7,
    Count,
    Count7,
    Info5,
    Info6,
    Info6Ddper,
    Info664,
    Info6Ex,
    Info6ExMore,
    Info7,
    Token7,
}

/// `h` with bytes `a` to `b` set to `fill`.
pub open spec fn masked(h: Seq<u8>, a: int, b: int, fill: u8) -> Seq<u8> {
    h.subrange(0, a) + Seq::new((b - a) as nat, |i: int| fill) + h.subrange(b, h.len() as int)
}

/// The 0.6 header of `data` with the token bytes masked: zeroed where the
/// header is that of a DDNet player extension info, set otherwise.
pub open spec fn connless_header(data: Seq<u8>) -> Seq<u8> {
    let h = data.subrange(0, 14);
    if h.subrange(0, 2) == seq![0x64u8, 0x70u8] && h.subrange(6, 14) == INFO_6_DDPER@.subrange(6, 14) {
        masked(h, 2, 6, 0)
    } else {
        masked(h, 0, 6, 0xff)
    }
}

/// The kind of the answer `data`, by its header: 0.7 control packets start
/// with 4, 0.7 connectionless ones with 0x21, the others need the
/// connectionless flag; tokens are masked out before comparing.
pub open spec fn response_kind(data: Seq<u8>) -> Option<ResponseKind> {
    if data.len() >= 1 && data[0] == 0x04 {
        if data.len() >= 8 && masked(data.subrange(0, 8), 3, 7, 0xff) == TOKEN_7@ {
            Some(ResponseKind::Token7)
        } else {
            None
        }
    } else if data.len() >= 1 && data[0] == 0x21 {
        if data.len() < 17 {
            None
        } else {
            let h = masked(data.subrange(0, 17), 1, 9, 0xff);
            if h == LIST_7@ {
                Some(ResponseKind::List7)
            } else if h == INFO_7@ {
                Some(ResponseKind::Info7)
            } else if h == COUNT_7@ {
                Some(ResponseKind::Count7)
            } else {
                None
            }
        }
    } else if data.len() < 14 || data[0] & PACKETFLAG_CONNLESS == 0 {
        None
    } else {
        let h = connless_header(data);
        if h == LIST_5@ {
            Some(ResponseKind::List5)
        } else if h == LIST_6@ {
            Some(ResponseKind::List6)
        } else if h == INFO_5@ {
            Some(ResponseKind::Info5)
        } else if h == INFO_6@ {
            Some(ResponseKind::Info6)
        } else if h == INFO_6_DDPER@ {
            Some(ResponseKind::Info6Ddper)
        } else if h == INFO_6_64@ {
            Some(ResponseKind::Info664)
        } else if h == INFO_6_EX@ {
            Some(ResponseKind::Info6Ex)
        } else if h == INFO_6_EX_MORE@ {
            Some(ResponseKind::Info6ExMore)
        } else if h == COUNT@ {
            Some(ResponseKind::Count)
        } else {
            None
        }
    }
}

/// Where the payload of an answer of kind `k` starts.
pub open spec fn payload_start(k: ResponseKind) -> int {
    match k {
        ResponseKind::Token7 => 8,
        ResponseKind::List7 | ResponseKind::Info7 | ResponseKind::Count7 => 17,
        _ => 14,
    }
}

/// The answer `r` is what `data` says: its kind is that of the header, and
/// it carries the payload, the list or count read from it, and the tokens.
/// A count or token cut short makes no answer.
pub open spec fn response_of(data: Seq<u8>, r: Option<Response>) -> bool {
    match response_kind(data) {
        None => r is None,
        Some(k) => {
            let p = data.subrange(payload_start(k), data.len() as int);
            match k {
                ResponseKind::Token7 => if p.len() < 4 {
                    r is None
                } else {
                    r == Some(Response::Token7(Token7Response(token_at(data, 3), token_at(p, 0))))
                },
                ResponseKind::List7 => r matches Some(Response::List7(List7Response(o, t, l)))
                    && o == token_at(data, 1) && t == token_at(data, 5) && addr6_list_ok(p, l@),
                ResponseKind::Info7 => r matches Some(Response::Info7(Info7Response(o, t, x)))
                    && o == token_at(data, 1) && t == token_at(data, 5) && x@ == p,
                ResponseKind::Count7 => match count_of(p) {
                    None => r is None,
                    Some(c) => r == Some(
                        Response::Count7(Count7Response(token_at(data, 1), token_at(data, 5), c)),
                    ),
                },
                ResponseKind::List5 => r matches Some(Response::List5(List5Response(l))) && addr5_list_ok(p, l@),
                ResponseKind::List6 => r matches Some(Response::List6(List6Response(l))) && addr6_list_ok(p, l@),
                ResponseKind::Info5 => r matches Some(Response::Info5(Info5Response(x))) && x@ == p,
                ResponseKind::Info6 => r matches Some(Response::Info6(Info6Response(x))) && x@ == p,
                ResponseKind::Info6Ddper => r matches Some(Response::Info6Ddper(Info6DdperResponse(x))) && x@ == p,
                ResponseKind::Info664 => r matches Some(Response::Info664(Info664Response(x))) && x@ == p,
                ResponseKind::Info6Ex => r matches Some(Response::Info6Ex(Info6ExResponse(x))) && x@ == p,
                ResponseKind::Info6ExMore => r matches Some(Response::Info6ExMore(Info6ExMoreResponse(x)))
                    && x@ == p,
                ResponseKind::Count => match count_of(p) {
                    None => r is None,
                    Some(c) => r == Some(Response::Count(CountResponse(c))),
                },
            }
        },
    }
}

/// The first `n` bytes of `data` with bytes `a` to `b` set to `fill`.
fn masked_prefix(data: &[u8], n: usize, a: usize, b: usize, fill: u8) -> (r: Vec<u8>)
    requires
        a <= b <= n <= data@.len(),
    ensures
        r@ == masked(data@.subrange(0, n as int), a as int, b as int, fill),
{
    let mut r: Vec<u8> = Vec::new();
    let mut i: usize = 0;
    while i < n
        invariant
            a <= b <= n <= data@.len(),
            i <= n,
            r@.len() == i,
            forall|k: int|
                0 <= k < i ==> r@[k] == if a <= k < b {
                    fill
                } else {
                    data@[k]
                },
        decreases n - i,
    {
        if a <= i && i < b {
            r.push(fill);
        } else {
            r.push(data[i]);
        }
        i = i + 1;
    }
    assert(r@ =~= masked(data@.subrange(0, n as int), a as int, b as int, fill));
    r
}

/// The kind of the answer `data`, by its header.
fn kind_of(data: &[u8]) -> (r: Option<ResponseKind>)
    ensures
        r == response_kind(data@),
{
    let len = data.len();
    if len >= 1 && data[0] == 0x04 {
        if len >= 8 && bytes_eq(masked_prefix(data, 8, 3, 7, 0xff).as_slice(), &TOKEN_7) {
            return Some(ResponseKind::Token7);
        }
        return None;
    }
    if len >= 1 && data[0] == 0x21 {
        if len < 17 {
            return None;
        }
        let h = masked_prefix(data, 17, 1, 9, 0xff);
        if bytes_eq(h.as_slice(), &LIST_7) {
            return Some(ResponseKind::List7);
        } else if bytes_eq(h.as_slice(), &INFO_7) {
            return Some(ResponseKind::Info7);
        } else if bytes_eq(h.as_slice(), &COUNT_7) {
            return Some(ResponseKind::Count7);
        }
        return None;
    }
    if len < HEADER_LEN || data[0] & PACKETFLAG_CONNLESS == 0 {
        return None;
    }
    let dp = bytes_eq(&data[0..2], &[0x64u8, 0x70u8]) && bytes_eq(&data[6..14], &INFO_6_DDPER[6..14]);
    proof {
        let h = data@.subrange(0, 14);
        assert(h.subrange(0, 2) =~= data@.subrange(0, 2));
        assert(h.subrange(6, 14) =~= data@.subrange(6, 14));
    }
    let h = if dp {
        masked_prefix(data, 14, 2, 6, 0)
    } else {
        masked_prefix(data, 14, 0, 6, 0xff)
    };
    assert(h@ == connless_header(data@));
    let h = h.as_slice();
    if bytes_eq(h, &LIST_5) {
        Some(ResponseKind::List5)
    } else if bytes_eq(h, &LIST_6) {
        Some(ResponseKind::List6)
    } else if bytes_eq(h, &INFO_5) {
        Some(ResponseKind::Info5)
    } else if bytes_eq(h, &INFO_6) {
        Some(ResponseKind::Info6)
    } else if bytes_eq(h, &INFO_6_DDPER) {
        Some(ResponseKind::Info6Ddper)
    } else if bytes_eq(h, &INFO_6_64) {
        Some(ResponseKind::Info664)
    } else if bytes_eq(h, &INFO_6_EX) {
        Some(ResponseKind::Info6Ex)
    } else if bytes_eq(h, &INFO_6_EX_MORE) {
        Some(ResponseKind::Info6ExMore)
    } else if bytes_eq(h, &COUNT) {
        Some(ResponseKind::Count)
    } else {
        None
    }
}

/// Tells which answer `data` is and reads what it carries.
pub fn parse_response<'a>(data: &'a [u8]) -> (r: Option<Response<'a>>)
    ensures
        response_of(data@, r),
{
    let kind = match kind_of(data) {
        Some(k) => k,
        None => {
            return None;
        },
    };
    let start: usize = match kind {
        ResponseKind::Token7 => 8,
        ResponseKind::List7 | ResponseKind::Info7 | ResponseKind::Count7 => 17,
        _ => 14,
    };
    let p = &data[start..data.len()];
    assert(p@ == data@.subrange(payload_start(kind), data@.len() as int));
    match kind {
        ResponseKind::Token7 => match parse_token7(p) {
            Some(t) => Some(Response::Token7(Token7Response(Token7([data[3], data[4], data[5], data[6]]), t))),
            None => None,
        },
        ResponseKind::List7 => Some(
            Response::List7(
                List7Response(
                    Token7([data[1], data[2], data[3], data[4]]),
                    Token7([data[5], data[6], data[7], data[8]]),
                    parse_list6(p),
                ),
            ),
        ),
        ResponseKind::Info7 => Some(
            Response::Info7(
                Info7Response(
                    Token7([data[1], data[2], data[3], data[4]]),
                    Token7([data[5], data[6], data[7], data[8]]),
                    p,
                ),
            ),
        ),
        ResponseKind::Count7 => match parse_count(p) {
            Some(c) => Some(
                Response::Count7(
                    Count7Response(
                        Token7([data[1], data[2], data[3], data[4]]),
                        Token7([data[5], data[6], data[7], data[8]]),
                        c,
                    ),
                ),
            ),
            None => None,
        },
        ResponseKind::List5 => Some(Response::List5(List5Response(parse_list5(p)))),
        ResponseKind::List6 => Some(Response::List6(List6Response(parse_list6(p)))),
        ResponseKind::Info5 => Some(Response::Info5(Info5Response(p))),
        ResponseKind::Info6 => Some(Response::Info6(Info6Response(p))),
        ResponseKind::Info6Ddper => Some(Response::Info6Ddper(Info6DdperResponse(p))),
        ResponseKind::Info664 => Some(Response::Info664(Info664Response(p))),
        ResponseKind::Info6Ex => Some(Response::Info6Ex(Info6ExResponse(p))),
        ResponseKind::Info6ExMore => Some(Response::Info6ExMore(Info6ExMoreResponse(p))),
        ResponseKind::Count => match parse_count(p) {
            Some(c) => Some(Response::Count(CountResponse(c))),
            None => None,
        },
    }
}

} // verus!
