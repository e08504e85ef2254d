//! Registering a game server with the master servers: the IP versions and
//! protocols it registers for, and the options it registers with.
use vstd::prelude::*;
use vstd::string::StringSliceAdditionalSpecFns;

verus! {

/// `a` and `b` hold the same bytes.
pub(crate) fn bytes_eq(a: &[u8], b: &[u8]) -> (r: bool)
    ensures
        r == (a@ == b@),
{
    if a.len() != b.len() {
        return false;
    }
    let mut i: usize = 0;
    while i < a.len()
        invariant
            i <= a@.len(),
            a@.len() == b@.len(),
            forall|j: int| 0 <= j < i ==> a@[j] == b@[j],
        decreases a.len() - i,
    {
        if a[i] != b[i] {
            return false;
        }
        i = i + 1;
    }
    proof {
        assert(a@ =~= b@);
    }
    true
}

/// The name `ipv4`.
pub open spec fn name_ipv4() -> Seq<u8> {
    seq![0x69u8, 0x70u8, 0x76u8, 0x34u8]
}

/// The name `ipv6`.
pub open spec fn name_ipv6() -> Seq<u8> {
    seq![0x69u8, 0x70u8, 0x76u8, 0x36u8]
}

/// An IP version a server registers for.
#[derive(Clone, Copy, Debug, PartialEq, Eq, Structural)]
pub enum IpVersion {
    V4,
    V6,
}

/// The string names no IP version.
#[derive(Clone, Copy, Debug, PartialEq, Eq, Structural)]
pub struct IpVersionFromStrError;

impl IpVersion {
    pub fn index(self) -> (r: usize)
        ensures
            r == (match self {
                IpVersion::V4 => 0usize,
                IpVersion::V6 => 1usize,
            }),
    {
        match self {
            IpVersion::V4 => 0,
            IpVersion::V6 => 1,
        }
    }

    /// The IP version named `ipv4` or `ipv6`.
    pub fn from_str(s: &str) -> (r: Result<IpVersion, IpVersionFromStrError>)
        ensures
            r == (if s.spec_bytes() == name_ipv4() {
                Ok(IpVersion::V4)
            } else if s.spec_bytes() == name_ipv6() {
                Ok(IpVersion::V6)
            } else {
                Err(IpVersionFromStrError)
            }),
    {
        let b = s.as_bytes();
        let v4: [u8; 4] = [0x69, 0x70, 0x76, 0x34];
        let v6: [u8; 4] = [0x69, 0x70, 0x76, 0x36];
        proof {
            assert(v4@ =~= name_ipv4());
            assert(v6@ =~= name_ipv6());
        }
        if bytes_eq(b, &v4) {
            Ok(IpVersion::V4)
        } else if bytes_eq(b, &v6) {
            Ok(IpVersion::V6)
        } else {
            Err(IpVersionFromStrError)
        }
    }
}

/// A protocol a server registers for.
#[derive(Clone, Copy, Debug, PartialEq, Eq, Structural)]
pub enum Protocol {
    Ipv4,
    Ipv6,
}

/// The string names no protocol.
#[derive(Clone, Copy, Debug, PartialEq, Eq, Structural)]
pub struct ProtocolFromStrError;

/// The bit of a protocol in a set of protocols.
pub open spec fn protocol_bit(p: Protocol) -> u8 {
    match p {
        Protocol::Ipv4 => 1u8,
        Protocol::Ipv6 => 2u8,
    }
}

/// The protocol the bytes `s` name, if any.
pub open spec fn protocol_named(s: Seq<u8>) -> Option<Protocol> {
    if s == name_ipv4() {
        Some(Protocol::Ipv4)
    } else if s == name_ipv6() {
        Some(Protocol::Ipv6)
    } else {
        None
    }
}

impl Protocol {
    pub fn index(self) -> (r: usize)
        ensures
            r == (match self {
                Protocol::Ipv4 => 0usize,
                Protocol::Ipv6 => 1usize,
            }),
    {
        match self {
            Protocol::Ipv4 => 0,
            Protocol::Ipv6 => 1,
        }
    }

    /// The protocol named by the bytes `b`.
    fn from_bytes(b: &[u8]) -> (r: Option<Protocol>)
        ensures
            r == protocol_named(b@),
    {
        let v4: [u8; 4] = [0x69, 0x70, 0x76, 0x34];
        let v6: [u8; 4] = [0x69, 0x70, 0x76, 0x36];
        proof {
            assert(v4@ =~= name_ipv4());
            assert(v6@ =~= name_ipv6());
        }
        if bytes_eq(b, &v4) {
            Some(Protocol::Ipv4)
        } else if bytes_eq(b, &v6) {
            Some(Protocol::Ipv6)
        } else {
            None
        }
    }

    /// The protocol named `ipv4` or `ipv6`.
    pub fn from_str(s: &str) -> (r: Result<Protocol, ProtocolFromStrError>)
        ensures
            r == (match protocol_named(s.spec_bytes()) {
                Some(p) => Ok(p),
                None => Err(ProtocolFromStrError),
            }),
    {
        match Protocol::from_bytes(s.as_bytes()) {
            Some(p) => Ok(p),
            None => Err(ProtocolFromStrError),
        }
    }
}

/// The bit facts behind `Protocols`, for two sets of bits `a` and `b`.
proof fn lemma_protocol_bits(a: u8, b: u8)
    by (bit_vector)
    ensures
        0u8 & 3u8 == 0u8,
        0u8 & 1u8 == 0u8,
        0u8 & 2u8 == 0u8,
        3u8 & 3u8 == 3u8,
        3u8 & 1u8 != 0u8,
        3u8 & 2u8 != 0u8,
        1u8 & 3u8 == 1u8,
        2u8 & 3u8 == 2u8,
        (a & 1u8 == 1u8) == (a & 1u8 != 0u8),
        (a & 2u8 == 2u8) == (a & 2u8 != 0u8),
        a & 3u8 == a && b & 3u8 == b ==> (a | b) & 3u8 == (a | b),
        ((a | b) & 1u8 != 0u8) == (a & 1u8 != 0u8 || b & 1u8 != 0u8),
        ((a | b) & 2u8 != 0u8) == (a & 2u8 != 0u8 || b & 2u8 != 0u8),
{
}

/// A set of protocols.
#[derive(Clone, Copy, Debug, PartialEq, Eq, Structural)]
pub struct Protocols(u8);

/// The string names no set of protocols; holds the part that names no
/// protocol.
#[derive(Clone, Debug)]
pub struct ProtocolsFromStrError(pub Vec<u8>);

impl Protocols {
    /// The bits of the protocols in the set.
    pub closed spec fn bits(self) -> u8 {
        self.0
    }

    /// The set holds the protocol.
    pub open spec fn has(self, p: Protocol) -> bool {
        self.bits() & protocol_bit(p) != 0
    }

    #[verifier::type_invariant]
    spec fn inv(self) -> bool {
        self.0 & 3u8 == self.0
    }

    pub fn none() -> (r: Protocols)
        ensures
            r.bits() == 0,
            !r.has(Protocol::Ipv4) && !r.has(Protocol::Ipv6),
    {
        proof {
            lemma_protocol_bits(0, 0);
        }
        Protocols(0)
    }

    pub fn all() -> (r: Protocols)
        ensures
            r.bits() == 3,
            r.has(Protocol::Ipv4) && r.has(Protocol::Ipv6),
    {
        proof {
            lemma_protocol_bits(3, 3);
        }
        Protocols(3)
    }

    /// The set holding just `protocol`.
    pub fn from_protocol(protocol: Protocol) -> (r: Protocols)
        ensures
            r.bits() == protocol_bit(protocol),
    {
        proof {
            lemma_protocol_bits(1, 2);
        }
        match protocol {
            Protocol::Ipv4 => Protocols(1),
            Protocol::Ipv6 => Protocols(2),
        }
    }

    pub fn contains(self, protocol: Protocol) -> (r: bool)
        ensures
            r == self.has(protocol),
    {
        let bit = Protocols::from_protocol(protocol).0;
        let b = self.0;
        proof {
            assert(bit == 1u8 || bit == 2u8);
            lemma_protocol_bits(b, b);
        }
        self.0 & bit == bit
    }

    /// The union of two sets.
    pub fn union(self, other: Protocols) -> (r: Protocols)
        ensures
            r.bits() == self.bits() | other.bits(),
            forall|p: Protocol| r.has(p) <==> self.has(p) || other.has(p),
    {
        proof {
            use_type_invariant(self);
            use_type_invariant(other);
        }
        let a = self.0;
        let b = other.0;
        proof {
            lemma_protocol_bits(a, b);
        }
        Protocols(a | b)
    }
}

/// The name `none`.
pub open spec fn name_none() -> Seq<u8> {
    seq![0x6eu8, 0x6fu8, 0x6eu8, 0x65u8]
}

/// The name `all`.
pub open spec fn name_all() -> Seq<u8> {
    seq![0x61u8, 0x6cu8, 0x6cu8]
}

/// Index of the first comma in `s` at or after `start`, or `s.len()`.
pub open spec fn next_comma(s: Seq<u8>, start: int) -> int
    decreases s.len() - start,
{
    if start >= s.len() {
        s.len() as int
    } else if s[start] == 0x2c {
        start
    } else {
        next_comma(s, start + 1)
    }
}

/// Reading the comma-separated protocols of `s` from `start` on, the
/// protocols read so far being `acc`: the set, or the first part that names
/// no protocol.
pub open spec fn parse_protocols(s: Seq<u8>, start: int, acc: u8) -> Result<u8, Seq<u8>>
    decreases s.len() - start,
{
    if !(0 <= start <= s.len()) {
        Err(Seq::empty())
    } else {
        let end = next_comma(s, start);
        let part = s.subrange(start, end);
        match protocol_named(part) {
            None => Err(part),
            Some(p) => if end >= s.len() {
                Ok(acc | protocol_bit(p))
            } else {
                proof {
                    lemma_next_comma(s, start);
                }
                parse_protocols(s, end + 1, acc | protocol_bit(p))
            },
        }
    }
}

/// The next comma lies at or after `start`, with none before it.
pub proof fn lemma_next_comma(s: Seq<u8>, start: int)
    requires
        0 <= start <= s.len(),
    ensures
        start <= next_comma(s, start) <= s.len(),
        next_comma(s, start) < s.len() ==> s[next_comma(s, start)] == 0x2c,
        forall|j: int| start <= j < next_comma(s, start) ==> s[j] != 0x2c,
    decreases s.len() - start,
{
    if start < s.len() && s[start] != 0x2c {
        lemma_next_comma(s, start + 1);
    }
}

/// The set of protocols `s` names: `none`, `all`, or protocols separated by
/// commas.
pub fn protocols_from_str(s: &str) -> (r: Result<Protocols, ProtocolsFromStrError>)
    ensures
        s.spec_bytes() == name_none() ==> (r matches Ok(p) && p.bits() == 0),
        s.spec_bytes() == name_all() ==> (r matches Ok(p) && p.bits() == 3),
        s.spec_bytes() != name_none() && s.spec_bytes() != name_all() ==> match parse_protocols(
            s.spec_bytes(),
            0,
            0,
        ) {
            Ok(bits) => (r matches Ok(p) && p.bits() == bits),
            Err(part) => (r matches Err(e) && e.0@ == part),
        },
{
    let b = s.as_bytes();
    let none: [u8; 4] = [0x6e, 0x6f, 0x6e, 0x65];
    let all: [u8; 3] = [0x61, 0x6c, 0x6c];
    proof {
        assert(none@ =~= name_none());
        assert(all@ =~= name_all());
    }
    if bytes_eq(b, &none) {
        return Ok(Protocols::none());
    }
    if bytes_eq(b, &all) {
        return Ok(Protocols::all());
    }
    let mut result = Protocols::none();
    let mut start: usize = 0;
    loop
        invariant
            start <= b@.len(),
            b@ == s.spec_bytes(),
            b@ != name_none() && b@ != name_all(),
            parse_protocols(b@, 0, 0) == parse_protocols(b@, start as int, result.bits()),
        decreases b@.len() - start,
    {
        let mut end = start;
        while end < b.len() && b[end] != 0x2c
            invariant
                start <= end <= b@.len(),
                next_comma(b@, start as int) == next_comma(b@, end as int),
            decreases b@.len() - end,
        {
            end = end + 1;
        }
        let part = &b[start..end];
        match Protocol::from_bytes(part) {
            Some(p) => {
                result = result.union(Protocols::from_protocol(p));
                if end >= b.len() {
                    return Ok(result);
                }
                start = end + 1;
            },
            None => {
                let mut v: Vec<u8> = Vec::new();
                let mut i: usize = 0;
                while i < part.len()
                    invariant
                        i <= part@.len(),
                        v@ == part@.subrange(0, i as int),
                    decreases part.len() - i,
                {
                    v.push(part[i]);
                    i = i + 1;
                    proof {
                        assert(v@ =~= part@.subrange(0, i as int));
                    }
                }
                proof {
                    assert(part@.subrange(0, part@.len() as int) =~= part@);
                }
                return Err(ProtocolsFromStrError(v));
            },
        }
    }
}

/// Options for registering a server; each may be set once.
#[derive(Clone, Debug)]
pub struct RegisterBuilder {
    require_external_heartbeats: bool,
    register_url: Option<String>,
    user_agent: Option<String>,
    community_token: Option<String>,
}

impl RegisterBuilder {
    pub closed spec fn spec_require_external_heartbeats(self) -> bool {
        self.require_external_heartbeats
    }

    pub closed spec fn spec_register_url(self) -> Option<String> {
        self.register_url
    }

    pub closed spec fn spec_user_agent(self) -> Option<String> {
        self.user_agent
    }

    pub closed spec fn spec_community_token(self) -> Option<String> {
        self.community_token
    }

    /// No option set.
    pub fn new() -> (r: RegisterBuilder)
        ensures
            !r.spec_require_external_heartbeats(),
            r.spec_register_url() is None,
            r.spec_user_agent() is None,
            r.spec_community_token() is None,
    {
        RegisterBuilder {
            require_external_heartbeats: false,
            register_url: None,
            user_agent: None,
            community_token: None,
        }
    }

    /// Heartbeats are sent from outside instead of periodically.
    pub fn require_external_heartbeats(self) -> (r: RegisterBuilder)
        requires
            !self.spec_require_external_heartbeats(),
        ensures
            r.spec_require_external_heartbeats(),
            r.spec_register_url() == self.spec_register_url(),
            r.spec_user_agent() == self.spec_user_agent(),
            r.spec_community_token() == self.spec_community_token(),
    {
        let mut s = self;
        s.require_external_heartbeats = true;
        s
    }

    pub fn register_url(self, register_url: String) -> (r: RegisterBuilder)
        requires
            self.spec_register_url() is None,
        ensures
            r.spec_register_url() == Some(register_url),
            r.spec_require_external_heartbeats() == self.spec_require_external_heartbeats(),
            r.spec_user_agent() == self.spec_user_agent(),
            r.spec_community_token() == self.spec_community_token(),
    {
        let mut s = self;
        s.register_url = Some(register_url);
        s
    }

    pub fn user_agent(self, user_agent: String) -> (r: RegisterBuilder)
        requires
            self.spec_user_agent() is None,
        ensures
            r.spec_user_agent() == Some(user_agent),
            r.spec_require_external_heartbeats() == self.spec_require_external_heartbeats(),
            r.spec_register_url() == self.spec_register_url(),
            r.spec_community_token() == self.spec_community_token(),
    {
        let mut s = self;
        s.user_agent = Some(user_agent);
        s
    }

    pub fn community_token(self, community_token: String) -> (r: RegisterBuilder)
        requires
            self.spec_community_token() is None,
        ensures
            r.spec_community_token() == Some(community_token),
            r.spec_require_external_heartbeats() == self.spec_require_external_heartbeats(),
            r.spec_register_url() == self.spec_register_url(),
            r.spec_user_agent() == self.spec_user_agent(),
    {
        let mut s = self;
        s.community_token = Some(community_token);
        s
    }
}

} // verus!
