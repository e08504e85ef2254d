//! Asking a game server for its info: the answers that come back, one
//! after another, are put together until the info is complete.
use vstd::prelude::*;
use crate::serverbrowse::{REQUEST_INFO_6_EX, ServerInfoVersion, request_info_6_ex};
use crate::serverbrowse_info::{
    InfoOutcome, InfoParse, PartialServerInfo, PartialServerInfoView, ReceivedServerInfoVersion,
    ServerInfo, complete, merge_result, parse_info, parse_server_info, sorted_from,
};
use crate::serverbrowse_response::{Response, ResponseKind, parse_response, response_kind};

verus! {

/// What to do after an answer.
pub enum InfoStep {
    /// The info is complete.
    Done(ServerInfo),
    /// Wait for more answers.
    Wait,
}

/// The parts of an info received so far.
pub struct InfoRequest {
    partial: Option<PartialServerInfo>,
}

/// The parts of an info received so far, as a value.
pub open spec fn opt_partial_view(p: Option<PartialServerInfo>) -> Option<PartialServerInfoView> {
    match p {
        Some(p) => Some(p@),
        None => None,
    }
}

impl View for InfoRequest {
    type V = Option<PartialServerInfoView>;

    closed spec fn view(&self) -> Option<PartialServerInfoView> {
        opt_partial_view(self.partial)
    }
}

/// The payload of a 0.6 answer.
pub open spec fn payload(data: Seq<u8>) -> Seq<u8> {
    data.subrange(14, data.len() as int)
}

/// How an answer of kind `k` is read as a part of an info, if it is one.
pub open spec fn part_version(k: Option<ResponseKind>) -> Option<ReceivedServerInfoVersion> {
    match k {
        Some(ResponseKind::Info6Ex) => Some(ReceivedServerInfoVersion::Normal(ServerInfoVersion::V6Ex)),
        Some(ResponseKind::Info6ExMore) => Some(ReceivedServerInfoVersion::V6ExMore),
        _ => None,
    }
}

/// The parts received so far with the part `new` added, and whether that
/// was refused.
pub open spec fn with_part(p: Option<PartialServerInfoView>, new: PartialServerInfoView) -> (
    bool,
    PartialServerInfoView,
) {
    match p {
        Some(s) => (merge_result(s, new).0 is Ok, merge_result(s, new).1),
        None => (true, new),
    }
}

/// Whether handling the answer `data` in state `p` runs past what the
/// formats count: a part or player number too large, or more players than
/// fit an `i32`.
pub open spec fn step_overflows(p: Option<PartialServerInfoView>, data: Seq<u8>) -> bool {
    let k = response_kind(data);
    if k == Some(ResponseKind::Info6) {
        parse_info(payload(data), ReceivedServerInfoVersion::Normal(ServerInfoVersion::V6)) is Overflow
    } else {
        match part_version(k) {
            Some(rv) => match parse_info(payload(data), rv) {
                InfoParse::Overflow => true,
                InfoParse::Parsed(new) => {
                    let (ok, m) = with_part(p, new);
                    ok && m.info.clients.len() > i32::MAX
                },
                InfoParse::Fail => false,
            },
            None => false,
        }
    }
}

/// `r` and `q` are what handling the answer `data` in state `p` gives:
/// a complete 0.6 info ends the request; extended 0.6 parts are put
/// together, and once all players are there the info ends it; anything
/// else, or a part that is malformed or does not fit, is passed over.
pub open spec fn packet_step(
    p: Option<PartialServerInfoView>,
    data: Seq<u8>,
    r: InfoStep,
    q: Option<PartialServerInfoView>,
) -> bool {
    let k = response_kind(data);
    if k == Some(ResponseKind::Info6) {
        &&& q == p
        &&& match parse_info(payload(data), ReceivedServerInfoVersion::Normal(ServerInfoVersion::V6)) {
            InfoParse::Parsed(x) => r matches InfoStep::Done(i) && sorted_from(i@, x.info),
            _ => r is Wait,
        }
    } else {
        match part_version(k) {
            Some(rv) => match parse_info(payload(data), rv) {
                InfoParse::Parsed(new) => {
                    let (ok, m) = with_part(p, new);
                    if !ok {
                        r is Wait && q == p
                    } else if complete(m) {
                        &&& r matches InfoStep::Done(i) && sorted_from(i@, m.info)
                        &&& q == Some(
                            PartialServerInfoView {
                                info: crate::serverbrowse_info::empty_info(),
                                received: u64::MAX,
                            },
                        )
                    } else {
                        r is Wait && q == Some(m)
                    }
                },
                _ => r is Wait && q == p,
            },
            None => r is Wait && q == p,
        }
    }
}

impl InfoRequest {
    /// No part received yet.
    pub fn new() -> (r: InfoRequest)
        ensures
            r@ is None,
    {
        InfoRequest { partial: None }
    }

    /// The request to send: an extended 0.6 info request with challenge 0.
    pub fn request(&self) -> (r: [u8; 15])
        ensures
            r@ == REQUEST_INFO_6_EX@.push(0),
    {
        assert(0u32 & 0x00ff_ffff == 0 && (0u32 & 0x00ff_0000) >> 16 == 0 && (0u32 & 0x0000_ff00) >> 8 == 0
            && 0u32 & 0x0000_00ff == 0) by (bit_vector);
        let r = request_info_6_ex(0);
        proof {
            assert(REQUEST_INFO_6_EX@[2] == 0 && REQUEST_INFO_6_EX@[3] == 0);
            assert(r@ =~= REQUEST_INFO_6_EX@.push(0));
        }
        r
    }

    /// Handles the answer `data` from the server. A complete 0.6 info ends
    /// the request; extended 0.6 parts are put together, and once all
    /// players are there the info ends it. Anything else, or a part that
    /// is malformed or does not fit, is passed over.
    pub fn on_packet(&mut self, data: &[u8]) -> (r: InfoStep)
        requires
            !step_overflows(old(self)@, data@),
        ensures
            packet_step(old(self)@, data@, r, final(self)@),
    {
        let response = parse_response(data);
        proof {
            let k = response_kind(data@);
            if k is Some {
                assert(data@.subrange(crate::serverbrowse_response::payload_start(k->0), data@.len() as int)
                    == payload(data@) || k == Some(ResponseKind::Token7) || k == Some(ResponseKind::List7)
                    || k == Some(ResponseKind::Info7) || k == Some(ResponseKind::Count7));
            }
        }
        let new = match response {
            Some(Response::Info6(info)) => {
                return match info.parse() {
                    Some(i) => InfoStep::Done(i),
                    None => InfoStep::Wait,
                };
            },
            Some(Response::Info6Ex(part)) => match part.parse() {
                Some(n) => n,
                None => {
                    return InfoStep::Wait;
                },
            },
            Some(Response::Info6ExMore(part)) => match part.parse() {
                Some(n) => n,
                None => {
                    return InfoStep::Wait;
                },
            },
            _ => {
                return InfoStep::Wait;
            },
        };
        let mut partial = match self.partial.take() {
            Some(mut s) => {
                let ghost before = s@;
                match s.merge(new) {
                    Ok(()) => s,
                    Err(_) => {
                        self.partial = Some(s);
                        return InfoStep::Wait;
                    },
                }
            },
            None => new,
        };
        let r = match partial.take_info() {
            Some(info) => InfoStep::Done(info),
            None => InfoStep::Wait,
        };
        self.partial = Some(partial);
        r
    }

    /// Whether reading the part `payload`, of version `rv`, and adding it to
    /// the parts received so far runs past what the formats count.
    fn part_overflows(&self, payload: &[u8], rv: ReceivedServerInfoVersion) -> (r: bool)
        ensures
            r == match parse_info(payload@, rv) {
                InfoParse::Overflow => true,
                InfoParse::Parsed(new) => {
                    let (ok, m) = with_part(self@, new);
                    ok && m.info.clients.len() > i32::MAX
                },
                InfoParse::Fail => false,
            },
    {
        match parse_server_info(payload, rv) {
            InfoOutcome::Overflow => true,
            InfoOutcome::Fail => false,
            InfoOutcome::Parsed(new) => match &self.partial {
                None => new.clients_len() > i32::MAX as usize,
                Some(s) => s.merge_exceeds(&new, i32::MAX as usize),
            },
        }
    }

    /// Whether handling the answer `data` runs past what the formats count,
    /// where `on_packet` cannot take it.
    pub fn step_overflows(&self, data: &[u8]) -> (r: bool)
        ensures
            r == step_overflows(self@, data@),
    {
        let response = parse_response(data);
        proof {
            let k = response_kind(data@);
            if k is Some {
                assert(data@.subrange(crate::serverbrowse_response::payload_start(k->0), data@.len() as int)
                    == payload(data@) || k == Some(ResponseKind::Token7) || k == Some(ResponseKind::List7)
                    || k == Some(ResponseKind::Info7) || k == Some(ResponseKind::Count7));
            }
        }
        match response {
            Some(Response::Info6(info)) => match parse_server_info(
                info.0,
                ReceivedServerInfoVersion::Normal(ServerInfoVersion::V6),
            ) {
                InfoOutcome::Overflow => true,
                _ => false,
            },
            Some(Response::Info6Ex(part)) => self.part_overflows(
                part.0,
                ReceivedServerInfoVersion::Normal(ServerInfoVersion::V6Ex),
            ),
            Some(Response::Info6ExMore(part)) => self.part_overflows(part.0, ReceivedServerInfoVersion::V6ExMore),
            _ => false,
        }
    }

    /// Handles the answer `data` as `on_packet` does; nothing, and the parts
    /// unchanged, where that runs past what the formats count.
    pub fn on_packet_checked(&mut self, data: &[u8]) -> (r: Option<InfoStep>)
        ensures
            (r is None) == step_overflows(old(self)@, data@),
            r is None ==> final(self)@ == old(self)@,
            r matches Some(x) ==> packet_step(old(self)@, data@, x, final(self)@),
    {
        if self.step_overflows(data) {
            None
        } else {
            Some(self.on_packet(data))
        }
    }
}

} // verus!
