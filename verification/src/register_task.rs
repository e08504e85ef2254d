//! The decisions of registering a server with the master servers: what to
//! send, what an answer means, when to register next. Times are in
//! milliseconds; the HTTP calls and the waiting are done by the caller.
use vstd::prelude::*;
use crate::packer::{Unpacker, extend_bytes};
use crate::register::{IpVersion, bytes_eq, name_ipv4, name_ipv6};
use crate::serverbrowse_info::{is_utf8, read_text};

verus! {

/// Time between two registrations while heartbeats are not external.
pub const INTERVAL_HEARTBEAT: u64 = 15000;

/// Least time between a registration and the one that a change of the
/// info brings forward.
pub const INTERVAL_INFO_CHANGE: u64 = 1000;

/// Time to wait for a registration once the needed token arrived.
pub const INTERVAL_TOKEN_REQUIRED: u64 = 0;

/// What a master server answers a registration.
#[derive(Clone, Debug, PartialEq, Eq)]
pub enum RegisterResult {
    Success,
    NeedChallenge,
    NeedInfo,
    Error(Vec<u8>),
}

/// The server info being registered, with its serial number and the
/// serial number of the last info a master accepted.
pub struct RegisterData {
    pub info_serial: u64,
    pub info: Vec<u8>,
    pub last_successful_info_serial: Option<u64>,
}

impl RegisterData {
    /// Info number 0, nothing accepted yet.
    pub fn new(info: Vec<u8>) -> (r: RegisterData)
        ensures
            r.info_serial == 0,
            r.info@ == info@,
            r.last_successful_info_serial is None,
    {
        RegisterData { info_serial: 0, info, last_successful_info_serial: None }
    }

    /// A master accepted info `info_serial`: remember it, unless an info
    /// accepted before is as new, or none was accepted since the info
    /// changed.
    pub fn on_success(&mut self, info_serial: u64)
        ensures
            final(self).info_serial == old(self).info_serial,
            final(self).info@ == old(self).info@,
            final(self).last_successful_info_serial == (match old(self).last_successful_info_serial {
                Some(s) if s < info_serial => Some(info_serial),
                other => other,
            }),
    {
        match self.last_successful_info_serial {
            None => {
                return;
            },
            Some(serial) => {
                if serial >= info_serial {
                    return;
                }
            },
        }
        self.last_successful_info_serial = Some(info_serial);
    }

    /// A master wants info `info_serial` again: forget that it was
    /// accepted, where it is the one remembered.
    pub fn on_need_info(&mut self, info_serial: u64)
        ensures
            final(self).info_serial == old(self).info_serial,
            final(self).info@ == old(self).info@,
            final(self).last_successful_info_serial == (if old(self).last_successful_info_serial == Some(
                info_serial,
            ) {
                None
            } else {
                old(self).last_successful_info_serial
            }),
    {
        if self.last_successful_info_serial != Some(info_serial) {
            return;
        }
        self.last_successful_info_serial = None;
    }

    /// The info to send along: none where the current one was accepted.
    pub fn info_to_send(&self) -> (r: Option<&[u8]>)
        ensures
            self.last_successful_info_serial == Some(self.info_serial) ==> r is None,
            self.last_successful_info_serial != Some(self.info_serial) ==> (r matches Some(i) && i@
                == self.info@),
    {
        if self.last_successful_info_serial == Some(self.info_serial) {
            None
        } else {
            Some(self.info.as_slice())
        }
    }

    /// The server has a new info: where it differs, it gets the next
    /// serial number. Returns whether it differs.
    pub fn on_new_info(&mut self, info: &[u8]) -> (changed: bool)
        requires
            old(self).info_serial < u64::MAX,
        ensures
            changed == (info@ != old(self).info@),
            changed ==> final(self).info_serial == old(self).info_serial + 1 && final(self).info@ == info@,
            !changed ==> final(self).info_serial == old(self).info_serial && final(self).info@ == old(
                self,
            ).info@,
            final(self).last_successful_info_serial == old(self).last_successful_info_serial,
    {
        if bytes_eq(self.info.as_slice(), info) {
            return false;
        }
        self.info_serial = self.info_serial + 1;
        let mut copy: Vec<u8> = Vec::new();
        extend_bytes(&mut copy, info);
        self.info = copy;
        true
    }
}

/// The registration state for one IP version: the token of the master,
/// the last answer, when the last registration started and when the next
/// is due (`None`: none planned until told).
pub struct RegisterTaskData {
    pub token: Option<Vec<u8>>,
    pub prev_result: Option<RegisterResult>,
    pub prev_register: u64,
    pub next_register: Option<u64>,
}

/// An optional byte string as a value.
pub open spec fn opt_bytes(t: Option<Vec<u8>>) -> Option<Seq<u8>> {
    match t {
        Some(t) => Some(t@),
        None => None,
    }
}

/// The next registration as `set_next_register(next)` leaves it: moved to
/// `next` unless one is planned no later.
pub open spec fn earlier_register(old: Option<u64>, next: u64) -> Option<u64> {
    match old {
        Some(o) if o <= next => old,
        _ => Some(next),
    }
}

impl RegisterTaskData {
    /// No token, no answer yet; the next registration after `period`, if
    /// heartbeats are not external.
    pub fn new(now: u64, period: Option<u64>) -> (r: RegisterTaskData)
        requires
            period matches Some(p) ==> now + p <= u64::MAX,
        ensures
            opt_bytes(r.token) is None,
            r.prev_result is None,
            r.prev_register == now,
            r.next_register == (match period {
                Some(p) => Some((now + p) as u64),
                None => None,
            }),
    {
        RegisterTaskData {
            token: None,
            prev_result: None,
            prev_register: now,
            next_register: match period {
                Some(p) => Some(now + p),
                None => None,
            },
        }
    }

    /// Plans the next registration for `next`, unless one is planned no
    /// later. Returns whether the plan changed, and the waiting must be
    /// woken.
    pub fn set_next_register(&mut self, next: u64) -> (changed: bool)
        ensures
            final(self).next_register == earlier_register(old(self).next_register, next),
            changed == (old(self).next_register != final(self).next_register || old(self).next_register is None),
            opt_bytes(final(self).token) == opt_bytes(old(self).token),
            final(self).prev_result == old(self).prev_result,
            final(self).prev_register == old(self).prev_register,
    {
        if let Some(o) = self.next_register {
            if o <= next {
                return false;
            }
        }
        self.next_register = Some(next);
        true
    }

    /// Plans the next registration `wait` after the last one started.
    pub fn set_wait_time(&mut self, wait: u64) -> (changed: bool)
        requires
            old(self).prev_register + wait <= u64::MAX,
        ensures
            final(self).next_register == earlier_register(
                old(self).next_register,
                (old(self).prev_register + wait) as u64,
            ),
            changed == (old(self).next_register != final(self).next_register || old(self).next_register is None),
            opt_bytes(final(self).token) == opt_bytes(old(self).token),
            final(self).prev_result == old(self).prev_result,
            final(self).prev_register == old(self).prev_register,
    {
        let next = self.prev_register + wait;
        self.set_next_register(next)
    }

    /// A registration starts at `now`: the next one is due after
    /// `period`, if heartbeats are not external.
    pub fn start_register(&mut self, now: u64, period: Option<u64>)
        requires
            period matches Some(p) ==> now + p <= u64::MAX,
        ensures
            final(self).prev_register == now,
            final(self).next_register == (match period {
                Some(p) => Some((now + p) as u64),
                None => None,
            }),
            opt_bytes(final(self).token) == opt_bytes(old(self).token),
            final(self).prev_result == old(self).prev_result,
    {
        self.prev_register = now;
        self.next_register = match period {
            Some(p) => Some(now + p),
            None => None,
        };
    }

    /// The master sent the token `token`: where it is new, keep it, and
    /// where the last answer asked for it, register again right away.
    /// Returns whether the plan changed.
    pub fn on_token(&mut self, token: &[u8]) -> (changed: bool)
        requires
            old(self).prev_register + INTERVAL_TOKEN_REQUIRED <= u64::MAX,
        ensures
            opt_bytes(final(self).token) == Some(token@),
            final(self).prev_result == old(self).prev_result,
            final(self).prev_register == old(self).prev_register,
            ({
                let new_token = opt_bytes(old(self).token) != Some(token@);
                if new_token && old(self).prev_result == Some(RegisterResult::NeedChallenge) {
                    &&& final(self).next_register == earlier_register(
                        old(self).next_register,
                        (old(self).prev_register + INTERVAL_TOKEN_REQUIRED) as u64,
                    )
                    &&& changed == (old(self).next_register != final(self).next_register
                        || old(self).next_register is None)
                } else {
                    final(self).next_register == old(self).next_register && !changed
                }
            }),
    {
        let same = match &self.token {
            Some(t) => bytes_eq(t.as_slice(), token),
            None => false,
        };
        if same {
            return false;
        }
        let mut copy: Vec<u8> = Vec::new();
        extend_bytes(&mut copy, token);
        self.token = Some(copy);
        let need_challenge = match &self.prev_result {
            Some(RegisterResult::NeedChallenge) => true,
            _ => false,
        };
        if need_challenge {
            self.set_wait_time(INTERVAL_TOKEN_REQUIRED)
        } else {
            false
        }
    }

    /// A heartbeat: register again, one heartbeat interval after the last
    /// registration at the latest.
    pub fn on_heartbeat(&mut self) -> (changed: bool)
        requires
            old(self).prev_register + INTERVAL_HEARTBEAT <= u64::MAX,
        ensures
            final(self).next_register == earlier_register(
                old(self).next_register,
                (old(self).prev_register + INTERVAL_HEARTBEAT) as u64,
            ),
            changed == (old(self).next_register != final(self).next_register || old(self).next_register is None),
            opt_bytes(final(self).token) == opt_bytes(old(self).token),
            final(self).prev_result == old(self).prev_result,
    {
        self.set_wait_time(INTERVAL_HEARTBEAT)
    }

    /// The registration that started with token `prev_token` for info
    /// `prev_info_serial` got the answer `result`: keep it and note in
    /// `data` what it says of the info. Returns whether to register again
    /// right away: the master asked for a token and a new one came
    /// meanwhile.
    pub fn on_result(
        &mut self,
        data: &mut RegisterData,
        prev_token: Option<Vec<u8>>,
        prev_info_serial: u64,
        result: RegisterResult,
    ) -> (again: bool)
        ensures
            final(self).prev_result == Some(result),
            opt_bytes(final(self).token) == opt_bytes(old(self).token),
            final(self).prev_register == old(self).prev_register,
            final(self).next_register == old(self).next_register,
            final(data).info_serial == old(data).info_serial,
            final(data).info@ == old(data).info@,
            final(data).last_successful_info_serial == (match result {
                RegisterResult::Success => match old(data).last_successful_info_serial {
                    Some(s) if s < prev_info_serial => Some(prev_info_serial),
                    other => other,
                },
                RegisterResult::NeedInfo => if old(data).last_successful_info_serial == Some(
                    prev_info_serial,
                ) {
                    None
                } else {
                    old(data).last_successful_info_serial
                },
                _ => old(data).last_successful_info_serial,
            }),
            again == (result == RegisterResult::NeedChallenge && opt_bytes(prev_token) != opt_bytes(
                old(self).token,
            )),
    {
        let again = match &result {
            RegisterResult::Success => {
                data.on_success(prev_info_serial);
                false
            },
            RegisterResult::NeedInfo => {
                data.on_need_info(prev_info_serial);
                false
            },
            RegisterResult::NeedChallenge => {
                let same = match (&prev_token, &self.token) {
                    (Some(a), Some(b)) => bytes_eq(a.as_slice(), b.as_slice()),
                    (None, None) => true,
                    _ => false,
                };
                !same
            },
            RegisterResult::Error(_) => false,
        };
        self.prev_result = Some(result);
        again
    }
}

/// `k` is the position of the registration planned latest, the last of
/// several; 0 where none is planned.
pub open spec fn latest_planned(next: Seq<Option<u64>>, k: int) -> bool {
    if forall|i: int| 0 <= i < next.len() ==> next[i] is None {
        k == 0
    } else {
        &&& 0 <= k < next.len()
        &&& next[k] matches Some(n) && (forall|i: int|
            0 <= i < next.len() ==> (#[trigger] next[i] matches Some(m) ==> m <= n)) && (forall|i: int|
            k < i < next.len() ==> (#[trigger] next[i] matches Some(m) ==> m < n))
    }
}

/// The planned registrations of `tasks`.
pub open spec fn next_registers(tasks: Seq<RegisterTaskData>) -> Seq<Option<u64>> {
    tasks.map_values(|t: RegisterTaskData| t.next_register)
}

/// The position of the registration planned latest, the last of several;
/// 0 where none is planned.
pub fn expedite_position(next: &[Option<u64>]) -> (r: usize)
    ensures
        latest_planned(next@, r as int),
{
    let mut best: Option<(usize, u64)> = None;
    let mut i: usize = 0;
    while i < next.len()
        invariant
            i <= next@.len(),
            best is None ==> forall|k: int| 0 <= k < i ==> next@[k] is None,
            best matches Some((b, n)) ==> {
                &&& b < i
                &&& next@[b as int] == Some(n)
                &&& forall|k: int| 0 <= k < i ==> (#[trigger] next@[k] matches Some(m) ==> m <= n)
                &&& forall|k: int| b < k < i ==> (#[trigger] next@[k] matches Some(m) ==> m < n)
            },
        decreases next.len() - i,
    {
        if let Some(n) = next[i] {
            match best {
                Some((_, m)) => {
                    if n >= m {
                        best = Some((i, n));
                    }
                },
                None => {
                    best = Some((i, n));
                },
            }
        }
        i = i + 1;
    }
    match best {
        Some((b, _)) => b,
        None => 0,
    }
}

/// The token in a challenge packet from a master: after `prefix`, the IP
/// version the token is for and the token, both NUL-terminated UTF-8.
pub enum Challenge<'a> {
    /// The packet does not start with `prefix`.
    NotChallenge,
    /// It does, but what follows is not an IP version and a token.
    Invalid,
    /// The IP version and the token.
    Token(IpVersion, &'a [u8]),
}

/// Reads a challenge packet `data` that starts with `prefix`.
pub fn parse_challenge<'a>(prefix: &[u8], data: &'a [u8]) -> (r: Challenge<'a>)
    ensures
        !(data@.len() >= prefix@.len() && data@.subrange(0, prefix@.len() as int) == prefix@) ==> r is NotChallenge,
        data@.len() >= prefix@.len() && data@.subrange(0, prefix@.len() as int) == prefix@ ==> {
            let payload = data@.subrange(prefix@.len() as int, data@.len() as int);
            match read_text(payload) {
                Some((v, rest)) => match read_text(rest) {
                    Some((t, _)) => if v == name_ipv4() {
                        r matches Challenge::Token(IpVersion::V4, x) && x@ == t
                    } else if v == name_ipv6() {
                        r matches Challenge::Token(IpVersion::V6, x) && x@ == t
                    } else {
                        r is Invalid
                    },
                    None => r is Invalid,
                },
                None => r is Invalid,
            }
        },
{
    if data.len() < prefix.len() || !bytes_eq(&data[0..prefix.len()], prefix) {
        return Challenge::NotChallenge;
    }
    let payload = &data[prefix.len()..data.len()];
    let mut unpacker = Unpacker::new(payload);
    let version = match unpacker.read_string() {
        Ok(s) => if is_utf8(s) {
            Some(s)
        } else {
            None
        },
        Err(_) => None,
    };
    let token = match unpacker.read_string() {
        Ok(s) => if is_utf8(s) {
            Some(s)
        } else {
            None
        },
        Err(_) => None,
    };
    match (version, token) {
        (Some(v), Some(t)) => {
            let v4: [u8; 4] = [0x69, 0x70, 0x76, 0x34];
            let v6: [u8; 4] = [0x69, 0x70, 0x76, 0x36];
            proof {
                assert(v4@ =~= name_ipv4());
                assert(v6@ =~= name_ipv6());
            }
            if bytes_eq(v, &v4) {
                Challenge::Token(IpVersion::V4, t)
            } else if bytes_eq(v, &v6) {
                Challenge::Token(IpVersion::V6, t)
            } else {
                Challenge::Invalid
            }
        },
        _ => Challenge::Invalid,
    }
}

/// The earliest start of the last registrations of `tasks`.
pub open spec fn earliest_prev_register(tasks: Seq<RegisterTaskData>) -> int
    decreases tasks.len(),
{
    if tasks.len() <= 1 {
        tasks[0].prev_register as int
    } else {
        let rest = earliest_prev_register(tasks.drop_last());
        let last = tasks.last().prev_register as int;
        if last < rest {
            last
        } else {
            rest
        }
    }
}

/// The server has a new info `info`. Where it differs, the registration
/// planned latest (or the first, where none is planned) is brought forward
/// to one interval after the earliest start of the last registrations.
/// Returns the registration whose plan changed.
pub fn on_new_info(data: &mut RegisterData, tasks: &mut Vec<RegisterTaskData>, info: &[u8]) -> (r: Option<usize>)
    requires
        old(tasks)@.len() > 0,
        old(data).info_serial < u64::MAX,
        earliest_prev_register(old(tasks)@) + INTERVAL_INFO_CHANGE <= u64::MAX,
    ensures
        final(tasks)@.len() == old(tasks)@.len(),
        final(data).last_successful_info_serial == old(data).last_successful_info_serial,
        info@ == old(data).info@ ==> final(data).info_serial == old(data).info_serial && final(tasks)@
            == old(tasks)@ && r is None,
        info@ != old(data).info@ ==> {
            &&& final(data).info_serial == old(data).info_serial + 1
            &&& final(data).info@ == info@
            &&& exists|k: int| {
                &&& latest_planned(next_registers(old(tasks)@), k)
                &&& (forall|j: int| 0 <= j < old(tasks)@.len() && j != k ==> final(tasks)@[j] == old(tasks)@[j])
                &&& final(tasks)@[k].next_register == earlier_register(
                    old(tasks)@[k].next_register,
                    (earliest_prev_register(old(tasks)@) + INTERVAL_INFO_CHANGE) as u64,
                )
                &&& final(tasks)@[k].prev_register == old(tasks)@[k].prev_register
                &&& (r is Some ==> r == Some(k as usize))
            }
        },
{
    if !data.on_new_info(info) {
        return None;
    }
    let mut next: Vec<Option<u64>> = Vec::new();
    let mut earliest: u64 = tasks[0].prev_register;
    let mut i: usize = 0;
    while i < tasks.len()
        invariant
            i <= tasks@.len(),
            tasks@.len() > 0,
            next@.len() == i,
            forall|k: int| 0 <= k < i ==> next@[k] == tasks@[k].next_register,
            i == 0 ==> earliest == tasks@[0].prev_register,
            i > 0 ==> earliest == earliest_prev_register(tasks@.subrange(0, i as int)),
        decreases tasks.len() - i,
    {
        next.push(tasks[i].next_register);
        let p = tasks[i].prev_register;
        proof {
            let s = tasks@.subrange(0, i + 1);
            assert(s.drop_last() =~= tasks@.subrange(0, i as int));
        }
        if i > 0 && p < earliest {
            earliest = p;
        }
        i = i + 1;
    }
    assert(tasks@.subrange(0, tasks@.len() as int) =~= tasks@);
    assert(next@ =~= next_registers(tasks@));
    let ghost t0 = tasks@;
    let idx = expedite_position(next.as_slice());
    let mut task = tasks.remove(idx);
    let changed = task.set_next_register(earliest + INTERVAL_INFO_CHANGE);
    tasks.insert(idx, task);
    proof {
        assert(tasks@ =~= t0.update(idx as int, task));
        assert(latest_planned(next_registers(t0), idx as int));
    }
    if changed {
        Some(idx)
    } else {
        None
    }
}

} // verus!
