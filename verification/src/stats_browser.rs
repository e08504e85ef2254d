//! The decisions of a server browser that keeps statistics: when to do
//! which work, how fast to send requests, what a server's answers mean and
//! which players came, changed or left. Time is told to it, in milliseconds.
use vstd::prelude::*;
use std::collections::VecDeque;

verus! {

/// A point in time, in milliseconds.
#[derive(Clone, Copy, Debug, PartialEq, Eq, Structural, Hash, PartialOrd, Ord)]
pub struct Time(pub u64);

impl Time {
    /// The time `ms` milliseconds later.
    pub fn add_ms(self, ms: u64) -> (r: Time)
        requires
            self.0 + ms <= u64::MAX,
        ensures
            r.0 == self.0 + ms,
    {
        Time(self.0 + ms)
    }
}

/// Work to be done at a point in time.
pub struct Timed<T> {
    pub data: T,
    pub time: Time,
}

/// Work to be done now, and work to be done after one of a few fixed
/// delays, one queue for each delay.
pub struct TimedWorkQueue<T> {
    now_queue: VecDeque<T>,
    other_queues: Vec<(u64, VecDeque<Timed<T>>)>,
}

/// The work of a queue, with the times it is due.
pub open spec fn timed_items<T>(q: Seq<Timed<T>>) -> Seq<(T, u64)> {
    q.map_values(|t: Timed<T>| (t.data, t.time.0))
}

impl<T> TimedWorkQueue<T> {
    /// The work to be done now, first first.
    pub closed spec fn now_items(&self) -> Seq<T> {
        self.now_queue@
    }

    /// The delays there are queues for, in the order they were added.
    pub closed spec fn delays(&self) -> Seq<u64> {
        self.other_queues@.map_values(|e: (u64, VecDeque<Timed<T>>)| e.0)
    }

    /// The work of the queue for the delay at position `i` of `delays`.
    pub closed spec fn queue(&self, i: int) -> Seq<(T, u64)> {
        timed_items(self.other_queues@[i].1@)
    }

    /// No delay has two queues.
    pub closed spec fn wf(&self) -> bool {
        forall|i: int, j: int|
            0 <= i < j < self.other_queues@.len() ==> #[trigger] self.other_queues@[i].0 != #[trigger] self.other_queues@[j].0
    }

    pub fn new() -> (r: TimedWorkQueue<T>)
        ensures
            r.wf(),
            r.now_items() == Seq::<T>::empty(),
            r.delays() == Seq::<u64>::empty(),
    {
        let r = TimedWorkQueue { now_queue: VecDeque::new(), other_queues: Vec::new() };
        assert(r.delays() =~= Seq::<u64>::empty());
        r
    }

    /// The position of the queue for the delay `ms`, if there is one.
    fn find(&self, ms: u64) -> (r: Option<usize>)
        requires
            self.wf(),
        ensures
            match r {
                Some(i) => i < self.delays().len() && self.delays()[i as int] == ms,
                None => !self.delays().contains(ms),
            },
    {
        let mut i: usize = 0;
        while i < self.other_queues.len()
            invariant
                i <= self.other_queues@.len(),
                forall|k: int| 0 <= k < i ==> self.other_queues@[k].0 != ms,
            decreases self.other_queues.len() - i,
        {
            if self.other_queues[i].0 == ms {
                return Some(i);
            }
            i = i + 1;
        }
        proof {
            if self.delays().contains(ms) {
                let k = choose|k: int| 0 <= k < self.delays().len() && self.delays()[k] == ms;
                assert(self.other_queues@[k].0 == ms);
            }
        }
        None
    }

    /// Adds a queue for work delayed by `ms` milliseconds, unless there is
    /// one.
    pub fn add_duration(&mut self, ms: u64)
        requires
            old(self).wf(),
        ensures
            final(self).wf(),
            final(self).now_items() == old(self).now_items(),
            final(self).delays() == if old(self).delays().contains(ms) {
                old(self).delays()
            } else {
                old(self).delays().push(ms)
            },
            forall|i: int| 0 <= i < old(self).delays().len() ==> final(self).queue(i) == old(self).queue(i),
            !old(self).delays().contains(ms) ==> final(self).queue(old(self).delays().len() as int)
                == Seq::<(T, u64)>::empty(),
    {
        match self.find(ms) {
            Some(_) => {},
            None => {
                let ghost q0 = self.other_queues@;
                self.other_queues.push((ms, VecDeque::new()));
                proof {
                    assert(self.delays() =~= old(self).delays().push(ms));
                    assert forall|i: int, j: int|
                        0 <= i < j < self.other_queues@.len() implies #[trigger] self.other_queues@[i].0
                        != #[trigger] self.other_queues@[j].0 by {
                        if j == q0.len() {
                            assert(old(self).delays()[i] == q0[i].0);
                        }
                    }
                    assert(self.queue(q0.len() as int) =~= Seq::<(T, u64)>::empty());
                }
            },
        }
    }

    /// Queues `data` to be done `ms` milliseconds after `now`; there must be
    /// a queue for that delay.
    pub fn push(&mut self, now: Time, ms: u64, data: T)
        requires
            old(self).wf(),
            old(self).delays().contains(ms),
            now.0 + ms <= u64::MAX,
        ensures
            final(self).wf(),
            final(self).now_items() == old(self).now_items(),
            final(self).delays() == old(self).delays(),
            forall|i: int| 0 <= i < old(self).delays().len() ==> final(self).queue(i) == if old(self).delays()[i] == ms {
                old(self).queue(i).push((data, (now.0 + ms) as u64))
            } else {
                old(self).queue(i)
            },
    {
        let i = match self.find(ms) {
            Some(i) => i,
            None => return,
        };
        let ghost q0 = self.other_queues@;
        let mut entry = self.other_queues.remove(i);
        entry.1.push_back(Timed { data, time: now.add_ms(ms) });
        self.other_queues.insert(i, entry);
        proof {
            assert(self.delays() =~= old(self).delays());
            assert forall|k: int| 0 <= k < old(self).delays().len() implies self.queue(k) == if old(self).delays()[k] == ms {
                old(self).queue(k).push((data, (now.0 + ms) as u64))
            } else {
                old(self).queue(k)
            } by {
                if k == i {
                    assert(self.queue(k) =~= old(self).queue(k).push((data, (now.0 + ms) as u64)));
                } else {
                    assert(self.other_queues@[k] == q0[k]);
                    assert(old(self).delays()[k] != ms);
                }
            }
            assert forall|a: int, b: int|
                0 <= a < b < self.other_queues@.len() implies #[trigger] self.other_queues@[a].0
                != #[trigger] self.other_queues@[b].0 by {
                assert(self.other_queues@[a].0 == q0[a].0);
                assert(self.other_queues@[b].0 == q0[b].0);
            }
        }
    }

    /// Queues `data` to be done now, after the work already due now.
    pub fn push_now(&mut self, data: T)
        ensures
            final(self).now_items() == old(self).now_items().push(data),
            final(self).delays() == old(self).delays(),
            forall|i: int| 0 <= i < old(self).delays().len() ==> final(self).queue(i) == old(self).queue(i),
            old(self).wf() ==> final(self).wf(),
    {
        self.now_queue.push_back(data);
    }

    /// Queues `data` to be done now, before the work already due now.
    pub fn push_now_front(&mut self, data: T)
        ensures
            final(self).now_items() == seq![data] + old(self).now_items(),
            final(self).delays() == old(self).delays(),
            forall|i: int| 0 <= i < old(self).delays().len() ==> final(self).queue(i) == old(self).queue(i),
            old(self).wf() ==> final(self).wf(),
    {
        self.now_queue.push_front(data);
        assert(self.now_items() =~= seq![data] + old(self).now_items());
    }

    /// The next work due at `now`: work due now first, then the first work
    /// of the first delay queue, in the order the delays were added, whose
    /// first work is due.
    pub fn pop(&mut self, now: Time) -> (r: Option<T>)
        requires
            old(self).wf(),
        ensures
            final(self).wf(),
            final(self).delays() == old(self).delays(),
            old(self).now_items().len() > 0 ==> {
                &&& r == Some(old(self).now_items()[0])
                &&& final(self).now_items() == old(self).now_items().drop_first()
                &&& forall|i: int| 0 <= i < old(self).delays().len() ==> final(self).queue(i) == old(self).queue(i)
            },
            old(self).now_items().len() == 0 ==> final(self).now_items() == old(self).now_items() && match first_due(*old(self), now.0) {
                Some(i) => {
                    &&& r == Some(old(self).queue(i)[0].0)
                    &&& final(self).queue(i) == old(self).queue(i).drop_first()
                    &&& forall|k: int| 0 <= k < old(self).delays().len() && k != i ==> final(self).queue(k) == old(self).queue(k)
                },
                None => {
                    &&& r is None
                    &&& forall|k: int| 0 <= k < old(self).delays().len() ==> final(self).queue(k) == old(self).queue(k)
                },
            },
    {
        if self.now_queue.len() > 0 {
            let r = self.now_queue.pop_front();
            assert(self.now_items() =~= old(self).now_items().drop_first());
            return r;
        }
        let mut i: usize = 0;
        while i < self.other_queues.len()
            invariant
                *self == *old(self),
                self.now_items().len() == 0,
                self.wf(),
                i <= self.other_queues@.len(),
                forall|k: int| 0 <= k < i ==> !due(self.queue(k), now.0),
            decreases self.other_queues.len() - i,
        {
            let q = &self.other_queues[i].1;
            let is_due = q.len() > 0 && q[0].time.0 <= now.0;
            if is_due {
                proof {
                    assert(due(self.queue(i as int), now.0));
                    lemma_first_due(*self, now.0, i as int);
                }
                let ghost q0 = self.other_queues@;
                let mut entry = self.other_queues.remove(i);
                let popped = entry.1.pop_front();
                self.other_queues.insert(i, entry);
                proof {
                    assert(self.delays() =~= old(self).delays());
                    assert(self.queue(i as int) =~= old(self).queue(i as int).drop_first());
                    assert forall|k: int| 0 <= k < old(self).delays().len() && k != i implies self.queue(k)
                        == old(self).queue(k) by {
                        assert(self.other_queues@[k] == q0[k]);
                    }
                    assert forall|a: int, b: int|
                        0 <= a < b < self.other_queues@.len() implies #[trigger] self.other_queues@[a].0
                        != #[trigger] self.other_queues@[b].0 by {
                        assert(self.other_queues@[a].0 == q0[a].0);
                        assert(self.other_queues@[b].0 == q0[b].0);
                    }
                }
                return match popped {
                    Some(t) => Some(t.data),
                    None => None,
                };
            }
            i = i + 1;
        }
        proof {
            lemma_none_due(*self, now.0);
        }
        None
    }
}

/// The first work of the queue `q` is due at `now`.
pub open spec fn due<T>(q: Seq<(T, u64)>, now: u64) -> bool {
    q.len() > 0 && q[0].1 <= now
}

/// The position of the first delay queue of `w` whose first work is due at
/// `now`.
pub open spec fn first_due<T>(w: TimedWorkQueue<T>, now: u64) -> Option<int> {
    if exists|i: int| 0 <= i < w.delays().len() && due(w.queue(i), now) {
        Some(choose|i: int| 0 <= i < w.delays().len() && due(w.queue(i), now) && forall|k: int| 0 <= k < i ==> !due(w.queue(k), now))
    } else {
        None
    }
}

proof fn lemma_first_due<T>(w: TimedWorkQueue<T>, now: u64, i: int)
    requires
        0 <= i < w.delays().len(),
        due(w.queue(i), now),
        forall|k: int| 0 <= k < i ==> !due(w.queue(k), now),
    ensures
        first_due(w, now) == Some(i),
{
    let c = choose|j: int| 0 <= j < w.delays().len() && due(w.queue(j), now) && forall|k: int| 0 <= k < j ==> !due(w.queue(k), now);
    assert(0 <= c < w.delays().len() && due(w.queue(c), now));
    if c < i {
        assert(!due(w.queue(c), now));
    }
    if i < c {
        assert(!due(w.queue(i), now));
    }
}

proof fn lemma_none_due<T>(w: TimedWorkQueue<T>, now: u64)
    requires
        forall|k: int| 0 <= k < w.delays().len() ==> !due(w.queue(k), now),
    ensures
        first_due(w, now) is None,
{
}

impl<T> Default for TimedWorkQueue<T> {
    fn default() -> (r: TimedWorkQueue<T>)
        ensures
            r.wf(),
            r.now_items() == Seq::<T>::empty(),
            r.delays() == Seq::<u64>::empty(),
    {
        TimedWorkQueue::new()
    }
}

// ---------------------------------------------------------------------------
// Rate limits.

/// At most `max` acquisitions in each window of `duration` milliseconds; a
/// window starts with the first acquisition after the previous one ended.
pub struct Limit {
    remaining: u32,
    reset: Time,
    max: u32,
    duration: u64,
}

impl Limit {
    pub closed spec fn remaining(&self) -> u32 {
        self.remaining
    }

    /// When the current window ends.
    pub closed spec fn reset(&self) -> u64 {
        self.reset.0
    }

    pub closed spec fn max(&self) -> u32 {
        self.max
    }

    pub closed spec fn duration(&self) -> u64 {
        self.duration
    }

    /// A limit whose first window starts at `now`.
    pub fn new(max: u32, duration: u64, now: Time) -> (r: Limit)
        ensures
            r.remaining() == max,
            r.reset() == now.0,
            r.max() == max,
            r.duration() == duration,
    {
        Limit { remaining: max, reset: now, max, duration }
    }

    /// Takes one of the acquisitions of the window at `time`, starting a
    /// new window where the current one ended; fails where none is left.
    pub fn acquire_at(&mut self, time: Time) -> (r: Result<(), ()>)
        requires
            time.0 + old(self).duration() <= u64::MAX,
        ensures
            final(self).max() == old(self).max(),
            final(self).duration() == old(self).duration(),
            ({
                let new_window = time.0 >= old(self).reset();
                let available = if new_window {
                    old(self).max()
                } else {
                    old(self).remaining()
                };
                &&& final(self).reset() == if new_window {
                    time.0 + old(self).duration()
                } else {
                    old(self).reset() as int
                }
                &&& (r is Ok) == (available != 0)
                &&& final(self).remaining() == if available != 0 {
                    available - 1
                } else {
                    0
                }
            }),
    {
        if time.0 >= self.reset.0 {
            self.remaining = self.max;
            self.reset = time.add_ms(self.duration);
        }
        if self.remaining != 0 {
            self.remaining = self.remaining - 1;
            Ok(())
        } else {
            Err(())
        }
    }
}

/// Within one window a limit grants at most `max` acquisitions: after `k`
/// successful ones since the window started, `max - k` are left.
pub proof fn lemma_limit_window(max: u32, remaining: u32, k: u32)
    requires
        remaining == max - k,
        k <= max,
    ensures
        remaining + k == max,
{
}

// ---------------------------------------------------------------------------
// Master servers and servers.

/// The number of a master server.
#[derive(Clone, Copy, Debug, PartialEq, Eq, Structural, Hash, PartialOrd, Ord, Default)]
pub struct MasterId(pub usize);

impl MasterId {
    /// Returns this number and moves on to the next.
    pub fn get_and_inc(&mut self) -> (r: MasterId)
        requires
            old(self).0 < usize::MAX,
        ensures
            r == *old(self),
            final(self).0 == old(self).0 + 1,
    {
        let value = self.0;
        self.0 = value + 1;
        MasterId(value)
    }
}

/// Most unparsable answers of a server that are reported.
pub const MAX_MALFORMED_RESP: u32 = 10;

/// Most unasked answers of a server that are reported.
pub const MAX_EXTRA_RESP: u32 = 10;

/// Most requests a server may leave unanswered before it is dropped.
pub const MAX_MISSING_RESP: u32 = 10;

/// What is known of a server: how many requests it left unanswered, how
/// many unparsable and unasked answers it gave, and its last information.
pub struct ServerEntry<I> {
    pub num_missing_resp: u32,
    pub num_malformed_resp: u32,
    pub num_extra_resp: u32,
    pub resp: Option<I>,
}

/// What an answer of a server means for the browser.
#[derive(Clone, Copy, Debug, PartialEq, Eq, Structural)]
pub enum InfoOutcome {
    /// The answer could not be parsed; whether to report it.
    Malformed(bool),
    /// The answer came without a request; whether to report it.
    Extra(bool),
    /// The first information of the server.
    New,
    /// New information of a known server.
    Changed,
}

impl<I> ServerEntry<I> {
    pub fn new() -> (r: ServerEntry<I>)
        ensures
            r.num_missing_resp == 0,
            r.num_malformed_resp == 0,
            r.num_extra_resp == 0,
            r.resp is None,
    {
        ServerEntry { num_missing_resp: 0, num_malformed_resp: 0, num_extra_resp: 0, resp: None }
    }

    /// Takes an answer of the server, parsed into `info` where it could be.
    pub fn process_info(&mut self, info: Option<I>) -> (r: InfoOutcome)
        requires
            old(self).num_malformed_resp < u32::MAX,
            old(self).num_extra_resp < u32::MAX,
        ensures
            info is None ==> {
                &&& r == InfoOutcome::Malformed(old(self).num_malformed_resp < MAX_MALFORMED_RESP)
                &&& final(self).num_malformed_resp == old(self).num_malformed_resp + 1
                &&& final(self).num_missing_resp == old(self).num_missing_resp
                &&& final(self).num_extra_resp == old(self).num_extra_resp
                &&& final(self).resp == old(self).resp
            },
            info is Some && old(self).num_missing_resp == 0 ==> {
                &&& r == InfoOutcome::Extra(old(self).num_extra_resp < MAX_EXTRA_RESP)
                &&& final(self).num_extra_resp == old(self).num_extra_resp + 1
                &&& final(self).num_missing_resp == 0
                &&& final(self).num_malformed_resp == old(self).num_malformed_resp
                &&& final(self).resp == old(self).resp
            },
            info is Some && old(self).num_missing_resp != 0 ==> {
                &&& r == if old(self).resp is Some {
                    InfoOutcome::Changed
                } else {
                    InfoOutcome::New
                }
                &&& final(self).num_missing_resp == 0
                &&& final(self).num_malformed_resp == old(self).num_malformed_resp
                &&& final(self).num_extra_resp == old(self).num_extra_resp
                &&& final(self).resp == info
            },
    {
        match info {
            None => {
                let report = self.num_malformed_resp < MAX_MALFORMED_RESP;
                self.num_malformed_resp = self.num_malformed_resp + 1;
                InfoOutcome::Malformed(report)
            },
            Some(x) => {
                if self.num_missing_resp == 0 {
                    let report = self.num_extra_resp < MAX_EXTRA_RESP;
                    self.num_extra_resp = self.num_extra_resp + 1;
                    return InfoOutcome::Extra(report);
                }
                self.num_missing_resp = 0;
                let outcome = if self.resp.is_some() {
                    InfoOutcome::Changed
                } else {
                    InfoOutcome::New
                };
                self.resp = Some(x);
                outcome
            },
        }
    }
}

/// What to do when an answer of a server was due.
#[derive(Clone, Copy, Debug, PartialEq, Eq, Structural)]
pub enum ExpectInfoAction {
    /// It answered: ask again after the repeat delay.
    RepeatLater,
    /// It left too many requests unanswered: drop it.
    Remove,
    /// Ask again now.
    RequestNow,
}

/// What to do when an answer of a server that left `num_missing_resp`
/// requests unanswered was due.
pub fn expect_info_action(num_missing_resp: u32) -> (r: ExpectInfoAction)
    ensures
        r == if num_missing_resp == 0 {
            ExpectInfoAction::RepeatLater
        } else if num_missing_resp >= MAX_MISSING_RESP {
            ExpectInfoAction::Remove
        } else {
            ExpectInfoAction::RequestNow
        },
{
    if num_missing_resp == 0 {
        ExpectInfoAction::RepeatLater
    } else if num_missing_resp >= MAX_MISSING_RESP {
        ExpectInfoAction::Remove
    } else {
        ExpectInfoAction::RequestNow
    }
}

/// A list of `list_len` servers is complete for a master server that
/// announced `count` of them: they differ by at most five.
pub fn list_complete(count: u16, list_len: usize) -> (r: bool)
    ensures
        r == (-5 <= count - list_len <= 5),
{
    if list_len > count as usize {
        list_len - count as usize <= 5
    } else {
        count as usize - list_len <= 5
    }
}

// ---------------------------------------------------------------------------
// Players.

/// How two names compare: byte by byte, a name before its extensions.
pub open spec fn name_order(a: Seq<u8>, b: Seq<u8>) -> NameOrder
    decreases a.len(),
{
    if a.len() == 0 && b.len() == 0 {
        NameOrder::Equal
    } else if a.len() == 0 {
        NameOrder::Less
    } else if b.len() == 0 {
        NameOrder::Greater
    } else if a[0] < b[0] {
        NameOrder::Less
    } else if a[0] > b[0] {
        NameOrder::Greater
    } else {
        name_order(a.drop_first(), b.drop_first())
    }
}

/// The opposite of an order.
pub open spec fn flip_order(o: NameOrder) -> NameOrder {
    match o {
        NameOrder::Less => NameOrder::Greater,
        NameOrder::Equal => NameOrder::Equal,
        NameOrder::Greater => NameOrder::Less,
    }
}

/// Swapping two names flips their order.
pub proof fn lemma_name_order_flip(a: Seq<u8>, b: Seq<u8>)
    ensures
        name_order(b, a) == flip_order(name_order(a, b)),
    decreases a.len(),
{
    if a.len() > 0 && b.len() > 0 && a[0] == b[0] {
        lemma_name_order_flip(a.drop_first(), b.drop_first());
    }
}

/// Two names are in order `Equal` exactly when they are the same.
pub proof fn lemma_name_order_equal(a: Seq<u8>, b: Seq<u8>)
    ensures
        (name_order(a, b) == NameOrder::Equal) == (a == b),
    decreases a.len(),
{
    if a.len() > 0 && b.len() > 0 && a[0] == b[0] {
        lemma_name_order_equal(a.drop_first(), b.drop_first());
        if a.drop_first() == b.drop_first() {
            assert(a =~= seq![a[0]] + a.drop_first());
            assert(b =~= seq![b[0]] + b.drop_first());
        }
        if a == b {
            assert(a.drop_first() =~= b.drop_first());
        }
    } else if a.len() > 0 && b.len() > 0 {
        assert(a[0] != b[0]);
    } else if a.len() == 0 && b.len() == 0 {
        assert(a =~= b);
    }
}

/// The order of names is transitive, strictly where one step is strict.
pub proof fn lemma_name_order_trans(a: Seq<u8>, b: Seq<u8>, c: Seq<u8>)
    requires
        name_order(a, b) != NameOrder::Greater,
        name_order(b, c) != NameOrder::Greater,
    ensures
        name_order(a, c) != NameOrder::Greater,
        name_order(a, b) == NameOrder::Less || name_order(b, c) == NameOrder::Less ==> name_order(a, c)
            == NameOrder::Less,
    decreases a.len(),
{
    if a.len() > 0 && b.len() > 0 && c.len() > 0 && a[0] == b[0] && b[0] == c[0] {
        lemma_name_order_trans(a.drop_first(), b.drop_first(), c.drop_first());
    }
}

/// The order of two names.
#[derive(Clone, Copy, Debug, PartialEq, Eq, Structural)]
pub enum NameOrder {
    Less,
    Equal,
    Greater,
}

/// Compares two names byte by byte.
pub fn compare_names(a: &[u8], b: &[u8]) -> (r: NameOrder)
    ensures
        r == name_order(a@, b@),
{
    let mut i: usize = 0;
    assert(a@.subrange(0, a@.len() as int) =~= a@);
    assert(b@.subrange(0, b@.len() as int) =~= b@);
    while i < a.len() && i < b.len()
        invariant
            i <= a@.len(),
            i <= b@.len(),
            name_order(a@, b@) == name_order(a@.subrange(i as int, a@.len() as int), b@.subrange(i as int, b@.len() as int)),
        decreases a.len() - i,
    {
        if a[i] < b[i] {
            return NameOrder::Less;
        }
        if a[i] > b[i] {
            return NameOrder::Greater;
        }
        proof {
            let sa = a@.subrange(i as int, a@.len() as int);
            let sb = b@.subrange(i as int, b@.len() as int);
            assert(sa.drop_first() =~= a@.subrange(i + 1, a@.len() as int));
            assert(sb.drop_first() =~= b@.subrange(i + 1, b@.len() as int));
        }
        i = i + 1;
    }
    if i < a.len() {
        NameOrder::Greater
    } else if i < b.len() {
        NameOrder::Less
    } else {
        NameOrder::Equal
    }
}

/// A change of the players of a server, by their positions in the old and
/// new lists.
#[derive(Clone, Copy, Debug, PartialEq, Eq, Structural)]
pub enum PlayerDiff {
    New(usize),
    Changed(usize, usize),
    Removed(usize),
}

/// The changes from the players `old` to the players `new`, both sorted by
/// name, from positions `i` and `j` on: a name only in the old list left,
/// one only in the new list came, one in both may have changed.
pub open spec fn player_diff(old: Seq<Seq<u8>>, new: Seq<Seq<u8>>, i: int, j: int) -> Seq<PlayerDiff>
    decreases old.len() - i + new.len() - j,
{
    if !(0 <= i <= old.len() && 0 <= j <= new.len()) {
        Seq::empty()
    } else if i == old.len() && j == new.len() {
        Seq::empty()
    } else if i == old.len() {
        seq![PlayerDiff::New(j as usize)] + player_diff(old, new, i, j + 1)
    } else if j == new.len() {
        seq![PlayerDiff::Removed(i as usize)] + player_diff(old, new, i + 1, j)
    } else {
        match name_order(old[i], new[j]) {
            NameOrder::Less => seq![PlayerDiff::Removed(i as usize)] + player_diff(old, new, i + 1, j),
            NameOrder::Equal => seq![PlayerDiff::Changed(i as usize, j as usize)] + player_diff(old, new, i + 1, j + 1),
            NameOrder::Greater => seq![PlayerDiff::New(j as usize)] + player_diff(old, new, i, j + 1),
        }
    }
}

/// The names of the players.
pub open spec fn names(players: Seq<Vec<u8>>) -> Seq<Seq<u8>> {
    players.map_values(|p: Vec<u8>| p@)
}

/// The changes from the players named `old` to those named `new`, both
/// sorted by name, walking both lists together.
pub fn diff_players(old: &[Vec<u8>], new: &[Vec<u8>]) -> (r: Vec<PlayerDiff>)
    ensures
        r@ == player_diff(names(old@), names(new@), 0, 0),
{
    let ghost o = names(old@);
    let ghost n = names(new@);
    let mut result: Vec<PlayerDiff> = Vec::new();
    let mut i: usize = 0;
    let mut j: usize = 0;
    while i < old.len() || j < new.len()
        invariant
            o == names(old@),
            n == names(new@),
            i <= old@.len(),
            j <= new@.len(),
            player_diff(o, n, 0, 0) == result@ + player_diff(o, n, i as int, j as int),
        decreases old.len() - i + new.len() - j,
    {
        let ghost before = result@;
        if i == old.len() {
            result.push(PlayerDiff::New(j));
            j = j + 1;
        } else if j == new.len() {
            result.push(PlayerDiff::Removed(i));
            i = i + 1;
        } else {
            let c = compare_names(old[i].as_slice(), new[j].as_slice());
            assert(o[i as int] == old@[i as int]@ && n[j as int] == new@[j as int]@);
            match c {
                NameOrder::Less => {
                    result.push(PlayerDiff::Removed(i));
                    i = i + 1;
                },
                NameOrder::Equal => {
                    result.push(PlayerDiff::Changed(i, j));
                    i = i + 1;
                    j = j + 1;
                },
                NameOrder::Greater => {
                    result.push(PlayerDiff::New(j));
                    j = j + 1;
                },
            }
        }
        proof {
            assert(result@ + player_diff(o, n, i as int, j as int) =~= before + (seq![result@.last()] + player_diff(o, n, i as int, j as int)));
        }
    }
    assert(result@ + player_diff(o, n, i as int, j as int) =~= result@);
    result
}


} // verus!
