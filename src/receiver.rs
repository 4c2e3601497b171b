//! The decisions of a time-bounded receiver over several sockets. The caller
//! owns the sockets: it asks `step` how long to wait, waits for readiness, asks
//! `ready_order` which sockets to read one datagram from, hands each datagram
//! to `accept`, and reports dead sockets with `socket_failed`.
use vstd::prelude::*;
use crate::message::{parse_as_spec, MessageType, MessageView, SSDPError, SSDPMessage};

verus! {

/// What a receiver is: the kind it yields, its absolute deadline in
/// milliseconds, which sockets still work, and whether it is done.
pub struct ReceiverView {
    pub expected: MessageType,
    pub deadline: Option<u64>,
    pub live: Seq<bool>,
    pub exhausted: bool,
}

/// What the caller does next.
#[derive(Copy, Clone, Debug, PartialEq, Eq, Structural)]
pub enum Step {
    /// Wait for any live socket to be ready, at most this many milliseconds
    /// (without limit where `None`).
    Wait(Option<u64>),
    /// The receiver yields nothing more.
    Exhausted,
}

pub struct Receiver {
    expected: MessageType,
    deadline: Option<u64>,
    live: Vec<bool>,
    exhausted: bool,
}

impl View for Receiver {
    type V = ReceiverView;

    closed spec fn view(&self) -> ReceiverView {
        ReceiverView {
            expected: self.expected,
            deadline: self.deadline,
            live: self.live@,
            exhausted: self.exhausted,
        }
    }
}

pub open spec fn any_live(live: Seq<bool>) -> bool {
    exists|i: int| 0 <= i < live.len() && live[i]
}

/// Whether a receiver in state `v` is done at time `now`: it was done before,
/// no socket works, or the deadline has come.
pub open spec fn done_at(v: ReceiverView, now: u64) -> bool {
    v.exhausted || !any_live(v.live) || match v.deadline {
        Some(d) => now >= d,
        None => false,
    }
}

/// How long to wait at time `now`: the time left before the deadline.
pub open spec fn wait_at(v: ReceiverView, now: u64) -> Option<u64> {
    match v.deadline {
        Some(d) => Some((d - now) as u64),
        None => None,
    }
}

/// A receiver with a deadline never waits past it, and from the deadline on
/// it is exhausted.
pub proof fn lemma_deadline_bounds(v: ReceiverView, now: u64)
    requires
        v.deadline is Some,
    ensures
        now >= v.deadline->Some_0 ==> done_at(v, now),
        !done_at(v, now) ==> wait_at(v, now) is Some && now + wait_at(v, now)->Some_0
            == v.deadline->Some_0,
{
}

impl Receiver {
    /// A receiver of messages of kind `expected` over `sockets` sockets,
    /// created at time `now_ms`, with a deadline `timeout_ms` later where one
    /// is given.
    pub fn new(expected: MessageType, sockets: usize, now_ms: u64, timeout_ms: Option<u64>) -> (r:
        Receiver)
        requires
            timeout_ms matches Some(t) ==> now_ms + t <= u64::MAX,
        ensures
            r@.expected == expected,
            r@.deadline == (match timeout_ms {
                Some(t) => Some((now_ms + t) as u64),
                None => None,
            }),
            r@.live == Seq::new(sockets as nat, |i: int| true),
            !r@.exhausted,
    {
        let mut live: Vec<bool> = Vec::new();
        let mut i: usize = 0;
        while i < sockets
            invariant
                i <= sockets,
                live@ == Seq::new(i as nat, |k: int| true),
            decreases sockets - i,
        {
            live.push(true);
            i = i + 1;
            assert(live@ =~= Seq::new(i as nat, |k: int| true));
        }
        let deadline = match timeout_ms {
            Some(t) => Some(now_ms + t),
            None => None,
        };
        Receiver { expected, deadline, live, exhausted: false }
    }

    pub fn expected(&self) -> (r: MessageType)
        ensures
            r == self@.expected,
    {
        self.expected
    }

    pub fn is_exhausted(&self) -> (r: bool)
        ensures
            r == self@.exhausted,
    {
        self.exhausted
    }

    /// The next thing to do at time `now_ms`. Once the deadline has come, or
    /// no socket works, the receiver is exhausted, and stays so; before that,
    /// it never waits past the deadline.
    pub fn step(&mut self, now_ms: u64) -> (r: Step)
        ensures
            final(self)@.expected == old(self)@.expected,
            final(self)@.deadline == old(self)@.deadline,
            final(self)@.live == old(self)@.live,
            final(self)@.exhausted == done_at(old(self)@, now_ms),
            done_at(old(self)@, now_ms) ==> r == Step::Exhausted,
            !done_at(old(self)@, now_ms) ==> r == Step::Wait(wait_at(old(self)@, now_ms)),
    {
        if self.exhausted {
            return Step::Exhausted;
        }
        let mut any = false;
        let mut i: usize = 0;
        while i < self.live.len()
            invariant
                i <= self.live@.len(),
                any == exists|k: int| 0 <= k < i && self.live@[k],
            decreases self.live@.len() - i,
        {
            if self.live[i] {
                any = true;
            }
            i = i + 1;
        }
        if !any {
            self.exhausted = true;
            return Step::Exhausted;
        }
        match self.deadline {
            Some(d) => {
                if now_ms >= d {
                    self.exhausted = true;
                    Step::Exhausted
                } else {
                    Step::Wait(Some(d - now_ms))
                }
            },
            None => Step::Wait(None),
        }
    }

    /// The sockets to read one datagram each from, given which are ready:
    /// every ready socket that still works, once, in index order. No ready
    /// socket is passed over, however busy the others are.
    pub fn ready_order(&self, ready: &Vec<bool>) -> (r: Vec<usize>)
        ensures
            self@.exhausted ==> r@.len() == 0,
            forall|a: int, b: int| 0 <= a < b < r@.len() ==> r@[a] < r@[b],
            forall|k: int|
                0 <= k < r@.len() ==> {
                    &&& (#[trigger] r@[k]) < ready@.len()
                    &&& r@[k] < self@.live.len()
                    &&& ready@[r@[k] as int]
                    &&& self@.live[r@[k] as int]
                },
            !self@.exhausted ==> forall|i: int|
                0 <= i < ready@.len() && i < self@.live.len() && ready@[i] && self@.live[i]
                    ==> r@.contains(i as usize),
    {
        let mut out: Vec<usize> = Vec::new();
        if self.exhausted {
            return out;
        }
        let mut i: usize = 0;
        while i < ready.len() && i < self.live.len()
            invariant
                i <= ready@.len(),
                i <= self@.live.len(),
                forall|a: int, b: int| 0 <= a < b < out@.len() ==> out@[a] < out@[b],
                forall|k: int|
                    0 <= k < out@.len() ==> {
                        &&& (#[trigger] out@[k]) < i
                        &&& ready@[out@[k] as int]
                        &&& self@.live[out@[k] as int]
                    },
                forall|j: int|
                    0 <= j < i && j < self@.live.len() && ready@[j] && self@.live[j]
                        ==> out@.contains(j as usize),
            decreases ready@.len() - i,
        {
            if ready[i] && self.live[i] {
                let ghost prev = out@;
                out.push(i);
                assert(out@[out@.len() - 1] == i);
                assert forall|x: usize| prev.contains(x) implies out@.contains(x) by {
                    let idx = choose|idx: int| 0 <= idx < prev.len() && prev[idx] == x;
                    assert(out@[idx] == x);
                }
            }
            i = i + 1;
        }
        out
    }

    /// A datagram read from a socket: the message where it parses as one of
    /// the expected kind; nothing where it is malformed or of another kind.
    pub fn accept(&self, datagram: &[u8]) -> (r: Option<SSDPMessage>)
        ensures
            match r {
                Some(m) => parse_as_spec(datagram@, self@.expected) == Ok::<MessageView, SSDPError>(
                    m@,
                ),
                None => parse_as_spec(datagram@, self@.expected) is Err,
            },
    {
        match SSDPMessage::parse_as(datagram, self.expected) {
            Ok(m) => Some(m),
            Err(_) => None,
        }
    }

    /// Socket `i` failed: it is read no more.
    pub fn socket_failed(&mut self, i: usize)
        ensures
            final(self)@.expected == old(self)@.expected,
            final(self)@.deadline == old(self)@.deadline,
            final(self)@.exhausted == old(self)@.exhausted,
            i < old(self)@.live.len() ==> final(self)@.live == old(self)@.live.update(i as int, false),
            i >= old(self)@.live.len() ==> final(self)@.live == old(self)@.live,
    {
        if i < self.live.len() {
            self.live.set(i, false);
        }
    }
}

} // verus!
