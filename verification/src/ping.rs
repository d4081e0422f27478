//! Round-trip time and clock offset of one connection, from pings and the pongs that answer them.

use vstd::prelude::*;
use crate::keyed::{find, lemma_find_none, lemma_find_some, Keyed};
use crate::message::{Ping, Pong};
use crate::types::{PingId, Time};

verus! {

/// How often a ping is due.
#[derive(Clone, Copy, PartialEq, Eq, Structural, Debug)]
pub struct PingConfig {
    /// Milliseconds between two pings.
    pub ping_interval: Time,
}

/// The identifier after `id`.
pub open spec fn next_id(id: u64) -> u64 {
    if id == u64::MAX {
        0
    } else {
        (id + 1) as u64
    }
}

impl Keyed for Ping {
    open spec fn key(&self) -> u64 {
        self.id
    }
}

/// The place of the oldest ping of `s` with the identifier `id`, if there is one.
pub open spec fn find_ping(s: Seq<Ping>, id: PingId) -> Option<int> {
    find(s, id)
}

/// The time from `earlier` to `later`, zero where the clock went backwards.
pub open spec fn elapsed(later: Time, earlier: Time) -> Time {
    if later >= earlier {
        (later - earlier) as Time
    } else {
        0
    }
}

/// The value of a `PingManager`.
pub struct PingState {
    /// Milliseconds between two pings.
    pub interval: Time,
    /// Whether a ping should leave with the next packets.
    pub due: bool,
    /// When the last ping left.
    pub last_ping_time: Option<Time>,
    /// The identifier of the next ping.
    pub next_ping_id: PingId,
    /// Pings that left and were not answered yet, oldest first.
    pub in_flight: Seq<Ping>,
    /// Pongs that wait for the next packets, oldest first.
    pub pending_pongs: Seq<Pong>,
    /// The last round-trip time measured.
    pub rtt: Option<Time>,
    /// The last estimate of the remote clock minus the local one.
    pub offset: Option<int>,
}

impl PingState {
    /// Whether a ping is due at `time`.
    pub open spec fn due_at(self, time: Time) -> bool {
        match self.last_ping_time {
            None => true,
            Some(t) => elapsed(time, t) >= self.interval,
        }
    }

    /// The state after the clock advanced to `time`.
    pub open spec fn update(self, time: Time) -> PingState {
        PingState { due: self.due_at(time), ..self }
    }

    /// The ping that leaves at `time`, if one is due.
    pub open spec fn ping_at(self, time: Time) -> Option<Ping> {
        if self.due {
            Some(Ping { id: self.next_ping_id, send_time: time })
        } else {
            None
        }
    }

    /// The state after the ping that was due, if any, left at `time`.
    pub open spec fn after_ping(self, time: Time) -> PingState {
        if self.due {
            PingState {
                due: false,
                last_ping_time: Some(time),
                next_ping_id: next_id(self.next_ping_id),
                in_flight: self.in_flight.push(Ping { id: self.next_ping_id, send_time: time }),
                ..self
            }
        } else {
            self
        }
    }

    /// The state after `ping` arrived at `time`: a pong for it waits to be sent.
    pub open spec fn buffer_pending_pong(self, ping: Ping, time: Time) -> PingState {
        PingState {
            pending_pongs: self.pending_pongs.push(Pong { ping_id: ping.id, pong_sent_time: time }),
            ..self
        }
    }

    /// The state after the waiting pongs were taken.
    pub open spec fn without_pongs(self) -> PingState {
        PingState { pending_pongs: Seq::empty(), ..self }
    }

    /// The state after `pong` arrived at `time`. A pong that answers no ping in flight
    /// changes nothing.
    pub open spec fn process_pong(self, pong: Pong, time: Time) -> PingState {
        match find_ping(self.in_flight, pong.ping_id) {
            None => self,
            Some(i) => {
                let rtt = elapsed(time, self.in_flight[i].send_time);
                PingState {
                    in_flight: self.in_flight.remove(i),
                    rtt: Some(rtt),
                    offset: Some(pong.pong_sent_time + rtt / 2 - time),
                    ..self
                }
            },
        }
    }
}

/// Measures the round-trip time of one connection and estimates the remote clock.
#[derive(Debug)]
pub struct PingManager {
    interval: Time,
    due: bool,
    last_ping_time: Option<Time>,
    next_ping_id: PingId,
    in_flight: Vec<Ping>,
    pending_pongs: Vec<Pong>,
    rtt: Option<Time>,
    offset: Option<i128>,
}

impl View for PingManager {
    type V = PingState;

    closed spec fn view(&self) -> PingState {
        PingState {
            interval: self.interval,
            due: self.due,
            last_ping_time: self.last_ping_time,
            next_ping_id: self.next_ping_id,
            in_flight: self.in_flight@,
            pending_pongs: self.pending_pongs@,
            rtt: self.rtt,
            offset: match self.offset {
                Some(o) => Some(o as int),
                None => None,
            },
        }
    }
}

fn elapsed_between(later: Time, earlier: Time) -> (r: Time)
    ensures
        r == elapsed(later, earlier),
{
    if later >= earlier {
        later - earlier
    } else {
        0
    }
}

impl PingManager {
    /// A synchronizer that has sent nothing yet: its first ping is due at once.
    pub fn new(config: &PingConfig) -> (r: Self)
        ensures
            r@ == (PingState {
                interval: config.ping_interval,
                due: true,
                last_ping_time: None,
                next_ping_id: 0,
                in_flight: Seq::empty(),
                pending_pongs: Seq::empty(),
                rtt: None,
                offset: None,
            }),
    {
        PingManager {
            interval: config.ping_interval,
            due: true,
            last_ping_time: None,
            next_ping_id: 0,
            in_flight: Vec::new(),
            pending_pongs: Vec::new(),
            rtt: None,
            offset: None,
        }
    }

    /// Advances the ping timer to `time`.
    pub fn update(&mut self, time: Time)
        ensures
            final(self)@ == old(self)@.update(time),
    {
        self.due = match self.last_ping_time {
            None => true,
            Some(t) => elapsed_between(time, t) >= self.interval,
        };
    }

    /// Hands out the ping that is due, stamped with `time`, and counts it as in flight.
    pub fn maybe_prepare_ping(&mut self, time: Time) -> (r: Option<Ping>)
        ensures
            r == old(self)@.ping_at(time),
            final(self)@ == old(self)@.after_ping(time),
    {
        if self.due {
            let ping = Ping { id: self.next_ping_id, send_time: time };
            self.due = false;
            self.last_ping_time = Some(time);
            self.next_ping_id = if self.next_ping_id == u64::MAX {
                0
            } else {
                self.next_ping_id + 1
            };
            self.in_flight.push(ping);
            Some(ping)
        } else {
            None
        }
    }

    /// Prepares the pong that answers `ping`, which arrived at `time`. The pong waits for
    /// the next packets; its send time is set when it leaves.
    pub fn buffer_pending_pong(&mut self, ping: &Ping, time: Time)
        ensures
            final(self)@ == old(self)@.buffer_pending_pong(*ping, time),
    {
        self.pending_pongs.push(Pong { ping_id: ping.id, pong_sent_time: time });
    }

    /// Takes the pongs that wait to be sent, oldest first.
    pub fn take_pending_pongs(&mut self) -> (r: Vec<Pong>)
        ensures
            r@ == old(self)@.pending_pongs,
            final(self)@ == old(self)@.without_pongs(),
    {
        let mut out: Vec<Pong> = Vec::new();
        std::mem::swap(&mut self.pending_pongs, &mut out);
        out
    }

    /// Takes in `pong`, which arrived at `time`: the ping it answers is no longer in
    /// flight, and the round-trip time and the clock offset are measured anew.
    pub fn process_pong(&mut self, pong: &Pong, time: Time)
        ensures
            final(self)@ == old(self)@.process_pong(*pong, time),
    {
        let n = self.in_flight.len();
        let mut i: usize = 0;
        while i < n
            invariant
                i <= n,
                n == self.in_flight@.len(),
                *self == *old(self),
                forall|j: int| 0 <= j < i ==> (#[trigger] self.in_flight@[j]).key() != pong.ping_id,
            decreases n - i,
        {
            if self.in_flight[i].id == pong.ping_id {
                proof {
                    lemma_find_some(self.in_flight@, pong.ping_id, i as int);
                }
                let sent = self.in_flight.remove(i);
                let rtt = elapsed_between(time, sent.send_time);
                self.rtt = Some(rtt);
                self.offset = Some(pong.pong_sent_time as i128 + (rtt / 2) as i128 - time as i128);
                return ;
            }
            i += 1;
        }
        proof {
            lemma_find_none(self.in_flight@, pong.ping_id);
        }
    }

    /// The last round-trip time measured, in milliseconds.
    pub fn rtt(&self) -> (r: Option<Time>)
        ensures
            r == self@.rtt,
    {
        self.rtt
    }

    /// The last estimate of the remote clock minus the local one, in milliseconds.
    pub fn offset(&self) -> (r: Option<i128>)
        ensures
            match r {
                Some(o) => self@.offset == Some(o as int),
                None => self@.offset is None,
            },
    {
        self.offset
    }

    /// How many pings wait for their pong.
    pub fn pings_in_flight(&self) -> (r: usize)
        ensures
            r == self@.in_flight.len(),
    {
        self.in_flight.len()
    }

    /// How many pongs wait to be sent.
    pub fn pongs_pending(&self) -> (r: usize)
        ensures
            r == self@.pending_pongs.len(),
    {
        self.pending_pongs.len()
    }
}

} // verus!
