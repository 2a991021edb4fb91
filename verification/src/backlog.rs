//! The sample bookkeeping of one captured source that feeds the capture mixer: how many samples
//! it holds, when the first of them was captured, and what a push and a packet do to both. The
//! samples themselves are floats and stay with the caller, which moves exactly the counts
//! decided here.
use vstd::prelude::*;

verus! {

/// `x` as a `u64`, saturating at the top.
pub open spec fn saturated(x: int) -> u64 {
    if x > u64::MAX {
        u64::MAX
    } else {
        x as u64
    }
}

/// The capture time of the sample `samples` samples after one captured at `ts_us`: the whole
/// frames of `channels` samples between them, at `rate` frames a second, in microseconds rounded
/// down; each step saturates.
pub open spec fn stamp_after(ts_us: u64, samples: nat, channels: nat, rate: nat) -> u64 {
    let frames: int = (samples / channels) as int;
    saturated(ts_us + (saturated(frames * 1_000_000) as int) / (rate as int))
}

/// How many samples beyond `max_lag` a backlog of `total` holds.
pub open spec fn excess(total: nat, max_lag: nat) -> nat {
    if total > max_lag {
        (total - max_lag) as nat
    } else {
        0
    }
}

/// The earlier of two optional capture times; a missing one gives way to the other.
pub open spec fn earlier(a: Option<u64>, b: Option<u64>) -> Option<u64> {
    match (a, b) {
        (Some(x), Some(y)) => Some(if y < x { y } else { x }),
        (Some(x), None) => Some(x),
        (None, _) => b,
    }
}

/// The earlier of `current` and `stamp`: how a packet takes the earliest capture time among its
/// sources.
pub fn earliest(current: Option<u64>, stamp: Option<u64>) -> (r: Option<u64>)
    ensures
        r == earlier(current, stamp),
{
    match (current, stamp) {
        (Some(x), Some(y)) => Some(if y < x { y } else { x }),
        (Some(x), None) => Some(x),
        (None, _) => stamp,
    }
}

/// One source's queue as counts: the samples it holds, and the capture time of the first.
#[derive(Debug, Clone, Copy, PartialEq, Eq, Structural)]
pub struct SourceClock {
    pub queued: usize,
    pub front_ts_us: Option<u64>,
}

impl SourceClock {
    /// A capture time is known exactly while samples are queued.
    pub open spec fn wf(&self) -> bool {
        (self.queued > 0) == (self.front_ts_us is Some)
    }

    /// The front capture time once `samples` samples have left the front and `remaining` stay.
    pub open spec fn front_after(front: Option<u64>, samples: nat, remaining: nat, channels: nat, rate: nat) -> Option<u64> {
        if remaining == 0 {
            None
        } else {
            match front {
                Some(t) => Some(stamp_after(t, samples, channels, rate)),
                None => None,
            }
        }
    }

    /// An empty queue.
    pub fn new() -> (c: SourceClock)
        ensures
            c.wf(),
            c.queued == 0,
            c.front_ts_us is None,
    {
        SourceClock { queued: 0, front_ts_us: None }
    }

    /// The front capture time `samples` samples later.
    fn advanced(ts_us: u64, samples: usize, channels: usize, rate: u64) -> (t: u64)
        requires
            channels > 0,
            rate > 0,
        ensures
            t == stamp_after(ts_us, samples as nat, channels as nat, rate as nat),
    {
        let frames = (samples / channels) as u64;
        let micros = if frames > u64::MAX / 1_000_000 {
            u64::MAX
        } else {
            frames * 1_000_000
        };
        ts_us.saturating_add(micros / rate)
    }

    /// Drops `samples` samples from the front: the front capture time moves past them, and is
    /// gone with the last sample.
    pub fn consume(&mut self, samples: usize, channels: usize, rate: u64)
        requires
            samples <= old(self).queued,
            channels > 0,
            rate > 0,
        ensures
            final(self).queued == old(self).queued - samples,
            final(self).front_ts_us == SourceClock::front_after(
                old(self).front_ts_us,
                samples as nat,
                final(self).queued as nat,
                channels as nat,
                rate as nat,
            ),
            old(self).wf() ==> final(self).wf(),
    {
        self.queued = self.queued - samples;
        self.front_ts_us = if self.queued == 0 {
            None
        } else {
            match self.front_ts_us {
                Some(t) => Some(SourceClock::advanced(t, samples, channels, rate)),
                None => None,
            }
        };
    }

    /// Takes a chunk of `len` samples captured at `ts_us`: keeps its whole frames of `channels`
    /// samples (`r.0`, appended at the back) and, to stay within `max_lag` samples, drops the
    /// oldest (`r.1`, from the front), moving the front capture time past them. A chunk without a
    /// whole frame changes nothing; the first samples of an empty queue take the chunk's time.
    pub fn push(&mut self, len: usize, ts_us: u64, channels: usize, max_lag: usize, rate: u64) -> (r: (usize, usize))
        requires
            channels > 0,
            rate > 0,
            old(self).queued + len <= usize::MAX,
        ensures
            r.0 == len - len % channels,
            r.0 == 0 ==> r.1 == 0 && *final(self) == *old(self),
            r.0 > 0 ==> r.1 == excess((old(self).queued + r.0) as nat, max_lag as nat),
            r.0 > 0 ==> final(self).queued == old(self).queued + r.0 - r.1,
            r.0 > 0 ==> final(self).front_ts_us == SourceClock::front_after(
                if old(self).queued == 0 { Some(ts_us) } else { old(self).front_ts_us },
                r.1 as nat,
                final(self).queued as nat,
                channels as nat,
                rate as nat,
            ),
            old(self).wf() ==> final(self).wf(),
    {
        assert(len % channels <= len) by (nonlinear_arith)
            requires
                channels > 0,
        ;
        let whole = len - len % channels;
        if whole == 0 {
            return (0, 0);
        }
        if self.queued == 0 {
            self.front_ts_us = Some(ts_us);
        }
        self.queued = self.queued + whole;
        let dropped = if self.queued > max_lag {
            self.queued - max_lag
        } else {
            0
        };
        if dropped > 0 {
            self.consume(dropped, channels, rate);
        }
        (whole, dropped)
    }

    /// What the next packet of `quantum` samples takes from this source: every queued sample up
    /// to a quantum (`r.0`), and whether the source fell short of one (`r.1`, an underrun).
    pub fn take_packet(&mut self, quantum: usize, channels: usize, rate: u64) -> (r: (usize, bool))
        requires
            channels > 0,
            rate > 0,
        ensures
            r.0 == (if old(self).queued < quantum { old(self).queued } else { quantum }),
            r.1 == (old(self).queued < quantum),
            final(self).queued == old(self).queued - r.0,
            final(self).front_ts_us == SourceClock::front_after(
                old(self).front_ts_us,
                r.0 as nat,
                final(self).queued as nat,
                channels as nat,
                rate as nat,
            ),
            old(self).wf() ==> final(self).wf(),
    {
        let short = self.queued < quantum;
        let available = if short {
            self.queued
        } else {
            quantum
        };
        self.consume(available, channels, rate);
        (available, short)
    }
}

/// A push that brings whole frames leaves at most `max_lag` samples queued: all of them when they
/// fit, else the newest `max_lag`.
pub proof fn lemma_push_bounds_the_backlog(before: SourceClock, after: SourceClock, taken: usize, dropped: usize, max_lag: usize)
    requires
        taken > 0,
        dropped == excess((before.queued + taken) as nat, max_lag as nat),
        after.queued == before.queued + taken - dropped,
    ensures
        after.queued <= max_lag,
        after.queued == (if before.queued + taken > max_lag { max_lag as int } else { before.queued + taken }),
{
}

} // verus!
