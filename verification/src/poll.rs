//! Polling for a page condition.
//!
//! Instead of subscribing to load events, a caller repeatedly evaluates a
//! short probe script and classifies what came back: the awaited condition
//! holds ("found"), it definitively cannot hold ("empty"), or neither yet.
//! `PollState` keeps the clock bookkeeping of that loop: how much time the
//! sleeps between probes have consumed against the configured timeout.
//! The surrounding binary does the actual evaluating and sleeping; every
//! decision is taken here.

use vstd::prelude::*;
use crate::json::{JsonValue, Jv};
use crate::strutil::str_eq;

verus! {

/// What one probe evaluation reported.
#[derive(PartialEq, Eq, Structural, Clone, Copy, Debug)]
pub enum ProbeSignal {
    /// The awaited condition holds.
    Found,
    /// The page definitively reports there is nothing to wait for.
    Empty,
    /// Neither yet: keep polling.
    Pending,
}

/// The signal a probe result denotes: the string "found", the string
/// "empty", or anything else.
pub open spec fn probe_signal_of(v: Jv) -> ProbeSignal {
    if v == Jv::Str(seq!['f', 'o', 'u', 'n', 'd']) {
        ProbeSignal::Found
    } else if v == Jv::Str(seq!['e', 'm', 'p', 't', 'y']) {
        ProbeSignal::Empty
    } else {
        ProbeSignal::Pending
    }
}

/// Classify one probe evaluation result.
pub fn classify_probe(v: &JsonValue) -> (s: ProbeSignal)
    ensures
        s == probe_signal_of(v@),
{
    proof {
        reveal_strlit("found");
        reveal_strlit("empty");
        assert("found"@ =~= seq!['f', 'o', 'u', 'n', 'd']);
        assert("empty"@ =~= seq!['e', 'm', 'p', 't', 'y']);
    }
    match v {
        JsonValue::Str(t) => {
            if str_eq(t.as_str(), "found") {
                ProbeSignal::Found
            } else if str_eq(t.as_str(), "empty") {
                ProbeSignal::Empty
            } else {
                ProbeSignal::Pending
            }
        },
        _ => ProbeSignal::Pending,
    }
}

/// What the polling loop does next.
#[derive(PartialEq, Eq, Structural, Clone, Copy, Debug)]
pub enum PollVerdict {
    /// Return this answer now.
    Stop(bool),
    /// Sleep one interval, evaluate the probe again, and come back.
    Continue,
}

/// The clock bookkeeping of one polling loop.
pub struct PollState {
    elapsed_ms: u64,
    timeout_ms: u64,
    interval_ms: u64,
}

impl PollState {
    pub closed spec fn elapsed(&self) -> u64 {
        self.elapsed_ms
    }

    pub closed spec fn timeout(&self) -> u64 {
        self.timeout_ms
    }

    pub closed spec fn interval(&self) -> u64 {
        self.interval_ms
    }

    pub closed spec fn inv(&self) -> bool {
        &&& 1 <= self.interval_ms
        &&& self.interval_ms <= u64::MAX / 2
        &&& self.timeout_ms <= u64::MAX / 2
        &&& self.elapsed_ms <= self.timeout_ms + self.interval_ms
    }

    /// A fresh loop: no time consumed yet.
    pub fn new(timeout_ms: u64, interval_ms: u64) -> (s: PollState)
        requires
            1 <= interval_ms <= u64::MAX / 2,
            timeout_ms <= u64::MAX / 2,
        ensures
            s.inv(),
            s.elapsed() == 0,
            s.timeout() == timeout_ms,
            s.interval() == interval_ms,
    {
        PollState { elapsed_ms: 0, timeout_ms, interval_ms }
    }

    /// Take one probe outcome. A probe that reports the condition ends the
    /// loop with `true` at once — on the first call, without any waiting.
    /// A definitive negative ends it with `false` at once. Anything else
    /// books one interval of sleeping; the loop ends with `false` as soon
    /// as the booked time reaches the timeout, and not before.
    pub fn step(&mut self, sig: ProbeSignal) -> (v: PollVerdict)
        requires
            old(self).inv(),
        ensures
            final(self).inv(),
            final(self).timeout() == old(self).timeout(),
            final(self).interval() == old(self).interval(),
            v == poll_step(old(self).elapsed() as int, old(self).timeout() as int, sig),
            (v matches PollVerdict::Stop(_)) ==> *final(self) == *old(self),
            (v matches PollVerdict::Continue) ==> final(self).elapsed() == old(self).elapsed()
                + old(self).interval(),
    {
        if self.elapsed_ms >= self.timeout_ms {
            return PollVerdict::Stop(false);
        }
        match sig {
            ProbeSignal::Found => PollVerdict::Stop(true),
            ProbeSignal::Empty => PollVerdict::Stop(false),
            ProbeSignal::Pending => {
                self.elapsed_ms = self.elapsed_ms + self.interval_ms;
                PollVerdict::Continue
            },
        }
    }
}

/// The decision taken on one probe outcome.
pub open spec fn poll_step(elapsed: int, timeout: int, sig: ProbeSignal) -> PollVerdict {
    if elapsed >= timeout {
        PollVerdict::Stop(false)
    } else {
        match sig {
            ProbeSignal::Found => PollVerdict::Stop(true),
            ProbeSignal::Empty => PollVerdict::Stop(false),
            ProbeSignal::Pending => PollVerdict::Continue,
        }
    }
}

/// The whole loop over a sequence of probe outcomes: the answer returned
/// and the time consumed when it was. If the observations run out the
/// loop is still waiting; the result is then what the timeout gives.
pub open spec fn poll_run(sigs: Seq<ProbeSignal>, elapsed: int, timeout: int, interval: int) -> (
    bool,
    int,
)
    decreases sigs.len(),
{
    if elapsed >= timeout {
        (false, elapsed)
    } else if sigs.len() == 0 {
        (false, elapsed)
    } else {
        match sigs[0] {
            ProbeSignal::Found => (true, elapsed),
            ProbeSignal::Empty => (false, elapsed),
            ProbeSignal::Pending => poll_run(sigs.drop_first(), elapsed + interval, timeout,
                interval),
        }
    }
}

/// A probe that reports the condition at once yields `true` on the first
/// iteration, with no time spent waiting.
pub proof fn lemma_found_first_poll(sigs: Seq<ProbeSignal>, timeout: int, interval: int)
    requires
        sigs.len() >= 1,
        sigs[0] == ProbeSignal::Found,
        timeout > 0,
    ensures
        poll_run(sigs, 0, timeout, interval) == (true, 0int),
{
}

/// A probe that never concludes yields `false`, and only once the booked
/// waiting time has reached the timeout: never earlier, and less than one
/// interval later.
pub proof fn lemma_pending_times_out(
    sigs: Seq<ProbeSignal>,
    elapsed: int,
    timeout: int,
    interval: int,
)
    requires
        forall|k: int| 0 <= k < sigs.len() ==> sigs[k] == ProbeSignal::Pending,
        interval >= 1,
        0 <= elapsed <= timeout,
        elapsed + sigs.len() * interval >= timeout,
    ensures
        poll_run(sigs, elapsed, timeout, interval).0 == false,
        timeout <= poll_run(sigs, elapsed, timeout, interval).1 < timeout + interval,
    decreases sigs.len(),
{
    if elapsed >= timeout {
    } else {
        assert(sigs.len() >= 1) by {
            if sigs.len() == 0 {
                assert(sigs.len() * interval == 0) by (nonlinear_arith)
                    requires
                        sigs.len() == 0,
                ;
                assert(elapsed >= timeout);
            }
        }
        assert(sigs[0] == ProbeSignal::Pending);
        let e2 = elapsed + interval;
        assert(sigs.drop_first().len() * interval == sigs.len() * interval - interval) by (
        nonlinear_arith)
            requires
                sigs.len() >= 1,
                sigs.drop_first().len() == sigs.len() - 1,
        ;
        if e2 <= timeout {
            lemma_pending_times_out(sigs.drop_first(), e2, timeout, interval);
        } else {
            assert(forall|k: int|
                0 <= k < sigs.drop_first().len() ==> sigs.drop_first()[k]
                    == ProbeSignal::Pending);
            lemma_pending_over(sigs.drop_first(), e2, timeout, interval);
            assert(timeout <= e2 < timeout + interval);
        }
    }
}

/// Once past the timeout, a run of inconclusive probes stops at once.
proof fn lemma_pending_over(sigs: Seq<ProbeSignal>, elapsed: int, timeout: int, interval: int)
    requires
        elapsed >= timeout,
    ensures
        poll_run(sigs, elapsed, timeout, interval) == (false, elapsed),
{
}

} // verus!
