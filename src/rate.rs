use vstd::prelude::*;

verus! {

/// The length of a rate window, in nanoseconds.
pub const WINDOW_NANOS: u64 = 1_000_000_000;

/// Per-second admission gate: at most `rate_per_sec` grants in each window.
/// Times are nanoseconds on a monotonic clock that the caller reads.
#[derive(Debug)]
pub struct RateLimiter {
    pub rate_per_sec: u64,
    pub window_start: u64,
    pub count_in_window: u64,
}

/// The answer to one request for a token.
#[derive(Clone, Copy, Debug, PartialEq, Eq, Structural)]
pub enum Admission {
    /// Proceed now.
    Granted,
    /// Sleep this many nanoseconds, then ask again.
    Wait(u64),
}

/// Time since `start`, or zero for a clock reading before it.
pub open spec fn elapsed(start: u64, now: u64) -> nat {
    if now >= start {
        (now - start) as nat
    } else {
        0
    }
}

/// One request for a token at time `now`: a window a second old or more
/// starts afresh; a token is granted while the window has room, else the
/// caller waits out the rest of the window.
pub open spec fn acquire_step(s: RateLimiter, now: u64) -> (RateLimiter, Admission) {
    let e = elapsed(s.window_start, now);
    let t = if e >= WINDOW_NANOS {
        RateLimiter { rate_per_sec: s.rate_per_sec, window_start: now, count_in_window: 0 }
    } else {
        s
    };
    if t.count_in_window < t.rate_per_sec {
        (
            RateLimiter {
                rate_per_sec: t.rate_per_sec,
                window_start: t.window_start,
                count_in_window: (t.count_in_window + 1) as u64,
            },
            Admission::Granted,
        )
    } else {
        (t, Admission::Wait((WINDOW_NANOS - e) as u64))
    }
}

/// The limiter after `k` requests, all at time `now`.
pub open spec fn after_requests(s: RateLimiter, now: u64, k: nat) -> RateLimiter
    decreases k,
{
    if k == 0 {
        s
    } else {
        acquire_step(after_requests(s, now, (k - 1) as nat), now).0
    }
}

impl RateLimiter {
    /// The rate is at least one, and a window never holds more grants than the rate.
    pub open spec fn wf(&self) -> bool {
        self.rate_per_sec >= 1 && self.count_in_window <= self.rate_per_sec
    }

    /// A limiter whose first window starts at `now`; a rate of zero counts as one.
    pub fn new(rate_per_sec: u64, now: u64) -> (r: Self)
        ensures
            r.wf(),
            r.rate_per_sec == if rate_per_sec >= 1 { rate_per_sec } else { 1 },
            r.window_start == now,
            r.count_in_window == 0,
    {
        RateLimiter {
            rate_per_sec: if rate_per_sec >= 1 { rate_per_sec } else { 1 },
            window_start: now,
            count_in_window: 0,
        }
    }

    /// Asks for one token at time `now`.
    pub fn acquire(&mut self, now: u64) -> (r: Admission)
        requires
            old(self).wf(),
        ensures
            final(self).wf(),
            (*final(self), r) == acquire_step(*old(self), now),
    {
        let e: u64 = if now >= self.window_start { now - self.window_start } else { 0 };
        if e >= WINDOW_NANOS {
            self.window_start = now;
            self.count_in_window = 0;
        }
        if self.count_in_window < self.rate_per_sec {
            self.count_in_window = self.count_in_window + 1;
            Admission::Granted
        } else {
            Admission::Wait(WINDOW_NANOS - e)
        }
    }
}

/// Requests made together, within one second of the limiter's creation, are
/// granted `rate` times in a row; the next one waits until the window ends.
pub proof fn lemma_burst_then_wait(rate: u64, start: u64, now: u64)
    requires
        rate >= 1,
        start <= now,
        now - start < WINDOW_NANOS,
    ensures
        forall|k: nat|
            k < rate ==> #[trigger] acquire_step(
                after_requests(
                    RateLimiter { rate_per_sec: rate, window_start: start, count_in_window: 0 },
                    now,
                    k,
                ),
                now,
            ).1 == Admission::Granted,
        acquire_step(
            after_requests(
                RateLimiter { rate_per_sec: rate, window_start: start, count_in_window: 0 },
                now,
                rate as nat,
            ),
            now,
        ).1 == Admission::Wait((start + WINDOW_NANOS - now) as u64),
{
    let s0 = RateLimiter { rate_per_sec: rate, window_start: start, count_in_window: 0 };
    assert forall|k: nat| k <= rate implies #[trigger] after_requests(s0, now, k) == RateLimiter {
        rate_per_sec: rate,
        window_start: start,
        count_in_window: k as u64,
    } by {
        lemma_burst_count(rate, start, now, k);
    }
    assert(after_requests(s0, now, rate as nat) == RateLimiter {
        rate_per_sec: rate,
        window_start: start,
        count_in_window: rate,
    });
}

proof fn lemma_burst_count(rate: u64, start: u64, now: u64, k: nat)
    requires
        rate >= 1,
        start <= now,
        now - start < WINDOW_NANOS,
        k <= rate,
    ensures
        after_requests(
            RateLimiter { rate_per_sec: rate, window_start: start, count_in_window: 0 },
            now,
            k,
        ) == (RateLimiter { rate_per_sec: rate, window_start: start, count_in_window: k as u64 }),
    decreases k,
{
    if k > 0 {
        lemma_burst_count(rate, start, now, (k - 1) as nat);
    }
}

} // verus!
