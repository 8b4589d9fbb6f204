use vstd::prelude::*;
use crate::ip::{decimal_value, digit_value, is_digit};

verus! {

/// The phases of watch mode.
#[derive(Debug, Clone, Copy, PartialEq, Eq, Structural)]
pub enum WatchState {
    Idle,
    Running,
    Sleeping,
    Stopped,
}

/// Watch mode: cycles that start a fixed interval apart, measured from the
/// start of each cycle, until a stop is asked for. Times are milliseconds
/// on one clock.
#[derive(Debug, Clone, Copy, PartialEq, Eq, Structural)]
pub struct WatchLoop {
    pub state: WatchState,
    pub interval_ms: u64,
    pub cycle_start_ms: u64,
}

/// The wait left of an interval after `elapsed`, never below zero.
pub open spec fn remaining_after(interval: int, elapsed: int) -> int {
    if elapsed >= interval {
        0
    } else {
        interval - elapsed
    }
}

/// The watch interval in effect, in seconds, or `None` for a single run.
/// Without a watch request there is none; a request with an explicit value
/// (not zero) takes it; a bare request (zero) takes the environment's
/// value, else the configuration's.
pub open spec fn watch_interval(cli_value: Option<u64>, env_value: Option<u64>, config_interval: u64) -> Option<u64> {
    match cli_value {
        None => None,
        Some(n) => if n != 0 {
            Some(n)
        } else {
            match env_value {
                Some(e) => Some(e),
                None => Some(config_interval),
            }
        },
    }
}

/// Resolves the watch interval once, at the start of watch mode.
pub fn resolve_watch_interval(cli_value: Option<u64>, env_value: Option<u64>, config_interval: u64) -> (r:
    Option<u64>)
    ensures
        r == watch_interval(cli_value, env_value, config_interval),
{
    match cli_value {
        None => None,
        Some(n) => {
            if n != 0 {
                Some(n)
            } else {
                match env_value {
                    Some(e) => Some(e),
                    None => Some(config_interval),
                }
            }
        },
    }
}

/// `s` without its leading `+`, if it has one.
pub open spec fn unsigned_digits(s: Seq<char>) -> Seq<char> {
    if s.len() > 0 && s[0] == '+' {
        s.subrange(1, s.len() as int)
    } else {
        s
    }
}

/// The value that `s` writes as an unsigned decimal number (an optional
/// `+`, then at least one digit), if it fits in 64 bits.
pub open spec fn decimal_u64_of(s: Seq<char>) -> Option<u64> {
    let d = unsigned_digits(s);
    if d.len() > 0 && (forall|i: int| 0 <= i < d.len() ==> is_digit(#[trigger] d[i]))
        && decimal_value(d) <= u64::MAX {
        Some(decimal_value(d) as u64)
    } else {
        None
    }
}

proof fn lemma_decimal_step(t: Seq<char>, i: int)
    requires
        0 <= i < t.len(),
    ensures
        decimal_value(t.subrange(0, i + 1)) == decimal_value(t.subrange(0, i)) * 10 + digit_value(
            t[i],
        ),
{
    assert(t.subrange(0, i + 1).drop_last() =~= t.subrange(0, i));
}

proof fn lemma_decimal_grows(t: Seq<char>, i: int, j: int)
    requires
        0 <= i <= j <= t.len(),
        forall|k: int| 0 <= k < t.len() ==> is_digit(#[trigger] t[k]),
    ensures
        decimal_value(t.subrange(0, i)) <= decimal_value(t.subrange(0, j)),
    decreases j - i,
{
    if i < j {
        lemma_decimal_grows(t, i, j - 1);
        lemma_decimal_step(t, j - 1);
    }
}

/// Reads an interval written in decimal, as an environment setting holds it.
pub fn parse_interval(s: &str) -> (r: Option<u64>)
    ensures
        r == decimal_u64_of(s@),
{
    let n = s.unicode_len();
    let mut start: usize = 0;
    if n > 0 && s.get_char(0) == '+' {
        start = 1;
    }
    let ghost d = unsigned_digits(s@);
    proof {
        assert(d =~= s@.subrange(start as int, n as int));
    }
    if start == n {
        return None;
    }
    let mut value: u64 = 0;
    let mut i: usize = start;
    proof {
        assert(d.subrange(0, 0) =~= Seq::<char>::empty());
    }
    while i < n
        invariant
            start <= i <= n,
            n == s@.len(),
            d == s@.subrange(start as int, n as int),
            d == unsigned_digits(s@),
            forall|k: int| 0 <= k < i - start ==> is_digit(#[trigger] d[k]),
            value as nat == decimal_value(d.subrange(0, i - start)),
        decreases n - i,
    {
        let c = s.get_char(i);
        assert(c == d[i - start]);
        if !('0' <= c && c <= '9') {
            assert(!is_digit(d[i - start]));
            return None;
        }
        proof {
            lemma_decimal_step(d, i - start);
        }
        let digit = ((c as u32) - ('0' as u32)) as u64;
        let next = match value.checked_mul(10) {
            Some(v) => v.checked_add(digit),
            None => None,
        };
        match next {
            Some(w) => {
                value = w;
            },
            None => {
                proof {
                    let m = i - start + 1;
                    assert(decimal_value(d.subrange(0, m)) > u64::MAX);
                    if forall|k: int| 0 <= k < d.len() ==> is_digit(#[trigger] d[k]) {
                        lemma_decimal_grows(d, m, d.len() as int);
                        assert(d.subrange(0, d.len() as int) =~= d);
                        assert(decimal_value(d) > u64::MAX);
                    }
                }
                return None;
            },
        }
        i = i + 1;
    }
    proof {
        assert(d.subrange(0, n - start) =~= d);
    }
    Some(value)
}

impl WatchLoop {
    /// A watch loop whose cycles start `interval_secs` seconds apart.
    pub fn new(interval_secs: u64) -> (r: Self)
        ensures
            r.state == WatchState::Idle,
            r.interval_ms == (if interval_secs * 1000 <= u64::MAX {
                interval_secs * 1000
            } else {
                u64::MAX as int
            }),
            r.cycle_start_ms == 0,
    {
        let interval_ms = if interval_secs <= u64::MAX / 1000 {
            interval_secs * 1000
        } else {
            u64::MAX
        };
        WatchLoop { state: WatchState::Idle, interval_ms, cycle_start_ms: 0 }
    }

    /// Starts a cycle at `now_ms`: on start, or when the wait after the last
    /// cycle is over.
    pub fn start_cycle(&mut self, now_ms: u64)
        requires
            old(self).state == WatchState::Idle || old(self).state == WatchState::Sleeping,
        ensures
            final(self).state == WatchState::Running,
            final(self).cycle_start_ms == now_ms,
            final(self).interval_ms == old(self).interval_ms,
    {
        self.state = WatchState::Running;
        self.cycle_start_ms = now_ms;
    }

    /// Ends the running cycle at `now_ms`, and returns how long to wait
    /// before the next one starts: the rest of the interval counted from the
    /// start of this cycle, or nothing when the cycle took the whole interval.
    pub fn finish_cycle(&mut self, now_ms: u64) -> (wait_ms: u64)
        requires
            old(self).state == WatchState::Running,
            old(self).cycle_start_ms <= now_ms,
        ensures
            final(self).state == WatchState::Sleeping,
            final(self).interval_ms == old(self).interval_ms,
            final(self).cycle_start_ms == old(self).cycle_start_ms,
            wait_ms == remaining_after(
                old(self).interval_ms as int,
                now_ms - old(self).cycle_start_ms,
            ),
    {
        let elapsed = now_ms - self.cycle_start_ms;
        self.state = WatchState::Sleeping;
        if elapsed >= self.interval_ms {
            0
        } else {
            self.interval_ms - elapsed
        }
    }

    /// Stops watch mode for good: no cycle starts after this.
    pub fn stop(&mut self)
        ensures
            final(self).state == WatchState::Stopped,
            final(self).interval_ms == old(self).interval_ms,
            final(self).cycle_start_ms == old(self).cycle_start_ms,
    {
        self.state = WatchState::Stopped;
    }

    pub fn is_stopped(&self) -> (r: bool)
        ensures
            r == (self.state == WatchState::Stopped),
    {
        match self.state {
            WatchState::Stopped => true,
            _ => false,
        }
    }
}

/// Cycles do not drift: a cycle that began at `start` and ended at `now`
/// is followed by one that begins exactly one interval after `start`, or at
/// `now` when the cycle overran the interval.
pub proof fn lemma_next_cycle_on_time(interval: int, start: int, now: int)
    requires
        0 <= interval,
        start <= now,
    ensures
        now + remaining_after(interval, now - start) == (if now - start >= interval {
            now
        } else {
            start + interval
        }),
        remaining_after(interval, now - start) >= 0,
{
}

} // verus!
