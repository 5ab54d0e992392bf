//! Durations and timeouts in the units a caller thinks in.
//!
//! The C API takes a `TickType_t` everywhere and expects the caller to convert
//! with `pdMS_TO_TICKS`. Here a [`Duration`] is microseconds until it meets a
//! [`Config`], and a [`Timeout`] says which of the three things a blocking call
//! can mean: do not block, block for so many ticks, or block forever
//! (`portMAX_DELAY`).
use vstd::prelude::*;

use crate::config::Config;
use crate::tick::TickWidth;

verus! {

/// `x * k`, saturating at `u64::MAX`.
pub open spec fn saturating_product(x: u64, k: u64) -> u64 {
    if x * k <= u64::MAX {
        (x * k) as u64
    } else {
        u64::MAX
    }
}

/// The smaller of two counts.
pub open spec fn min_u64(a: int, b: u64) -> u64 {
    if a <= b {
        a as u64
    } else {
        b
    }
}

/// A span of wall time, converted to ticks against a configuration.
#[derive(Debug, Clone, Copy, PartialEq, Eq, PartialOrd, Ord, Hash)]
pub struct Duration {
    micros: u64,
}

impl View for Duration {
    /// The span in microseconds.
    type V = u64;

    closed spec fn view(&self) -> u64 {
        self.micros
    }
}

impl Duration {
    /// Zero.
    pub fn zero() -> (d: Self)
        ensures
            d@ == 0,
    {
        Duration { micros: 0 }
    }

    /// `ms` milliseconds (saturating).
    pub fn millis(ms: u64) -> (d: Self)
        ensures
            d@ == saturating_product(ms, 1000),
    {
        let micros = match ms.checked_mul(1000) {
            Some(v) => v,
            None => u64::MAX,
        };
        Duration { micros }
    }

    /// `us` microseconds.
    pub fn micros(us: u64) -> (d: Self)
        ensures
            d@ == us,
    {
        Duration { micros: us }
    }

    /// `s` seconds (saturating).
    pub fn secs(s: u64) -> (d: Self)
        ensures
            d@ == saturating_product(s, 1_000_000),
    {
        let micros = match s.checked_mul(1_000_000) {
            Some(v) => v,
            None => u64::MAX,
        };
        Duration { micros }
    }

    /// The span in microseconds.
    pub fn as_micros(self) -> (r: u64)
        ensures
            r == self@,
    {
        self.micros
    }

    /// The span in whole milliseconds, floored.
    pub fn as_millis(self) -> (r: u64)
        ensures
            r == self@ / 1000,
    {
        self.micros / 1000
    }

    /// The span in ticks of `C`, floored like `pdMS_TO_TICKS`, saturating at
    /// the tick width's maximum: exactly `min(micros * hz / 1_000_000, MAX)`.
    /// A non-zero span shorter than a tick is zero ticks, as in C.
    pub fn to_ticks<C: Config>(self) -> (r: u64)
        ensures
            r == min_u64(
                (self@ * C::TICK_RATE_HZ) / 1_000_000,
                <C::Tick as TickWidth>::MAX,
            ),
    {
        let hz = C::TICK_RATE_HZ as u64;
        let max = <C::Tick as TickWidth>::MAX;
        let whole_secs = self.micros / 1_000_000;
        let rem_micros = self.micros % 1_000_000;
        proof {
            let m = self.micros as int;
            let s = whole_secs as int;
            let r = rem_micros as int;
            let h = hz as int;
            assert(m == 1_000_000 * s + r);
            assert(m * h == 1_000_000 * (s * h) + r * h) by (nonlinear_arith)
                requires
                    m == 1_000_000 * s + r,
            ;
            assert(0 <= r * h <= 999_999 * 0xFFFF_FFFF) by (nonlinear_arith)
                requires
                    0 <= r < 1_000_000,
                    0 <= h <= 0xFFFF_FFFF,
            ;
            vstd::arithmetic::div_mod::lemma_fundamental_div_mod(r * h, 1_000_000);
            let q = (r * h) / 1_000_000;
            let rr = (r * h) % 1_000_000;
            vstd::arithmetic::div_mod::lemma_mod_bound(r * h, 1_000_000);
            vstd::arithmetic::div_mod::lemma_fundamental_div_mod_converse(
                m * h,
                1_000_000,
                s * h + q,
                rr,
            );
            assert(q < 0x1_0000_0000) by (nonlinear_arith)
                requires
                    r * h == 1_000_000 * q + rr,
                    0 <= rr,
                    r * h <= 999_999 * 0xFFFF_FFFF,
            ;
            assert(s * h >= 0) by (nonlinear_arith)
                requires
                    s >= 0,
                    h >= 0,
            ;
        }
        let from_secs = whole_secs.checked_mul(hz);
        let from_rem = match rem_micros.checked_mul(hz) {
            Some(n) => Some(n / 1_000_000),
            None => None,
        };
        match (from_secs, from_rem) {
            (Some(a), Some(b)) => {
                let sum = a.saturating_add(b);
                if sum <= max {
                    sum
                } else {
                    max
                }
            },
            _ => max,
        }
    }
}

/// How long a blocking call may wait.
#[derive(Debug, Clone, Copy, PartialEq, Eq, Hash)]
pub enum Timeout {
    /// Do not block: a tick count of `0` in C.
    NoBlock,
    /// Block for this many ticks at most.
    Ticks(u64),
    /// Block until the condition holds: `portMAX_DELAY` in C.
    Forever,
}

impl Timeout {
    /// The C-side tick count of a timeout at width maximum `max`.
    pub open spec fn ticks_spec(self, max: u64) -> u64 {
        match self {
            Timeout::NoBlock => 0,
            Timeout::Ticks(n) => if n <= max {
                n
            } else {
                max
            },
            Timeout::Forever => max,
        }
    }

    /// The timeout a C-side tick count means at width maximum `max`.
    pub open spec fn from_ticks_spec(ticks: u64, max: u64) -> Timeout {
        if ticks == 0 {
            Timeout::NoBlock
        } else if ticks >= max {
            Timeout::Forever
        } else {
            Timeout::Ticks(ticks)
        }
    }

    /// The C-side tick count: `0`, the count (at most the width's maximum),
    /// or the width's maximum.
    pub fn to_ticks<C: Config>(self) -> (r: u64)
        ensures
            r == self.ticks_spec(<C::Tick as TickWidth>::MAX),
    {
        let max = <C::Tick as TickWidth>::MAX;
        match self {
            Timeout::NoBlock => 0,
            Timeout::Ticks(n) => if n <= max {
                n
            } else {
                max
            },
            Timeout::Forever => max,
        }
    }

    /// From a C-side tick count: `0` is [`Timeout::NoBlock`], the width's maximum
    /// (or more) is [`Timeout::Forever`], anything else is that many ticks.
    pub fn from_ticks<C: Config>(ticks: u64) -> (r: Self)
        ensures
            r == Self::from_ticks_spec(ticks, <C::Tick as TickWidth>::MAX),
    {
        let max = <C::Tick as TickWidth>::MAX;
        if ticks == 0 {
            Timeout::NoBlock
        } else if ticks >= max {
            Timeout::Forever
        } else {
            Timeout::Ticks(ticks)
        }
    }

    /// A timeout of `d`, converted against `C`.
    pub fn after<C: Config>(d: Duration) -> (r: Self)
        ensures
            r == Self::from_ticks_spec(
                min_u64((d@ * C::TICK_RATE_HZ) / 1_000_000, <C::Tick as TickWidth>::MAX),
                <C::Tick as TickWidth>::MAX,
            ),
    {
        Self::from_ticks::<C>(d.to_ticks::<C>())
    }

    /// Whether the call may block at all.
    pub fn blocks(self) -> (r: bool)
        ensures
            r == !(self is NoBlock),
    {
        match self {
            Timeout::NoBlock => false,
            _ => true,
        }
    }

    /// What a timeout is as a C-side count at width maximum `max`: never more
    /// than `max`; no blocking is `0`; forever is `max` (`portMAX_DELAY`); and
    /// a count of ticks is itself when it fits and is clamped to `max`, never
    /// wrapped, when it does not, so a long timeout stays the longest one.
    pub proof fn lemma_ticks_are_clamped(t: Timeout, max: u64)
        ensures
            t.ticks_spec(max) <= max,
            t is NoBlock ==> t.ticks_spec(max) == 0,
            t is Forever ==> t.ticks_spec(max) == max,
            t matches Timeout::Ticks(n) ==> (n <= max ==> t.ticks_spec(max) == n) && (max <= n
                ==> t.ticks_spec(max) == max),
            t matches Timeout::Ticks(n) ==> t.ticks_spec(max) <= n,
    {
    }

    /// The C convention round-trips: a tick count read as a timeout and
    /// written back is the count, capped at the width's maximum; and a
    /// timeout written as a count and read back is the same timeout, for
    /// every timeout that means what it says at that width.
    pub proof fn lemma_round_trip(t: Timeout, ticks: u64, max: u64)
        requires
            max > 0,
        ensures
            Self::from_ticks_spec(ticks, max).ticks_spec(max) == if ticks <= max {
                ticks
            } else {
                max
            },
            (match t {
                Timeout::Ticks(n) => 0 < n < max,
                _ => true,
            }) ==> Self::from_ticks_spec(t.ticks_spec(max), max) == t,
    {
    }
}

impl Default for Duration {
    /// Zero.
    fn default() -> (d: Self)
        ensures
            d@ == 0,
    {
        Duration { micros: 0 }
    }
}

impl Default for Timeout {
    /// Do not block.
    fn default() -> (t: Self)
        ensures
            t == Timeout::NoBlock,
    {
        Timeout::NoBlock
    }
}

} // verus!
