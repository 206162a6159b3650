//! Lengths of time and points in time, counted in nanoseconds.

use vstd::prelude::*;

verus! {

/// The largest length of time there is: `u64::MAX` seconds and 999 999 999
/// nanoseconds (the range of `std::time::Duration`).
pub open spec fn max_nanos() -> int {
    18446744073709551615999999999int
}

/// A length of time, or a point in time counted from a fixed origin, in
/// nanoseconds.
#[derive(Clone, Copy, Debug, PartialEq, Eq, Structural)]
pub struct Span {
    pub nanos: u128,
}

impl Span {
    /// In the range of `std::time::Duration`.
    pub open spec fn wf(self) -> bool {
        self.nanos <= max_nanos()
    }

    /// No time at all.
    pub fn zero() -> (r: Span)
        ensures
            r.nanos == 0,
            r.wf(),
    {
        Span { nanos: 0 }
    }

    /// The longest span (`Duration::MAX`).
    pub fn max() -> (r: Span)
        ensures
            r.nanos == max_nanos(),
            r.wf(),
    {
        Span { nanos: 18446744073709551615999999999u128 }
    }

    /// `secs` seconds.
    pub fn from_secs(secs: u64) -> (r: Span)
        ensures
            r.nanos == secs * 1000000000,
            r.wf(),
    {
        assert(secs * 1000000000 <= max_nanos()) by (nonlinear_arith)
            requires
                secs <= 18446744073709551615u64,
        ;
        Span { nanos: secs as u128 * 1000000000u128 }
    }

    /// `mins` minutes (`Duration::from_mins`, which panics when the seconds
    /// overflow a `u64`).
    pub fn from_mins(mins: u64) -> (r: Span)
        requires
            mins * 60 <= u64::MAX,
        ensures
            r.nanos == mins * 60 * 1000000000,
            r.wf(),
    {
        Span::from_secs(mins * 60)
    }

    /// `self + other`, or the longest span where that would exceed it
    /// (`Duration::saturating_add`).
    pub fn saturating_add(self, other: Span) -> (r: Span)
        requires
            self.wf(),
            other.wf(),
        ensures
            r.wf(),
            r.nanos == if self.nanos + other.nanos <= max_nanos() {
                self.nanos + other.nanos
            } else {
                max_nanos()
            },
    {
        let sum = self.nanos + other.nanos;
        if sum <= 18446744073709551615999999999u128 {
            Span { nanos: sum }
        } else {
            Span::max()
        }
    }

    /// Time from `earlier` to `self`, zero when `earlier` is later
    /// (`Instant::duration_since`).
    pub fn saturating_since(self, earlier: Span) -> (r: Span)
        requires
            self.wf(),
        ensures
            r.wf(),
            r.nanos == if earlier.nanos <= self.nanos {
                self.nanos - earlier.nanos
            } else {
                0
            },
    {
        if earlier.nanos <= self.nanos {
            Span { nanos: self.nanos - earlier.nanos }
        } else {
            Span::zero()
        }
    }
}

/// `n` nanoseconds before the epoch when `before_epoch`, else after it.
pub open spec fn signed_offset(before_epoch: bool, n: int) -> int {
    if before_epoch {
        -n
    } else {
        n
    }
}

/// The time from `earlier` to `later`, where it is a length of time in the
/// range of `Duration`: `None` when `earlier` is later.
pub open spec fn elapsed_between(earlier: int, later: int) -> Option<int> {
    if earlier <= later && later - earlier <= max_nanos() {
        Some(later - earlier)
    } else {
        None
    }
}

/// A wall-clock time: nanoseconds from the UNIX epoch, negative before it.
/// Its distance from the epoch is a `Duration` either way.
#[derive(Clone, Copy, Debug, PartialEq, Eq, Structural)]
pub struct WallTime {
    nanos: i128,
}

impl View for WallTime {
    type V = int;

    closed spec fn view(&self) -> int {
        self.nanos as int
    }
}

impl WallTime {
    #[verifier::type_invariant]
    closed spec fn within_duration_of_epoch(self) -> bool {
        -max_nanos() <= self.nanos <= max_nanos()
    }

    /// The time `offset` after the epoch, or before it when `before_epoch`.
    pub fn from_offset(before_epoch: bool, offset: Span) -> (r: WallTime)
        requires
            offset.wf(),
        ensures
            r@ == signed_offset(before_epoch, offset.nanos as int),
    {
        let n = offset.nanos as i128;
        if before_epoch {
            WallTime { nanos: -n }
        } else {
            WallTime { nanos: n }
        }
    }

    /// Which side of the epoch the time is on, and how far from it; the
    /// epoch itself counts as after it.
    pub fn epoch_offset(&self) -> (r: (bool, Span))
        ensures
            r.1.wf(),
            signed_offset(r.0, r.1.nanos as int) == self@,
            r.0 == (self@ < 0),
    {
        proof {
            use_type_invariant(self);
        }
        if self.nanos < 0 {
            (true, Span { nanos: (-self.nanos) as u128 })
        } else {
            (false, Span { nanos: self.nanos as u128 })
        }
    }

    /// Time from `earlier` to `self` (`SystemTime::duration_since`): `None`
    /// when `earlier` is later, or when the gap is beyond the range of a
    /// `Duration`.
    pub fn since(&self, earlier: &WallTime) -> (r: Option<Span>)
        ensures
            match r {
                Some(d) => d.wf() && elapsed_between(earlier@, self@) == Some(d.nanos as int),
                None => elapsed_between(earlier@, self@) is None,
            },
    {
        proof {
            use_type_invariant(self);
            use_type_invariant(earlier);
        }
        if earlier.nanos <= self.nanos {
            let d = self.nanos - earlier.nanos;
            if d <= 18446744073709551615999999999i128 {
                Some(Span { nanos: d as u128 })
            } else {
                None
            }
        } else {
            None
        }
    }
}

/// Where the system clock stands against the UNIX epoch
/// (`UNIX_EPOCH.elapsed()`): `(false, d)` when it reads `d` after the epoch,
/// `(true, d)` when it reads earlier, `d` then being the error's
/// `duration()`. The reading depends on the clock: nothing is promised of it
/// but that `d` is a `Duration`.
#[verifier::external_body]
fn wall_clock_reading() -> (r: (bool, Span))
    ensures
        r.1.wf(),
{
    match std::time::UNIX_EPOCH.elapsed() {
        Ok(d) => (false, Span { nanos: d.as_nanos() }),
        Err(e) => (true, Span { nanos: e.duration().as_nanos() }),
    }
}

/// The current wall-clock time (`SystemTime::now`), on either side of the
/// epoch.
pub fn wall_clock_now() -> WallTime {
    let (before_epoch, offset) = wall_clock_reading();
    WallTime::from_offset(before_epoch, offset)
}

#[verifier::external_type_specification]
#[verifier::external_body]
pub struct ExInstant(std::time::Instant);

/// A monotonic clock counting from the moment it was started.
pub struct MonotonicClock {
    origin: std::time::Instant,
}

/// The current instant (`Instant::now`); nothing is promised of it.
#[verifier::external_body]
fn instant_now() -> std::time::Instant {
    std::time::Instant::now()
}

/// Time elapsed since `origin` (`Instant::elapsed`); it depends on the clock,
/// so only its range is promised.
#[verifier::external_body]
fn instant_elapsed(origin: &std::time::Instant) -> (r: Span)
    ensures
        r.wf(),
{
    Span { nanos: origin.elapsed().as_nanos() }
}

impl MonotonicClock {
    /// A clock started now.
    pub fn start() -> MonotonicClock {
        MonotonicClock { origin: instant_now() }
    }

    /// The time elapsed since the clock was started.
    pub fn now(&self) -> (r: Span)
        ensures
            r.wf(),
    {
        instant_elapsed(&self.origin)
    }
}

} // verus!
