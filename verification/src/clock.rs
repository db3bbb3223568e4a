//! From the time of the process to the time that is stored. Both are counted in nanoseconds: the
//! monotonic time from an origin of its own, the wall time from the Unix epoch.

use vstd::prelude::*;

verus! {

/// The last wall time that can be held: the end of the last second of 64 bits.
pub const WALL_MAX: i128 = 9_223_372_036_854_775_807_999_999_999;

/// Why a time cannot be given.
#[derive(Clone, Copy, Debug, PartialEq, Eq, Structural)]
pub enum ClockError {
    BeforeEpoch,
    MillisOverflow,
    MonotonicBackwards,
    WallOverflow,
}

impl ClockError {
    /// The message of an error.
    pub open spec fn text(self) -> Seq<char> {
        match self {
            ClockError::BeforeEpoch => "时间早于 Unix epoch"@,
            ClockError::MillisOverflow => "时间溢出"@,
            ClockError::MonotonicBackwards => "单调时间回退"@,
            ClockError::WallOverflow => "UTC 时间溢出"@,
        }
    }

    /// The message of the error.
    pub fn label(self) -> (label: &'static str)
        ensures
            label@ == self.text(),
    {
        match self {
            ClockError::BeforeEpoch => "时间早于 Unix epoch",
            ClockError::MillisOverflow => "时间溢出",
            ClockError::MonotonicBackwards => "单调时间回退",
            ClockError::WallOverflow => "UTC 时间溢出",
        }
    }
}

/// The milliseconds of a wall time, rounded down.
pub open spec fn stored_millis(wall: int) -> Result<int, ClockError> {
    if wall < 0 {
        Err(ClockError::BeforeEpoch)
    } else if wall / 1_000_000 > i64::MAX {
        Err(ClockError::MillisOverflow)
    } else {
        Ok(wall / 1_000_000)
    }
}

/// The milliseconds of a wall time.
pub fn unix_millis(wall: i128) -> (result: Result<i64, ClockError>)
    ensures
        match stored_millis(wall as int) {
            Ok(millis) => result is Ok && result->Ok_0 == millis,
            Err(error) => result == Err::<i64, ClockError>(error),
        },
{
    if wall < 0 {
        return Err(ClockError::BeforeEpoch);
    }
    let millis: i128 = wall / 1_000_000;
    if millis > i64::MAX as i128 {
        Err(ClockError::MillisOverflow)
    } else {
        Ok(millis as i64)
    }
}

/// A clock that carries the wall time on by the monotonic one, so that a change of the system time
/// does not move deadlines that are set.
#[derive(Clone, Copy, Debug)]
pub struct Clock {
    pub monotonic: u64,
    pub wall: i128,
}

impl Clock {
    /// The wall time at a moment.
    pub open spec fn wall_time(self, now: u64) -> Result<int, ClockError> {
        if now < self.monotonic {
            Err(ClockError::MonotonicBackwards)
        } else if self.wall + (now - self.monotonic) > WALL_MAX {
            Err(ClockError::WallOverflow)
        } else {
            Ok(self.wall + (now - self.monotonic))
        }
    }

    /// The milliseconds at a moment, rounded up.
    pub open spec fn millis_time(self, now: u64) -> Result<int, ClockError> {
        match self.wall_time(now) {
            Err(error) => Err(error),
            Ok(wall) => if wall + 999_999 > WALL_MAX {
                Err(ClockError::WallOverflow)
            } else {
                stored_millis(wall + 999_999)
            },
        }
    }

    /// A clock that reads `wall` at the moment `monotonic`.
    pub fn new(monotonic: u64, wall: i128) -> (clock: Clock)
        ensures
            clock.monotonic == monotonic,
            clock.wall == wall,
    {
        Clock { monotonic, wall }
    }

    /// The wall time at a moment.
    pub fn wall_at(&self, now: u64) -> (result: Result<i128, ClockError>)
        ensures
            match self.wall_time(now) {
                Ok(wall) => result is Ok && result->Ok_0 == wall,
                Err(error) => result == Err::<i128, ClockError>(error),
            },
    {
        if now < self.monotonic {
            return Err(ClockError::MonotonicBackwards);
        }
        let elapsed: i128 = (now - self.monotonic) as i128;
        match self.wall.checked_add(elapsed) {
            None => Err(ClockError::WallOverflow),
            Some(wall) => if wall > WALL_MAX {
                Err(ClockError::WallOverflow)
            } else {
                Ok(wall)
            },
        }
    }

    /// The milliseconds at a moment, rounded up, so that nothing is sent too early.
    pub fn millis_at(&self, now: u64) -> (result: Result<i64, ClockError>)
        ensures
            match self.millis_time(now) {
                Ok(millis) => result is Ok && result->Ok_0 == millis,
                Err(error) => result == Err::<i64, ClockError>(error),
            },
    {
        match self.wall_at(now) {
            Err(error) => Err(error),
            Ok(wall) => if wall > WALL_MAX - 999_999 {
                Err(ClockError::WallOverflow)
            } else {
                unix_millis(wall + 999_999)
            },
        }
    }
}

/// The milliseconds of a moment are never before it, and less than one millisecond behind it.
pub proof fn lemma_rounded_up(clock: Clock, now: u64)
    requires
        clock.millis_time(now) is Ok,
    ensures
        clock.wall_time(now) is Ok,
        clock.wall_time(now)->Ok_0 <= 1_000_000 * clock.millis_time(now)->Ok_0,
        1_000_000 * clock.millis_time(now)->Ok_0 < clock.wall_time(now)->Ok_0 + 1_000_000,
{
}

/// A later moment never has fewer milliseconds.
pub proof fn lemma_clock_monotone(clock: Clock, first: u64, second: u64)
    requires
        first <= second,
        clock.millis_time(first) is Ok,
        clock.millis_time(second) is Ok,
    ensures
        clock.millis_time(first)->Ok_0 <= clock.millis_time(second)->Ok_0,
{
}

/// The wall time goes on by what the monotonic time has gone on. A monotonic time before the start
/// is refused, and so is what cannot be held.
pub proof fn lemma_wall_time(clock: Clock, now: u64)
    ensures
        now < clock.monotonic ==> clock.wall_time(now) == Err::<int, ClockError>(
            ClockError::MonotonicBackwards,
        ),
        clock.wall_time(now) matches Ok(wall) ==> wall - clock.wall == now - clock.monotonic && now
            >= clock.monotonic,
        now >= clock.monotonic && clock.wall + (now - clock.monotonic)
            <= 9_223_372_036_854_775_807_999_999_999 ==> clock.wall_time(now) is Ok,
        now >= clock.monotonic && clock.wall_time(now) is Err ==> clock.wall_time(now) == Err::<
            int,
            ClockError,
        >(ClockError::WallOverflow),
{
}

/// Stored milliseconds are the whole ones of a time since the epoch.
pub proof fn lemma_stored_millis(wall: int)
    ensures
        wall < 0 ==> stored_millis(wall) == Err::<int, ClockError>(ClockError::BeforeEpoch),
        stored_millis(wall) matches Ok(millis) ==> millis * 1_000_000 <= wall < (millis + 1)
            * 1_000_000 && 0 <= wall,
        0 <= wall < (i64::MAX + 1) * 1_000_000 ==> stored_millis(wall) is Ok,
        wall >= (i64::MAX + 1) * 1_000_000 ==> stored_millis(wall) == Err::<int, ClockError>(
            ClockError::MillisOverflow,
        ),
{
}

/// A moment has milliseconds wherever its wall time does not lie before the epoch and can still be
/// rounded up.
pub proof fn lemma_millis_time(clock: Clock, now: u64)
    ensures
        clock.wall_time(now) is Err ==> clock.millis_time(now) is Err
            && clock.millis_time(now)->Err_0 == clock.wall_time(now)->Err_0,
        clock.wall_time(now) matches Ok(wall) ==> {
            &&& wall < -999_999 ==> clock.millis_time(now) == Err::<int, ClockError>(
                ClockError::BeforeEpoch,
            )
            &&& -999_999 <= wall <= 9_223_372_036_854_775_807_000_000 ==> clock.millis_time(now)
                is Ok
            &&& 9_223_372_036_854_775_807_000_000 < wall
                <= 9_223_372_036_854_775_807_999_000_000 ==> clock.millis_time(now) == Err::<
                int,
                ClockError,
            >(ClockError::MillisOverflow)
            &&& wall > 9_223_372_036_854_775_807_999_000_000 ==> clock.millis_time(now) == Err::<
                int,
                ClockError,
            >(ClockError::WallOverflow)
        },
        ClockError::BeforeEpoch.text() == "时间早于 Unix epoch"@,
        ClockError::MillisOverflow.text() == "时间溢出"@,
        ClockError::MonotonicBackwards.text() == "单调时间回退"@,
        ClockError::WallOverflow.text() == "UTC 时间溢出"@,
{
}

} // verus!
