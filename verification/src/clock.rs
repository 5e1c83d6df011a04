//! Integers as the table stores them, and timestamps.
use vstd::prelude::*;

verus! {

/// The signed integer with the same 64 bits as `x`.
pub open spec fn signed(x: u64) -> i64 {
    if x <= i64::MAX {
        x as i64
    } else {
        (x - 0x1_0000_0000_0000_0000) as i64
    }
}

/// The unsigned integer with the same 64 bits as `x`.
pub open spec fn unsigned(x: i64) -> u64 {
    if x >= 0 {
        x as u64
    } else {
        (x + 0x1_0000_0000_0000_0000) as u64
    }
}

/// Reinterprets an unsigned integer as a signed one.
pub fn to_signed(x: u64) -> (y: i64)
    ensures
        y == signed(x),
{
    if x <= i64::MAX as u64 {
        x as i64
    } else {
        (x as i128 - 0x1_0000_0000_0000_0000) as i64
    }
}

/// Reinterprets a signed integer as an unsigned one.
pub fn to_unsigned(x: i64) -> (y: u64)
    ensures
        y == unsigned(x),
{
    if x >= 0 {
        x as u64
    } else {
        (x as i128 + 0x1_0000_0000_0000_0000) as u64
    }
}

/// Every number survives being stored as the other kind of integer and read back. What both
/// kinds can hold stays as it is; anything else moves by the number of 64-bit integers.
pub proof fn law_integers_round_trip(x: u64, y: i64)
    ensures
        unsigned(signed(x)) == x,
        signed(unsigned(y)) == y,
        x <= 0x7fff_ffff_ffff_ffff ==> signed(x) == x,
        x > 0x7fff_ffff_ffff_ffff ==> x - signed(x) == 0x1_0000_0000_0000_0000,
        y >= 0 ==> unsigned(y) == y,
        y < 0 ==> unsigned(y) - y == 0x1_0000_0000_0000_0000,
{
}

/// Reads the system clock through `SystemTime::now` and hands out the distance to the Unix
/// epoch in nanoseconds, or nothing when the clock stands before the epoch. What the clock
/// says is up to the machine: nothing is claimed of it, not even that it never runs
/// backwards.
#[verifier::external_body]
fn nanos_since_epoch() -> (reading: Option<u128>)
{
    match std::time::SystemTime::now().duration_since(std::time::UNIX_EPOCH) {
        Ok(distance) => Some(distance.as_nanos()),
        Err(_) => None,
    }
}

/// What the system clock said at one moment. There is no other way to come by one than to
/// read the clock.
pub struct ClockReading {
    nanos: Option<u128>,
}

impl View for ClockReading {
    type V = Option<u128>;

    /// The nanoseconds since the Unix epoch; nothing for a clock before the epoch.
    closed spec fn view(&self) -> Option<u128> {
        self.nanos
    }
}

/// Reads the system clock.
pub fn read_clock() -> ClockReading {
    ClockReading { nanos: nanos_since_epoch() }
}

impl ClockReading {
    /// The timestamp in seconds.
    pub fn secs(&self) -> (stamp: i64)
        ensures
            stamp == secs_stamp(self@),
    {
        secs_from_reading(self.nanos)
    }

    /// The timestamp in nanoseconds.
    pub fn nanos(&self) -> (stamp: i64)
        ensures
            stamp == nanos_stamp(self@),
    {
        nanos_from_reading(self.nanos)
    }
}

/// The timestamp in seconds that a clock reading in nanoseconds stands for; zero for a clock
/// before the epoch.
pub open spec fn secs_stamp(reading: Option<u128>) -> i64 {
    match reading {
        Some(nanos) => signed(((nanos / 1_000_000_000) % 0x1_0000_0000_0000_0000) as u64),
        None => 0,
    }
}

/// The timestamp in nanoseconds that a clock reading stands for; zero for a clock before the
/// epoch.
pub open spec fn nanos_stamp(reading: Option<u128>) -> i64 {
    match reading {
        Some(nanos) => signed((nanos % 0x1_0000_0000_0000_0000) as u64),
        None => 0,
    }
}

/// Turns a clock reading into a timestamp in seconds.
pub fn secs_from_reading(reading: Option<u128>) -> (stamp: i64)
    ensures
        stamp == secs_stamp(reading),
{
    match reading {
        Some(nanos) => to_signed(((nanos / 1_000_000_000) % 0x1_0000_0000_0000_0000) as u64),
        None => 0,
    }
}

/// Turns a clock reading into a timestamp in nanoseconds.
pub fn nanos_from_reading(reading: Option<u128>) -> (stamp: i64)
    ensures
        stamp == nanos_stamp(reading),
{
    match reading {
        Some(nanos) => to_signed((nanos % 0x1_0000_0000_0000_0000) as u64),
        None => 0,
    }
}

/// The present, in seconds since the Unix epoch.
pub fn now_secs() -> (stamp: i64)
    ensures
        exists|now: ClockReading| stamp == secs_stamp(#[trigger] now@),
{
    let now = read_clock();
    let stamp = now.secs();
    assert(stamp == secs_stamp(now@));
    stamp
}

/// The present, in nanoseconds since the Unix epoch. Recency is ordered by this finer stamp,
/// since several uses can fall within one second.
pub fn now_nanos() -> (stamp: i64)
    ensures
        exists|now: ClockReading| stamp == nanos_stamp(#[trigger] now@),
{
    let now = read_clock();
    let stamp = now.nanos();
    assert(stamp == nanos_stamp(now@));
    stamp
}

/// Readings of the clock up to the year 2262 stand in the table as they are.
pub proof fn law_stamps_are_readings(reading: u128)
    requires
        reading <= i64::MAX,
    ensures
        nanos_stamp(Some(reading)) == reading,
        secs_stamp(Some(reading)) == reading / 1_000_000_000,
        unsigned(nanos_stamp(Some(reading))) / 1_000_000_000 == secs_stamp(Some(reading)),
{
}

/// A later timestamp shows a later second or the same, unless the earlier one lies before the
/// epoch and the later one does not: what lies before the epoch shows as far in the future.
pub proof fn law_seconds_rise(earlier: i64, later: i64)
    requires
        earlier <= later,
        !(earlier < 0 <= later),
    ensures
        unsigned(earlier) / 1_000_000_000 <= unsigned(later) / 1_000_000_000,
{
}

/// The whole seconds of a stored timestamp in nanoseconds.
pub fn nanos_to_secs(nanos: i64) -> (secs: u64)
    ensures
        secs == unsigned(nanos) / 1_000_000_000,
{
    to_unsigned(nanos) / 1_000_000_000
}

} // verus!
