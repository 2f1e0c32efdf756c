//! The simulation tick: a counter of sixteen bits that wraps around.
use vstd::prelude::*;

verus! {

/// The integer that the sixteen low bits of `n` stand for in two's complement.
pub open spec fn signed16(n: int) -> int {
    let low = n % 0x1_0000;
    if low < 0x8000 {
        low
    } else {
        low - 0x1_0000
    }
}

/// A point in simulation time.
#[derive(Clone, Copy, Debug, PartialEq, Eq, Structural, Hash)]
pub struct Tick(pub u16);

impl Tick {
    /// How far `self` lies after `earlier`, the short way round the counter.
    pub open spec fn since_spec(self, earlier: Tick) -> int {
        signed16(self.0 - earlier.0)
    }

    /// The tick `offset` steps away.
    pub open spec fn offset_spec(self, offset: int) -> Tick {
        Tick(((self.0 + offset) % 0x1_0000) as u16)
    }

    /// Whether `self` is `other` or lies after it, the short way round the counter.
    ///
    /// Of two ticks half the counter apart each counts as having reached the other.
    pub open spec fn reached_spec(self, other: Tick) -> bool {
        other.since_spec(self) <= 0
    }

    pub fn since(self, earlier: Tick) -> (ticks: i16)
        ensures
            ticks == self.since_spec(earlier),
    {
        let low: u16 = self.0.wrapping_sub(earlier.0);
        to_signed(low)
    }

    pub fn reached(self, other: Tick) -> (reached: bool)
        ensures
            reached == self.reached_spec(other),
    {
        other.since(self) <= 0
    }

    pub fn offset(self, offset: i16) -> (tick: Tick)
        ensures
            tick == self.offset_spec(offset as int),
    {
        let sum: i32 = self.0 as i32 + offset as i32;
        if sum < 0 {
            Tick((sum + 0x1_0000) as u16)
        } else if sum >= 0x1_0000 {
            Tick((sum - 0x1_0000) as u16)
        } else {
            Tick(sum as u16)
        }
    }
}

/// Reads sixteen bits as a two's complement number.
pub fn to_signed(bits: u16) -> (value: i16)
    ensures
        value == signed16(bits as int),
{
    if bits < 0x8000 {
        bits as i16
    } else {
        (bits as i32 - 0x1_0000) as i16
    }
}

/// Reads a two's complement number of sixteen bits as an unsigned one.
pub fn to_unsigned(value: i16) -> (bits: u16)
    ensures
        bits == value as int % 0x1_0000,
{
    if value >= 0 {
        value as u16
    } else {
        (value as i32 + 0x1_0000) as u16
    }
}

/// Ticks are counted the short way round: the distance from one to another is that of their counters,
/// give or take whole turns, and less than half a turn ahead or at most half a turn back.
pub proof fn law_ticks_go_the_short_way(a: Tick, b: Tick)
    ensures
        (a.0 - b.0 - a.since_spec(b)) % 0x1_0000 == 0,
        -0x8000 <= a.since_spec(b) < 0x8000,
        a.since_spec(b) == 0 <==> a == b,
        a.reached_spec(b) <==> a.since_spec(b) >= 0 || a.since_spec(b) == -0x8000,
{
}

/// A tick some steps away lies as many steps away, either way, as long as these are less than half a
/// turn, and going back undoes going ahead.
pub proof fn law_steps_are_counted(a: Tick, n: int)
    ensures
        (a.offset_spec(n).0 - a.0 - n) % 0x1_0000 == 0,
        -0x8000 <= n < 0x8000 ==> a.offset_spec(n).since_spec(a) == n,
        a.offset_spec(n).offset_spec(-n) == a,
{
}

} // verus!
