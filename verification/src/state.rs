//! The progress of a bar: its position, its animation ticks, its total.
use vstd::prelude::*;

verus! {

/// The progress of a bar. Positions and ticks wrap around at `u64::MAX`, as
/// an atomic counter's `fetch_add` does.
#[derive(Debug, Clone, Copy, PartialEq, Eq, Structural)]
pub struct State {
    pub position: u64,
    pub ticks: u64,
    pub total: Option<u64>,
}

/// `a + b` wrapped to 64 bits.
pub open spec fn wrapping_add(a: u64, b: u64) -> u64 {
    if a + b <= u64::MAX { (a + b) as u64 } else { (a + b - u64::MAX - 1) as u64 }
}

/// `a - b`, or 0 where `b` is larger.
pub open spec fn saturating_sub(a: u64, b: u64) -> u64 {
    if b <= a { (a - b) as u64 } else { 0 }
}

pub(crate) fn add_wrapping(a: u64, b: u64) -> (r: u64)
    ensures
        r == wrapping_add(a, b),
{
    if b <= u64::MAX - a {
        a + b
    } else {
        b - (u64::MAX - a) - 1
    }
}

impl State {
    /// A bar at position 0 with no ticks.
    pub fn new(total: Option<u64>) -> (s: State)
        ensures
            s == (State { position: 0, ticks: 0, total }),
    {
        State { position: 0, ticks: 0, total }
    }

    /// Moves the position forward by `delta`.
    pub fn increment(&mut self, delta: u64)
        ensures
            *final(self) == (State { position: wrapping_add(old(self).position, delta), ..*old(self) }),
    {
        self.position = add_wrapping(self.position, delta);
    }

    /// Moves the position back by `delta`, stopping at 0.
    pub fn decrement(&mut self, delta: u64)
        ensures
            *final(self) == (State { position: saturating_sub(old(self).position, delta), ..*old(self) }),
    {
        self.position = if delta <= self.position { self.position - delta } else { 0 };
    }

    /// Sets the position.
    pub fn set_position(&mut self, pos: u64)
        ensures
            *final(self) == (State { position: pos, ..*old(self) }),
    {
        self.position = pos;
    }

    /// Advances the animation by one tick.
    pub fn tick(&mut self)
        ensures
            *final(self) == (State { ticks: wrapping_add(old(self).ticks, 1), ..*old(self) }),
    {
        self.ticks = add_wrapping(self.ticks, 1);
    }

    /// Sets the total, or makes the bar unbounded with `None`.
    pub fn set_total(&mut self, total: Option<u64>)
        ensures
            *final(self) == (State { total, ..*old(self) }),
    {
        self.total = total;
    }
}

/// How many ancestors an increment or a decrement reaches besides the bar
/// itself: each one up the chain for as long as the bar below it is linked
/// to its parent.
/// `linked[i]` tells whether the bar `i` levels up from the incremented one
/// is linked to a parent it has.
pub fn increment_reach(linked: &[bool]) -> (r: usize)
    ensures
        r <= linked@.len(),
        forall|i: int| 0 <= i < r ==> linked@[i],
        r < linked@.len() ==> !linked@[r as int],
{
    let mut i: usize = 0;
    while i < linked.len() && linked[i]
        invariant
            i <= linked@.len(),
            forall|j: int| 0 <= j < i ==> linked@[j],
        decreases linked@.len() - i,
    {
        i = i + 1;
    }
    i
}

/// Law: decrementing by what was just added gives the position back, when
/// the increment did not wrap around.
pub proof fn law_decrement_undoes_increment(pos: u64, delta: u64)
    requires
        pos + delta <= u64::MAX,
    ensures
        saturating_sub(wrapping_add(pos, delta), delta) == pos,
{
}

/// Law: a decrement never takes the position below 0 and never raises it.
pub proof fn law_decrement_saturates(pos: u64, delta: u64)
    ensures
        saturating_sub(pos, delta) <= pos,
        delta >= pos ==> saturating_sub(pos, delta) == 0,
{
}

} // verus!
