//! The incapacitation state machine: healthy, stunned with a severity, or
//! dead, totally ordered in that sequence and by severity among stuns.

use vstd::prelude::*;

verus! {

/// The condition of a participant. `Dead` is terminal: no operation leaves it.
#[derive(Debug, Clone, Copy, PartialEq, Eq, Structural)]
pub enum Status {
    Healthy,
    Stunned(u32),
    Dead,
}

/// The strict total order on statuses: `Healthy` below any stun, stuns by
/// severity, `Dead` above all.
pub open spec fn status_lt(a: Status, b: Status) -> bool {
    match (a, b) {
        (Status::Healthy, Status::Stunned(_)) => true,
        (Status::Healthy, Status::Dead) => true,
        (Status::Stunned(_), Status::Dead) => true,
        (Status::Stunned(x), Status::Stunned(y)) => x < y,
        _ => false,
    }
}

/// The stun produced by `damage` against `hp` before the hit: eight
/// descending thresholds, the severest first.
pub open spec fn spec_stun_lock(damage: int, hp: int) -> Status {
    if damage * 7 >= hp * 6 {
        Status::Stunned(8)
    } else if damage * 6 >= hp * 5 {
        Status::Stunned(7)
    } else if damage * 5 >= hp * 4 {
        Status::Stunned(6)
    } else if damage * 4 >= hp * 3 {
        Status::Stunned(5)
    } else if damage * 3 >= hp * 2 {
        Status::Stunned(4)
    } else if damage * 2 >= hp {
        Status::Stunned(3)
    } else if damage * 3 >= hp {
        Status::Stunned(2)
    } else if damage * 4 >= hp {
        Status::Stunned(1)
    } else {
        Status::Healthy
    }
}

impl Status {
    /// A status as combat produces it: stun severities stay between 1 and 8.
    pub open spec fn wf(self) -> bool {
        match self {
            Status::Stunned(x) => 1 <= x <= 8,
            _ => true,
        }
    }

    /// Whether `self` is strictly above `other` in the status order.
    pub fn gt(&self, other: &Status) -> (r: bool)
        ensures
            r == status_lt(*other, *self),
    {
        match (*self, *other) {
            (Status::Stunned(_), Status::Healthy) => true,
            (Status::Dead, Status::Healthy) => true,
            (Status::Dead, Status::Stunned(_)) => true,
            (Status::Stunned(x), Status::Stunned(y)) => y < x,
            _ => false,
        }
    }

    /// Calculate the stun-lock effect of `damage` dealt against `hp` hit
    /// points held before the hit.
    pub fn stun_lock(damage: i32, hp: i32) -> (r: Status)
        ensures
            r == spec_stun_lock(damage as int, hp as int),
            r.wf(),
            r != Status::Dead,
    {
        let d = damage as i64;
        let h = hp as i64;
        if d * 7 >= h * 6 {
            Status::Stunned(8)
        } else if d * 6 >= h * 5 {
            Status::Stunned(7)
        } else if d * 5 >= h * 4 {
            Status::Stunned(6)
        } else if d * 4 >= h * 3 {
            Status::Stunned(5)
        } else if d * 3 >= h * 2 {
            Status::Stunned(4)
        } else if d * 2 >= h {
            Status::Stunned(3)
        } else if d * 3 >= h {
            Status::Stunned(2)
        } else if d * 4 >= h {
            Status::Stunned(1)
        } else {
            Status::Healthy
        }
    }

    /// The one-character marker the table shows for this status.
    pub fn symbol(&self) -> (r: &'static str)
        ensures
            *self is Healthy ==> r@ == "+"@,
            *self is Stunned ==> r@ == "*"@,
            *self is Dead ==> r@ == "#"@,
    {
        match *self {
            Status::Dead => "#",
            Status::Stunned(_) => "*",
            Status::Healthy => "+",
        }
    }
}

impl Default for Status {
    /// A participant starts out healthy.
    fn default() -> (r: Self)
        ensures
            r == Status::Healthy,
    {
        Status::Healthy
    }
}

/// Zero damage never stuns: against any positive hit-point total the
/// stun-lock of no damage is `Healthy`.
pub proof fn lemma_stun_lock_zero_damage(hp: int)
    requires
        hp > 0,
    ensures
        spec_stun_lock(0, hp) == Status::Healthy,
{
}

} // verus!
