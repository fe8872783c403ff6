use vstd::prelude::*;
use vstd::std_specs::cmp::PartialOrdSpecImpl;
use std::cmp::Ordering;

verus! {

#[derive(Debug, Clone, Copy, PartialEq, Eq, Structural)]
pub enum StPriority {
    Low,
    Medium,
    High,
}

impl StPriority {
    /// The place of the priority in the order of importance: the smaller, the more
    /// important, so that `High < Medium < Low`.
    pub open spec fn rank(self) -> int {
        match self {
            StPriority::High => 1,
            StPriority::Medium => 2,
            StPriority::Low => 3,
        }
    }

    /// The place of the priority in the order of importance.
    pub fn rank_value(&self) -> (r: u8)
        ensures
            r == self.rank(),
    {
        match self {
            StPriority::High => 1,
            StPriority::Medium => 2,
            StPriority::Low => 3,
        }
    }
}

/// The place of an optional priority: a schedule without a priority comes before all that
/// have one.
pub open spec fn priority_rank(priority: Option<StPriority>) -> int {
    match priority {
        None => 0,
        Some(p) => p.rank(),
    }
}

/// The place of an optional priority.
pub fn priority_rank_value(priority: &Option<StPriority>) -> (r: u8)
    ensures
        r == priority_rank(*priority),
{
    match priority {
        None => 0,
        Some(p) => p.rank_value(),
    }
}

impl PartialOrd for StPriority {
    fn partial_cmp(&self, other: &Self) -> (r: Option<Ordering>) {
        let a = self.rank_value();
        let b = other.rank_value();
        if a < b {
            Some(Ordering::Less)
        } else if a > b {
            Some(Ordering::Greater)
        } else {
            Some(Ordering::Equal)
        }
    }
}

impl PartialOrdSpecImpl for StPriority {
    open spec fn obeys_partial_cmp_spec() -> bool {
        true
    }

    open spec fn partial_cmp_spec(&self, other: &Self) -> Option<Ordering> {
        if self.rank() < other.rank() {
            Some(Ordering::Less)
        } else if self.rank() > other.rank() {
            Some(Ordering::Greater)
        } else {
            Some(Ordering::Equal)
        }
    }
}

} // verus!
