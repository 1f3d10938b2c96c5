use crate::update::Update;
use vstd::prelude::*;

verus! {

/// A counter, the simplest value to share.
#[derive(Clone, Copy, Debug, PartialEq, Eq, Structural)]
pub struct Value(pub u64);

/// One step of a counter.
#[derive(Clone, Copy, Debug, PartialEq, Eq, Structural)]
pub enum Change {
    /// One up.
    Inc,
    /// One down.
    Dec,
}

impl Default for Value {
    fn default() -> (r: Self)
        ensures
            r == Value(0),
    {
        Value(0)
    }
}

impl Update for Value {
    type Command = Change;

    /// A counter goes up unless it is at the largest number, and down
    /// unless it is at zero.
    open spec fn admits(self, command: Change) -> bool {
        match command {
            Change::Inc => self.0 < u64::MAX,
            Change::Dec => self.0 > 0,
        }
    }

    /// One up or one down.
    open spec fn applied(self, command: Change) -> Value {
        match command {
            Change::Inc => Value((self.0 + 1) as u64),
            Change::Dec => Value((self.0 - 1) as u64),
        }
    }

    fn can_apply(&self, command: &Change) -> (r: bool) {
        match command {
            Change::Inc => self.0 < u64::MAX,
            Change::Dec => self.0 > 0,
        }
    }

    fn update(&mut self, command: Change) {
        match command {
            Change::Inc => self.0 = self.0 + 1,
            Change::Dec => self.0 = self.0 - 1,
        }
    }
}

} // verus!
