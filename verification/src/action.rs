//! The kinds of action a cell can take, and the four directions in
//! which it can act.

use vstd::prelude::*;

verus! {

/// What a cell can do in its turn.
#[derive(Clone, Copy, PartialEq, Eq, Debug, Structural)]
pub enum Action {
    /// Hand some energy to the target cell.
    Energize,
    /// Move into the target slot.
    Move,
    /// Move into the target slot and take the energy of what is there.
    Eat,
    /// Put an offspring into the target slot.
    Divide,
    /// Gain some energy.
    Charge,
}

impl Action {
    /// The number of action kinds.
    pub const LENGTH: usize = 5;

    /// The action kind that the score at index `i` stands for.
    pub open spec fn at(i: int) -> Action {
        if i == 0 {
            Action::Energize
        } else if i == 1 {
            Action::Divide
        } else if i == 2 {
            Action::Eat
        } else if i == 3 {
            Action::Move
        } else {
            Action::Charge
        }
    }

    /// The index of the score that stands for this action kind.
    pub open spec fn spec_index(self) -> int {
        match self {
            Action::Energize => 0,
            Action::Divide => 1,
            Action::Eat => 2,
            Action::Move => 3,
            Action::Charge => 4,
        }
    }

    /// The action kind at index `i`, if `i` is below `LENGTH`.
    pub fn from_index(i: usize) -> (r: Option<Action>)
        ensures
            r == if i < Action::LENGTH {
                Some(Action::at(i as int))
            } else {
                None
            },
    {
        if i == 0 {
            Some(Action::Energize)
        } else if i == 1 {
            Some(Action::Divide)
        } else if i == 2 {
            Some(Action::Eat)
        } else if i == 3 {
            Some(Action::Move)
        } else if i == 4 {
            Some(Action::Charge)
        } else {
            None
        }
    }

    /// The index of this action kind.
    pub fn index(self) -> (i: usize)
        ensures
            i == self.spec_index(),
            i < Action::LENGTH,
            Action::at(i as int) == self,
    {
        match self {
            Action::Energize => 0,
            Action::Divide => 1,
            Action::Eat => 2,
            Action::Move => 3,
            Action::Charge => 4,
        }
    }
}

/// The indices below `LENGTH` and the action kinds correspond one to
/// one.
pub proof fn lemma_action_indices(a: Action, i: int)
    ensures
        0 <= a.spec_index() < Action::LENGTH,
        Action::at(a.spec_index()) == a,
        0 <= i < Action::LENGTH ==> Action::at(i).spec_index() == i,
{
}

/// The number of directions in which a cell can act.
pub const DIRECTION_COUNT: usize = 4;

/// The offset of direction `d`: up, left, right, down.
pub open spec fn direction_offset(d: int) -> (int, int) {
    if d == 0 {
        (0, 1)
    } else if d == 1 {
        (-1, 0)
    } else if d == 2 {
        (1, 0)
    } else {
        (0, -1)
    }
}

/// The offset of direction `d`.
pub fn direction(d: usize) -> (offset: (isize, isize))
    requires
        d < DIRECTION_COUNT,
    ensures
        (offset.0 as int, offset.1 as int) == direction_offset(d as int),
{
    if d == 0 {
        (0, 1)
    } else if d == 1 {
        (-1, 0)
    } else if d == 2 {
        (1, 0)
    } else {
        (0, -1)
    }
}

} // verus!
