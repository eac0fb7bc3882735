use crate::date::Date;
use vstd::prelude::*;

verus! {

/// Where a task stands. `Deleted` names the removal itself: no task kept in a
/// list is ever in that state.
#[derive(Clone, Copy, Debug, PartialEq, Eq, Structural)]
pub enum TaskState {
    NotDone,
    Done,
    Deleted,
}

/// One task: its text, its state, and the day it belongs to.
#[derive(Clone, Debug, PartialEq)]
pub struct Task {
    pub description: String,
    pub state: TaskState,
    pub date: Date,
}

impl Task {
    /// A new, unfinished task for `date`.
    pub fn new(description: String, date: Date) -> (r: Task)
        ensures
            r.description == description,
            r.state == TaskState::NotDone,
            r.date == date,
    {
        Task { description, state: TaskState::NotDone, date }
    }

    /// Sets the state and leaves the rest as it was.
    pub fn change_state(&mut self, new_state: TaskState)
        ensures
            final(self).state == new_state,
            final(self).description == old(self).description,
            final(self).date == old(self).date,
    {
        self.state = new_state;
    }
}

} // verus!
