//! Why a timetable could not be generated.

use vstd::prelude::*;

verus! {

/// The two ways in which scheduling a lesson fails.
#[derive(Clone, Copy, Debug, PartialEq, Eq, Structural)]
pub enum ScheduleError {
    /// No teacher of the registry lists the lesson among their subjects.
    NoEligibleTeacher,
    /// The class and its teacher do not share enough free slots for the
    /// lesson's weekly amount under its limit per day.
    CapacityExceeded,
}

impl ScheduleError {
    /// The error in words, as a sequence of characters.
    pub open spec fn words(self) -> Seq<char> {
        match self {
            ScheduleError::NoEligibleTeacher => "NO TEACHER FOUND FOR SUBJECT!"@,
            ScheduleError::CapacityExceeded => "Couldn't fit in all lessons!"@,
        }
    }

    /// The error in words.
    pub fn message(&self) -> (text: &'static str)
        ensures
            text@ == self.words(),
    {
        match self {
            ScheduleError::NoEligibleTeacher => "NO TEACHER FOUND FOR SUBJECT!",
            ScheduleError::CapacityExceeded => "Couldn't fit in all lessons!",
        }
    }
}

} // verus!
