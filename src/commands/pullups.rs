use vstd::prelude::*;

use crate::error::AppError;
use crate::personal::{records, ExerciseKind, Tracker};

verus! {

/// Records a pullups count on the store; returns the date key written.
pub fn execute(tracker: &mut Tracker, count: u32, date: &str) -> (r: Result<String, AppError>)
    requires
        old(tracker).wf(),
    ensures
        records(*old(tracker), *final(tracker), ExerciseKind::Pullups, count, date@, r),
{
    tracker.record_pullups(count, date)
}

} // verus!
