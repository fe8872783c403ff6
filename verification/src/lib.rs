pub mod queue;
pub mod scheduling;
pub mod traits;
pub mod utils;

use vstd::prelude::*;

use crate::scheduling::frequency::{
    ordinal_of_value, weekday_of_value, StConstWeekday, StOrdinals,
};
use crate::scheduling::schedule::StSchedule;
use crate::scheduling::scheduler::StScheduler;

verus! {

/// A scheduler with an empty queue, suspended until it is started.
pub fn get_scheduler() -> (scheduler: StScheduler)
    ensures
        scheduler.wf(),
        scheduler.suspended(),
        scheduler.queue() == Map::<Seq<char>, StSchedule>::empty(),
{
    let scheduler = StScheduler::new();
    scheduler
}

/// Gets the enum variant from a value between 0-6
///
/// A value above 6 is taken modulo 7.
pub fn st_const_weekday_from_value(value: u32) -> (weekday: StConstWeekday)
    ensures
        weekday == weekday_of_value(value as int),
{
    StConstWeekday::from(value)
}

/// Gets the enum variant from a value between 0-5
///
/// 0-4 are First to Fifth, respectively, consecutively, and 5 is Last
pub fn st_ordinals_from_value(value: u32) -> (ordinal: StOrdinals)
    requires
        value <= 5,
    ensures
        ordinal == ordinal_of_value(value as int),
{
    StOrdinals::from_value(&value)
}

} // verus!
