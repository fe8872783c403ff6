pub mod calendar;
pub mod errors;
pub mod frequency;
pub mod priority;
pub mod schedule;
pub mod scheduler;
pub mod time;
pub mod timing;
pub mod zone;
