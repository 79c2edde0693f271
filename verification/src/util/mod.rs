pub mod calendar;
pub mod time;
pub mod uuid;
