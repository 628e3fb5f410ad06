//! Collections other than sequences.

pub mod map;
