//! Small helpers.

pub mod empty_to_none;
