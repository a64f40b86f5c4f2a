//! What other systems are told of a release.

pub mod youtrack;
