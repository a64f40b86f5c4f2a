//! The context that every part of the tool works in.

use crate::config::Config;
use std::path::PathBuf;
use vstd::prelude::*;

verus! {

/// `std::path::PathBuf`: an owned path of the file system. The library
/// carries it and never looks inside.
#[verifier::external_type_specification]
#[verifier::external_body]
pub struct ExPathBuf(PathBuf);

/// What is fixed once the tool has started.
#[derive(Debug)]
pub struct AppContext {
    /// The name under which the tool was called, for messages.
    pub binary_name: String,
    /// The configuration, read from a file or the default one.
    pub config: Config,
    /// The root of the project.
    pub root: PathBuf,
}

} // verus!
