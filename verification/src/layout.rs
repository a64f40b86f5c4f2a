//! The directories of the store, and what to do about each of them while
//! the store is opened.

use crate::error::{fails_with, StoreDir, StoreError, StoreErrorView};
use vstd::prelude::*;

verus! {

/// What was found at a path where the store wants a directory.
#[derive(Clone, Copy, Debug, PartialEq, Eq, Structural)]
pub enum PathState {
    /// Nothing is there.
    Missing,
    /// Something is there that is no directory.
    NotADirectory,
    /// A directory that cannot be written to.
    ReadOnlyDirectory,
    /// A directory that can be written to.
    WritableDirectory,
}

/// What to do next about a directory of the store.
#[derive(Clone, Copy, Debug, PartialEq, Eq, Structural)]
pub enum DirAction {
    /// The directory is there and writable: go on.
    Ready,
    /// Create the directory, look at the path again and ask once more.
    Create,
}

/// What a directory is to the store: how it is treated while it is missing.
#[derive(Clone, Copy, Debug, PartialEq, Eq, Structural)]
pub enum DirRole {
    /// The data directory; it is created only if `init` is set.
    Root { init: bool },
    /// The subdirectory of the entry files; created when missing.
    Entries,
    /// The subdirectory of the ledger files; created when missing.
    Channels,
}

/// The step to take for a directory, given what was found at its path and
/// whether the directory has just been created.
///
/// A writable directory is ready. A directory that cannot be written to
/// fails: the data directory as not writable, a subdirectory as a
/// configuration that cannot be used. Anything else fails in the same way
/// once the directory was created. Before that, the data directory is
/// created if `init` is set and fails as not initialised otherwise; a
/// missing subdirectory is created, and a subdirectory's path that holds
/// something else is clobbered.
pub open spec fn dir_decision(role: DirRole, state: PathState, created: bool) -> Result<
    DirAction,
    StoreErrorView,
> {
    if state == PathState::WritableDirectory {
        Ok(DirAction::Ready)
    } else if state == PathState::ReadOnlyDirectory || created {
        Err(not_writable(role))
    } else {
        match role {
            DirRole::Root { init } => if init {
                Ok(DirAction::Create)
            } else {
                Err(StoreErrorView::NotInitialized)
            },
            DirRole::Entries => if state == PathState::Missing {
                Ok(DirAction::Create)
            } else {
                Err(StoreErrorView::ClobberedPath(StoreDir::Entries))
            },
            DirRole::Channels => if state == PathState::Missing {
                Ok(DirAction::Create)
            } else {
                Err(StoreErrorView::ClobberedPath(StoreDir::Channels))
            },
        }
    }
}

/// The failure for a directory that cannot be written to.
pub open spec fn not_writable(role: DirRole) -> StoreErrorView {
    match role {
        DirRole::Root { .. } => StoreErrorView::NotWritable,
        DirRole::Entries => StoreErrorView::Config("entries directory is not writable"@),
        DirRole::Channels => StoreErrorView::Config("channels directory is not writable"@),
    }
}

/// Whether `result` is what `expected` describes.
pub open spec fn action_is(result: Result<DirAction, StoreError>, expected: Result<
    DirAction,
    StoreErrorView,
>) -> bool {
    match expected {
        Ok(action) => result == Ok::<DirAction, StoreError>(action),
        Err(error) => fails_with(result, error),
    }
}

/// The step to take for a directory of the store.
pub fn dir_step(role: DirRole, state: PathState, created: bool) -> (step: Result<
    DirAction,
    StoreError,
>)
    ensures
        action_is(step, dir_decision(role, state, created)),
{
    match state {
        PathState::WritableDirectory => Ok(DirAction::Ready),
        PathState::ReadOnlyDirectory => Err(unwritable(role)),
        PathState::Missing => {
            if created {
                Err(unwritable(role))
            } else {
                match role {
                    DirRole::Root { init } => {
                        if init {
                            Ok(DirAction::Create)
                        } else {
                            Err(StoreError::NotInitialized)
                        }
                    },
                    DirRole::Entries => Ok(DirAction::Create),
                    DirRole::Channels => Ok(DirAction::Create),
                }
            }
        },
        PathState::NotADirectory => {
            if created {
                Err(unwritable(role))
            } else {
                match role {
                    DirRole::Root { init } => {
                        if init {
                            Ok(DirAction::Create)
                        } else {
                            Err(StoreError::NotInitialized)
                        }
                    },
                    DirRole::Entries => Err(StoreError::ClobberedPath(StoreDir::Entries)),
                    DirRole::Channels => Err(StoreError::ClobberedPath(StoreDir::Channels)),
                }
            }
        },
    }
}

/// The failure for a directory that cannot be written to.
fn unwritable(role: DirRole) -> (error: StoreError)
    ensures
        error@ == not_writable(role),
{
    match role {
        DirRole::Root { .. } => StoreError::NotWritable,
        DirRole::Entries => StoreError::Config("entries directory is not writable".to_owned()),
        DirRole::Channels => StoreError::Config("channels directory is not writable".to_owned()),
    }
}

} // verus!
