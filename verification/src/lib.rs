//! Change-note tracking: pending entries, per-channel release ledgers and the
//! rendering of releases into a changelog document.

pub mod action_log;
pub mod action_pack;
mod clock;
pub mod config;
pub mod context;
pub mod document;
pub mod entries;
pub mod error;
pub mod git;
pub mod integrations;
pub mod layout;
pub mod ledger;
pub mod release;
pub mod sections;
pub mod store;
pub mod text;
pub mod utils;
