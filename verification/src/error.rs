//! The failures the store reports.

use crate::text::{push_chars, string_of, to_chars};
use vstd::prelude::*;

verus! {

/// One of the subdirectories of the data directory.
#[derive(Clone, Copy, Debug, PartialEq, Eq, Structural)]
pub enum StoreDir {
    /// The subdirectory that holds the entry files.
    Entries,
    /// The subdirectory that holds one ledger file per channel.
    Channels,
}

/// Why an operation of the store failed.
#[derive(Debug, PartialEq, Eq)]
pub enum StoreError {
    /// A configuration value is missing or unusable; the text says which.
    Config(String),
    /// The data directory does not exist and was not asked to be created.
    NotInitialized,
    /// The data directory cannot be written to.
    NotWritable,
    /// A path that must be a directory exists and is something else.
    ClobberedPath(StoreDir),
    /// The stored ledger of the named channel cannot be used.
    CorruptLedger(String),
    /// The version is already released, on the named channel.
    DuplicateVersion(String, String),
    /// No channel of this name is configured.
    UnknownChannel(String),
    /// A release names an entry whose file is absent or unreadable.
    MissingEntryFile(String),
    /// Reading or writing failed; the text is the system's message.
    Io(String),
    /// The changelog document was written, but the release could not be
    /// recorded in the ledger of its channel: the two disagree until they
    /// are reconciled by hand.
    ReleaseNotRecorded {
        /// The changelog file that holds the release.
        document: String,
        /// The version of the release.
        version: String,
        /// The channel whose ledger lacks the release.
        channel: String,
        /// Why the ledger could not be written.
        cause: String,
    },
}

/// A `StoreError` with its texts as character sequences.
pub enum StoreErrorView {
    Config(Seq<char>),
    NotInitialized,
    NotWritable,
    ClobberedPath(StoreDir),
    CorruptLedger(Seq<char>),
    DuplicateVersion(Seq<char>, Seq<char>),
    UnknownChannel(Seq<char>),
    MissingEntryFile(Seq<char>),
    Io(Seq<char>),
    ReleaseNotRecorded {
        document: Seq<char>,
        version: Seq<char>,
        channel: Seq<char>,
        cause: Seq<char>,
    },
}

impl View for StoreError {
    type V = StoreErrorView;

    open spec fn view(&self) -> StoreErrorView {
        match self {
            StoreError::Config(what) => StoreErrorView::Config(what@),
            StoreError::NotInitialized => StoreErrorView::NotInitialized,
            StoreError::NotWritable => StoreErrorView::NotWritable,
            StoreError::ClobberedPath(dir) => StoreErrorView::ClobberedPath(*dir),
            StoreError::CorruptLedger(channel) => StoreErrorView::CorruptLedger(channel@),
            StoreError::DuplicateVersion(version, channel) => StoreErrorView::DuplicateVersion(
                version@,
                channel@,
            ),
            StoreError::UnknownChannel(channel) => StoreErrorView::UnknownChannel(channel@),
            StoreError::MissingEntryFile(name) => StoreErrorView::MissingEntryFile(name@),
            StoreError::Io(message) => StoreErrorView::Io(message@),
            StoreError::ReleaseNotRecorded { document, version, channel, cause } =>
                StoreErrorView::ReleaseNotRecorded {
                    document: document@,
                    version: version@,
                    channel: channel@,
                    cause: cause@,
                },
        }
    }
}

/// Whether `result` is the failure `error`.
pub open spec fn fails_with<T>(result: Result<T, StoreError>, error: StoreErrorView) -> bool {
    result is Err && result->Err_0@ == error
}


impl Clone for StoreError {
    fn clone(&self) -> (copy: Self)
        ensures
            copy@ == self@,
    {
        match self {
            StoreError::Config(what) => StoreError::Config(what.clone()),
            StoreError::NotInitialized => StoreError::NotInitialized,
            StoreError::NotWritable => StoreError::NotWritable,
            StoreError::ClobberedPath(dir) => StoreError::ClobberedPath(*dir),
            StoreError::CorruptLedger(channel) => StoreError::CorruptLedger(channel.clone()),
            StoreError::DuplicateVersion(version, channel) => StoreError::DuplicateVersion(
                version.clone(),
                channel.clone(),
            ),
            StoreError::UnknownChannel(channel) => StoreError::UnknownChannel(channel.clone()),
            StoreError::MissingEntryFile(name) => StoreError::MissingEntryFile(name.clone()),
            StoreError::Io(message) => StoreError::Io(message.clone()),
            StoreError::ReleaseNotRecorded { document, version, channel, cause } =>
                StoreError::ReleaseNotRecorded {
                    document: document.clone(),
                    version: version.clone(),
                    channel: channel.clone(),
                    cause: cause.clone(),
                },
        }
    }
}

/// The name of a subdirectory of the data directory.
pub open spec fn dir_name(dir: StoreDir) -> Seq<char> {
    match dir {
        StoreDir::Entries => "entries"@,
        StoreDir::Channels => "channels"@,
    }
}

/// The message of a failure.
pub open spec fn message_of(error: StoreErrorView) -> Seq<char> {
    match error {
        StoreErrorView::Config(what) => what,
        StoreErrorView::NotInitialized => "Changelog directory does not exist"@,
        StoreErrorView::NotWritable => "Changelog directory is not writable"@,
        StoreErrorView::ClobberedPath(dir) =>
            "Changelog subdir path is clobbered, must be a writable directory or not exist: "@
                + dir_name(dir),
        StoreErrorView::CorruptLedger(channel) => "Release list of channel "@ + channel
            + " cannot be read"@,
        StoreErrorView::DuplicateVersion(version, channel) => "Version "@ + version
            + " already exists on channel "@ + channel,
        StoreErrorView::UnknownChannel(channel) => "Channel "@ + channel + " does not exist."@,
        StoreErrorView::MissingEntryFile(name) =>
            "Changelog entry file missing or not readable: "@ + name,
        StoreErrorView::Io(message) => message,
        StoreErrorView::ReleaseNotRecorded { document, version, channel, cause } =>
            "RELEASE NOT RECORDED! The changelog file "@ + document + " already holds version "@
                + version + ", but the release list of channel "@ + channel
                + " could not be written: "@ + cause
                + ". Reconcile the two by hand before packing again."@,
    }
}

impl StoreError {
    /// The message of the failure, for the user.
    pub fn message(&self) -> (message: String)
        ensures
            message@ == message_of(self@),
    {
        match self {
            StoreError::Config(what) => what.clone(),
            StoreError::NotInitialized => "Changelog directory does not exist".to_owned(),
            StoreError::NotWritable => "Changelog directory is not writable".to_owned(),
            StoreError::ClobberedPath(dir) => {
                let mut out = to_chars(
                    "Changelog subdir path is clobbered, must be a writable directory or not exist: ",
                );
                let name = match dir {
                    StoreDir::Entries => to_chars("entries"),
                    StoreDir::Channels => to_chars("channels"),
                };
                push_chars(&mut out, &name);
                string_of(&out)
            },
            StoreError::CorruptLedger(channel) => {
                let mut out = to_chars("Release list of channel ");
                push_chars(&mut out, &to_chars(channel.as_str()));
                push_chars(&mut out, &to_chars(" cannot be read"));
                string_of(&out)
            },
            StoreError::DuplicateVersion(version, channel) => {
                let mut out = to_chars("Version ");
                push_chars(&mut out, &to_chars(version.as_str()));
                push_chars(&mut out, &to_chars(" already exists on channel "));
                push_chars(&mut out, &to_chars(channel.as_str()));
                string_of(&out)
            },
            StoreError::UnknownChannel(channel) => {
                let mut out = to_chars("Channel ");
                push_chars(&mut out, &to_chars(channel.as_str()));
                push_chars(&mut out, &to_chars(" does not exist."));
                string_of(&out)
            },
            StoreError::MissingEntryFile(name) => {
                let mut out = to_chars("Changelog entry file missing or not readable: ");
                push_chars(&mut out, &to_chars(name.as_str()));
                string_of(&out)
            },
            StoreError::Io(message) => message.clone(),
            StoreError::ReleaseNotRecorded { document, version, channel, cause } => {
                let mut out = to_chars("RELEASE NOT RECORDED! The changelog file ");
                push_chars(&mut out, &to_chars(document.as_str()));
                push_chars(&mut out, &to_chars(" already holds version "));
                push_chars(&mut out, &to_chars(version.as_str()));
                push_chars(&mut out, &to_chars(", but the release list of channel "));
                push_chars(&mut out, &to_chars(channel.as_str()));
                push_chars(&mut out, &to_chars(" could not be written: "));
                push_chars(&mut out, &to_chars(cause.as_str()));
                push_chars(
                    &mut out,
                    &to_chars(". Reconcile the two by hand before packing again."),
                );
                string_of(&out)
            },
        }
    }
}

} // verus!
