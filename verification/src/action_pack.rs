//! Packing a release: which channel it goes to, what it will hold, and
//! whether a version can be used.

use crate::action_log::{input_check, InputCheck};
use crate::config::{channel_pairs, ChannelName};
use crate::context::AppContext;
use crate::entries::text_of;
use crate::error::{fails_with, StoreError, StoreErrorView};
use crate::git::{detected_channel, BranchName};
use crate::release::{Release, ReleaseView};
use crate::store::{released_anywhere, unreleased_changes, Store, StoreView};
use crate::text::{find_string, strs};
use vstd::prelude::*;

verus! {

/// How the channel of a release is settled.
#[derive(Debug)]
pub enum ChannelChoice {
    /// The channel is this one.
    Fixed(ChannelName),
    /// The user is asked to pick one of the channels; the cursor starts at
    /// the given position, if there is one.
    Ask { options: Vec<ChannelName>, cursor: Option<usize> },
}

/// A `ChannelChoice` as character sequences.
pub enum ChannelChoiceView {
    Fixed(Seq<char>),
    Ask { options: Seq<Seq<char>>, cursor: Option<int> },
}

impl View for ChannelChoice {
    type V = ChannelChoiceView;

    open spec fn view(&self) -> ChannelChoiceView {
        match self {
            ChannelChoice::Fixed(channel) => ChannelChoiceView::Fixed(channel@),
            ChannelChoice::Ask { options, cursor } => ChannelChoiceView::Ask {
                options: strs(options@),
                cursor: match cursor {
                    Some(at) => Some(*at as int),
                    None => None,
                },
            },
        }
    }
}

/// How the channel is settled, given the channel that the user named or the
/// branch gave, if any.
///
/// A channel that is not configured fails. With more than one channel
/// configured, a channel that the user named is taken, and otherwise the
/// user is asked, with the cursor at the channel of the branch. With one
/// channel configured, it is the default channel.
pub open spec fn channel_choice(
    channels: Seq<Seq<char>>,
    default_channel: Seq<char>,
    known: Option<Seq<char>>,
    named_by_user: bool,
) -> Result<ChannelChoiceView, StoreErrorView> {
    if known is Some && !channels.contains(known->0) {
        Err(StoreErrorView::UnknownChannel(known->0))
    } else if channels.len() > 1 {
        if named_by_user && known is Some {
            Ok(ChannelChoiceView::Fixed(known->0))
        } else {
            Ok(
                ChannelChoiceView::Ask {
                    options: channels,
                    cursor: match known {
                        Some(channel) => channels.index_of_first(channel),
                        None => None,
                    },
                },
            )
        }
    } else {
        Ok(ChannelChoiceView::Fixed(default_channel))
    }
}

/// Whether `outcome` is what `expected` describes.
pub open spec fn choice_is(
    outcome: Result<ChannelChoice, StoreError>,
    expected: Result<ChannelChoiceView, StoreErrorView>,
) -> bool {
    match expected {
        Ok(choice) => outcome is Ok && outcome->Ok_0@ == choice,
        Err(error) => fails_with(outcome, error),
    }
}

/// How the channel is settled, given the channel that the user named or the
/// branch gave, if any.
pub fn choose_channel(ctx: &AppContext, known: Option<ChannelName>, named_by_user: bool) -> (outcome:
    Result<ChannelChoice, StoreError>)
    ensures
        choice_is(
            outcome,
            channel_choice(
                ctx.config.channel_names(),
                ctx.config.default_channel@,
                text_of(known),
                named_by_user,
            ),
        ),
{
    let several = ctx.config.channel_total() > 1;
    match known {
        Some(channel) => {
            if !ctx.config.has_channel(channel.as_str()) {
                return Err(StoreError::UnknownChannel(channel));
            }
            if !several {
                Ok(ChannelChoice::Fixed(ctx.config.default_channel.clone()))
            } else if named_by_user {
                Ok(ChannelChoice::Fixed(channel))
            } else {
                let options = ctx.config.channel_list();
                let cursor = find_string(&options, channel.as_str());
                Ok(ChannelChoice::Ask { options, cursor })
            }
        },
        None => {
            if several {
                Ok(ChannelChoice::Ask { options: ctx.config.channel_list(), cursor: None })
            } else {
                Ok(ChannelChoice::Fixed(ctx.config.default_channel.clone()))
            }
        },
    }
}

/// How the channel of a release is settled: by the channel that the user
/// named, or else by the channel that the branch belongs to. Fails if that
/// channel is not configured, or if the pattern of a channel does not
/// compile.
pub fn resolve_channel(
    ctx: &AppContext,
    user_chosen_channel: Option<ChannelName>,
    branch: Option<&BranchName>,
) -> (outcome: Result<ChannelChoice, StoreError>)
    ensures
        match user_chosen_channel {
            Some(channel) => choice_is(
                outcome,
                channel_choice(
                    ctx.config.channel_names(),
                    ctx.config.default_channel@,
                    Some(channel@),
                    true,
                ),
            ),
            None => match branch {
                Some(name) => match detected_channel(channel_pairs(ctx.config.channels), name.0@) {
                    Ok(detected) => choice_is(
                        outcome,
                        channel_choice(
                            ctx.config.channel_names(),
                            ctx.config.default_channel@,
                            detected,
                            false,
                        ),
                    ),
                    Err(_) => outcome is Err && outcome->Err_0 is Config,
                },
                None => choice_is(
                    outcome,
                    channel_choice(
                        ctx.config.channel_names(),
                        ctx.config.default_channel@,
                        None,
                        false,
                    ),
                ),
            },
        },
{
    match user_chosen_channel {
        Some(channel) => choose_channel(ctx, Some(channel), true),
        None => match branch {
            Some(name) => match name.parse_channel(ctx) {
                Ok(detected) => choose_channel(ctx, detected, false),
                Err(error) => Err(error),
            },
            None => choose_channel(ctx, None, false),
        },
    }
}

/// The name under which the unreleased entries are shown before a version
/// is chosen.
pub open spec fn preview_version() -> Seq<char> {
    "Unreleased"@
}

/// The release that packing the channel would make, before a version is
/// chosen: the unreleased entries of the channel under a placeholder
/// version; nothing if there are none.
pub open spec fn preview(store: StoreView, channel: Seq<char>) -> Result<
    Option<ReleaseView>,
    StoreErrorView,
> {
    match unreleased_changes(store, channel) {
        Ok(names) => if names.len() == 0 {
            Ok(None)
        } else {
            Ok(Some(ReleaseView { version: preview_version(), entries: names }))
        },
        Err(error) => Err(error),
    }
}

/// The release that packing the channel would make, before a version is
/// chosen. Fails if the channel is not configured.
pub fn preview_release(store: &Store, channel: &ChannelName) -> (outcome: Result<
    Option<Release>,
    StoreError,
>)
    ensures
        match preview(store@, channel@) {
            Ok(Some(release)) => outcome is Ok && outcome->Ok_0 is Some && outcome->Ok_0->0@
                == release,
            Ok(None) => outcome is Ok && outcome->Ok_0 is None,
            Err(error) => fails_with(outcome, error),
        },
{
    match store.find_unreleased_changes(channel) {
        Ok(entries) => {
            if entries.len() == 0 {
                Ok(None)
            } else {
                Ok(Some(Release { version: "Unreleased".to_owned(), entries }))
            }
        },
        Err(error) => Err(error),
    }
}

/// What to make of the version that the user typed for a release.
pub fn check_version(store: &Store, version: &str) -> (check: InputCheck)
    ensures
        check == input_check(version@, released_anywhere(store@.ledgers, version@)),
{
    if version.unicode_len() == 0 {
        InputCheck::Cancelled
    } else if store.version_exists(version) {
        InputCheck::Taken
    } else {
        InputCheck::Free
    }
}

} // verus!
