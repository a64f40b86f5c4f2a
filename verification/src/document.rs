//! The changelog document of a channel: where it lives, and how a rendered
//! release is put in front of what it holds.

use crate::config::Config;
use crate::text::{
    capitalized, lowercase, push_chars, replace, replace_chars, starts_with_chars, str_eq,
    string_of, sub_chars, to_chars, ucfirst, uppercase,
};
use vstd::prelude::*;

verus! {

/// The changelog file of a channel other than the default one: the template
/// with `{channel}` replaced by the channel's identifier in lowercase,
/// `{CHANNEL}` by the identifier in uppercase, and `{Channel}` by the
/// identifier with its first character in uppercase.
pub open spec fn channel_file(template: Seq<char>, channel: Seq<char>) -> Seq<char> {
    replace(
        replace(replace(template, "{channel}"@, lowercase(channel)), "{CHANNEL}"@, uppercase(channel)),
        "{Channel}"@,
        capitalized(channel),
    )
}

/// The changelog file of a channel, relative to the project's root: the
/// default file for the default channel, the file made from the template
/// for any other.
pub open spec fn changelog_file(config: Config, channel: Seq<char>) -> Seq<char> {
    if channel == config.default_channel@ {
        config.changelog_file_default@
    } else {
        channel_file(config.changelog_file_channel@, channel)
    }
}

/// The changelog file of `channel`, relative to the project's root.
pub fn path_for(channel: &str, config: &Config) -> (path: String)
    ensures
        path@ == changelog_file(*config, channel@),
{
    if str_eq(channel, config.default_channel.as_str()) {
        return config.changelog_file_default.clone();
    }
    let template = to_chars(config.changelog_file_channel.as_str());
    let lower = channel.to_lowercase();
    let upper = channel.to_uppercase();
    let capital = ucfirst(channel);
    let step = replace_chars(&template, &to_chars("{channel}"), &to_chars(lower.as_str()));
    let step = replace_chars(&step, &to_chars("{CHANNEL}"), &to_chars(upper.as_str()));
    let step = replace_chars(&step, &to_chars("{Channel}"), &to_chars(capital.as_str()));
    string_of(&step)
}

/// What a document holds after its header: the document without the header
/// if it begins with it, the whole document otherwise.
pub open spec fn document_body(document: Seq<char>, header: Seq<char>) -> Seq<char> {
    if header.is_prefix_of(document) {
        document.skip(header.len() as int)
    } else {
        document
    }
}

/// A document after a fragment was put in front: the header, the fragment,
/// and what the document held after its header. A document that did not
/// exist held nothing.
pub open spec fn prepended(existing: Option<Seq<char>>, header: Seq<char>, fragment: Seq<char>) -> Seq<
    char,
> {
    match existing {
        Some(document) => header + fragment + document_body(document, header),
        None => header + fragment,
    }
}

/// The document that holds `fragment` in front of what `existing` holds;
/// `existing` is `None` for a document that does not exist yet.
pub fn prepend(existing: Option<&str>, header: &str, fragment: &str) -> (document: String)
    ensures
        document@ == prepended(
            match existing {
                Some(text) => Some(text@),
                None => None,
            },
            header@,
            fragment@,
        ),
{
    let head = to_chars(header);
    let mut out = to_chars(header);
    push_chars(&mut out, &to_chars(fragment));
    match existing {
        Some(text) => {
            let old = to_chars(text);
            if starts_with_chars(&old, &head) {
                let body = sub_chars(&old, head.len(), old.len());
                push_chars(&mut out, &body);
            } else {
                push_chars(&mut out, &old);
            }
        },
        None => {},
    }
    string_of(&out)
}

} // verus!
