//! Branch names, and what can be read from them: the channel, the version
//! and the issue that a branch belongs to.

use crate::config::{channel_at, channel_count, channel_pairs};
use crate::context::AppContext;
use crate::entries::text_of;
use crate::error::{StoreError, StoreErrorView};
use crate::text::{
    push_chars, starts_with_chars, str_eq, string_of, sub_chars, to_chars, trim,
    trim_chars, CharClass,
};
use vstd::prelude::*;

verus! {

/// The name of a git branch.
#[derive(Debug)]
pub struct BranchName(pub String);

impl Clone for BranchName {
    fn clone(&self) -> (copy: Self)
        ensures
            copy.0@ == self.0@,
    {
        BranchName(self.0.clone())
    }
}

/// `regex::Error`: why a regular expression could not be compiled.
#[verifier::external_type_specification]
#[verifier::external_body]
pub struct ExRegexError(regex::Error);

/// Whether `regex::Regex::new` accepts the pattern.
pub uninterp spec fn regex_compiles(pattern: Seq<char>) -> bool;

/// The number of capture groups of a pattern that compiles, the whole match
/// counted as one, as `Regex::captures_len` gives it.
pub uninterp spec fn regex_group_count(pattern: Seq<char>) -> nat;

/// What the first capture group holds in the first match of the pattern in
/// the text, as `Regex::captures` and `Captures::get` give it: `None` if
/// there is no match or the group took no part in it.
pub uninterp spec fn regex_first_group(pattern: Seq<char>, text: Seq<char>) -> Option<Seq<char>>;

/// Whether the pattern matches anywhere in the text, as `Regex::is_match`
/// says.
pub uninterp spec fn regex_matches(pattern: Seq<char>, text: Seq<char>) -> bool;

/// Compiles the pattern with `regex::Regex::new` and counts its capture
/// groups with `Regex::captures_len`. Fails exactly if the pattern does not
/// compile. The count includes the whole match, so it is never zero.
#[verifier::external_body]
fn count_groups(pattern: &str) -> (count: Result<usize, regex::Error>)
    ensures
        match count {
            Ok(n) => regex_compiles(pattern@) && n == regex_group_count(pattern@) && n >= 1,
            Err(_) => !regex_compiles(pattern@),
        },
{
    match regex::Regex::new(pattern) {
        Ok(compiled) => Ok(compiled.captures_len()),
        Err(error) => Err(error),
    }
}

/// Compiles the pattern with `regex::Regex::new`, searches the text with
/// `Regex::captures` and takes the first group with `Captures::get`. A
/// pattern that does not compile gives `None`.
#[verifier::external_body]
fn first_group(pattern: &str, text: &str) -> (group: Option<String>)
    ensures
        regex_compiles(pattern@) ==> text_of(group) == regex_first_group(pattern@, text@),
{
    match regex::Regex::new(pattern) {
        Ok(compiled) => match compiled.captures(text) {
            Some(captures) => match captures.get(1) {
                Some(found) => Some(found.as_str().to_owned()),
                None => None,
            },
            None => None,
        },
        Err(_) => None,
    }
}

/// Compiles the pattern with `regex::Regex::new` and tests the text with
/// `Regex::is_match`. Fails exactly if the pattern does not compile.
#[verifier::external_body]
fn test_match(pattern: &str, text: &str) -> (matched: Result<bool, regex::Error>)
    ensures
        match matched {
            Ok(found) => regex_compiles(pattern@) && found == regex_matches(pattern@, text@),
            Err(_) => !regex_compiles(pattern@),
        },
{
    match regex::Regex::new(pattern) {
        Ok(compiled) => Ok(compiled.is_match(text)),
        Err(error) => Err(error),
    }
}

/// The message of a `regex::Error`, as its `Display` writes it.
#[verifier::external_body]
fn regex_error_text(error: &regex::Error) -> (message: String) {
    error.to_string()
}

/// The pattern inside a template that is written between slashes.
pub open spec fn regex_pattern_of(template: Seq<char>) -> Option<Seq<char>> {
    if template.len() >= 2 && template[0] == '/' && template.last() == '/' {
        Some(template.subrange(1, template.len() - 1))
    } else {
        None
    }
}

/// If the text is written between slashes, the part between them.
pub fn as_regex_pattern(input: &str) -> (pattern: Option<&str>)
    ensures
        match pattern {
            Some(inner) => regex_pattern_of(input@) == Some(inner@),
            None => regex_pattern_of(input@) is None,
        },
{
    let length = input.unicode_len();
    if length >= 2 && input.get_char(0) == '/' && input.get_char(length - 1) == '/' {
        Some(input.substring_char(1, length - 1))
    } else {
        None
    }
}

/// The decimal digit of a number below ten.
pub open spec fn digit(d: nat) -> char {
    if d == 0 {
        '0'
    } else if d == 1 {
        '1'
    } else if d == 2 {
        '2'
    } else if d == 3 {
        '3'
    } else if d == 4 {
        '4'
    } else if d == 5 {
        '5'
    } else if d == 6 {
        '6'
    } else if d == 7 {
        '7'
    } else if d == 8 {
        '8'
    } else {
        '9'
    }
}

/// A number in decimal digits.
pub open spec fn decimal(n: nat) -> Seq<char>
    decreases n,
{
    if n < 10 {
        seq![digit(n)]
    } else {
        decimal(n / 10).push(digit(n % 10))
    }
}

/// The decimal digit of a number below ten.
fn digit_char(d: usize) -> (c: char)
    requires
        d < 10,
    ensures
        c == digit(d as nat),
{
    if d == 0 {
        '0'
    } else if d == 1 {
        '1'
    } else if d == 2 {
        '2'
    } else if d == 3 {
        '3'
    } else if d == 4 {
        '4'
    } else if d == 5 {
        '5'
    } else if d == 6 {
        '6'
    } else if d == 7 {
        '7'
    } else if d == 8 {
        '8'
    } else {
        '9'
    }
}

/// `n` in decimal digits.
pub fn decimal_chars(n: usize) -> (digits: Vec<char>)
    ensures
        digits@ == decimal(n as nat),
    decreases n,
{
    if n < 10 {
        let mut digits: Vec<char> = Vec::new();
        digits.push(digit_char(n));
        digits
    } else {
        let mut digits = decimal_chars(n / 10);
        digits.push(digit_char(n % 10));
        digits
    }
}

/// The message for a template that is not written between slashes.
pub open spec fn not_a_regex_message(field: Seq<char>, template: Seq<char>) -> Seq<char> {
    "Config field \""@ + field + "\" must contain a regex (encased in slashes). Found: "@
        + template
}

/// The beginning of the message for a pattern that does not compile; the
/// message of the regular expression engine follows it.
pub open spec fn invalid_regex_message(field: Seq<char>, pattern: Seq<char>) -> Seq<char> {
    "Invalid regex in \""@ + field + "\": "@ + pattern + "\nError: "@
}

/// The message for a pattern that has not exactly one capture group:
/// `groups` is the number of its groups, the whole match not counted.
pub open spec fn wrong_groups_message(field: Seq<char>, pattern: Seq<char>, groups: nat) -> Seq<
    char,
> {
    "The pattern \""@ + field + "\" is not applicable: "@ + pattern
        + "\nThere must be exactly one capturing group. Found "@ + decimal(groups)
}

/// What the engine said of a pattern: that it does not compile, with the
/// engine's message, or the number of its capture groups, the whole match
/// not counted.
pub enum Compiled {
    Invalid(String),
    Groups(usize),
}

/// What extracting a value from `branch` gives, once the engine has looked
/// at the pattern of `template` and searched the branch name: `compiled` is
/// what it said of the pattern, `group` what the first group held.
///
/// A template that is not written between slashes fails, and so does a
/// pattern that does not compile or has not exactly one capture group.
/// Otherwise the value is what the first group held.
pub open spec fn extraction(
    field: Seq<char>,
    template: Seq<char>,
    compiled: Compiled,
    group: Option<Seq<char>>,
) -> Result<Option<Seq<char>>, StoreErrorView> {
    match regex_pattern_of(template) {
        None => Err(StoreErrorView::Config(not_a_regex_message(field, template))),
        Some(pattern) => match compiled {
            Compiled::Invalid(message) => Err(
                StoreErrorView::Config(invalid_regex_message(field, pattern) + message@),
            ),
            Compiled::Groups(groups) => if groups != 1 {
                Err(StoreErrorView::Config(wrong_groups_message(field, pattern, groups as nat)))
            } else {
                Ok(group)
            },
        },
    }
}

/// Whether `outcome` is what `expected` describes.
pub open spec fn value_is(
    outcome: Result<Option<String>, StoreError>,
    expected: Result<Option<Seq<char>>, StoreErrorView>,
) -> bool {
    match expected {
        Ok(value) => outcome is Ok && text_of(outcome->Ok_0) == value,
        Err(error) => outcome is Err && outcome->Err_0@ == error,
    }
}

/// The outcome of an extraction, given what the engine said of the pattern
/// and what the first group held.
pub fn extract(field: &str, template: &str, compiled: Compiled, group: Option<String>) -> (outcome:
    Result<Option<String>, StoreError>)
    ensures
        value_is(outcome, extraction(field@, template@, compiled, text_of(group))),
{
    let pattern = match as_regex_pattern(template) {
        Some(pattern) => pattern,
        None => {
            let mut message = to_chars("Config field \"");
            push_chars(&mut message, &to_chars(field));
            push_chars(
                &mut message,
                &to_chars("\" must contain a regex (encased in slashes). Found: "),
            );
            push_chars(&mut message, &to_chars(template));
            return Err(StoreError::Config(string_of(&message)));
        },
    };
    match compiled {
        Compiled::Invalid(reason) => {
            let mut message = to_chars("Invalid regex in \"");
            push_chars(&mut message, &to_chars(field));
            push_chars(&mut message, &to_chars("\": "));
            push_chars(&mut message, &to_chars(pattern));
            push_chars(&mut message, &to_chars("\nError: "));
            push_chars(&mut message, &to_chars(reason.as_str()));
            Err(StoreError::Config(string_of(&message)))
        },
        Compiled::Groups(groups) => {
            if groups != 1 {
                let mut message = to_chars("The pattern \"");
                push_chars(&mut message, &to_chars(field));
                push_chars(&mut message, &to_chars("\" is not applicable: "));
                push_chars(&mut message, &to_chars(pattern));
                push_chars(
                    &mut message,
                    &to_chars("\nThere must be exactly one capturing group. Found "),
                );
                push_chars(&mut message, &decimal_chars(groups));
                Err(StoreError::Config(string_of(&message)))
            } else {
                Ok(group)
            }
        },
    }
}

/// What extracting a value from `branch` with the pattern of `template`
/// gives: the first capture group of the first match, if the pattern is
/// written between slashes, compiles and has exactly one capture group.
pub open spec fn extracted(field: Seq<char>, template: Seq<char>, branch: Seq<char>) -> Result<
    Option<Seq<char>>,
    Seq<char>,
> {
    match regex_pattern_of(template) {
        None => Err(not_a_regex_message(field, template)),
        Some(pattern) => if !regex_compiles(pattern) {
            Err(invalid_regex_message(field, pattern))
        } else if regex_group_count(pattern) != 2 {
            Err(wrong_groups_message(field, pattern, (regex_group_count(pattern) - 1) as nat))
        } else {
            Ok(regex_first_group(pattern, branch))
        },
    }
}

/// Whether `outcome` is what `expected` describes: the value, or a
/// configuration failure whose message begins with the expected text. Only
/// for a pattern that does not compile does more text follow.
pub open spec fn extracted_is(
    outcome: Result<Option<String>, StoreError>,
    expected: Result<Option<Seq<char>>, Seq<char>>,
) -> bool {
    match expected {
        Ok(value) => outcome is Ok && text_of(outcome->Ok_0) == value,
        Err(message) => outcome is Err && outcome->Err_0 is Config && message.is_prefix_of(
            outcome->Err_0->Config_0@,
        ),
    }
}


impl BranchName {
    /// Extracts a value from the branch name with the pattern that the
    /// configuration holds under `field`: the first capture group of the
    /// first match. Fails if the template is not a pattern between slashes,
    /// or the pattern does not compile or has not exactly one capture group.
    pub fn parse_using_regex(&self, template: &str, field: &str) -> (outcome: Result<
        Option<String>,
        StoreError,
    >)
        ensures
            extracted_is(outcome, extracted(field@, template@, self.0@)),
    {
        let pattern = match as_regex_pattern(template) {
            Some(pattern) => pattern,
            None => {
                return extract(field, template, Compiled::Groups(1), None);
            },
        };
        match count_groups(pattern) {
            Ok(count) => {
                let group = if count == 2 {
                    first_group(pattern, self.0.as_str())
                } else {
                    None
                };
                extract(field, template, Compiled::Groups(count - 1), group)
            },
            Err(error) => {
                let outcome = extract(
                    field,
                    template,
                    Compiled::Invalid(regex_error_text(&error)),
                    None,
                );
                proof {
                    let begin = invalid_regex_message(field@, pattern@);
                    let whole = outcome->Err_0->Config_0@;
                    assert(whole.subrange(0, begin.len() as int) == begin);
                }
                outcome
            },
        }
    }
}


/// The value that a branch name gives under an optional pattern: nothing
/// without a pattern.
pub open spec fn extracted_with(
    field: Seq<char>,
    template: Option<Seq<char>>,
    branch: Seq<char>,
) -> Result<Option<Seq<char>>, Seq<char>> {
    match template {
        Some(template) => extracted(field, template, branch),
        None => Ok(None),
    }
}

/// The channel whose pattern recognises the branch: the first channel, in
/// the order of the configuration, whose pattern between slashes matches
/// the branch name or whose plain pattern equals it. Channels with an empty
/// pattern are passed over. Fails with the identifier of a channel whose
/// pattern between slashes does not compile, if no channel before it
/// recognises the branch.
pub open spec fn detected_channel(pairs: Seq<(Seq<char>, Seq<char>)>, branch: Seq<char>) -> Result<
    Option<Seq<char>>,
    Seq<char>,
>
    decreases pairs.len(),
{
    if pairs.len() == 0 {
        Ok(None)
    } else {
        let id = pairs[0].0;
        let template = pairs[0].1;
        if template.len() == 0 {
            detected_channel(pairs.skip(1), branch)
        } else {
            match regex_pattern_of(template) {
                Some(pattern) => if !regex_compiles(pattern) {
                    Err(id)
                } else if regex_matches(pattern, branch) {
                    Ok(Some(id))
                } else {
                    detected_channel(pairs.skip(1), branch)
                },
                None => if branch == template {
                    Ok(Some(id))
                } else {
                    detected_channel(pairs.skip(1), branch)
                },
            }
        }
    }
}

/// Whether `outcome` is what `expected` describes: the channel, or a
/// configuration failure whose message names the channel.
pub open spec fn channel_is(
    outcome: Result<Option<String>, StoreError>,
    expected: Result<Option<Seq<char>>, Seq<char>>,
) -> bool {
    match expected {
        Ok(value) => outcome is Ok && text_of(outcome->Ok_0) == value,
        Err(id) => outcome is Err && outcome->Err_0 is Config && ("Invalid regex for channel \""@
            + id).is_prefix_of(outcome->Err_0->Config_0@),
    }
}

impl BranchName {
    /// The version that the branch name gives under the configured version
    /// pattern; nothing if no pattern is configured.
    pub fn parse_version(&self, ctx: &AppContext) -> (outcome: Result<Option<String>, StoreError>)
        ensures
            extracted_is(
                outcome,
                extracted_with(
                    "branch_version_pattern"@,
                    text_of(ctx.config.branch_version_pattern),
                    self.0@,
                ),
            ),
    {
        match &ctx.config.branch_version_pattern {
            Some(template) => self.parse_using_regex(template.as_str(), "branch_version_pattern"),
            None => Ok(None),
        }
    }

    /// The issue that the branch name gives under the configured issue
    /// pattern; nothing if no pattern is configured.
    pub fn parse_issue(&self, ctx: &AppContext) -> (outcome: Result<Option<String>, StoreError>)
        ensures
            extracted_is(
                outcome,
                extracted_with(
                    "branch_issue_pattern"@,
                    text_of(ctx.config.branch_issue_pattern),
                    self.0@,
                ),
            ),
    {
        match &ctx.config.branch_issue_pattern {
            Some(template) => self.parse_using_regex(template.as_str(), "branch_issue_pattern"),
            None => Ok(None),
        }
    }

    /// The channel that the branch belongs to, if the pattern of a
    /// configured channel recognises it.
    pub fn parse_channel(&self, ctx: &AppContext) -> (outcome: Result<Option<String>, StoreError>)
        ensures
            channel_is(outcome, detected_channel(channel_pairs(ctx.config.channels), self.0@)),
    {
        let ghost pairs = channel_pairs(ctx.config.channels);
        let count = channel_count(&ctx.config.channels);
        let mut i: usize = 0;
        assert(pairs.skip(0) == pairs);
        while i < count
            invariant
                i <= count,
                count == pairs.len(),
                pairs == channel_pairs(ctx.config.channels),
                detected_channel(pairs, self.0@) == detected_channel(pairs.skip(i as int), self.0@),
            decreases count - i,
        {
            proof {
                assert(pairs.skip(i as int)[0] == pairs[i as int]);
                assert(pairs.skip(i as int).skip(1) == pairs.skip(i + 1));
            }
            match channel_at(&ctx.config.channels, i) {
                Some(pair) => {
                    let id = pair.0;
                    let template = pair.1;
                    if template.as_str().unicode_len() == 0 {
                    } else {
                        match as_regex_pattern(template.as_str()) {
                            Some(pattern) => match test_match(pattern, self.0.as_str()) {
                                Ok(matched) => {
                                    if matched {
                                        return Ok(Some(id.clone()));
                                    }
                                },
                                Err(error) => {
                                    let mut message = to_chars("Invalid regex for channel \"");
                                    push_chars(&mut message, &to_chars(id.as_str()));
                                    let ghost begin = message@;
                                    push_chars(&mut message, &to_chars("\": "));
                                    push_chars(&mut message, &to_chars(template.as_str()));
                                    push_chars(&mut message, &to_chars("\nError: "));
                                    push_chars(
                                        &mut message,
                                        &to_chars(regex_error_text(&error).as_str()),
                                    );
                                    assert(message@.subrange(0, begin.len() as int) == begin);
                                    return Err(StoreError::Config(string_of(&message)));
                                },
                            },
                            None => {
                                if str_eq(self.0.as_str(), template.as_str()) {
                                    return Ok(Some(id.clone()));
                                }
                            },
                        }
                    }
                },
                None => {},
            }
            i += 1;
        }
        assert(pairs.skip(count as int).len() == 0);
        Ok(None)
    }
}

/// The branch that the text of git's `HEAD` file names: what follows
/// `ref: refs/heads/`, without the whitespace around it, unless the text
/// begins otherwise or nothing is left.
pub open spec fn head_branch(contents: Seq<char>) -> Option<Seq<char>> {
    if "ref: refs/heads/"@.is_prefix_of(contents) {
        let name = trim(contents.skip("ref: refs/heads/"@.len() as int), CharClass::Whitespace);
        if name.len() == 0 {
            None
        } else {
            Some(name)
        }
    } else {
        None
    }
}

/// The branch that the text of git's `HEAD` file names.
pub fn parse_head(contents: &str) -> (branch: Option<BranchName>)
    ensures
        match branch {
            Some(name) => head_branch(contents@) == Some(name.0@),
            None => head_branch(contents@) is None,
        },
{
    let chars = to_chars(contents);
    let prefix = to_chars("ref: refs/heads/");
    if !starts_with_chars(&chars, &prefix) {
        return None;
    }
    let rest = sub_chars(&chars, prefix.len(), chars.len());
    let name = trim_chars(&rest, CharClass::Whitespace);
    if name.len() == 0 {
        None
    } else {
        Some(BranchName(string_of(&name)))
    }
}

/// What an optional branch name is written as.
pub trait BranchOpt {
    /// The branch name, or the empty text if there is none.
    spec fn text(&self) -> Seq<char>;

    /// The branch name, or the empty text if there is none.
    fn as_str_or_default(&self) -> (text: &str)
        ensures
            text@ == self.text(),
    ;
}

impl BranchOpt for Option<BranchName> {
    open spec fn text(&self) -> Seq<char> {
        match self {
            Some(name) => name.0@,
            None => Seq::empty(),
        }
    }

    fn as_str_or_default(&self) -> (text: &str) {
        match self {
            Some(name) => name.0.as_str(),
            None => {
                proof {
                    reveal_strlit("");
                }
                assert(""@ == Seq::<char>::empty());
                ""
            },
        }
    }
}

} // verus!
