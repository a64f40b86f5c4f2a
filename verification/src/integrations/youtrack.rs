//! YouTrack: which issues a release closes, and what is sent to the server
//! for them. The sending itself is not done here.

use crate::config::{ChannelName, Config, VersionName};
use crate::context::AppContext;
use crate::entries::text_of;
use crate::git::{extracted_with, BranchName};
use crate::release::Release;
use crate::text::{
    find_string, push_chars, str_eq, string_of, strs, to_chars, trim_end, trim_end_chars,
    trim_start, trim_start_chars, CharClass,
};
use vstd::prelude::*;

verus! {

/// The field that receives the version of a release, and the version.
#[derive(Clone, Copy, Debug)]
pub struct SetVersion<'a> {
    /// The name of the field, such as `Available in version`.
    pub field_name: &'a str,
    /// The name of the version, such as `1.0.0`.
    pub version: &'a str,
}

/// Whether an optional text is there and not empty.
pub open spec fn is_given(text: Option<Seq<char>>) -> bool {
    text is Some && text->0.len() > 0
}

/// Whether an optional text is there and not empty.
fn given(text: &Option<String>) -> (yes: bool)
    ensures
        yes == is_given(text_of(*text)),
{
    match text {
        Some(text) => text.as_str().unicode_len() > 0,
        None => false,
    }
}

/// Whether an optional text is there and not empty.
fn given_str(text: Option<&str>) -> (yes: bool)
    ensures
        yes == is_given(
            match text {
                Some(text) => Some(text@),
                None => None,
            },
        ),
{
    match text {
        Some(text) => text.unicode_len() > 0,
        None => false,
    }
}

/// Whether releases of `channel` are reported to YouTrack: the integration
/// is switched on and lists the channel, a server address is configured or
/// given by the environment, a token is given by the environment, and a
/// version field or a released state is configured.
pub open spec fn integration_enabled(
    config: Config,
    channel: Seq<char>,
    env_url: Option<Seq<char>>,
    env_token: Option<Seq<char>>,
) -> bool {
    let youtrack = config.integrations.youtrack;
    &&& youtrack.enabled
    &&& strs(youtrack.channels@).contains(channel)
    &&& (youtrack.url@.len() > 0 || is_given(env_url))
    &&& is_given(env_token)
    &&& (is_given(text_of(youtrack.version_field)) || is_given(text_of(youtrack.released_state)))
}

/// Whether releases of `channel` are reported to YouTrack. `env_url` and
/// `env_token` are what the environment holds for the server address and
/// the token.
pub fn youtrack_integration_enabled(
    config: &Config,
    channel: &ChannelName,
    env_url: Option<&str>,
    env_token: Option<&str>,
) -> (enabled: bool)
    ensures
        enabled == integration_enabled(
            *config,
            channel@,
            match env_url {
                Some(text) => Some(text@),
                None => None,
            },
            match env_token {
                Some(text) => Some(text@),
                None => None,
            },
        ),
{
    let youtrack = &config.integrations.youtrack;
    if !youtrack.enabled {
        return false;
    }
    let listed = find_string(&youtrack.channels, channel.as_str());
    proof {
        strs(youtrack.channels@).index_of_first_ensures(channel@);
    }
    listed.is_some() && (youtrack.url.as_str().unicode_len() > 0 || given_str(env_url))
        && given_str(env_token) && (given(&youtrack.version_field) || given(
        &youtrack.released_state,
    ))
}

/// The address of a path of the server's interface: the base without the
/// slashes at its end, `/api/`, and the path without the slashes at its
/// start.
pub open spec fn api_address(base: Seq<char>, path: Seq<char>) -> Seq<char> {
    trim_end(base, CharClass::Slash) + "/api/"@ + trim_start(path, CharClass::Slash)
}

/// The address of a path of the server's interface.
pub fn api_url(base: &str, path: &str) -> (url: String)
    ensures
        url@ == api_address(base@, path@),
{
    let mut url = trim_end_chars(&to_chars(base), CharClass::Slash);
    push_chars(&mut url, &to_chars("/api/"));
    push_chars(&mut url, &trim_start_chars(&to_chars(path), CharClass::Slash));
    string_of(&url)
}

/// A value that an issue's field is set to.
#[derive(Debug)]
pub struct FieldUpdate {
    /// The name of the field.
    pub name: String,
    /// The type of the field, as the server calls it.
    pub field_type: String,
    /// The name of the value.
    pub value: String,
}

/// A `FieldUpdate` as character sequences.
pub struct FieldUpdateView {
    pub name: Seq<char>,
    pub field_type: Seq<char>,
    pub value: Seq<char>,
}

impl View for FieldUpdate {
    type V = FieldUpdateView;

    open spec fn view(&self) -> FieldUpdateView {
        FieldUpdateView { name: self.name@, field_type: self.field_type@, value: self.value@ }
    }
}

/// The views of a sequence of updates.
pub open spec fn update_views(updates: Seq<FieldUpdate>) -> Seq<FieldUpdateView> {
    Seq::new(updates.len(), |i: int| updates[i]@)
}

/// The update that sets the version field of an issue.
pub open spec fn version_update(field_name: Seq<char>, version: Seq<char>) -> FieldUpdateView {
    FieldUpdateView {
        name: field_name,
        field_type: "SingleVersionIssueCustomField"@,
        value: version,
    }
}

/// The update that moves an issue to a state.
pub open spec fn state_update(state: Seq<char>) -> FieldUpdateView {
    FieldUpdateView { name: "State"@, field_type: "StateIssueCustomField"@, value: state }
}

/// The updates of a released issue: its version field, if one is given,
/// and then its state, if one is given.
pub open spec fn released_updates(
    version: Option<(Seq<char>, Seq<char>)>,
    state: Option<Seq<char>>,
) -> Seq<FieldUpdateView> {
    let first = match version {
        Some(set) => seq![version_update(set.0, set.1)],
        None => Seq::empty(),
    };
    match state {
        Some(state) => first.push(state_update(state)),
        None => first,
    }
}

/// The updates of a released issue. Nothing is to be sent if there are
/// none.
pub fn issue_updates(version: Option<&SetVersion>, state: Option<&str>) -> (updates: Vec<
    FieldUpdate,
>)
    ensures
        update_views(updates@) == released_updates(
            match version {
                Some(set) => Some((set.field_name@, set.version@)),
                None => None,
            },
            match state {
                Some(state) => Some(state@),
                None => None,
            },
        ),
{
    let mut updates: Vec<FieldUpdate> = Vec::new();
    assert(update_views(updates@) == Seq::<FieldUpdateView>::empty());
    match version {
        Some(set) => {
            updates.push(
                FieldUpdate {
                    name: set.field_name.to_owned(),
                    field_type: "SingleVersionIssueCustomField".to_owned(),
                    value: set.version.to_owned(),
                },
            );
            assert(update_views(updates@) == seq![version_update(set.field_name@, set.version@)]);
        },
        None => {},
    }
    match state {
        Some(state) => {
            let ghost before = update_views(updates@);
            updates.push(
                FieldUpdate {
                    name: "State".to_owned(),
                    field_type: "StateIssueCustomField".to_owned(),
                    value: state.to_owned(),
                },
            );
            assert(update_views(updates@) == before.push(state_update(state@)));
        },
        None => {},
    }
    updates
}

/// A custom field of a project, as the server describes it.
#[derive(Debug)]
pub struct CustomField {
    /// The name of the field.
    pub name: String,
    /// The identifier of the field.
    pub id: String,
    /// The identifier of the bundle that holds the field's values, if the
    /// field has one.
    pub bundle: Option<String>,
}

/// A `CustomField` as character sequences.
pub struct CustomFieldView {
    pub name: Seq<char>,
    pub id: Seq<char>,
    pub bundle: Option<Seq<char>>,
}

impl View for CustomField {
    type V = CustomFieldView;

    open spec fn view(&self) -> CustomFieldView {
        CustomFieldView { name: self.name@, id: self.id@, bundle: text_of(self.bundle) }
    }
}

/// The views of a sequence of fields.
pub open spec fn field_views(fields: Seq<CustomField>) -> Seq<CustomFieldView> {
    Seq::new(fields.len(), |i: int| fields[i]@)
}

/// The identifiers of the first field called `name` that has a bundle: the
/// field's and the bundle's.
pub open spec fn version_bundle(fields: Seq<CustomFieldView>, name: Seq<char>) -> Option<
    (Seq<char>, Seq<char>),
>
    decreases fields.len(),
{
    if fields.len() == 0 {
        None
    } else if fields[0].name == name && fields[0].bundle is Some {
        Some((fields[0].id, fields[0].bundle->0))
    } else {
        version_bundle(fields.skip(1), name)
    }
}

/// The identifiers of the first field called `name` that has a bundle.
pub fn find_version_bundle(fields: &Vec<CustomField>, name: &str) -> (found: Option<
    (String, String),
>)
    ensures
        match found {
            Some(ids) => version_bundle(field_views(fields@), name@) == Some((ids.0@, ids.1@)),
            None => version_bundle(field_views(fields@), name@) is None,
        },
{
    let ghost all = field_views(fields@);
    let mut i: usize = 0;
    assert(all.skip(0) == all);
    while i < fields.len()
        invariant
            i <= fields.len(),
            all == field_views(fields@),
            version_bundle(all, name@) == version_bundle(all.skip(i as int), name@),
        decreases fields.len() - i,
    {
        proof {
            assert(all.skip(i as int)[0] == all[i as int]);
            assert(all.skip(i as int).skip(1) == all.skip(i + 1));
        }
        let field = &fields[i];
        if str_eq(field.name.as_str(), name) {
            match &field.bundle {
                Some(bundle) => {
                    return Some((field.id.clone(), bundle.clone()));
                },
                None => {},
            }
        }
        i += 1;
    }
    None
}

/// Whether a version of this name is among the versions of a bundle.
pub fn version_is_defined(versions: &Vec<VersionName>, version: &str) -> (defined: bool)
    ensures
        defined == strs(versions@).contains(version@),
{
    let at = find_string(versions, version);
    proof {
        strs(versions@).index_of_first_ensures(version@);
    }
    at.is_some()
}

/// An entry of a release and the issue that its name gives.
#[derive(Debug)]
pub struct ReleasedIssue {
    /// The name of the entry.
    pub entry: String,
    /// The issue.
    pub issue: String,
}

/// A `ReleasedIssue` as character sequences.
pub struct ReleasedIssueView {
    pub entry: Seq<char>,
    pub issue: Seq<char>,
}

impl View for ReleasedIssue {
    type V = ReleasedIssueView;

    open spec fn view(&self) -> ReleasedIssueView {
        ReleasedIssueView { entry: self.entry@, issue: self.issue@ }
    }
}

/// The views of a sequence of released issues.
pub open spec fn issue_views(issues: Seq<ReleasedIssue>) -> Seq<ReleasedIssueView> {
    Seq::new(issues.len(), |i: int| issues[i]@)
}

/// The issue that the name of an entry gives under the configured issue
/// pattern, the name read as a branch name; nothing if the pattern gives
/// nothing or cannot be used.
pub open spec fn issue_of(config: Config, entry: Seq<char>) -> Option<Seq<char>> {
    match extracted_with("branch_issue_pattern"@, text_of(config.branch_issue_pattern), entry) {
        Ok(Some(issue)) => Some(issue),
        _ => None,
    }
}

/// The entries that give an issue, each with its issue, in the order of
/// the entries.
pub open spec fn issues_of(config: Config, entries: Seq<Seq<char>>) -> Seq<ReleasedIssueView>
    decreases entries.len(),
{
    if entries.len() == 0 {
        Seq::empty()
    } else {
        let before = issues_of(config, entries.drop_last());
        match issue_of(config, entries.last()) {
            Some(issue) => before.push(ReleasedIssueView { entry: entries.last(), issue }),
            None => before,
        }
    }
}

/// The issues that a release closes: for each entry whose name gives an
/// issue, the entry and the issue.
pub fn released_issues(ctx: &AppContext, release: &Release) -> (issues: Vec<ReleasedIssue>)
    ensures
        issue_views(issues@) == issues_of(ctx.config, release@.entries),
{
    let ghost entries = release@.entries;
    let mut issues: Vec<ReleasedIssue> = Vec::new();
    let mut i: usize = 0;
    proof {
        assert(entries.take(0) == Seq::<Seq<char>>::empty());
        assert(issue_views(issues@) == Seq::<ReleasedIssueView>::empty());
    }
    while i < release.entries.len()
        invariant
            i <= release.entries.len(),
            entries == strs(release.entries@),
            issue_views(issues@) == issues_of(ctx.config, entries.take(i as int)),
        decreases release.entries.len() - i,
    {
        let ghost before = issue_views(issues@);
        proof {
            assert(entries.take(i + 1).drop_last() == entries.take(i as int));
            assert(entries.take(i + 1).last() == release.entries@[i as int]@);
        }
        let branch = BranchName(release.entries[i].clone());
        match branch.parse_issue(ctx) {
            Ok(Some(issue)) => {
                let found = ReleasedIssue { entry: release.entries[i].clone(), issue };
                issues.push(found);
                assert(issue_views(issues@) == before.push(found@));
            },
            Ok(None) => {},
            Err(_) => {},
        }
        i += 1;
    }
    assert(entries.take(release.entries.len() as int) == entries);
    issues
}


/// What is known while the issues of a release are reported, one after the
/// other: the project that the issues belong to, once it was found, and
/// whether the version is known to exist in that project.
#[derive(Debug)]
pub struct SyncState {
    /// The identifier of the project, once an issue has given it.
    pub project: Option<String>,
    /// Whether the version was found or created in the project.
    pub version_ensured: bool,
}

/// What to ask of the server next for the issue at hand.
#[derive(Clone, Copy, Debug, PartialEq, Eq, Structural)]
pub enum SyncStep {
    /// Find the project of the issue. If that fails, the issue is passed
    /// over.
    FindProject,
    /// Make sure that the version exists in the project.
    EnsureVersion,
    /// Set the fields of the issue; the issue is then done.
    UpdateIssue,
}

/// The next step for the issue at hand: the project is found first, once
/// for all issues; then the version is made sure of, once, if a version
/// field is configured; then the issue is updated.
pub open spec fn sync_step(
    project_known: bool,
    version_ensured: bool,
    has_version_field: bool,
) -> SyncStep {
    if !project_known {
        SyncStep::FindProject
    } else if has_version_field && !version_ensured {
        SyncStep::EnsureVersion
    } else {
        SyncStep::UpdateIssue
    }
}

/// The next step for the issue at hand.
pub fn next_sync_step(state: &SyncState, config: &Config) -> (step: SyncStep)
    ensures
        step == sync_step(
            state.project is Some,
            state.version_ensured,
            config.integrations.youtrack.version_field is Some,
        ),
{
    if state.project.is_none() {
        SyncStep::FindProject
    } else if config.integrations.youtrack.version_field.is_some() && !state.version_ensured {
        SyncStep::EnsureVersion
    } else {
        SyncStep::UpdateIssue
    }
}

} // verus!
