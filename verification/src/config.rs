//! The configuration: where the data lives, which channels exist and how a
//! release is written.

use crate::text::strs;
use indexmap::IndexMap;
use vstd::prelude::*;

verus! {

/// The identifier of a channel, such as `default`, `stable` or `eap`.
pub type ChannelName = String;

/// The name of a version, such as `1.2.3`.
pub type VersionName = String;

/// The name of an entry: its file name without the extension.
pub type EntryName = String;

/// `indexmap::IndexMap`: a hash table that keeps its key-value pairs in the
/// order of insertion.
#[verifier::external_type_specification]
#[verifier::external_body]
#[verifier::reject_recursive_types(K)]
#[verifier::reject_recursive_types(V)]
#[verifier::reject_recursive_types(S)]
pub struct ExIndexMap<K, V, S>(IndexMap<K, V, S>);

/// The key-value pairs of a channel map, in the map's order: each channel's
/// identifier and the pattern that recognises its branches.
pub uninterp spec fn channel_pairs(map: IndexMap<String, String>) -> Seq<(Seq<char>, Seq<char>)>;

/// The identifiers of the channels of a map, in the map's order.
pub open spec fn channel_ids(map: IndexMap<String, String>) -> Seq<Seq<char>> {
    Seq::new(channel_pairs(map).len(), |i: int| channel_pairs(map)[i].0)
}

/// `IndexMap::from` on an array of one pair: the map holds that pair and
/// nothing else.
#[verifier::external_body]
fn one_channel(id: String, pattern: String) -> (map: IndexMap<String, String>)
    ensures
        channel_pairs(map) == seq![(id@, pattern@)],
{
    IndexMap::from([(id, pattern)])
}

/// `IndexMap::len`: the number of key-value pairs.
#[verifier::external_body]
pub(crate) fn channel_count(map: &IndexMap<String, String>) -> (count: usize)
    ensures
        count == channel_pairs(*map).len(),
{
    map.len()
}

/// `IndexMap::get_index`: the pair at a position of the map's order, for
/// the positions below the map's length, and `None` for the others.
#[verifier::external_body]
pub(crate) fn channel_at(map: &IndexMap<String, String>, index: usize) -> (pair: Option<
    (&String, &String),
>)
    ensures
        match pair {
            Some(found) => index < channel_pairs(*map).len() && found.0@ == channel_pairs(
                *map,
            )[index as int].0 && found.1@ == channel_pairs(*map)[index as int].1,
            None => index >= channel_pairs(*map).len(),
        },
{
    map.get_index(index)
}

/// `IndexMap::contains_key`: whether a pair with this key is in the map.
#[verifier::external_body]
fn has_channel_key(map: &IndexMap<String, String>, id: &str) -> (found: bool)
    ensures
        found == channel_ids(*map).contains(id@),
{
    map.contains_key(id)
}

/// The configuration of the YouTrack integration.
#[derive(Debug)]
pub struct YouTrackIntegrationConfig {
    /// Whether the integration is switched on.
    pub enabled: bool,
    /// The address of the YouTrack server, scheme and host only.
    pub url: String,
    /// The channels whose releases are reported to YouTrack.
    pub channels: Vec<ChannelName>,
    /// The name of the state that released issues are moved to.
    pub released_state: Option<String>,
    /// The name of the field that receives the version.
    pub version_field: Option<String>,
}

impl Default for YouTrackIntegrationConfig {
    fn default() -> (config: Self)
        ensures
            !config.enabled,
            config.url@ == "https://example.youtrack.cloud"@,
            strs(config.channels@) == seq!["default"@],
            config.released_state is None,
            config.version_field is None,
    {
        let mut channels: Vec<String> = Vec::new();
        channels.push("default".to_owned());
        assert(strs(channels@) == seq!["default"@]);
        YouTrackIntegrationConfig {
            enabled: false,
            url: "https://example.youtrack.cloud".to_owned(),
            channels,
            released_state: None,
            version_field: None,
        }
    }
}

/// The configuration of the integrations.
#[derive(Debug)]
pub struct IntegrationsConfig {
    /// The YouTrack integration.
    pub youtrack: YouTrackIntegrationConfig,
}

impl Default for IntegrationsConfig {
    fn default() -> (config: Self)
        ensures
            !config.youtrack.enabled,
            config.youtrack.url@ == "https://example.youtrack.cloud"@,
            strs(config.youtrack.channels@) == seq!["default"@],
            config.youtrack.released_state is None,
            config.youtrack.version_field is None,
    {
        IntegrationsConfig { youtrack: YouTrackIntegrationConfig::default() }
    }
}

/// The configuration of the whole tool.
#[derive(Debug)]
pub struct Config {
    /// The name of the data directory, relative to the project's root.
    pub data_folder: String,
    /// The identifier of the default channel.
    pub default_channel: String,
    /// The changelog file of the default channel, relative to the root.
    pub changelog_file_default: String,
    /// The changelog file of any other channel, relative to the root; may
    /// hold the placeholders `{channel}`, `{Channel}` and `{CHANNEL}`.
    pub changelog_file_channel: String,
    /// The text that every changelog file begins with.
    pub changelog_header: String,
    /// The header of a release; may hold the placeholders `{VERSION}` and
    /// `{DATE}`.
    pub release_header: String,
    /// The format of the date in a release header.
    pub date_format: String,
    /// The canonical section names, in the order in which they are written.
    pub sections: Vec<String>,
    /// The channels: each identifier with the pattern that recognises the
    /// channel's branches, a regular expression between slashes or a branch
    /// name. A channel with an empty pattern is chosen by hand only.
    pub channels: IndexMap<ChannelName, String>,
    /// The pattern that extracts an issue number from a branch name.
    pub branch_issue_pattern: Option<String>,
    /// The pattern that extracts a version from a branch name.
    pub branch_version_pattern: Option<String>,
    /// The configuration of the integrations.
    pub integrations: IntegrationsConfig,
}

impl Default for Config {
    fn default() -> (config: Self)
        ensures
            config.data_folder@ == "changelog"@,
            config.default_channel@ == "default"@,
            config.changelog_file_default@ == "CHANGELOG.md"@,
            config.changelog_file_channel@ == "CHANGELOG-{CHANNEL}.md"@,
            config.changelog_header@ == "# Changelog\n\n"@,
            config.release_header@ == "[{VERSION}] - {DATE}"@,
            config.date_format@ == "%Y-%m-%d"@,
            strs(config.sections@) == seq![
                "Fixes"@,
                "Improvements"@,
                "New features"@,
                "Internal"@,
            ],
            channel_pairs(config.channels) == seq![("default"@, "/^(?:main|master)$/"@)],
            config.branch_issue_pattern is Some && config.branch_issue_pattern->0@
                == "/^((?:SW-)?\\d+)-.*/"@,
            config.branch_version_pattern is Some && config.branch_version_pattern->0@
                == "/^rel\\/([\\d.]+)$/"@,
            !config.integrations.youtrack.enabled,
    {
        let mut sections: Vec<String> = Vec::new();
        sections.push("Fixes".to_owned());
        sections.push("Improvements".to_owned());
        sections.push("New features".to_owned());
        sections.push("Internal".to_owned());
        assert(strs(sections@) == seq!["Fixes"@, "Improvements"@, "New features"@, "Internal"@]);
        Config {
            data_folder: "changelog".to_owned(),
            default_channel: "default".to_owned(),
            changelog_file_default: "CHANGELOG.md".to_owned(),
            changelog_file_channel: "CHANGELOG-{CHANNEL}.md".to_owned(),
            changelog_header: "# Changelog\n\n".to_owned(),
            release_header: "[{VERSION}] - {DATE}".to_owned(),
            date_format: "%Y-%m-%d".to_owned(),
            sections,
            channels: one_channel("default".to_owned(), "/^(?:main|master)$/".to_owned()),
            branch_issue_pattern: Some("/^((?:SW-)?\\d+)-.*/".to_owned()),
            branch_version_pattern: Some("/^rel\\/([\\d.]+)$/".to_owned()),
            integrations: IntegrationsConfig::default(),
        }
    }
}

impl Config {
    /// The identifiers of the configured channels, in the order of the
    /// configuration.
    pub open spec fn channel_names(&self) -> Seq<Seq<char>> {
        channel_ids(self.channels)
    }

    /// The identifiers of the configured channels, in the order of the
    /// configuration.
    pub fn channel_list(&self) -> (ids: Vec<ChannelName>)
        ensures
            strs(ids@) == self.channel_names(),
    {
        let mut ids: Vec<String> = Vec::new();
        let count = channel_count(&self.channels);
        let mut i: usize = 0;
        while i < count
            invariant
                i <= count,
                count == channel_pairs(self.channels).len(),
                strs(ids@) == self.channel_names().take(i as int),
            decreases count - i,
        {
            let ghost before = strs(ids@);
            match channel_at(&self.channels, i) {
                Some(pair) => {
                    ids.push(pair.0.clone());
                    assert(strs(ids@) == before.push(self.channel_names()[i as int]));
                },
                None => {},
            }
            i += 1;
        }
        assert(self.channel_names().take(count as int) == self.channel_names());
        ids
    }

    /// Whether a channel with this identifier is configured.
    pub fn has_channel(&self, id: &str) -> (found: bool)
        ensures
            found == self.channel_names().contains(id@),
    {
        has_channel_key(&self.channels, id)
    }

    /// The number of the configured channels.
    pub fn channel_total(&self) -> (count: usize)
        ensures
            count == self.channel_names().len(),
    {
        channel_count(&self.channels)
    }
}

} // verus!
