use clpack::config::{Config, IntegrationsConfig, YouTrackIntegrationConfig};
use clpack::utils::empty_to_none::EmptyToNone;

#[test]
fn default_config_values() {
    let config = Config::default();
    assert_eq!(config.data_folder, "changelog");
    assert_eq!(config.default_channel, "default");
    assert_eq!(config.changelog_file_default, "CHANGELOG.md");
    assert_eq!(config.changelog_file_channel, "CHANGELOG-{CHANNEL}.md");
    assert_eq!(config.changelog_header, "# Changelog\n\n");
    assert_eq!(config.release_header, "[{VERSION}] - {DATE}");
    assert_eq!(config.date_format, "%Y-%m-%d");
    assert_eq!(config.sections, vec!["Fixes", "Improvements", "New features", "Internal"]);
    let channels: Vec<(&String, &String)> = config.channels.iter().collect();
    assert_eq!(channels.len(), 1);
    assert_eq!(channels[0].0, "default");
    assert_eq!(channels[0].1, "/^(?:main|master)$/");
    assert_eq!(config.branch_issue_pattern, Some(r"/^((?:SW-)?\d+)-.*/".to_string()));
    assert_eq!(config.branch_version_pattern, Some(r"/^rel\/([\d.]+)$/".to_string()));
    assert!(!config.integrations.youtrack.enabled);
}

#[test]
fn default_integrations() {
    let youtrack = YouTrackIntegrationConfig::default();
    assert!(!youtrack.enabled);
    assert_eq!(youtrack.url, "https://example.youtrack.cloud");
    assert_eq!(youtrack.channels, vec!["default"]);
    assert_eq!(youtrack.released_state, None);
    assert_eq!(youtrack.version_field, None);
    assert_eq!(IntegrationsConfig::default().youtrack.url, youtrack.url);
}

#[test]
fn channels_are_listed_in_order() {
    let mut config = Config::default();
    config.channels.insert("zeta".to_string(), "z".to_string());
    config.channels.insert("alpha".to_string(), "".to_string());
    config.channels.insert("default".to_string(), "again".to_string());
    assert_eq!(config.channel_list(), vec!["default", "zeta", "alpha"]);
    assert_eq!(config.channel_total(), 3);
    assert!(config.has_channel("alpha"));
    assert!(!config.has_channel("beta"));
}

#[test]
fn empty_to_none_on_texts_and_lists() {
    assert_eq!(Some("").empty_to_none(), None);
    assert_eq!(Some("a").empty_to_none(), Some("a"));
    assert_eq!(None::<&str>.empty_to_none(), None);
    assert_eq!(Some(String::new()).empty_to_none(), None);
    assert_eq!(Some("a".to_string()).empty_to_none(), Some("a".to_string()));
    let empty = String::new();
    let full = "x".to_string();
    assert_eq!(Some(&empty).empty_to_none(), None);
    assert_eq!(Some(&full).empty_to_none(), Some(&full));
    assert_eq!(Some(Vec::<u8>::new()).empty_to_none(), None);
    assert_eq!(Some(vec![1]).empty_to_none(), Some(vec![1]));
    let list: Vec<u8> = vec![];
    assert_eq!(Some(&list).empty_to_none(), None);
    assert_eq!(None::<Vec<u8>>.empty_to_none(), None);
}
