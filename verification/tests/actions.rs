use clpack::action_log::{check_entry_name, finish_text, prefill_text, InputCheck};
use clpack::action_pack::{
    check_version, choose_channel, preview_release, resolve_channel, ChannelChoice,
};
use clpack::config::Config;
use clpack::context::AppContext;
use clpack::entries::EntryRepository;
use clpack::error::StoreError;
use clpack::git::BranchName;
use clpack::integrations::youtrack::{
    api_url, find_version_bundle, issue_updates, next_sync_step, released_issues,
    version_is_defined, youtrack_integration_enabled, CustomField, SetVersion, SyncState,
    SyncStep,
};
use clpack::ledger::StoredLedger;
use clpack::release::Release;
use clpack::store::{Store, StoredChannel};
use std::path::PathBuf;

fn context(channels: &[(&str, &str)]) -> AppContext {
    let mut config = Config::default();
    for (channel, pattern) in channels {
        config.channels.insert(channel.to_string(), pattern.to_string());
    }
    AppContext { binary_name: "cl".to_string(), config, root: PathBuf::from("/tmp/") }
}

fn fixed(choice: Result<ChannelChoice, StoreError>) -> String {
    match choice {
        Ok(ChannelChoice::Fixed(channel)) => channel,
        other => panic!("unexpected {:?}", other),
    }
}

fn asked(choice: Result<ChannelChoice, StoreError>) -> (Vec<String>, Option<usize>) {
    match choice {
        Ok(ChannelChoice::Ask { options, cursor }) => (options, cursor),
        other => panic!("unexpected {:?}", other),
    }
}

#[test]
fn prefill_lists_sections_with_issue() {
    let sections = vec!["Fixes".to_string(), "Internal".to_string()];
    assert_eq!(
        prefill_text(&sections, Some("SW-1")),
        "# Fixes\n-  (#SW-1)\n\n# Internal\n-  (#SW-1)\n"
    );
    assert_eq!(prefill_text(&sections, None), "# Fixes\n- \n\n# Internal\n- \n");
    assert_eq!(prefill_text(&vec!["One".to_string()], None), "# One\n- \n");
    assert_eq!(prefill_text(&vec![], Some("1")), "");
}

#[test]
fn finish_text_falls_back_and_ends_with_line_feed() {
    assert_eq!(finish_text("", "# Fixes\n- \n"), "# Fixes\n- \n");
    assert_eq!(finish_text("edited", "prefill\n"), "edited\n");
    assert_eq!(finish_text("edited\n", "prefill\n"), "edited\n");
    assert_eq!(finish_text("", ""), "\n");
    assert_eq!(finish_text("", "x"), "x\n");
}

#[test]
fn names_and_versions_are_checked() {
    let ctx = context(&[]);
    let mut entries = EntryRepository::new();
    entries.create("taken".to_string(), "x".to_string());
    let stored = vec![StoredChannel {
        channel: "default".to_string(),
        ledger: StoredLedger::Releases(vec![Release {
            version: "1.0".to_string(),
            entries: vec![],
        }]),
    }];
    let store = Store::new(&ctx, entries, &stored).unwrap();
    assert_eq!(check_entry_name(&store, ""), InputCheck::Cancelled);
    assert_eq!(check_entry_name(&store, "taken"), InputCheck::Taken);
    assert_eq!(check_entry_name(&store, "free"), InputCheck::Free);
    assert_eq!(check_version(&store, ""), InputCheck::Cancelled);
    assert_eq!(check_version(&store, "1.0"), InputCheck::Taken);
    assert_eq!(check_version(&store, "1.1"), InputCheck::Free);
}

#[test]
fn preview_holds_unreleased_entries() {
    let ctx = context(&[]);
    let mut entries = EntryRepository::new();
    entries.create("a".to_string(), "x".to_string());
    entries.create("b".to_string(), "y".to_string());
    let mut store = Store::new(&ctx, entries, &vec![]).unwrap();
    let preview = preview_release(&store, &"default".to_string()).unwrap().unwrap();
    assert_eq!(preview.version, "Unreleased");
    assert_eq!(preview.entries, vec!["a", "b"]);
    assert_eq!(
        preview_release(&store, &"nope".to_string()).err(),
        Some(StoreError::UnknownChannel("nope".to_string()))
    );
    let all = Release { version: "1".to_string(), entries: vec!["a".to_string(), "b".to_string()] };
    store.create_release_at("default".to_string(), all, None, "D").unwrap();
    assert!(preview_release(&store, &"default".to_string()).unwrap().is_none());
}

#[test]
fn single_channel_is_the_default_channel() {
    let ctx = context(&[]);
    assert_eq!(fixed(resolve_channel(&ctx, None, None)), "default");
    assert_eq!(fixed(resolve_channel(&ctx, Some("default".to_string()), None)), "default");
    let branch = BranchName("main".to_string());
    assert_eq!(fixed(resolve_channel(&ctx, None, Some(&branch))), "default");
    assert_eq!(
        resolve_channel(&ctx, Some("beta".to_string()), None).err(),
        Some(StoreError::UnknownChannel("beta".to_string()))
    );
}

#[test]
fn several_channels_ask_unless_named() {
    let ctx = context(&[("beta", "/^beta/"), ("eap", "")]);
    let all = vec!["default".to_string(), "beta".to_string(), "eap".to_string()];
    assert_eq!(fixed(resolve_channel(&ctx, Some("eap".to_string()), None)), "eap");
    assert_eq!(asked(resolve_channel(&ctx, None, None)), (all.clone(), None));
    let branch = BranchName("beta/2".to_string());
    assert_eq!(asked(resolve_channel(&ctx, None, Some(&branch))), (all.clone(), Some(1)));
    let other = BranchName("feature".to_string());
    assert_eq!(asked(resolve_channel(&ctx, None, Some(&other))), (all.clone(), None));
    assert_eq!(
        resolve_channel(&ctx, Some("nope".to_string()), Some(&branch)).err(),
        Some(StoreError::UnknownChannel("nope".to_string()))
    );
    assert_eq!(asked(choose_channel(&ctx, Some("eap".to_string()), false)), (all, Some(2)));
}

#[test]
fn broken_channel_pattern_fails_resolution() {
    let ctx = context(&[("beta", "/(/")]);
    let branch = BranchName("feature".to_string());
    assert!(matches!(
        resolve_channel(&ctx, None, Some(&branch)),
        Err(StoreError::Config(_))
    ));
}

#[test]
fn youtrack_is_enabled_only_when_complete() {
    let mut config = Config::default();
    let channel = "default".to_string();
    assert!(!youtrack_integration_enabled(&config, &channel, None, Some("token")));
    config.integrations.youtrack.enabled = true;
    assert!(!youtrack_integration_enabled(&config, &channel, None, Some("token")));
    config.integrations.youtrack.version_field = Some("Available in version".to_string());
    assert!(youtrack_integration_enabled(&config, &channel, None, Some("token")));
    assert!(!youtrack_integration_enabled(&config, &channel, None, Some("")));
    assert!(!youtrack_integration_enabled(&config, &channel, None, None));
    assert!(!youtrack_integration_enabled(&config, &"beta".to_string(), None, Some("token")));
    config.integrations.youtrack.url = String::new();
    assert!(!youtrack_integration_enabled(&config, &channel, None, Some("token")));
    assert!(!youtrack_integration_enabled(&config, &channel, Some(""), Some("token")));
    assert!(youtrack_integration_enabled(&config, &channel, Some("https://x"), Some("token")));
    config.integrations.youtrack.version_field = Some(String::new());
    assert!(!youtrack_integration_enabled(&config, &channel, Some("https://x"), Some("token")));
    config.integrations.youtrack.released_state = Some("Released".to_string());
    assert!(youtrack_integration_enabled(&config, &channel, Some("https://x"), Some("token")));
}

#[test]
fn api_url_joins_with_one_slash() {
    assert_eq!(api_url("https://yt.example/", "/issues/SW-1"), "https://yt.example/api/issues/SW-1");
    assert_eq!(api_url("https://yt.example", "issues"), "https://yt.example/api/issues");
    assert_eq!(api_url("https://yt.example///", "//a/b/"), "https://yt.example/api/a/b/");
    assert_eq!(api_url("", ""), "/api/");
}

#[test]
fn issue_updates_version_then_state() {
    let set = SetVersion { field_name: "Available in version", version: "1.0" };
    let both: Vec<(String, String, String)> = issue_updates(Some(&set), Some("Released"))
        .into_iter()
        .map(|u| (u.name, u.field_type, u.value))
        .collect();
    assert_eq!(
        both,
        vec![
            (
                "Available in version".to_string(),
                "SingleVersionIssueCustomField".to_string(),
                "1.0".to_string()
            ),
            ("State".to_string(), "StateIssueCustomField".to_string(), "Released".to_string()),
        ]
    );
    assert_eq!(issue_updates(Some(&set), None).len(), 1);
    assert_eq!(issue_updates(None, Some("Released"))[0].name, "State");
    assert!(issue_updates(None, None).is_empty());
}

#[test]
fn version_bundle_is_first_named_field_with_bundle() {
    let field = |name: &str, id: &str, bundle: Option<&str>| CustomField {
        name: name.to_string(),
        id: id.to_string(),
        bundle: bundle.map(|b| b.to_string()),
    };
    let fields = vec![
        field("State", "1", Some("b1")),
        field("Version", "2", None),
        field("Version", "3", Some("b3")),
        field("Version", "4", Some("b4")),
    ];
    assert_eq!(
        find_version_bundle(&fields, "Version"),
        Some(("3".to_string(), "b3".to_string()))
    );
    assert_eq!(find_version_bundle(&fields, "Other"), None);
    assert_eq!(find_version_bundle(&vec![], "Version"), None);
    assert!(version_is_defined(&vec!["1.0".to_string(), "1.1".to_string()], "1.1"));
    assert!(!version_is_defined(&vec!["1.0".to_string()], "1.1"));
}

#[test]
fn released_issues_follow_entry_names() {
    let mut ctx = context(&[]);
    let release = Release {
        version: "1".to_string(),
        entries: vec![
            "1234-fix".to_string(),
            "no-issue".to_string(),
            "SW-9-thing".to_string(),
        ],
    };
    let found: Vec<(String, String)> =
        released_issues(&ctx, &release).into_iter().map(|i| (i.entry, i.issue)).collect();
    assert_eq!(
        found,
        vec![
            ("1234-fix".to_string(), "1234".to_string()),
            ("SW-9-thing".to_string(), "SW-9".to_string())
        ]
    );
    ctx.config.branch_issue_pattern = Some("not a regex".to_string());
    assert!(released_issues(&ctx, &release).is_empty());
    ctx.config.branch_issue_pattern = None;
    assert!(released_issues(&ctx, &release).is_empty());
}

#[test]
fn sync_finds_project_then_version_then_updates() {
    let mut config = Config::default();
    let mut state = SyncState { project: None, version_ensured: false };
    assert_eq!(next_sync_step(&state, &config), SyncStep::FindProject);
    state.project = Some("0-1".to_string());
    assert_eq!(next_sync_step(&state, &config), SyncStep::UpdateIssue);
    config.integrations.youtrack.version_field = Some("Available in version".to_string());
    assert_eq!(next_sync_step(&state, &config), SyncStep::EnsureVersion);
    state.version_ensured = true;
    assert_eq!(next_sync_step(&state, &config), SyncStep::UpdateIssue);
    state.project = None;
    assert_eq!(next_sync_step(&state, &config), SyncStep::FindProject);
}
