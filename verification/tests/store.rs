use clpack::config::Config;
use clpack::context::AppContext;
use clpack::document::{path_for, prepend};
use clpack::entries::{entry_file_name, DirItem, EntryRepository};
use clpack::error::{StoreDir, StoreError};
use clpack::ledger::{ChannelReleaseStore, StoredLedger};
use clpack::release::Release;
use clpack::layout::DirAction::{Create, Ready};
use clpack::layout::PathState::{Missing, NotADirectory, ReadOnlyDirectory, WritableDirectory};
use clpack::layout::{dir_step, DirRole};
use clpack::store::{Store, StoredChannel};
use std::path::PathBuf;

fn context(channels: &[&str]) -> AppContext {
    let mut config = Config::default();
    for channel in channels {
        config.channels.insert(channel.to_string(), "".to_string());
    }
    AppContext { binary_name: "cl".to_string(), config, root: PathBuf::from("/tmp/") }
}

fn release(version: &str, entries: &[&str]) -> Release {
    Release {
        version: version.to_string(),
        entries: entries.iter().map(|e| e.to_string()).collect(),
    }
}

fn item(file_name: &str, is_file: bool, content: Option<&str>) -> DirItem {
    DirItem {
        file_name: file_name.to_string(),
        is_file,
        content: content.map(|c| c.to_string()),
    }
}

fn versions(ledger: &ChannelReleaseStore) -> Vec<(String, Vec<String>)> {
    ledger.releases().into_iter().map(|r| (r.version, r.entries)).collect()
}

fn entries(names: &[&str]) -> EntryRepository {
    let mut repo = EntryRepository::new();
    for name in names {
        repo.create(name.to_string(), format!("# Fixes\n{}\n", name));
    }
    repo
}

#[test]
fn create_entry_then_exists_and_listed() {
    let ctx = context(&[]);
    let mut store = Store::new(&ctx, EntryRepository::new(), &vec![]).unwrap();
    assert!(!store.entry_exists("note"));
    store.create_entry("note".to_string(), "text\n".to_string());
    assert!(store.entry_exists("note"));
    let listed: Vec<(String, Option<String>)> =
        store.entries().list().into_iter().map(|e| (e.name, e.content)).collect();
    assert_eq!(listed, vec![("note".to_string(), Some("text\n".to_string()))]);
    store.create_entry("other".to_string(), "o".to_string());
    store.create_entry("note".to_string(), "new".to_string());
    let listed: Vec<(String, Option<String>)> =
        store.entries().list().into_iter().map(|e| (e.name, e.content)).collect();
    assert_eq!(
        listed,
        vec![
            ("note".to_string(), Some("new".to_string())),
            ("other".to_string(), Some("o".to_string()))
        ]
    );
    assert_eq!(store.entries().content("note"), Some("new".to_string()));
    assert_eq!(store.entries().names(), vec!["note".to_string(), "other".to_string()]);
}

#[test]
fn listing_keeps_entry_files_and_reports_strangers() {
    let items = vec![
        item("b.md", true, Some("B")),
        item(".gitkeep", true, Some("")),
        item("notes.txt", true, Some("x")),
        item("dir.md", false, None),
        item("a.md", true, None),
        item("b.md", true, Some("again")),
        item(".md", true, Some("nameless")),
        item("md", true, Some("short")),
    ];
    let (repo, unexpected) = EntryRepository::from_listing(&items);
    assert_eq!(repo.names(), vec!["b".to_string(), "a".to_string(), "".to_string()]);
    assert_eq!(
        unexpected,
        vec!["notes.txt".to_string(), "dir.md".to_string(), "md".to_string()]
    );
    assert_eq!(repo.content("b"), Some("B".to_string()));
    assert_eq!(repo.content("a"), None);
    assert!(repo.contains("a"));
    assert!(!repo.contains("notes"));
    assert_eq!(entry_file_name("a"), "a.md");
}

#[test]
fn ledger_appends_in_order_and_rejects_duplicates() {
    let mut ledger = ChannelReleaseStore::load("default".to_string(), StoredLedger::Absent).unwrap();
    assert!(ledger.is_dirty());
    assert_eq!(ledger.channel_name(), "default");
    ledger.mark_flushed();
    assert!(!ledger.is_dirty());
    assert!(!ledger.version_exists("1.0"));
    assert_eq!(ledger.add_version(release("1.0", &["a"])), Ok(()));
    assert!(ledger.is_dirty());
    assert_eq!(ledger.add_version(release("1.1", &["b", "c"])), Ok(()));
    assert!(ledger.version_exists("1.0"));
    assert_eq!(
        ledger.add_version(release("1.0", &["z"])),
        Err(StoreError::DuplicateVersion("1.0".to_string(), "default".to_string()))
    );
    assert_eq!(
        versions(&ledger),
        vec![
            ("1.0".to_string(), vec!["a".to_string()]),
            ("1.1".to_string(), vec!["b".to_string(), "c".to_string()])
        ]
    );
}

#[test]
fn ledger_load_checks_what_is_stored() {
    let stored = StoredLedger::Releases(vec![release("1", &["a"]), release("2", &[])]);
    let ledger = ChannelReleaseStore::load("beta".to_string(), stored).unwrap();
    assert!(!ledger.is_dirty());
    assert_eq!(versions(&ledger).len(), 2);
    assert_eq!(
        ChannelReleaseStore::load("beta".to_string(), StoredLedger::Corrupt).err(),
        Some(StoreError::CorruptLedger("beta".to_string()))
    );
    let twice = StoredLedger::Releases(vec![release("1", &["a"]), release("1", &[])]);
    assert_eq!(
        ChannelReleaseStore::load("beta".to_string(), twice).err(),
        Some(StoreError::CorruptLedger("beta".to_string()))
    );
}

#[test]
fn ledger_round_trip_through_its_releases() {
    let mut ledger = ChannelReleaseStore::empty("default".to_string());
    ledger.add_version(release("1.0", &["a", "b"])).unwrap();
    ledger.add_version(release("0.9", &[])).unwrap();
    let again =
        ChannelReleaseStore::load("default".to_string(), StoredLedger::Releases(ledger.releases()))
            .unwrap();
    assert_eq!(versions(&again), versions(&ledger));
}

#[test]
fn unreleased_is_repository_minus_released_in_order() {
    let mut ledger = ChannelReleaseStore::empty("default".to_string());
    ledger.add_version(release("1.0", &["b", "gone"])).unwrap();
    ledger.add_version(release("1.1", &["d"])).unwrap();
    let names: Vec<String> = ["e", "d", "c", "b", "a"].iter().map(|s| s.to_string()).collect();
    assert_eq!(
        ledger.find_unreleased_entries(&names),
        vec!["e".to_string(), "c".to_string(), "a".to_string()]
    );
    assert!(ledger.holds_entry("gone"));
    assert!(!ledger.holds_entry("a"));
}

#[test]
fn unreleased_ignores_other_channels() {
    let ctx = context(&["beta"]);
    let stored = vec![
        StoredChannel {
            channel: "beta".to_string(),
            ledger: StoredLedger::Releases(vec![release("b1", &["x"])]),
        },
        StoredChannel {
            channel: "default".to_string(),
            ledger: StoredLedger::Releases(vec![release("1", &["y"])]),
        },
        StoredChannel { channel: "unconfigured".to_string(), ledger: StoredLedger::Corrupt },
    ];
    let store = Store::new(&ctx, entries(&["x", "y", "z"]), &stored).unwrap();
    assert_eq!(
        store.find_unreleased_changes(&"default".to_string()),
        Ok(vec!["x".to_string(), "z".to_string()])
    );
    assert_eq!(
        store.find_unreleased_changes(&"beta".to_string()),
        Ok(vec!["y".to_string(), "z".to_string()])
    );
    assert_eq!(
        store.find_unreleased_changes(&"nope".to_string()),
        Err(StoreError::UnknownChannel("nope".to_string()))
    );
    assert!(store.version_exists("b1"));
    assert!(store.version_exists("1"));
    assert!(!store.version_exists("2"));
}

#[test]
fn open_fails_on_corrupt_ledger() {
    let ctx = context(&["beta", "eap"]);
    let stored = vec![
        StoredChannel { channel: "eap".to_string(), ledger: StoredLedger::Corrupt },
        StoredChannel { channel: "beta".to_string(), ledger: StoredLedger::Corrupt },
    ];
    assert_eq!(
        Store::new(&ctx, EntryRepository::new(), &stored).err(),
        Some(StoreError::CorruptLedger("beta".to_string()))
    );
}

#[test]
fn open_creates_missing_ledgers_dirty() {
    let ctx = context(&["beta"]);
    let stored = vec![StoredChannel {
        channel: "beta".to_string(),
        ledger: StoredLedger::Releases(vec![]),
    }];
    let mut store = Store::new(&ctx, EntryRepository::new(), &stored).unwrap();
    assert!(store.ledger("default").unwrap().is_dirty());
    assert!(!store.ledger("beta").unwrap().is_dirty());
    assert!(store.ledger("other").is_none());
    assert!(store.mark_flushed("default"));
    assert!(!store.ledger("default").unwrap().is_dirty());
    assert!(!store.mark_flushed("other"));
}

#[test]
fn create_release_rejects_version_of_any_channel() {
    let ctx = context(&["beta"]);
    let stored = vec![StoredChannel {
        channel: "beta".to_string(),
        ledger: StoredLedger::Releases(vec![release("1.0", &[])]),
    }];
    let mut store = Store::new(&ctx, entries(&["a"]), &stored).unwrap();
    let outcome =
        store.create_release_at("default".to_string(), release("1.0", &["a"]), None, "D");
    assert_eq!(
        outcome.err(),
        Some(StoreError::DuplicateVersion("1.0".to_string(), "beta".to_string()))
    );
    assert_eq!(versions(store.ledger("default").unwrap()), vec![]);
    assert_eq!(versions(store.ledger("beta").unwrap()).len(), 1);
    assert_eq!(
        store.find_unreleased_changes(&"default".to_string()),
        Ok(vec!["a".to_string()])
    );
}

#[test]
fn create_release_with_deleted_entry_writes_nothing() {
    let ctx = context(&[]);
    let mut store = Store::new(&ctx, entries(&["a"]), &vec![]).unwrap();
    store.mark_flushed("default");
    let outcome =
        store.create_release_at("default".to_string(), release("1.0", &["a", "gone"]), None, "D");
    assert_eq!(outcome.err(), Some(StoreError::MissingEntryFile("gone".to_string())));
    assert_eq!(versions(store.ledger("default").unwrap()), vec![]);
    assert!(!store.ledger("default").unwrap().is_dirty());
    assert!(!store.version_exists("1.0"));
    // The failure of the entry comes before that of the channel.
    let outcome =
        store.create_release_at("nope".to_string(), release("1.0", &["gone"]), None, "D");
    assert_eq!(outcome.err(), Some(StoreError::MissingEntryFile("gone".to_string())));
    let outcome = store.create_release_at("nope".to_string(), release("1.0", &["a"]), None, "D");
    assert_eq!(outcome.err(), Some(StoreError::UnknownChannel("nope".to_string())));
}

#[test]
fn create_release_updates_document_and_ledger() {
    let ctx = context(&["beta"]);
    let mut store = Store::new(&ctx, entries(&["a", "b"]), &vec![]).unwrap();
    let update = store
        .create_release_at(
            "default".to_string(),
            release("1.0", &["a"]),
            Some("# Changelog\n\nOld release\n"),
            "2024-05-06",
        )
        .unwrap();
    assert_eq!(update.path, "CHANGELOG.md");
    assert_eq!(
        update.document,
        "# Changelog\n\n## [1.0] - 2024-05-06\n\n### Fixes\n\na\n\nOld release\n"
    );
    assert_eq!(
        versions(store.ledger("default").unwrap()),
        vec![("1.0".to_string(), vec!["a".to_string()])]
    );
    assert!(store.version_exists("1.0"));
    assert_eq!(
        store.find_unreleased_changes(&"default".to_string()),
        Ok(vec!["b".to_string()])
    );
    assert_eq!(
        store.find_unreleased_changes(&"beta".to_string()),
        Ok(vec!["a".to_string(), "b".to_string()])
    );
    let update = store
        .create_release_at("beta".to_string(), release("1.1", &["a", "b"]), None, "D")
        .unwrap();
    assert_eq!(update.path, "CHANGELOG-BETA.md");
    assert_eq!(update.document, "# Changelog\n\n## [1.1] - D\n\n### Fixes\n\na\nb\n\n");
}

#[test]
fn stage_changes_nothing_and_commit_appends() {
    let ctx = context(&[]);
    let mut store = Store::new(&ctx, entries(&["a"]), &vec![]).unwrap();
    let staged = store
        .stage_release_at("default".to_string(), release("1.0", &["a"]), None, "D")
        .unwrap();
    assert_eq!(staged.path, "CHANGELOG.md");
    assert_eq!(staged.document, "# Changelog\n\n## [1.0] - D\n\n### Fixes\n\na\n\n");
    assert!(!store.version_exists("1.0"));
    assert_eq!(store.commit_release(staged), Ok(()));
    assert!(store.version_exists("1.0"));
    let again = store.stage_release_at("default".to_string(), release("1.0", &["a"]), None, "D");
    assert_eq!(
        again.err(),
        Some(StoreError::DuplicateVersion("1.0".to_string(), "default".to_string()))
    );
}

#[test]
fn create_release_with_todays_date() {
    let ctx = context(&[]);
    let mut store = Store::new(&ctx, entries(&["a"]), &vec![]).unwrap();
    let preview = store.render_release(&release("Unreleased", &["a"])).unwrap();
    assert!(preview.starts_with("## [Unreleased] - "));
    assert!(preview.ends_with("\n\n### Fixes\n\na\n\n"));
    let date_len = preview.len() - "## [Unreleased] - ".len() - "\n\n### Fixes\n\na\n\n".len();
    assert_eq!(date_len, "2024-05-06".len());
    assert!(!store.version_exists("Unreleased"));
    let update = store.create_release("default".to_string(), release("1.0", &["a"]), None).unwrap();
    assert!(update.document.starts_with("# Changelog\n\n## [1.0] - "));
    assert!(store.version_exists("1.0"));
    assert_eq!(
        store.render_release(&release("x", &["gone"])),
        Err(StoreError::MissingEntryFile("gone".to_string()))
    );
    let staged = store.stage_release("default".to_string(), release("1.0", &["a"]), None);
    assert_eq!(
        staged.err(),
        Some(StoreError::DuplicateVersion("1.0".to_string(), "default".to_string()))
    );
}

#[test]
fn unusable_date_format_is_a_configuration_failure() {
    let mut ctx = context(&[]);
    ctx.config.date_format = "%Q".to_string();
    let mut store = Store::new(&ctx, entries(&["a"]), &vec![]).unwrap();
    let expected = StoreError::Config("date_format cannot be written".to_string());
    assert_eq!(store.render_release(&release("1", &["a"])), Err(expected.clone()));
    assert_eq!(
        store.create_release("default".to_string(), release("1", &["a"]), None).err(),
        Some(expected)
    );
    assert!(!store.version_exists("1"));
}

#[test]
fn prepend_puts_fragment_after_header() {
    let document = prepend(
        Some("# Changelog\n\nOld release\n"),
        "# Changelog\n\n",
        "## 1.0\n\nNew\n\n",
    );
    assert_eq!(document, "# Changelog\n\n## 1.0\n\nNew\n\nOld release\n");
}

#[test]
fn document_prepend_edge_cases() {
    assert_eq!(prepend(None, "H\n", "F\n"), "H\nF\n");
    assert_eq!(prepend(Some("no header\n"), "H\n", "F\n"), "H\nF\nno header\n");
    assert_eq!(prepend(Some("H\n"), "H\n", "F\n"), "H\nF\n");
    assert_eq!(prepend(Some(""), "H\n", "F\n"), "H\nF\n");
    assert_eq!(prepend(Some("body"), "", "F\n"), "F\nbody");
}

#[test]
fn changelog_path_of_channels() {
    let mut config = Config::default();
    assert_eq!(path_for("default", &config), "CHANGELOG.md");
    assert_eq!(path_for("beta", &config), "CHANGELOG-BETA.md");
    config.changelog_file_channel = "{channel}/{Channel}-{CHANNEL}.md".to_string();
    assert_eq!(path_for("eAp", &config), "eap/EAp-EAP.md");
    config.default_channel = "eAp".to_string();
    assert_eq!(path_for("eAp", &config), "CHANGELOG.md");
    assert_eq!(path_for("default", &config), "default/Default-DEFAULT.md");
}

#[test]
fn directory_steps() {
    let root = DirRole::Root { init: true };
    let root_no_init = DirRole::Root { init: false };
    assert_eq!(dir_step(root, WritableDirectory, false), Ok(Ready));
    assert_eq!(dir_step(root_no_init, WritableDirectory, false), Ok(Ready));
    assert_eq!(dir_step(root, Missing, false), Ok(Create));
    assert_eq!(dir_step(root, NotADirectory, false), Ok(Create));
    assert_eq!(dir_step(root_no_init, Missing, false), Err(StoreError::NotInitialized));
    assert_eq!(dir_step(root_no_init, NotADirectory, false), Err(StoreError::NotInitialized));
    assert_eq!(dir_step(root, ReadOnlyDirectory, false), Err(StoreError::NotWritable));
    assert_eq!(dir_step(root, Missing, true), Err(StoreError::NotWritable));
    assert_eq!(dir_step(root, WritableDirectory, true), Ok(Ready));
    assert_eq!(dir_step(DirRole::Entries, Missing, false), Ok(Create));
    assert_eq!(
        dir_step(DirRole::Entries, NotADirectory, false),
        Err(StoreError::ClobberedPath(StoreDir::Entries))
    );
    assert_eq!(
        dir_step(DirRole::Channels, NotADirectory, false),
        Err(StoreError::ClobberedPath(StoreDir::Channels))
    );
    assert_eq!(
        dir_step(DirRole::Entries, ReadOnlyDirectory, false),
        Err(StoreError::Config("entries directory is not writable".to_string()))
    );
    assert_eq!(
        dir_step(DirRole::Channels, Missing, true),
        Err(StoreError::Config("channels directory is not writable".to_string()))
    );
    assert_eq!(
        Store::ensure_internal_subdirs_exist(Missing, WritableDirectory),
        Ok((Create, Ready))
    );
    assert_eq!(
        Store::ensure_internal_subdirs_exist(NotADirectory, NotADirectory),
        Err(StoreError::ClobberedPath(StoreDir::Entries))
    );
    assert_eq!(
        Store::ensure_internal_subdirs_exist(WritableDirectory, NotADirectory),
        Err(StoreError::ClobberedPath(StoreDir::Channels))
    );
}

#[test]
fn render_release_at_uses_the_given_date() {
    let ctx = context(&[]);
    let store = Store::new(&ctx, entries(&["a"]), &vec![]).unwrap();
    assert_eq!(
        store.render_release_at(&release("1.0", &["a"]), "1999-12-31"),
        Ok("## [1.0] - 1999-12-31\n\n### Fixes\n\na\n\n".to_string())
    );
    assert_eq!(
        store.render_release_at(&release("1.0", &["b"]), "1999-12-31"),
        Err(StoreError::MissingEntryFile("b".to_string()))
    );
}

#[test]
fn failures_have_messages() {
    let text = |s: &str| s.to_string();
    assert_eq!(StoreError::Config(text("bad value")).message(), "bad value");
    assert_eq!(StoreError::NotInitialized.message(), "Changelog directory does not exist");
    assert_eq!(StoreError::NotWritable.message(), "Changelog directory is not writable");
    assert_eq!(
        StoreError::ClobberedPath(StoreDir::Entries).message(),
        "Changelog subdir path is clobbered, must be a writable directory or not exist: entries"
    );
    assert_eq!(
        StoreError::ClobberedPath(StoreDir::Channels).message(),
        "Changelog subdir path is clobbered, must be a writable directory or not exist: channels"
    );
    assert_eq!(
        StoreError::CorruptLedger(text("beta")).message(),
        "Release list of channel beta cannot be read"
    );
    assert_eq!(
        StoreError::DuplicateVersion(text("1.0"), text("beta")).message(),
        "Version 1.0 already exists on channel beta"
    );
    assert_eq!(
        StoreError::UnknownChannel(text("beta")).message(),
        "Channel beta does not exist."
    );
    assert_eq!(
        StoreError::MissingEntryFile(text("a")).message(),
        "Changelog entry file missing or not readable: a"
    );
    assert_eq!(StoreError::Io(text("disk full")).message(), "disk full");
    assert_eq!(
        StoreError::ReleaseNotRecorded {
            document: text("CHANGELOG.md"),
            version: text("1.0"),
            channel: text("beta"),
            cause: text("disk full"),
        }
        .message(),
        "RELEASE NOT RECORDED! The changelog file CHANGELOG.md already holds version 1.0, \
         but the release list of channel beta could not be written: disk full. \
         Reconcile the two by hand before packing again."
    );
    let failure = StoreError::DuplicateVersion(text("1.0"), text("beta"));
    assert_eq!(failure.clone(), failure);
}

#[test]
fn unreadable_entry_is_listed_but_not_rendered() {
    let ctx = context(&[]);
    let items = vec![item("a.md", true, None), item("b.md", true, Some("text\n"))];
    let (repo, _) = EntryRepository::from_listing(&items);
    let store = Store::new(&ctx, repo, &vec![]).unwrap();
    assert!(store.entry_exists("a"));
    assert_eq!(
        store.find_unreleased_changes(&"default".to_string()),
        Ok(vec!["a".to_string(), "b".to_string()])
    );
    assert_eq!(
        store.render_release_at(&release("1", &["b", "a"]), "D"),
        Err(StoreError::MissingEntryFile("a".to_string()))
    );
}
