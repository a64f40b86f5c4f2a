use clpack::config::Config;
use clpack::entries::EntryRepository;
use clpack::error::StoreError;
use clpack::release::{heading_chars, Release};
use clpack::sections::{gather_sections, order_sections, read_entry, Section};

fn names(sections: &Vec<Section>) -> Vec<(String, String)> {
    sections.iter().map(|s| (s.name.clone(), s.body.clone())).collect()
}

fn pair(name: &str, body: &str) -> (String, String) {
    (name.to_string(), body.to_string())
}

fn config_with_sections(sections: &[&str]) -> Config {
    let mut config = Config::default();
    config.sections = sections.iter().map(|s| s.to_string()).collect();
    config.release_header = "{VERSION}".to_string();
    config
}

#[test]
fn sections_are_written_in_order() {
    let contents = vec![
        "# Improvements\nDid X\n# Fixes\nDid Y\n".to_string(),
        "Misc note\n".to_string(),
    ];
    let sections = gather_sections(&contents);
    assert_eq!(
        names(&sections),
        vec![pair("Improvements", "Did X"), pair("Fixes", "Did Y"), pair("", "Misc note")]
    );
    let canonical = vec!["Fixes".to_string(), "Improvements".to_string()];
    let ordered = order_sections(&sections, &canonical);
    assert_eq!(
        names(&ordered),
        vec![pair("", "Misc note"), pair("Fixes", "Did Y"), pair("Improvements", "Did X")]
    );
}

#[test]
fn sections_are_rendered_in_order() {
    let mut entries = EntryRepository::new();
    entries.create("a".to_string(), "# Improvements\nDid X\n# Fixes\nDid Y\n".to_string());
    entries.create("b".to_string(), "Misc note\n".to_string());
    let release = Release {
        version: "1.0".to_string(),
        entries: vec!["a".to_string(), "b".to_string()],
    };
    let config = config_with_sections(&["Fixes", "Improvements"]);
    let text = release.render(&entries, &config, "2024-05-06").unwrap();
    assert_eq!(
        text,
        "## 1.0\n\nMisc note\n\n### Fixes\n\nDid Y\n\n### Improvements\n\nDid X\n\n"
    );
}

#[test]
fn render_default_header_has_version_and_date() {
    let mut entries = EntryRepository::new();
    entries.create("a".to_string(), "# Fixes\n- one\n".to_string());
    let release = Release { version: "2.1".to_string(), entries: vec!["a".to_string()] };
    let text = release.render(&entries, &Config::default(), "2024-05-06").unwrap();
    assert_eq!(text, "## [2.1] - 2024-05-06\n\n### Fixes\n\n- one\n\n");
}

#[test]
fn render_without_entries_is_header_only() {
    let entries = EntryRepository::new();
    let release = Release { version: "2.1".to_string(), entries: vec![] };
    let text = release.render(&entries, &Config::default(), "D").unwrap();
    assert_eq!(text, "## [2.1] - D\n");
    let dated = Release { version: "1.2.3".to_string(), entries: vec![] };
    assert_eq!(
        dated.render(&entries, &Config::default(), "2026-10-28"),
        Ok("## [1.2.3] - 2026-10-28\n".to_string())
    );
}

#[test]
fn render_of_headings_and_blank_lines_is_header_only() {
    let mut entries = EntryRepository::new();
    entries.create("a".to_string(), "# Fixes\n\n   \n## Internal\n".to_string());
    entries.create("b".to_string(), "".to_string());
    let release = Release {
        version: "2.1".to_string(),
        entries: vec!["a".to_string(), "b".to_string()],
    };
    let text = release.render(&entries, &Config::default(), "D").unwrap();
    assert_eq!(text, "## [2.1] - D\n");
}

#[test]
fn render_is_repeatable() {
    let mut entries = EntryRepository::new();
    entries.create("a".to_string(), "# Fixes\n- one\n\n# Odd\nx\n".to_string());
    let release = Release { version: "2.1".to_string(), entries: vec!["a".to_string()] };
    let config = Config::default();
    let first = release.render(&entries, &config, "2024-05-06").unwrap();
    let second = release.render(&entries, &config, "2024-05-06").unwrap();
    assert_eq!(first, second);
    let later = release.render(&entries, &config, "2025-01-01").unwrap();
    let head_a = String::from_iter(heading_chars(&config.release_header, "2.1", "2024-05-06"));
    let head_b = String::from_iter(heading_chars(&config.release_header, "2.1", "2025-01-01"));
    assert_eq!(head_a, "## [2.1] - 2024-05-06\n");
    assert_eq!(first.strip_prefix(&head_a), later.strip_prefix(&head_b));
    assert!(first.strip_prefix(&head_a).is_some());
}

#[test]
fn render_missing_entry_fails() {
    let mut entries = EntryRepository::new();
    entries.create("a".to_string(), "text\n".to_string());
    let release = Release {
        version: "1".to_string(),
        entries: vec!["a".to_string(), "gone".to_string(), "gone2".to_string()],
    };
    assert_eq!(
        release.render(&entries, &Config::default(), "D"),
        Err(StoreError::MissingEntryFile("gone".to_string()))
    );
}

#[test]
fn lines_are_grouped_across_entries() {
    let contents = vec![
        "# Fixes\nfirst\n".to_string(),
        "intro\n## Fixes ##\n  second  \n\n \t\n#New\nthird".to_string(),
    ];
    let sections = gather_sections(&contents);
    assert_eq!(
        names(&sections),
        vec![pair("Fixes", "first\n  second  "), pair("", "intro"), pair("New", "third")]
    );
}

#[test]
fn heading_may_be_indented_and_crlf_is_a_line_end() {
    let mut sections: Vec<Section> = Vec::new();
    read_entry(&mut sections, "  # Fixes\r\nbody\r\nlast\r");
    assert_eq!(names(&sections), vec![pair("Fixes", "body\nlast\r")]);
}

#[test]
fn each_entry_starts_unlabelled() {
    let contents = vec!["# Fixes\na\n".to_string(), "b\n".to_string()];
    let sections = gather_sections(&contents);
    assert_eq!(names(&sections), vec![pair("Fixes", "a"), pair("", "b")]);
}

#[test]
fn canonical_order_skips_absent_and_repeated_names() {
    let sections = gather_sections(&vec!["# B\nb\n# A\na\n# Z\nz\n# Y\ny\n".to_string()]);
    let canonical = vec![
        "A".to_string(),
        "Missing".to_string(),
        "B".to_string(),
        "A".to_string(),
        "".to_string(),
    ];
    let ordered = order_sections(&sections, &canonical);
    assert_eq!(
        names(&ordered),
        vec![pair("A", "a"), pair("B", "b"), pair("Z", "z"), pair("Y", "y")]
    );
}

#[test]
fn body_loses_trailing_whitespace_only() {
    let mut entries = EntryRepository::new();
    entries.create("a".to_string(), "  keep indent  \n".to_string());
    let release = Release { version: "v".to_string(), entries: vec!["a".to_string()] };
    let config = config_with_sections(&[]);
    assert_eq!(
        release.render(&entries, &config, "D").unwrap(),
        "## v\n\n  keep indent\n\n"
    );
}

#[test]
fn header_placeholders_are_replaced_everywhere() {
    let heading = String::from_iter(heading_chars("{VERSION}/{DATE}/{VERSION}{DATE}", "1", "2"));
    assert_eq!(heading, "## 1/2/12\n");
    let nested = String::from_iter(heading_chars("{VERSION}", "{DATE}", "d"));
    assert_eq!(nested, "## d\n");
}
