use clpack::context::AppContext;
use clpack::error::StoreError;
use clpack::git::{as_regex_pattern, decimal_chars, extract, parse_head, BranchName, BranchOpt, Compiled};
use std::path::PathBuf;

fn context() -> AppContext {
    AppContext {
        binary_name: "cl".to_string(),
        config: Default::default(),
        root: PathBuf::from("/tmp/"), // will not be used
    }
}

#[test]
fn test_as_regex_pattern() {
    assert_eq!(as_regex_pattern("foo"), None);
    assert_eq!(as_regex_pattern("/foo"), None);
    assert_eq!(as_regex_pattern("foo/"), None);
    assert_eq!(as_regex_pattern("/foo/"), Some("foo"));
}

#[test]
fn test_parse_version() {
    let ctx = context();

    assert_eq!(
        BranchName("rel/3.14".to_string())
            .parse_version(&ctx)
            .unwrap(),
        Some("3.14".to_string())
    );

    assert_eq!(
        BranchName("rel/foo".to_string())
            .parse_version(&ctx)
            .unwrap(),
        None
    );
}

#[test]
fn test_parse_issue() {
    let ctx = context();

    assert_eq!(
        BranchName("1234-bober-kurwa".to_string())
            .parse_issue(&ctx)
            .unwrap(),
        Some("1234".to_string())
    );

    assert_eq!(
        BranchName("SW-778-jakie-bydłe-jebane".to_string())
            .parse_issue(&ctx)
            .unwrap(),
        Some("SW-778".to_string())
    );

    assert_eq!(
        BranchName("nie-spierdalaj-mordo".to_string())
            .parse_issue(&ctx)
            .unwrap(),
        None
    );
}

#[test]
fn test_parse_channel() {
    let ctx = context();

    assert_eq!(
        BranchName("main".to_string()).parse_channel(&ctx).unwrap(),
        Some("default".to_string())
    );

    assert_eq!(
        BranchName("master".to_string())
            .parse_channel(&ctx)
            .unwrap(),
        Some("default".to_string())
    );

    assert_eq!(
        BranchName("my-cool-feature".to_string())
            .parse_version(&ctx)
            .unwrap(),
        None
    );
}

#[test]
fn as_regex_pattern_edge_cases() {
    assert_eq!(as_regex_pattern(""), None);
    assert_eq!(as_regex_pattern("/"), None);
    assert_eq!(as_regex_pattern("//"), Some(""));
    assert_eq!(as_regex_pattern("/é/"), Some("é"));
}

#[test]
fn parse_channel_without_match_is_none() {
    let ctx = context();
    assert_eq!(
        BranchName("my-cool-feature".to_string()).parse_channel(&ctx).unwrap(),
        None
    );
}

#[test]
fn parse_channel_walks_channels_in_order() {
    let mut ctx = context();
    ctx.config.channels.insert("manual".to_string(), "".to_string());
    ctx.config.channels.insert("beta".to_string(), "/^beta\\/.*/".to_string());
    ctx.config.channels.insert("test".to_string(), "testing".to_string());
    ctx.config.channels.insert("late".to_string(), "/^beta/".to_string());
    assert_eq!(
        BranchName("beta/1.0".to_string()).parse_channel(&ctx).unwrap(),
        Some("beta".to_string())
    );
    assert_eq!(
        BranchName("testing".to_string()).parse_channel(&ctx).unwrap(),
        Some("test".to_string())
    );
    assert_eq!(BranchName("".to_string()).parse_channel(&ctx).unwrap(), None);
}

#[test]
fn parse_channel_reports_invalid_regex() {
    let mut ctx = context();
    ctx.config.channels.insert("broken".to_string(), "/foo(bar/".to_string());
    match BranchName("feature".to_string()).parse_channel(&ctx) {
        Err(StoreError::Config(message)) => {
            assert!(message.starts_with("Invalid regex for channel \"broken\": /foo(bar/\nError: "));
        }
        other => panic!("unexpected {:?}", other),
    }
    // A channel before the broken one still wins.
    assert_eq!(
        BranchName("main".to_string()).parse_channel(&ctx).unwrap(),
        Some("default".to_string())
    );
}

#[test]
fn parse_using_regex_rejects_plain_template() {
    let outcome = BranchName("x".to_string()).parse_using_regex("plain", "some_field");
    assert_eq!(
        outcome,
        Err(StoreError::Config(
            "Config field \"some_field\" must contain a regex (encased in slashes). Found: plain"
                .to_string()
        ))
    );
}

#[test]
fn parse_using_regex_rejects_invalid_regex() {
    match BranchName("x".to_string()).parse_using_regex("/foo(bar/", "some_field") {
        Err(StoreError::Config(message)) => {
            assert!(message.starts_with("Invalid regex in \"some_field\": foo(bar\nError: "));
            assert!(message.len() > "Invalid regex in \"some_field\": foo(bar\nError: ".len());
        }
        other => panic!("unexpected {:?}", other),
    }
}

#[test]
fn parse_using_regex_wants_one_group() {
    assert_eq!(
        BranchName("x".to_string()).parse_using_regex("/foo/", "f"),
        Err(StoreError::Config(
            "The pattern \"f\" is not applicable: foo\nThere must be exactly one capturing group. Found 0"
                .to_string()
        ))
    );
    assert_eq!(
        BranchName("x".to_string()).parse_using_regex("/(a)(b)/", "f"),
        Err(StoreError::Config(
            "The pattern \"f\" is not applicable: (a)(b)\nThere must be exactly one capturing group. Found 2"
                .to_string()
        ))
    );
}

#[test]
fn parse_using_regex_group_that_took_no_part() {
    assert_eq!(
        BranchName("b".to_string()).parse_using_regex("/(a)|b/", "f"),
        Ok(None)
    );
    assert_eq!(
        BranchName("a".to_string()).parse_using_regex("/(a)|b/", "f"),
        Ok(Some("a".to_string()))
    );
}

#[test]
fn parse_without_pattern_is_none() {
    let mut ctx = context();
    ctx.config.branch_version_pattern = None;
    ctx.config.branch_issue_pattern = None;
    assert_eq!(BranchName("rel/3.14".to_string()).parse_version(&ctx), Ok(None));
    assert_eq!(BranchName("1234-x".to_string()).parse_issue(&ctx), Ok(None));
}

#[test]
fn extract_follows_the_engine() {
    assert_eq!(
        extract("f", "/(a)/", Compiled::Groups(1), Some("a".to_string())),
        Ok(Some("a".to_string()))
    );
    assert_eq!(extract("f", "/(a)/", Compiled::Groups(1), None), Ok(None));
    assert_eq!(
        extract("f", "/a/", Compiled::Invalid("boom".to_string()), None),
        Err(StoreError::Config("Invalid regex in \"f\": a\nError: boom".to_string()))
    );
    assert_eq!(
        extract("f", "/a/", Compiled::Groups(12), None),
        Err(StoreError::Config(
            "The pattern \"f\" is not applicable: a\nThere must be exactly one capturing group. Found 12"
                .to_string()
        ))
    );
}

#[test]
fn decimal_chars_writes_digits() {
    assert_eq!(decimal_chars(0), vec!['0']);
    assert_eq!(decimal_chars(7), vec!['7']);
    assert_eq!(decimal_chars(10), vec!['1', '0']);
    assert_eq!(decimal_chars(9045), vec!['9', '0', '4', '5']);
}

#[test]
fn parse_head_reads_branch() {
    assert_eq!(parse_head("ref: refs/heads/main\n").map(|b| b.0), Some("main".to_string()));
    assert_eq!(
        parse_head("ref: refs/heads/rel/3.14  \r\n").map(|b| b.0),
        Some("rel/3.14".to_string())
    );
    assert!(parse_head("ref: refs/heads/\n").is_none());
    assert!(parse_head("ref: refs/heads/").is_none());
    assert!(parse_head("0123456789abcdef\n").is_none());
    assert!(parse_head("").is_none());
}

#[test]
fn branch_opt_defaults_to_empty() {
    let none: Option<BranchName> = None;
    assert_eq!(none.as_str_or_default(), "");
    assert_eq!(Some(BranchName("dev".to_string())).as_str_or_default(), "dev");
}
