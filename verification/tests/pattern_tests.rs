use keiro::pattern::Pattern;
use keiro::text::{join_tail, split_path, str_eq};
use keiro::ConfigurationError;

#[test]
fn parse_rejects_empty_pattern() {
    assert_eq!(Pattern::parse("").unwrap_err(), ConfigurationError::EmptyPattern);
}

#[test]
fn parse_rejects_empty_param_name() {
    assert_eq!(Pattern::parse("/a/:").unwrap_err(), ConfigurationError::EmptyParamName);
    assert_eq!(Pattern::parse(":").unwrap_err(), ConfigurationError::EmptyParamName);
}

#[test]
fn parse_rejects_non_terminal_wildcard() {
    assert_eq!(
        Pattern::parse("/a/*w/b").unwrap_err(),
        ConfigurationError::NonTerminalWildcard
    );
    assert_eq!(Pattern::parse("/*/x").unwrap_err(), ConfigurationError::NonTerminalWildcard);
}

#[test]
fn parse_rejects_duplicate_param_name() {
    assert_eq!(
        Pattern::parse("/a/:x/:x").unwrap_err(),
        ConfigurationError::DuplicateParamName
    );
    assert_eq!(
        Pattern::parse("/:name/*name").unwrap_err(),
        ConfigurationError::DuplicateParamName
    );
}

#[test]
fn parse_accepts_root_and_plain_patterns() {
    assert!(Pattern::parse("/").is_ok());
    assert!(Pattern::parse("/hello/:user").is_ok());
    assert!(Pattern::parse("/hi/*path").is_ok());
    assert!(Pattern::parse("/files/*").is_ok());
    // Markers only count at the start of a segment.
    assert!(Pattern::parse("/a:b/c*d").is_ok());
}

#[test]
fn split_path_drops_empty_segments() {
    assert_eq!(split_path("//a//b/"), vec!["a".to_string(), "b".to_string()]);
    assert_eq!(split_path("/"), Vec::<String>::new());
    assert_eq!(split_path(""), Vec::<String>::new());
    assert_eq!(split_path("x/y"), vec!["x".to_string(), "y".to_string()]);
}

#[test]
fn join_tail_restores_delimiters() {
    let segs = vec!["a".to_string(), "b".to_string(), "c".to_string()];
    assert_eq!(join_tail(&segs, 0), "a/b/c");
    assert_eq!(join_tail(&segs, 1), "b/c");
    assert_eq!(join_tail(&segs, 2), "c");
    assert_eq!(join_tail(&segs, 3), "");
}

#[test]
fn str_eq_compares_contents() {
    assert!(str_eq("alpha", "alpha"));
    assert!(!str_eq("alpha", "alphb"));
    assert!(!str_eq("alpha", "alph"));
    assert!(str_eq("", ""));
}
