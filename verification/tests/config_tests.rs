use trash::config::{load_settings, parse_text, Alias, Error, ParseIssue, Section};

fn keys(settings: &trash::config::Settings) -> Vec<(String, String)> {
    settings
        .aliases
        .iter()
        .map(|a| (a.key.clone(), a.replacement.clone()))
        .collect()
}

#[test]
fn parses_three_sections() {
    let text = "PATH { /usr/bin /bin }\nEXPORTS { FOO=bar }\nALIASES { ll=ls -la }";
    let settings = parse_text(text).unwrap();
    assert_eq!(settings.path, vec!["/usr/bin".to_string(), "/bin".to_string()]);
    assert_eq!(settings.exports, vec!["FOO=bar".to_string()]);
    assert_eq!(
        keys(&settings),
        vec![("ll".to_string(), "ls\0-la\0".to_string())]
    );
}

#[test]
fn second_path_section_fails() {
    let text = "PATH { /bin }\nPATH { /sbin }";
    let err = parse_text(text).unwrap_err();
    assert_eq!(err, Error::Parse(ParseIssue::AlreadySet(Section::Path), 2));
}

#[test]
fn second_exports_section_fails() {
    let text = "EXPORTS { A=b }\nEXPORTS { C=d }";
    let err = parse_text(text).unwrap_err();
    assert_eq!(err, Error::Parse(ParseIssue::AlreadySet(Section::Exports), 2));
}

#[test]
fn second_aliases_section_fails() {
    let text = "ALIASES { a=b }\nALIASES { c=d }";
    let err = parse_text(text).unwrap_err();
    assert_eq!(err, Error::Parse(ParseIssue::AlreadySet(Section::Aliases), 2));
}

#[test]
fn section_identifier_without_brace_fails() {
    let err = parse_text("PATH /bin").unwrap_err();
    assert_eq!(err, Error::Parse(ParseIssue::MissingOpen(Section::Path), 1));
    let err = parse_text("EXPORTS x").unwrap_err();
    assert_eq!(err, Error::Parse(ParseIssue::MissingOpen(Section::Exports), 1));
}

#[test]
fn brace_may_arrive_on_next_line() {
    let settings = parse_text("PATH\n{ /bin }").unwrap();
    assert_eq!(settings.path, vec!["/bin".to_string()]);
}

#[test]
fn stray_close_fails() {
    let err = parse_text("}").unwrap_err();
    assert_eq!(err, Error::Parse(ParseIssue::StrayClose, 1));
}

#[test]
fn stray_open_fails() {
    let err = parse_text("{").unwrap_err();
    assert_eq!(err, Error::Parse(ParseIssue::StrayOpen, 1));
}

#[test]
fn alias_value_spaces_become_nul() {
    let text = "ALIASES {\nkey=value with spaces\n}";
    let settings = parse_text(text).unwrap();
    assert_eq!(
        keys(&settings),
        vec![("key".to_string(), "value\0with\0spaces\0".to_string())]
    );
}

#[test]
fn section_open_at_eof_fails() {
    let err = parse_text("PATH {\n/bin").unwrap_err();
    assert_eq!(err, Error::Parse(ParseIssue::UnclosedAtEof(Section::Path), 2));
}

#[test]
fn token_outside_section_fails() {
    let err = parse_text("hello").unwrap_err();
    assert_eq!(
        err,
        Error::Parse(ParseIssue::UnexpectedToken("hello".to_string()), 1)
    );
}

#[test]
fn alias_line_without_equals_fails() {
    let err = parse_text("ALIASES {\nnoequals\n}").unwrap_err();
    assert_eq!(
        err,
        Error::Parse(ParseIssue::BadAliasLine("noequals".to_string()), 2)
    );
}

#[test]
fn nul_in_export_fails() {
    let err = parse_text("EXPORTS {\nA=\0b\n}").unwrap_err();
    assert_eq!(err, Error::Nul(2));
}

#[test]
fn nul_in_alias_key_fails() {
    let err = parse_text("ALIASES {\nk\0ey=v\n}").unwrap_err();
    assert_eq!(err, Error::Nul(2));
}

#[test]
fn comment_discards_rest_of_line() {
    let settings = parse_text("# a comment\nPATH { /bin }").unwrap();
    assert_eq!(settings.path, vec!["/bin".to_string()]);
}

#[test]
fn comment_hides_closing_brace() {
    let err = parse_text("PATH { /bin # /sbin }").unwrap_err();
    assert_eq!(err, Error::Parse(ParseIssue::UnclosedAtEof(Section::Path), 1));
}

#[test]
fn crlf_lines_parse() {
    let settings = parse_text("PATH { /bin }\r\nEXPORTS { A=b }").unwrap();
    assert_eq!(settings.path, vec!["/bin".to_string()]);
    assert_eq!(settings.exports, vec!["A=b".to_string()]);
}

#[test]
fn empty_text_parses_empty() {
    let settings = parse_text("").unwrap();
    assert!(settings.path.is_empty());
    assert!(settings.exports.is_empty());
    assert!(settings.aliases.is_empty());
}

#[test]
fn missing_file_is_not_an_error() {
    let settings = load_settings(None, Some("/usr/bin:/bin")).unwrap();
    assert_eq!(settings.path, vec!["/usr/bin".to_string(), "/bin".to_string()]);
    assert!(settings.exports.is_empty());
    assert!(settings.aliases.is_empty());
}

#[test]
fn configured_path_keeps_priority_over_inherited() {
    let settings = load_settings(Some("PATH { /opt }"), Some("/bin:/sbin")).unwrap();
    assert_eq!(
        settings.path,
        vec!["/opt".to_string(), "/bin".to_string(), "/sbin".to_string()]
    );
}

#[test]
fn no_inherited_path_appends_nothing() {
    let settings = load_settings(Some("PATH { /opt }"), None).unwrap();
    assert_eq!(settings.path, vec!["/opt".to_string()]);
}

#[test]
fn empty_inherited_path_is_one_empty_segment() {
    let settings = load_settings(None, Some("")).unwrap();
    assert_eq!(settings.path, vec!["".to_string()]);
}

#[test]
fn parse_error_aborts_loading() {
    let err = load_settings(Some("PATH { /bin }\n}"), Some("/bin")).unwrap_err();
    assert_eq!(err, Error::Parse(ParseIssue::StrayClose, 2));
}

#[test]
fn duplicate_alias_keys_keep_both_entries() {
    let settings = parse_text("ALIASES {\nll=a\nll=b\n}").unwrap();
    assert_eq!(
        keys(&settings),
        vec![
            ("ll".to_string(), "a\0".to_string()),
            ("ll".to_string(), "b\0".to_string())
        ]
    );
}

#[test]
fn identifier_inside_open_section_fails() {
    let err = parse_text("PATH { EXPORTS").unwrap_err();
    assert_eq!(
        err,
        Error::Parse(ParseIssue::StillOpen(Section::Path, Section::Exports), 1)
    );
}

#[test]
fn aliases_identifier_inside_open_section_fails() {
    let err = parse_text("EXPORTS { ALIASES").unwrap_err();
    assert_eq!(
        err,
        Error::Parse(ParseIssue::StillOpen(Section::Exports, Section::Aliases), 1)
    );
}

#[test]
fn alias_line_discards_rest_after_close() {
    let settings = parse_text("ALIASES { x=a } PATH { /bin }").unwrap();
    assert_eq!(keys(&settings), vec![("x".to_string(), "a\0".to_string())]);
    assert!(settings.path.is_empty());
}

#[test]
fn hash_has_no_special_meaning_inside_alias_value() {
    let settings = parse_text("ALIASES {\nk=a # b\n}").unwrap();
    assert_eq!(keys(&settings), vec![("k".to_string(), "a\0#\0b\0".to_string())]);
}

#[test]
fn alias_table_roundtrip_type() {
    let a = Alias {
        key: "x".to_string(),
        replacement: "y\0".to_string(),
    };
    assert_eq!(a.key, "x");
    assert_eq!(a.replacement, "y\0");
}
