use trash::config::Alias;
use trash::statement::{
    cd_exit_status, resolve_statement, split_statements, tokenize, Action,
};

fn alias_table() -> Vec<Alias> {
    vec![Alias {
        key: "ll".to_string(),
        replacement: "ls\0-la\0".to_string(),
    }]
}

#[test]
fn splits_on_semicolons_in_order() {
    assert_eq!(
        split_statements("cd /tmp; ls"),
        vec!["cd /tmp".to_string(), "ls".to_string()]
    );
}

#[test]
fn split_drops_empty_pieces() {
    assert_eq!(split_statements(" ; ; a ;"), vec!["a".to_string()]);
    assert!(split_statements("").is_empty());
    assert!(split_statements("  ;  ").is_empty());
}

#[test]
fn tokenize_splits_on_whitespace_runs() {
    assert_eq!(
        tokenize("ls  -la\t-h"),
        vec!["ls".to_string(), "-la".to_string(), "-h".to_string()]
    );
    assert!(tokenize("   ").is_empty());
}

#[test]
fn cd_without_argument_goes_home() {
    let a = resolve_statement("cd", &alias_table(), "/home/me");
    assert_eq!(a, Action::ChangeDir("/home/me".to_string()));
}

#[test]
fn cd_with_one_argument_goes_there() {
    let a = resolve_statement("cd /tmp", &alias_table(), "/home/me");
    assert_eq!(a, Action::ChangeDir("/tmp".to_string()));
}

#[test]
fn cd_with_two_arguments_is_usage_error() {
    let a = resolve_statement("cd a b", &alias_table(), "/home/me");
    assert_eq!(a, Action::UsageError);
}

#[test]
fn alias_expands_one_level() {
    let a = resolve_statement("ll", &alias_table(), "/home/me");
    assert_eq!(
        a,
        Action::Exec(vec!["ls".to_string(), "-la".to_string()])
    );
}

#[test]
fn alias_keeps_statement_arguments_in_order() {
    let a = resolve_statement("ll /etc", &alias_table(), "/home/me");
    assert_eq!(
        a,
        Action::Exec(vec!["ls".to_string(), "-la".to_string(), "/etc".to_string()])
    );
}

#[test]
fn escaped_statement_is_not_expanded() {
    let a = resolve_statement("\\ll", &alias_table(), "/home/me");
    assert_eq!(a, Action::Exec(vec!["ll".to_string()]));
}

#[test]
fn unaliased_command_passes_through() {
    let a = resolve_statement("ls -la", &alias_table(), "/home/me");
    assert_eq!(
        a,
        Action::Exec(vec!["ls".to_string(), "-la".to_string()])
    );
}

#[test]
fn builtin_wins_over_alias() {
    let aliases = vec![Alias {
        key: "cd".to_string(),
        replacement: "echo\0nope\0".to_string(),
    }];
    let a = resolve_statement("cd", &aliases, "/home/me");
    assert_eq!(a, Action::ChangeDir("/home/me".to_string()));
}

#[test]
fn lone_backslash_is_empty_statement() {
    let a = resolve_statement("\\", &alias_table(), "/home/me");
    assert_eq!(a, Action::Empty);
}

#[test]
fn later_alias_entry_shadows_earlier() {
    let aliases = vec![
        Alias {
            key: "ll".to_string(),
            replacement: "a\0".to_string(),
        },
        Alias {
            key: "ll".to_string(),
            replacement: "b\0".to_string(),
        },
    ];
    let a = resolve_statement("ll", &aliases, "/home/me");
    assert_eq!(a, Action::Exec(vec!["b".to_string()]));
}

#[test]
fn alias_replacement_skips_empty_subtokens() {
    let aliases = vec![Alias {
        key: "x".to_string(),
        replacement: "a\0\0b\0".to_string(),
    }];
    let a = resolve_statement("x", &aliases, "/home/me");
    assert_eq!(a, Action::Exec(vec!["a".to_string(), "b".to_string()]));
}

#[test]
fn cd_status_keeps_previous_on_success() {
    assert_eq!(cd_exit_status(5, true), 5);
    assert_eq!(cd_exit_status(0, false), 1);
}
