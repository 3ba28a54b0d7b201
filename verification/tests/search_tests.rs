use trash::config::Alias;
use trash::prompt::render_cwd;
use trash::search::{
    candidate_path, classify_attempts, spawn_argv, verdict_status, SearchVerdict, SpawnOutcome,
};
use trash::statement::{resolve_statement, Action};

#[test]
fn candidate_joins_with_separator() {
    assert_eq!(candidate_path("/bin", "ls"), "/bin/ls");
}

#[test]
fn candidate_keeps_existing_separator() {
    assert_eq!(candidate_path("/bin/", "ls"), "/bin/ls");
}

#[test]
fn candidate_with_empty_directory_is_bare_name() {
    assert_eq!(candidate_path("", "ls"), "ls");
}

#[test]
fn absolute_name_ignores_directory() {
    assert_eq!(candidate_path("/bin", "/usr/bin/env"), "/usr/bin/env");
}

#[test]
fn spawn_argv_puts_candidate_first() {
    let argv = vec!["ls".to_string(), "-la".to_string()];
    assert_eq!(
        spawn_argv("/bin/ls", &argv),
        vec!["/bin/ls".to_string(), "-la".to_string()]
    );
}

#[test]
fn first_success_wins_and_decodes_status() {
    let outcomes = vec![
        SpawnOutcome::Failed,
        SpawnOutcome::Ran(7 << 8),
        SpawnOutcome::Ran(9 << 8),
    ];
    let v = classify_attempts(&outcomes);
    assert_eq!(v, SearchVerdict::Found { index: 1, status: 7 });
    assert_eq!(verdict_status(&v), 7);
}

#[test]
fn permission_failure_dominates_miss() {
    let outcomes = vec![
        SpawnOutcome::Failed,
        SpawnOutcome::NoAccess,
        SpawnOutcome::Failed,
    ];
    let v = classify_attempts(&outcomes);
    assert_eq!(v, SearchVerdict::NoAccess);
    assert_eq!(verdict_status(&v), 126);
}

#[test]
fn nothing_found_is_127() {
    let v = classify_attempts(&vec![SpawnOutcome::Failed]);
    assert_eq!(v, SearchVerdict::NotFound);
    assert_eq!(verdict_status(&v), 127);
}

#[test]
fn empty_path_list_is_127() {
    let v = classify_attempts(&Vec::new());
    assert_eq!(v, SearchVerdict::NotFound);
    assert_eq!(verdict_status(&v), 127);
}

#[test]
fn end_to_end_spawn_decision() {
    let aliases: Vec<Alias> = Vec::new();
    let action = resolve_statement("ls -la", &aliases, "/home/me");
    let argv = match action {
        Action::Exec(argv) => argv,
        other => panic!("expected an external command, got {:?}", other),
    };
    assert_eq!(argv, vec!["ls".to_string(), "-la".to_string()]);
    let candidate = candidate_path("/bin", &argv[0]);
    assert_eq!(candidate, "/bin/ls");
    assert_eq!(
        spawn_argv(&candidate, &argv),
        vec!["/bin/ls".to_string(), "-la".to_string()]
    );
    let ran = classify_attempts(&vec![SpawnOutcome::Ran(3 << 8)]);
    assert_eq!(verdict_status(&ran), 3);
    let absent = classify_attempts(&vec![SpawnOutcome::Failed]);
    assert_eq!(verdict_status(&absent), 127);
}

#[test]
fn cwd_home_prefix_renders_as_tilde() {
    assert_eq!(render_cwd("/home/me/src", "/home/me"), "~/src");
}

#[test]
fn cwd_outside_home_is_unchanged() {
    assert_eq!(render_cwd("/etc", "/home/me"), "/etc");
}

#[test]
fn cwd_equal_to_home_is_tilde() {
    assert_eq!(render_cwd("/home/me", "/home/me"), "~");
}

#[test]
fn empty_home_prefixes_everything() {
    assert_eq!(render_cwd("/a", ""), "~/a");
}
