use minishell::eval::Evaluation;

/// Runs the evaluation, answering each command by `outcome`, and gives the
/// binaries in the order they ran and the line's result.
fn drive(line: &str, outcome: impl Fn(&str) -> bool) -> (Vec<String>, bool) {
    let mut e = Evaluation::new(line);
    let mut ran = Vec::new();
    while let Some(c) = e.next_command() {
        let name = c.binary.clone();
        let ok = outcome(&name);
        ran.push(name);
        e.record(ok);
    }
    (ran, e.succeeded())
}

fn sh(name: &str) -> bool {
    name == "true" || name == "echo"
}

#[test]
fn and_skips_after_failure() {
    let (ran, ok) = drive("false && echo should-not-print", sh);
    assert_eq!(ran, vec!["false"]);
    assert!(!ok);
}

#[test]
fn or_runs_after_failure_once() {
    let (ran, ok) = drive("false || echo should-print", sh);
    assert_eq!(ran, vec!["false", "echo"]);
    assert!(ok);
}

#[test]
fn or_skips_after_success() {
    let (ran, ok) = drive("true || echo x", sh);
    assert_eq!(ran, vec!["true"]);
    assert!(ok);
}

#[test]
fn and_runs_after_success() {
    let (ran, ok) = drive("true && false", sh);
    assert_eq!(ran, vec!["true", "false"]);
    assert!(!ok);
}

#[test]
fn or_binds_tighter_than_and() {
    let (ran, ok) = drive("false && true || echo x", sh);
    assert_eq!(ran, vec!["false"]);
    assert!(!ok);
    let (ran, ok) = drive("true && false || echo x", sh);
    assert_eq!(ran, vec!["true", "false", "echo"]);
    assert!(ok);
}

#[test]
fn failed_spawn_is_a_failure() {
    let (ran, ok) = drive("nonexistent-binary-xyz", sh);
    assert_eq!(ran, vec!["nonexistent-binary-xyz"]);
    assert!(!ok);
}

#[test]
fn empty_line_fails() {
    let e = Evaluation::new("");
    assert_eq!(e.groups.len(), 1);
    assert_eq!(e.groups[0].len(), 1);
    assert_eq!(e.groups[0][0].binary, "");
    assert!(e.groups[0][0].arguments.is_empty());
    let (ran, ok) = drive("", sh);
    assert_eq!(ran, vec![""]);
    assert!(!ok);
}

#[test]
fn groups_follow_operators() {
    let e = Evaluation::new("a x && b || c y z");
    assert_eq!(e.groups.len(), 2);
    assert_eq!(e.groups[0].len(), 1);
    assert_eq!(e.groups[1].len(), 2);
    assert_eq!(e.groups[1][1].binary, "c");
    assert_eq!(e.groups[1][1].arguments, vec!["y", "z"]);
}
