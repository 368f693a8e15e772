use minishell::command::Cmd;

#[test]
fn semi_separated_round_trip() {
    let mut stack: Vec<String> = vec![];
    assert!(Cmd::needs_read(&stack));
    let first = Cmd::read_line("echo 1; echo 2", &mut stack);
    assert_eq!(first, "echo 1");
    assert_eq!(stack, vec!["echo 2"]);
    assert!(!Cmd::needs_read(&stack));
    let second = Cmd::read_line("not read", &mut stack);
    assert_eq!(second, "echo 2");
    assert!(stack.is_empty());
    assert!(Cmd::needs_read(&stack));
}

#[test]
fn first_piece_untrimmed_rest_trimmed() {
    let mut stack: Vec<String> = vec![];
    let first = Cmd::read_line("  a ;  b  ;c\n", &mut stack);
    assert_eq!(first, "  a ");
    assert_eq!(stack, vec!["b", "c"]);
}

#[test]
fn line_without_separator_is_verbatim() {
    let mut stack: Vec<String> = vec![];
    let line = Cmd::read_line("  ls -ls\n", &mut stack);
    assert_eq!(line, "  ls -ls\n");
    assert!(stack.is_empty());
}

#[test]
fn failed_read_gives_empty_line() {
    let mut stack: Vec<String> = vec![];
    let line = Cmd::read_line("", &mut stack);
    assert_eq!(line, "");
    assert!(stack.is_empty());
}

#[test]
fn trailing_separator_leaves_empty_pending_line() {
    let mut stack: Vec<String> = vec![];
    let line = Cmd::read_line("echo 1;\n", &mut stack);
    assert_eq!(line, "echo 1");
    assert_eq!(stack, vec![""]);
}

#[test]
fn pending_lines_come_in_order() {
    let mut stack: Vec<String> = vec!["x".to_string(), "y".to_string()];
    assert_eq!(Cmd::read_line("z; w", &mut stack), "x");
    assert_eq!(stack, vec!["y"]);
    assert_eq!(Cmd::read_line("z; w", &mut stack), "y");
    assert!(stack.is_empty());
    assert_eq!(Cmd::read_line("z; w", &mut stack), "z");
    assert_eq!(stack, vec!["w"]);
}
