use minishell::command::Cmd;

#[test]
fn command_binary_and_arguments() {
    let c = Cmd::new("ls -l -a");
    assert_eq!(c.binary, "ls");
    assert_eq!(c.arguments, vec!["-l", "-a"]);
}

#[test]
fn command_arguments_lose_newlines() {
    let c = Cmd::new("echo a\nb c\n");
    assert_eq!(c.binary, "echo");
    assert_eq!(c.arguments, vec!["ab", "c"]);
}

#[test]
fn command_double_space_gives_empty_argument() {
    let c = Cmd::new("echo  x");
    assert_eq!(c.binary, "echo");
    assert_eq!(c.arguments, vec!["", "x"]);
}

#[test]
fn empty_command() {
    let c = Cmd::new("");
    assert_eq!(c.binary, "");
    assert!(c.arguments.is_empty());
}

#[test]
fn split_trims_white_space() {
    let parts = Cmd::split_and("\t a &&b\u{3000}&& \n");
    assert_eq!(parts, vec!["a", "b", ""]);
}

#[test]
fn split_without_operator() {
    assert_eq!(Cmd::split_or(" solo "), vec!["solo"]);
    assert_eq!(Cmd::split_and(""), vec![""]);
}

#[test]
fn split_is_plain_substring() {
    assert_eq!(Cmd::split_or("a|||b"), vec!["a", "|b"]);
    assert_eq!(Cmd::split_and("x&&&&y"), vec!["x", "", "y"]);
    assert_eq!(Cmd::split_or("a | b"), vec!["a | b"]);
}

#[test]
fn and_split_before_or_split() {
    assert_eq!(Cmd::split_and("A && B || C"), vec!["A", "B || C"]);
    assert_eq!(Cmd::split_or("B || C"), vec!["B", "C"]);
}
