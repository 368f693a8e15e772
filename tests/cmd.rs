use minishell::command::Cmd;

#[test]
fn read_line() {
    let mut line_stack = vec![];
    let fake_cmd = b"ls -ls";
    let line = Cmd::read_line(std::str::from_utf8(&fake_cmd[..]).unwrap(), &mut line_stack);
    assert_eq!("ls -ls", line);
    assert_eq!(line_stack, Vec::new() as Vec<String>);
}

#[test]
fn read_semi_separated() {
    let mut line_stack = vec![];
    let fake_cmd = b"echo 1; echo 2";
    Cmd::read_line(std::str::from_utf8(&fake_cmd[..]).unwrap(), &mut line_stack);
    assert_eq!(line_stack, vec!("echo 2"));
}

#[test]
fn split_and() {
    let fake_cmd = "echo 1 && echo 2";
    let lines = Cmd::split_and(fake_cmd);
    assert_eq!(lines, vec!("echo 1", "echo 2"));
}

#[test]
fn split_or() {
    let fake_cmd = "echo 1 || echo 2";
    let lines = Cmd::split_or(fake_cmd);
    assert_eq!(lines, vec!("echo 1", "echo 2"));
}
