use rshell::builtins::{
    builtin_cd, builtin_echo, builtin_exit, builtin_of, builtin_type, echo_line, parse_exit_code,
    Builtin, CdOutcome, ExitOutcome, TypeReport,
};
use rshell::exec::{ExecError, Redirect};
use rshell::parser::{parse, Command, Stream};
use rshell::tokenizer::{tokenize, Redirection};

fn strings(v: &[&str]) -> Vec<String> {
    v.iter().map(|s| s.to_string()).collect()
}

fn command(line: &str) -> Command {
    parse(tokenize(line.to_string()).unwrap()).unwrap()
}

#[test]
fn exit_with_unparseable_code_stays() {
    assert_eq!(builtin_exit(&strings(&["abc"])), ExitOutcome::InvalidCode("abc".to_string()));
}

#[test]
fn exit_codes() {
    assert_eq!(builtin_exit(&strings(&[])), ExitOutcome::Terminate(0));
    assert_eq!(builtin_exit(&strings(&["3"])), ExitOutcome::Terminate(3));
    assert_eq!(builtin_exit(&strings(&["-1"])), ExitOutcome::Terminate(-1));
    assert_eq!(builtin_exit(&strings(&["1", "2"])), ExitOutcome::Terminate(0));
    assert_eq!(builtin_exit(&strings(&["x", "y"])), ExitOutcome::Terminate(0));
}

#[test]
fn exit_code_parsing() {
    assert_eq!(parse_exit_code("0"), Some(0));
    assert_eq!(parse_exit_code("+5"), Some(5));
    assert_eq!(parse_exit_code("007"), Some(7));
    assert_eq!(parse_exit_code("2147483647"), Some(i32::MAX));
    assert_eq!(parse_exit_code("-2147483648"), Some(i32::MIN));
    assert_eq!(parse_exit_code("2147483648"), None);
    assert_eq!(parse_exit_code("-2147483649"), None);
    assert_eq!(parse_exit_code("99999999999999999999999"), None);
    assert_eq!(parse_exit_code(""), None);
    assert_eq!(parse_exit_code("-"), None);
    assert_eq!(parse_exit_code("+"), None);
    assert_eq!(parse_exit_code("1x"), None);
    assert_eq!(parse_exit_code(" 1"), None);
    assert_eq!(parse_exit_code("--1"), None);
}

#[test]
fn builtin_lookup() {
    assert_eq!(builtin_of("exit"), Some(Builtin::Exit));
    assert_eq!(builtin_of("echo"), Some(Builtin::Echo));
    assert_eq!(builtin_of("type"), Some(Builtin::Type));
    assert_eq!(builtin_of("pwd"), Some(Builtin::Pwd));
    assert_eq!(builtin_of("cd"), Some(Builtin::Cd));
    assert_eq!(builtin_of("ls"), None);
    assert_eq!(builtin_of("ech"), None);
    assert_eq!(Builtin::Pwd.name(), "pwd");
}

#[test]
fn echo_joins_with_single_spaces() {
    assert_eq!(echo_line(&strings(&["a", "b c", "d"])), "a b c d\n");
    assert_eq!(echo_line(&strings(&[])), "\n");
    let out = builtin_echo(&command("echo hi   there")).unwrap();
    assert_eq!(out.text, "hi there\n");
    assert_eq!(out.stdout, None);
    assert_eq!(out.stderr, None);
}

#[test]
fn echo_follows_its_redirections() {
    let out = builtin_echo(&command("echo hi > f 2>> g")).unwrap();
    assert_eq!(out.text, "hi\n");
    assert_eq!(out.stdout, Some(Redirect { path: "f".to_string(), append: false }));
    assert_eq!(out.stderr, Some(Redirect { path: "g".to_string(), append: true }));
    let out = builtin_echo(&command("echo >> f")).unwrap();
    assert_eq!(out.text, "\n");
    assert_eq!(out.stdout, Some(Redirect { path: "f".to_string(), append: true }));
}

#[test]
fn echo_refuses_a_misplaced_redirection() {
    let mut cmd = command("echo hi");
    cmd.redirection = Some(Redirection::Stderr);
    cmd.redirection_target = Some("f".to_string());
    assert_eq!(builtin_echo(&cmd), Err(ExecError::UnsupportedRedirection(Stream::Stdout)));
    let mut cmd = command("echo hi");
    cmd.stderr_redirection = Some(Redirection::StderrAppend);
    assert_eq!(builtin_echo(&cmd), Err(ExecError::UnsupportedRedirection(Stream::Stderr)));
}

#[test]
fn type_reports_each_name() {
    assert_eq!(builtin_type(&strings(&[])), vec![TypeReport::MissingArgument]);
    assert_eq!(
        builtin_type(&strings(&["echo", "ls", "cd"])),
        vec![
            TypeReport::Builtin("echo".to_string()),
            TypeReport::Search("ls".to_string()),
            TypeReport::Builtin("cd".to_string()),
        ]
    );
}

#[test]
fn cd_targets() {
    let home = "/home/u";
    assert_eq!(builtin_cd(&strings(&[]), home), CdOutcome::Change("/home/u".to_string()));
    assert_eq!(builtin_cd(&strings(&["~"]), home), CdOutcome::Change("/home/u".to_string()));
    assert_eq!(builtin_cd(&strings(&["~/x"]), home), CdOutcome::Change("/home/u/x".to_string()));
    assert_eq!(builtin_cd(&strings(&["/tmp"]), home), CdOutcome::Change("/tmp".to_string()));
    assert_eq!(builtin_cd(&strings(&["a~"]), home), CdOutcome::Change("a~".to_string()));
    assert_eq!(builtin_cd(&strings(&["a", "b"]), home), CdOutcome::TooManyArguments);
}
