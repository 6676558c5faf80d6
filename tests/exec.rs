use rshell::builtins::{CdOutcome, ExitOutcome, TypeReport};
use rshell::exec::{
    exec, process_command, search_candidates, split_path_list, Action, ExecError, ExternalRun,
    LineError, Redirect,
};
use rshell::parser::{parse, Command, ParseError, Stream};
use rshell::tokenizer::{tokenize, Quote, Redirection, TokenizeError};

fn strings(v: &[&str]) -> Vec<String> {
    v.iter().map(|s| s.to_string()).collect()
}

fn command(line: &str) -> Command {
    parse(tokenize(line.to_string()).unwrap()).unwrap()
}

#[test]
fn path_list_splits_on_colons() {
    assert_eq!(split_path_list("/bin:/usr/bin"), strings(&["/bin", "/usr/bin"]));
    assert_eq!(split_path_list(""), strings(&[""]));
    assert_eq!(split_path_list("a::b:"), strings(&["a", "", "b", ""]));
}

#[test]
fn search_candidates_join_dir_and_name() {
    assert_eq!(
        search_candidates("/bin:/usr/bin/:", "ls"),
        strings(&["/bin/ls", "/usr/bin/ls", "ls"])
    );
    assert_eq!(search_candidates("/bin", "/opt/x"), strings(&["/opt/x"]));
}

#[test]
fn external_command_keeps_args_and_redirections() {
    let action = exec(command("ls -l 'a b' > out 2>> err"), "/h").unwrap();
    assert_eq!(
        action,
        Action::Run(ExternalRun {
            name: "ls".to_string(),
            args: strings(&["-l", "a b"]),
            stdout: Some(Redirect { path: "out".to_string(), append: false }),
            stderr: Some(Redirect { path: "err".to_string(), append: true }),
        })
    );
}

#[test]
fn external_command_with_misplaced_redirection_fails() {
    let mut cmd = command("ls");
    cmd.stderr_redirection = Some(Redirection::Stdout);
    cmd.stderr_redirection_target = Some("x".to_string());
    assert_eq!(exec(cmd, "/h"), Err(ExecError::UnsupportedRedirection(Stream::Stderr)));
}

#[test]
fn builtins_are_dispatched_first() {
    assert_eq!(exec(command(""), "/h"), Ok(Action::Nothing));
    assert_eq!(exec(command("pwd > f"), "/h"), Ok(Action::Pwd));
    assert_eq!(exec(command("exit 4"), "/h"), Ok(Action::Exit(ExitOutcome::Terminate(4))));
    assert_eq!(
        exec(command("cd ~/src"), "/h"),
        Ok(Action::Cd(CdOutcome::Change("/h/src".to_string())))
    );
    assert_eq!(
        exec(command("type type"), "/h"),
        Ok(Action::Type(vec![TypeReport::Builtin("type".to_string())]))
    );
    match exec(command("echo a b"), "/h") {
        Ok(Action::Echo(o)) => assert_eq!(o.text, "a b\n"),
        other => panic!("unexpected {other:?}"),
    }
}

#[test]
fn process_command_reports_the_failing_stage() {
    assert_eq!(
        process_command("echo 'a".to_string(), "/h"),
        Err(LineError::Tokenize(TokenizeError::UnmatchedQuote(Quote::Single)))
    );
    assert_eq!(
        process_command("echo hi > a >> b".to_string(), "/h"),
        Err(LineError::Parse(ParseError::ConflictingRedirectionMode(Stream::Stdout)))
    );
    assert_eq!(
        process_command("exit abc".to_string(), "/h"),
        Ok(Action::Exit(ExitOutcome::InvalidCode("abc".to_string())))
    );
}
