use rshell::parser::{parse, Command, ParseError, Stream};
use rshell::tokenizer::{tokenize, Redirection};

fn parse_line(line: &str) -> Result<Command, ParseError> {
    parse(tokenize(line.to_string()).unwrap())
}

fn strings(v: &[&str]) -> Vec<String> {
    v.iter().map(|s| s.to_string()).collect()
}

#[test]
fn truncate_stdout_and_append_stderr() {
    let cmd = parse_line("ls > out.txt 2>> err.txt").unwrap();
    assert_eq!(
        cmd,
        Command {
            name: "ls".to_string(),
            args: vec![],
            redirection: Some(Redirection::Stdout),
            redirection_target: Some("out.txt".to_string()),
            stderr_redirection: Some(Redirection::StderrAppend),
            stderr_redirection_target: Some("err.txt".to_string()),
        }
    );
}

#[test]
fn truncate_then_append_conflicts() {
    assert_eq!(
        parse_line("echo hi > a.txt >> b.txt"),
        Err(ParseError::ConflictingRedirectionMode(Stream::Stdout))
    );
    assert_eq!(
        parse_line("echo hi 2>> a.txt 2> b.txt"),
        Err(ParseError::ConflictingRedirectionMode(Stream::Stderr))
    );
}

#[test]
fn same_operator_twice_is_duplicate() {
    assert_eq!(
        parse_line("echo hi > a 1> b"),
        Err(ParseError::DuplicateRedirection(Stream::Stdout))
    );
    assert_eq!(
        parse_line("echo hi 2>> a 2>> b"),
        Err(ParseError::DuplicateRedirection(Stream::Stderr))
    );
}

#[test]
fn operator_needs_a_word_after_it() {
    assert_eq!(parse_line("echo hi >"), Err(ParseError::RedirectionTargetExpected));
    assert_eq!(parse_line("echo > 2> x"), Err(ParseError::RedirectionTargetExpected));
}

#[test]
fn words_after_targets_are_arguments() {
    let cmd = parse_line("echo a 2> e b >> o c").unwrap();
    assert_eq!(cmd.name, "echo");
    assert_eq!(cmd.args, strings(&["a", "b", "c"]));
    assert_eq!(cmd.redirection, Some(Redirection::StdoutAppend));
    assert_eq!(cmd.redirection_target, Some("o".to_string()));
    assert_eq!(cmd.stderr_redirection, Some(Redirection::Stderr));
    assert_eq!(cmd.stderr_redirection_target, Some("e".to_string()));
}

#[test]
fn stdout_then_stderr_targets_go_to_their_streams() {
    let cmd = parse_line("cat > a 2> b").unwrap();
    assert_eq!(cmd.redirection_target, Some("a".to_string()));
    assert_eq!(cmd.stderr_redirection_target, Some("b".to_string()));
}

#[test]
fn empty_line_gives_empty_command() {
    let cmd = parse_line("").unwrap();
    assert_eq!(cmd.name, "");
    assert!(cmd.args.is_empty());
    assert_eq!(cmd.redirection, None);
    assert_eq!(cmd.stderr_redirection, None);
}

#[test]
fn reparsing_the_same_line_gives_the_same_command() {
    for line in ["ls -l > out 2>> err", "echo 'a b' \"c\"", "echo > a >> b", "x >"] {
        let first = parse(tokenize(line.to_string()).unwrap());
        let second = parse(tokenize(line.to_string()).unwrap());
        assert_eq!(first, second, "line {line:?}");
    }
}
