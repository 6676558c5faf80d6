use rshell::tokenizer::{render_tokens, tokenize, Quote, Redirection, Token, TokenizeError};

fn word(s: &str) -> Token {
    Token::Word(s.to_string())
}

fn toks(line: &str) -> Vec<Token> {
    tokenize(line.to_string()).unwrap()
}

#[test]
fn single_quotes_keep_spaces() {
    assert_eq!(toks("echo 'a b' c"), vec![word("echo"), word("a b"), word("c")]);
}

#[test]
fn escaped_quote_inside_double_quotes() {
    assert_eq!(toks("echo \"a\\\"b\""), vec![word("echo"), word("a\"b")]);
}

#[test]
fn unmatched_single_quote_fails() {
    assert_eq!(
        tokenize("echo 'a".to_string()),
        Err(TokenizeError::UnmatchedQuote(Quote::Single))
    );
}

#[test]
fn unmatched_double_quote_fails() {
    assert_eq!(
        tokenize("echo \"a b".to_string()),
        Err(TokenizeError::UnmatchedQuote(Quote::Double))
    );
    assert_eq!(
        tokenize("echo \"a\\".to_string()),
        Err(TokenizeError::UnmatchedQuote(Quote::Double))
    );
}

#[test]
fn empty_and_blank_lines_have_no_tokens() {
    assert_eq!(toks(""), vec![]);
    assert_eq!(toks("   \t "), vec![]);
}

#[test]
fn blanks_collapse() {
    assert_eq!(toks("  ls   -l\t-a  "), vec![word("ls"), word("-l"), word("-a")]);
}

#[test]
fn operators_are_recognised() {
    assert_eq!(
        toks("ls > a 1> b >> c 1>> d 2> e 2>> f"),
        vec![
            word("ls"),
            Token::Operand(Redirection::Stdout),
            word("a"),
            Token::Operand(Redirection::Stdout),
            word("b"),
            Token::Operand(Redirection::StdoutAppend),
            word("c"),
            Token::Operand(Redirection::StdoutAppend),
            word("d"),
            Token::Operand(Redirection::Stderr),
            word("e"),
            Token::Operand(Redirection::StderrAppend),
            word("f"),
        ]
    );
}

#[test]
fn operators_only_as_whole_words() {
    assert_eq!(toks("a>b 3> 2>>x"), vec![word("a>b"), word("3>"), word("2>>x")]);
}

#[test]
fn backslash_outside_quotes_takes_next_literally() {
    assert_eq!(toks("a\\ b \\\\ \\'x\\\""), vec![word("a b"), word("\\"), word("'x\"")]);
    assert_eq!(toks("\\n\\t"), vec![word("nt")]);
}

#[test]
fn backslash_in_single_quotes_is_literal() {
    assert_eq!(toks("'a\\b' '\"'"), vec![word("a\\b"), word("\"")]);
}

#[test]
fn backslash_in_double_quotes_escapes_next() {
    assert_eq!(toks("\"a\\xb\" \"\\\\\" \"it's\""), vec![word("axb"), word("\\"), word("it's")]);
}

#[test]
fn adjacent_quoted_parts_join() {
    assert_eq!(toks("ab'c d'\"e\"f"), vec![word("abc def")]);
}

#[test]
fn empty_quotes_make_no_word() {
    assert_eq!(toks("a '' \"\" b"), vec![word("a"), word("b")]);
}

#[test]
fn trailing_backslash_is_dropped() {
    assert_eq!(toks("ab\\"), vec![word("ab")]);
}

#[test]
fn render_escapes_words_and_spells_operators() {
    let tokens = vec![word("a b"), Token::Operand(Redirection::StderrAppend), word("c")];
    assert_eq!(render_tokens(&tokens), "\\a\\ \\b 2>> \\c");
    assert_eq!(render_tokens(&vec![]), "");
}

#[test]
fn rendered_tokens_split_the_same_way() {
    for line in [
        "echo 'a b' c",
        "echo \"a\\\"b\" > 'out file' 2>> e",
        "  x\\ y   '' 'q\"r' \\\\ 1>> z",
        "",
    ] {
        let tokens = toks(line);
        let again = toks(&render_tokens(&tokens));
        assert_eq!(again, tokens, "line {line:?}");
    }
}
