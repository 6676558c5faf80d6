//! Builds a [`Command`] from a token sequence, checking the redirection
//! grammar.
use vstd::prelude::*;

use crate::text::strings_view;
use crate::tokenizer::{Redirection, Token, TokenView, TokenizeError, spec_tokenize, tokens_view};

verus! {

/// One of the two output streams that can be redirected.
#[derive(PartialEq, Eq, Structural, Clone, Copy, Debug)]
pub enum Stream {
    Stdout,
    Stderr,
}

/// The stream that a redirection operator applies to.
pub open spec fn stream_of(k: Redirection) -> Stream {
    match k {
        Redirection::Stdout | Redirection::StdoutAppend => Stream::Stdout,
        Redirection::Stderr | Redirection::StderrAppend => Stream::Stderr,
    }
}

fn stream_of_exec(k: Redirection) -> (s: Stream)
    ensures
        s == stream_of(k),
{
    match k {
        Redirection::Stdout | Redirection::StdoutAppend => Stream::Stdout,
        Redirection::Stderr | Redirection::StderrAppend => Stream::Stderr,
    }
}

/// Why a token sequence is not a valid command.
#[derive(PartialEq, Eq, Structural, Clone, Copy, Debug)]
pub enum ParseError {
    /// The same operator was given twice for one stream.
    DuplicateRedirection(Stream),
    /// Truncate and append were both requested for one stream.
    ConflictingRedirectionMode(Stream),
    /// An operator was followed by another operator or by the end of input.
    RedirectionTargetExpected,
}

/// A parsed command line: the program name, its arguments and, for stdout
/// and for stderr, an optional redirection with its target file.
///
/// `redirection` holds a stdout operator and `stderr_redirection` a stderr
/// operator; a successful parse sets a target exactly where it sets an
/// operator.
#[derive(PartialEq, Eq, Clone, Debug)]
pub struct Command {
    pub name: String,
    pub args: Vec<String>,
    pub redirection: Option<Redirection>,
    pub redirection_target: Option<String>,
    pub stderr_redirection: Option<Redirection>,
    pub stderr_redirection_target: Option<String>,
}

/// The mathematical value of a [`Command`].
pub struct CommandView {
    pub name: Seq<char>,
    pub args: Seq<Seq<char>>,
    pub redirection: Option<Redirection>,
    pub redirection_target: Option<Seq<char>>,
    pub stderr_redirection: Option<Redirection>,
    pub stderr_redirection_target: Option<Seq<char>>,
}

/// The value of an optional string.
pub open spec fn opt_view(o: Option<String>) -> Option<Seq<char>> {
    match o {
        Some(s) => Some(s@),
        None => None,
    }
}

impl View for Command {
    type V = CommandView;

    open spec fn view(&self) -> CommandView {
        CommandView {
            name: self.name@,
            args: strings_view(self.args@),
            redirection: self.redirection,
            redirection_target: opt_view(self.redirection_target),
            stderr_redirection: self.stderr_redirection,
            stderr_redirection_target: opt_view(self.stderr_redirection_target),
        }
    }
}

impl CommandView {
    /// Each redirection field holds an operator of its own stream, and a
    /// target is set exactly where an operator is.
    pub open spec fn well_formed(self) -> bool {
        &&& (self.redirection matches Some(k) ==> stream_of(k) == Stream::Stdout)
        &&& (self.stderr_redirection matches Some(k) ==> stream_of(k) == Stream::Stderr)
        &&& (self.redirection is Some <==> self.redirection_target is Some)
        &&& (self.stderr_redirection is Some <==> self.stderr_redirection_target is Some)
    }

    /// The operator recorded for `s`.
    pub open spec fn kind(self, s: Stream) -> Option<Redirection> {
        match s {
            Stream::Stdout => self.redirection,
            Stream::Stderr => self.stderr_redirection,
        }
    }
}

/// The parser between two tokens: the command so far and the stream, if any,
/// whose target the next word must be.
pub struct ParseState {
    pub cmd: CommandView,
    pub pending: Option<Stream>,
}

/// The parser before the first token: an empty command.
pub open spec fn parse_start() -> ParseState {
    ParseState {
        cmd: CommandView {
            name: seq![],
            args: seq![],
            redirection: None,
            redirection_target: None,
            stderr_redirection: None,
            stderr_redirection_target: None,
        },
        pending: None,
    }
}

/// The effect of one token on the parser.
pub open spec fn parse_step(st: ParseState, t: TokenView) -> Result<ParseState, ParseError> {
    let cmd = st.cmd;
    match t {
        TokenView::Word(w) => match st.pending {
            Some(Stream::Stdout) => Ok(
                ParseState { cmd: CommandView { redirection_target: Some(w), ..cmd }, pending: None },
            ),
            Some(Stream::Stderr) => Ok(
                ParseState {
                    cmd: CommandView { stderr_redirection_target: Some(w), ..cmd },
                    pending: None,
                },
            ),
            None => if cmd.name.len() == 0 {
                Ok(ParseState { cmd: CommandView { name: w, ..cmd }, pending: None })
            } else {
                Ok(ParseState { cmd: CommandView { args: cmd.args.push(w), ..cmd }, pending: None })
            },
        },
        TokenView::Operand(k) => if st.pending is Some {
            Err(ParseError::RedirectionTargetExpected)
        } else {
            match cmd.kind(stream_of(k)) {
                Some(j) => if j == k {
                    Err(ParseError::DuplicateRedirection(stream_of(k)))
                } else {
                    Err(ParseError::ConflictingRedirectionMode(stream_of(k)))
                },
                None => match stream_of(k) {
                    Stream::Stdout => Ok(
                        ParseState {
                            cmd: CommandView { redirection: Some(k), ..cmd },
                            pending: Some(Stream::Stdout),
                        },
                    ),
                    Stream::Stderr => Ok(
                        ParseState {
                            cmd: CommandView { stderr_redirection: Some(k), ..cmd },
                            pending: Some(Stream::Stderr),
                        },
                    ),
                },
            }
        },
    }
}

/// The parser after the tokens of `ts`, or the first error they meet.
pub open spec fn parse_prefix(ts: Seq<TokenView>) -> Result<ParseState, ParseError>
    decreases ts.len(),
{
    if ts.len() == 0 {
        Ok(parse_start())
    } else {
        match parse_prefix(ts.drop_last()) {
            Ok(st) => parse_step(st, ts.last()),
            Err(e) => Err(e),
        }
    }
}

/// The command that a whole token sequence describes, or why it describes none.
pub open spec fn spec_parse(ts: Seq<TokenView>) -> Result<CommandView, ParseError> {
    match parse_prefix(ts) {
        Ok(st) => if st.pending is Some {
            Err(ParseError::RedirectionTargetExpected)
        } else {
            Ok(st.cmd)
        },
        Err(e) => Err(e),
    }
}

/// Once a prefix fails, the whole sequence fails with the same error.
pub proof fn lemma_error_persists(ts: Seq<TokenView>, j: int)
    requires
        0 <= j <= ts.len(),
        parse_prefix(ts.subrange(0, j)) is Err,
    ensures
        parse_prefix(ts) == parse_prefix(ts.subrange(0, j)),
    decreases ts.len() - j,
{
    if j < ts.len() {
        assert(ts.subrange(0, j + 1).drop_last() == ts.subrange(0, j));
        lemma_error_persists(ts, j + 1);
    } else {
        assert(ts.subrange(0, j) == ts);
    }
}

/// Every state that the parser passes through is well formed but for the
/// target of the pending stream.
pub open spec fn state_ok(st: ParseState) -> bool {
    let c = st.cmd;
    &&& (c.redirection matches Some(k) ==> stream_of(k) == Stream::Stdout)
    &&& (c.stderr_redirection matches Some(k) ==> stream_of(k) == Stream::Stderr)
    &&& (c.redirection_target is Some ==> c.redirection is Some)
    &&& (c.stderr_redirection_target is Some ==> c.stderr_redirection is Some)
    &&& (c.redirection is Some && st.pending != Some(Stream::Stdout) ==> c.redirection_target is Some)
    &&& (c.stderr_redirection is Some && st.pending != Some(Stream::Stderr)
        ==> c.stderr_redirection_target is Some)
    &&& (st.pending == Some(Stream::Stdout) ==> c.redirection_target is None)
    &&& (st.pending == Some(Stream::Stderr) ==> c.stderr_redirection_target is None)
}

/// A successful parse yields a well-formed command.
pub proof fn lemma_parse_well_formed(ts: Seq<TokenView>)
    ensures
        parse_prefix(ts) matches Ok(st) ==> state_ok(st),
        spec_parse(ts) matches Ok(c) ==> c.well_formed(),
    decreases ts.len(),
{
    if ts.len() > 0 {
        lemma_parse_well_formed(ts.drop_last());
    }
}

/// Builds one command from `tokens`.
///
/// The first word is the name and later words are arguments, except that the
/// word after an operator is that operator's target. Each stream takes at
/// most one operator: the same one again is a duplicate, the other mode of the
/// same stream a conflict. An operator must be followed by a word.
pub fn parse(tokens: Vec<Token>) -> (r: Result<Command, ParseError>)
    ensures
        match r {
            Ok(c) => spec_parse(tokens_view(tokens@)) == Ok::<CommandView, ParseError>(c@),
            Err(e) => spec_parse(tokens_view(tokens@)) == Err::<CommandView, ParseError>(e),
        },
        r matches Ok(c) ==> c@.well_formed(),
{
    let ghost ts = tokens_view(tokens@);
    let mut cmd = Command {
        name: String::new(),
        args: Vec::new(),
        redirection: None,
        redirection_target: None,
        stderr_redirection: None,
        stderr_redirection_target: None,
    };
    let mut pending: Option<Stream> = None;
    proof {
        lemma_parse_well_formed(ts);
        assert(ts.subrange(0, 0).len() == 0);
        assert(strings_view(cmd.args@) == Seq::<Seq<char>>::empty());
    }
    let n = tokens.len();
    for i in 0..n
        invariant
            n == tokens@.len(),
            ts == tokens_view(tokens@),
            parse_prefix(ts.subrange(0, i as int)) == Ok::<ParseState, ParseError>(
                ParseState { cmd: cmd@, pending },
            ),
    {
        let ghost before = ParseState { cmd: cmd@, pending };
        proof {
            assert(ts.subrange(0, i + 1).drop_last() == ts.subrange(0, i as int));
            assert(ts.subrange(0, i + 1).last() == tokens@[i as int]@);
        }
        match &tokens[i] {
            Token::Word(w) => {
                let w = w.clone();
                match pending {
                    Some(Stream::Stdout) => {
                        cmd.redirection_target = Some(w);
                    },
                    Some(Stream::Stderr) => {
                        cmd.stderr_redirection_target = Some(w);
                    },
                    None => {
                        if cmd.name.as_str().is_empty() {
                            cmd.name = w;
                        } else {
                            let ghost args = cmd.args@;
                            cmd.args.push(w);
                            assert(strings_view(cmd.args@) == strings_view(args).push(w@));
                        }
                    },
                }
                pending = None;
            },
            Token::Operand(k) => {
                let k = *k;
                if pending.is_some() {
                    proof {
                        lemma_error_persists(ts, i + 1);
                    }
                    return Err(ParseError::RedirectionTargetExpected);
                }
                let s = stream_of_exec(k);
                let current = match s {
                    Stream::Stdout => cmd.redirection,
                    Stream::Stderr => cmd.stderr_redirection,
                };
                match current {
                    Some(j) => {
                        proof {
                            lemma_error_persists(ts, i + 1);
                        }
                        if j == k {
                            return Err(ParseError::DuplicateRedirection(s));
                        } else {
                            return Err(ParseError::ConflictingRedirectionMode(s));
                        }
                    },
                    None => {},
                }
                match s {
                    Stream::Stdout => {
                        cmd.redirection = Some(k);
                    },
                    Stream::Stderr => {
                        cmd.stderr_redirection = Some(k);
                    },
                }
                pending = Some(s);
            },
        }
    }
    assert(ts.subrange(0, n as int) == ts);
    if pending.is_some() {
        Err(ParseError::RedirectionTargetExpected)
    } else {
        Ok(cmd)
    }
}

/// Tokenizing one line twice and parsing each result gives the same command,
/// or the same error, both times.
pub proof fn lemma_reparse_identical(line: Seq<char>, first: Seq<Token>, second: Seq<Token>)
    requires
        spec_tokenize(line) == Ok::<Seq<TokenView>, TokenizeError>(tokens_view(first)),
        spec_tokenize(line) == Ok::<Seq<TokenView>, TokenizeError>(tokens_view(second)),
    ensures
        spec_parse(tokens_view(first)) == spec_parse(tokens_view(second)),
{
}

} // verus!
