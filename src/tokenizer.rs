//! Splits a command line into words and redirection operators, honouring
//! single quotes, double quotes and backslash escapes.
use vstd::prelude::*;

use crate::text::{chars_of, string_of};

verus! {

/// A recognised redirection operator: which stream, and whether the target
/// file is truncated or appended to.
#[derive(PartialEq, Eq, Structural, Clone, Copy, Debug)]
pub enum Redirection {
    /// `>` or `1>`
    Stdout,
    /// `>>` or `1>>`
    StdoutAppend,
    /// `2>`
    Stderr,
    /// `2>>`
    StderrAppend,
}

/// One lexical unit of a command line.
#[derive(PartialEq, Eq, Clone, Debug)]
pub enum Token {
    /// A fully unescaped shell word.
    Word(String),
    /// A redirection operator.
    Operand(Redirection),
}

/// The mathematical value of a [`Token`].
pub enum TokenView {
    Word(Seq<char>),
    Operand(Redirection),
}

impl View for Token {
    type V = TokenView;

    open spec fn view(&self) -> TokenView {
        match self {
            Token::Word(w) => TokenView::Word(w@),
            Token::Operand(k) => TokenView::Operand(*k),
        }
    }
}

/// The values of a sequence of tokens.
pub open spec fn tokens_view(v: Seq<Token>) -> Seq<TokenView> {
    v.map_values(|t: Token| t@)
}

/// Which kind of quote was left open.
#[derive(PartialEq, Eq, Structural, Clone, Copy, Debug)]
pub enum Quote {
    Single,
    Double,
}

/// Why a line could not be split into tokens.
#[derive(PartialEq, Eq, Structural, Clone, Copy, Debug)]
pub enum TokenizeError {
    /// The line ended inside a quoted section.
    UnmatchedQuote(Quote),
}

/// The quoting and escaping mode of the tokenizer between two characters.
#[derive(PartialEq, Eq, Structural, Clone, Copy, Debug)]
pub enum TokenizerState {
    /// Outside quotes, no escape pending.
    Normal,
    /// Outside quotes, just after a backslash.
    Escaped,
    /// Inside single quotes: every character but `'` is literal.
    SingleQuoted,
    /// Inside double quotes, no escape pending.
    DoubleQuoted,
    /// Inside double quotes, just after a backslash.
    DoubleQuotedEscaped,
}

/// Characters that separate words when unquoted and unescaped.
pub open spec fn is_blank(c: char) -> bool {
    c == ' ' || c == '\t' || c == '\n' || c == '\r' || c == '\x0C'
}

/// Whether `c` separates words.
pub fn is_blank_char(c: char) -> (r: bool)
    ensures
        r == is_blank(c),
{
    c == ' ' || c == '\t' || c == '\n' || c == '\r' || c == '\x0C'
}

/// The operator that a complete word spells, if any.
pub open spec fn operator_of(w: Seq<char>) -> Option<Redirection> {
    if w == seq!['>'] || w == seq!['1', '>'] {
        Some(Redirection::Stdout)
    } else if w == seq!['>', '>'] || w == seq!['1', '>', '>'] {
        Some(Redirection::StdoutAppend)
    } else if w == seq!['2', '>'] {
        Some(Redirection::Stderr)
    } else if w == seq!['2', '>', '>'] {
        Some(Redirection::StderrAppend)
    } else {
        None
    }
}

/// The token that a complete, non-empty word becomes.
pub open spec fn classify(w: Seq<char>) -> TokenView {
    match operator_of(w) {
        Some(k) => TokenView::Operand(k),
        None => TokenView::Word(w),
    }
}

/// Ends the word being built: a non-empty one is appended to `out`.
pub open spec fn flush(word: Seq<char>, out: Seq<TokenView>) -> Seq<TokenView> {
    if word.len() == 0 {
        out
    } else {
        out.push(classify(word))
    }
}

/// The tokenizer between two characters: its mode, the word being built and
/// the tokens emitted so far.
pub struct Lexer {
    pub state: TokenizerState,
    pub word: Seq<char>,
    pub out: Seq<TokenView>,
}

/// The tokenizer before the first character.
pub open spec fn lexer_start() -> Lexer {
    Lexer { state: TokenizerState::Normal, word: seq![], out: seq![] }
}

/// The effect of one character on the tokenizer.
pub open spec fn step(lx: Lexer, c: char) -> Lexer {
    let push = Lexer { word: lx.word.push(c), ..lx };
    match lx.state {
        TokenizerState::Normal => {
            if c == '\'' {
                Lexer { state: TokenizerState::SingleQuoted, ..lx }
            } else if c == '"' {
                Lexer { state: TokenizerState::DoubleQuoted, ..lx }
            } else if c == '\\' {
                Lexer { state: TokenizerState::Escaped, ..lx }
            } else if is_blank(c) {
                Lexer { word: seq![], out: flush(lx.word, lx.out), ..lx }
            } else {
                push
            }
        },
        TokenizerState::Escaped => Lexer { state: TokenizerState::Normal, ..push },
        TokenizerState::SingleQuoted => {
            if c == '\'' {
                Lexer { state: TokenizerState::Normal, ..lx }
            } else {
                push
            }
        },
        TokenizerState::DoubleQuoted => {
            if c == '"' {
                Lexer { state: TokenizerState::Normal, ..lx }
            } else if c == '\\' {
                Lexer { state: TokenizerState::DoubleQuotedEscaped, ..lx }
            } else {
                push
            }
        },
        TokenizerState::DoubleQuotedEscaped => Lexer { state: TokenizerState::DoubleQuoted, ..push },
    }
}

/// The tokenizer after reading `s`, starting from `lx`.
pub open spec fn run(lx: Lexer, s: Seq<char>) -> Lexer
    decreases s.len(),
{
    if s.len() == 0 {
        lx
    } else {
        run(step(lx, s[0]), s.drop_first())
    }
}

/// The tokens of a whole line, or the quote that it leaves open.
pub open spec fn spec_tokenize(s: Seq<char>) -> Result<Seq<TokenView>, TokenizeError> {
    let lx = run(lexer_start(), s);
    match lx.state {
        TokenizerState::SingleQuoted => Err(TokenizeError::UnmatchedQuote(Quote::Single)),
        TokenizerState::DoubleQuoted | TokenizerState::DoubleQuotedEscaped => Err(
            TokenizeError::UnmatchedQuote(Quote::Double),
        ),
        _ => Ok(flush(lx.word, lx.out)),
    }
}

/// Reading one more character is one more step.
pub proof fn lemma_run_push(lx: Lexer, s: Seq<char>, c: char)
    ensures
        run(lx, s.push(c)) == step(run(lx, s), c),
    decreases s.len(),
{
    if s.len() > 0 {
        assert(s.push(c)[0] == s[0]);
        assert(s.push(c).drop_first() == s.drop_first().push(c));
        lemma_run_push(step(lx, s[0]), s.drop_first(), c);
    } else {
        assert(s.push(c).drop_first() == s);
        assert(run(step(lx, c), s) == step(lx, c));
    }
}

/// The canonical spelling of an operator.
pub open spec fn spelling(k: Redirection) -> Seq<char> {
    match k {
        Redirection::Stdout => seq!['>'],
        Redirection::StdoutAppend => seq!['>', '>'],
        Redirection::Stderr => seq!['2', '>'],
        Redirection::StderrAppend => seq!['2', '>', '>'],
    }
}

/// `w` with a backslash before each character.
pub open spec fn escape(w: Seq<char>) -> Seq<char>
    decreases w.len(),
{
    if w.len() == 0 {
        seq![]
    } else {
        escape(w.drop_last()) + seq!['\\', w.last()]
    }
}

/// How a token is written so that the tokenizer reads it back.
pub open spec fn render(t: TokenView) -> Seq<char> {
    match t {
        TokenView::Word(w) => escape(w),
        TokenView::Operand(k) => spelling(k),
    }
}

/// The tokens written out and joined by single spaces.
pub open spec fn render_line(ts: Seq<TokenView>) -> Seq<char>
    decreases ts.len(),
{
    if ts.len() == 0 {
        seq![]
    } else if ts.len() == 1 {
        render(ts[0])
    } else {
        render_line(ts.drop_last()) + seq![' '] + render(ts.last())
    }
}

/// A token that the tokenizer can emit: a word is non-empty and spells no
/// operator.
pub open spec fn token_ok(t: TokenView) -> bool {
    t matches TokenView::Word(w) ==> w.len() > 0 && operator_of(w) is None
}

/// Reading one character is one step.
proof fn lemma_run_single(lx: Lexer, c: char)
    ensures
        run(lx, seq![c]) == step(lx, c),
{
    lemma_run_push(lx, Seq::empty(), c);
    assert(Seq::<char>::empty().push(c) == seq![c]);
}

/// Reading `a` then `b` is reading `a + b`.
pub proof fn lemma_run_append(lx: Lexer, a: Seq<char>, b: Seq<char>)
    ensures
        run(lx, a + b) == run(run(lx, a), b),
    decreases a.len(),
{
    if a.len() == 0 {
        assert(a + b == b);
    } else {
        assert((a + b)[0] == a[0]);
        assert((a + b).drop_first() == a.drop_first() + b);
        lemma_run_append(step(lx, a[0]), a.drop_first(), b);
    }
}

/// Outside quotes, an escaped word adds exactly its characters.
proof fn lemma_run_escape(lx: Lexer, w: Seq<char>)
    requires
        lx.state == TokenizerState::Normal,
    ensures
        run(lx, escape(w)) == (Lexer { word: lx.word + w, ..lx }),
    decreases w.len(),
{
    if w.len() == 0 {
        assert(lx.word + w == lx.word);
    } else {
        let c = w.last();
        lemma_run_escape(lx, w.drop_last());
        let mid = Lexer { word: lx.word + w.drop_last(), ..lx };
        lemma_run_append(lx, escape(w.drop_last()), seq!['\\', c]);
        lemma_run_push(mid, seq!['\\'], c);
        assert(seq!['\\'].push(c) == seq!['\\', c]);
        lemma_run_single(mid, '\\');
        assert(lx.word + w == (lx.word + w.drop_last()).push(c));
    }
}

/// Outside quotes, an operator's spelling adds exactly its characters.
proof fn lemma_run_spelling(lx: Lexer, k: Redirection)
    requires
        lx.state == TokenizerState::Normal,
    ensures
        run(lx, spelling(k)) == (Lexer { word: lx.word + spelling(k), ..lx }),
{
    let sp = spelling(k);
    assert(sp.len() > 0);
    lemma_run_push(lx, sp.drop_last(), sp.last());
    assert(sp.drop_last().push(sp.last()) == sp);
    if sp.len() == 1 {
        assert(run(lx, sp.drop_last()) == lx);
        assert(lx.word + sp == lx.word.push(sp.last()));
    } else if sp.len() == 2 {
        let p = sp.drop_last();
        lemma_run_push(lx, p.drop_last(), p.last());
        assert(p.drop_last().push(p.last()) == p);
        assert(run(lx, p.drop_last()) == lx);
        assert(lx.word + sp == lx.word.push(sp[0]).push(sp[1]));
    } else {
        let p = sp.drop_last();
        let q = p.drop_last();
        lemma_run_push(lx, p.drop_last(), p.last());
        lemma_run_push(lx, q.drop_last(), q.last());
        assert(p.drop_last().push(p.last()) == p);
        assert(q.drop_last().push(q.last()) == q);
        assert(run(lx, q.drop_last()) == lx);
        assert(lx.word + sp == lx.word.push(sp[0]).push(sp[1]).push(sp[2]));
    }
}

/// Outside quotes and between words, reading the rendered tokens ends between
/// words with exactly those tokens added.
proof fn lemma_run_render_line(lx: Lexer, ts: Seq<TokenView>)
    requires
        lx.state == TokenizerState::Normal,
        lx.word.len() == 0,
        forall|i: int| 0 <= i < ts.len() ==> token_ok(#[trigger] ts[i]),
    ensures
        run(lx, render_line(ts)).state == TokenizerState::Normal,
        flush(run(lx, render_line(ts)).word, run(lx, render_line(ts)).out) == lx.out + ts,
    decreases ts.len(),
{
    if ts.len() == 0 {
        assert(lx.out + ts == lx.out);
    } else {
        let t = ts.last();
        let init = ts.drop_last();
        let head = if ts.len() == 1 {
            lx
        } else {
            lemma_run_render_line(lx, init);
            let r = run(lx, render_line(init));
            lemma_run_append(lx, render_line(init) + seq![' '], render(t));
            lemma_run_append(lx, render_line(init), seq![' ']);
            lemma_run_single(r, ' ');
            step(r, ' ')
        };
        assert(head.state == TokenizerState::Normal && head.word.len() == 0);
        assert(head.out == lx.out + init) by {
            if ts.len() == 1 {
                assert(init.len() == 0);
                assert(lx.out + init == lx.out);
            }
        }
        assert(ts.len() == 1 ==> render_line(ts) == render(t));
        assert(token_ok(ts[ts.len() - 1]));
        match t {
            TokenView::Word(w) => {
                lemma_run_escape(head, w);
                assert(head.word + w == w);
            },
            TokenView::Operand(k) => {
                lemma_run_spelling(head, k);
                assert(head.word + spelling(k) == spelling(k));
            },
        }
        assert(lx.out + ts == (lx.out + init).push(t));
    }
}

/// Every token that the tokenizer emits is one that it can emit.
proof fn lemma_run_tokens_ok(lx: Lexer, s: Seq<char>)
    requires
        forall|i: int| 0 <= i < lx.out.len() ==> token_ok(#[trigger] lx.out[i]),
    ensures
        forall|i: int|
            0 <= i < run(lx, s).out.len() ==> token_ok(#[trigger] run(lx, s).out[i]),
        forall|i: int|
            0 <= i < flush(run(lx, s).word, run(lx, s).out).len() ==> token_ok(
                #[trigger] flush(run(lx, s).word, run(lx, s).out)[i],
            ),
    decreases s.len(),
{
    if s.len() > 0 {
        let nx = step(lx, s[0]);
        assert forall|i: int| 0 <= i < nx.out.len() implies token_ok(#[trigger] nx.out[i]) by {
            if i < lx.out.len() {
                assert(token_ok(lx.out[i]));
            }
        }
        lemma_run_tokens_ok(nx, s.drop_first());
    } else {
        let f = flush(lx.word, lx.out);
        assert forall|i: int| 0 <= i < f.len() implies token_ok(#[trigger] f[i]) by {
            if i < lx.out.len() {
                assert(token_ok(lx.out[i]));
            }
        }
    }
}

/// Splitting a line, writing its tokens back out joined by single spaces and
/// splitting again gives the same tokens: the words and their boundaries
/// survive the round trip, though quoting may be written differently.
pub proof fn lemma_tokenize_round_trip(s: Seq<char>)
    requires
        spec_tokenize(s) is Ok,
    ensures
        spec_tokenize(render_line(spec_tokenize(s)->Ok_0)) == spec_tokenize(s),
{
    let ts = spec_tokenize(s)->Ok_0;
    lemma_run_tokens_ok(lexer_start(), s);
    assert forall|i: int| 0 <= i < ts.len() implies token_ok(#[trigger] ts[i]) by {}
    lemma_run_render_line(lexer_start(), ts);
    assert(lexer_start().out + ts == ts);
}

/// The token that a complete, non-empty word becomes.
fn classify_word(w: &Vec<char>) -> (t: Token)
    requires
        w@.len() > 0,
    ensures
        t@ == classify(w@),
{
    let n = w.len();
    let is_gt = |i: usize| -> (b: bool)
        requires i < w@.len(),
        ensures b == (w@[i as int] == '>'),
    { w[i] == '>' };
    if (n == 1 && is_gt(0)) || (n == 2 && w[0] == '1' && is_gt(1)) {
        assert(w@ == seq!['>'] || w@ == seq!['1', '>']);
        Token::Operand(Redirection::Stdout)
    } else if (n == 2 && is_gt(0) && is_gt(1)) || (n == 3 && w[0] == '1' && is_gt(1) && is_gt(2)) {
        assert(w@ == seq!['>', '>'] || w@ == seq!['1', '>', '>']);
        Token::Operand(Redirection::StdoutAppend)
    } else if n == 2 && w[0] == '2' && is_gt(1) {
        assert(w@ == seq!['2', '>']);
        Token::Operand(Redirection::Stderr)
    } else if n == 3 && w[0] == '2' && is_gt(1) && is_gt(2) {
        assert(w@ == seq!['2', '>', '>']);
        Token::Operand(Redirection::StderrAppend)
    } else {
        assert(operator_of(w@) is None);
        Token::Word(string_of(w))
    }
}

/// Ends the word being built, appending its token to `out` if it is non-empty.
fn flush_word(word: &mut Vec<char>, out: &mut Vec<Token>)
    ensures
        final(word)@ == Seq::<char>::empty(),
        tokens_view(final(out)@) == flush(old(word)@, tokens_view(old(out)@)),
{
    if word.len() > 0 {
        let t = classify_word(word);
        *word = Vec::new();
        let ghost before = out@;
        out.push(t);
        assert(tokens_view(out@) == tokens_view(before).push(t@));
    }
}

/// Splits `input` into words and redirection operators.
///
/// Unquoted blanks separate words; `'...'` keeps everything literal; `"..."`
/// keeps everything literal but lets a backslash escape the next character;
/// outside quotes a backslash takes the next character literally. A complete
/// word that spells `>`, `1>`, `>>`, `1>>`, `2>` or `2>>` becomes an operator.
/// A line that ends inside quotes is rejected.
pub fn tokenize(input: String) -> (r: Result<Vec<Token>, TokenizeError>)
    ensures
        match r {
            Ok(v) => spec_tokenize(input@) == Ok::<Seq<TokenView>, TokenizeError>(tokens_view(v@)),
            Err(e) => spec_tokenize(input@) == Err::<Seq<TokenView>, TokenizeError>(e),
        },
{
    let chars = chars_of(input.as_str());
    let mut state = TokenizerState::Normal;
    let mut word: Vec<char> = Vec::new();
    let mut out: Vec<Token> = Vec::new();
    let n = chars.len();
    assert(chars@.subrange(0, 0) == Seq::<char>::empty());
    assert(tokens_view(out@) == Seq::<TokenView>::empty());
    for i in 0..n
        invariant
            n == chars@.len(),
            chars@ == input@,
            run(lexer_start(), chars@.subrange(0, i as int)) == (Lexer {
                state,
                word: word@,
                out: tokens_view(out@),
            }),
    {
        let c = chars[i];
        proof {
            assert(chars@.subrange(0, i + 1) == chars@.subrange(0, i as int).push(c));
            lemma_run_push(lexer_start(), chars@.subrange(0, i as int), c);
        }
        match state {
            TokenizerState::Normal => {
                if c == '\'' {
                    state = TokenizerState::SingleQuoted;
                } else if c == '"' {
                    state = TokenizerState::DoubleQuoted;
                } else if c == '\\' {
                    state = TokenizerState::Escaped;
                } else if is_blank_char(c) {
                    flush_word(&mut word, &mut out);
                } else {
                    word.push(c);
                }
            },
            TokenizerState::Escaped => {
                word.push(c);
                state = TokenizerState::Normal;
            },
            TokenizerState::SingleQuoted => {
                if c == '\'' {
                    state = TokenizerState::Normal;
                } else {
                    word.push(c);
                }
            },
            TokenizerState::DoubleQuoted => {
                if c == '"' {
                    state = TokenizerState::Normal;
                } else if c == '\\' {
                    state = TokenizerState::DoubleQuotedEscaped;
                } else {
                    word.push(c);
                }
            },
            TokenizerState::DoubleQuotedEscaped => {
                word.push(c);
                state = TokenizerState::DoubleQuoted;
            },
        }
    }
    assert(chars@.subrange(0, n as int) == chars@);
    match state {
        TokenizerState::SingleQuoted => Err(TokenizeError::UnmatchedQuote(Quote::Single)),
        TokenizerState::DoubleQuoted | TokenizerState::DoubleQuotedEscaped => Err(
            TokenizeError::UnmatchedQuote(Quote::Double),
        ),
        _ => {
            flush_word(&mut word, &mut out);
            Ok(out)
        },
    }
}

/// Writes `tokens` back out as a line, joined by single spaces: an operator by
/// its spelling, a word with each character escaped by a backslash.
pub fn render_tokens(tokens: &Vec<Token>) -> (r: String)
    ensures
        r@ == render_line(tokens_view(tokens@)),
{
    let ghost ts = tokens_view(tokens@);
    let mut acc: Vec<char> = Vec::new();
    let n = tokens.len();
    assert(ts.subrange(0, 0).len() == 0);
    for i in 0..n
        invariant
            n == tokens@.len(),
            ts == tokens_view(tokens@),
            acc@ == render_line(ts.subrange(0, i as int)),
    {
        let ghost before = acc@;
        if i > 0 {
            acc.push(' ');
        }
        let ghost base = acc@;
        match &tokens[i] {
            Token::Word(w) => {
                let cs = chars_of(w.as_str());
                assert(cs@.subrange(0, 0).len() == 0);
                assert(base + escape(cs@.subrange(0, 0)) == base);
                for j in 0..cs.len()
                    invariant
                        acc@ == base + escape(cs@.subrange(0, j as int)),
                {
                    acc.push('\\');
                    acc.push(cs[j]);
                    assert(cs@.subrange(0, j + 1).drop_last() == cs@.subrange(0, j as int));
                    assert(acc@ == base + escape(cs@.subrange(0, j + 1)));
                }
                assert(cs@.subrange(0, cs@.len() as int) == w@);
            },
            Token::Operand(k) => {
                match k {
                    Redirection::Stdout => {
                        acc.push('>');
                    },
                    Redirection::StdoutAppend => {
                        acc.push('>');
                        acc.push('>');
                    },
                    Redirection::Stderr => {
                        acc.push('2');
                        acc.push('>');
                    },
                    Redirection::StderrAppend => {
                        acc.push('2');
                        acc.push('>');
                        acc.push('>');
                    },
                }
                assert(acc@ == base + spelling(*k));
            },
        }
        proof {
            let pre = ts.subrange(0, i + 1);
            assert(pre.drop_last() == ts.subrange(0, i as int));
            assert(pre.last() == tokens@[i as int]@);
            if i == 0 {
                assert(base == Seq::<char>::empty());
                assert(acc@ == render(pre[0]));
            } else {
                assert(acc@ == before + seq![' '] + render(pre.last()));
            }
        }
    }
    assert(ts.subrange(0, n as int) == ts);
    string_of(&acc)
}

} // verus!
