//! The line editor: the state of one prompt under character-at-a-time input,
//! with backspace, end of input, submission and the tab-completion protocol.
use vstd::prelude::*;

use crate::completion::{candidates, get_partial_matches, lcp, longest_common_prefix};
use crate::text::{chars_from, chars_of, string_of, strings_view};
use crate::tokenizer::{is_blank, is_blank_char};

verus! {

/// The key that submits the line.
pub const KEY_ENTER: char = '\n';

/// The key that asks for completion.
pub const KEY_TAB: char = '\t';

/// The key that erases the character before the cursor.
pub const KEY_BACKSPACE: char = '\x7f';

/// End of transmission: leaves the shell.
pub const KEY_EOT: char = '\x04';

/// The editor state of one prompt.
pub struct Shell {
    /// The line typed so far.
    pub buffer: Vec<char>,
    /// Where the next character goes, from `0` to `buffer.len()`.
    pub cursor_pos: usize,
    /// The candidates of the last ambiguous completion.
    pub matches_cache: Vec<String>,
    /// A first Tab on an ambiguous word has rung the bell.
    pub in_multiple_opts_state: bool,
}

/// The mathematical value of a [`Shell`].
pub struct ShellView {
    pub buffer: Seq<char>,
    pub cursor: nat,
    pub cache: Seq<Seq<char>>,
    pub awaiting: bool,
}

impl View for Shell {
    type V = ShellView;

    open spec fn view(&self) -> ShellView {
        ShellView {
            buffer: self.buffer@,
            cursor: self.cursor_pos as nat,
            cache: strings_view(self.matches_cache@),
            awaiting: self.in_multiple_opts_state,
        }
    }
}

/// What the terminal must show, or what must happen, after a key.
#[derive(PartialEq, Eq, Clone, Debug)]
pub enum KeyEffect {
    /// Print this text at the cursor.
    Echo(String),
    /// Erase the character before the cursor on screen.
    Erase,
    /// Ring the bell.
    Bell,
    /// Print this line of candidates on a line of its own, then the prompt
    /// and the buffer again.
    ListCandidates(String),
    /// The line is complete: run it.
    Submit(String),
    /// Leave the shell with status 0.
    Exit,
    /// Tab was pressed: complete with the executables found on the path.
    Complete,
    /// Nothing to show.
    Nothing,
}

/// The mathematical value of a [`KeyEffect`].
pub enum EffectView {
    Echo(Seq<char>),
    Erase,
    Bell,
    ListCandidates(Seq<char>),
    Submit(Seq<char>),
    Exit,
    Complete,
    Nothing,
}

impl View for KeyEffect {
    type V = EffectView;

    open spec fn view(&self) -> EffectView {
        match self {
            KeyEffect::Echo(s) => EffectView::Echo(s@),
            KeyEffect::Erase => EffectView::Erase,
            KeyEffect::Bell => EffectView::Bell,
            KeyEffect::ListCandidates(s) => EffectView::ListCandidates(s@),
            KeyEffect::Submit(s) => EffectView::Submit(s@),
            KeyEffect::Exit => EffectView::Exit,
            KeyEffect::Complete => EffectView::Complete,
            KeyEffect::Nothing => EffectView::Nothing,
        }
    }
}

/// The state at the start of a prompt.
pub open spec fn fresh_view() -> ShellView {
    ShellView { buffer: seq![], cursor: 0, cache: seq![], awaiting: false }
}

impl ShellView {
    /// The cursor lies within the buffer.
    pub open spec fn wf(self) -> bool {
        self.cursor <= self.buffer.len()
    }
}

/// The characters after the last blank of `b`; all of `b` if it has none.
pub open spec fn last_word(b: Seq<char>) -> Seq<char>
    decreases b.len(),
{
    if b.len() == 0 {
        seq![]
    } else if is_blank(b.last()) {
        seq![]
    } else {
        last_word(b.drop_last()).push(b.last())
    }
}

/// The effect of one key; Tab only asks for completion.
pub open spec fn spec_key(sh: ShellView, c: char) -> (ShellView, EffectView) {
    if c == KEY_TAB {
        (sh, EffectView::Complete)
    } else if c == KEY_ENTER {
        (fresh_view(), EffectView::Submit(sh.buffer))
    } else if c == KEY_EOT {
        (sh, EffectView::Exit)
    } else if c == KEY_BACKSPACE {
        if sh.cursor > 0 {
            (
                ShellView {
                    buffer: sh.buffer.remove(sh.cursor - 1),
                    cursor: (sh.cursor - 1) as nat,
                    awaiting: false,
                    ..sh
                },
                EffectView::Erase,
            )
        } else {
            (ShellView { awaiting: false, ..sh }, EffectView::Nothing)
        }
    } else {
        (
            ShellView {
                buffer: sh.buffer.insert(sh.cursor as int, c),
                cursor: sh.cursor + 1,
                awaiting: false,
                ..sh
            },
            EffectView::Echo(seq![c]),
        )
    }
}

/// Candidates joined by two spaces.
pub open spec fn join_candidates(ms: Seq<Seq<char>>) -> Seq<char>
    decreases ms.len(),
{
    if ms.len() == 0 {
        seq![]
    } else if ms.len() == 1 {
        ms[0]
    } else {
        join_candidates(ms.drop_last()) + seq![' ', ' '] + ms.last()
    }
}

/// The effect of Tab on `sh` when `word` is being completed and `ms` are its
/// candidates.
///
/// None: bell. One: its remaining characters and a space are appended. More:
/// a common prefix longer than `word` is appended; otherwise the first such
/// Tab rings the bell and the second lists the candidates.
pub open spec fn spec_complete(sh: ShellView, word: Seq<char>, ms: Seq<Seq<char>>) -> (
    ShellView,
    EffectView,
) {
    if ms.len() == 0 {
        (ShellView { cache: seq![], awaiting: false, ..sh }, EffectView::Bell)
    } else if ms.len() == 1 {
        let ins = ms[0].subrange(word.len() as int, ms[0].len() as int).push(' ');
        (
            ShellView {
                buffer: sh.buffer + ins,
                cursor: sh.cursor + ins.len(),
                cache: seq![],
                awaiting: false,
            },
            EffectView::Echo(ins),
        )
    } else if lcp(ms).len() > word.len() {
        let ext = lcp(ms).subrange(word.len() as int, lcp(ms).len() as int);
        (
            ShellView {
                buffer: sh.buffer + ext,
                cursor: sh.cursor + ext.len(),
                cache: ms,
                awaiting: false,
            },
            EffectView::Echo(ext),
        )
    } else if !sh.awaiting {
        (ShellView { cache: ms, awaiting: true, ..sh }, EffectView::Bell)
    } else {
        (
            ShellView { cache: ms, awaiting: false, ..sh },
            EffectView::ListCandidates(join_candidates(ms)),
        )
    }
}

/// `last_word(b)` is what follows position `j` when no blank follows it and
/// the character before it, if any, is blank.
proof fn lemma_last_word(b: Seq<char>, j: int)
    requires
        0 <= j <= b.len(),
        forall|t: int| j <= t < b.len() ==> !is_blank(#[trigger] b[t]),
        j == 0 || is_blank(b[j - 1]),
    ensures
        last_word(b) == b.subrange(j, b.len() as int),
    decreases b.len(),
{
    if b.len() > j {
        lemma_last_word(b.drop_last(), j);
        assert(b.subrange(j, b.len() as int) == b.drop_last().subrange(j, b.len() - 1).push(
            b.last(),
        ));
    } else if b.len() > 0 {
        assert(b.last() == b[j - 1]);
    }
}

/// Appends the characters of `ext` to `v`.
fn extend_chars(v: &mut Vec<char>, ext: &Vec<char>)
    ensures
        final(v)@ == old(v)@ + ext@,
{
    for i in 0..ext.len()
        invariant
            v@ == old(v)@ + ext@.subrange(0, i as int),
    {
        v.push(ext[i]);
        assert(ext@.subrange(0, i + 1) == ext@.subrange(0, i as int).push(ext@[i as int]));
    }
    assert(ext@.subrange(0, ext@.len() as int) == ext@);
}

/// Candidates joined by two spaces.
pub fn candidates_line(ms: &Vec<String>) -> (r: String)
    ensures
        r@ == join_candidates(strings_view(ms@)),
{
    let ghost v = strings_view(ms@);
    let mut acc: Vec<char> = Vec::new();
    assert(v.subrange(0, 0).len() == 0);
    for i in 0..ms.len()
        invariant
            v == strings_view(ms@),
            acc@ == join_candidates(v.subrange(0, i as int)),
    {
        let ghost before = acc@;
        if i > 0 {
            acc.push(' ');
            acc.push(' ');
        }
        let cs = chars_of(ms[i].as_str());
        extend_chars(&mut acc, &cs);
        proof {
            let pre = v.subrange(0, i + 1);
            assert(pre.drop_last() == v.subrange(0, i as int));
            assert(pre.last() == cs@);
            if i == 0 {
                assert(acc@ == cs@);
            } else {
                assert(acc@ == before + seq![' ', ' '] + cs@);
            }
        }
    }
    assert(v.subrange(0, ms@.len() as int) == v);
    string_of(&acc)
}

impl Shell {
    /// The state at the start of a prompt: empty line, cursor at 0, no
    /// candidates, no bell pending.
    pub fn new() -> (r: Shell)
        ensures
            r@ == fresh_view(),
    {
        let r = Shell {
            buffer: Vec::new(),
            cursor_pos: 0,
            matches_cache: Vec::new(),
            in_multiple_opts_state: false,
        };
        assert(strings_view(r.matches_cache@) == Seq::<Seq<char>>::empty());
        r
    }

    /// The line typed so far.
    pub fn line(&self) -> (r: String)
        ensures
            r@ == self.buffer@,
    {
        string_of(&self.buffer)
    }

    /// The word being completed: what follows the last blank of the buffer.
    pub fn current_word(&self) -> (r: Vec<char>)
        ensures
            r@ == last_word(self.buffer@),
    {
        let mut j: usize = self.buffer.len();
        while j > 0 && !is_blank_char(self.buffer[j - 1])
            invariant
                j <= self.buffer@.len(),
                forall|t: int| j <= t < self.buffer@.len() ==> !is_blank(#[trigger] self.buffer@[t]),
            decreases j,
        {
            j = j - 1;
        }
        proof {
            lemma_last_word(self.buffer@, j as int);
        }
        chars_from(&self.buffer, j)
    }

    /// Handles one key. Tab only reports [`KeyEffect::Complete`]: the caller
    /// then lists the path executables and calls [`Shell::tab`].
    pub fn handle_key(&mut self, c: char) -> (e: KeyEffect)
        requires
            old(self)@.wf(),
        ensures
            final(self)@.wf(),
            (final(self)@, e@) == spec_key(old(self)@, c),
    {
        if c == KEY_TAB {
            KeyEffect::Complete
        } else if c == KEY_ENTER {
            let line = self.line();
            *self = Shell::new();
            KeyEffect::Submit(line)
        } else if c == KEY_EOT {
            KeyEffect::Exit
        } else if c == KEY_BACKSPACE {
            self.in_multiple_opts_state = false;
            if self.cursor_pos > 0 {
                self.buffer.remove(self.cursor_pos - 1);
                self.cursor_pos = self.cursor_pos - 1;
                KeyEffect::Erase
            } else {
                KeyEffect::Nothing
            }
        } else {
            self.in_multiple_opts_state = false;
            self.buffer.insert(self.cursor_pos, c);
            let n = self.buffer.len();
            assert(self.cursor_pos < n);
            self.cursor_pos = self.cursor_pos + 1;
            let mut shown: Vec<char> = Vec::new();
            shown.push(c);
            assert(shown@ == seq![c]);
            KeyEffect::Echo(string_of(&shown))
        }
    }

    /// Appends `ext` to the buffer and moves the cursor past as many
    /// characters.
    fn append(&mut self, ext: &Vec<char>)
        requires
            old(self)@.wf(),
        ensures
            final(self).buffer@ == old(self).buffer@ + ext@,
            final(self).cursor_pos == old(self).cursor_pos + ext@.len(),
            final(self).matches_cache == old(self).matches_cache,
            final(self).in_multiple_opts_state == old(self).in_multiple_opts_state,
    {
        extend_chars(&mut self.buffer, ext);
        let n = self.buffer.len();
        assert(self.cursor_pos + ext@.len() <= n);
        self.cursor_pos = self.cursor_pos + ext.len();
    }

    /// Completes `word` given its candidates `matches`.
    fn process_matches(&mut self, word: &Vec<char>, matches: Vec<String>) -> (e: KeyEffect)
        requires
            old(self)@.wf(),
            forall|i: int|
                0 <= i < matches@.len() ==> word@.is_prefix_of(#[trigger] matches@[i]@),
        ensures
            final(self)@.wf(),
            (final(self)@, e@) == spec_complete(old(self)@, word@, strings_view(matches@)),
    {
        let ghost ms = strings_view(matches@);
        if matches.len() == 0 {
            self.matches_cache = Vec::new();
            self.in_multiple_opts_state = false;
            assert(strings_view(self.matches_cache@) == Seq::<Seq<char>>::empty());
            KeyEffect::Bell
        } else if matches.len() == 1 {
            assert(word@.is_prefix_of(matches@[0]@));
            let m = chars_of(matches[0].as_str());
            let mut ins = chars_from(&m, word.len());
            ins.push(' ');
            self.append(&ins);
            self.matches_cache = Vec::new();
            self.in_multiple_opts_state = false;
            assert(strings_view(self.matches_cache@) == Seq::<Seq<char>>::empty());
            KeyEffect::Echo(string_of(&ins))
        } else {
            let prefix = chars_of(longest_common_prefix(matches.as_slice()).as_str());
            if prefix.len() > word.len() {
                let ext = chars_from(&prefix, word.len());
                self.append(&ext);
                self.matches_cache = matches;
                self.in_multiple_opts_state = false;
                KeyEffect::Echo(string_of(&ext))
            } else if !self.in_multiple_opts_state {
                self.matches_cache = matches;
                self.in_multiple_opts_state = true;
                KeyEffect::Bell
            } else {
                let listing = candidates_line(&matches);
                self.matches_cache = matches;
                self.in_multiple_opts_state = false;
                KeyEffect::ListCandidates(listing)
            }
        }
    }

    /// Handles Tab, given the names of the executables on the path: the word
    /// after the last blank is completed against those names and the
    /// builtins.
    pub fn tab(&mut self, path_names: &Vec<String>) -> (e: KeyEffect)
        requires
            old(self)@.wf(),
        ensures
            final(self)@.wf(),
            (final(self)@, e@) == spec_complete(
                old(self)@,
                last_word(old(self).buffer@),
                candidates(last_word(old(self).buffer@), strings_view(path_names@)),
            ),
    {
        let word = self.current_word();
        let matches = get_partial_matches(string_of(&word).as_str(), path_names);
        proof {
            let ms = strings_view(matches@);
            assert forall|i: int| 0 <= i < matches@.len() implies word@.is_prefix_of(
                #[trigger] matches@[i]@,
            ) by {
                assert(ms.contains(ms[i]));
            }
        }
        self.process_matches(&word, matches)
    }
}

} // verus!
