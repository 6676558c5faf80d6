//! The commands that the shell runs itself.
use vstd::prelude::*;

use crate::exec::{ExecError, Redirect, RedirectView, redirect_view, redirects, spec_redirects};
use crate::parser::{Command, CommandView};
use crate::text::{chars_of, same_chars, string_of, strings_view};

verus! {

/// A command implemented inside the shell.
#[derive(PartialEq, Eq, Structural, Clone, Copy, Debug)]
pub enum Builtin {
    Exit,
    Echo,
    Type,
    Pwd,
    Cd,
}

/// The name under which a builtin is invoked.
pub open spec fn builtin_name(b: Builtin) -> Seq<char> {
    match b {
        Builtin::Exit => seq!['e', 'x', 'i', 't'],
        Builtin::Echo => seq!['e', 'c', 'h', 'o'],
        Builtin::Type => seq!['t', 'y', 'p', 'e'],
        Builtin::Pwd => seq!['p', 'w', 'd'],
        Builtin::Cd => seq!['c', 'd'],
    }
}

/// Every builtin, in a fixed order.
pub open spec fn all_builtins() -> Seq<Builtin> {
    seq![Builtin::Exit, Builtin::Echo, Builtin::Type, Builtin::Pwd, Builtin::Cd]
}

/// The names of every builtin, in the same order.
pub open spec fn builtin_names() -> Seq<Seq<char>> {
    all_builtins().map_values(|b: Builtin| builtin_name(b))
}

/// The builtin invoked by `name`, if any.
pub open spec fn spec_builtin_of(name: Seq<char>) -> Option<Builtin> {
    if name == builtin_name(Builtin::Exit) {
        Some(Builtin::Exit)
    } else if name == builtin_name(Builtin::Echo) {
        Some(Builtin::Echo)
    } else if name == builtin_name(Builtin::Type) {
        Some(Builtin::Type)
    } else if name == builtin_name(Builtin::Pwd) {
        Some(Builtin::Pwd)
    } else if name == builtin_name(Builtin::Cd) {
        Some(Builtin::Cd)
    } else {
        None
    }
}

/// Whether `name` is the name of a builtin.
pub open spec fn is_builtin_name(name: Seq<char>) -> bool {
    spec_builtin_of(name) is Some
}

impl Builtin {
    /// The characters of the builtin's name.
    pub fn name_chars(&self) -> (r: Vec<char>)
        ensures
            r@ == builtin_name(*self),
    {
        let r = match self {
            Builtin::Exit => vec!['e', 'x', 'i', 't'],
            Builtin::Echo => vec!['e', 'c', 'h', 'o'],
            Builtin::Type => vec!['t', 'y', 'p', 'e'],
            Builtin::Pwd => vec!['p', 'w', 'd'],
            Builtin::Cd => vec!['c', 'd'],
        };
        assert(r@ == builtin_name(*self));
        r
    }

    /// The builtin's name.
    pub fn name(&self) -> (r: String)
        ensures
            r@ == builtin_name(*self),
    {
        string_of(&self.name_chars())
    }
}

/// Every builtin, in a fixed order.
pub fn builtin_list() -> (r: Vec<Builtin>)
    ensures
        r@ == all_builtins(),
{
    let r = vec![Builtin::Exit, Builtin::Echo, Builtin::Type, Builtin::Pwd, Builtin::Cd];
    assert(r@ == all_builtins());
    r
}

/// Looks a command name up in the builtin table.
pub fn builtin_of(name: &str) -> (r: Option<Builtin>)
    ensures
        r == spec_builtin_of(name@),
{
    let cs = chars_of(name);
    let list = builtin_list();
    for i in 0..list.len()
        invariant
            list@ == all_builtins(),
            cs@ == name@,
            forall|k: int| 0 <= k < i ==> builtin_name(#[trigger] list@[k]) != name@,
    {
        let b = list[i];
        if same_chars(&cs, &b.name_chars()) {
            assert(forall|k: int| 0 <= k < i ==> builtin_name(#[trigger] list@[k]) != name@);
            return Some(b);
        }
    }
    assert(forall|k: int| 0 <= k < 5 ==> builtin_name(#[trigger] list@[k]) != name@);
    None
}

/// Whether every character of `s` is an ASCII digit.
pub open spec fn all_digits(s: Seq<char>) -> bool {
    forall|i: int| 0 <= i < s.len() ==> '0' <= #[trigger] s[i] <= '9'
}

/// The value of a string of decimal digits.
pub open spec fn digits_value(s: Seq<char>) -> int
    decreases s.len(),
{
    if s.len() == 0 {
        0
    } else {
        digits_value(s.drop_last()) * 10 + (s.last() as int - '0' as int)
    }
}

/// The `i32` that `s` writes in decimal: an optional `+` or `-`, then one or
/// more digits, within range.
pub open spec fn spec_parse_i32(s: Seq<char>) -> Option<i32> {
    let signed = s.len() > 0 && (s[0] == '-' || s[0] == '+');
    let body = if signed {
        s.drop_first()
    } else {
        s
    };
    let v = if s.len() > 0 && s[0] == '-' {
        -digits_value(body)
    } else {
        digits_value(body)
    };
    if body.len() == 0 || !all_digits(body) {
        None
    } else if i32::MIN <= v <= i32::MAX {
        Some(v as i32)
    } else {
        None
    }
}

proof fn lemma_digits_value_nonneg(s: Seq<char>)
    requires
        all_digits(s),
    ensures
        digits_value(s) >= 0,
    decreases s.len(),
{
    if s.len() > 0 {
        assert(all_digits(s.drop_last()));
        assert('0' <= s[s.len() - 1] <= '9');
        lemma_digits_value_nonneg(s.drop_last());
    }
}

/// The exit status that `s` writes in decimal, if it is a valid `i32`.
pub fn parse_exit_code(s: &str) -> (r: Option<i32>)
    ensures
        r == spec_parse_i32(s@),
{
    let cs = chars_of(s);
    let n = cs.len();
    let negative = n > 0 && cs[0] == '-';
    let start: usize = if n > 0 && (cs[0] == '-' || cs[0] == '+') {
        1
    } else {
        0
    };
    let ghost body = if start == 1 {
        cs@.drop_first()
    } else {
        cs@
    };
    assert(body == cs@.subrange(start as int, n as int));
    if start == n {
        return None;
    }
    let limit: u64 = 2147483648;
    let mut acc: u64 = 0;
    let mut too_big = false;
    let mut i: usize = start;
    assert(body.subrange(0, 0).len() == 0);
    while i < n
        invariant
            start <= i <= n,
            n == cs@.len(),
            cs@ == s@,
            start <= 1,
            (start == 1) == (n > 0 && (cs@[0] == '-' || cs@[0] == '+')),
            body == (if start == 1 {
                cs@.drop_first()
            } else {
                cs@
            }),
            body == cs@.subrange(start as int, n as int),
            all_digits(body.subrange(0, i - start)),
            !too_big ==> acc == digits_value(body.subrange(0, i - start)),
            !too_big ==> acc <= limit,
            too_big ==> digits_value(body.subrange(0, i - start)) > limit,
            limit == 2147483648,
        decreases n - i,
    {
        let c = cs[i];
        let ghost pre = body.subrange(0, i - start);
        let ghost now = body.subrange(0, i + 1 - start);
        assert(now.drop_last() == pre);
        assert(now.last() == c);
        if !('0' <= c && c <= '9') {
            assert(!all_digits(body)) by {
                assert(body[i - start] == c);
            }
            return None;
        }
        assert(all_digits(now)) by {
            assert forall|t: int| 0 <= t < now.len() implies '0' <= #[trigger] now[t] <= '9' by {
                if t < pre.len() {
                    assert(now[t] == pre[t]);
                }
            }
        }
        proof {
            lemma_digits_value_nonneg(pre);
        }
        if !too_big {
            let d = (c as u32 - '0' as u32) as u64;
            acc = acc * 10 + d;
            if acc > limit {
                too_big = true;
            }
        }
        i = i + 1;
    }
    assert(body.subrange(0, n - start) == body);
    if too_big {
        return None;
    }
    if negative {
        Some((0 - acc as i64) as i32)
    } else if acc <= 2147483647 {
        Some(acc as i32)
    } else {
        None
    }
}

/// What `exit` does.
#[derive(PartialEq, Eq, Clone, Debug)]
pub enum ExitOutcome {
    /// Leave the shell with this status.
    Terminate(i32),
    /// The single argument is not a valid status: report it and stay.
    InvalidCode(String),
}

/// The effect of `exit` with these arguments: status 0 unless there is
/// exactly one, which then must be a valid `i32`.
pub open spec fn spec_exit(args: Seq<Seq<char>>) -> (Option<i32>, Option<Seq<char>>) {
    if args.len() != 1 {
        (Some(0i32), None)
    } else {
        match spec_parse_i32(args[0]) {
            Some(v) => (Some(v), None),
            None => (None, Some(args[0])),
        }
    }
}

/// `o` is what `exit` does with `args`.
pub open spec fn exit_ok(args: Seq<Seq<char>>, o: ExitOutcome) -> bool {
    match o {
        ExitOutcome::Terminate(v) => spec_exit(args) == (Some(v), None::<Seq<char>>),
        ExitOutcome::InvalidCode(s) => spec_exit(args) == (None::<i32>, Some(s@)),
    }
}

/// The effect of `exit`: with exactly one argument, that argument as an
/// `i32` status, or the invalid argument to report without leaving; with
/// none or several, status 0.
pub fn builtin_exit(args: &Vec<String>) -> (r: ExitOutcome)
    ensures
        exit_ok(strings_view(args@), r),
{
    if args.len() != 1 {
        return ExitOutcome::Terminate(0);
    }
    match parse_exit_code(args[0].as_str()) {
        Some(v) => ExitOutcome::Terminate(v),
        None => ExitOutcome::InvalidCode(args[0].clone()),
    }
}

/// Words joined by single spaces.
pub open spec fn join_words(ws: Seq<Seq<char>>) -> Seq<char>
    decreases ws.len(),
{
    if ws.len() == 0 {
        seq![]
    } else if ws.len() == 1 {
        ws[0]
    } else {
        join_words(ws.drop_last()) + seq![' '] + ws.last()
    }
}

/// What `echo` writes, and where.
#[derive(PartialEq, Eq, Clone, Debug)]
pub struct EchoOutput {
    /// The arguments joined by single spaces, and a newline.
    pub text: String,
    /// The file that receives `text` instead of the terminal.
    pub stdout: Option<Redirect>,
    /// The file that is opened (created, truncated or appended to) but
    /// receives nothing.
    pub stderr: Option<Redirect>,
}

/// `r` is what `echo` does for command `c`.
pub open spec fn echo_ok(c: CommandView, r: Result<EchoOutput, ExecError>) -> bool {
    match r {
        Ok(o) => {
            &&& o.text@ == join_words(c.args).push('\n')
            &&& spec_redirects(c) == Ok::<(Option<RedirectView>, Option<RedirectView>), ExecError>(
                (redirect_view(o.stdout), redirect_view(o.stderr)),
            )
        },
        Err(e) => spec_redirects(c) == Err::<
            (Option<RedirectView>, Option<RedirectView>),
            ExecError,
        >(e),
    }
}

/// The arguments joined by single spaces, with a newline.
pub fn echo_line(args: &Vec<String>) -> (r: String)
    ensures
        r@ == join_words(strings_view(args@)).push('\n'),
{
    let ghost ws = strings_view(args@);
    let mut acc: Vec<char> = Vec::new();
    assert(ws.subrange(0, 0).len() == 0);
    for i in 0..args.len()
        invariant
            ws == strings_view(args@),
            acc@ == join_words(ws.subrange(0, i as int)),
    {
        let ghost before = acc@;
        if i > 0 {
            acc.push(' ');
        }
        let ghost base = acc@;
        let cs = chars_of(args[i].as_str());
        for j in 0..cs.len()
            invariant
                acc@ == base + cs@.subrange(0, j as int),
        {
            acc.push(cs[j]);
            assert(cs@.subrange(0, j + 1) == cs@.subrange(0, j as int).push(cs@[j as int]));
        }
        proof {
            assert(cs@.subrange(0, cs@.len() as int) == cs@);
            let pre = ws.subrange(0, i + 1);
            assert(pre.drop_last() == ws.subrange(0, i as int));
            assert(pre.last() == cs@);
            if i == 0 {
                assert(base + cs@ == cs@);
            }
        }
    }
    assert(ws.subrange(0, args@.len() as int) == ws);
    acc.push('\n');
    string_of(&acc)
}

/// What `echo` does: the line to write, the file it goes to instead of the
/// terminal if stdout is redirected, and the file opened if stderr is.
pub fn builtin_echo(cmd: &Command) -> (r: Result<EchoOutput, ExecError>)
    ensures
        echo_ok(cmd@, r),
{
    let (stdout, stderr) = match redirects(cmd) {
        Ok(p) => p,
        Err(e) => {
            return Err(e);
        },
    };
    Ok(EchoOutput { text: echo_line(&cmd.args), stdout, stderr })
}

/// What `type` reports for one name, or for none.
#[derive(PartialEq, Eq, Clone, Debug)]
pub enum TypeReport {
    /// `type` was given no name.
    MissingArgument,
    /// This name is a builtin.
    Builtin(String),
    /// This name is not a builtin: look it up on the search path.
    Search(String),
}

/// `t` is what `type` reports for `a`.
pub open spec fn type_entry_ok(a: Seq<char>, t: TypeReport) -> bool {
    match t {
        TypeReport::MissingArgument => false,
        TypeReport::Builtin(s) => s@ == a && is_builtin_name(a),
        TypeReport::Search(s) => s@ == a && !is_builtin_name(a),
    }
}

/// `v` is what `type` reports for `args`.
pub open spec fn type_ok(args: Seq<Seq<char>>, v: Seq<TypeReport>) -> bool {
    if args.len() == 0 {
        v == seq![TypeReport::MissingArgument]
    } else {
        &&& v.len() == args.len()
        &&& forall|i: int| 0 <= i < args.len() ==> type_entry_ok(args[i], #[trigger] v[i])
    }
}

/// What `type` reports: for each name, whether it is a builtin or must be
/// looked up on the search path.
pub fn builtin_type(args: &Vec<String>) -> (r: Vec<TypeReport>)
    ensures
        type_ok(strings_view(args@), r@),
{
    let mut r: Vec<TypeReport> = Vec::new();
    if args.len() == 0 {
        r.push(TypeReport::MissingArgument);
        assert(r@ == seq![TypeReport::MissingArgument]);
        return r;
    }
    for i in 0..args.len()
        invariant
            r@.len() == i,
            forall|k: int| 0 <= k < i ==> type_entry_ok(args@[k]@, #[trigger] r@[k]),
    {
        let name = args[i].clone();
        if builtin_of(name.as_str()).is_some() {
            r.push(TypeReport::Builtin(name));
        } else {
            r.push(TypeReport::Search(name));
        }
    }
    r
}

/// What `cd` does.
#[derive(PartialEq, Eq, Clone, Debug)]
pub enum CdOutcome {
    /// Change to this directory.
    Change(String),
    /// More than one argument was given.
    TooManyArguments,
}

/// `arg` with a leading `~` replaced by `home`.
pub open spec fn expand_home(arg: Seq<char>, home: Seq<char>) -> Seq<char> {
    if arg.len() > 0 && arg[0] == '~' {
        home + arg.drop_first()
    } else {
        arg
    }
}

/// `o` is what `cd` does with `args`, `home` being the home directory.
pub open spec fn cd_ok(args: Seq<Seq<char>>, home: Seq<char>, o: CdOutcome) -> bool {
    if args.len() > 1 {
        o == CdOutcome::TooManyArguments
    } else if args.len() == 0 {
        o matches CdOutcome::Change(p) && p@ == home
    } else {
        o matches CdOutcome::Change(p) && p@ == expand_home(args[0], home)
    }
}

/// What `cd` does: no argument goes home, one goes to that directory with a
/// leading `~` standing for home, more are refused.
pub fn builtin_cd(args: &Vec<String>, home: &str) -> (r: CdOutcome)
    ensures
        cd_ok(strings_view(args@), home@, r),
{
    if args.len() > 1 {
        return CdOutcome::TooManyArguments;
    }
    let h = chars_of(home);
    if args.len() == 0 {
        return CdOutcome::Change(string_of(&h));
    }
    let a = chars_of(args[0].as_str());
    if a.len() > 0 && a[0] == '~' {
        let mut p = h;
        for j in 1..a.len()
            invariant
                1 <= a@.len(),
                p@ == home@ + a@.subrange(1, j as int),
        {
            p.push(a[j]);
            assert(a@.subrange(1, j + 1) == a@.subrange(1, j as int).push(a@[j as int]));
        }
        assert(a@.subrange(1, a@.len() as int) == a@.drop_first());
        CdOutcome::Change(string_of(&p))
    } else {
        CdOutcome::Change(string_of(&a))
    }
}

} // verus!
