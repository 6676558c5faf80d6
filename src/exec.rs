//! Decides what a parsed command does: which builtin runs with which
//! arguments and output files, or which external program is looked up and
//! how its streams are redirected. Running it is left to the caller.
use vstd::prelude::*;

use crate::builtins::{
    Builtin, CdOutcome, EchoOutput, ExitOutcome, TypeReport, builtin_cd, builtin_echo, builtin_exit,
    builtin_of, builtin_type, cd_ok, echo_ok, exit_ok, spec_builtin_of, type_ok,
};
use crate::parser::{Command, CommandView, ParseError, Stream, opt_view, parse, spec_parse, stream_of};
use crate::text::{chars_of, string_of, strings_view};
use crate::tokenizer::{Redirection, TokenizeError, spec_tokenize, tokenize, tokens_view};

verus! {

/// Where a redirected stream goes: the target file, and whether it is
/// appended to rather than truncated.
#[derive(PartialEq, Eq, Clone, Debug)]
pub struct Redirect {
    pub path: String,
    pub append: bool,
}

/// The mathematical value of a [`Redirect`].
pub struct RedirectView {
    pub path: Seq<char>,
    pub append: bool,
}

impl View for Redirect {
    type V = RedirectView;

    open spec fn view(&self) -> RedirectView {
        RedirectView { path: self.path@, append: self.append }
    }
}

/// The value of an optional redirect.
pub open spec fn redirect_view(r: Option<Redirect>) -> Option<RedirectView> {
    match r {
        Some(x) => Some(x@),
        None => None,
    }
}

/// Why a command cannot be run.
#[derive(PartialEq, Eq, Structural, Clone, Copy, Debug)]
pub enum ExecError {
    /// The stream's redirection names an operator of the other stream, or
    /// has no target.
    UnsupportedRedirection(Stream),
}

/// Whether an operator appends to its target.
pub open spec fn is_append(k: Redirection) -> bool {
    k == Redirection::StdoutAppend || k == Redirection::StderrAppend
}

/// Where stream `s` goes, given its recorded operator and target.
pub open spec fn spec_redirect(kind: Option<Redirection>, target: Option<Seq<char>>, s: Stream) -> Result<
    Option<RedirectView>,
    ExecError,
> {
    match kind {
        None => Ok(None),
        Some(k) => if stream_of(k) == s && target is Some {
            Ok(Some(RedirectView { path: target->0, append: is_append(k) }))
        } else {
            Err(ExecError::UnsupportedRedirection(s))
        },
    }
}

/// Where stdout and stderr of a command go.
pub open spec fn spec_redirects(c: CommandView) -> Result<
    (Option<RedirectView>, Option<RedirectView>),
    ExecError,
> {
    match spec_redirect(c.redirection, c.redirection_target, Stream::Stdout) {
        Err(e) => Err(e),
        Ok(out) => match spec_redirect(
            c.stderr_redirection,
            c.stderr_redirection_target,
            Stream::Stderr,
        ) {
            Err(e) => Err(e),
            Ok(err) => Ok((out, err)),
        },
    }
}

/// A well-formed command has supported redirections.
pub proof fn lemma_well_formed_redirects(c: CommandView)
    requires
        c.well_formed(),
    ensures
        spec_redirects(c) is Ok,
{
}

/// Where stream `s` goes, given its recorded operator and target.
fn stream_redirect(kind: Option<Redirection>, target: &Option<String>, s: Stream) -> (r: Result<
    Option<Redirect>,
    ExecError,
>)
    ensures
        match r {
            Ok(o) => spec_redirect(kind, opt_view(*target), s) == Ok::<
                Option<RedirectView>,
                ExecError,
            >(redirect_view(o)),
            Err(e) => spec_redirect(kind, opt_view(*target), s) == Err::<
                Option<RedirectView>,
                ExecError,
            >(e),
        },
{
    match kind {
        None => Ok(None),
        Some(k) => {
            let own = match (k, s) {
                (Redirection::Stdout, Stream::Stdout) | (Redirection::StdoutAppend, Stream::Stdout)
                | (Redirection::Stderr, Stream::Stderr) | (
                    Redirection::StderrAppend,
                    Stream::Stderr,
                ) => true,
                _ => false,
            };
            match target {
                Some(t) if own => {
                    let append = match k {
                        Redirection::StdoutAppend | Redirection::StderrAppend => true,
                        _ => false,
                    };
                    Ok(Some(Redirect { path: t.clone(), append }))
                },
                _ => Err(ExecError::UnsupportedRedirection(s)),
            }
        },
    }
}

/// Where stdout and stderr of `cmd` go.
pub fn redirects(cmd: &Command) -> (r: Result<(Option<Redirect>, Option<Redirect>), ExecError>)
    ensures
        match r {
            Ok((o, e)) => spec_redirects(cmd@) == Ok::<
                (Option<RedirectView>, Option<RedirectView>),
                ExecError,
            >((redirect_view(o), redirect_view(e))),
            Err(e) => spec_redirects(cmd@) == Err::<
                (Option<RedirectView>, Option<RedirectView>),
                ExecError,
            >(e),
        },
{
    let out = stream_redirect(cmd.redirection, &cmd.redirection_target, Stream::Stdout)?;
    let err = stream_redirect(
        cmd.stderr_redirection,
        &cmd.stderr_redirection_target,
        Stream::Stderr,
    )?;
    Ok((out, err))
}

/// The segments of `s` between colons, empty ones included.
pub open spec fn split_colon(s: Seq<char>) -> Seq<Seq<char>>
    decreases s.len(),
{
    if s.len() == 0 {
        seq![seq![]]
    } else if s.last() == ':' {
        split_colon(s.drop_last()).push(seq![])
    } else {
        let p = split_colon(s.drop_last());
        p.update(p.len() - 1, p.last().push(s.last()))
    }
}

proof fn lemma_split_colon_nonempty(s: Seq<char>)
    ensures
        split_colon(s).len() >= 1,
    decreases s.len(),
{
    if s.len() > 0 {
        lemma_split_colon_nonempty(s.drop_last());
    }
}

/// The directories of a colon-separated search path, in order.
pub fn split_path_list(path_var: &str) -> (r: Vec<String>)
    ensures
        strings_view(r@) == split_colon(path_var@),
{
    let cs = chars_of(path_var);
    let mut done: Vec<String> = Vec::new();
    let mut cur: Vec<char> = Vec::new();
    assert(cs@.subrange(0, 0).len() == 0);
    assert(strings_view(done@).push(cur@) == seq![Seq::<char>::empty()]);
    for i in 0..cs.len()
        invariant
            strings_view(done@).push(cur@) == split_colon(cs@.subrange(0, i as int)),
    {
        let ghost pre = cs@.subrange(0, i as int);
        let ghost now = cs@.subrange(0, i + 1);
        assert(now.drop_last() == pre);
        assert(now.last() == cs@[i as int]);
        proof {
            lemma_split_colon_nonempty(pre);
        }
        if cs[i] == ':' {
            let ghost before = strings_view(done@);
            let seg = string_of(&cur);
            done.push(seg);
            cur = Vec::new();
            assert(strings_view(done@) == before.push(seg@));
        } else {
            let ghost before = strings_view(done@).push(cur@);
            cur.push(cs[i]);
            assert(strings_view(done@).push(cur@) == before.update(
                before.len() - 1,
                before.last().push(cs@[i as int]),
            ));
        }
    }
    assert(cs@.subrange(0, cs@.len() as int) == path_var@);
    let ghost before = strings_view(done@);
    let seg = string_of(&cur);
    done.push(seg);
    assert(strings_view(done@) == before.push(seg@));
    done
}

/// The path at which `name` is looked for in directory `dir`: an absolute
/// name stands for itself, an empty directory is the current one.
pub open spec fn join_dir(dir: Seq<char>, name: Seq<char>) -> Seq<char> {
    if name.len() > 0 && name[0] == '/' {
        name
    } else if dir.len() == 0 {
        name
    } else if dir.last() == '/' {
        dir + name
    } else {
        dir + seq!['/'] + name
    }
}

/// The paths at which `name` is looked for, one per directory of the search
/// path, in order: the first that exists is the one used.
pub fn search_candidates(path_var: &str, name: &str) -> (r: Vec<String>)
    ensures
        strings_view(r@) == split_colon(path_var@).map_values(|d: Seq<char>| join_dir(d, name@)),
{
    let dirs = split_path_list(path_var);
    let n = chars_of(name);
    let ghost ds = strings_view(dirs@);
    let ghost want = ds.map_values(|d: Seq<char>| join_dir(d, name@));
    let mut r: Vec<String> = Vec::new();
    assert(strings_view(r@) == want.subrange(0, 0));
    for i in 0..dirs.len()
        invariant
            ds == strings_view(dirs@),
            n@ == name@,
            want == ds.map_values(|d: Seq<char>| join_dir(d, name@)),
            strings_view(r@) == want.subrange(0, i as int),
    {
        let d = chars_of(dirs[i].as_str());
        let mut p: Vec<char> = Vec::new();
        if n.len() > 0 && n[0] == '/' {
        } else if d.len() == 0 {
        } else {
            for j in 0..d.len()
                invariant
                    p@ == d@.subrange(0, j as int),
            {
                p.push(d[j]);
                assert(d@.subrange(0, j + 1) == d@.subrange(0, j as int).push(d@[j as int]));
            }
            assert(d@.subrange(0, d@.len() as int) == d@);
            if d[d.len() - 1] != '/' {
                p.push('/');
            }
        }
        let ghost base = p@;
        for j in 0..n.len()
            invariant
                p@ == base + n@.subrange(0, j as int),
        {
            p.push(n[j]);
            assert(n@.subrange(0, j + 1) == n@.subrange(0, j as int).push(n@[j as int]));
        }
        assert(n@.subrange(0, n@.len() as int) == n@);
        assert(p@ == join_dir(ds[i as int], name@)) by {
            assert(d@ == ds[i as int]);
            if base.len() == 0 {
                assert(base + n@ == n@);
            }
        }
        let ghost before = strings_view(r@);
        r.push(string_of(&p));
        assert(strings_view(r@) == before.push(p@));
        assert(want.subrange(0, i + 1) == want.subrange(0, i as int).push(want[i as int]));
    }
    assert(want.subrange(0, dirs@.len() as int) == want);
    r
}

/// An external program to run: its name, its arguments and where its
/// output streams go.
#[derive(PartialEq, Eq, Clone, Debug)]
pub struct ExternalRun {
    pub name: String,
    pub args: Vec<String>,
    pub stdout: Option<Redirect>,
    pub stderr: Option<Redirect>,
}

/// What a command line does.
#[derive(PartialEq, Eq, Clone, Debug)]
pub enum Action {
    /// The line names no command.
    Nothing,
    Exit(ExitOutcome),
    Echo(EchoOutput),
    Type(Vec<TypeReport>),
    Pwd,
    Cd(CdOutcome),
    /// Look the program up on the search path and run it; when it is not
    /// found, report it and take status 127.
    Run(ExternalRun),
}

/// `a` is what `c` does, `home` being the home directory.
pub open spec fn action_ok(c: CommandView, home: Seq<char>, r: Result<Action, ExecError>) -> bool {
    if c.name.len() == 0 {
        r == Ok::<Action, ExecError>(Action::Nothing)
    } else {
        match spec_builtin_of(c.name) {
            Some(Builtin::Exit) => r matches Ok(Action::Exit(o)) && exit_ok(c.args, o),
            Some(Builtin::Echo) => match r {
                Ok(Action::Echo(o)) => echo_ok(c, Ok::<EchoOutput, ExecError>(o)),
                Err(e) => echo_ok(c, Err::<EchoOutput, ExecError>(e)),
                _ => false,
            },
            Some(Builtin::Type) => r matches Ok(Action::Type(v)) && type_ok(c.args, v@),
            Some(Builtin::Pwd) => r == Ok::<Action, ExecError>(Action::Pwd),
            Some(Builtin::Cd) => r matches Ok(Action::Cd(o)) && cd_ok(c.args, home, o),
            None => match r {
                Ok(Action::Run(x)) => {
                    &&& x.name@ == c.name
                    &&& strings_view(x.args@) == c.args
                    &&& spec_redirects(c) == Ok::<
                        (Option<RedirectView>, Option<RedirectView>),
                        ExecError,
                    >((redirect_view(x.stdout), redirect_view(x.stderr)))
                },
                Err(e) => spec_redirects(c) == Err::<
                    (Option<RedirectView>, Option<RedirectView>),
                    ExecError,
                >(e),
                _ => false,
            },
        }
    }
}

/// Decides what `cmd` does. Builtins come first; `echo` writes to its
/// redirections, the other builtins ignore them. Any other name is an
/// external program, whose redirections must be supported.
pub fn exec(cmd: Command, home: &str) -> (r: Result<Action, ExecError>)
    ensures
        action_ok(cmd@, home@, r),
{
    if cmd.name.as_str().is_empty() {
        return Ok(Action::Nothing);
    }
    match builtin_of(cmd.name.as_str()) {
        Some(Builtin::Exit) => Ok(Action::Exit(builtin_exit(&cmd.args))),
        Some(Builtin::Echo) => match builtin_echo(&cmd) {
            Ok(o) => Ok(Action::Echo(o)),
            Err(e) => Err(e),
        },
        Some(Builtin::Type) => Ok(Action::Type(builtin_type(&cmd.args))),
        Some(Builtin::Pwd) => Ok(Action::Pwd),
        Some(Builtin::Cd) => Ok(Action::Cd(builtin_cd(&cmd.args, home))),
        None => {
            let (stdout, stderr) = match redirects(&cmd) {
                Ok(p) => p,
                Err(e) => {
                    return Err(e);
                },
            };
            Ok(Action::Run(ExternalRun { name: cmd.name, args: cmd.args, stdout, stderr }))
        },
    }
}

/// Why a submitted line was not run.
#[derive(PartialEq, Eq, Structural, Clone, Copy, Debug)]
pub enum LineError {
    Tokenize(TokenizeError),
    Parse(ParseError),
    Exec(ExecError),
}

/// What a submitted line does: it is split into tokens, parsed, and the
/// command is dispatched; the first stage that fails gives the error. A
/// parsed command always has supported redirections, so dispatch does not
/// fail.
pub fn process_command(line: String, home: &str) -> (r: Result<Action, LineError>)
    ensures
        match spec_tokenize(line@) {
            Err(e) => r == Err::<Action, LineError>(LineError::Tokenize(e)),
            Ok(ts) => match spec_parse(ts) {
                Err(e) => r == Err::<Action, LineError>(LineError::Parse(e)),
                Ok(c) => r matches Ok(a) && action_ok(c, home@, Ok::<Action, ExecError>(a)),
            },
        },
{
    let tokens = match tokenize(line) {
        Ok(t) => t,
        Err(e) => {
            return Err(LineError::Tokenize(e));
        },
    };
    let ghost ts = tokens_view(tokens@);
    let cmd = match parse(tokens) {
        Ok(c) => c,
        Err(e) => {
            return Err(LineError::Parse(e));
        },
    };
    proof {
        lemma_well_formed_redirects(cmd@);
    }
    match exec(cmd, home) {
        Ok(a) => Ok(a),
        Err(e) => Err(LineError::Exec(e)),
    }
}

} // verus!
