//! The backend runner as a value, the echo of a command line, and the errors made from a
//! failed command's diagnostics.
use vstd::prelude::*;
use crate::error::AppError;
use crate::repo::RepoContext;
use crate::text::{chars_of, is_white_space, is_white_space_char, join, join_strings, trim, trimmed, views};

verus! {

/// Runs the backend for one repository.
#[derive(Debug)]
pub struct GitRunner {
    repo: RepoContext,
}

impl GitRunner {
    pub closed spec fn spec_repo(&self) -> RepoContext {
        self.repo
    }

    pub fn new(repo: RepoContext) -> (r: GitRunner)
        ensures
            r.spec_repo() == repo,
    {
        GitRunner { repo }
    }

    pub fn repo(&self) -> (r: &RepoContext)
        ensures
            *r == self.spec_repo(),
    {
        &self.repo
    }
}

/// Whether an argument must be quoted when echoed: it holds white space or a quote.
pub open spec fn needs_quotes(a: Seq<char>) -> bool {
    exists|i: int| 0 <= i < a.len() && (is_white_space(#[trigger] a[i]) || a[i] == '"' || a[i] == '\'')
}

/// `a` with a backslash before each double quote.
pub open spec fn escape_quotes(a: Seq<char>) -> Seq<char>
    decreases a.len(),
{
    if a.len() == 0 {
        Seq::empty()
    } else if a.last() == '"' {
        escape_quotes(a.drop_last()) + seq!['\\', '"']
    } else {
        escape_quotes(a.drop_last()).push(a.last())
    }
}

/// An argument as echoed: `""` when empty, quoted and escaped when it needs quotes.
pub open spec fn formatted_argument(a: Seq<char>) -> Seq<char> {
    if a.len() == 0 {
        seq!['"', '"']
    } else if needs_quotes(a) {
        seq!['"'] + escape_quotes(a) + seq!['"']
    } else {
        a
    }
}

/// A command line as echoed: `git` and each argument, separated by spaces.
pub open spec fn formatted_command(args: Seq<Seq<char>>) -> Seq<char> {
    join(seq!["git"@] + args.map_values(|a: Seq<char>| formatted_argument(a)), " "@)
}

pub fn format_argument(arg: &str) -> (r: String)
    ensures
        r@ == formatted_argument(arg@),
{
    let v = chars_of(arg);
    if v.len() == 0 {
        let mut r = String::new();
        r.push('"');
        r.push('"');
        assert(r@ =~= seq!['"', '"']);
        return r;
    }
    let mut quote = false;
    let mut i: usize = 0;
    while i < v.len()
        invariant
            i <= v@.len(),
            v@ == arg@,
            quote == exists|k: int|
                0 <= k < i && (is_white_space(#[trigger] v@[k]) || v@[k] == '"' || v@[k] == '\''),
        decreases v@.len() - i,
    {
        let c = v[i];
        if is_white_space_char(c) || c == '"' || c == '\'' {
            quote = true;
        }
        i += 1;
    }
    if !quote {
        return arg.to_owned();
    }
    let mut r = String::new();
    r.push('"');
    let mut j: usize = 0;
    while j < v.len()
        invariant
            j <= v@.len(),
            r@ == seq!['"'] + escape_quotes(v@.subrange(0, j as int)),
        decreases v@.len() - j,
    {
        let c = v[j];
        assert(v@.subrange(0, j + 1).drop_last() =~= v@.subrange(0, j as int));
        if c == '"' {
            r.push('\\');
            r.push('"');
            assert(r@ =~= seq!['"'] + escape_quotes(v@.subrange(0, j + 1)));
        } else {
            r.push(c);
            assert(r@ =~= seq!['"'] + escape_quotes(v@.subrange(0, j + 1)));
        }
        j += 1;
    }
    r.push('"');
    assert(v@.subrange(0, v@.len() as int) =~= v@);
    assert(r@ =~= seq!['"'] + escape_quotes(arg@) + seq!['"']);
    r
}

/// The echo of `git` run with `args`.
pub fn format_command(args: &Vec<String>) -> (r: String)
    ensures
        r@ == formatted_command(views(args@)),
{
    let mut parts: Vec<String> = Vec::new();
    parts.push(String::from_str("git"));
    let ghost target = seq!["git"@] + views(args@).map_values(|a: Seq<char>| formatted_argument(a));
    assert(views(parts@) =~= target.subrange(0, 1));
    let mut i: usize = 0;
    while i < args.len()
        invariant
            i <= args@.len(),
            target == seq!["git"@] + views(args@).map_values(|a: Seq<char>| formatted_argument(a)),
            views(parts@) == target.subrange(0, i + 1),
        decreases args@.len() - i,
    {
        let f = format_argument(args[i].as_str());
        let ghost before = views(parts@);
        parts.push(f);
        assert(views(args@)[i as int] == args@[i as int]@);
        assert(target[i + 1] == formatted_argument(args@[i as int]@));
        assert(views(parts@) =~= before.push(f@));
        assert(views(parts@) =~= target.subrange(0, i + 2));
        i += 1;
    }
    assert(target.subrange(0, args@.len() + 1int) =~= target);
    join_strings(&parts, " ")
}

/// The error for a failed backend command: its trimmed diagnostics, or `fallback` when it
/// printed none.
pub open spec fn failure_message(stderr: Seq<char>, fallback: Seq<char>) -> Seq<char> {
    if trim(stderr).len() == 0 {
        fallback
    } else {
        trim(stderr)
    }
}

pub fn command_failure(stderr: &str, fallback: String) -> (r: AppError)
    ensures
        r is Git,
        r.spec_message() == failure_message(stderr@, fallback@),
{
    let t = trimmed(stderr);
    if t.as_str().is_empty() {
        AppError::Git(fallback)
    } else {
        AppError::Git(t)
    }
}

} // verus!
