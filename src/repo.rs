//! The repository context: where the command runs, where the primary checkout is, and
//! what the backend's `rev-parse` answers mean.
use vstd::prelude::*;
use crate::error::AppError;
use crate::inventory::{lemma_split_grows, lines_of};
use crate::names::{file_name, last_component};
use crate::paths::{
    components, is_absolute, is_rooted, join_path, joined, normalize_path_with, normalized,
    same_strings, split_path,
};
use crate::text::{join, join_strings, trim, trimmed, views};
use crate::inventory::split_lines;

verus! {

/// Two paths name the same place: same root, same components.
pub open spec fn same_place(a: Seq<char>, b: Seq<char>) -> bool {
    is_rooted(a) == is_rooted(b) && components(a) == components(b)
}

/// The repository's name: the last component of the primary checkout's path, or the
/// whole path when it has none.
pub open spec fn repo_name_of(main_root: Seq<char>) -> Seq<char> {
    match last_component(main_root) {
        Some(n) => n,
        None => main_root,
    }
}

#[derive(Debug)]
pub struct RepoContext {
    worktree_root: String,
    main_root: String,
    repo_name: String,
}

impl RepoContext {
    pub closed spec fn spec_worktree_root(&self) -> Seq<char> {
        self.worktree_root@
    }

    pub closed spec fn spec_main_root(&self) -> Seq<char> {
        self.main_root@
    }

    pub closed spec fn spec_repo_name(&self) -> Seq<char> {
        self.repo_name@
    }

    /// A context for a command run in the checkout at `worktree_root` of the repository
    /// whose primary checkout is at `main_root`.
    pub fn new(worktree_root: String, main_root: String) -> (r: RepoContext)
        ensures
            r.spec_worktree_root() == worktree_root@,
            r.spec_main_root() == main_root@,
            r.spec_repo_name() == repo_name_of(main_root@),
    {
        let repo_name = match file_name(main_root.as_str()) {
            Some(n) => n,
            None => main_root.clone(),
        };
        RepoContext { worktree_root, main_root, repo_name }
    }

    pub fn worktree_root(&self) -> (r: &str)
        ensures
            r@ == self.spec_worktree_root(),
    {
        self.worktree_root.as_str()
    }

    pub fn main_root(&self) -> (r: &str)
        ensures
            r@ == self.spec_main_root(),
    {
        self.main_root.as_str()
    }

    pub fn repo_name(&self) -> (r: &str)
        ensures
            r@ == self.spec_repo_name(),
    {
        self.repo_name.as_str()
    }

    /// Whether the command runs in the primary checkout.
    pub fn is_main_worktree(&self) -> (r: bool)
        ensures
            r == same_place(self.spec_worktree_root(), self.spec_main_root()),
    {
        same_path(self.worktree_root.as_str(), self.main_root.as_str())
    }
}

/// Whether `a` and `b` name the same place.
pub fn same_path(a: &str, b: &str) -> (r: bool)
    ensures
        r == same_place(a@, b@),
{
    let (ac, ar) = split_path(a);
    let (bc, br) = split_path(b);
    ar == br && same_strings(&ac, &bc)
}

/// Where the shared repository directory `common_dir` is, taken from the checkout at
/// `worktree_root`.
pub fn common_dir_candidate(worktree_root: &str, common_dir: &str, sep: char) -> (r: String)
    ensures
        r@ == joined(worktree_root@, common_dir@, sep),
{
    join_path(worktree_root, common_dir, sep)
}

/// The path of the directory that holds `p`: its root and all components but the last.
pub open spec fn parent_of(p: Seq<char>, sep: char) -> Seq<char> {
    let body = join(components(p).drop_last(), seq![sep]);
    if is_rooted(p) {
        seq![sep] + body
    } else {
        body
    }
}

/// The primary checkout for the (resolved) shared repository directory `common_dir`:
/// its parent when it is a `.git` directory, else the directory itself, in normal form.
pub open spec fn main_root_of(common_dir: Seq<char>, sep: char) -> Seq<char> {
    if last_component(common_dir) == Some(seq!['.', 'g', 'i', 't']) {
        parent_of(common_dir, sep)
    } else {
        normalized(common_dir, sep)
    }
}

pub fn resolve_main_root(common_dir: &str, sep: char) -> (r: String)
    ensures
        r@ == main_root_of(common_dir@, sep),
{
    let (parts, rooted) = split_path(common_dir);
    let is_git = match file_name(common_dir) {
        Some(name) => {
            let dot_git = String::from_str(".git");
            proof {
                reveal_strlit(".git");
            }
            assert(dot_git@ =~= seq!['.', 'g', 'i', 't']);
            name == dot_git
        },
        None => false,
    };
    if !is_git {
        return normalize_path_with(common_dir, sep);
    }
    assert(views(parts@).len() > 0);
    let last = parts.len() - 1;
    let mut head: Vec<String> = Vec::new();
    let mut i: usize = 0;
    assert(views(head@) =~= views(parts@).subrange(0, 0));
    while i < last
        invariant
            last == parts@.len() - 1,
            i <= last,
            views(head@) == views(parts@).subrange(0, i as int),
        decreases last - i,
    {
        let piece = parts[i].clone();
        let ghost before = views(head@);
        head.push(piece);
        assert(views(head@) =~= before.push(parts@[i as int]@));
        assert(views(head@) =~= views(parts@).subrange(0, i + 1));
        i += 1;
    }
    assert(views(head@) =~= components(common_dir@).drop_last());
    let mut sep_text = String::new();
    sep_text.push(sep);
    assert(sep_text@ =~= seq![sep]);
    let body = join_strings(&head, sep_text.as_str());
    if rooted {
        let mut r = String::new();
        r.push(sep);
        r.append(body.as_str());
        assert(r@ =~= seq![sep] + body@);
        r
    } else {
        body
    }
}

/// The first line of the trimmed diagnostic `stderr`, itself trimmed, when there is one.
pub open spec fn first_diagnostic(stderr: Seq<char>) -> Option<Seq<char>> {
    let line = trim(lines_of(trim(stderr))[0]);
    if line.len() == 0 {
        None
    } else {
        Some(line)
    }
}

pub fn first_diagnostic_line(stderr: &str) -> (r: Option<String>)
    ensures
        opt_view(r) == first_diagnostic(stderr@),
{
    let t = trimmed(stderr);
    let lines = split_lines(t.as_str());
    proof {
        lemma_split_grows(Seq::empty(), Seq::empty(), t@, '\n');
    }
    assert(views(lines@)[0] == lines@[0]@);
    let line = trimmed(lines[0].as_str());
    if line.as_str().is_empty() {
        None
    } else {
        Some(line)
    }
}

pub open spec fn opt_view(o: Option<String>) -> Option<Seq<char>> {
    match o {
        Some(s) => Some(s@),
        None => None,
    }
}

/// The path that `rev-parse` printed on `stdout`, taken from `base_dir` when relative.
pub open spec fn rev_parse_answer(base_dir: Seq<char>, stdout: Seq<char>, sep: char) -> Option<
    Seq<char>,
> {
    let t = trim(stdout);
    if t.len() == 0 {
        None
    } else if is_absolute(t) {
        Some(t)
    } else {
        Some(joined(base_dir, t, sep))
    }
}

/// Reads the path that `rev-parse` printed; an empty answer is an error.
pub fn rev_parse_path(base_dir: &str, stdout: &str, sep: char) -> (r: Result<String, AppError>)
    ensures
        match r {
            Ok(p) => rev_parse_answer(base_dir@, stdout@, sep) == Some(p@),
            Err(e) => rev_parse_answer(base_dir@, stdout@, sep) is None && e is Git
                && e.spec_message() == "git rev-parse returned an empty path"@,
        },
{
    let t = trimmed(stdout);
    if t.as_str().is_empty() {
        return Err(AppError::git("git rev-parse returned an empty path"));
    }
    Ok(join_path(base_dir, t.as_str(), sep))
}

} // verus!
