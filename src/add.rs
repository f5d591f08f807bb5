//! Planning a new worktree: which branch, start point and path it gets, and whether it
//! conflicts with an existing one. Nothing here touches the backend; the plan says what
//! the creation command is to be given.
use vstd::prelude::*;
use crate::cli::AddCommand;
use crate::config::{base_dir_from, Config};
use crate::error::AppError;
use crate::inventory::{opt_view, records, RecordModel, WorktreeInfo};
use crate::paths::{is_sep, join_path, joined};
use crate::repo::{same_path, same_place, RepoContext};
use crate::runner::{command_failure, failure_message};
use crate::text::{chars_of, join, join_strings, string_from, trim, trimmed, views};

verus! {

/// An option's value once trimmed, absent when blank.
pub open spec fn flag(o: Option<Seq<char>>) -> Option<Seq<char>> {
    match o {
        Some(s) => if trim(s).len() > 0 {
            Some(trim(s))
        } else {
            None
        },
        None => None,
    }
}

/// The index of the first `c` in `s`, or the length of `s`.
pub open spec fn find_char(s: Seq<char>, c: char) -> int
    decreases s.len(),
{
    if s.len() == 0 {
        0
    } else if s[0] == c {
        0
    } else {
        1 + find_char(s.drop_first(), c)
    }
}

/// The branch named by `remote/branch`: what follows the first `/`, if anything does.
pub open spec fn inferred_branch(track: Seq<char>) -> Option<Seq<char>> {
    let i = find_char(track, '/');
    if i < track.len() && track.skip(i + 1).len() > 0 {
        Some(track.skip(i + 1))
    } else {
        None
    }
}

/// `s` cut at every separator, empty pieces kept.
pub open spec fn cut_at_seps(done: Seq<Seq<char>>, cur: Seq<char>, s: Seq<char>) -> Seq<Seq<char>>
    decreases s.len(),
{
    if s.len() == 0 {
        done.push(cur)
    } else if is_sep(s[0]) {
        cut_at_seps(done.push(cur), Seq::empty(), s.drop_first())
    } else {
        cut_at_seps(done, cur.push(s[0]), s.drop_first())
    }
}

pub open spec fn name_segments(name: Seq<char>) -> Seq<Seq<char>> {
    cut_at_seps(Seq::empty(), Seq::empty(), name)
}

/// Characters that cannot stand in a directory name.
pub open spec fn is_reserved(c: char) -> bool {
    c == '<' || c == '>' || c == ':' || c == '"' || c == '|' || c == '?' || c == '*' || c == '\\'
}

pub open spec fn replace_reserved(c: char) -> char {
    if is_reserved(c) {
        '_'
    } else {
        c
    }
}

/// A piece of a name made safe as a directory name: `_` for an empty, `.` or `..` piece,
/// otherwise each reserved character replaced by `_`.
pub open spec fn sanitized_segment(seg: Seq<char>) -> Seq<char> {
    if seg.len() == 0 || seg == seq!['.'] || seg == seq!['.', '.'] {
        seq!['_']
    } else {
        seg.map_values(|c: char| replace_reserved(c))
    }
}

/// The path, relative to the base directory, of the worktree for `name`: its pieces
/// between separators, each sanitized, joined with `/`.
pub open spec fn relative_path_of(name: Seq<char>) -> Seq<char> {
    join(name_segments(name).map_values(|seg: Seq<char>| sanitized_segment(seg)), seq!['/'])
}

/// The first record at `i` or later that has branch `b`.
pub open spec fn first_with_branch(ws: Seq<RecordModel>, b: Seq<char>, i: int) -> Option<int>
    decreases ws.len() - i,
{
    if i < 0 || i >= ws.len() {
        None
    } else if ws[i].branch == Some(b) {
        Some(i)
    } else {
        first_with_branch(ws, b, i + 1)
    }
}

pub open spec fn branch_conflict_message(b: Seq<char>, path: Seq<char>) -> Seq<char> {
    "worktree for branch '"@ + b + "' already exists: "@ + path
}

pub open spec fn path_conflict_message(path: Seq<char>) -> Seq<char> {
    "worktree path already exists in git metadata: "@ + path
}

/// Why a new worktree at `path` with `branch` would collide with the inventory, if it would:
/// first a record that has the branch, then a record at the same place.
pub open spec fn conflict(path: Seq<char>, branch: Option<Seq<char>>, ws: Seq<RecordModel>) -> Option<
    Seq<char>,
> {
    let holder = match branch {
        Some(b) => first_with_branch(ws, b, 0),
        None => None,
    };
    if holder is Some {
        Some(branch_conflict_message(branch->0, ws[holder->0].path))
    } else if exists|k: int| 0 <= k < ws.len() && same_place(#[trigger] ws[k].path, path) {
        Some(path_conflict_message(path))
    } else {
        None
    }
}

pub open spec fn track_message() -> Seq<char> {
    "--track requires a branch name (use --branch or specify remote/branch)"@
}

pub open spec fn required_message() -> Seq<char> {
    "branch or commit is required"@
}

/// Branch, start point and tracking, from the options given: with `--track`, the branch
/// given or the one named by the tracked ref; with a branch, the positional argument as
/// start point; with neither, the positional argument as a commit.
pub open spec fn add_choice(
    target: Option<Seq<char>>,
    branch: Option<Seq<char>>,
    track: Option<Seq<char>>,
) -> Result<(Option<Seq<char>>, Option<Seq<char>>, bool), Seq<char>> {
    let b = flag(branch);
    let t = flag(track);
    let a = flag(target);
    if t is Some {
        let inferred = if b is Some {
            b
        } else {
            inferred_branch(t->0)
        };
        if inferred is Some {
            Ok((inferred, t, true))
        } else {
            Err(track_message())
        }
    } else if b is Some {
        Ok((b, a, false))
    } else if a is Some {
        Ok((None, a, false))
    } else {
        Err(required_message())
    }
}

pub struct AddSpecModel {
    pub path: Seq<char>,
    pub branch: Option<Seq<char>>,
    pub commitish: Option<Seq<char>>,
    pub track: bool,
    pub display_name: Seq<char>,
}

/// What adding a worktree comes to: the plan, or the message of the user error.
pub open spec fn add_plan(
    target: Option<Seq<char>>,
    branch: Option<Seq<char>>,
    track: Option<Seq<char>>,
    base: Seq<char>,
    ws: Seq<RecordModel>,
    sep: char,
) -> Result<AddSpecModel, Seq<char>> {
    match add_choice(target, branch, track) {
        Err(m) => Err(m),
        Ok((b, c, t)) => {
            let identifier = if b is Some {
                b->0
            } else {
                c->0
            };
            let relative = relative_path_of(identifier);
            let path = joined(base, relative, sep);
            if relative.len() == 0 {
                Err("worktree name resolves to an empty path: "@ + identifier)
            } else if conflict(path, b, ws) is Some {
                Err(conflict(path, b, ws)->0)
            } else {
                Ok(
                    AddSpecModel {
                        path,
                        branch: b,
                        commitish: c,
                        track: t,
                        display_name: identifier,
                    },
                )
            }
        },
    }
}

/// A planned worktree.
#[derive(Debug)]
pub struct AddSpec {
    pub path: String,
    pub branch: Option<String>,
    pub commitish: Option<String>,
    pub track: bool,
    pub display_name: String,
}

impl View for AddSpec {
    type V = AddSpecModel;

    open spec fn view(&self) -> AddSpecModel {
        AddSpecModel {
            path: self.path@,
            branch: opt_view(self.branch),
            commitish: opt_view(self.commitish),
            track: self.track,
            display_name: self.display_name@,
        }
    }
}

// ---------------------------------------------------------------- exec

fn flag_value(o: &Option<String>) -> (r: Option<String>)
    ensures
        opt_view(r) == flag(opt_view(*o)),
{
    match o {
        Some(s) => {
            let t = trimmed(s.as_str());
            if t.as_str().is_empty() {
                None
            } else {
                Some(t)
            }
        },
        None => None,
    }
}

pub fn infer_branch_from_track(track: &str) -> (r: Option<String>)
    ensures
        opt_view(r) == inferred_branch(track@),
{
    let v = chars_of(track);
    let mut i: usize = 0;
    assert(v@.skip(0) =~= v@);
    while i < v.len() && v[i] != '/'
        invariant
            i <= v@.len(),
            v@ == track@,
            find_char(v@, '/') == i + find_char(v@.skip(i as int), '/'),
            i < v@.len() ==> forall|k: int| 0 <= k < i ==> v@[k] != '/',
        decreases v@.len() - i,
    {
        assert(v@.skip(i as int).drop_first() =~= v@.skip(i + 1));
        i += 1;
    }
    if i == v.len() {
        assert(v@.skip(i as int).len() == 0);
        return None;
    }
    assert(v@.skip(i as int)[0] == '/');
    let rest = string_from(&v, i + 1, v.len());
    assert(rest@ =~= track@.skip(i + 1));
    if rest.as_str().is_empty() {
        None
    } else {
        Some(rest)
    }
}

/// `name` cut at every separator, empty pieces kept.
fn split_segments(name: &str) -> (r: Vec<String>)
    ensures
        views(r@) == name_segments(name@),
{
    let v = chars_of(name);
    let mut done: Vec<String> = Vec::new();
    let mut cur: Vec<char> = Vec::new();
    let mut i: usize = 0;
    assert(views(done@) =~= Seq::<Seq<char>>::empty());
    assert(cur@ =~= Seq::<char>::empty());
    assert(v@.subrange(0, v@.len() as int) =~= v@);
    while i < v.len()
        invariant
            i <= v@.len(),
            v@ == name@,
            cut_at_seps(views(done@), cur@, v@.subrange(i as int, v@.len() as int)) == name_segments(
                name@,
            ),
        decreases v@.len() - i,
    {
        let c = v[i];
        assert(v@.subrange(i as int, v@.len() as int).drop_first() =~= v@.subrange(
            i + 1,
            v@.len() as int,
        ));
        if c == '/' || c == '\\' {
            let piece = string_from(&cur, 0, cur.len());
            assert(cur@.subrange(0, cur@.len() as int) =~= cur@);
            let ghost before = views(done@);
            done.push(piece);
            assert(views(done@) =~= before.push(cur@));
            cur = Vec::new();
        } else {
            cur.push(c);
        }
        i += 1;
    }
    let piece = string_from(&cur, 0, cur.len());
    assert(cur@.subrange(0, cur@.len() as int) =~= cur@);
    let ghost before = views(done@);
    done.push(piece);
    assert(views(done@) =~= before.push(cur@));
    done
}

/// One piece of a name made safe as a directory name.
pub fn sanitize_segment(segment: &str) -> (r: String)
    ensures
        r@ == sanitized_segment(segment@),
{
    let v = chars_of(segment);
    if v.len() == 0 || (v.len() == 1 && v[0] == '.') || (v.len() == 2 && v[0] == '.' && v[1]
        == '.') {
        let r = String::from_str("_");
        proof {
            reveal_strlit("_");
            if v@.len() == 1 {
                assert(v@ =~= seq!['.']);
            }
            if v@.len() == 2 {
                assert(v@ =~= seq!['.', '.']);
            }
        }
        assert(r@ =~= seq!['_']);
        return r;
    }
    assert(v@ != seq!['.']) by {
        if v@.len() == 1 {
            assert(seq!['.'][0] == '.');
        }
    }
    assert(v@ != seq!['.', '.']) by {
        if v@.len() == 2 {
            assert(seq!['.', '.'][0] == '.');
            assert(seq!['.', '.'][1] == '.');
        }
    }
    let mut r = String::new();
    let mut i: usize = 0;
    while i < v.len()
        invariant
            i <= v@.len(),
            r@ == v@.subrange(0, i as int).map_values(|c: char| replace_reserved(c)),
        decreases v@.len() - i,
    {
        let c = v[i];
        let d = if c == '<' || c == '>' || c == ':' || c == '"' || c == '|' || c == '?' || c == '*'
            || c == '\\' {
            '_'
        } else {
            c
        };
        let ghost before = r@;
        r.push(d);
        assert(v@.subrange(0, i + 1).map_values(|c: char| replace_reserved(c)) =~= before.push(d));
        i += 1;
    }
    assert(v@.subrange(0, v@.len() as int) =~= v@);
    r
}

/// The relative path of the worktree for `name`, pieces joined with `/`.
pub fn branch_to_relative_path(name: &str) -> (r: String)
    ensures
        r@ == relative_path_of(name@),
{
    let segments = split_segments(name);
    let mut parts: Vec<String> = Vec::new();
    let mut i: usize = 0;
    let ghost target = name_segments(name@).map_values(|seg: Seq<char>| sanitized_segment(seg));
    assert(views(parts@) =~= target.subrange(0, 0));
    while i < segments.len()
        invariant
            i <= segments@.len(),
            views(segments@) == name_segments(name@),
            target == name_segments(name@).map_values(|seg: Seq<char>| sanitized_segment(seg)),
            views(parts@) == target.subrange(0, i as int),
        decreases segments@.len() - i,
    {
        let s = sanitize_segment(segments[i].as_str());
        let ghost before = views(parts@);
        parts.push(s);
        assert(views(segments@)[i as int] == segments@[i as int]@);
        assert(target[i as int] == sanitized_segment(name_segments(name@)[i as int]));
        assert(views(parts@) =~= before.push(s@));
        assert(views(parts@) =~= target.subrange(0, i + 1));
        i += 1;
    }
    assert(target.subrange(0, target.len() as int) =~= target);
    proof {
        reveal_strlit("/");
    }
    assert("/"@ =~= seq!['/']);
    join_strings(&parts, "/")
}

/// The first record with branch `b`.
fn branch_holder(existing: &Vec<WorktreeInfo>, b: &String) -> (r: Option<usize>)
    ensures
        match r {
            Some(k) => k < existing@.len() && first_with_branch(records(existing@), b@, 0) == Some(
                k as int,
            ),
            None => first_with_branch(records(existing@), b@, 0) is None,
        },
{
    let ghost ws = records(existing@);
    let mut i: usize = 0;
    while i < existing.len()
        invariant
            i <= existing@.len(),
            ws == records(existing@),
            first_with_branch(ws, b@, 0) == first_with_branch(ws, b@, i as int),
        decreases existing@.len() - i,
    {
        let holds = match &existing[i].branch {
            Some(x) => *x == *b,
            None => false,
        };
        assert(ws[i as int] == existing@[i as int]@);
        if holds {
            return Some(i);
        }
        i += 1;
    }
    None
}

/// Refuses a new worktree at `path` with `branch` that collides with the inventory.
pub fn detect_conflicts(path: &str, branch: &Option<String>, existing: &Vec<WorktreeInfo>) -> (r:
    Result<(), AppError>)
    ensures
        match r {
            Ok(()) => conflict(path@, opt_view(*branch), records(existing@)) is None,
            Err(e) => e is User && conflict(path@, opt_view(*branch), records(existing@)) == Some(
                e.spec_message(),
            ),
        },
{
    let ghost ws = records(existing@);
    if let Some(b) = branch {
        if let Some(k) = branch_holder(existing, b) {
            let mut m = String::from_str("worktree for branch '");
            m.append(b.as_str());
            m.append("' already exists: ");
            m.append(existing[k].path.as_str());
            assert(ws[k as int] == existing@[k as int]@);
            assert(m@ =~= branch_conflict_message(b@, ws[k as int].path));
            return Err(AppError::User(m));
        }
    }
    let mut i: usize = 0;
    while i < existing.len()
        invariant
            i <= existing@.len(),
            ws == records(existing@),
            forall|k: int| 0 <= k < i ==> !same_place(#[trigger] ws[k].path, path@),
            (match opt_view(*branch) {
                Some(b) => first_with_branch(ws, b, 0),
                None => None,
            }) is None,
        decreases existing@.len() - i,
    {
        assert(ws[i as int] == existing@[i as int]@);
        if same_path(existing[i].path.as_str(), path) {
            assert(same_place(ws[i as int].path, path@));
            let mut m = String::from_str("worktree path already exists in git metadata: ");
            m.append(path);
            assert(m@ =~= path_conflict_message(path@));
            return Err(AppError::User(m));
        }
        i += 1;
    }
    Ok(())
}

/// Plans a new worktree under the base directory of `config`, paths joined with `sep`.
pub fn build_spec(
    repo: &RepoContext,
    config: &Config,
    cmd: &AddCommand,
    existing: &Vec<WorktreeInfo>,
    sep: char,
) -> (r: Result<AddSpec, AppError>)
    ensures
        match (
            r,
            add_plan(
                opt_view(cmd.target),
                opt_view(cmd.branch),
                opt_view(cmd.track),
                base_dir_from(config.defaults.base_dir@, repo.spec_main_root(), sep),
                records(existing@),
                sep,
            ),
        ) {
            (Ok(s), Ok(m)) => s@ == m,
            (Err(e), Err(m)) => e is User && e.spec_message() == m,
            _ => false,
        },
{
    let base_dir = config.resolved_base_dir_with(repo.main_root(), sep);
    let branch_flag = flag_value(&cmd.branch);
    let track_flag = flag_value(&cmd.track);
    let target_arg = flag_value(&cmd.target);
    let (branch, commitish, track) = match track_flag {
        Some(t) => {
            let inferred = match branch_flag {
                Some(b) => Some(b),
                None => infer_branch_from_track(t.as_str()),
            };
            if inferred.is_none() {
                return Err(
                    AppError::user(
                        "--track requires a branch name (use --branch or specify remote/branch)",
                    ),
                );
            }
            (inferred, Some(t), true)
        },
        None => match branch_flag {
            Some(b) => (Some(b), target_arg, false),
            None => match target_arg {
                Some(a) => (None, Some(a), false),
                None => return Err(AppError::user("branch or commit is required")),
            },
        },
    };
    let identifier = match &branch {
        Some(b) => b.clone(),
        None => match &commitish {
            Some(c) => c.clone(),
            None => return Err(AppError::user("unable to determine worktree name")),
        },
    };
    let relative = branch_to_relative_path(identifier.as_str());
    if relative.as_str().is_empty() {
        let mut m = String::from_str("worktree name resolves to an empty path: ");
        m.append(identifier.as_str());
        return Err(AppError::User(m));
    }
    let path = join_path(base_dir.as_str(), relative.as_str(), sep);
    match detect_conflicts(path.as_str(), &branch, existing) {
        Ok(()) => {},
        Err(e) => return Err(e),
    }
    Ok(AddSpec { path, branch, commitish, track, display_name: identifier })
}

/// The arguments of the creation command for `spec`.
pub open spec fn add_args(s: AddSpecModel) -> Seq<Seq<char>> {
    let head = seq!["worktree"@, "add"@];
    let with_track = if s.track {
        head.push("--track"@)
    } else {
        head
    };
    let with_branch = match s.branch {
        Some(b) => with_track.push("-b"@).push(b),
        None => with_track,
    };
    let with_path = with_branch.push(s.path);
    match s.commitish {
        Some(c) => with_path.push(c),
        None => with_path,
    }
}

pub fn add_command_args(spec: &AddSpec) -> (r: Vec<String>)
    ensures
        views(r@) == add_args(spec@),
{
    let mut args: Vec<String> = Vec::new();
    args.push(String::from_str("worktree"));
    args.push(String::from_str("add"));
    let ghost head = seq!["worktree"@, "add"@];
    assert(views(args@) =~= head);
    if spec.track {
        let ghost before = views(args@);
        args.push(String::from_str("--track"));
        assert(views(args@) =~= before.push("--track"@));
    }
    if let Some(b) = &spec.branch {
        let ghost before = views(args@);
        args.push(String::from_str("-b"));
        args.push(b.clone());
        assert(views(args@) =~= before.push("-b"@).push(b@));
    }
    let ghost before = views(args@);
    args.push(spec.path.clone());
    assert(views(args@) =~= before.push(spec.path@));
    if let Some(c) = &spec.commitish {
        let ghost before = views(args@);
        args.push(c.clone());
        assert(views(args@) =~= before.push(c@));
    }
    args
}

/// The error for a failed creation command.
pub fn add_failure(stderr: &str) -> (r: AppError)
    ensures
        r is Git,
        r.spec_message() == failure_message(stderr@, "git worktree add failed without error output"@),
{
    command_failure(stderr, String::from_str("git worktree add failed without error output"))
}

// ---------------------------------------------------------------- properties

pub proof fn lemma_cut_grows(done: Seq<Seq<char>>, cur: Seq<char>, s: Seq<char>)
    ensures
        cut_at_seps(done, cur, s).len() > done.len(),
    decreases s.len(),
{
    if s.len() > 0 {
        if is_sep(s[0]) {
            lemma_cut_grows(done.push(cur), Seq::empty(), s.drop_first());
        } else {
            lemma_cut_grows(done, cur.push(s[0]), s.drop_first());
        }
    }
}

/// Joined parts are at least as long as the first part.
pub proof fn lemma_join_len(parts: Seq<Seq<char>>, sep: Seq<char>)
    requires
        parts.len() > 0,
    ensures
        join(parts, sep).len() >= parts[0].len(),
    decreases parts.len(),
{
    if parts.len() > 1 {
        lemma_join_len(parts.drop_last(), sep);
    }
}

/// Every name has a non-empty relative path.
pub proof fn lemma_relative_path_nonempty(name: Seq<char>)
    ensures
        relative_path_of(name).len() > 0,
{
    lemma_cut_grows(Seq::empty(), Seq::empty(), name);
    let parts = name_segments(name).map_values(|seg: Seq<char>| sanitized_segment(seg));
    let first = name_segments(name)[0];
    assert(parts[0] == sanitized_segment(first));
    assert(sanitized_segment(first).len() > 0);
    lemma_join_len(parts, seq!['/']);
}

/// A record with branch `b` at `k` or later is found by the search from `i`.
pub proof fn lemma_branch_holder_found(ws: Seq<RecordModel>, b: Seq<char>, i: int, k: int)
    requires
        0 <= i <= k < ws.len(),
        ws[k].branch == Some(b),
    ensures
        first_with_branch(ws, b, i) matches Some(j) && i <= j <= k && ws[j].branch == Some(b),
    decreases k - i,
{
    if ws[i].branch != Some(b) {
        lemma_branch_holder_found(ws, b, i + 1, k);
    }
}

/// Adding a worktree for a branch that a record already has fails with a message naming
/// that record's path; no plan for the creation command comes out.
pub proof fn lemma_existing_branch_refused(
    target: Option<Seq<char>>,
    branch: Option<Seq<char>>,
    track: Option<Seq<char>>,
    base: Seq<char>,
    ws: Seq<RecordModel>,
    sep: char,
    b: Seq<char>,
    k: int,
)
    requires
        flag(branch) == Some(b),
        0 <= k < ws.len(),
        ws[k].branch == Some(b),
    ensures
        first_with_branch(ws, b, 0) is Some,
        add_plan(target, branch, track, base, ws, sep) == Err::<AddSpecModel, Seq<char>>(
            branch_conflict_message(b, ws[first_with_branch(ws, b, 0)->0].path),
        ),
{
    lemma_branch_holder_found(ws, b, 0, k);
    lemma_relative_path_nonempty(b);
}

} // verus!
