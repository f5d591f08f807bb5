//! Resolution of a user-supplied target string to one worktree.
//!
//! Records are tried in inventory order and the first that matches wins. The primary
//! checkout matches only its aliases: `@`, `root` and the repository name (both without
//! regard to ASCII case), and its own branch. A managed record other than the primary
//! matches its branch, its display name and the last component of its path. An unmanaged
//! record that is not the primary never matches.
use vstd::prelude::*;
use crate::error::AppError;
use crate::inventory::{RecordModel, WorktreeInfo, records};
use crate::names::{
    display_name_of, display_name_with, file_name, is_managed, last_component, managed,
};
use crate::order::{sorted_unique, strictly_sorted};
use crate::text::{
    chars_equal, chars_of, eq_ignore_ascii_case, equal_ignore_ascii_case, join, join_strings, trim,
    trim_end_char, trimmed, trimmed_end_char, views,
};

verus! {

/// A target with white space and a trailing run of `*` removed.
pub open spec fn sanitized(t: Seq<char>) -> Seq<char> {
    trim_end_char(trim(t), '*')
}

/// The aliases of the primary checkout.
pub open spec fn is_main_alias(w: RecordModel, repo_name: Seq<char>, t: Seq<char>) -> bool {
    w.is_main && (t == seq!['@'] || eq_ignore_ascii_case(t, "root"@) || eq_ignore_ascii_case(
        t,
        repo_name,
    ) || w.branch == Some(t))
}

/// The names of a managed record other than the primary: its branch, its display name,
/// its last component.
pub open spec fn is_record_name(w: RecordModel, base: Seq<char>, t: Seq<char>, sep: char) -> bool {
    managed(w, base) && !w.is_main && (w.branch == Some(t) || display_name_of(w, base, sep) == t
        || last_component(w.path) == Some(t))
}

pub open spec fn matches_target(
    w: RecordModel,
    base: Seq<char>,
    repo_name: Seq<char>,
    t: Seq<char>,
    sep: char,
) -> bool {
    is_main_alias(w, repo_name, t) || is_record_name(w, base, t, sep)
}

/// Record `k` is the first that matches `t`.
pub open spec fn resolves_at(
    ws: Seq<RecordModel>,
    base: Seq<char>,
    repo_name: Seq<char>,
    t: Seq<char>,
    sep: char,
    k: int,
) -> bool {
    &&& 0 <= k < ws.len()
    &&& matches_target(ws[k], base, repo_name, t, sep)
    &&& forall|j: int| 0 <= j < k ==> !matches_target(#[trigger] ws[j], base, repo_name, t, sep)
}

/// The display names of the managed records, in order.
pub open spec fn managed_names(ws: Seq<RecordModel>, base: Seq<char>, sep: char) -> Seq<Seq<char>>
    decreases ws.len(),
{
    if ws.len() == 0 {
        Seq::empty()
    } else {
        let r = managed_names(ws.drop_last(), base, sep);
        if managed(ws.last(), base) {
            r.push(display_name_of(ws.last(), base, sep))
        } else {
            r
        }
    }
}

/// The index of the first primary record at `i` or later.
pub open spec fn first_main_from(ws: Seq<RecordModel>, i: int) -> Option<int>
    decreases ws.len() - i,
{
    if i < 0 || i >= ws.len() {
        None
    } else if ws[i].is_main {
        Some(i)
    } else {
        first_main_from(ws, i + 1)
    }
}

/// Whether `names` holds `x` up to the case of ASCII letters.
pub open spec fn holds_folded(names: Seq<Seq<char>>, x: Seq<char>) -> bool {
    exists|i: int| 0 <= i < names.len() && eq_ignore_ascii_case(#[trigger] names[i], x)
}

/// `names` with `x` appended unless already present.
pub open spec fn add_missing(names: Seq<Seq<char>>, x: Option<Seq<char>>) -> Seq<Seq<char>> {
    match x {
        Some(b) => if names.contains(b) {
            names
        } else {
            names.push(b)
        },
        None => names,
    }
}

/// `names` with `x` appended unless present up to the case of ASCII letters.
pub open spec fn add_missing_folded(names: Seq<Seq<char>>, x: Seq<char>) -> Seq<Seq<char>> {
    if holds_folded(names, x) {
        names
    } else {
        names.push(x)
    }
}

/// The names offered when a target is not found, before sorting: `@` and every managed
/// display name, the primary's branch and the repository name when not already present.
pub open spec fn suggestion_candidates(
    ws: Seq<RecordModel>,
    base: Seq<char>,
    repo_name: Seq<char>,
    sep: char,
) -> Seq<Seq<char>> {
    let names = managed_names(ws, base, sep);
    match first_main_from(ws, 0) {
        None => names,
        Some(m) => add_missing_folded(
            add_missing(seq![seq!['@']] + names, ws[m].branch),
            repo_name,
        ),
    }
}

pub open spec fn list_hint() -> Seq<char> {
    "Run 'wtw list' to see available worktrees."@
}

/// The message for a target that names no worktree, with the sorted suggestions.
pub open spec fn not_found_message(target: Seq<char>, names: Seq<Seq<char>>) -> Seq<char> {
    "worktree '"@ + target + "' not found\n"@ + if names.len() == 0 {
        list_hint()
    } else {
        "Available worktrees: "@ + join(names, ", "@) + "\n"@ + list_hint()
    }
}

/// `names` is the sorted list, each once, of what `items` holds.
pub open spec fn sorted_set_of(names: Seq<Seq<char>>, items: Seq<Seq<char>>) -> bool {
    strictly_sorted(names) && forall|y: Seq<char>| names.contains(y) <==> items.contains(y)
}

/// The message of an error that a target names no worktree.
pub open spec fn is_not_found(e: AppError, target: Seq<char>, items: Seq<Seq<char>>) -> bool {
    &&& e is User
    &&& exists|names: Seq<Seq<char>>|
        sorted_set_of(names, items) && e.spec_message() == not_found_message(target, names)
}

// ---------------------------------------------------------------- exec

pub fn sanitize_target(target: &str) -> (r: String)
    ensures
        r@ == sanitized(target@),
{
    let t = trimmed(target);
    trimmed_end_char(t.as_str(), '*')
}

/// Whether `target` is `@`.
pub fn is_at_sign(target: &str) -> (r: bool)
    ensures
        r == (target@ == seq!['@']),
{
    proof {
        reveal_strlit("@");
    }
    let t = chars_of(target);
    let at = chars_of("@");
    assert(at@ =~= seq!['@']);
    chars_equal(&t, &at)
}

fn same_branch(info: &WorktreeInfo, target: &String) -> (r: bool)
    ensures
        r == (info@.branch == Some(target@)),
{
    match &info.branch {
        Some(b) => *b == *target,
        None => false,
    }
}

pub fn matches_main(info: &WorktreeInfo, repo_name: &str, target: &str) -> (r: bool)
    ensures
        r == is_main_alias(info@, repo_name@, target@),
{
    if !info.is_main {
        return false;
    }
    if is_at_sign(target) || equal_ignore_ascii_case(target, "root") {
        return true;
    }
    if equal_ignore_ascii_case(target, repo_name) {
        return true;
    }
    same_branch(info, &target.to_owned())
}

pub fn matches_branch(info: &WorktreeInfo, target: &str) -> (r: bool)
    ensures
        r == (info@.branch == Some(target@)),
{
    same_branch(info, &target.to_owned())
}

pub fn matches_display_name(info: &WorktreeInfo, base_dir: &str, target: &str, sep: char) -> (r:
    bool)
    ensures
        r == (!info.is_main && display_name_of(info@, base_dir@, sep) == target@),
{
    if info.is_main {
        return false;
    }
    display_name_with(info, base_dir, sep) == target.to_owned()
}

pub fn matches_directory_name(info: &WorktreeInfo, target: &str) -> (r: bool)
    ensures
        r == (last_component(info@.path) == Some(target@)),
{
    match file_name(info.path.as_str()) {
        Some(name) => name == target.to_owned(),
        None => false,
    }
}

/// Whether `info` matches `target`.
pub fn matches(info: &WorktreeInfo, base_dir: &str, repo_name: &str, target: &str, sep: char) -> (r:
    bool)
    ensures
        r == matches_target(info@, base_dir@, repo_name@, target@, sep),
{
    if matches_main(info, repo_name, target) {
        return true;
    }
    if info.is_main || !is_managed(info, base_dir) {
        return false;
    }
    matches_branch(info, target) || matches_display_name(info, base_dir, target, sep)
        || matches_directory_name(info, target)
}

/// The index of the first record that matches `target`.
pub fn resolve_index(
    worktrees: &Vec<WorktreeInfo>,
    base_dir: &str,
    repo_name: &str,
    target: &str,
    sep: char,
) -> (r: Option<usize>)
    ensures
        match r {
            Some(k) => resolves_at(records(worktrees@), base_dir@, repo_name@, target@, sep, k as int),
            None => forall|k: int|
                0 <= k < worktrees@.len() ==> !matches_target(
                    #[trigger] records(worktrees@)[k],
                    base_dir@,
                    repo_name@,
                    target@,
                    sep,
                ),
        },
{
    let ghost ws = records(worktrees@);
    let mut i: usize = 0;
    while i < worktrees.len()
        invariant
            i <= worktrees@.len(),
            ws == records(worktrees@),
            forall|j: int|
                0 <= j < i ==> !matches_target(#[trigger] ws[j], base_dir@, repo_name@, target@, sep),
        decreases worktrees@.len() - i,
    {
        if matches(&worktrees[i], base_dir, repo_name, target, sep) {
            return Some(i);
        }
        i += 1;
    }
    None
}

/// The path of the first record that matches `target`.
pub fn resolve_path(
    worktrees: &Vec<WorktreeInfo>,
    base_dir: &str,
    repo_name: &str,
    target: &str,
    sep: char,
) -> (r: Option<String>)
    ensures
        match r {
            Some(p) => exists|k: int|
                resolves_at(records(worktrees@), base_dir@, repo_name@, target@, sep, k) && p@
                    == worktrees@[k].path@,
            None => forall|k: int|
                0 <= k < worktrees@.len() ==> !matches_target(
                    #[trigger] records(worktrees@)[k],
                    base_dir@,
                    repo_name@,
                    target@,
                    sep,
                ),
        },
{
    match resolve_index(worktrees, base_dir, repo_name, target, sep) {
        Some(k) => Some(worktrees[k].path.clone()),
        None => None,
    }
}

/// Display names of the managed records, in order.
fn collect_managed_names(worktrees: &Vec<WorktreeInfo>, base_dir: &str, sep: char) -> (r: Vec<
    String,
>)
    ensures
        views(r@) == managed_names(records(worktrees@), base_dir@, sep),
{
    let mut names: Vec<String> = Vec::new();
    let mut i: usize = 0;
    assert(views(names@) =~= managed_names(records(worktrees@).subrange(0, 0), base_dir@, sep));
    while i < worktrees.len()
        invariant
            i <= worktrees@.len(),
            views(names@) == managed_names(records(worktrees@).subrange(0, i as int), base_dir@, sep),
        decreases worktrees@.len() - i,
    {
        let ghost prefix = records(worktrees@).subrange(0, i + 1);
        assert(prefix.drop_last() =~= records(worktrees@).subrange(0, i as int));
        assert(prefix.last() == worktrees@[i as int]@);
        if is_managed(&worktrees[i], base_dir) {
            let name = display_name_with(&worktrees[i], base_dir, sep);
            let ghost before = views(names@);
            names.push(name);
            assert(views(names@) =~= before.push(name@));
        }
        i += 1;
    }
    assert(records(worktrees@).subrange(0, worktrees@.len() as int) =~= records(worktrees@));
    names
}

/// The index of the first primary record.
fn find_main(worktrees: &Vec<WorktreeInfo>) -> (r: Option<usize>)
    ensures
        match r {
            Some(m) => m < worktrees@.len() && first_main_from(records(worktrees@), 0) == Some(
                m as int,
            ),
            None => first_main_from(records(worktrees@), 0) is None,
        },
{
    let ghost ws = records(worktrees@);
    let mut i: usize = 0;
    while i < worktrees.len()
        invariant
            i <= worktrees@.len(),
            ws == records(worktrees@),
            first_main_from(ws, 0) == first_main_from(ws, i as int),
        decreases worktrees@.len() - i,
    {
        if worktrees[i].is_main {
            return Some(i);
        }
        i += 1;
    }
    None
}

/// Whether `names` holds `x`.
fn holds(names: &Vec<String>, x: &String) -> (r: bool)
    ensures
        r == views(names@).contains(x@),
{
    let mut i: usize = 0;
    while i < names.len()
        invariant
            i <= names@.len(),
            forall|k: int| 0 <= k < i ==> names@[k]@ != x@,
        decreases names@.len() - i,
    {
        if names[i] == *x {
            assert(views(names@)[i as int] == x@);
            return true;
        }
        i += 1;
    }
    assert forall|k: int| 0 <= k < views(names@).len() implies views(names@)[k] != x@ by {
        assert(views(names@)[k] == names@[k]@);
    }
    false
}

/// Whether `names` holds `x` up to the case of ASCII letters.
fn holds_ignoring_case(names: &Vec<String>, x: &str) -> (r: bool)
    ensures
        r == holds_folded(views(names@), x@),
{
    let mut i: usize = 0;
    while i < names.len()
        invariant
            i <= names@.len(),
            forall|k: int| 0 <= k < i ==> !eq_ignore_ascii_case(#[trigger] views(names@)[k], x@),
        decreases names@.len() - i,
    {
        if equal_ignore_ascii_case(names[i].as_str(), x) {
            assert(views(names@)[i as int] == names@[i as int]@);
            return true;
        }
        assert(views(names@)[i as int] == names@[i as int]@);
        i += 1;
    }
    false
}

/// The names offered when a target is not found, before sorting.
fn suggestions(worktrees: &Vec<WorktreeInfo>, base_dir: &str, repo_name: &str, sep: char) -> (r: Vec<
    String,
>)
    ensures
        views(r@) == suggestion_candidates(records(worktrees@), base_dir@, repo_name@, sep),
{
    let mut available = collect_managed_names(worktrees, base_dir, sep);
    if let Some(m) = find_main(worktrees) {
        let ghost names = views(available@);
        let at = String::from_str("@");
        proof {
            reveal_strlit("@");
        }
        assert(at@ =~= seq!['@']);
        available.insert(0, at);
        let ghost with_at = seq![seq!['@']] + names;
        assert(views(available@) =~= with_at);
        assert(records(worktrees@)[m as int] == worktrees@[m as int]@);
        if let Some(branch) = &worktrees[m].branch {
            if !holds(&available, branch) {
                available.push(branch.clone());
                assert(views(available@) =~= with_at.push(branch@));
            }
        }
        let ghost with_branch = views(available@);
        assert(with_branch == add_missing(with_at, records(worktrees@)[m as int].branch));
        if !holds_ignoring_case(&available, repo_name) {
            available.push(repo_name.to_owned());
            assert(views(available@) =~= with_branch.push(repo_name@));
        }
    }
    available
}

/// The error for a target that names no worktree, listing the sorted suggestions.
pub fn worktree_not_found(
    target: &str,
    worktrees: &Vec<WorktreeInfo>,
    base_dir: &str,
    repo_name: &str,
    sep: char,
) -> (r: AppError)
    ensures
        is_not_found(
            r,
            target@,
            suggestion_candidates(records(worktrees@), base_dir@, repo_name@, sep),
        ),
{
    let available = suggestions(worktrees, base_dir, repo_name, sep);
    let names = sorted_unique(&available);
    not_found_error(target, &names)
}

/// The not-found error for `target` offering `names`.
pub fn not_found_error(target: &str, names: &Vec<String>) -> (r: AppError)
    ensures
        r is User,
        r.spec_message() == not_found_message(target@, views(names@)),
{
    let mut message = String::from_str("worktree '");
    message.append(target);
    message.append("' not found\n");
    if names.len() == 0 {
        message.append("Run 'wtw list' to see available worktrees.");
        assert(message@ =~= "worktree '"@ + target@ + "' not found\n"@ + list_hint());
    } else {
        message.append("Available worktrees: ");
        let listed = join_strings(names, ", ");
        message.append(listed.as_str());
        message.append("\n");
        message.append("Run 'wtw list' to see available worktrees.");
        assert(message@ =~= "worktree '"@ + target@ + "' not found\n"@ + ("Available worktrees: "@
            + join(views(names@), ", "@) + "\n"@ + list_hint()));
    }
    AppError::User(message)
}

/// What `cd` prints: the path of the worktree that `target` names.
pub open spec fn resolution(
    ws: Seq<RecordModel>,
    base: Seq<char>,
    repo_name: Seq<char>,
    target: Option<Seq<char>>,
    sep: char,
    r: Result<Seq<char>, AppError>,
) -> bool {
    match target {
        None => r matches Err(e) && e is User && e.spec_message() == "worktree name is required"@,
        Some(t) => {
            let s = sanitized(t);
            if s.len() == 0 {
                r matches Err(e) && e is User && e.spec_message() == "worktree name is required"@
            } else {
                match r {
                    Ok(p) => exists|k: int|
                        resolves_at(ws, base, repo_name, s, sep, k) && p == ws[k].path,
                    Err(e) => (forall|k: int|
                        0 <= k < ws.len() ==> !matches_target(
                            #[trigger] ws[k],
                            base,
                            repo_name,
                            s,
                            sep,
                        )) && is_not_found(
                        e,
                        s,
                        suggestion_candidates(ws, base, repo_name, sep),
                    ),
                }
            }
        },
    }
}

/// Resolves a raw target: trims it, drops a trailing `*`, and finds its worktree.
pub fn resolve_target(
    worktrees: &Vec<WorktreeInfo>,
    base_dir: &str,
    repo_name: &str,
    target: Option<String>,
    sep: char,
) -> (r: Result<String, AppError>)
    ensures
        resolution(
            records(worktrees@),
            base_dir@,
            repo_name@,
            opt_seq(target),
            sep,
            match r {
                Ok(p) => Ok(p@),
                Err(e) => Err(e),
            },
        ),
{
    let raw = match target {
        Some(t) => t,
        None => return Err(AppError::user("worktree name is required")),
    };
    let t = sanitize_target(raw.as_str());
    if t.as_str().is_empty() {
        return Err(AppError::user("worktree name is required"));
    }
    match resolve_path(worktrees, base_dir, repo_name, t.as_str(), sep) {
        Some(p) => Ok(p),
        None => Err(worktree_not_found(t.as_str(), worktrees, base_dir, repo_name, sep)),
    }
}

pub open spec fn opt_seq(o: Option<String>) -> Option<Seq<char>> {
    match o {
        Some(s) => Some(s@),
        None => None,
    }
}

// ---------------------------------------------------------------- properties

/// At most one record resolves a target: the first that matches.
pub proof fn lemma_resolution_unique(
    ws: Seq<RecordModel>,
    base: Seq<char>,
    repo_name: Seq<char>,
    t: Seq<char>,
    sep: char,
    j: int,
    k: int,
)
    requires
        resolves_at(ws, base, repo_name, t, sep, j),
        resolves_at(ws, base, repo_name, t, sep, k),
    ensures
        j == k,
{
    if j < k {
        assert(!matches_target(ws[j], base, repo_name, t, sep));
    } else if k < j {
        assert(!matches_target(ws[k], base, repo_name, t, sep));
    }
}

/// `@` resolves to the primary checkout listed first, whatever the base directory and
/// whichever records are managed.
pub proof fn lemma_at_resolves_to_primary(
    ws: Seq<RecordModel>,
    base: Seq<char>,
    repo_name: Seq<char>,
    sep: char,
)
    requires
        ws.len() > 0,
        ws[0].is_main,
    ensures
        resolves_at(ws, base, repo_name, seq!['@'], sep, 0),
        forall|k: int| resolves_at(ws, base, repo_name, seq!['@'], sep, k) ==> k == 0,
{
    assert forall|k: int| resolves_at(ws, base, repo_name, seq!['@'], sep, k) implies k == 0 by {
        lemma_resolution_unique(ws, base, repo_name, seq!['@'], sep, 0, k);
    }
}

/// A record that is neither managed nor the primary matches no target.
pub proof fn lemma_unmanaged_never_matches(
    w: RecordModel,
    base: Seq<char>,
    repo_name: Seq<char>,
    t: Seq<char>,
    sep: char,
)
    requires
        !w.is_main,
        !managed(w, base),
    ensures
        !matches_target(w, base, repo_name, t, sep),
{
}

/// The record the first match of `t` picks, if any record matches.
pub open spec fn first_match(
    ws: Seq<RecordModel>,
    base: Seq<char>,
    repo_name: Seq<char>,
    t: Seq<char>,
    sep: char,
) -> Option<RecordModel>
    decreases ws.len(),
{
    if ws.len() == 0 {
        None
    } else {
        match first_match(ws.drop_last(), base, repo_name, t, sep) {
            Some(r) => Some(r),
            None => if matches_target(ws.last(), base, repo_name, t, sep) {
                Some(ws.last())
            } else {
                None
            },
        }
    }
}

/// The records that can match at all: the primary and the managed ones, in order.
pub open spec fn candidates(ws: Seq<RecordModel>, base: Seq<char>) -> Seq<RecordModel>
    decreases ws.len(),
{
    if ws.len() == 0 {
        Seq::empty()
    } else if ws.last().is_main || managed(ws.last(), base) {
        candidates(ws.drop_last(), base).push(ws.last())
    } else {
        candidates(ws.drop_last(), base)
    }
}

/// No match means no first match.
pub proof fn lemma_first_match_none(
    ws: Seq<RecordModel>,
    base: Seq<char>,
    repo_name: Seq<char>,
    t: Seq<char>,
    sep: char,
)
    requires
        forall|k: int| 0 <= k < ws.len() ==> !matches_target(#[trigger] ws[k], base, repo_name, t, sep),
    ensures
        first_match(ws, base, repo_name, t, sep) is None,
    decreases ws.len(),
{
    if ws.len() > 0 {
        let init = ws.drop_last();
        assert forall|k: int| 0 <= k < init.len() implies !matches_target(#[trigger] init[k], base, repo_name, t, sep) by {
            assert(init[k] == ws[k]);
        }
        lemma_first_match_none(init, base, repo_name, t, sep);
        assert(!matches_target(ws[ws.len() - 1], base, repo_name, t, sep));
    }
}

/// The record that resolves a target is the first match.
pub proof fn lemma_first_match_resolves(
    ws: Seq<RecordModel>,
    base: Seq<char>,
    repo_name: Seq<char>,
    t: Seq<char>,
    sep: char,
    k: int,
)
    requires
        resolves_at(ws, base, repo_name, t, sep, k),
    ensures
        first_match(ws, base, repo_name, t, sep) == Some(ws[k]),
    decreases ws.len(),
{
    let init = ws.drop_last();
    if k < ws.len() - 1 {
        assert(resolves_at(init, base, repo_name, t, sep, k)) by {
            assert(init[k] == ws[k]);
            assert forall|j: int| 0 <= j < k implies !matches_target(#[trigger] init[j], base, repo_name, t, sep) by {
                assert(init[j] == ws[j]);
                assert(!matches_target(ws[j], base, repo_name, t, sep));
            }
        }
        lemma_first_match_resolves(init, base, repo_name, t, sep, k);
    } else {
        assert forall|j: int| 0 <= j < init.len() implies !matches_target(#[trigger] init[j], base, repo_name, t, sep) by {
            assert(init[j] == ws[j]);
            assert(!matches_target(ws[j], base, repo_name, t, sep));
        }
        lemma_first_match_none(init, base, repo_name, t, sep);
    }
}

/// Records that are neither managed nor the primary never change what a target resolves
/// to: resolving among the primary and the managed records alone gives the same answer.
pub proof fn lemma_unmanaged_records_irrelevant(
    ws: Seq<RecordModel>,
    base: Seq<char>,
    repo_name: Seq<char>,
    t: Seq<char>,
    sep: char,
)
    ensures
        first_match(candidates(ws, base), base, repo_name, t, sep) == first_match(
            ws,
            base,
            repo_name,
            t,
            sep,
        ),
    decreases ws.len(),
{
    if ws.len() > 0 {
        let init = ws.drop_last();
        lemma_unmanaged_records_irrelevant(init, base, repo_name, t, sep);
        if ws.last().is_main || managed(ws.last(), base) {
            let c = candidates(init, base).push(ws.last());
            assert(c.drop_last() =~= candidates(init, base));
        } else {
            lemma_unmanaged_never_matches(ws.last(), base, repo_name, t, sep);
        }
    }
}

} // verus!
