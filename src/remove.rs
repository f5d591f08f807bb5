//! Planning the removal of a worktree. Only managed checkouts other than the primary can
//! be removed, and never the one the command runs in.
use vstd::prelude::*;
use crate::cli::RemoveCommand;
use crate::error::AppError;
use crate::inventory::{opt_view, records, RecordModel, WorktreeInfo};
use crate::names::{display_name_of, display_name_with, is_managed, last_component, managed};
use crate::order::sorted_unique;
use crate::repo::{same_path, same_place};
use crate::resolve::{
    is_not_found, matches_branch, matches_directory_name, matches_display_name, not_found_error,
};
use crate::runner::{command_failure, failure_message};
use crate::text::{trim, trimmed, views};

verus! {

/// Whether a record may be removed at all: managed, and not the primary checkout.
pub open spec fn removable(w: RecordModel, base: Seq<char>) -> bool {
    !w.is_main && managed(w, base)
}

/// Whether `t` names the removable record `w`: its branch, last component or display name.
pub open spec fn names_removable(w: RecordModel, base: Seq<char>, t: Seq<char>, sep: char) -> bool {
    removable(w, base) && (w.branch == Some(t) || last_component(w.path) == Some(t)
        || display_name_of(w, base, sep) == t)
}

/// Record `k` is the first removable record that `t` names.
pub open spec fn removal_at(ws: Seq<RecordModel>, base: Seq<char>, t: Seq<char>, sep: char, k: int) -> bool {
    &&& 0 <= k < ws.len()
    &&& names_removable(ws[k], base, t, sep)
    &&& forall|j: int| 0 <= j < k ==> !names_removable(#[trigger] ws[j], base, t, sep)
}

/// The display names of the removable records, in order.
pub open spec fn removable_names(ws: Seq<RecordModel>, base: Seq<char>, sep: char) -> Seq<Seq<char>>
    decreases ws.len(),
{
    if ws.len() == 0 {
        Seq::empty()
    } else {
        let r = removable_names(ws.drop_last(), base, sep);
        if removable(ws.last(), base) {
            r.push(display_name_of(ws.last(), base, sep))
        } else {
            r
        }
    }
}

/// Finds the removable record that `target` names, or says which names exist.
pub fn find_target_worktree(
    worktrees: &Vec<WorktreeInfo>,
    base_dir: &str,
    target: &str,
    sep: char,
) -> (r: Result<usize, AppError>)
    ensures
        match r {
            Ok(k) => removal_at(records(worktrees@), base_dir@, target@, sep, k as int),
            Err(e) => (forall|k: int|
                0 <= k < worktrees@.len() ==> !names_removable(
                    #[trigger] records(worktrees@)[k],
                    base_dir@,
                    target@,
                    sep,
                )) && is_not_found(e, target@, removable_names(records(worktrees@), base_dir@, sep)),
        },
{
    let ghost ws = records(worktrees@);
    let mut available: Vec<String> = Vec::new();
    let mut i: usize = 0;
    assert(views(available@) =~= removable_names(ws.subrange(0, 0), base_dir@, sep));
    while i < worktrees.len()
        invariant
            i <= worktrees@.len(),
            ws == records(worktrees@),
            views(available@) == removable_names(ws.subrange(0, i as int), base_dir@, sep),
            forall|j: int| 0 <= j < i ==> !names_removable(#[trigger] ws[j], base_dir@, target@, sep),
        decreases worktrees@.len() - i,
    {
        let info = &worktrees[i];
        let ghost prefix = ws.subrange(0, i + 1);
        assert(prefix.drop_last() =~= ws.subrange(0, i as int));
        assert(prefix.last() == info@);
        if !info.is_main && is_managed(info, base_dir) {
            if matches_branch(info, target) || matches_directory_name(info, target)
                || matches_display_name(info, base_dir, target, sep) {
                return Ok(i);
            }
            let name = display_name_with(info, base_dir, sep);
            let ghost before = views(available@);
            available.push(name);
            assert(views(available@) =~= before.push(name@));
        }
        i += 1;
    }
    assert(ws.subrange(0, worktrees@.len() as int) =~= ws);
    let names = sorted_unique(&available);
    Err(not_found_error(target, &names))
}

/// The target of a removal: the trimmed name given, which is required, and a refusal of
/// `--force-branch` without `--with-branch`.
pub fn removal_target(cmd: &RemoveCommand) -> (r: Result<String, AppError>)
    ensures
        match r {
            Ok(t) => opt_view(cmd.target) is Some && trim(opt_view(cmd.target)->0).len() > 0 && t@
                == trim(opt_view(cmd.target)->0) && !(cmd.force_branch && !cmd.with_branch),
            Err(e) => e is User && if opt_view(cmd.target) is Some && trim(opt_view(cmd.target)->0).len()
                > 0 {
                cmd.force_branch && !cmd.with_branch && e.spec_message()
                    == "--force-branch requires --with-branch"@
            } else {
                e.spec_message() == "worktree name is required"@
            },
        },
{
    let target = match &cmd.target {
        Some(t) => trimmed(t.as_str()),
        None => return Err(AppError::user("worktree name is required")),
    };
    if target.as_str().is_empty() {
        return Err(AppError::user("worktree name is required"));
    }
    if cmd.force_branch && !cmd.with_branch {
        return Err(AppError::user("--force-branch requires --with-branch"));
    }
    Ok(target)
}

/// What to delete: the worktree, how, and which branch afterwards.
#[derive(Debug)]
pub struct RemovalPlan {
    pub path: String,
    pub force: bool,
    /// The branch to delete after the worktree, and whether by force.
    pub branch: Option<(String, bool)>,
}

pub open spec fn current_message(target: Seq<char>, path: Seq<char>) -> Seq<char> {
    "cannot remove the current worktree '"@ + target + "': "@ + path
}

/// Plans the removal of the worktree that `target` names. `current` is the checkout the
/// command runs in, which is refused.
pub fn plan_removal(
    worktrees: &Vec<WorktreeInfo>,
    base_dir: &str,
    current: &str,
    target: &str,
    force: bool,
    with_branch: bool,
    force_branch: bool,
    sep: char,
) -> (r: Result<RemovalPlan, AppError>)
    ensures
        (exists|k: int|
            removal_at(records(worktrees@), base_dir@, target@, sep, k) && same_place(
                worktrees@[k].path@,
                current@,
            )) ==> r is Err,
        match r {
            Ok(plan) => exists|k: int|
                removal_at(records(worktrees@), base_dir@, target@, sep, k) && !same_place(
                    worktrees@[k].path@,
                    current@,
                ) && plan.path@ == worktrees@[k].path@ && plan.force == force && match plan.branch {
                    Some((b, f)) => with_branch && opt_view(worktrees@[k].branch) == Some(b@)
                        && f == force_branch,
                    None => !with_branch || worktrees@[k].branch is None,
                },
            Err(e) => e is User && ((exists|k: int|
                removal_at(records(worktrees@), base_dir@, target@, sep, k) && same_place(
                    worktrees@[k].path@,
                    current@,
                ) && e.spec_message() == current_message(target@, worktrees@[k].path@)) || (
            forall|k: int|
                0 <= k < worktrees@.len() ==> !names_removable(
                    #[trigger] records(worktrees@)[k],
                    base_dir@,
                    target@,
                    sep,
                )) && is_not_found(
                e,
                target@,
                removable_names(records(worktrees@), base_dir@, sep),
            )),
        },
{
    let k = match find_target_worktree(worktrees, base_dir, target, sep) {
        Ok(k) => k,
        Err(e) => return Err(e),
    };
    proof {
        assert forall|j: int|
            removal_at(records(worktrees@), base_dir@, target@, sep, j) implies j == k by {
            lemma_removal_unique(records(worktrees@), base_dir@, target@, sep, j, k as int);
        }
    }
    let info = &worktrees[k];
    if same_path(info.path.as_str(), current) {
        let mut m = String::from_str("cannot remove the current worktree '");
        m.append(target);
        m.append("': ");
        m.append(info.path.as_str());
        assert(m@ =~= current_message(target@, worktrees@[k as int].path@));
        return Err(AppError::User(m));
    }
    let branch = if with_branch {
        match &info.branch {
            Some(b) => Some((b.clone(), force_branch)),
            None => None,
        }
    } else {
        None
    };
    Ok(RemovalPlan { path: info.path.clone(), force, branch })
}

/// The arguments of the command that deletes the worktree at `path`.
pub fn remove_worktree_args(path: &str, force: bool) -> (r: Vec<String>)
    ensures
        views(r@) == if force {
            seq!["worktree"@, "remove"@, "--force"@, path@]
        } else {
            seq!["worktree"@, "remove"@, path@]
        },
{
    let mut args: Vec<String> = Vec::new();
    args.push(String::from_str("worktree"));
    args.push(String::from_str("remove"));
    if force {
        args.push(String::from_str("--force"));
    }
    args.push(path.to_owned());
    proof {
        if force {
            assert(views(args@) =~= seq!["worktree"@, "remove"@, "--force"@, path@]);
        } else {
            assert(views(args@) =~= seq!["worktree"@, "remove"@, path@]);
        }
    }
    args
}

/// The arguments of the command that deletes `branch`: `-D` when forced, else `-d`.
pub fn remove_branch_args(branch: &str, force: bool) -> (r: Vec<String>)
    ensures
        views(r@) == seq!["branch"@, if force { "-D"@ } else { "-d"@ }, branch@],
{
    let mut args: Vec<String> = Vec::new();
    args.push(String::from_str("branch"));
    if force {
        args.push(String::from_str("-D"));
    } else {
        args.push(String::from_str("-d"));
    }
    args.push(branch.to_owned());
    assert(views(args@) =~= seq!["branch"@, if force { "-D"@ } else { "-d"@ }, branch@]);
    args
}

/// The error for a failed deletion of the worktree at `path`.
pub fn remove_worktree_failure(stderr: &str, path: &str) -> (r: AppError)
    ensures
        r is Git,
        r.spec_message() == failure_message(
            stderr@,
            "git worktree remove failed for "@ + path@ + " without error output"@,
        ),
{
    let mut fallback = String::from_str("git worktree remove failed for ");
    fallback.append(path);
    fallback.append(" without error output");
    command_failure(stderr, fallback)
}

/// The error for a failed deletion of `branch`.
pub fn remove_branch_failure(stderr: &str, branch: &str) -> (r: AppError)
    ensures
        r is Git,
        r.spec_message() == failure_message(
            stderr@,
            "failed to remove branch '"@ + branch@ + "'"@,
        ),
{
    let mut fallback = String::from_str("failed to remove branch '");
    fallback.append(branch);
    fallback.append("'");
    command_failure(stderr, fallback)
}

// ---------------------------------------------------------------- properties

/// At most one record is the target of a removal.
pub proof fn lemma_removal_unique(ws: Seq<RecordModel>, base: Seq<char>, t: Seq<char>, sep: char, j: int, k: int)
    requires
        removal_at(ws, base, t, sep, j),
        removal_at(ws, base, t, sep, k),
    ensures
        j == k,
{
    if j < k {
        assert(!names_removable(ws[j], base, t, sep));
    } else if k < j {
        assert(!names_removable(ws[k], base, t, sep));
    }
}

/// When the target of a removal is the worktree the command runs in, no removal can be
/// planned: every target the name picks is that worktree.
pub proof fn lemma_current_worktree_kept(
    ws: Seq<WorktreeInfo>,
    base: Seq<char>,
    current: Seq<char>,
    t: Seq<char>,
    sep: char,
    k: int,
)
    requires
        removal_at(records(ws), base, t, sep, k),
        same_place(ws[k].path@, current),
    ensures
        forall|j: int| removal_at(records(ws), base, t, sep, j) ==> same_place(#[trigger] ws[j].path@, current),
{
    assert forall|j: int| removal_at(records(ws), base, t, sep, j) implies same_place(#[trigger] ws[j].path@, current) by {
        lemma_removal_unique(records(ws), base, t, sep, j, k);
    }
}

} // verus!
