//! Post-create hooks: what each hook does once its paths are resolved, and the run that
//! issues them strictly in order and stops at the first failure.
use vstd::prelude::*;
use crate::config::{CommandHook, Config, CopyHook, Hook};
use crate::error::AppError;
use crate::paths::{components, is_absolute, is_absolute_path, is_within, join_path, joined, path_is_within, split_path};
use crate::text::{decimal, decimal_string, join, join_strings, views};

verus! {

/// The variable naming the new worktree, set for every hook command.
pub const WORKTREE_PATH_VAR: &'static str = "GIT_WTP_WORKTREE_PATH";

/// The variable naming the primary checkout, set for every hook command.
pub const REPO_ROOT_VAR: &'static str = "GIT_WTP_REPO_ROOT";

/// A variable removed from the environment of hook commands.
pub const SHELL_INTEGRATION_VAR: &'static str = "WTP_SHELL_INTEGRATION";

/// `p` shown relative to `base` when it lies below it.
pub open spec fn shown_relative(p: Seq<char>, base: Seq<char>, sep: char) -> Seq<char> {
    if is_within(p, base) {
        join(components(p).skip(components(base).len() as int), seq![sep])
    } else {
        p
    }
}

/// One hook, ready to perform.
#[derive(Debug)]
pub enum HookStep {
    /// Copy the file or tree at `from` to `to`, creating missing parents of `to`.
    Copy { from: String, to: String, from_shown: String, to_shown: String },
    /// Run `command` through the shell in `work_dir`, with `env` set on top of the
    /// inherited environment (later entries win) and `unset` removed.
    Command { command: String, work_dir: String, env: Vec<(String, String)>, unset: String },
}

/// `path` taken from `base` unless absolute.
pub open spec fn resolved_from(base: Seq<char>, path: Seq<char>, sep: char) -> Seq<char> {
    if is_absolute(path) {
        path
    } else {
        joined(base, path, sep)
    }
}

/// `step` performs the copy `hook` for the worktree at `wt` of the repository at `root`.
pub open spec fn is_copy_step(step: HookStep, hook: CopyHook, root: Seq<char>, wt: Seq<char>, sep: char) -> bool {
    step matches HookStep::Copy { from, to, from_shown, to_shown } && from@ == resolved_from(root, hook.from@, sep)
        && to@ == resolved_from(wt, hook.to@, sep) && from_shown@ == shown_relative(from@, root, sep)
        && to_shown@ == shown_relative(to@, wt, sep)
}

/// `step` runs the command `hook` for the worktree at `wt` of the repository at `root`:
/// in its working directory, with its variables and then the two injected ones.
pub open spec fn is_command_step(step: HookStep, hook: CommandHook, root: Seq<char>, wt: Seq<char>, sep: char) -> bool {
    step matches HookStep::Command { command, work_dir, env, unset } && command@ == hook.command@
        && work_dir@ == (match hook.work_dir {
        Some(d) => resolved_from(wt, d@, sep),
        None => wt,
    }) && env@.len() == hook.env@.len() + 2 && (forall|i: int|
        0 <= i < hook.env@.len() ==> env@[i].0@ == (#[trigger] hook.env@[i]).0@ && env@[i].1@
            == hook.env@[i].1@) && env@[hook.env@.len() as int].0@ == WORKTREE_PATH_VAR@
        && env@[hook.env@.len() as int].1@ == wt && env@[hook.env@.len() + 1int].0@ == REPO_ROOT_VAR@
        && env@[hook.env@.len() + 1int].1@ == root && unset@ == SHELL_INTEGRATION_VAR@
}

pub open spec fn is_step_for(step: HookStep, hook: Hook, root: Seq<char>, wt: Seq<char>, sep: char) -> bool {
    match hook {
        Hook::Copy(c) => is_copy_step(step, c, root, wt, sep),
        Hook::Command(c) => is_command_step(step, c, root, wt, sep),
    }
}

#[derive(Debug)]
pub struct HookExecutor<'a> {
    config: &'a Config,
    repo_root: &'a str,
}

impl<'a> HookExecutor<'a> {
    pub closed spec fn spec_config(&self) -> &'a Config {
        self.config
    }

    pub closed spec fn spec_repo_root(&self) -> Seq<char> {
        self.repo_root@
    }

    pub fn new(config: &'a Config, repo_root: &'a str) -> (r: HookExecutor<'a>)
        ensures
            r.spec_config() == config,
            r.spec_repo_root() == repo_root@,
    {
        HookExecutor { config, repo_root }
    }

    /// A hook source: relative to the primary checkout unless absolute.
    pub fn resolve_repo_path(&self, path: &str, sep: char) -> (r: String)
        ensures
            r@ == if is_absolute(path@) {
                path@
            } else {
                joined(self.spec_repo_root(), path@, sep)
            },
    {
        if is_absolute_path(path) {
            path.to_owned()
        } else {
            join_path(self.repo_root, path, sep)
        }
    }

    /// A hook destination: relative to the new worktree unless absolute.
    pub fn resolve_worktree_path(&self, worktree_path: &str, path: &str, sep: char) -> (r: String)
        ensures
            r@ == if is_absolute(path@) {
                path@
            } else {
                joined(worktree_path@, path@, sep)
            },
    {
        if is_absolute_path(path) {
            path.to_owned()
        } else {
            join_path(worktree_path, path, sep)
        }
    }

    pub fn relative_to_repo(&self, path: &str, sep: char) -> (r: String)
        ensures
            r@ == shown_relative(path@, self.spec_repo_root(), sep),
    {
        relative_display(path, self.repo_root, sep)
    }

    pub fn relative_to_worktree(&self, worktree_path: &str, path: &str, sep: char) -> (r: String)
        ensures
            r@ == shown_relative(path@, worktree_path@, sep),
    {
        relative_display(path, worktree_path, sep)
    }

    /// The copy step for `hook`.
    fn copy_step(&self, hook: &CopyHook, worktree_path: &str, sep: char) -> (r: HookStep)
        ensures
            is_copy_step(r, *hook, self.spec_repo_root(), worktree_path@, sep),
    {
        let from = self.resolve_repo_path(hook.from.as_str(), sep);
        let to = self.resolve_worktree_path(worktree_path, hook.to.as_str(), sep);
        let from_shown = self.relative_to_repo(from.as_str(), sep);
        let to_shown = self.relative_to_worktree(worktree_path, to.as_str(), sep);
        HookStep::Copy { from, to, from_shown, to_shown }
    }

    /// The command step for `hook`: its declared variables, then the new worktree's path
    /// and the primary checkout's path.
    fn command_step(&self, hook: &CommandHook, worktree_path: &str, sep: char) -> (r: HookStep)
        ensures
            is_command_step(r, *hook, self.spec_repo_root(), worktree_path@, sep),
    {
        let work_dir = match &hook.work_dir {
            Some(d) => self.resolve_worktree_path(worktree_path, d.as_str(), sep),
            None => worktree_path.to_owned(),
        };
        let mut env: Vec<(String, String)> = Vec::new();
        let mut i: usize = 0;
        while i < hook.env.len()
            invariant
                i <= hook.env@.len(),
                env@.len() == i,
                forall|k: int|
                    0 <= k < i ==> env@[k].0@ == (#[trigger] hook.env@[k]).0@ && env@[k].1@
                        == hook.env@[k].1@,
            decreases hook.env@.len() - i,
        {
            let (k, v) = &hook.env[i];
            env.push((k.clone(), v.clone()));
            i += 1;
        }
        env.push((WORKTREE_PATH_VAR.to_owned(), worktree_path.to_owned()));
        env.push((REPO_ROOT_VAR.to_owned(), self.repo_root.to_owned()));
        HookStep::Command {
            command: hook.command.clone(),
            work_dir,
            env,
            unset: SHELL_INTEGRATION_VAR.to_owned(),
        }
    }

    /// The post-create hooks of the configuration, in order, for the new worktree at
    /// `worktree_path`.
    pub fn plan_hooks(&self, worktree_path: &str, sep: char) -> (r: Vec<HookStep>)
        ensures
            r@.len() == self.spec_config().hooks.post_create@.len(),
            forall|i: int|
                0 <= i < r@.len() ==> is_step_for(
                    #[trigger] r@[i],
                    self.spec_config().hooks.post_create@[i],
                    self.spec_repo_root(),
                    worktree_path@,
                    sep,
                ),
    {
        let hooks = &self.config.hooks.post_create;
        let mut steps: Vec<HookStep> = Vec::new();
        let mut i: usize = 0;
        while i < hooks.len()
            invariant
                i <= hooks@.len(),
                hooks == &self.spec_config().hooks.post_create,
                steps@.len() == i,
                forall|k: int|
                    0 <= k < i ==> is_step_for(
                        #[trigger] steps@[k],
                        hooks@[k],
                        self.spec_repo_root(),
                        worktree_path@,
                        sep,
                    ),
            decreases hooks@.len() - i,
        {
            let step = match &hooks[i] {
                Hook::Copy(c) => self.copy_step(c, worktree_path, sep),
                Hook::Command(c) => self.command_step(c, worktree_path, sep),
            };
            steps.push(step);
            i += 1;
        }
        steps
    }
}

/// `path` shown relative to `base` when it lies below it.
fn relative_display(path: &str, base: &str, sep: char) -> (r: String)
    ensures
        r@ == shown_relative(path@, base@, sep),
{
    if !path_is_within(path, base) {
        return path.to_owned();
    }
    let (pc, _) = split_path(path);
    let (bc, _) = split_path(base);
    let mut rel: Vec<String> = Vec::new();
    let mut i = bc.len();
    assert(views(rel@) =~= views(pc@).subrange(bc@.len() as int, i as int));
    while i < pc.len()
        invariant
            bc@.len() <= i <= pc@.len(),
            views(rel@) == views(pc@).subrange(bc@.len() as int, i as int),
        decreases pc@.len() - i,
    {
        let piece = pc[i].clone();
        let ghost before = views(rel@);
        rel.push(piece);
        assert(views(rel@) =~= before.push(pc@[i as int]@));
        assert(views(rel@) =~= views(pc@).subrange(bc@.len() as int, i + 1));
        i += 1;
    }
    assert(views(rel@) =~= components(path@).skip(components(base@).len() as int));
    let mut sep_text = String::new();
    sep_text.push(sep);
    assert(sep_text@ =~= seq![sep]);
    join_strings(&rel, sep_text.as_str())
}

// ---------------------------------------------------------------- the run

/// The state of a run of `total` hooks: the next to issue, and the failure that ended
/// the run, if one did.
pub struct HookRunModel {
    pub total: nat,
    pub next: nat,
    pub failed: Option<(nat, Seq<char>)>,
}

/// A run of `total` hooks that has not issued any.
pub open spec fn run_started(total: nat) -> HookRunModel {
    HookRunModel { total, next: 0, failed: None }
}

/// The hook to perform now, if the run goes on.
pub open spec fn run_current(m: HookRunModel) -> Option<nat> {
    if m.failed is None && m.next < m.total {
        Some(m.next)
    } else {
        None
    }
}

/// The run after the current hook ended with `outcome`.
pub open spec fn run_recorded(m: HookRunModel, outcome: Result<(), Seq<char>>) -> HookRunModel {
    match outcome {
        Ok(()) => HookRunModel { next: m.next + 1, ..m },
        Err(e) => HookRunModel { failed: Some((m.next, e)), ..m },
    }
}

/// The message of a run that failed at hook `index` (counted from zero).
pub open spec fn hook_failure_message(index: nat, cause: Seq<char>) -> Seq<char> {
    "hook "@ + decimal(index + 1) + " failed: "@ + cause
}

/// How a finished run ended: the failure names its hook, else every hook succeeded.
pub open spec fn run_result(m: HookRunModel) -> Result<(), Seq<char>> {
    match m.failed {
        Some((i, e)) => Err(hook_failure_message(i, e)),
        None => Ok(()),
    }
}

/// Issues hooks one by one, in order, until one fails or all are done.
#[derive(Debug)]
pub struct HookRun {
    total: usize,
    next: usize,
    failed: Option<(usize, String)>,
}

impl View for HookRun {
    type V = HookRunModel;

    closed spec fn view(&self) -> HookRunModel {
        HookRunModel {
            total: self.total as nat,
            next: self.next as nat,
            failed: match self.failed {
                Some((i, e)) => Some((i as nat, e@)),
                None => None,
            },
        }
    }
}

impl HookRun {
    /// Well-formed: the next hook is within the run, and a failure stops at its hook.
    pub closed spec fn wf(&self) -> bool {
        &&& self.next <= self.total
        &&& self.failed matches Some((i, _)) ==> i == self.next && i < self.total
    }

    pub fn start(total: usize) -> (r: HookRun)
        ensures
            r.wf(),
            r@ == run_started(total as nat),
    {
        HookRun { total, next: 0, failed: None }
    }

    /// The index of the hook to perform now; none once the run has ended.
    pub fn current(&self) -> (r: Option<usize>)
        requires
            self.wf(),
        ensures
            match r {
                Some(i) => run_current(self@) == Some(i as nat),
                None => run_current(self@) is None,
            },
    {
        if self.failed.is_none() && self.next < self.total {
            Some(self.next)
        } else {
            None
        }
    }

    /// Records how the current hook ended.
    pub fn record(&mut self, outcome: Result<(), String>)
        requires
            old(self).wf(),
            run_current(old(self)@) is Some,
        ensures
            final(self).wf(),
            final(self)@ == run_recorded(
                old(self)@,
                match outcome {
                    Ok(()) => Ok(()),
                    Err(e) => Err(e@),
                },
            ),
    {
        match outcome {
            Ok(()) => {
                self.next = self.next + 1;
            },
            Err(e) => {
                self.failed = Some((self.next, e));
            },
        }
    }

    /// How the run ended: a backend error naming the failed hook, or success.
    pub fn finish(self) -> (r: Result<(), AppError>)
        requires
            self.wf(),
            run_current(self@) is None,
        ensures
            match (r, run_result(self@)) {
                (Ok(()), Ok(())) => true,
                (Err(e), Err(m)) => e is Git && e.spec_message() == m,
                _ => false,
            },
    {
        match self.failed {
            Some((i, e)) => {
                let mut m = String::from_str("hook ");
                let n = decimal_string(i + 1);
                m.append(n.as_str());
                m.append(" failed: ");
                m.append(e.as_str());
                Err(AppError::Git(m))
            },
            None => Ok(()),
        }
    }
}

// ---------------------------------------------------------------- properties

/// Hooks are issued in order: after hook `i` succeeds, hook `i + 1` is next, if there is one.
pub proof fn lemma_run_in_order(m: HookRunModel, i: nat)
    requires
        run_current(m) == Some(i),
    ensures
        run_current(run_recorded(m, Ok(()))) == if i + 1 < m.total {
            Some((i + 1) as nat)
        } else {
            None::<nat>
        },
{
}

/// A failed hook ends the run: no later hook is issued, and the run fails naming that hook
/// and its cause.
pub proof fn lemma_run_stops_at_failure(m: HookRunModel, i: nat, cause: Seq<char>)
    requires
        run_current(m) == Some(i),
    ensures
        run_current(run_recorded(m, Err(cause))) is None,
        run_result(run_recorded(m, Err(cause))) == Err::<(), Seq<char>>(hook_failure_message(i, cause)),
{
}

} // verus!
