//! Configuration values: the base directory of managed worktrees and the post-create
//! hooks.
use vstd::prelude::*;
use crate::paths::{
    is_absolute, is_absolute_path, is_sep, join_path, joined, platform_separator, strip_verbatim,
    strip_verbatim_prefix,
};
use crate::text::{trim, trimmed};

verus! {

pub const DEFAULT_VERSION: &'static str = "1.0";

pub const DEFAULT_BASE_DIR: &'static str = "../worktree";

#[derive(Debug)]
pub struct Config {
    pub version: String,
    pub defaults: Defaults,
    pub hooks: Hooks,
}

#[derive(Debug)]
pub struct Defaults {
    /// Absolute, or relative to the primary checkout.
    pub base_dir: String,
}

#[derive(Debug)]
pub struct Hooks {
    /// Run in this order after a worktree is created.
    pub post_create: Vec<Hook>,
}

#[derive(Debug)]
pub enum Hook {
    Copy(CopyHook),
    Command(CommandHook),
}

/// Copies a file or a directory tree into the new worktree.
#[derive(Debug)]
pub struct CopyHook {
    /// Relative to the primary checkout unless absolute.
    pub from: String,
    /// Relative to the new worktree unless absolute.
    pub to: String,
}

/// Runs one shell command in the new worktree.
#[derive(Debug)]
pub struct CommandHook {
    pub command: String,
    /// Variables set for the command, on top of the inherited environment.
    pub env: Vec<(String, String)>,
    /// Relative to the new worktree unless absolute; the worktree itself when absent.
    pub work_dir: Option<String>,
}

/// The base directory `base` taken from the primary checkout at `repo_root`.
pub open spec fn base_dir_from(base: Seq<char>, repo_root: Seq<char>, sep: char) -> Seq<char> {
    if is_absolute(base) {
        strip_verbatim(base)
    } else {
        joined(strip_verbatim(repo_root), base, sep)
    }
}

fn default_version() -> (r: String)
    ensures
        r@ == DEFAULT_VERSION@,
{
    DEFAULT_VERSION.to_owned()
}

fn default_base_dir() -> (r: String)
    ensures
        r@ == DEFAULT_BASE_DIR@,
{
    DEFAULT_BASE_DIR.to_owned()
}

/// `path` without its verbatim marker.
fn normalize_fs_path(path: &str) -> (r: String)
    ensures
        r@ == strip_verbatim(path@),
{
    strip_verbatim_prefix(path)
}

impl Default for Defaults {
    fn default() -> (r: Defaults)
        ensures
            r.base_dir@ == DEFAULT_BASE_DIR@,
    {
        Defaults { base_dir: default_base_dir() }
    }
}

impl Default for Hooks {
    fn default() -> (r: Hooks)
        ensures
            r.post_create@.len() == 0,
    {
        Hooks { post_create: Vec::new() }
    }
}

impl Default for Config {
    fn default() -> (r: Config)
        ensures
            r.version@ == DEFAULT_VERSION@,
            r.defaults.base_dir@ == DEFAULT_BASE_DIR@,
            r.hooks.post_create@.len() == 0,
    {
        Config {
            version: default_version(),
            defaults: Defaults { base_dir: default_base_dir() },
            hooks: Hooks { post_create: Vec::new() },
        }
    }
}

impl Defaults {
    /// The base directory taken from `repo_root`, joined with `sep`.
    pub fn resolve_base_dir_with(&self, repo_root: &str, sep: char) -> (r: String)
        ensures
            r@ == base_dir_from(self.base_dir@, repo_root@, sep),
    {
        if is_absolute_path(self.base_dir.as_str()) {
            normalize_fs_path(self.base_dir.as_str())
        } else {
            let root = normalize_fs_path(repo_root);
            join_path(root.as_str(), self.base_dir.as_str(), sep)
        }
    }

    /// The base directory taken from `repo_root`, joined with the platform's separator.
    pub fn resolve_base_dir(&self, repo_root: &str) -> (r: String)
        ensures
            exists|sep: char| is_sep(sep) && r@ == base_dir_from(self.base_dir@, repo_root@, sep),
    {
        let sep = platform_separator();
        self.resolve_base_dir_with(repo_root, sep)
    }
}

impl Config {
    pub fn resolved_base_dir_with(&self, repo_root: &str, sep: char) -> (r: String)
        ensures
            r@ == base_dir_from(self.defaults.base_dir@, repo_root@, sep),
    {
        self.defaults.resolve_base_dir_with(repo_root, sep)
    }

    pub fn resolved_base_dir(&self, repo_root: &str) -> (r: String)
        ensures
            exists|sep: char|
                is_sep(sep) && r@ == base_dir_from(self.defaults.base_dir@, repo_root@, sep),
    {
        self.defaults.resolve_base_dir(repo_root)
    }

    /// Puts the default version in place of a blank one.
    pub fn fill_default_version(&mut self)
        ensures
            trim(old(self).version@).len() == 0 ==> final(self).version@ == DEFAULT_VERSION@,
            trim(old(self).version@).len() != 0 ==> final(self).version == old(self).version,
            final(self).defaults == old(self).defaults,
            final(self).hooks == old(self).hooks,
    {
        let t = trimmed(self.version.as_str());
        if t.as_str().is_empty() {
            self.version = default_version();
        }
    }
}

} // verus!
