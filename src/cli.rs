//! The command line as values: what each subcommand was given.
use vstd::prelude::*;
use crate::error::AppError;

verus! {

#[derive(Debug)]
pub struct Cli {
    pub global: GlobalOptions,
    pub command: Command,
}

#[derive(Debug)]
pub struct GlobalOptions {
    /// How many times `--verbose` was given.
    pub verbose: u8,
    pub quiet: bool,
    /// A directory to treat as the repository instead of the current one.
    pub repo: Option<String>,
}

#[derive(Debug)]
pub enum Command {
    Add(AddCommand),
    List(ListCommand),
    Remove(RemoveCommand),
    Cd(CdCommand),
    Init(InitCommand),
    ShellInit(ShellInitCommand),
}

#[derive(Debug)]
pub struct AddCommand {
    /// A branch or a commit.
    pub target: Option<String>,
    /// Name of a new branch.
    pub branch: Option<String>,
    /// `remote/branch` to track.
    pub track: Option<String>,
}

#[derive(Debug)]
pub struct ListCommand {
    pub json: bool,
}

#[derive(Debug)]
pub struct RemoveCommand {
    pub target: Option<String>,
    pub force: bool,
    pub with_branch: bool,
    pub force_branch: bool,
}

#[derive(Debug)]
pub struct CdCommand {
    pub target: Option<String>,
}

#[derive(Debug)]
pub struct ShellInitCommand {
    pub shell: ShellKind,
}

#[derive(Debug)]
pub struct InitCommand {
    pub shell: ShellKind,
    /// The shell profile to install into; the default profile when absent.
    pub profile: Option<String>,
}

#[derive(Debug, Clone, Copy, PartialEq, Eq, Structural)]
pub enum ShellKind {
    Pwsh,
    Cmd,
    Bash,
}

impl ShellKind {
    pub open spec fn spec_name(self) -> Seq<char> {
        match self {
            ShellKind::Pwsh => "pwsh"@,
            ShellKind::Cmd => "cmd"@,
            ShellKind::Bash => "bash"@,
        }
    }

    pub fn as_str(self) -> (r: &'static str)
        ensures
            r@ == self.spec_name(),
    {
        match self {
            ShellKind::Pwsh => "pwsh",
            ShellKind::Cmd => "cmd",
            ShellKind::Bash => "bash",
        }
    }

    /// Only PowerShell has a shell integration; the others are refused.
    pub fn ensure_supported(self) -> (r: Result<(), AppError>)
        ensures
            r is Ok <==> self == ShellKind::Pwsh,
            r matches Err(e) ==> e is User && e.spec_message() == "shell '"@ + self.spec_name()
                + "' is not supported yet"@,
    {
        match self {
            ShellKind::Pwsh => Ok(()),
            _ => {
                let mut m = String::from_str("shell '");
                m.append(self.as_str());
                m.append("' is not supported yet");
                Err(AppError::User(m))
            },
        }
    }
}

/// How much the process logs.
#[derive(Debug, Clone, Copy, PartialEq, Eq, Structural)]
pub enum LogLevel {
    Error,
    Warn,
    Debug,
    Trace,
}

/// The log level the global options ask for: errors only when quiet, otherwise warnings,
/// debug output with one `--verbose`, everything with more.
pub open spec fn spec_log_level(o: GlobalOptions) -> LogLevel {
    if o.quiet {
        LogLevel::Error
    } else if o.verbose == 0 {
        LogLevel::Warn
    } else if o.verbose == 1 {
        LogLevel::Debug
    } else {
        LogLevel::Trace
    }
}

impl GlobalOptions {
    pub fn log_level(&self) -> (r: LogLevel)
        ensures
            r == spec_log_level(*self),
    {
        if self.quiet {
            LogLevel::Error
        } else if self.verbose == 0 {
            LogLevel::Warn
        } else if self.verbose == 1 {
            LogLevel::Debug
        } else {
            LogLevel::Trace
        }
    }
}

} // verus!
