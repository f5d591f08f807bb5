//! Shell integration for PowerShell: the wrapper script, and what installing it adds to
//! a profile.
use vstd::prelude::*;
use crate::paths::{join_path, joined};
use crate::text::contains_str;

verus! {

/// The PowerShell wrapper: a `wtw` function that changes directory after `wtw cd`, and
/// argument completion for subcommands and worktree names.
pub const PWSH_SCRIPT: &'static str = r#"$ErrorActionPreference = 'Stop'

function Get-WtwExePath {
    $cmd = Get-Command wtw.exe -ErrorAction SilentlyContinue
    if ($cmd) {
        return $cmd.Source
    }

    # フォールバック（PATH 上にある wtw を探す）
    $cmd = Get-Command wtw -CommandType Application -ErrorAction SilentlyContinue
    if ($cmd) {
        return $cmd.Source
    }

    throw 'wtw executable not found on PATH.'
}

function wtw {
    param(
        [Parameter(ValueFromRemainingArguments = $true)]
        [string[]] $Args
    )

    $exe = Get-WtwExePath
    $output = & $exe @Args
    $exitCode = $LASTEXITCODE

    if ($exitCode -eq 0 -and $Args.Count -gt 0 -and $Args[0] -eq 'cd') {
        $destination = ($output | Select-Object -Last 1).Trim()
        if ($destination) {
            Set-Location $destination
        }
    } else {
        if ($output) {
            $output
        }
    }

    $global:LASTEXITCODE = $exitCode
}

Register-ArgumentCompleter -Native -CommandName wtw -ScriptBlock {
    param($commandName, $parameterName, $wordToComplete, $commandAst, $fakeBoundParameters)

    $commands = @('add','list','remove','cd','shell-init')
    $elements = @($commandAst.CommandElements | ForEach-Object { $_.Extent.Text })

    if ($elements.Count -lt 2) {
        foreach ($cmd in $commands) {
            if ($cmd -like "$wordToComplete*") {
                [System.Management.Automation.CompletionResult]::new($cmd, $cmd, 'ParameterValue', $cmd)
            }
        }
        return
    }

    $subcommand = $elements[1]

    if ($subcommand -eq 'cd') {
        $exe = Get-WtwExePath
        $json = & $exe list --json 2>$null
        if (-not $?) {
            return
        }

        $items = $json | ConvertFrom-Json
        foreach ($item in $items) {
            $name = $item.name
            if (-not $name) { continue }

            # PowerShell では @ は特殊トークンなので、補完時にはクォート付きで挿入する
            if ($name -eq '@') {
                $displayName = "'@'"
            } else {
                $displayName = $name
            }

            if ($displayName -like "$wordToComplete*") {
                [System.Management.Automation.CompletionResult]::new($displayName, $displayName, 'ParameterValue', $displayName)
            }
        }
        return
    }

    if ($elements.Count -eq 2) {
        foreach ($cmd in $commands) {
            if ($cmd -like "$wordToComplete*") {
                [System.Management.Automation.CompletionResult]::new($cmd, $cmd, 'ParameterValue', $cmd)
            }
        }
    }
}
"#;

/// The line that marks a profile as already holding the integration.
pub const INTEGRATION_MARKER: &'static str = "# wtw shell integration";

pub fn script() -> (r: String)
    ensures
        r@ == PWSH_SCRIPT@,
{
    PWSH_SCRIPT.to_owned()
}

/// What installing the integration appends to a profile that holds `existing`: nothing
/// when the marker is there already; else a line break if the text does not end with
/// one, the marker line, and the script followed by a line break.
pub open spec fn profile_addition_of(existing: Seq<char>) -> Option<Seq<char>> {
    if crate::text::contains(existing, INTEGRATION_MARKER@) {
        None
    } else {
        let lead = if existing.len() > 0 && existing.last() != '\n' {
            seq!['\n']
        } else {
            Seq::empty()
        };
        Some(lead + INTEGRATION_MARKER@ + seq!['\n'] + PWSH_SCRIPT@ + seq!['\n'])
    }
}

pub fn profile_addition(existing: &str) -> (r: Option<String>)
    ensures
        match r {
            Some(s) => profile_addition_of(existing@) == Some(s@),
            None => profile_addition_of(existing@) is None,
        },
{
    if contains_str(existing, INTEGRATION_MARKER) {
        return None;
    }
    let v = crate::text::chars_of(existing);
    let mut r = String::new();
    if v.len() > 0 && v[v.len() - 1] != '\n' {
        r.push('\n');
    }
    let ghost lead = r@;
    r.append(INTEGRATION_MARKER);
    r.push('\n');
    r.append(PWSH_SCRIPT);
    r.push('\n');
    proof {
        if v@.len() > 0 && v@.last() != '\n' {
            assert(lead =~= seq!['\n']);
        } else {
            assert(lead =~= Seq::<char>::empty());
        }
    }
    assert(r@ =~= lead + INTEGRATION_MARKER@ + seq!['\n'] + PWSH_SCRIPT@ + seq!['\n']);
    Some(r)
}

/// The default PowerShell profile under the home directory `home`.
pub fn pwsh_profile_path(home: &str, sep: char) -> (r: String)
    ensures
        r@ == joined(
            joined(joined(home@, "Documents"@, sep), "PowerShell"@, sep),
            "Microsoft.PowerShell_profile.ps1"@,
            sep,
        ),
{
    let a = join_path(home, "Documents", sep);
    let b = join_path(a.as_str(), "PowerShell", sep);
    join_path(b.as_str(), "Microsoft.PowerShell_profile.ps1", sep)
}

} // verus!
