//! Decisions of the lifecycle commands: which command the flags select,
//! what cleanup must do, which arguments the external processes get, and
//! how interactive menu input is validated. The caller performs the
//! filesystem work and process launches these decisions call for.

use vstd::prelude::*;
use vstd::string::*;

use crate::cli::Cli;
use crate::config::{digit_val, is_digit};
use crate::errors::RpError;

verus! {

/// The action one invocation performs.
#[derive(Debug, Clone, Copy, PartialEq, Eq, Structural)]
pub enum Command {
    /// Print the projects of both categories.
    List,
    /// Remove every temporary project.
    Clean,
    /// Choose an existing project and print its editor command.
    Open,
    /// Scaffold a new project.
    Create,
}

/// Chooses the command the parsed flags ask for, with listing before
/// cleanup, cleanup before opening, and creation as the default.
pub fn select_command(cli: &Cli) -> (c: Command)
    ensures
        cli.list ==> c == Command::List,
        !cli.list && cli.clean ==> c == Command::Clean,
        !cli.list && !cli.clean && cli.open ==> c == Command::Open,
        !cli.list && !cli.clean && !cli.open ==> c == Command::Create,
{
    if cli.list {
        Command::List
    } else if cli.clean {
        Command::Clean
    } else if cli.open {
        Command::Open
    } else {
        Command::Create
    }
}

/// What the cleanup command must do to the temporary directory.
#[derive(Debug, Clone, Copy, PartialEq, Eq, Structural)]
pub enum CleanOutcome {
    /// The directory does not exist: nothing to clean.
    MissingDir,
    /// The directory exists and holds no entry: nothing to delete.
    AlreadyEmpty,
    /// Delete the whole directory — it holds `count` entries — and
    /// recreate it empty.
    Remove { count: usize },
}

/// Decides the cleanup action from the state of the temporary directory:
/// a missing or empty directory is left alone, anything else is removed
/// and recreated empty.
pub fn clean_plan(dir_exists: bool, entry_count: usize) -> (r: CleanOutcome)
    ensures
        !dir_exists ==> r == CleanOutcome::MissingDir,
        dir_exists && entry_count == 0 ==> r == CleanOutcome::AlreadyEmpty,
        dir_exists && entry_count > 0 ==> r == (CleanOutcome::Remove { count: entry_count }),
{
    if !dir_exists {
        CleanOutcome::MissingDir
    } else if entry_count == 0 {
        CleanOutcome::AlreadyEmpty
    } else {
        CleanOutcome::Remove { count: entry_count }
    }
}

/// The arguments for the scaffolding command: the subcommand, the target
/// path, and — unless version control was asked for — the flag pair that
/// suppresses its initialization.
pub fn cargo_new_args(project_path: &str, git: bool) -> (args: Vec<String>)
    ensures
        git ==> args.deep_view() == seq!["new"@, project_path@],
        !git ==> args.deep_view() == seq!["new"@, project_path@, "--vcs"@, "none"@],
{
    let mut args: Vec<String> = Vec::new();
    args.push("new".to_owned());
    args.push(project_path.to_owned());
    if !git {
        args.push("--vcs".to_owned());
        args.push("none".to_owned());
        proof {
            assert(args.deep_view() =~= seq!["new"@, project_path@, "--vcs"@, "none"@]);
        }
    } else {
        proof {
            assert(args.deep_view() =~= seq!["new"@, project_path@]);
        }
    }
    args
}

/// The arguments for the editor: the project directory and a jump to the
/// first line of its entry file.
pub fn editor_open_args(project_path: &str) -> (args: Vec<String>)
    ensures
        args.deep_view() == seq![
            project_path@,
            "--goto"@,
            project_path@ + "/src/main.rs:1"@,
        ],
{
    let mut goto = project_path.to_owned();
    goto.append("/src/main.rs:1");
    let mut args: Vec<String> = Vec::new();
    args.push(project_path.to_owned());
    args.push("--goto".to_owned());
    args.push(goto);
    proof {
        assert(args.deep_view() =~= seq![
            project_path@,
            "--goto"@,
            project_path@ + "/src/main.rs:1"@,
        ]);
    }
    args
}

/// The number a run of decimal digits denotes.
pub open spec fn dec_value(s: Seq<char>) -> int
    decreases s.len(),
{
    if s.len() == 0 {
        0
    } else {
        dec_value(s.drop_last()) * 10 + digit_val(s.last())
    }
}

/// A non-empty run of decimal digits.
pub open spec fn all_digits(s: Seq<char>) -> bool {
    s.len() > 0 && forall|i: int| 0 <= i < s.len() ==> is_digit(#[trigger] s[i])
}

proof fn lemma_dec_value_nonneg(s: Seq<char>)
    requires
        forall|i: int| 0 <= i < s.len() ==> is_digit(#[trigger] s[i]),
    ensures
        dec_value(s) >= 0,
    decreases s.len(),
{
    if s.len() != 0 {
        assert(forall|i: int|
            0 <= i < s.drop_last().len() ==> is_digit(#[trigger] s.drop_last()[i]));
        lemma_dec_value_nonneg(s.drop_last());
    }
}

/// A longer run of digits denotes at least what any of its prefixes
/// denotes.
proof fn lemma_dec_value_prefix(s: Seq<char>, i: int)
    requires
        0 <= i <= s.len(),
        forall|k: int| 0 <= k < s.len() ==> is_digit(#[trigger] s[k]),
    ensures
        dec_value(s) >= dec_value(s.take(i)),
    decreases s.len(),
{
    if i < s.len() {
        assert(forall|k: int|
            0 <= k < s.drop_last().len() ==> is_digit(#[trigger] s.drop_last()[k]));
        lemma_dec_value_prefix(s.drop_last(), i);
        assert(s.drop_last().take(i) =~= s.take(i));
        lemma_dec_value_nonneg(s.drop_last());
    } else {
        assert(s.take(i) =~= s);
    }
}

/// Turns one line of menu input into a zero-based project position. The
/// choice is valid exactly when the line is a run of decimal digits
/// denoting a number from 1 through `count`.
pub fn parse_selection(input: &str, count: usize) -> (r: Result<usize, RpError>)
    ensures
        match r {
            Ok(idx) => all_digits(input@) && 1 <= dec_value(input@) <= count && idx == dec_value(
                input@,
            ) - 1,
            Err(e) => e == RpError::Validation && !(all_digits(input@) && 1 <= dec_value(input@)
                <= count),
        },
{
    let n = input.unicode_len();
    if n == 0 {
        return Err(RpError::Validation);
    }
    let mut v: usize = 0;
    let mut i: usize = 0;
    while i < n
        invariant
            0 <= i <= n,
            n == input@.len(),
            forall|k: int| 0 <= k < i ==> is_digit(#[trigger] input@[k]),
            v == dec_value(input@.take(i as int)),
            0 <= v <= count,
        decreases n - i,
    {
        let c = input.get_char(i);
        if (c as u32) < '0' as u32 || (c as u32) > '9' as u32 {
            return Err(RpError::Validation);
        }
        let d = (c as u32 - '0' as u32) as usize;
        proof {
            assert(input@.take(i + 1).drop_last() =~= input@.take(i as int));
            assert(input@.take(i + 1).last() == input@[i as int]);
        }
        if v > count / 10 {
            proof {
                if all_digits(input@) {
                    lemma_dec_value_prefix(input@, i + 1);
                    assert(dec_value(input@.take(i + 1)) == v * 10 + d);
                    assert(count / 10 * 10 + 9 <= count + 9);
                    assert(v * 10 > count);
                }
            }
            return Err(RpError::Validation);
        }
        let v10 = v * 10;
        if d > count - v10 {
            proof {
                if all_digits(input@) {
                    lemma_dec_value_prefix(input@, i + 1);
                    assert(dec_value(input@.take(i + 1)) == v * 10 + d);
                }
            }
            return Err(RpError::Validation);
        }
        v = v10 + d;
        i = i + 1;
    }
    proof {
        assert(input@.take(n as int) =~= input@);
    }
    if v == 0 {
        return Err(RpError::Validation);
    }
    Ok(v - 1)
}

} // verus!
