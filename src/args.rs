use vstd::prelude::*;

use crate::record::{clock_now, Filter, Timestamp};

verus! {

/// The subcommands.
#[derive(Debug)]
pub enum Commands {
    /// Show the log: all of it, what came before a span of seconds ago, or
    /// what happened in a directory (the working directory when `path` is
    /// empty).
    History { all: bool, before: Option<u64>, path: String },
    /// Delete from the trash what was trashed before a span of seconds ago
    /// (or everything, with `all`), and drop those records from the log.
    Purge { before: Option<u64>, quiet: bool, all: bool },
}

/// The options of one run.
#[derive(Debug)]
pub struct Args {
    pub command: Option<Commands>,
    /// Files to trash or restore.
    pub files: Vec<String>,
    pub verbose: bool,
    pub debug: bool,
    /// Restore instead of trash.
    pub undo: bool,
    /// Act on the whole trash.
    pub all: bool,
    /// List what was trashed under the given directories.
    pub list: bool,
    /// The trash root asked for.
    pub dir: String,
}

/// What one run does, as its options select it.
#[derive(Debug, Clone, Copy, PartialEq, Eq, Structural)]
pub enum Action {
    /// List the trash under the given directories and restore what is there.
    ListAndRestore,
    /// List the whole trash.
    ListAll,
    /// Restore the whole trash.
    RestoreAll,
    /// List the trash under the given directories.
    List,
    /// Restore the given files.
    Restore,
    /// Show the log.
    History,
    /// Purge the trash.
    Purge,
    /// Trash the given files.
    Trash,
}

/// Why no cutoff instant could be set for a purge.
#[derive(Debug, Clone, Copy, PartialEq, Eq, Structural)]
pub enum CutoffError {
    /// Neither a span nor "all" was given.
    Missing,
    /// The span reaches before the earliest representable instant.
    OutOfRange,
}

pub open spec fn files_refused_msg() -> Seq<char> {
    "Files must be provided"@
}

pub open spec fn combination_refused_msg() -> Seq<char> {
    "Cannot combine --list, --undo and --all. If you want to restore all files in trash, use --undo and --all"@
}

impl Args {
    /// The options take no file arguments: a listing, a whole-trash
    /// restore, or a subcommand.
    pub open spec fn takes_no_files(&self) -> bool {
        self.list || (self.undo && self.all) || self.command is Some
    }

    /// Checks that the options fit together: no files where none are taken,
    /// and not `--list`, `--undo` and `--all` at once.
    pub fn validate(&self) -> (r: Result<(), String>)
        ensures
            self.files@.len() > 0 && self.takes_no_files() ==> (r matches Err(m) && m@
                == files_refused_msg()),
            !(self.files@.len() > 0 && self.takes_no_files()) && self.list && self.undo
                && self.all ==> (r matches Err(m) && m@ == combination_refused_msg()),
            !(self.files@.len() > 0 && self.takes_no_files()) && !(self.list && self.undo
                && self.all) ==> r is Ok,
    {
        let no_files = self.list || (self.undo && self.all) || self.command.is_some();
        if self.files.len() > 0 && no_files {
            return Err(String::from_str("Files must be provided"));
        }
        if self.list && self.undo && self.all {
            return Err(
                String::from_str(
                    "Cannot combine --list, --undo and --all. If you want to restore all files in trash, use --undo and --all",
                ),
            );
        }
        Ok(())
    }

    pub open spec fn action_spec(&self) -> Action {
        if self.list && self.undo {
            Action::ListAndRestore
        } else if self.list && self.all {
            Action::ListAll
        } else if self.undo && self.all {
            Action::RestoreAll
        } else if self.list {
            Action::List
        } else if self.undo {
            Action::Restore
        } else {
            match self.command {
                Some(Commands::History { .. }) => Action::History,
                Some(Commands::Purge { .. }) => Action::Purge,
                None => Action::Trash,
            }
        }
    }

    /// What the run does; the flags take precedence over a subcommand, in
    /// the order of `Action`'s variants.
    pub fn action(&self) -> (a: Action)
        ensures
            a == self.action_spec(),
    {
        if self.list && self.undo {
            Action::ListAndRestore
        } else if self.list && self.all {
            Action::ListAll
        } else if self.undo && self.all {
            Action::RestoreAll
        } else if self.list {
            Action::List
        } else if self.undo {
            Action::Restore
        } else {
            match &self.command {
                Some(Commands::History { .. }) => Action::History,
                Some(Commands::Purge { .. }) => Action::Purge,
                None => Action::Trash,
            }
        }
    }
}

/// What a history query for these options selects at the instant `now`:
/// everything with `all`; else what came `before` seconds before `now`, when
/// that instant is representable; else what happened in `path`, or in `cwd`
/// when `path` is empty.
pub open spec fn history_filter_spec(
    all: bool,
    before: Option<u64>,
    path: Seq<char>,
    cwd: Seq<char>,
    now: Timestamp,
    r: Option<Filter>,
) -> bool {
    if all {
        r == Some(Filter::All)
    } else if before is Some {
        r == match now.minus_spec(before->Some_0 as nat) {
            Some(c) => Some(Filter::Before(c)),
            None => None::<Filter>,
        }
    } else if path.len() > 0 {
        r matches Some(Filter::Prefix(d)) && d@ == path
    } else {
        r matches Some(Filter::Prefix(d)) && d@ == cwd
    }
}

/// The filter a history query uses at the instant `now`.
pub fn history_filter(all: bool, before: Option<u64>, path: &str, cwd: &str, now: Timestamp) -> (r:
    Option<Filter>)
    ensures
        history_filter_spec(all, before, path@, cwd@, now, r),
{
    if all {
        return Some(Filter::All);
    }
    match before {
        Some(secs) => match now.minus_secs(secs) {
            Some(c) => Some(Filter::Before(c)),
            None => None,
        },
        None => {
            if path.unicode_len() > 0 {
                Some(Filter::Prefix(String::from_str(path)))
            } else {
                Some(Filter::Prefix(String::from_str(cwd)))
            }
        },
    }
}

/// The filter a history query uses, at the instant read from the clock.
pub fn current_history_filter(all: bool, before: Option<u64>, path: &str, cwd: &str) -> (r: Option<
    Filter,
>)
    ensures
        exists|now: Timestamp|
            now.is_clock_reading() && history_filter_spec(all, before, path@, cwd@, now, r),
        !all && before is Some && before->Some_0 <= 9_000_000_000_000_000_000 ==> (r matches Some(
            Filter::Before(_),
        )),
{
    let now = clock_now();
    let r = history_filter(all, before, path, cwd, now);
    assert(now.is_clock_reading() && history_filter_spec(all, before, path@, cwd@, now, r));
    r
}

/// The instant before which a purge deletes: `now` with `all`, else `before`
/// seconds before `now` when that is representable; without either, no
/// cutoff.
pub open spec fn purge_cutoff_spec(all: bool, before: Option<u64>, now: Timestamp) -> Result<
    Timestamp,
    CutoffError,
> {
    if all {
        Ok(now)
    } else {
        match before {
            None => Err(CutoffError::Missing),
            Some(d) => match now.minus_spec(d as nat) {
                Some(c) => Ok(c),
                None => Err(CutoffError::OutOfRange),
            },
        }
    }
}

/// The instant before which a purge deletes, counted from `now`.
pub fn purge_cutoff(all: bool, before: Option<u64>, now: Timestamp) -> (r: Result<
    Timestamp,
    CutoffError,
>)
    ensures
        r == purge_cutoff_spec(all, before, now),
{
    if all {
        return Ok(now);
    }
    match before {
        Some(secs) => match now.minus_secs(secs) {
            Some(c) => Ok(c),
            None => Err(CutoffError::OutOfRange),
        },
        None => Err(CutoffError::Missing),
    }
}

/// The instant before which a purge deletes, counted from the instant read
/// from the clock.
pub fn current_purge_cutoff(all: bool, before: Option<u64>) -> (r: Result<Timestamp, CutoffError>)
    ensures
        exists|now: Timestamp| now.is_clock_reading() && r == purge_cutoff_spec(all, before, now),
        !all && before is Some && before->Some_0 <= 9_000_000_000_000_000_000 ==> r is Ok,
{
    let now = clock_now();
    let r = purge_cutoff(all, before, now);
    assert(now.is_clock_reading() && r == purge_cutoff_spec(all, before, now));
    r
}

} // verus!
