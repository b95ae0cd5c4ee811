//! The decisions of the command-line tool: which files it takes, what it
//! does with each, and how it exits.

use vstd::prelude::*;

use crate::error::{LortError, SpecError};
use crate::parser::{parse_file, parse_source};
use crate::sorter::{sort_and_reconstruct, sorted_source};
use crate::text::{
    chars_eq, contains, contains_chars, ends_with, ends_with_char, first_is, has_suffix, last_is,
    slice_of, starts_with_char, to_chars,
};

verus! {

// ---------------------------------------------------------------------
// Sorting a whole source text
// ---------------------------------------------------------------------

/// What sorting a source text gives: parse it, then sort and
/// reconstruct it.
pub open spec fn sorted_text(source: Seq<char>, file: Seq<char>) -> Result<Seq<char>, SpecError> {
    match parse_source(source, file) {
        Err(e) => Err(e),
        Ok(segs) => sorted_source(segs, file),
    }
}

/// Parse a source text and return it with its import blocks sorted.
pub fn sort_source(source: &str, file_path: &str) -> (r: Result<String, LortError>)
    ensures
        match r {
            Ok(s) => sorted_text(source@, file_path@) == Ok::<Seq<char>, SpecError>(s@),
            Err(e) => sorted_text(source@, file_path@) == Err::<Seq<char>, SpecError>(e@),
        },
{
    let segments = parse_file(source, file_path)?;
    sort_and_reconstruct(segments, file_path)
}

// ---------------------------------------------------------------------
// Which files are taken
// ---------------------------------------------------------------------

/// Whether an exclude pattern matches a path: a leading `*` matches any
/// prefix (the rest must end the path); otherwise a trailing `*` matches
/// anything after the rest; otherwise the pattern must occur in the path.
pub open spec fn pattern_matches(path: Seq<char>, pat: Seq<char>) -> bool {
    if starts_with_char(pat, '*') {
        ends_with(path, pat.drop_first())
    } else if ends_with_char(pat, '*') {
        contains(path, pat.drop_last())
    } else {
        contains(path, pat)
    }
}

/// Check if a path matches any of the exclude patterns.
pub fn is_excluded(path: &str, patterns: &[String]) -> (b: bool)
    ensures
        b == exists|i: int| 0 <= i < patterns@.len() && pattern_matches(path@, #[trigger] patterns@[i]@),
{
    let p = to_chars(path);
    let mut i: usize = 0;
    while i < patterns.len()
        invariant
            p@ == path@,
            i <= patterns@.len(),
            forall|k: int| 0 <= k < i ==> !pattern_matches(path@, #[trigger] patterns@[k]@),
        decreases patterns@.len() - i,
    {
        let pat = to_chars(patterns[i].as_str());
        let hit = if first_is(&pat, '*') {
            let rest = slice_of(&pat, 1, pat.len());
            assert(rest@ =~= pat@.drop_first());
            has_suffix(&p, &rest)
        } else if last_is(&pat, '*') {
            let rest = slice_of(&pat, 0, pat.len() - 1);
            assert(rest@ =~= pat@.drop_last());
            contains_chars(&p, &rest)
        } else {
            contains_chars(&p, &pat)
        };
        if hit {
            assert(pattern_matches(path@, patterns@[i as int]@));
            return true;
        }
        i = i + 1;
    }
    false
}

/// Whether a file name has the extension `py`, as `Path::extension`
/// reads it: the name ends in `.py` and something stands before that dot
/// (`.py` alone is a hidden name without an extension).
pub fn has_py_extension(file_name: &str) -> (b: bool)
    ensures
        b == (ends_with(file_name@, ".py"@) && file_name@.len() > 3),
{
    let n = to_chars(file_name);
    let ext = to_chars(".py");
    n.len() > 3 && has_suffix(&n, &ext)
}

/// Whether a directory entry's name marks it hidden: it starts with `.`
/// and is not `.` itself.
pub fn is_hidden_name(name: &str) -> (b: bool)
    ensures
        b == (starts_with_char(name@, '.') && name@ != seq!['.']),
{
    let n = to_chars(name);
    let mut dot: Vec<char> = Vec::new();
    dot.push('.');
    assert(dot@ =~= seq!['.']);
    first_is(&n, '.') && !chars_eq(&n, &dot)
}

// ---------------------------------------------------------------------
// What is done with a file, and how the tool exits
// ---------------------------------------------------------------------

/// What the tool does with one file.
#[derive(Debug, Clone, Copy, PartialEq, Eq, Structural)]
pub enum FileAction {
    /// Its imports are sorted already: nothing to do.
    AlreadySorted,
    /// Check mode with `--diff`: show the diff.
    ShowDiff,
    /// Check mode: report that it would be resorted.
    ReportUnsorted,
    /// Check mode, quiet: nothing shown, but the file counts as unsorted.
    CountUnsorted,
    /// Fix mode: write the sorted text, and say so unless quiet.
    Write { announce: bool },
}

/// The action for a file whose text is `source` and whose sorted text is
/// `sorted`; `--diff` implies check mode.
pub fn file_action(source: &str, sorted: &str, check: bool, diff: bool, quiet: bool) -> (a:
    FileAction)
    ensures
        a == (if source@ == sorted@ {
            FileAction::AlreadySorted
        } else if check || diff {
            if diff {
                FileAction::ShowDiff
            } else if !quiet {
                FileAction::ReportUnsorted
            } else {
                FileAction::CountUnsorted
            }
        } else {
            FileAction::Write { announce: !quiet }
        }),
{
    if chars_eq(&to_chars(source), &to_chars(sorted)) {
        FileAction::AlreadySorted
    } else if check || diff {
        if diff {
            FileAction::ShowDiff
        } else if !quiet {
            FileAction::ReportUnsorted
        } else {
            FileAction::CountUnsorted
        }
    } else {
        FileAction::Write { announce: !quiet }
    }
}

/// What `--stdin` mode prints.
#[derive(Debug, Clone, Copy, PartialEq, Eq, Structural)]
pub enum StdinOutput {
    /// The input, unchanged (it was sorted already).
    Source,
    /// The diff from the input to its sorted text.
    Diff,
    /// The sorted text.
    Sorted,
}

/// What `--stdin` mode prints for an input `source` whose sorted text is
/// `sorted`.
pub fn stdin_output(source: &str, sorted: &str, check: bool, diff: bool) -> (o: StdinOutput)
    ensures
        o == (if source@ == sorted@ {
            StdinOutput::Source
        } else if (check || diff) && diff {
            StdinOutput::Diff
        } else {
            StdinOutput::Sorted
        }),
{
    if chars_eq(&to_chars(source), &to_chars(sorted)) {
        StdinOutput::Source
    } else if (check || diff) && diff {
        StdinOutput::Diff
    } else {
        StdinOutput::Sorted
    }
}

/// The exit code: 2 when the run failed, 1 in check mode (`--check` or
/// `--diff`) when a file was unsorted, 0 otherwise.
pub fn exit_code(failed: bool, any_unsorted: bool, check: bool, diff: bool) -> (c: u8)
    ensures
        c == (if failed {
            2u8
        } else if any_unsorted && (check || diff) {
            1u8
        } else {
            0u8
        }),
{
    if failed {
        2
    } else if any_unsorted && (check || diff) {
        1
    } else {
        0
    }
}

/// The log level when none is set in the environment.
#[derive(Debug, Clone, Copy, PartialEq, Eq, Structural)]
pub enum LogLevel {
    Info,
    Warn,
    Error,
}

/// `--verbose` shows info, `--quiet` only errors; otherwise warnings.
pub fn default_log_level(verbose: bool, quiet: bool) -> (l: LogLevel)
    ensures
        l == (if verbose {
            LogLevel::Info
        } else if quiet {
            LogLevel::Error
        } else {
            LogLevel::Warn
        }),
{
    if verbose {
        LogLevel::Info
    } else if quiet {
        LogLevel::Error
    } else {
        LogLevel::Warn
    }
}

} // verus!
