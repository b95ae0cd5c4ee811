//! Errors that parsing and sorting can produce, and their messages.

use vstd::prelude::*;

use crate::text::{append_chars, decimal, decimal_chars};

verus! {

/// All errors that `lort` can produce during parsing and processing.
#[derive(Debug)]
pub enum LortError {
    /// Multi-name `import a, b` statement found.
    /// The user must run `ruff format` to split these first.
    MultiNameImport { file: String, line: usize, text: String },
    /// Backslash continuation in an import statement.
    /// The user must run `ruff format` to convert to parenthesized form.
    BackslashContinuation { file: String, line: usize },
    /// `__future__` import mixed with non-`__future__` imports
    /// in the same contiguous block.
    FutureMixedWithOther { file: String, line: usize },
    /// Generic parse error for malformed import syntax.
    ParseError { file: String, line: usize, reason: String },
    /// I/O error while reading or writing a file; `message` is the
    /// operating system's description of it.
    Io { path: String, message: String },
}

/// The mathematical value of a [`LortError`].
pub enum SpecError {
    MultiNameImport { file: Seq<char>, line: usize, text: Seq<char> },
    BackslashContinuation { file: Seq<char>, line: usize },
    FutureMixedWithOther { file: Seq<char>, line: usize },
    ParseError { file: Seq<char>, line: usize, reason: Seq<char> },
    Io { path: Seq<char>, message: Seq<char> },
}

impl View for LortError {
    type V = SpecError;

    open spec fn view(&self) -> SpecError {
        match self {
            LortError::MultiNameImport { file, line, text } => SpecError::MultiNameImport {
                file: file@,
                line: *line,
                text: text@,
            },
            LortError::BackslashContinuation { file, line } => SpecError::BackslashContinuation {
                file: file@,
                line: *line,
            },
            LortError::FutureMixedWithOther { file, line } => SpecError::FutureMixedWithOther {
                file: file@,
                line: *line,
            },
            LortError::ParseError { file, line, reason } => SpecError::ParseError {
                file: file@,
                line: *line,
                reason: reason@,
            },
            LortError::Io { path, message } => SpecError::Io { path: path@, message: message@ },
        }
    }
}

/// `file:line: ` at the head of a message.
pub open spec fn location(file: Seq<char>, line: usize) -> Seq<char> {
    file + ":"@ + decimal(line as nat) + ": "@
}

/// The text that the error displays.
pub open spec fn message(e: SpecError) -> Seq<char> {
    match e {
        SpecError::MultiNameImport { file, line, text } => location(file, line)
            + "Multi-name import statement found (`"@ + text
            + "`).\n  Run 'ruff format' to split multi-name imports."@,
        SpecError::BackslashContinuation { file, line } => location(file, line)
            + "Backslash continuation in import statement.\n  Run 'ruff format' to convert to parenthesized form."@,
        SpecError::FutureMixedWithOther { file, line } => location(file, line)
            + "__future__ imports must appear in their own block before other imports."@,
        SpecError::ParseError { file, line, reason } => location(file, line)
            + "Failed to parse import: "@ + reason,
        SpecError::Io { path, message } => "I/O error on "@ + path + ": "@ + message,
    }
}

fn push_location(out: &mut String, file: &String, line: usize)
    ensures
        final(out)@ == old(out)@ + location(file@, line),
{
    out.append(file.as_str());
    out.append(":");
    let digits = decimal_chars(line);
    append_chars(out, &digits);
    out.append(": ");
}

impl LortError {
    /// The error's message, as its `Display` writes it.
    pub fn to_message(&self) -> (s: String)
        ensures
            s@ == message(self@),
    {
        let mut out = String::new();
        match self {
            LortError::MultiNameImport { file, line, text } => {
                push_location(&mut out, file, *line);
                out.append("Multi-name import statement found (`");
                out.append(text.as_str());
                out.append("`).\n  Run 'ruff format' to split multi-name imports.");
            },
            LortError::BackslashContinuation { file, line } => {
                push_location(&mut out, file, *line);
                out.append("Backslash continuation in import statement.\n  Run 'ruff format' to convert to parenthesized form.");
            },
            LortError::FutureMixedWithOther { file, line } => {
                push_location(&mut out, file, *line);
                out.append("__future__ imports must appear in their own block before other imports.");
            },
            LortError::ParseError { file, line, reason } => {
                push_location(&mut out, file, *line);
                out.append("Failed to parse import: ");
                out.append(reason.as_str());
            },
            LortError::Io { path, message } => {
                out.append("I/O error on ");
                out.append(path.as_str());
                out.append(": ");
                out.append(message.as_str());
            },
        }
        out
    }
}

} // verus!
