//! Line-based parsing of top-level Python import statements, and their
//! reconstruction as source text.

use vstd::prelude::*;

use crate::error::{LortError, SpecError};
use crate::text::{
    append_chars, chars_eq, chars_to_string, contains, contains_chars, ends_with_char,
    extend_chars, find, find_in, first_is, has_prefix, join, last_is, lines, slice_of,
    split_chars, split_lines, split_on, starts_with, starts_with_char, to_chars, trim, trim_end,
    trimmed, trimmed_end,
};

verus! {

broadcast use vstd::seq_lib::group_seq_properties;

// ---------------------------------------------------------------------
// Types
// ---------------------------------------------------------------------

/// Whether the statement is `import X` or `from X import Y`.
#[derive(Debug, Clone, Copy, PartialEq, Eq, Structural)]
pub enum ImportKind {
    Import,
    FromImport,
}

/// A single imported name, optionally aliased.
///
/// For `from os.path import join as j`, this would be
/// `ImportedName { name: "join", alias: Some("j"), comment: None }`.
#[derive(Debug, Clone, PartialEq, Eq)]
pub struct ImportedName {
    pub name: String,
    pub alias: Option<String>,
    /// Comment that stands after this name inside the parentheses of a
    /// multi-line import (e.g. `# noqa: F401`); it moves with the name.
    pub comment: Option<String>,
}

/// A parsed import statement with all metadata needed for sorting
/// and reconstruction.
#[derive(Debug, Clone, PartialEq, Eq)]
pub struct ImportStatement {
    pub kind: ImportKind,
    /// The module path (e.g. `os.path`, `..bar`, `.`).
    pub module: String,
    /// Alias of a plain `import X as Y` (`Y`); `None` for `from` imports.
    pub alias: Option<String>,
    /// Imported names for `from` imports. Empty for plain `import`.
    pub names: Vec<ImportedName>,
    /// Inline comment on the same line (e.g. `# noqa`); for the
    /// parenthesized form, the comment after the closing parenthesis, with
    /// any comment that stands before the first name in front of it.
    pub inline_comment: Option<String>,
    /// 1-based line number in the source file.
    pub line_number: usize,
    /// Whether this is a relative import (starts with `.`).
    pub is_relative: bool,
    /// Whether this is a `__future__` import.
    pub is_future: bool,
    /// Whether the original used multi-line parenthesized form.
    pub is_multiline: bool,
}

/// A segment of a Python source file: either an import statement
/// or a non-import line (code, comments, blank lines).
#[derive(Debug, Clone, PartialEq, Eq)]
pub enum FileSegment {
    Import(ImportStatement),
    NonImport(String),
}

// ---------------------------------------------------------------------
// Mathematical values of the types
// ---------------------------------------------------------------------

pub struct SpecName {
    pub name: Seq<char>,
    pub alias: Option<Seq<char>>,
    pub comment: Option<Seq<char>>,
}

pub struct SpecStatement {
    pub kind: ImportKind,
    pub module: Seq<char>,
    pub alias: Option<Seq<char>>,
    pub names: Seq<SpecName>,
    pub inline_comment: Option<Seq<char>>,
    pub line_number: usize,
    pub is_relative: bool,
    pub is_future: bool,
    pub is_multiline: bool,
}

pub enum SpecSegment {
    Import(SpecStatement),
    NonImport(Seq<char>),
}

pub open spec fn opt_string(o: Option<String>) -> Option<Seq<char>> {
    match o {
        Some(s) => Some(s@),
        None => None,
    }
}

pub open spec fn opt_chars(o: Option<Vec<char>>) -> Option<Seq<char>> {
    match o {
        Some(v) => Some(v@),
        None => None,
    }
}

impl View for ImportedName {
    type V = SpecName;

    open spec fn view(&self) -> SpecName {
        SpecName {
            name: self.name@,
            alias: opt_string(self.alias),
            comment: opt_string(self.comment),
        }
    }
}

pub open spec fn names_view(v: Seq<ImportedName>) -> Seq<SpecName> {
    v.map_values(|n: ImportedName| n@)
}

impl View for ImportStatement {
    type V = SpecStatement;

    open spec fn view(&self) -> SpecStatement {
        SpecStatement {
            kind: self.kind,
            module: self.module@,
            alias: opt_string(self.alias),
            names: names_view(self.names@),
            inline_comment: opt_string(self.inline_comment),
            line_number: self.line_number,
            is_relative: self.is_relative,
            is_future: self.is_future,
            is_multiline: self.is_multiline,
        }
    }
}

impl View for FileSegment {
    type V = SpecSegment;

    open spec fn view(&self) -> SpecSegment {
        match self {
            FileSegment::Import(s) => SpecSegment::Import(s@),
            FileSegment::NonImport(l) => SpecSegment::NonImport(l@),
        }
    }
}

pub open spec fn segments_view(v: Seq<FileSegment>) -> Seq<SpecSegment> {
    v.map_values(|s: FileSegment| s@)
}

pub open spec fn stmt_result_view(r: Result<ImportStatement, LortError>) -> Result<
    SpecStatement,
    SpecError,
> {
    match r {
        Ok(s) => Ok(s@),
        Err(e) => Err(e@),
    }
}

pub open spec fn parse_result_view(r: Result<Vec<FileSegment>, LortError>) -> Result<
    Seq<SpecSegment>,
    SpecError,
> {
    match r {
        Ok(v) => Ok(segments_view(v@)),
        Err(e) => Err(e@),
    }
}

// ---------------------------------------------------------------------
// What parsing computes
// ---------------------------------------------------------------------

/// Split a code fragment at its first `#`: the code before it (trailing
/// whitespace removed) and the comment from `#` on (trimmed).
pub open spec fn comment_split(s: Seq<char>) -> (Seq<char>, Option<Seq<char>>) {
    match find(s, seq!['#']) {
        Some(pos) => (trim_end(s.take(pos)), Some(trim(s.skip(pos)))),
        None => (s, None),
    }
}

/// Split `"X as Y"` into `("X", Some("Y"))`, or `"X"` into `("X", None)`.
pub open spec fn alias_split(s: Seq<char>) -> (Seq<char>, Option<Seq<char>>) {
    match find(s, " as "@) {
        Some(pos) => (trim(s.take(pos)), Some(trim(s.skip(pos + " as "@.len())))),
        None => (trim(s), None),
    }
}

pub open spec fn name_of(piece: Seq<char>) -> SpecName {
    SpecName { name: alias_split(piece).0, alias: alias_split(piece).1, comment: None }
}

pub open spec fn is_nonempty(p: Seq<char>) -> bool {
    p.len() > 0
}

/// The comma-separated names of a `from` import: each piece trimmed,
/// empty pieces dropped, each split into name and alias.
pub open spec fn name_list(s: Seq<char>) -> Seq<SpecName> {
    split_on(s, ',').map_values(|p: Seq<char>| trim(p)).filter(|p: Seq<char>| is_nonempty(p)).map_values(
        |p: Seq<char>| name_of(p),
    )
}

/// A plain `import ...` statement; `rest` is what follows `import `.
pub open spec fn import_statement(rest: Seq<char>, line: usize, file: Seq<char>) -> Result<
    SpecStatement,
    SpecError,
> {
    let code = trim(comment_split(rest).0);
    if contains(code, seq![',']) {
        Err(SpecError::MultiNameImport { file, line, text: "import "@ + code })
    } else {
        let module = alias_split(code).0;
        Ok(
            SpecStatement {
                kind: ImportKind::Import,
                module: module,
                alias: alias_split(code).1,
                names: Seq::empty(),
                inline_comment: comment_split(rest).1,
                line_number: line,
                is_relative: false,
                is_future: module == "__future__"@,
                is_multiline: false,
            },
        )
    }
}


/// Two optional comments as one; when both are there, two spaces apart.
pub open spec fn join_comments(a: Option<Seq<char>>, b: Option<Seq<char>>) -> Option<Seq<char>> {
    match a {
        Some(x) => match b {
            Some(y) => Some(x + "  "@ + y),
            None => Some(x),
        },
        None => b,
    }
}

/// `names` with `comment` added to the comment of the last name.
pub open spec fn attach_comment(names: Seq<SpecName>, comment: Option<Seq<char>>) -> Seq<SpecName> {
    if names.len() == 0 {
        names
    } else {
        let last = names.last();
        names.drop_last().push(
            SpecName {
                name: last.name,
                alias: last.alias,
                comment: join_comments(last.comment, comment),
            },
        )
    }
}

/// One line inside the parentheses of a multi-line `from` import, with
/// its code part `code` and its comment: the names of the line join the
/// names so far, and the comment goes with the last name so far, or,
/// while there is none, to the lead comment of the statement.
pub open spec fn absorb(
    names: Seq<SpecName>,
    lead: Option<Seq<char>>,
    code: Seq<char>,
    comment: Option<Seq<char>>,
) -> (Seq<SpecName>, Option<Seq<char>>) {
    let all = names + name_list(code);
    if all.len() == 0 {
        (all, join_comments(lead, comment))
    } else {
        (attach_comment(all, comment), lead)
    }
}

/// The comment after a closing parenthesis: the rest of the line, trimmed,
/// when it starts with `#`.
pub open spec fn trailing_comment(rest: Seq<char>) -> Option<Seq<char>> {
    if starts_with_char(trim(rest), '#') {
        Some(trim(rest))
    } else {
        None
    }
}

/// Scanning the continuation lines of a parenthesized `from` import,
/// from line index `j`, with the names and the lead comment so far: the
/// names, the comment of the statement (the lead comment, then the one
/// after the closing parenthesis), and the index of the first line after
/// the statement.
pub open spec fn scan_parenthesized(
    lines: Seq<Seq<char>>,
    j: int,
    names: Seq<SpecName>,
    lead: Option<Seq<char>>,
    file: Seq<char>,
) -> Result<(Seq<SpecName>, Option<Seq<char>>, int), SpecError>
    decreases lines.len() - j,
{
    if j < 0 || j >= lines.len() {
        Ok((names, lead, j))
    } else {
        let l = trim(lines[j]);
        match find(l, seq![')']) {
            Some(close) => {
                let split = comment_split(l.take(close));
                let st = absorb(names, lead, trim(split.0), split.1);
                Ok((st.0, join_comments(st.1, trailing_comment(l.skip(close + 1))), j + 1))
            },
            None => {
                if ends_with_char(l, '\\') {
                    Err(SpecError::BackslashContinuation { file, line: (j + 1) as usize })
                } else {
                    let split = comment_split(l);
                    let st = absorb(names, lead, trim(split.0), split.1);
                    scan_parenthesized(lines, j + 1, st.0, st.1, file)
                }
            },
        }
    }
}

/// The names without their comments.
pub open spec fn bare_names(names: Seq<SpecName>) -> Seq<SpecName> {
    names.map_values(|n: SpecName| SpecName { name: n.name, alias: n.alias, comment: None })
}

proof fn lemma_name_list_bare(code: Seq<char>)
    ensures
        bare_names(name_list(code)) == name_list(code),
{
    let nl = name_list(code);
    assert forall|i: int| 0 <= i < nl.len() implies #[trigger] bare_names(nl)[i] == nl[i] by {
        let pieces = split_on(code, ',').map_values(|p: Seq<char>| trim(p)).filter(|p: Seq<char>| is_nonempty(p));
        assert(nl[i] == name_of(pieces[i]));
    }
    assert(bare_names(nl) =~= nl);
}

/// Absorbing a line adds its names, comments aside, after those so far.
proof fn lemma_absorb_bare(
    names: Seq<SpecName>,
    lead: Option<Seq<char>>,
    code: Seq<char>,
    comment: Option<Seq<char>>,
)
    ensures
        bare_names(absorb(names, lead, code, comment).0) == bare_names(names) + name_list(code),
{
    lemma_name_list_bare(code);
    let all = names + name_list(code);
    assert(bare_names(all) =~= bare_names(names) + bare_names(name_list(code)));
    if all.len() > 0 {
        assert(bare_names(attach_comment(all, comment)) =~= bare_names(all));
    }
}

/// Law: a line inside the parentheses of an import reads as the same
/// names, comments and lead comment as that line split in two at a comma:
/// every name of a line is kept, however the names are spread over lines.
pub proof fn lemma_absorb_split_line(
    names: Seq<SpecName>,
    lead: Option<Seq<char>>,
    a: Seq<char>,
    b: Seq<char>,
    comment: Option<Seq<char>>,
)
    ensures
        ({
            let first = absorb(names, lead, a, None);
            absorb(first.0, first.1, b, comment)
        }) == absorb(names, lead, a + seq![','] + b, comment),
{
    crate::reparse::lemma_name_list_concat(a, b);
    let x = names + name_list(a);
    if x.len() > 0 {
        let l = x.last();
        assert(join_comments(l.comment, None) == l.comment);
        assert(attach_comment(x, None) =~= x);
    }
    assert(names + name_list(a + seq![','] + b) =~= x + name_list(b));
    assert(join_comments(lead, None) == lead);
    let first = absorb(names, lead, a, None);
    assert(first.0 + name_list(b) =~= x + name_list(b));
}

/// The code of the lines inside parentheses from line `j` on, up to the
/// closing parenthesis, each without its comment, joined by commas.
pub open spec fn parenthesized_code(lines: Seq<Seq<char>>, j: int) -> Seq<char>
    decreases lines.len() - j,
{
    if j < 0 || j >= lines.len() {
        Seq::empty()
    } else {
        let l = trim(lines[j]);
        match find(l, seq![')']) {
            Some(close) => trim(comment_split(l.take(close)).0),
            None => trim(comment_split(l).0) + seq![','] + parenthesized_code(lines, j + 1),
        }
    }
}

/// Law: reading the lines of a parenthesized import keeps every name on
/// every line: the names read are those so far followed by the names of
/// all the lines' code joined by commas (comments aside).
pub proof fn lemma_scan_keeps_all_names(
    lines: Seq<Seq<char>>,
    j: int,
    names: Seq<SpecName>,
    lead: Option<Seq<char>>,
    file: Seq<char>,
)
    requires
        0 <= j,
    ensures
        scan_parenthesized(lines, j, names, lead, file) matches Ok(r) ==> bare_names(r.0)
            == bare_names(names) + name_list(parenthesized_code(lines, j)),
    decreases lines.len() - j,
{
    if j >= lines.len() {
        crate::reparse::lemma_name_list_empty();
        assert(bare_names(names) + Seq::<SpecName>::empty() =~= bare_names(names));
    } else {
        let l = trim(lines[j]);
        match find(l, seq![')']) {
            Some(close) => {
                let split = comment_split(l.take(close));
                lemma_absorb_bare(names, lead, trim(split.0), split.1);
            },
            None => {
                let split = comment_split(l);
                let code = trim(split.0);
                let st = absorb(names, lead, code, split.1);
                lemma_absorb_bare(names, lead, code, split.1);
                lemma_scan_keeps_all_names(lines, j + 1, st.0, st.1, file);
                crate::reparse::lemma_name_list_concat(code, parenthesized_code(lines, j + 1));
                assert(bare_names(names) + name_list(code) + name_list(parenthesized_code(lines, j + 1))
                    =~= bare_names(names) + (name_list(code) + name_list(parenthesized_code(lines, j + 1))));
            },
        }
    }
}

pub open spec fn from_statement(
    module: Seq<char>,
    names: Seq<SpecName>,
    comment: Option<Seq<char>>,
    line: usize,
    multiline: bool,
) -> SpecStatement {
    SpecStatement {
        kind: ImportKind::FromImport,
        module: module,
        alias: None,
        names,
        inline_comment: comment,
        line_number: line,
        is_relative: starts_with_char(module, '.'),
        is_future: module == "__future__"@,
        is_multiline: multiline,
    }
}

/// A `from X import Y` statement starting at line index `start`: the
/// statement and the number of source lines it takes.
pub open spec fn parse_from(lines: Seq<Seq<char>>, start: int, file: Seq<char>) -> Result<
    (SpecStatement, int),
    SpecError,
> {
    let line = (start + 1) as usize;
    let after = trim(lines[start]).skip("from "@.len() as int);
    match find(after, " import "@) {
        None => Err(
            SpecError::ParseError {
                file,
                line,
                reason: "expected 'import' keyword after module path"@,
            },
        ),
        Some(pos) => {
            let module = trim(after.take(pos));
            let names_part = trim(after.skip(pos + " import "@.len()));
            if ends_with_char(names_part, '\\') {
                Err(SpecError::BackslashContinuation { file, line })
            } else if starts_with_char(names_part, '(') {
                let inner = names_part.drop_first();
                match find(inner, seq![')']) {
                    Some(close) => {
                        let split = comment_split(inner.take(close));
                        let comment = join_comments(split.1, trailing_comment(inner.skip(close + 1)));
                        Ok(
                            (
                                from_statement(module, name_list(trim(split.0)), comment, line, false),
                                1,
                            ),
                        )
                    },
                    None => {
                        let split = comment_split(inner);
                        let first = absorb(Seq::empty(), None, trim(split.0), split.1);
                        match scan_parenthesized(lines, start + 1, first.0, first.1, file) {
                            Err(e) => Err(e),
                            Ok(scan) => Ok(
                                (from_statement(module, scan.0, scan.1, line, true), scan.2 - start),
                            ),
                        }
                    },
                }
            } else {
                let split = comment_split(names_part);
                Ok(
                    (
                        from_statement(module, name_list(trim(split.0)), split.1, line, false),
                        1,
                    ),
                )
            }
        },
    }
}

/// The scan ends on a later line than it starts.
pub proof fn lemma_scan_parenthesized_end(
    lines: Seq<Seq<char>>,
    j: int,
    names: Seq<SpecName>,
    lead: Option<Seq<char>>,
    file: Seq<char>,
)
    requires
        0 <= j <= lines.len(),
    ensures
        scan_parenthesized(lines, j, names, lead, file) matches Ok(r) ==> j <= r.2 <= lines.len(),
    decreases lines.len() - j,
{
    if j < lines.len() {
        let l = trim(lines[j]);
        if find(l, seq![')']) is None && !ends_with_char(l, '\\') {
            let split = comment_split(l);
            let st = absorb(names, lead, trim(split.0), split.1);
            lemma_scan_parenthesized_end(lines, j + 1, st.0, st.1, file);
        }
    }
}

/// A `from` statement takes at least its own line, and no line past the end.
pub proof fn lemma_parse_from_end(lines: Seq<Seq<char>>, start: int, file: Seq<char>)
    requires
        0 <= start < lines.len(),
    ensures
        parse_from(lines, start, file) matches Ok(r) ==> 1 <= r.1 && start + r.1 <= lines.len(),
{
    let after = trim(lines[start]).skip("from "@.len() as int);
    match find(after, " import "@) {
        None => {},
        Some(pos) => {
            let names_part = trim(after.skip(pos + " import "@.len()));
            let split = comment_split(names_part.drop_first());
            let first = absorb(Seq::empty(), None, trim(split.0), split.1);
            lemma_scan_parenthesized_end(lines, start + 1, first.0, first.1, file);
        },
    }
}

/// Whether a line is an import line: not indented, and, trimmed,
/// starting with `import ` or `from ` (blank and comment lines are not).
pub open spec fn line_is_candidate(line: Seq<char>) -> bool {
    let t = trim(line);
    &&& t.len() > 0
    &&& !starts_with_char(t, '#')
    &&& !starts_with_char(line, ' ')
    &&& !starts_with_char(line, '\t')
}

/// Parsing the lines from index `i` on into segments.
pub open spec fn parse_lines(lines: Seq<Seq<char>>, i: int, file: Seq<char>) -> Result<
    Seq<SpecSegment>,
    SpecError,
>
    decreases lines.len() - i,
{
    if i < 0 || i >= lines.len() {
        Ok(Seq::empty())
    } else {
        let line = lines[i];
        let t = trim(line);
        let number = (i + 1) as usize;
        if !line_is_candidate(line) {
            prepend(SpecSegment::NonImport(line), parse_lines(lines, i + 1, file))
        } else if (starts_with(t, "import "@) || starts_with(t, "from "@)) && ends_with_char(t, '\\') {
            Err(SpecError::BackslashContinuation { file, line: number })
        } else if starts_with(t, "import "@) {
            match import_statement(t.skip("import "@.len() as int), number, file) {
                Err(e) => Err(e),
                Ok(st) => prepend(SpecSegment::Import(st), parse_lines(lines, i + 1, file)),
            }
        } else if starts_with(t, "from "@) {
            match parse_from(lines, i, file) {
                Err(e) => Err(e),
                Ok(r) => {
                    proof {
                        lemma_parse_from_end(lines, i, file);
                    }
                    prepend(SpecSegment::Import(r.0), parse_lines(lines, i + r.1, file))
                },
            }
        } else {
            prepend(SpecSegment::NonImport(line), parse_lines(lines, i + 1, file))
        }
    }
}

pub open spec fn prepend(seg: SpecSegment, rest: Result<Seq<SpecSegment>, SpecError>) -> Result<
    Seq<SpecSegment>,
    SpecError,
> {
    match rest {
        Ok(r) => Ok(seq![seg] + r),
        Err(e) => Err(e),
    }
}

/// What `parse_file` computes for a source text.
pub open spec fn parse_source(source: Seq<char>, file: Seq<char>) -> Result<
    Seq<SpecSegment>,
    SpecError,
> {
    parse_lines(lines(source), 0, file)
}

// ---------------------------------------------------------------------
// Executable parsing helpers
// ---------------------------------------------------------------------

pub open spec fn comment_split_view(r: (Vec<char>, Option<Vec<char>>)) -> (
    Seq<char>,
    Option<Seq<char>>,
) {
    (r.0@, opt_chars(r.1))
}

fn split_inline_comment(s: &Vec<char>) -> (r: (Vec<char>, Option<Vec<char>>))
    ensures
        comment_split_view(r) == comment_split(s@),
{
    let mut hash: Vec<char> = Vec::new();
    hash.push('#');
    assert(hash@ =~= seq!['#']);
    match find_in(s, &hash) {
        Some(pos) => {
            let before = slice_of(s, 0, pos);
            let after = slice_of(s, pos, s.len());
            assert(before@ =~= s@.take(pos as int));
            assert(after@ =~= s@.skip(pos as int));
            (trimmed_end(&before), Some(trimmed(&after)))
        },
        None => (slice_of(s, 0, s.len()), None),
    }
}

fn parse_alias(s: &Vec<char>) -> (r: (Vec<char>, Option<Vec<char>>))
    ensures
        comment_split_view(r) == alias_split(s@),
{
    let kw = to_chars(" as ");
    match find_in(s, &kw) {
        Some(pos) => {
            let len = s.len();
            let end = pos + kw.len();
            let before = slice_of(s, 0, pos);
            let after = slice_of(s, end, len);
            assert(before@ =~= s@.take(pos as int));
            assert(after@ =~= s@.skip(pos + kw@.len()));
            (trimmed(&before), Some(trimmed(&after)))
        },
        None => (trimmed(s), None),
    }
}

pub proof fn lemma_filter_push(s: Seq<Seq<char>>, x: Seq<char>)
    ensures
        s.push(x).filter(|p: Seq<char>| is_nonempty(p)) == if is_nonempty(x) {
            s.filter(|p: Seq<char>| is_nonempty(p)).push(x)
        } else {
            s.filter(|p: Seq<char>| is_nonempty(p))
        },
{
    reveal_with_fuel(Seq::filter, 1);
    assert(s.push(x).drop_last() =~= s);
}

fn parse_name_list(s: &Vec<char>) -> (names: Vec<ImportedName>)
    ensures
        names_view(names@) == name_list(s@),
{
    let parts = split_chars(s, ',');
    let ghost sp = split_on(s@, ',');
    let ghost trimmed_parts = sp.map_values(|p: Seq<char>| trim(p));
    let mut names: Vec<ImportedName> = Vec::new();
    let mut k: usize = 0;
    while k < parts.len()
        invariant
            parts@.len() == sp.len(),
            forall|m: int| 0 <= m < parts@.len() ==> #[trigger] parts@[m]@ == sp[m],
            trimmed_parts == sp.map_values(|p: Seq<char>| trim(p)),
            k <= parts@.len(),
            names_view(names@) == trimmed_parts.take(k as int).filter(
                |p: Seq<char>| is_nonempty(p),
            ).map_values(|p: Seq<char>| name_of(p)),
        decreases parts@.len() - k,
    {
        let t = trimmed(&parts[k]);
        proof {
            assert(trimmed_parts.take(k + 1) =~= trimmed_parts.take(k as int).push(t@));
            lemma_filter_push(trimmed_parts.take(k as int), t@);
        }
        if t.len() > 0 {
            let (n, a) = parse_alias(&t);
            let name = chars_to_string(&n);
            let alias = match a {
                Some(av) => Some(chars_to_string(&av)),
                None => None,
            };
            let item = ImportedName { name, alias, comment: None };
            let ghost before = names@;
            names.push(item);
            proof {
                assert(names@ == before.push(item));
                assert(names_view(names@) =~= names_view(before).push(item@));
            }
        }
        k = k + 1;
    }
    proof {
        assert(trimmed_parts.take(parts@.len() as int) =~= trimmed_parts);
    }
    names
}

fn opt_to_string(o: Option<Vec<char>>) -> (r: Option<String>)
    ensures
        opt_string(r) == opt_chars(o),
{
    match o {
        Some(v) => Some(chars_to_string(&v)),
        None => None,
    }
}

/// Parse a plain `import X` or `import X as Y` statement.
///
/// The `rest` parameter is everything after `"import "`.
/// Rejects multi-name imports like `import a, b`.
fn parse_import_statement(rest: &Vec<char>, line_number: usize, file_path: &str) -> (r: Result<
    ImportStatement,
    LortError,
>)
    ensures
        stmt_result_view(r) == import_statement(rest@, line_number, file_path@),
{
    let (code0, comment) = split_inline_comment(rest);
    let code = trimmed(&code0);
    let mut comma: Vec<char> = Vec::new();
    comma.push(',');
    assert(comma@ =~= seq![',']);
    if contains_chars(&code, &comma) {
        let mut text = String::new();
        text.append("import ");
        append_chars(&mut text, &code);
        return Err(
            LortError::MultiNameImport { file: file_path.to_owned(), line: line_number, text },
        );
    }
    let (module, alias) = parse_alias(&code);
    let names: Vec<ImportedName> = Vec::new();
    assert(names_view(names@) =~= Seq::<SpecName>::empty());
    let future = to_chars("__future__");
    let is_future = chars_eq(&module, &future);
    Ok(
        ImportStatement {
            kind: ImportKind::Import,
            module: chars_to_string(&module),
            alias: opt_to_string(alias),
            names,
            inline_comment: opt_to_string(comment),
            line_number,
            is_relative: false,
            is_future,
            is_multiline: false,
        },
    )
}

pub open spec fn lines_view(v: Seq<Vec<char>>) -> Seq<Seq<char>> {
    v.map_values(|l: Vec<char>| l@)
}

pub open spec fn from_result_view(r: Result<(ImportStatement, usize), LortError>) -> Result<
    (SpecStatement, int),
    SpecError,
> {
    match r {
        Ok(p) => Ok((p.0@, p.1 as int)),
        Err(e) => Err(e@),
    }
}

fn join_comments_exec(a: Option<Vec<char>>, b: Option<Vec<char>>) -> (r: Option<Vec<char>>)
    ensures
        opt_chars(r) == join_comments(opt_chars(a), opt_chars(b)),
{
    match a {
        Some(x) => match b {
            Some(y) => {
                let mut joined = x;
                let sep = to_chars("  ");
                extend_chars(&mut joined, &sep);
                extend_chars(&mut joined, &y);
                Some(joined)
            },
            None => Some(x),
        },
        None => b,
    }
}

fn trailing_comment_exec(rest: &Vec<char>) -> (r: Option<Vec<char>>)
    ensures
        opt_chars(r) == trailing_comment(rest@),
{
    let t = trimmed(rest);
    if first_is(&t, '#') {
        Some(t)
    } else {
        None
    }
}

/// Takes in one line of a parenthesized import (see `absorb`); returns
/// the new lead comment.
fn absorb_line(
    names: &mut Vec<ImportedName>,
    lead: Option<Vec<char>>,
    code: &Vec<char>,
    comment: Option<Vec<char>>,
) -> (new_lead: Option<Vec<char>>)
    ensures
        (names_view(final(names)@), opt_chars(new_lead)) == absorb(
            names_view(old(names)@),
            opt_chars(lead),
            code@,
            opt_chars(comment),
        ),
{
    let mut more = parse_name_list(code);
    let ghost before = names@;
    let ghost added = more@;
    names.append(&mut more);
    assert(names_view(names@) =~= names_view(before) + names_view(added));
    if names.len() == 0 {
        return join_comments_exec(lead, comment);
    }
    match comment {
        None => {
            proof {
                let all = names_view(names@);
                assert(attach_comment(all, None) =~= all);
            }
        },
        Some(c) => {
            let ghost all = names_view(names@);
            let last = names.pop().unwrap();
            let earlier = match &last.comment {
                Some(t) => Some(to_chars(t.as_str())),
                None => None,
            };
            let joined = join_comments_exec(earlier, Some(c));
            let ghost kept = names@;
            let item = ImportedName { name: last.name, alias: last.alias, comment: opt_to_string(joined) };
            names.push(item);
            proof {
                assert(names@ == kept.push(item));
                assert(names_view(kept) =~= all.drop_last());
                assert(names_view(names@) =~= names_view(kept).push(item@));
            }
        },
    }
    lead
}

fn from_statement_exec(
    module: &Vec<char>,
    names: Vec<ImportedName>,
    comment: Option<Vec<char>>,
    line: usize,
    multiline: bool,
) -> (st: ImportStatement)
    ensures
        st@ == from_statement(module@, names_view(names@), opt_chars(comment), line, multiline),
{
    let future = to_chars("__future__");
    ImportStatement {
        kind: ImportKind::FromImport,
        module: chars_to_string(module),
        alias: None,
        names,
        inline_comment: opt_to_string(comment),
        line_number: line,
        is_relative: first_is(module, '.'),
        is_future: chars_eq(module, &future),
        is_multiline: multiline,
    }
}

fn close_paren() -> (v: Vec<char>)
    ensures
        v@ == seq![')'],
{
    let mut v: Vec<char> = Vec::new();
    v.push(')');
    assert(v@ =~= seq![')']);
    v
}

/// Parse a `from X import Y` statement, handling multi-line parenthesized form.
///
/// Returns the parsed statement and the number of source lines consumed.
fn parse_from_import(lines: &Vec<Vec<char>>, start: usize, file_path: &str) -> (r: Result<
    (ImportStatement, usize),
    LortError,
>)
    requires
        start < lines@.len(),
        starts_with(trim(lines@[start as int]@), "from "@),
    ensures
        from_result_view(r) == parse_from(lines_view(lines@), start as int, file_path@),
{
    let ghost ls = lines_view(lines@);
    let total = lines.len();
    let line_number = start + 1;
    let first = trimmed(&lines[start]);
    let kw_from = to_chars("from ");
    let after = slice_of(&first, kw_from.len(), first.len());
    assert(after@ =~= trim(ls[start as int]).skip("from "@.len() as int));
    let kw_import = to_chars(" import ");
    let pos = match find_in(&after, &kw_import) {
        Some(pos) => pos,
        None => {
            return Err(
                LortError::ParseError {
                    file: file_path.to_owned(),
                    line: line_number,
                    reason: "expected 'import' keyword after module path".to_owned(),
                },
            );
        },
    };
    let module_text = slice_of(&after, 0, pos);
    let module = trimmed(&module_text);
    let names_text = slice_of(&after, pos + kw_import.len(), after.len());
    let names_part = trimmed(&names_text);
    assert(module_text@ =~= after@.take(pos as int));
    assert(names_text@ =~= after@.skip(pos + " import "@.len()));
    if last_is(&names_part, '\\') {
        return Err(LortError::BackslashContinuation { file: file_path.to_owned(), line: line_number });
    }
    if !first_is(&names_part, '(') {
        let (code, comment) = split_inline_comment(&names_part);
        let names = parse_name_list(&trimmed(&code));
        return Ok((from_statement_exec(&module, names, comment, line_number, false), 1));
    }
    let inner = slice_of(&names_part, 1, names_part.len());
    assert(inner@ =~= names_part@.drop_first());
    let close = close_paren();
    match find_in(&inner, &close) {
        Some(c) => {
            let inside = slice_of(&inner, 0, c);
            let rest = slice_of(&inner, c + 1, inner.len());
            assert(inside@ =~= inner@.take(c as int));
            assert(rest@ =~= inner@.skip(c + 1));
            let (code, comment) = split_inline_comment(&inside);
            let names = parse_name_list(&trimmed(&code));
            let comment = join_comments_exec(comment, trailing_comment_exec(&rest));
            return Ok((from_statement_exec(&module, names, comment, line_number, false), 1));
        },
        None => {},
    }
    // True multi-line: consume until the closing parenthesis.
    let (code0, comment0) = split_inline_comment(&inner);
    let mut names: Vec<ImportedName> = Vec::new();
    assert(names_view(names@) =~= Seq::<SpecName>::empty());
    let mut lead = absorb_line(&mut names, None, &trimmed(&code0), comment0);
    let mut stmt_comment: Option<Vec<char>> = None;
    let mut closed = false;
    let mut j = start + 1;
    let ghost goal = scan_parenthesized(ls, start + 1, names_view(names@), opt_chars(lead), file_path@);
    let ghost whole = parse_from(ls, start as int, file_path@);
    assert(whole == match goal {
        Err(e) => Err(e),
        Ok(scan) => Ok(
            (from_statement(module@, scan.0, scan.1, line_number, true), scan.2 - start),
        ),
    });
    while !closed && j < total
        invariant
            ls == lines_view(lines@),
            total == lines@.len(),
            whole == parse_from(ls, start as int, file_path@),
            whole == match goal {
                Err(e) => Err(e),
                Ok(scan) => Ok(
                    (from_statement(module@, scan.0, scan.1, line_number, true), scan.2 - start),
                ),
            },
            close@ == seq![')'],
            start < j <= lines@.len(),
            closed ==> goal == Ok::<_, SpecError>((names_view(names@), opt_chars(stmt_comment), j as int)),
            !closed ==> goal == scan_parenthesized(ls, j as int, names_view(names@), opt_chars(lead), file_path@),
        decreases lines@.len() - j,
    {
        let l = trimmed(&lines[j]);
        let l_len = l.len();
        assert(ls[j as int] == lines@[j as int]@);
        match find_in(&l, &close) {
            Some(c) => {
                let before = slice_of(&l, 0, c);
                let rest = slice_of(&l, c + 1, l_len);
                assert(before@ =~= l@.take(c as int));
                assert(rest@ =~= l@.skip(c + 1));
                let (code, code_comment) = split_inline_comment(&before);
                let kept = absorb_line(&mut names, lead, &trimmed(&code), code_comment);
                stmt_comment = join_comments_exec(kept, trailing_comment_exec(&rest));
                lead = None;
                j = j + 1;
                closed = true;
            },
            None => {
                if last_is(&l, '\\') {
                    return Err(
                        LortError::BackslashContinuation { file: file_path.to_owned(), line: j + 1 },
                    );
                }
                let (code, code_comment) = split_inline_comment(&l);
                lead = absorb_line(&mut names, lead, &trimmed(&code), code_comment);
                j = j + 1;
            },
        }
    }
    let comment = if closed {
        stmt_comment
    } else {
        lead
    };
    Ok((from_statement_exec(&module, names, comment, line_number, true), j - start))
}

pub open spec fn prepend_all(prefix: Seq<SpecSegment>, rest: Result<Seq<SpecSegment>, SpecError>) -> Result<
    Seq<SpecSegment>,
    SpecError,
> {
    match rest {
        Ok(r) => Ok(prefix + r),
        Err(e) => Err(e),
    }
}

proof fn lemma_prepend_push(prefix: Seq<SpecSegment>, seg: SpecSegment, rest: Result<Seq<SpecSegment>, SpecError>)
    ensures
        prepend_all(prefix, prepend(seg, rest)) == prepend_all(prefix.push(seg), rest),
{
    match rest {
        Ok(r) => {
            assert(prefix + (seq![seg] + r) =~= prefix.push(seg) + r);
        },
        Err(e) => {},
    }
}

/// Parse a Python source file into a sequence of [`FileSegment`]s.
///
/// Only parses top-level import statements. Imports inside `if` guards
/// (`if TYPE_CHECKING:`, `try/except`, etc.) are treated as non-import lines.
/// Fails on multi-name `import a, b` statements, backslash continuations
/// in imports, and `from` lines without ` import `. Comments travel with
/// what they stand beside: the comment of a line, or one after a closing
/// parenthesis, with the statement; inside parentheses, a comment with the
/// name before it (see `absorb`).
pub fn parse_file(source: &str, file_path: &str) -> (r: Result<Vec<FileSegment>, LortError>)
    ensures
        parse_result_view(r) == parse_source(source@, file_path@),
{
    let chars = to_chars(source);
    let source_lines = split_lines(&chars);
    let ghost ls = lines(source@);
    assert(lines_view(source_lines@) =~= ls);
    let kw_import = to_chars("import ");
    let kw_from = to_chars("from ");
    let mut segments: Vec<FileSegment> = Vec::new();
    let mut i: usize = 0;
    assert(segments_view(segments@) =~= Seq::<SpecSegment>::empty());
    assert(prepend_all(Seq::<SpecSegment>::empty(), parse_lines(ls, 0, file_path@)) =~= parse_lines(ls, 0, file_path@)) by {
        match parse_lines(ls, 0, file_path@) {
            Ok(r) => { assert(Seq::<SpecSegment>::empty() + r =~= r); },
            Err(e) => {},
        }
    }
    while i < source_lines.len()
        invariant
            ls == lines_view(source_lines@),
            ls == lines(source@),
            kw_import@ == "import "@,
            kw_from@ == "from "@,
            i <= source_lines@.len(),
            parse_source(source@, file_path@) == prepend_all(
                segments_view(segments@),
                parse_lines(ls, i as int, file_path@),
            ),
        decreases source_lines@.len() - i,
    {
        let line = &source_lines[i];
        assert(ls[i as int] == line@);
        let t = trimmed(line);
        let number = i + 1;
        let candidate = t.len() > 0 && !first_is(&t, '#') && !first_is(line, ' ') && !first_is(line, '\t');
        let is_import = has_prefix(&t, &kw_import);
        let is_from = has_prefix(&t, &kw_from);
        let ghost before = segments@;
        if !candidate {
            segments.push(FileSegment::NonImport(chars_to_string(line)));
            i = i + 1;
        } else if (is_import || is_from) && last_is(&t, '\\') {
            return Err(LortError::BackslashContinuation { file: file_path.to_owned(), line: number });
        } else if is_import {
            let rest = slice_of(&t, kw_import.len(), t.len());
            assert(rest@ =~= t@.skip("import "@.len() as int));
            let stmt = parse_import_statement(&rest, number, file_path)?;
            segments.push(FileSegment::Import(stmt));
            i = i + 1;
        } else if is_from {
            let (stmt, consumed) = parse_from_import(&source_lines, i, file_path)?;
            proof {
                lemma_parse_from_end(ls, i as int, file_path@);
            }
            segments.push(FileSegment::Import(stmt));
            i = i + consumed;
        } else {
            segments.push(FileSegment::NonImport(chars_to_string(line)));
            i = i + 1;
        }
        proof {
            if segments@.len() == before.len() + 1 {
                assert(segments_view(segments@) =~= segments_view(before).push(segments@.last()@));
                lemma_prepend_push(segments_view(before), segments@.last()@, parse_lines(ls, i as int, file_path@));
            }
        }
    }
    Ok(segments)
}

// ---------------------------------------------------------------------
// Reconstruction
// ---------------------------------------------------------------------

/// `name` or `name as alias`.
pub open spec fn name_text(n: SpecName) -> Seq<char> {
    match n.alias {
        Some(a) => n.name + " as "@ + a,
        None => n.name,
    }
}

/// Two spaces and the comment, or nothing.
pub open spec fn comment_suffix(c: Option<Seq<char>>) -> Seq<char> {
    match c {
        Some(x) => "  "@ + x,
        None => Seq::empty(),
    }
}

/// Each name on a line of its own, indented by four spaces and followed
/// by a comma and the name's comment.
pub open spec fn multiline_names(names: Seq<SpecName>) -> Seq<char>
    decreases names.len(),
{
    if names.len() == 0 {
        Seq::empty()
    } else {
        multiline_names(names.drop_last()) + "\n    "@ + name_text(names.last()) + ","@
            + comment_suffix(names.last().comment)
    }
}

/// The source text of a statement, without a trailing newline.
pub open spec fn reconstruct(st: SpecStatement) -> Seq<char> {
    let body = match st.kind {
        ImportKind::Import => "import "@ + st.module + match st.alias {
            Some(a) => " as "@ + a,
            None => Seq::empty(),
        },
        ImportKind::FromImport => "from "@ + st.module + " import "@ + if st.is_multiline {
            "("@ + multiline_names(st.names) + "\n)"@
        } else {
            join(st.names.map_values(|n: SpecName| name_text(n)), ", "@)
        },
    };
    body + comment_suffix(st.inline_comment)
}

fn push_name(out: &mut String, n: &ImportedName)
    ensures
        final(out)@ == old(out)@ + name_text(n@),
{
    out.append(n.name.as_str());
    match &n.alias {
        Some(a) => {
            out.append(" as ");
            out.append(a.as_str());
        },
        None => {},
    }
}

/// Reconstruct an [`ImportStatement`] back into source code.
///
/// Preserves multi-line parenthesized format when the original used it,
/// with each name's comment after it. Single-line imports remain
/// single-line; there names carry no comments of their own (parsing gives
/// them none), and a name comment is not written. The result has no
/// trailing newline.
pub fn reconstruct_import(stmt: &ImportStatement) -> (s: String)
    ensures
        s@ == reconstruct(stmt@),
{
    let mut out = String::new();
    match stmt.kind {
        ImportKind::Import => {
            out.append("import ");
            out.append(stmt.module.as_str());
            match &stmt.alias {
                Some(a) => {
                    out.append(" as ");
                    out.append(a.as_str());
                },
                None => {},
            }
        },
        ImportKind::FromImport => {
            out.append("from ");
            out.append(stmt.module.as_str());
            out.append(" import ");
            let ghost head = out@;
            let ghost names = names_view(stmt.names@);
            if stmt.is_multiline {
                out.append("(");
                let ghost open = out@;
                let mut i: usize = 0;
                while i < stmt.names.len()
                    invariant
                        names == names_view(stmt.names@),
                        i <= stmt.names@.len(),
                        out@ == open + multiline_names(names.take(i as int)),
                    decreases stmt.names@.len() - i,
                {
                    out.append("\n    ");
                    push_name(&mut out, &stmt.names[i]);
                    out.append(",");
                    match &stmt.names[i].comment {
                        Some(c) => {
                            out.append("  ");
                            out.append(c.as_str());
                        },
                        None => {},
                    }
                    proof {
                        assert(names.take(i + 1).drop_last() =~= names.take(i as int));
                        assert(names[i as int] == stmt.names@[i as int]@);
                    }
                    i = i + 1;
                }
                out.append("\n)");
                assert(names.take(names.len() as int) =~= names);
            } else {
                let ghost texts = names.map_values(|n: SpecName| name_text(n));
                let mut i: usize = 0;
                while i < stmt.names.len()
                    invariant
                        names == names_view(stmt.names@),
                        texts == names.map_values(|n: SpecName| name_text(n)),
                        i <= stmt.names@.len(),
                        out@ == head + join(texts.take(i as int), ", "@),
                    decreases stmt.names@.len() - i,
                {
                    if i > 0 {
                        out.append(", ");
                    }
                    push_name(&mut out, &stmt.names[i]);
                    proof {
                        assert(texts.take(i + 1).drop_last() =~= texts.take(i as int));
                        assert(names[i as int] == stmt.names@[i as int]@);
                        assert(texts.take(i + 1).last() == name_text(names[i as int]));
                        if i == 0 {
                            assert(texts.take(0) =~= Seq::<Seq<char>>::empty());
                        }
                    }
                    i = i + 1;
                }
                assert(texts.take(texts.len() as int) =~= texts);
            }
        },
    }
    match &stmt.inline_comment {
        Some(c) => {
            out.append("  ");
            out.append(c.as_str());
        },
        None => {},
    }
    out
}

} // verus!
