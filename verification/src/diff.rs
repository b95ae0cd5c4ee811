//! The unified diff that `--diff` shows, rendered as text.
//!
//! The hunks come from `similar`; the colors from `owo_colors`. What is
//! printed for them, and where, is decided here.

use owo_colors::OwoColorize;
use vstd::prelude::*;

use crate::text::ends_with_char;

verus! {

/// Whether a diff line is kept, removed or added.
#[derive(Debug, Clone, Copy, PartialEq, Eq, Structural)]
pub enum LineTag {
    Equal,
    Delete,
    Insert,
}

/// One line of a hunk: its tag and its text, with the line's own newline
/// if it had one.
pub struct DiffLine {
    pub tag: LineTag,
    pub text: String,
}

/// A hunk of a unified diff: its `@@ -a,b +c,d @@` header and its lines.
pub struct DiffHunk {
    pub header: String,
    pub lines: Vec<DiffLine>,
}

pub struct SpecDiffLine {
    pub tag: LineTag,
    pub text: Seq<char>,
}

pub struct SpecHunk {
    pub header: Seq<char>,
    pub lines: Seq<SpecDiffLine>,
}

impl View for DiffLine {
    type V = SpecDiffLine;

    open spec fn view(&self) -> SpecDiffLine {
        SpecDiffLine { tag: self.tag, text: self.text@ }
    }
}

impl View for DiffHunk {
    type V = SpecHunk;

    open spec fn view(&self) -> SpecHunk {
        SpecHunk { header: self.header@, lines: self.lines@.map_values(|l: DiffLine| l@) }
    }
}

pub open spec fn hunks_view(v: Seq<DiffHunk>) -> Seq<SpecHunk> {
    v.map_values(|h: DiffHunk| h@)
}

/// The hunks of the line diff from `original` to `sorted` with three
/// lines of context, as `similar` computes them.
pub uninterp spec fn unified_hunks(original: Seq<char>, sorted: Seq<char>) -> Seq<SpecHunk>;

/// `similar::TextDiff::from_lines(original, sorted)`, its
/// `unified_diff()` with `context_radius(3)`, and for each of its
/// `iter_hunks()` the displayed `header()` and, for each of the hunk's
/// `iter_changes()`, the `tag()` and `to_string_lossy()` text. The
/// contract names the result and claims nothing of its content.
#[verifier::external_body]
fn unified_diff_hunks(original: &str, sorted: &str) -> (hunks: Vec<DiffHunk>)
    ensures
        hunks_view(hunks@) == unified_hunks(original@, sorted@),
{
    let diff = similar::TextDiff::from_lines(original, sorted);
    let mut unified = diff.unified_diff();
    unified.context_radius(3);
    unified.iter_hunks().map(|hunk| DiffHunk {
        header: hunk.header().to_string(),
        lines: hunk.iter_changes().map(|change| DiffLine {
            tag: match change.tag() {
                similar::ChangeTag::Equal => LineTag::Equal,
                similar::ChangeTag::Delete => LineTag::Delete,
                similar::ChangeTag::Insert => LineTag::Insert,
            },
            text: change.to_string_lossy().into_owned(),
        }).collect(),
    }).collect()
}

pub open spec fn bold(t: Seq<char>) -> Seq<char> {
    "\u{1b}[1m"@ + t + "\u{1b}[0m"@
}

pub open spec fn cyan(t: Seq<char>) -> Seq<char> {
    "\u{1b}[36m"@ + t + "\u{1b}[39m"@
}

pub open spec fn red(t: Seq<char>) -> Seq<char> {
    "\u{1b}[31m"@ + t + "\u{1b}[39m"@
}

pub open spec fn green(t: Seq<char>) -> Seq<char> {
    "\u{1b}[32m"@ + t + "\u{1b}[39m"@
}

/// `OwoColorize::bold`, displayed: the text between `ESC[1m` and `ESC[0m`.
#[verifier::external_body]
fn paint_bold(t: &str) -> (s: String)
    ensures
        s@ == bold(t@),
{
    format!("{}", t.bold())
}

/// `OwoColorize::cyan`, displayed: the text between `ESC[36m` and `ESC[39m`.
#[verifier::external_body]
fn paint_cyan(t: &str) -> (s: String)
    ensures
        s@ == cyan(t@),
{
    format!("{}", t.cyan())
}

/// `OwoColorize::red`, displayed: the text between `ESC[31m` and `ESC[39m`.
#[verifier::external_body]
fn paint_red(t: &str) -> (s: String)
    ensures
        s@ == red(t@),
{
    format!("{}", t.red())
}

/// `OwoColorize::green`, displayed: the text between `ESC[32m` and `ESC[39m`.
#[verifier::external_body]
fn paint_green(t: &str) -> (s: String)
    ensures
        s@ == green(t@),
{
    format!("{}", t.green())
}

/// A change's text lacks a line ending (`\n` or `\r`), as `similar`'s
/// `Change::missing_newline` reports for string input.
pub open spec fn missing_newline(text: Seq<char>) -> bool {
    !(ends_with_char(text, '\n') || ends_with_char(text, '\r'))
}

pub open spec fn sign(tag: LineTag) -> Seq<char> {
    match tag {
        LineTag::Delete => "-"@,
        LineTag::Insert => "+"@,
        LineTag::Equal => " "@,
    }
}

/// A change as `similar` displays it after its sign: the text, plus a
/// newline when the text has none.
pub open spec fn change_line(l: SpecDiffLine) -> Seq<char> {
    sign(l.tag) + l.text + if missing_newline(l.text) {
        "\n"@
    } else {
        Seq::empty()
    }
}

/// What is printed for one change: the line, red when deleted and green
/// when inserted if colored.
pub open spec fn rendered_change(l: SpecDiffLine, use_color: bool) -> Seq<char> {
    let line = change_line(l);
    if use_color {
        match l.tag {
            LineTag::Delete => red(line),
            LineTag::Insert => green(line),
            LineTag::Equal => line,
        }
    } else {
        line
    }
}

pub open spec fn rendered_changes(ls: Seq<SpecDiffLine>, use_color: bool) -> Seq<char>
    decreases ls.len(),
{
    if ls.len() == 0 {
        Seq::empty()
    } else {
        rendered_changes(ls.drop_last(), use_color) + rendered_change(ls.last(), use_color)
    }
}

/// A hunk: its header on a line of its own (cyan if colored), then its
/// changes.
pub open spec fn rendered_hunk(h: SpecHunk, use_color: bool) -> Seq<char> {
    (if use_color {
        cyan(h.header)
    } else {
        h.header
    }) + "\n"@ + rendered_changes(h.lines, use_color)
}

pub open spec fn rendered_hunks(hs: Seq<SpecHunk>, use_color: bool) -> Seq<char>
    decreases hs.len(),
{
    if hs.len() == 0 {
        Seq::empty()
    } else {
        rendered_hunks(hs.drop_last(), use_color) + rendered_hunk(hs.last(), use_color)
    }
}

/// Law: the changes of a hunk are rendered one after another, each as
/// itself: two runs of changes render as their renderings one after the
/// other, and a single change as that change, context lines included.
pub proof fn lemma_rendered_changes_concat(a: Seq<SpecDiffLine>, b: Seq<SpecDiffLine>, use_color: bool)
    ensures
        rendered_changes(a + b, use_color) == rendered_changes(a, use_color) + rendered_changes(b, use_color),
    decreases b.len(),
{
    if b.len() == 0 {
        assert(a + b =~= a);
        assert(rendered_changes(a, use_color) + Seq::<char>::empty() =~= rendered_changes(a, use_color));
    } else {
        lemma_rendered_changes_concat(a, b.drop_last(), use_color);
        assert((a + b).drop_last() =~= a + b.drop_last());
        assert((a + b).last() == b.last());
    }
}

/// Law: one change renders as itself.
pub proof fn lemma_rendered_single_change(l: SpecDiffLine, use_color: bool)
    ensures
        rendered_changes(seq![l], use_color) == rendered_change(l, use_color),
{
    assert(seq![l].drop_last() =~= Seq::<SpecDiffLine>::empty());
    assert(seq![l].last() == l);
    assert(rendered_changes(Seq::<SpecDiffLine>::empty(), use_color) == Seq::<char>::empty());
    assert(Seq::<char>::empty() + rendered_change(l, use_color) =~= rendered_change(l, use_color));
}

/// Law: without color, a change is printed as its sign (a space for a
/// context line, `-` for a removed one, `+` for an added one), its text,
/// and a line break when the text has none.
pub proof fn lemma_plain_change(l: SpecDiffLine)
    ensures
        rendered_change(l, false) == seq![
            match l.tag {
                LineTag::Equal => ' ',
                LineTag::Delete => '-',
                LineTag::Insert => '+',
            },
        ] + l.text + if missing_newline(l.text) {
            seq!['\n']
        } else {
            Seq::<char>::empty()
        },
{
    reveal_strlit(" ");
    reveal_strlit("-");
    reveal_strlit("+");
    reveal_strlit("\n");
    assert(rendered_change(l, false) =~= seq![
        match l.tag {
            LineTag::Equal => ' ',
            LineTag::Delete => '-',
            LineTag::Insert => '+',
        },
    ] + l.text + if missing_newline(l.text) {
        seq!['\n']
    } else {
        Seq::<char>::empty()
    });
}

/// Law: a hunk is rendered as its header on a line of its own, then each
/// of its changes in order; hunks one after another.
pub proof fn lemma_rendered_hunks_concat(a: Seq<SpecHunk>, b: Seq<SpecHunk>, use_color: bool)
    ensures
        rendered_hunks(a + b, use_color) == rendered_hunks(a, use_color) + rendered_hunks(b, use_color),
    decreases b.len(),
{
    if b.len() == 0 {
        assert(a + b =~= a);
        assert(rendered_hunks(a, use_color) + Seq::<char>::empty() =~= rendered_hunks(a, use_color));
    } else {
        lemma_rendered_hunks_concat(a, b.drop_last(), use_color);
        assert((a + b).drop_last() =~= a + b.drop_last());
        assert((a + b).last() == b.last());
    }
}

/// Law: one hunk renders as itself.
pub proof fn lemma_rendered_single_hunk(h: SpecHunk, use_color: bool)
    ensures
        rendered_hunks(seq![h], use_color) == rendered_hunk(h, use_color),
{
    assert(seq![h].drop_last() =~= Seq::<SpecHunk>::empty());
    assert(seq![h].last() == h);
    assert(rendered_hunks(Seq::<SpecHunk>::empty(), use_color) == Seq::<char>::empty());
    assert(Seq::<char>::empty() + rendered_hunk(h, use_color) =~= rendered_hunk(h, use_color));
}

/// The whole diff: `--- path` and `+++ path` lines (bold if colored),
/// then the hunks.
pub open spec fn rendered_diff(path: Seq<char>, hunks: Seq<SpecHunk>, use_color: bool) -> Seq<
    char,
> {
    (if use_color {
        bold("--- "@ + path) + "\n"@ + bold("+++ "@ + path) + "\n"@
    } else {
        "--- "@ + path + "\n"@ + "+++ "@ + path + "\n"@
    }) + rendered_hunks(hunks, use_color)
}

fn push_change(out: &mut String, l: &DiffLine, use_color: bool)
    ensures
        final(out)@ == old(out)@ + rendered_change(l@, use_color),
{
    let chars = crate::text::to_chars(l.text.as_str());
    let missing = !(crate::text::last_is(&chars, '\n') || crate::text::last_is(&chars, '\r'));
    let mut line = String::new();
    match l.tag {
        LineTag::Delete => line.append("-"),
        LineTag::Insert => line.append("+"),
        LineTag::Equal => line.append(" "),
    }
    line.append(l.text.as_str());
    if missing {
        line.append("\n");
    }
    assert(line@ == change_line(l@));
    if use_color {
        match l.tag {
            LineTag::Delete => {
                let painted = paint_red(line.as_str());
                out.append(painted.as_str());
            },
            LineTag::Insert => {
                let painted = paint_green(line.as_str());
                out.append(painted.as_str());
            },
            LineTag::Equal => out.append(line.as_str()),
        }
    } else {
        out.append(line.as_str());
    }
}

fn push_hunk(out: &mut String, h: &DiffHunk, use_color: bool)
    ensures
        final(out)@ == old(out)@ + rendered_hunk(h@, use_color),
{
    let ghost start = out@;
    if use_color {
        let painted = paint_cyan(h.header.as_str());
        out.append(painted.as_str());
    } else {
        out.append(h.header.as_str());
    }
    out.append("\n");
    let ghost head = out@;
    let ghost ls = h@.lines;
    let mut i: usize = 0;
    while i < h.lines.len()
        invariant
            ls == h@.lines,
            i <= h.lines@.len(),
            out@ == head + rendered_changes(ls.take(i as int), use_color),
        decreases h.lines@.len() - i,
    {
        push_change(out, &h.lines[i], use_color);
        proof {
            assert(ls.take(i + 1).drop_last() =~= ls.take(i as int));
            assert(ls.take(i + 1).last() == h.lines@[i as int]@);
        }
        i = i + 1;
    }
    assert(ls.take(ls.len() as int) =~= ls);
}

/// The text of a unified diff made of the given hunks, headed by
/// `--- path` and `+++ path`, colored with ANSI escapes if `use_color`.
pub fn render_hunks(display_path: &str, hunks: &Vec<DiffHunk>, use_color: bool) -> (s: String)
    ensures
        s@ == rendered_diff(display_path@, hunks_view(hunks@), use_color),
{
    let mut out = String::new();
    if use_color {
        let mut minus = String::new();
        minus.append("--- ");
        minus.append(display_path);
        let mut plus = String::new();
        plus.append("+++ ");
        plus.append(display_path);
        let bm = paint_bold(minus.as_str());
        let bp = paint_bold(plus.as_str());
        out.append(bm.as_str());
        out.append("\n");
        out.append(bp.as_str());
        out.append("\n");
    } else {
        out.append("--- ");
        out.append(display_path);
        out.append("\n");
        out.append("+++ ");
        out.append(display_path);
        out.append("\n");
    }
    let ghost head = out@;
    let ghost hs = hunks_view(hunks@);
    let mut i: usize = 0;
    while i < hunks.len()
        invariant
            hs == hunks_view(hunks@),
            i <= hunks@.len(),
            out@ == head + rendered_hunks(hs.take(i as int), use_color),
        decreases hunks@.len() - i,
    {
        push_hunk(&mut out, &hunks[i], use_color);
        proof {
            assert(hs.take(i + 1).drop_last() =~= hs.take(i as int));
            assert(hs.take(i + 1).last() == hunks@[i as int]@);
        }
        i = i + 1;
    }
    assert(hs.take(hs.len() as int) =~= hs);
    out
}

/// The unified diff (three lines of context) between the original and
/// the sorted text of a file, as `--diff` prints it.
pub fn render_diff(display_path: &str, original: &str, sorted: &str, use_color: bool) -> (s: String)
    ensures
        s@ == rendered_diff(display_path@, unified_hunks(original@, sorted@), use_color),
{
    let hunks = unified_diff_hunks(original, sorted);
    render_hunks(display_path, &hunks, use_color)
}

} // verus!
