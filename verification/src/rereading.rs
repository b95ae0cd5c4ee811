//! Sorting the tool's own output again: line numbers do not change what
//! sorting writes, the output lines are the sorted segments written out,
//! and those lines parse back into the sorted segments.

use vstd::prelude::*;

use crate::error::SpecError;
use crate::parser::{
    line_is_candidate, parse_lines, prepend, reconstruct, SpecSegment, SpecStatement,
};
use crate::reparse::{
    clean_statement, lemma_statement_lines, lemma_statement_parses_at, on_line, single_line,
    statement_lines,
};
use crate::text::{join, starts_with, trim};
use crate::sorter::{
    flush, has_future, has_non_future, lemma_output_skip, lemma_resorted_output,
    lemma_sort_block_is_ordered_permutation, output_lines, output_text, prepared,
    prepared_block, resorted, sort_block, sorted_source,
};
use crate::keys::{lemma_name_order_total_preorder, name_order, stmt_order};
use crate::stable::{
    insert_pos, insert_sorted, lemma_insert_pos, lemma_stable_sort_is_sorted_permutation,
    stable_permutation_of, stable_sort,
};
use crate::cli::sorted_text;
use crate::parser::{lemma_parse_from_end, parse_from, parse_source, SpecName};
use crate::reparse::clean_name;
use crate::text::{ends_with_char, lines, split_on, strip_cr};

verus! {

broadcast use vstd::seq_lib::group_seq_properties;

// ---------------------------------------------------------------------
// Line numbers do not matter to sorting
// ---------------------------------------------------------------------

proof fn lemma_insert_pos_map<T>(
    t: Seq<T>,
    x: T,
    le: spec_fn(T, T) -> bool,
    f: spec_fn(T) -> T,
)
    requires
        forall|a: T, b: T| #[trigger] le(f(a), f(b)) == le(a, b),
    ensures
        insert_pos(t.map_values(f), f(x), le) == insert_pos(t, x, le),
    decreases t.len(),
{
    if t.len() > 0 {
        assert(t.map_values(f).drop_first() =~= t.drop_first().map_values(f));
        assert(le(f(t[0]), f(x)) == le(t[0], x));
        lemma_insert_pos_map(t.drop_first(), x, le, f);
    }
}

/// Sorting commutes with a map that keeps the order.
pub proof fn lemma_stable_sort_map<T>(s: Seq<T>, le: spec_fn(T, T) -> bool, f: spec_fn(T) -> T)
    requires
        forall|a: T, b: T| #[trigger] le(f(a), f(b)) == le(a, b),
    ensures
        stable_sort(s.map_values(f), le) == stable_sort(s, le).map_values(f),
    decreases s.len(),
{
    if s.len() > 0 {
        assert(s.map_values(f).drop_last() =~= s.drop_last().map_values(f));
        lemma_stable_sort_map(s.drop_last(), le, f);
        let t = stable_sort(s.drop_last(), le);
        lemma_insert_pos_map(t, s.last(), le, f);
        lemma_insert_pos(t, s.last(), le);
        assert(insert_sorted(t.map_values(f), f(s.last()), le) =~= insert_sorted(t, s.last(), le).map_values(f));
    }
}

/// A statement without its line number.
pub open spec fn unnumbered(st: SpecStatement) -> SpecStatement {
    on_line(st, 0)
}

/// A segment without the line number of its statement.
pub open spec fn unnumbered_segment(s: SpecSegment) -> SpecSegment {
    match s {
        SpecSegment::Import(st) => SpecSegment::Import(unnumbered(st)),
        SpecSegment::NonImport(l) => SpecSegment::NonImport(l),
    }
}

proof fn lemma_sort_block_unnumbered(b: Seq<SpecStatement>)
    ensures
        sort_block(b.map_values(|st: SpecStatement| unnumbered(st))) == sort_block(b).map_values(
            |st: SpecStatement| unnumbered(st),
        ),
{
    let u = |st: SpecStatement| unnumbered(st);
    assert(prepared_block(b.map_values(u)) =~= prepared_block(b).map_values(u)) by {
        assert forall|i: int| 0 <= i < b.len() implies #[trigger] prepared(u(b[i])) == u(prepared(b[i])) by {}
    }
    assert forall|x: SpecStatement, y: SpecStatement| #[trigger] stmt_order()(u(x), u(y)) == stmt_order()(x, y) by {}
    lemma_stable_sort_map(prepared_block(b), stmt_order(), u);
}

/// Blocks that differ only in line numbers, the first of which sorts
/// without error, give the same lines.
pub proof fn lemma_flush_unnumbered(b1: Seq<SpecStatement>, b2: Seq<SpecStatement>, file: Seq<char>)
    requires
        b1.map_values(|st: SpecStatement| unnumbered(st)) == b2.map_values(|st: SpecStatement| unnumbered(st)),
        flush(b1, file) is Ok,
    ensures
        flush(b2, file) == flush(b1, file),
{
    let u = |st: SpecStatement| unnumbered(st);
    assert(b1.len() == b2.len()) by {
        assert(b1.map_values(u).len() == b2.map_values(u).len());
    }
    assert forall|i: int| 0 <= i < b1.len() implies #[trigger] b1[i].is_future == b2[i].is_future by {
        assert(b1.map_values(u)[i] == b2.map_values(u)[i]);
    }
    if has_future(b2) {
        let i = choose|i: int| 0 <= i < b2.len() && (#[trigger] b2[i]).is_future;
        assert(b1[i].is_future);
    }
    if has_non_future(b2) {
        let i = choose|i: int| 0 <= i < b2.len() && !(#[trigger] b2[i]).is_future;
        assert(!b1[i].is_future);
    }
    if has_future(b1) {
        let i = choose|i: int| 0 <= i < b1.len() && (#[trigger] b1[i]).is_future;
        assert(b2[i].is_future);
    }
    if has_non_future(b1) {
        let i = choose|i: int| 0 <= i < b1.len() && !(#[trigger] b1[i]).is_future;
        assert(!b2[i].is_future);
    }
    lemma_sort_block_unnumbered(b1);
    lemma_sort_block_unnumbered(b2);
    let r = |st: SpecStatement| reconstruct(st);
    assert(sort_block(b1).map_values(r) =~= sort_block(b1).map_values(u).map_values(r));
    assert(sort_block(b2).map_values(r) =~= sort_block(b2).map_values(u).map_values(r));
}

/// Segments that differ only in line numbers, the first of which sort
/// without error, give the same output lines.
pub proof fn lemma_output_unnumbered(
    s1: Seq<SpecSegment>,
    s2: Seq<SpecSegment>,
    i: int,
    b1: Seq<SpecStatement>,
    b2: Seq<SpecStatement>,
    file: Seq<char>,
)
    requires
        s1.len() == s2.len(),
        forall|k: int| 0 <= k < s1.len() ==> unnumbered_segment(#[trigger] s1[k]) == unnumbered_segment(s2[k]),
        b1.map_values(|st: SpecStatement| unnumbered(st)) == b2.map_values(|st: SpecStatement| unnumbered(st)),
        output_lines(s1, i, b1, file) is Ok,
        0 <= i <= s1.len(),
    ensures
        output_lines(s2, i, b2, file) == output_lines(s1, i, b1, file),
    decreases s1.len() - i,
{
    let u = |st: SpecStatement| unnumbered(st);
    if i >= s1.len() {
        lemma_flush_unnumbered(b1, b2, file);
    } else {
        assert(unnumbered_segment(s1[i]) == unnumbered_segment(s2[i]));
        match s1[i] {
            SpecSegment::Import(st1) => {
                let st2 = s2[i]->Import_0;
                assert(b1.push(st1).map_values(u) =~= b1.map_values(u).push(u(st1)));
                assert(b2.push(st2).map_values(u) =~= b2.map_values(u).push(u(st2)));
                lemma_output_unnumbered(s1, s2, i + 1, b1.push(st1), b2.push(st2), file);
            },
            SpecSegment::NonImport(l) => {
                lemma_flush_unnumbered(b1, b2, file);
                assert(Seq::<SpecStatement>::empty().map_values(u) =~= Seq::<SpecStatement>::empty());
                lemma_output_unnumbered(s1, s2, i + 1, Seq::empty(), Seq::empty(), file);
            },
        }
    }
}

// ---------------------------------------------------------------------
// The output lines are the sorted segments written out
// ---------------------------------------------------------------------

/// A segment as it is written out: a statement reconstructed, any other
/// line as it is.
pub open spec fn written(s: SpecSegment) -> Seq<char> {
    match s {
        SpecSegment::Import(st) => reconstruct(st),
        SpecSegment::NonImport(l) => l,
    }
}

/// When sorting succeeds, its output lines are the re-sorted segments
/// written out.
pub proof fn lemma_output_is_written(segs: Seq<SpecSegment>, block: Seq<SpecStatement>, file: Seq<char>)
    requires
        output_lines(segs, 0, block, file) is Ok,
    ensures
        output_lines(segs, 0, block, file) == Ok::<_, crate::error::SpecError>(
            resorted(segs, block).map_values(|s: SpecSegment| written(s)),
        ),
    decreases segs.len(),
{
    let w = |s: SpecSegment| written(s);
    let imports_of = sort_block(block).map_values(|st: SpecStatement| SpecSegment::Import(st));
    assert(imports_of.map_values(w) =~= sort_block(block).map_values(|st: SpecStatement| reconstruct(st)));
    if segs.len() == 0 {
        assert(resorted(segs, block) == imports_of);
    } else {
        lemma_output_skip(segs, 1, Seq::empty(), file);
        assert(segs.skip(1) =~= segs.drop_first());
        match segs[0] {
            SpecSegment::Import(st) => {
                lemma_output_skip(segs, 1, block.push(st), file);
                lemma_output_is_written(segs.drop_first(), block.push(st), file);
            },
            SpecSegment::NonImport(line) => {
                lemma_output_is_written(segs.drop_first(), Seq::empty(), file);
                let rest = resorted(segs.drop_first(), Seq::empty());
                assert((imports_of + seq![SpecSegment::NonImport(line)] + rest).map_values(w) =~= imports_of.map_values(w).push(line) + rest.map_values(w));
            },
        }
    }
}

// ---------------------------------------------------------------------
// The output lines parse back into the sorted segments
// ---------------------------------------------------------------------

/// A line that parsing keeps as it is: not an import line.
pub open spec fn kept_line(l: Seq<char>) -> bool {
    !line_is_candidate(l) || !(starts_with(trim(l), "import "@) || starts_with(trim(l), "from "@))
}

/// A segment that reads back as itself once written out.
pub open spec fn readable_segment(s: SpecSegment) -> bool {
    match s {
        SpecSegment::Import(st) => clean_statement(st),
        SpecSegment::NonImport(l) => kept_line(l) && single_line(l),
    }
}

/// The lines a segment is written as.
pub open spec fn segment_lines(s: SpecSegment) -> Seq<Seq<char>> {
    match s {
        SpecSegment::Import(st) => statement_lines(st),
        SpecSegment::NonImport(l) => seq![l],
    }
}

/// The lines the segments are written as, one after the other.
pub open spec fn all_lines(r: Seq<SpecSegment>) -> Seq<Seq<char>>
    decreases r.len(),
{
    if r.len() == 0 {
        Seq::empty()
    } else {
        segment_lines(r[0]) + all_lines(r.drop_first())
    }
}

/// Joining two runs of parts joins each, with the separator between.
pub proof fn lemma_join_concat(a: Seq<Seq<char>>, b: Seq<Seq<char>>, sep: Seq<char>)
    requires
        a.len() > 0,
        b.len() > 0,
    ensures
        join(a + b, sep) == join(a, sep) + sep + join(b, sep),
    decreases b.len(),
{
    if b.len() == 1 {
        assert((a + b).drop_last() =~= a);
    } else {
        lemma_join_concat(a, b.drop_last(), sep);
        assert((a + b).drop_last() =~= a + b.drop_last());
    }
}

proof fn lemma_segment_lines(s: SpecSegment)
    requires
        readable_segment(s),
    ensures
        segment_lines(s).len() > 0,
        join(segment_lines(s), seq!['\n']) == written(s),
        forall|i: int| 0 <= i < segment_lines(s).len() ==> single_line(#[trigger] segment_lines(s)[i]),
{
    match s {
        SpecSegment::Import(st) => lemma_statement_lines(st),
        SpecSegment::NonImport(l) => {
            assert forall|i: int| 0 <= i < 1 implies single_line(#[trigger] seq![l][i]) by {}
        },
    }
}

/// The segments written out and joined by line breaks are their lines
/// joined by line breaks; those lines are single lines.
pub proof fn lemma_written_joined(r: Seq<SpecSegment>)
    requires
        r.len() > 0,
        forall|k: int| 0 <= k < r.len() ==> readable_segment(#[trigger] r[k]),
    ensures
        join(r.map_values(|s: SpecSegment| written(s)), seq!['\n']) == join(all_lines(r), seq!['\n']),
        all_lines(r).len() > 0,
        forall|i: int| 0 <= i < all_lines(r).len() ==> single_line(#[trigger] all_lines(r)[i]),
    decreases r.len(),
{
    let w = |s: SpecSegment| written(s);
    let rest = r.drop_first();
    assert(readable_segment(r[0]));
    lemma_segment_lines(r[0]);
    let first = segment_lines(r[0]);
    if rest.len() == 0 {
        assert(all_lines(rest) =~= Seq::<Seq<char>>::empty());
        assert(all_lines(r) =~= first);
        assert(r.map_values(w) =~= seq![written(r[0])]);
    } else {
        assert forall|k: int| 0 <= k < rest.len() implies readable_segment(#[trigger] rest[k]) by {
            assert(rest[k] == r[k + 1]);
        }
        lemma_written_joined(rest);
        assert(r.map_values(w) =~= seq![written(r[0])] + rest.map_values(w));
        lemma_join_concat(seq![written(r[0])], rest.map_values(w), seq!['\n']);
        lemma_join_concat(first, all_lines(rest), seq!['\n']);
        let al = all_lines(r);
        assert(al == first + all_lines(rest));
        assert forall|i: int| 0 <= i < al.len() implies single_line(#[trigger] al[i]) by {
            if i < first.len() {
                assert(al[i] == first[i]);
            } else {
                assert(al[i] == all_lines(rest)[i - first.len()]);
            }
        }
    }
}

/// Parsing the lines of the segments, after any lines `pre`, gives the
/// segments back, line numbers aside.
pub proof fn lemma_parse_all(pre: Seq<Seq<char>>, r: Seq<SpecSegment>, file: Seq<char>)
    requires
        forall|k: int| 0 <= k < r.len() ==> readable_segment(#[trigger] r[k]),
    ensures
        parse_lines(pre + all_lines(r), pre.len() as int, file) matches Ok(r2) && r2.len() == r.len()
            && forall|k: int| 0 <= k < r.len() ==> #[trigger] unnumbered_segment(r2[k]) == unnumbered_segment(r[k]),
    decreases r.len(),
{
    let ls = pre + all_lines(r);
    if r.len() == 0 {
        assert(ls =~= pre);
    } else {
        let s = r[0];
        let rest = r.drop_first();
        assert(readable_segment(s));
        let sl = segment_lines(s);
        lemma_segment_lines(s);
        let pre2 = pre + sl;
        assert(ls =~= pre2 + all_lines(rest));
        assert forall|k: int| 0 <= k < rest.len() implies readable_segment(#[trigger] rest[k]) by {
            assert(rest[k] == r[k + 1]);
        }
        lemma_parse_all(pre2, rest, file);
        let i = pre.len() as int;
        assert forall|k: int| 0 <= k < sl.len() implies ls[i + k] == #[trigger] sl[k] by {
            assert(ls[i + k] == pre2[i + k]);
        }
        let r2 = parse_lines(ls, i + sl.len(), file)->Ok_0;
        match s {
            SpecSegment::Import(st) => {
                lemma_statement_parses_at(ls, i, st, file);
                let seg = SpecSegment::Import(on_line(st, (i + 1) as usize));
                assert(parse_lines(ls, i, file) == Ok::<_, SpecError>(seq![seg] + r2));
                assert(unnumbered(on_line(st, (i + 1) as usize)) == unnumbered(st));
                assert forall|k: int| 0 <= k < r.len() implies #[trigger] unnumbered_segment((seq![seg] + r2)[k]) == unnumbered_segment(r[k]) by {
                    if k > 0 {
                        assert((seq![seg] + r2)[k] == r2[k - 1]);
                        assert(r[k] == rest[k - 1]);
                    }
                }
            },
            SpecSegment::NonImport(l) => {
                assert(ls[i + 0] == l);
                assert(parse_lines(ls, i, file) == prepend(s, parse_lines(ls, i + 1, file)));
                assert forall|k: int| 0 <= k < r.len() implies #[trigger] unnumbered_segment((seq![s] + r2)[k]) == unnumbered_segment(r[k]) by {
                    if k > 0 {
                        assert((seq![s] + r2)[k] == r2[k - 1]);
                        assert(r[k] == rest[k - 1]);
                    }
                }
            },
        }
    }
}

// ---------------------------------------------------------------------
// What sorting gives is readable again
// ---------------------------------------------------------------------

proof fn lemma_prepared_clean(st: SpecStatement)
    requires
        clean_statement(st),
    ensures
        clean_statement(prepared(st)),
{
    if st.kind == crate::parser::ImportKind::FromImport {
        lemma_name_order_total_preorder();
        lemma_stable_sort_is_sorted_permutation(st.names, name_order());
        let sorted = stable_sort(st.names, name_order());
        let perm = choose|perm: Seq<int>| stable_permutation_of(sorted, st.names, name_order(), perm);
        assert forall|i: int| 0 <= i < sorted.len() implies clean_name(#[trigger] sorted[i]) && (
        !st.is_multiline ==> sorted[i].comment is None) by {
            assert(sorted[i] == st.names[perm[i]]);
        }
    }
}

proof fn lemma_sort_block_clean(b: Seq<SpecStatement>)
    requires
        forall|i: int| 0 <= i < b.len() ==> clean_statement(#[trigger] b[i]),
    ensures
        forall|i: int| 0 <= i < sort_block(b).len() ==> clean_statement(#[trigger] sort_block(b)[i]),
{
    lemma_sort_block_is_ordered_permutation(b);
    let sorted = sort_block(b);
    let p = prepared_block(b);
    let perm = choose|perm: Seq<int>| stable_permutation_of(sorted, p, stmt_order(), perm);
    assert forall|i: int| 0 <= i < sorted.len() implies clean_statement(#[trigger] sorted[i]) by {
        assert(sorted[i] == p[perm[i]]);
        assert(p[perm[i]] == prepared(b[perm[i]]));
        lemma_prepared_clean(b[perm[i]]);
    }
}

/// Re-sorting keeps the segments readable.
pub proof fn lemma_resorted_readable(segs: Seq<SpecSegment>, block: Seq<SpecStatement>)
    requires
        forall|k: int| 0 <= k < segs.len() ==> readable_segment(#[trigger] segs[k]),
        forall|i: int| 0 <= i < block.len() ==> clean_statement(#[trigger] block[i]),
    ensures
        forall|k: int| 0 <= k < resorted(segs, block).len() ==> readable_segment(
            #[trigger] resorted(segs, block)[k],
        ),
    decreases segs.len(),
{
    lemma_sort_block_clean(block);
    let imports = sort_block(block).map_values(|st: SpecStatement| SpecSegment::Import(st));
    assert forall|k: int| 0 <= k < imports.len() implies readable_segment(#[trigger] imports[k]) by {
        assert(imports[k] == SpecSegment::Import(sort_block(block)[k]));
    }
    let rest = segs.drop_first();
    if segs.len() == 0 {
        assert(resorted(segs, block) == imports);
    } else {
        assert forall|k: int| 0 <= k < rest.len() implies readable_segment(#[trigger] rest[k]) by {
            assert(rest[k] == segs[k + 1]);
        }
        assert(readable_segment(segs[0]));
        match segs[0] {
            SpecSegment::Import(st) => {
                assert forall|i: int| 0 <= i < block.push(st).len() implies clean_statement(#[trigger] block.push(st)[i]) by {
                    if i < block.len() {
                        assert(block.push(st)[i] == block[i]);
                    }
                }
                lemma_resorted_readable(rest, block.push(st));
                assert(resorted(segs, block) == resorted(rest, block.push(st)));
            },
            SpecSegment::NonImport(l) => {
                lemma_resorted_readable(rest, Seq::empty());
                let all = imports + seq![SpecSegment::NonImport(l)] + resorted(rest, Seq::empty());
                assert(resorted(segs, block) == all);
                assert forall|k: int| 0 <= k < all.len() implies readable_segment(#[trigger] all[k]) by {
                    if k < imports.len() {
                        assert(all[k] == imports[k]);
                    } else if k > imports.len() {
                        assert(all[k] == resorted(rest, Seq::empty())[k - imports.len() - 1]);
                    }
                }
            },
        }
    }
}

// ---------------------------------------------------------------------
// What parsing keeps as it is
// ---------------------------------------------------------------------

proof fn lemma_split_pieces(s: Seq<char>, c: char)
    ensures
        forall|j: int, m: int|
            0 <= j < split_on(s, c).len() && 0 <= m < split_on(s, c)[j].len() ==> #[trigger] split_on(s, c)[j][m] != c,
    decreases s.len(),
{
    if s.len() > 0 {
        lemma_split_pieces(s.drop_last(), c);
        crate::text::lemma_split_on_nonempty(s.drop_last(), c);
    }
}

/// No line of the text, as `str::lines` reads it, ends in a carriage
/// return: every `\r` is alone before a `\n`, or within a line. Text with
/// `\r\n` line ends meets this; `x\r` at the very end, or `\r\r\n`, does
/// not.
pub open spec fn no_line_ends_in_cr(s: Seq<char>) -> bool {
    forall|j: int| 0 <= j < lines(s).len() ==> !ends_with_char(#[trigger] lines(s)[j], '\r')
}

/// The lines of a text hold no line break.
pub proof fn lemma_lines_single(s: Seq<char>)
    requires
        no_line_ends_in_cr(s),
    ensures
        forall|j: int| 0 <= j < lines(s).len() ==> single_line(#[trigger] lines(s)[j]),
{
    if s.len() > 0 {
        lemma_split_pieces(s, '\n');
        crate::text::lemma_split_on_nonempty(s, '\n');
        let parts = split_on(s, '\n');
        assert forall|j: int| 0 <= j < lines(s).len() implies single_line(#[trigger] lines(s)[j]) by {
            let l = lines(s)[j];
            assert(!ends_with_char(l, '\r'));
            if j < parts.len() - 1 {
                assert(l == strip_cr(parts[j]));
                assert forall|m: int| 0 <= m < l.len() implies #[trigger] l[m] != '\n' by {
                    assert(l[m] == parts[j][m]);
                }
            } else {
                assert(l == parts[j]);
            }
        }
    }
}

/// The lines that parsing keeps as they are are not import lines, and,
/// in a text of single lines, single lines.
pub proof fn lemma_parse_kept(ls: Seq<Seq<char>>, i: int, file: Seq<char>)
    requires
        forall|j: int| 0 <= j < ls.len() ==> single_line(#[trigger] ls[j]),
        0 <= i,
        parse_lines(ls, i, file) is Ok,
    ensures
        forall|k: int| 0 <= k < parse_lines(ls, i, file)->Ok_0.len() ==> (#[trigger] parse_lines(ls, i, file)->Ok_0[k]
            matches SpecSegment::NonImport(l) ==> kept_line(l) && single_line(l)),
    decreases ls.len() - i,
{
    if i < ls.len() {
        let line = ls[i];
        let t = trim(line);
        let all = parse_lines(ls, i, file)->Ok_0;
        if line_is_candidate(line) && starts_with(t, "from "@) && !starts_with(t, "import "@)
            && !crate::text::ends_with_char(t, '\\') {
            let r = parse_from(ls, i, file)->Ok_0;
            lemma_parse_from_end(ls, i, file);
            lemma_parse_kept(ls, i + r.1, file);
            let rest = parse_lines(ls, i + r.1, file)->Ok_0;
            assert forall|k: int| 0 <= k < all.len() implies (#[trigger] all[k] matches SpecSegment::NonImport(l) ==> kept_line(l) && single_line(l)) by {
                if k > 0 {
                    assert(all[k] == rest[k - 1]);
                }
            }
        } else {
            lemma_parse_kept(ls, i + 1, file);
            let rest = parse_lines(ls, i + 1, file)->Ok_0;
            assert forall|k: int| 0 <= k < all.len() implies (#[trigger] all[k] matches SpecSegment::NonImport(l) ==> kept_line(l) && single_line(l)) by {
                if k > 0 {
                    assert(all[k] == rest[k - 1]);
                } else {
                    assert(single_line(ls[i]));
                }
            }
        }
    }
}

// ---------------------------------------------------------------------
// The law
// ---------------------------------------------------------------------

/// Law: sorting the tool's own output changes nothing. For a source text
/// none of whose lines ends in a carriage return once read (so `\n` and
/// `\r\n` line ends alike), whose import statements are in the form that
/// parsing gives (see `clean_statement`), when sorting succeeds, parsing
/// and sorting its output again gives that same output.
pub proof fn lemma_sorting_sorted_text_changes_nothing(source: Seq<char>, file: Seq<char>)
    requires
        no_line_ends_in_cr(source),
        parse_source(source, file) matches Ok(segs) ==> forall|k: int|
            0 <= k < segs.len() ==> (#[trigger] segs[k] matches SpecSegment::Import(st) ==> clean_statement(st)),
        sorted_text(source, file) is Ok,
    ensures
        sorted_text(sorted_text(source, file)->Ok_0, file) == sorted_text(source, file),
{
    let ls = lines(source);
    let segs = parse_source(source, file)->Ok_0;
    lemma_lines_single(source);
    lemma_parse_kept(ls, 0, file);
    assert forall|k: int| 0 <= k < segs.len() implies readable_segment(#[trigger] segs[k]) by {
        match segs[k] {
            SpecSegment::Import(st) => {},
            SpecSegment::NonImport(l) => {},
        }
    }
    let empty = Seq::<SpecStatement>::empty();
    lemma_resorted_readable(segs, empty);
    lemma_output_is_written(segs, empty, file);
    lemma_resorted_output(segs, empty, file);
    let r = resorted(segs, empty);
    let w = |s: SpecSegment| written(s);
    let out_lines = r.map_values(w);
    let out = output_text(out_lines);
    assert(sorted_text(source, file) == Ok::<_, SpecError>(out));
    if r.len() == 0 {
        assert(out_lines.len() == 0);
        assert(lines(out) =~= Seq::<Seq<char>>::empty());
        assert(parse_source(out, file) == Ok::<_, SpecError>(Seq::<SpecSegment>::empty()));
        assert(flush(empty, file) == Ok::<_, SpecError>(Seq::<Seq<char>>::empty()));
        assert(output_text(Seq::<Seq<char>>::empty()) =~= out);
    } else {
        lemma_written_joined(r);
        let al = all_lines(r);
        assert(out == join(al, seq!['\n']) + seq!['\n']);
        crate::reparse::lemma_lines_of_joined(al);
        lemma_parse_all(Seq::empty(), r, file);
        assert(Seq::<Seq<char>>::empty() + al =~= al);
        let r2 = parse_lines(al, 0, file)->Ok_0;
        assert(parse_source(out, file) == Ok::<_, SpecError>(r2));
        assert(empty.map_values(|st: SpecStatement| unnumbered(st)) =~= empty.map_values(|st: SpecStatement| unnumbered(st)));
        lemma_output_unnumbered(r, r2, 0, empty, empty, file);
        assert(sorted_source(r2, file) == Ok::<_, SpecError>(out));
    }
}

} // verus!
