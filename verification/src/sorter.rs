//! Sorting of import blocks and reconstruction of the source text.

use std::cmp::Ordering;

use vstd::prelude::*;

use crate::error::{LortError, SpecError};
use crate::keys::{
    lemma_name_order_total_preorder, lemma_stmt_order_total_preorder, name_compare_exec, name_order, path_compare, path_compare_exec, segment_compare,
    segment_compare_exec, stmt_compare_exec, stmt_order,
};
use crate::parser::{
    lines_view, names_view, reconstruct, reconstruct_import, FileSegment, ImportKind, ImportStatement,
    ImportedName, SpecSegment, SpecStatement, segments_view,
};
use crate::stdlib::typing_related;
use crate::stable::{
    insert_sorted, lemma_insert_pos_unique, lemma_stable_sort_is_sorted_permutation,
    lemma_stable_sort_of_sorted, sorted_by, stable_permutation_of, stable_sort,
};
use crate::text::{chars_to_string, ends_with_char, extend_chars, join, to_chars};

verus! {

broadcast use vstd::seq_lib::group_seq_properties;

// ---------------------------------------------------------------------
// Comparisons
// ---------------------------------------------------------------------

/// `-1`, `0` or `1` for `Less`, `Equal` or `Greater`.
pub open spec fn ordering_sign(o: Ordering) -> int {
    match o {
        Ordering::Less => -1,
        Ordering::Equal => 0,
        Ordering::Greater => 1,
    }
}

fn ordering_of(c: i8) -> (o: Ordering)
    requires
        -1 <= c <= 1,
    ensures
        ordering_sign(o) == c,
{
    if c < 0 {
        Ordering::Less
    } else if c > 0 {
        Ordering::Greater
    } else {
        Ordering::Equal
    }
}

/// Compare two module path strings using length-first, segment-by-segment
/// ordering.
///
/// For each pair of segments at the same depth: the segment shorter in
/// bytes comes first; equal lengths compare alphabetically. If one path's
/// segments are a prefix of the other's, the shorter path (the parent)
/// comes first.
pub fn compare_module_path(a: &str, b: &str) -> (o: Ordering)
    ensures
        ordering_sign(o) == path_compare(a@, b@),
{
    let ca = to_chars(a);
    let cb = to_chars(b);
    let c = path_compare_exec(&ca, &cb);
    proof {
        crate::keys::lemma_path_compare_total_order(a@, b@, b@);
    }
    ordering_of(c)
}

/// Compare two imported names using the same length-first rule.
///
/// The sort key uses the original name, not the alias; a star import
/// (`*`) has length 1.
pub fn compare_imported_name(a: &str, b: &str) -> (o: Ordering)
    ensures
        ordering_sign(o) == segment_compare(a@, b@),
{
    let c = segment_compare_exec(&to_chars(a), &to_chars(b));
    proof {
        crate::keys::lemma_segment_compare_order(a@, b@, b@);
    }
    ordering_of(c)
}

// ---------------------------------------------------------------------
// What sorting computes
// ---------------------------------------------------------------------

pub open spec fn stmts_view(v: Seq<ImportStatement>) -> Seq<SpecStatement> {
    v.map_values(|s: ImportStatement| s@)
}

/// The statement with its imported names in sorted order.
pub open spec fn with_sorted_names(st: SpecStatement) -> SpecStatement {
    SpecStatement { names: stable_sort(st.names, name_order()), ..st }
}

/// A `from` statement gets its names sorted; a plain import is unchanged.
pub open spec fn prepared(st: SpecStatement) -> SpecStatement {
    if st.kind == ImportKind::FromImport {
        with_sorted_names(st)
    } else {
        st
    }
}

/// Every statement of a block prepared.
pub open spec fn prepared_block(block: Seq<SpecStatement>) -> Seq<SpecStatement> {
    block.map_values(|st: SpecStatement| prepared(st))
}

/// A block after sorting: names within `from` statements, then the
/// statements themselves, both stably.
pub open spec fn sort_block(block: Seq<SpecStatement>) -> Seq<SpecStatement> {
    stable_sort(prepared_block(block), stmt_order())
}

pub open spec fn has_future(block: Seq<SpecStatement>) -> bool {
    exists|i: int| 0 <= i < block.len() && (#[trigger] block[i]).is_future
}

pub open spec fn has_non_future(block: Seq<SpecStatement>) -> bool {
    exists|i: int| 0 <= i < block.len() && !(#[trigger] block[i]).is_future
}

/// The line of the first `__future__` import of a block.
pub open spec fn first_future_line(block: Seq<SpecStatement>) -> usize
    decreases block.len(),
{
    if block.len() == 0 {
        0
    } else if block[0].is_future {
        block[0].line_number
    } else {
        first_future_line(block.drop_first())
    }
}

/// A block may not mix `__future__` imports with other imports.
pub open spec fn future_check(block: Seq<SpecStatement>, file: Seq<char>) -> Result<(), SpecError> {
    if has_future(block) && has_non_future(block) {
        Err(SpecError::FutureMixedWithOther { file, line: first_future_line(block) })
    } else {
        Ok(())
    }
}

/// The lines that a finished block becomes.
pub open spec fn flush(block: Seq<SpecStatement>, file: Seq<char>) -> Result<
    Seq<Seq<char>>,
    SpecError,
> {
    if block.len() == 0 {
        Ok(Seq::empty())
    } else {
        match future_check(block, file) {
            Err(e) => Err(e),
            Ok(_) => Ok(sort_block(block).map_values(|st: SpecStatement| reconstruct(st))),
        }
    }
}

/// The output lines for the segments from index `i` on, where `block`
/// holds the imports of the block that is still open.
pub open spec fn output_lines(
    segs: Seq<SpecSegment>,
    i: int,
    block: Seq<SpecStatement>,
    file: Seq<char>,
) -> Result<Seq<Seq<char>>, SpecError>
    decreases segs.len() - i,
{
    if i < 0 || i >= segs.len() {
        flush(block, file)
    } else {
        match segs[i] {
            SpecSegment::Import(st) => output_lines(segs, i + 1, block.push(st), file),
            SpecSegment::NonImport(line) => match flush(block, file) {
                Err(e) => Err(e),
                Ok(head) => match output_lines(segs, i + 1, Seq::empty(), file) {
                    Err(e) => Err(e),
                    Ok(rest) => Ok(head.push(line) + rest),
                },
            },
        }
    }
}

/// The output lines, each followed by a newline.
pub open spec fn output_text(lines: Seq<Seq<char>>) -> Seq<char> {
    if lines.len() == 0 {
        Seq::empty()
    } else {
        join(lines, seq!['\n']).push('\n')
    }
}

/// What `sort_and_reconstruct` computes for parsed segments.
pub open spec fn sorted_source(segs: Seq<SpecSegment>, file: Seq<char>) -> Result<
    Seq<char>,
    SpecError,
> {
    match output_lines(segs, 0, Seq::empty(), file) {
        Ok(lines) => Ok(output_text(lines)),
        Err(e) => Err(e),
    }
}

pub open spec fn unit_result_view(r: Result<(), LortError>) -> Result<(), SpecError> {
    match r {
        Ok(_) => Ok(()),
        Err(e) => Err(e@),
    }
}

pub open spec fn text_result_view(r: Result<String, LortError>) -> Result<Seq<char>, SpecError> {
    match r {
        Ok(s) => Ok(s@),
        Err(e) => Err(e@),
    }
}

// ---------------------------------------------------------------------
// Laws of sorting
// ---------------------------------------------------------------------

/// Law: the names of a statement, once sorted, are in length-then-alphabet
/// order, and are the original names rearranged with tying names kept in
/// their original order.
#[verifier::spinoff_prover]
pub proof fn lemma_sorted_names_are_ordered_permutation(st: SpecStatement)
    ensures
        sorted_by(with_sorted_names(st).names, name_order()),
        exists|perm: Seq<int>|
            #[trigger] stable_permutation_of(with_sorted_names(st).names, st.names, name_order(), perm),
{
    lemma_name_order_total_preorder();
    lemma_stable_sort_is_sorted_permutation(st.names, name_order());
}

/// Law: a sorted block is in block order, and it is the block's
/// statements (with their names sorted) rearranged, statements that tie
/// keeping their order in the block.
#[verifier::spinoff_prover]
pub proof fn lemma_sort_block_is_ordered_permutation(block: Seq<SpecStatement>)
    ensures
        sorted_by(sort_block(block), stmt_order()),
        exists|perm: Seq<int>|
            #[trigger] stable_permutation_of(
                sort_block(block),
                prepared_block(block),
                stmt_order(),
                perm,
            ),
{
    lemma_stmt_order_total_preorder();
    lemma_stable_sort_is_sorted_permutation(prepared_block(block), stmt_order());
}

/// Preparing a statement twice is preparing it once.
proof fn lemma_prepared_idempotent(st: SpecStatement)
    ensures
        prepared(prepared(st)) == prepared(st),
{
    if st.kind == ImportKind::FromImport {
        lemma_name_order_total_preorder();
        lemma_stable_sort_is_sorted_permutation(st.names, name_order());
        lemma_stable_sort_of_sorted(stable_sort(st.names, name_order()), name_order());
    }
}

/// Law: sorting a block that was sorted already changes nothing, so the
/// tool leaves its own output as it is.
pub proof fn lemma_sort_block_idempotent(block: Seq<SpecStatement>)
    ensures
        sort_block(sort_block(block)) == sort_block(block),
{
    let p = prepared_block(block);
    let sorted = sort_block(block);
    lemma_sort_block_is_ordered_permutation(block);
    let perm = choose|perm: Seq<int>| stable_permutation_of(sorted, p, stmt_order(), perm);
    assert(prepared_block(sorted) =~= sorted) by {
        assert forall|i: int| 0 <= i < sorted.len() implies #[trigger] prepared(sorted[i])
            == sorted[i] by {
            assert(sorted[i] == p[perm[i]]);
            lemma_prepared_idempotent(block[perm[i]]);
        }
    }
    lemma_stable_sort_of_sorted(sorted, stmt_order());
}

/// Law: in a sorted block, two statements that agree on being
/// `__future__` imports, on being type-annotation imports, on their kind,
/// on being relative and on their leading dots stand in the order of their
/// module paths after the dots (`compare_module_path`).
pub proof fn lemma_sorted_block_path_order(block: Seq<SpecStatement>)
    ensures
        forall|i: int, j: int|
            0 <= i < j < sort_block(block).len() && {
                let a = #[trigger] sort_block(block)[i];
                let b = #[trigger] sort_block(block)[j];
                &&& a.is_future == b.is_future
                &&& typing_related(a.module) == typing_related(b.module)
                &&& a.kind == b.kind
                &&& a.is_relative == b.is_relative
                &&& crate::keys::leading_dots(a.module) == crate::keys::leading_dots(b.module)
            } ==> path_compare(
                crate::keys::after_dots(sort_block(block)[i].module),
                crate::keys::after_dots(sort_block(block)[j].module),
            ) <= 0,
{
    let sorted = sort_block(block);
    lemma_sort_block_is_ordered_permutation(block);
    assert forall|i: int, j: int|
        0 <= i < j < sorted.len() && {
            let a = #[trigger] sorted[i];
            let b = #[trigger] sorted[j];
            &&& a.is_future == b.is_future
            &&& typing_related(a.module) == typing_related(b.module)
            &&& a.kind == b.kind
            &&& a.is_relative == b.is_relative
            &&& crate::keys::leading_dots(a.module) == crate::keys::leading_dots(b.module)
        } implies path_compare(
            crate::keys::after_dots(sorted[i].module),
            crate::keys::after_dots(sorted[j].module),
        ) <= 0 by {
        assert(stmt_order()(sorted[i], sorted[j]));
        crate::keys::lemma_tied_statements_by_path(sorted[i], sorted[j]);
    }
}

/// Law: in a sorted block every `from` import, relative or absolute,
/// lists its names in name order (by UTF-8 length, then alphabet), and
/// they are the names of a `from` import of the block with the same
/// module, stably rearranged.
pub proof fn lemma_sorted_block_names(block: Seq<SpecStatement>)
    ensures
        forall|i: int|
            0 <= i < sort_block(block).len() && (#[trigger] sort_block(block)[i]).kind
                == ImportKind::FromImport ==> {
                &&& sorted_by(sort_block(block)[i].names, name_order())
                &&& exists|j: int|
                    0 <= j < block.len() && (#[trigger] block[j]).kind == ImportKind::FromImport
                        && block[j].module == sort_block(block)[i].module && exists|perm: Seq<int>|
                        stable_permutation_of(
                            sort_block(block)[i].names,
                            block[j].names,
                            name_order(),
                            perm,
                        )
            },
{
    let sorted = sort_block(block);
    let p = prepared_block(block);
    lemma_sort_block_is_ordered_permutation(block);
    let perm = choose|perm: Seq<int>| stable_permutation_of(sorted, p, stmt_order(), perm);
    lemma_name_order_total_preorder();
    assert forall|i: int|
        0 <= i < sorted.len() && (#[trigger] sorted[i]).kind == ImportKind::FromImport implies {
        &&& sorted_by(sorted[i].names, name_order())
        &&& exists|j: int|
            0 <= j < block.len() && (#[trigger] block[j]).kind == ImportKind::FromImport
                && block[j].module == sorted[i].module && exists|q: Seq<int>|
                stable_permutation_of(sorted[i].names, block[j].names, name_order(), q)
    } by {
        let j = perm[i];
        assert(sorted[i] == p[j]);
        assert(p[j] == prepared(block[j]));
        lemma_stable_sort_is_sorted_permutation(block[j].names, name_order());
        assert(block[j].kind == ImportKind::FromImport);
    }
}

/// Law: in a sorted block that passed validation, type-annotation imports
/// come after all others; within the same group plain `import`s come
/// before `from` imports; and among `from` imports of the same group,
/// relative ones come before absolute ones.
pub proof fn lemma_sorted_block_sections(block: Seq<SpecStatement>)
    requires
        !(has_future(block) && has_non_future(block)),
    ensures
        forall|i: int, j: int|
            0 <= i < j < sort_block(block).len() ==> {
                let a = #[trigger] sort_block(block)[i];
                let b = #[trigger] sort_block(block)[j];
                &&& typing_related(a.module) ==> typing_related(b.module)
                &&& (typing_related(a.module) == typing_related(b.module) && a.kind
                    == ImportKind::FromImport) ==> b.kind == ImportKind::FromImport
                &&& (typing_related(a.module) == typing_related(b.module) && a.kind
                    == ImportKind::FromImport && !a.is_relative) ==> !b.is_relative
            },
{
    let p = prepared_block(block);
    let sorted = sort_block(block);
    lemma_sort_block_is_ordered_permutation(block);
    let perm = choose|perm: Seq<int>| stable_permutation_of(sorted, p, stmt_order(), perm);
    assert forall|i: int, j: int| 0 <= i < j < sorted.len() implies {
        let a = #[trigger] sorted[i];
        let b = #[trigger] sorted[j];
        &&& typing_related(a.module) ==> typing_related(b.module)
        &&& (typing_related(a.module) == typing_related(b.module) && a.kind
            == ImportKind::FromImport) ==> b.kind == ImportKind::FromImport
        &&& (typing_related(a.module) == typing_related(b.module) && a.kind
            == ImportKind::FromImport && !a.is_relative) ==> !b.is_relative
    } by {
        assert(sorted[i] == p[perm[i]] && sorted[j] == p[perm[j]]);
        assert(p[perm[i]].is_future == block[perm[i]].is_future);
        assert(p[perm[j]].is_future == block[perm[j]].is_future);
        if block[perm[i]].is_future != block[perm[j]].is_future {
            if block[perm[i]].is_future {
                assert(has_future(block) && has_non_future(block)) by {
                    assert(!block[perm[j]].is_future);
                }
            } else {
                assert(has_future(block) && has_non_future(block)) by {
                    assert(!block[perm[i]].is_future);
                }
            }
        }
        assert(stmt_order()(sorted[i], sorted[j]));
    }
}

/// The segments with every import block replaced by its sorted
/// statements; `block` holds the imports of the block that is still open.
pub open spec fn resorted(segs: Seq<SpecSegment>, block: Seq<SpecStatement>) -> Seq<SpecSegment>
    decreases segs.len(),
{
    if segs.len() == 0 {
        sort_block(block).map_values(|st: SpecStatement| SpecSegment::Import(st))
    } else {
        match segs[0] {
            SpecSegment::Import(st) => resorted(segs.drop_first(), block.push(st)),
            SpecSegment::NonImport(line) => sort_block(block).map_values(
                |st: SpecStatement| SpecSegment::Import(st),
            ) + seq![SpecSegment::NonImport(line)] + resorted(segs.drop_first(), Seq::empty()),
        }
    }
}

pub proof fn lemma_output_skip(
    segs: Seq<SpecSegment>,
    i: int,
    block: Seq<SpecStatement>,
    file: Seq<char>,
)
    requires
        0 <= i <= segs.len(),
    ensures
        output_lines(segs, i, block, file) == output_lines(segs.skip(i), 0, block, file),
    decreases segs.len() - i,
{
    if i < segs.len() {
        let t = segs.skip(i);
        assert(t[0] == segs[i]);
        lemma_output_skip(segs, i + 1, block, file);
        lemma_output_skip(segs, i + 1, Seq::empty(), file);
        match segs[i] {
            SpecSegment::Import(st) => {
                lemma_output_skip(segs, i + 1, block.push(st), file);
                lemma_output_skip(t, 1, block.push(st), file);
            },
            SpecSegment::NonImport(l) => {
                lemma_output_skip(t, 1, Seq::empty(), file);
            },
        }
        assert(t.skip(1) =~= segs.skip(i + 1));
    } else {
        assert(segs.skip(i).len() == 0);
    }
}

#[verifier::spinoff_prover]
pub proof fn lemma_output_imports(
    imports: Seq<SpecStatement>,
    rest: Seq<SpecSegment>,
    block: Seq<SpecStatement>,
    file: Seq<char>,
)
    ensures
        output_lines(
            imports.map_values(|st: SpecStatement| SpecSegment::Import(st)) + rest,
            0,
            block,
            file,
        ) == output_lines(rest, 0, block + imports, file),
    decreases imports.len(),
{
    let segs = imports.map_values(|st: SpecStatement| SpecSegment::Import(st)) + rest;
    if imports.len() == 0 {
        assert(segs =~= rest);
        assert(block + imports =~= block);
    } else {
        let tail = imports.drop_first();
        lemma_output_imports(tail, rest, block.push(imports[0]), file);
        assert(segs[0] == SpecSegment::Import(imports[0]));
        lemma_output_skip(segs, 1, block.push(imports[0]), file);
        assert(segs.skip(1) =~= tail.map_values(|st: SpecStatement| SpecSegment::Import(st)) + rest);
        assert(block.push(imports[0]) + tail =~= block + imports);
    }
}

proof fn lemma_flush_of_sorted(block: Seq<SpecStatement>, file: Seq<char>)
    requires
        flush(block, file) is Ok,
    ensures
        flush(sort_block(block), file) == flush(block, file),
{
    if block.len() > 0 {
        let p = prepared_block(block);
        let sorted = sort_block(block);
        lemma_sort_block_is_ordered_permutation(block);
        let perm = choose|perm: Seq<int>| stable_permutation_of(sorted, p, stmt_order(), perm);
        assert(sorted.len() > 0);
        if has_future(sorted) && has_non_future(sorted) {
            let i = choose|i: int| 0 <= i < sorted.len() && (#[trigger] sorted[i]).is_future;
            let j = choose|j: int| 0 <= j < sorted.len() && !(#[trigger] sorted[j]).is_future;
            assert(sorted[i] == p[perm[i]] && sorted[j] == p[perm[j]]);
            assert(block[perm[i]].is_future);
            assert(!block[perm[j]].is_future);
        }
        lemma_sort_block_idempotent(block);
    }
}

pub proof fn lemma_resorted_output(segs: Seq<SpecSegment>, block: Seq<SpecStatement>, file: Seq<char>)
    requires
        output_lines(segs, 0, block, file) is Ok,
    ensures
        output_lines(resorted(segs, block), 0, Seq::empty(), file) == output_lines(
            segs,
            0,
            block,
            file,
        ),
    decreases segs.len(),
{
    let imports_of = |b: Seq<SpecStatement>|
        sort_block(b).map_values(|st: SpecStatement| SpecSegment::Import(st));
    if segs.len() == 0 {
        lemma_output_imports(sort_block(block), Seq::empty(), Seq::empty(), file);
        assert(imports_of(block) + Seq::<SpecSegment>::empty() =~= resorted(segs, block));
        assert(Seq::<SpecStatement>::empty() + sort_block(block) =~= sort_block(block));
        lemma_flush_of_sorted(block, file);
    } else {
        lemma_output_skip(segs, 1, block, file);
        lemma_output_skip(segs, 1, Seq::empty(), file);
        match segs[0] {
            SpecSegment::Import(st) => {
                lemma_output_skip(segs, 1, block.push(st), file);
                lemma_resorted_output(segs.drop_first(), block.push(st), file);
                assert(segs.skip(1) =~= segs.drop_first());
            },
            SpecSegment::NonImport(line) => {
                assert(segs.skip(1) =~= segs.drop_first());
                let rest = resorted(segs.drop_first(), Seq::empty());
                lemma_resorted_output(segs.drop_first(), Seq::empty(), file);
                let tail = seq![SpecSegment::NonImport(line)] + rest;
                lemma_output_imports(sort_block(block), tail, Seq::empty(), file);
                assert(imports_of(block) + tail =~= resorted(segs, block));
                assert(Seq::<SpecStatement>::empty() + sort_block(block) =~= sort_block(block));
                lemma_flush_of_sorted(block, file);
                lemma_output_skip(tail, 1, Seq::empty(), file);
                assert(tail.skip(1) =~= rest);
            },
        }
    }
}

/// Law: sorting is stable under re-sorting. When a parsed file sorts
/// without error, replacing each of its import blocks by the block's
/// sorted statements and sorting again gives exactly the same text.
pub proof fn lemma_resorting_keeps_text(segs: Seq<SpecSegment>, file: Seq<char>)
    requires
        sorted_source(segs, file) is Ok,
    ensures
        sorted_source(resorted(segs, Seq::empty()), file) == sorted_source(segs, file),
{
    lemma_resorted_output(segs, Seq::empty(), file);
}

// ---------------------------------------------------------------------
// Sorting
// ---------------------------------------------------------------------

/// Stable insertion sort of imported names by name.
fn sort_names(v: Vec<ImportedName>) -> (out: Vec<ImportedName>)
    ensures
        names_view(out@) == stable_sort(names_view(v@), name_order()),
{
    let ghost orig = names_view(v@);
    let mut input = v;
    let mut out: Vec<ImportedName> = Vec::new();
    let ghost mut k: int = 0;
    assert(orig.skip(0) =~= orig);
    assert(orig.take(0) =~= Seq::<crate::parser::SpecName>::empty());
    while input.len() > 0
        invariant
            0 <= k <= orig.len(),
            names_view(input@) == orig.skip(k),
            names_view(out@) == stable_sort(orig.take(k), name_order()),
        decreases input@.len(),
    {
        let ghost before_input = input@;
        assert(names_view(before_input).len() == before_input.len());
        assert(k < orig.len());
        let x = input.remove(0);
        let ghost t = names_view(out@);
        assert(x@ == orig[k]) by {
            assert(names_view(before_input)[0] == before_input[0]@);
            assert(orig.skip(k)[0] == orig[k]);
        }
        let mut p: usize = 0;
        while p < out.len() && name_compare_exec(&out[p], &x) <= 0
            invariant
                t == names_view(out@),
                p <= out@.len(),
                forall|q: int| 0 <= q < p ==> #[trigger] name_order()(t[q], x@),
            decreases out@.len() - p,
        {
            p = p + 1;
        }
        proof {
            lemma_insert_pos_unique(t, x@, name_order(), p as int);
        }
        out.insert(p, x);
        proof {
            assert(names_view(out@) =~= insert_sorted(t, x@, name_order()));
            assert(orig.take(k + 1).drop_last() =~= orig.take(k));
            assert(names_view(input@) =~= orig.skip(k + 1));
            k = k + 1;
        }
    }
    assert(orig.take(k) =~= orig);
    out
}

/// Stable insertion sort of statements by the block order.
fn sort_statements(v: Vec<ImportStatement>) -> (out: Vec<ImportStatement>)
    ensures
        stmts_view(out@) == stable_sort(stmts_view(v@), stmt_order()),
{
    let ghost orig = stmts_view(v@);
    let mut input = v;
    let mut out: Vec<ImportStatement> = Vec::new();
    let ghost mut k: int = 0;
    assert(orig.skip(0) =~= orig);
    assert(orig.take(0) =~= Seq::<SpecStatement>::empty());
    while input.len() > 0
        invariant
            0 <= k <= orig.len(),
            stmts_view(input@) == orig.skip(k),
            stmts_view(out@) == stable_sort(orig.take(k), stmt_order()),
        decreases input@.len(),
    {
        let ghost before_input = input@;
        assert(stmts_view(before_input).len() == before_input.len());
        assert(k < orig.len());
        let x = input.remove(0);
        let ghost t = stmts_view(out@);
        assert(x@ == orig[k]) by {
            assert(stmts_view(before_input)[0] == before_input[0]@);
            assert(orig.skip(k)[0] == orig[k]);
        }
        let mut p: usize = 0;
        while p < out.len() && stmt_compare_exec(&out[p], &x) <= 0
            invariant
                t == stmts_view(out@),
                p <= out@.len(),
                forall|q: int| 0 <= q < p ==> #[trigger] stmt_order()(t[q], x@),
            decreases out@.len() - p,
        {
            p = p + 1;
        }
        proof {
            lemma_insert_pos_unique(t, x@, stmt_order(), p as int);
        }
        out.insert(p, x);
        proof {
            assert(stmts_view(out@) =~= insert_sorted(t, x@, stmt_order()));
            assert(orig.take(k + 1).drop_last() =~= orig.take(k));
            assert(stmts_view(input@) =~= orig.skip(k + 1));
            k = k + 1;
        }
    }
    assert(orig.take(k) =~= orig);
    out
}

/// Sort the imported names within a `from` import by length then alpha.
///
/// Modifies the statement in place; the sort is stable, so names that
/// tie keep their order.
pub fn sort_imported_names(stmt: &mut ImportStatement)
    ensures
        final(stmt)@ == with_sorted_names(old(stmt)@),
{
    let mut names: Vec<ImportedName> = Vec::new();
    std::mem::swap(&mut names, &mut stmt.names);
    let sorted = sort_names(names);
    stmt.names = sorted;
}

/// Sort a contiguous block of import statements.
///
/// First sorts the imported names within each `from` statement, then
/// sorts the statements themselves by the block order, stably.
pub fn sort_import_block(stmts: &mut Vec<ImportStatement>)
    ensures
        stmts_view(final(stmts)@) == sort_block(stmts_view(old(stmts)@)),
{
    let mut input: Vec<ImportStatement> = Vec::new();
    std::mem::swap(&mut input, stmts);
    let ghost orig = stmts_view(input@);
    let mut prepared_stmts: Vec<ImportStatement> = Vec::new();
    let ghost mut k: int = 0;
    assert(orig.skip(0) =~= orig);
    while input.len() > 0
        invariant
            0 <= k <= orig.len(),
            stmts_view(input@) == orig.skip(k),
            stmts_view(prepared_stmts@) == prepared_block(orig.take(k)),
        decreases input@.len(),
    {
        let ghost before_input = input@;
        assert(stmts_view(before_input).len() == before_input.len());
        assert(k < orig.len());
        let mut st = input.remove(0);
        assert(st@ == orig[k]) by {
            assert(stmts_view(before_input)[0] == before_input[0]@);
            assert(orig.skip(k)[0] == orig[k]);
        }
        if st.kind == ImportKind::FromImport {
            sort_imported_names(&mut st);
        }
        let ghost before = prepared_stmts@;
        prepared_stmts.push(st);
        proof {
            assert(stmts_view(prepared_stmts@) =~= stmts_view(before).push(st@));
            assert(orig.take(k + 1) =~= orig.take(k).push(orig[k]));
            assert(stmts_view(input@) =~= orig.skip(k + 1));
            k = k + 1;
        }
    }
    assert(orig.take(k) =~= orig);
    *stmts = sort_statements(prepared_stmts);
}

proof fn lemma_future_step(rest: Seq<SpecStatement>)
    requires
        rest.len() > 0,
    ensures
        has_future(rest) == (rest[0].is_future || has_future(rest.drop_first())),
        has_non_future(rest) == (!rest[0].is_future || has_non_future(rest.drop_first())),
        first_future_line(rest) == if rest[0].is_future {
            rest[0].line_number
        } else {
            first_future_line(rest.drop_first())
        },
{
    if has_future(rest) && !rest[0].is_future {
        let j = choose|j: int| 0 <= j < rest.len() && (#[trigger] rest[j]).is_future;
        assert(rest.drop_first()[j - 1].is_future);
    }
    if has_non_future(rest) && rest[0].is_future {
        let j = choose|j: int| 0 <= j < rest.len() && !(#[trigger] rest[j]).is_future;
        assert(!rest.drop_first()[j - 1].is_future);
    }
    if has_future(rest.drop_first()) {
        let j = choose|j: int|
            0 <= j < rest.drop_first().len() && (#[trigger] rest.drop_first()[j]).is_future;
        assert(rest[j + 1].is_future);
    }
    if has_non_future(rest.drop_first()) {
        let j = choose|j: int|
            0 <= j < rest.drop_first().len() && !(#[trigger] rest.drop_first()[j]).is_future;
        assert(!rest[j + 1].is_future);
    }
    if rest[0].is_future {
        assert(has_future(rest));
    } else {
        assert(has_non_future(rest));
    }
}

/// Validate that `__future__` imports are not mixed with other imports
/// in the same contiguous block; the error reports the line of the first
/// `__future__` import.
#[verifier::spinoff_prover]
pub fn validate_future_imports(block: &[ImportStatement], file_path: &str) -> (r: Result<
    (),
    LortError,
>)
    ensures
        unit_result_view(r) == future_check(stmts_view(block@), file_path@),
{
    let ghost b = stmts_view(block@);
    let mut any_future = false;
    let mut any_other = false;
    let mut future_line: usize = 0;
    let mut i: usize = block.len();
    while i > 0
        invariant
            b == stmts_view(block@),
            i <= block@.len(),
            any_future == has_future(b.skip(i as int)),
            any_other == has_non_future(b.skip(i as int)),
            any_future ==> future_line == first_future_line(b.skip(i as int)),
        decreases i,
    {
        i = i - 1;
        proof {
            assert(b.skip(i as int).drop_first() =~= b.skip(i + 1));
            assert(b.skip(i as int)[0] == block@[i as int]@);
            lemma_future_step(b.skip(i as int));
        }
        if block[i].is_future {
            any_future = true;
            future_line = block[i].line_number;
        } else {
            any_other = true;
        }
    }
    assert(b.skip(0) =~= b);
    if any_future && any_other {
        return Err(
            LortError::FutureMixedWithOther { file: file_path.to_owned(), line: future_line },
        );
    }
    Ok(())
}

pub open spec fn prepend_lines(prefix: Seq<Seq<char>>, rest: Result<Seq<Seq<char>>, SpecError>) -> Result<
    Seq<Seq<char>>,
    SpecError,
> {
    match rest {
        Ok(r) => Ok(prefix + r),
        Err(e) => Err(e),
    }
}

/// Validates, sorts and reconstructs a finished block, appending its
/// lines to `out`.
fn flush_block(block: Vec<ImportStatement>, file_path: &str, out: &mut Vec<Vec<char>>) -> (r: Result<
    (),
    LortError,
>)
    ensures
        match flush(stmts_view(block@), file_path@) {
            Err(e) => r matches Err(x) && x@ == e,
            Ok(ls) => r is Ok && lines_view(final(out)@) == lines_view(old(out)@) + ls,
        },
{
    if block.len() == 0 {
        assert(lines_view(out@) =~= lines_view(out@) + Seq::<Seq<char>>::empty());
        return Ok(());
    }
    match validate_future_imports(&block, file_path) {
        Err(e) => {
            return Err(e);
        },
        Ok(_) => {},
    }
    let mut sorted = block;
    sort_import_block(&mut sorted);
    let ghost texts = stmts_view(sorted@).map_values(|st: SpecStatement| reconstruct(st));
    let ghost start = lines_view(out@);
    let mut i: usize = 0;
    while i < sorted.len()
        invariant
            texts == stmts_view(sorted@).map_values(|st: SpecStatement| reconstruct(st)),
            i <= sorted@.len(),
            lines_view(out@) == start + texts.take(i as int),
        decreases sorted@.len() - i,
    {
        let text = reconstruct_import(&sorted[i]);
        let chars = to_chars(text.as_str());
        let ghost before = out@;
        out.push(chars);
        proof {
            assert(lines_view(out@) =~= lines_view(before).push(chars@));
            assert(texts.take(i + 1) =~= texts.take(i as int).push(texts[i as int]));
            assert(texts[i as int] == reconstruct(sorted@[i as int]@));
        }
        i = i + 1;
    }
    assert(texts.take(texts.len() as int) =~= texts);
    Ok(())
}

/// Joins lines with `\n` and ends them with one.
fn join_output(result_lines: &Vec<Vec<char>>) -> (out: Vec<char>)
    ensures
        out@ == output_text(lines_view(result_lines@)),
{
    let ghost all = lines_view(result_lines@);
    let mut out: Vec<char> = Vec::new();
    let mut j: usize = 0;
    while j < result_lines.len()
        invariant
            all == lines_view(result_lines@),
            j <= result_lines@.len(),
            out@ == join(all.take(j as int), seq!['\n']),
        decreases result_lines@.len() - j,
    {
        let ghost before = out@;
        if j > 0 {
            out.push('\n');
        }
        extend_chars(&mut out, &result_lines[j]);
        proof {
            assert(all.take(j + 1).drop_last() =~= all.take(j as int));
            assert(all.take(j + 1).last() == result_lines@[j as int]@);
            if j == 0 {
                assert(out@ =~= result_lines@[0]@);
            } else {
                assert(out@ =~= before + seq!['\n'] + result_lines@[j as int]@);
            }
        }
        j = j + 1;
    }
    assert(all.take(all.len() as int) =~= all);
    if result_lines.len() > 0 {
        out.push('\n');
    }
    out
}

proof fn lemma_output_step(
    segs: Seq<SpecSegment>,
    i: int,
    block: Seq<SpecStatement>,
    file: Seq<char>,
    done: Seq<Seq<char>>,
)
    requires
        0 <= i < segs.len(),
    ensures
        segs[i] matches SpecSegment::Import(st) ==> prepend_lines(
            done,
            output_lines(segs, i, block, file),
        ) == prepend_lines(done, output_lines(segs, i + 1, block.push(st), file)),
        segs[i] matches SpecSegment::NonImport(line) ==> match flush(block, file) {
            Err(e) => prepend_lines(done, output_lines(segs, i, block, file)) == Err::<
                Seq<Seq<char>>,
                SpecError,
            >(e),
            Ok(head) => prepend_lines(done, output_lines(segs, i, block, file)) == prepend_lines(
                (done + head).push(line),
                output_lines(segs, i + 1, Seq::empty(), file),
            ),
        },
{
    match segs[i] {
        SpecSegment::Import(st) => {},
        SpecSegment::NonImport(line) => {
            match flush(block, file) {
                Err(e) => {},
                Ok(head) => {
                    match output_lines(segs, i + 1, Seq::empty(), file) {
                        Ok(rest) => {
                            assert(done + (head.push(line) + rest) =~= (done + head).push(line)
                                + rest);
                        },
                        Err(e) => {},
                    }
                },
            }
        },
    }
}

/// Process parsed segments: sort each contiguous import block and
/// reconstruct the source text.
///
/// Each maximal run of import segments is validated (no `__future__`
/// imports mixed with others), sorted and written back; other lines are
/// kept in place. Each output line, a blank last line too, ends with `\n`,
/// so an empty result stays empty.
pub fn sort_and_reconstruct(segments: Vec<FileSegment>, file_path: &str) -> (r: Result<
    String,
    LortError,
>)
    ensures
        text_result_view(r) == sorted_source(segments_view(segments@), file_path@),
{
    let ghost segs = segments_view(segments@);
    let ghost file = file_path@;
    let mut input = segments;
    let mut result_lines: Vec<Vec<char>> = Vec::new();
    let mut block: Vec<ImportStatement> = Vec::new();
    let ghost mut i: int = 0;
    assert(segs.skip(0) =~= segs);
    assert(stmts_view(block@) =~= Seq::<SpecStatement>::empty());
    assert(lines_view(result_lines@) =~= Seq::<Seq<char>>::empty());
    assert(prepend_lines(Seq::empty(), output_lines(segs, 0, Seq::empty(), file)) =~= output_lines(
        segs,
        0,
        Seq::empty(),
        file,
    )) by {
        match output_lines(segs, 0, Seq::empty(), file) {
            Ok(x) => {
                assert(Seq::<Seq<char>>::empty() + x =~= x);
            },
            Err(e) => {},
        }
    }
    while input.len() > 0
        invariant
            0 <= i <= segs.len(),
            segments_view(input@) == segs.skip(i),
            segs == segments_view(segments@),
            file == file_path@,
            output_lines(segs, 0, Seq::empty(), file) == prepend_lines(
                lines_view(result_lines@),
                output_lines(segs, i, stmts_view(block@), file),
            ),
        decreases input@.len(),
    {
        let ghost before_input = input@;
        assert(segments_view(before_input).len() == before_input.len());
        assert(i < segs.len());
        let seg = input.remove(0);
        assert(seg@ == segs[i]) by {
            assert(segments_view(before_input)[0] == before_input[0]@);
            assert(segs.skip(i)[0] == segs[i]);
        }
        assert(segments_view(input@) =~= segs.skip(i + 1));
        proof {
            lemma_output_step(segs, i, stmts_view(block@), file, lines_view(result_lines@));
        }
        match seg {
            FileSegment::Import(st) => {
                let ghost before = block@;
                block.push(st);
                assert(stmts_view(block@) =~= stmts_view(before).push(st@));
            },
            FileSegment::NonImport(line) => {
                let mut current: Vec<ImportStatement> = Vec::new();
                std::mem::swap(&mut current, &mut block);
                match flush_block(current, file_path, &mut result_lines) {
                    Err(e) => {
                        return Err(e);
                    },
                    Ok(_) => {},
                }
                let chars = to_chars(line.as_str());
                let ghost mid = result_lines@;
                result_lines.push(chars);
                assert(lines_view(result_lines@) =~= lines_view(mid).push(line@));
                assert(stmts_view(block@) =~= Seq::<SpecStatement>::empty());
            },
        }
        proof {
            i = i + 1;
        }
    }
    match flush_block(block, file_path, &mut result_lines) {
        Err(e) => {
            return Err(e);
        },
        Ok(_) => {},
    }
    let out = join_output(&result_lines);
    Ok(chars_to_string(&out))
}

} // verus!
