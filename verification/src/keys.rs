//! The orders by which module paths, imported names and import
//! statements are sorted, as integers `-1`, `0`, `1`, with executable
//! comparisons that compute them and the laws that make them orders.

use vstd::prelude::*;

use crate::parser::{ImportKind, ImportStatement, ImportedName, SpecName, SpecStatement};
use crate::stable::total_preorder;
use crate::stdlib::{is_typing_related, typing_related};
use crate::text::{split_chars, split_on, to_chars, utf8_len, utf8_len_exec};

verus! {

broadcast use vstd::seq_lib::group_seq_properties;

// ---------------------------------------------------------------------
// Orders
// ---------------------------------------------------------------------

/// Lexicographic order of two strings by code point, which is the order
/// of their UTF-8 bytes (`str::cmp`).
pub open spec fn lex_compare(a: Seq<char>, b: Seq<char>) -> int
    decreases a.len(),
{
    if a.len() == 0 && b.len() == 0 {
        0
    } else if a.len() == 0 {
        -1
    } else if b.len() == 0 {
        1
    } else if (a[0] as int) < (b[0] as int) {
        -1
    } else if (a[0] as int) > (b[0] as int) {
        1
    } else {
        lex_compare(a.drop_first(), b.drop_first())
    }
}

/// Two segments (or two imported names): the shorter in UTF-8 bytes
/// first, equal lengths alphabetically.
pub open spec fn segment_compare(a: Seq<char>, b: Seq<char>) -> int {
    if utf8_len(a) < utf8_len(b) {
        -1
    } else if utf8_len(a) > utf8_len(b) {
        1
    } else {
        lex_compare(a, b)
    }
}

/// Two lists of segments, segment by segment; a list that is a prefix of
/// the other comes first.
pub open spec fn segments_compare(x: Seq<Seq<char>>, y: Seq<Seq<char>>) -> int
    decreases x.len(),
{
    if x.len() == 0 && y.len() == 0 {
        0
    } else if x.len() == 0 {
        -1
    } else if y.len() == 0 {
        1
    } else if segment_compare(x[0], y[0]) != 0 {
        segment_compare(x[0], y[0])
    } else {
        segments_compare(x.drop_first(), y.drop_first())
    }
}

/// Two module paths, compared by their `.`-separated segments.
pub open spec fn path_compare(a: Seq<char>, b: Seq<char>) -> int {
    segments_compare(split_on(a, '.'), split_on(b, '.'))
}

/// `false` before `true`.
pub open spec fn bool_compare(x: bool, y: bool) -> int {
    if x == y {
        0
    } else if !x {
        -1
    } else {
        1
    }
}

pub open spec fn int_compare(x: int, y: int) -> int {
    if x < y {
        -1
    } else if x > y {
        1
    } else {
        0
    }
}

/// `first`, unless it is a tie, in which case `second`.
pub open spec fn chain(first: int, second: int) -> int {
    if first != 0 {
        first
    } else {
        second
    }
}

/// The number of `.` that a (relative) module path starts with.
pub open spec fn leading_dots(p: Seq<char>) -> nat
    decreases p.len(),
{
    if p.len() > 0 && p[0] == '.' {
        1 + leading_dots(p.drop_first())
    } else {
        0
    }
}

/// A module path without its leading dots.
pub open spec fn after_dots(p: Seq<char>) -> Seq<char> {
    p.skip(leading_dots(p) as int)
}

/// The order of statements within a block: `__future__` first,
/// type-annotation modules last, `import` before `from`, relative before
/// absolute, fewer leading dots first, then the rest of the module path.
pub open spec fn stmt_compare(a: SpecStatement, b: SpecStatement) -> int {
    chain(
        bool_compare(!a.is_future, !b.is_future),
        chain(
            bool_compare(typing_related(a.module), typing_related(b.module)),
            chain(
                bool_compare(a.kind == ImportKind::FromImport, b.kind == ImportKind::FromImport),
                chain(
                    bool_compare(!a.is_relative, !b.is_relative),
                    chain(
                        int_compare(leading_dots(a.module) as int, leading_dots(b.module) as int),
                        path_compare(after_dots(a.module), after_dots(b.module)),
                    ),
                ),
            ),
        ),
    )
}

/// Statements in the order that a block is sorted by.
pub open spec fn stmt_order() -> spec_fn(SpecStatement, SpecStatement) -> bool {
    |a: SpecStatement, b: SpecStatement| stmt_compare(a, b) <= 0
}

/// Imported names in the order that a `from` import lists them: by the
/// original name, never the alias.
pub open spec fn name_order() -> spec_fn(SpecName, SpecName) -> bool {
    |a: SpecName, b: SpecName| segment_compare(a.name, b.name) <= 0
}

// ---------------------------------------------------------------------
// Laws of the orders
// ---------------------------------------------------------------------

pub proof fn lemma_lex_antisymmetric(a: Seq<char>, b: Seq<char>)
    ensures
        lex_compare(a, b) == -lex_compare(b, a),
        -1 <= lex_compare(a, b) <= 1,
        lex_compare(a, b) == 0 <==> a == b,
    decreases a.len(),
{
    if a.len() > 0 && b.len() > 0 && a[0] == b[0] {
        lemma_lex_antisymmetric(a.drop_first(), b.drop_first());
        if a.drop_first() == b.drop_first() {
            assert(a =~= seq![a[0]] + a.drop_first());
            assert(b =~= seq![b[0]] + b.drop_first());
        }
    } else if a.len() > 0 && b.len() > 0 {
        assert((a[0] as int) != (b[0] as int));
    }
}

pub proof fn lemma_lex_transitive(a: Seq<char>, b: Seq<char>, c: Seq<char>)
    requires
        lex_compare(a, b) <= 0,
        lex_compare(b, c) <= 0,
    ensures
        lex_compare(a, c) <= 0,
    decreases a.len(),
{
    if a.len() > 0 && b.len() > 0 && c.len() > 0 && a[0] == b[0] && b[0] == c[0] {
        lemma_lex_transitive(a.drop_first(), b.drop_first(), c.drop_first());
    }
}

pub proof fn lemma_segment_compare_order(a: Seq<char>, b: Seq<char>, c: Seq<char>)
    ensures
        segment_compare(a, b) == -segment_compare(b, a),
        -1 <= segment_compare(a, b) <= 1,
        segment_compare(a, b) == 0 <==> a == b,
        segment_compare(a, b) <= 0 && segment_compare(b, c) <= 0 ==> segment_compare(a, c) <= 0,
{
    lemma_lex_antisymmetric(a, b);
    if segment_compare(a, b) <= 0 && segment_compare(b, c) <= 0 && utf8_len(a) == utf8_len(b)
        && utf8_len(b) == utf8_len(c) {
        lemma_lex_transitive(a, b, c);
    }
}

pub proof fn lemma_segments_antisymmetric(x: Seq<Seq<char>>, y: Seq<Seq<char>>)
    ensures
        segments_compare(x, y) == -segments_compare(y, x),
        -1 <= segments_compare(x, y) <= 1,
        segments_compare(x, y) == 0 <==> x == y,
    decreases x.len(),
{
    if x.len() > 0 && y.len() > 0 {
        lemma_segment_compare_order(x[0], y[0], y[0]);
        lemma_segments_antisymmetric(x.drop_first(), y.drop_first());
        if x[0] == y[0] && x.drop_first() == y.drop_first() {
            assert(x =~= seq![x[0]] + x.drop_first());
            assert(y =~= seq![y[0]] + y.drop_first());
        }
        if x == y {
            assert(x.drop_first() == y.drop_first());
        }
    }
}

pub proof fn lemma_segments_transitive(x: Seq<Seq<char>>, y: Seq<Seq<char>>, z: Seq<Seq<char>>)
    requires
        segments_compare(x, y) <= 0,
        segments_compare(y, z) <= 0,
    ensures
        segments_compare(x, z) <= 0,
    decreases x.len(),
{
    if x.len() > 0 && y.len() > 0 && z.len() > 0 {
        lemma_segment_compare_order(x[0], y[0], z[0]);
        lemma_segment_compare_order(y[0], z[0], x[0]);
        lemma_segment_compare_order(x[0], z[0], y[0]);
        if segment_compare(x[0], y[0]) == 0 && segment_compare(y[0], z[0]) == 0 {
            lemma_segments_transitive(x.drop_first(), y.drop_first(), z.drop_first());
        }
    }
}

/// Law: the module-path order is antisymmetric (swapping the arguments
/// reverses the result), ties only equal paths, and is transitive.
pub proof fn lemma_path_compare_total_order(a: Seq<char>, b: Seq<char>, c: Seq<char>)
    ensures
        path_compare(a, b) == -path_compare(b, a),
        -1 <= path_compare(a, b) <= 1,
        path_compare(a, b) == 0 <==> a == b,
        path_compare(a, b) <= 0 && path_compare(b, c) <= 0 ==> path_compare(a, c) <= 0,
{
    let (x, y, z) = (split_on(a, '.'), split_on(b, '.'), split_on(c, '.'));
    lemma_segments_antisymmetric(x, y);
    if path_compare(a, b) <= 0 && path_compare(b, c) <= 0 {
        lemma_segments_transitive(x, y, z);
    }
    if x == y {
        lemma_split_on_injective(a, b, '.');
    }
}

/// Joining the pieces of a split gives back the split sequence.
proof fn lemma_split_on_injective(a: Seq<char>, b: Seq<char>, c: char)
    requires
        split_on(a, c) == split_on(b, c),
    ensures
        a == b,
{
    lemma_split_join(a, c);
    lemma_split_join(b, c);
}

pub open spec fn join_with(parts: Seq<Seq<char>>, c: char) -> Seq<char>
    decreases parts.len(),
{
    if parts.len() <= 1 {
        if parts.len() == 1 {
            parts[0]
        } else {
            Seq::empty()
        }
    } else {
        join_with(parts.drop_last(), c) + seq![c] + parts.last()
    }
}

proof fn lemma_split_join(s: Seq<char>, c: char)
    ensures
        join_with(split_on(s, c), c) == s,
    decreases s.len(),
{
    crate::text::lemma_split_on_nonempty(s, c);
    if s.len() > 0 {
        let init = split_on(s.drop_last(), c);
        lemma_split_join(s.drop_last(), c);
        crate::text::lemma_split_on_nonempty(s.drop_last(), c);
        let parts = split_on(s, c);
        if s.last() == c {
            assert(parts.drop_last() =~= init);
            assert(s =~= s.drop_last() + seq![c] + Seq::<char>::empty());
        } else {
            let n = init.len();
            if n == 1 {
                assert(parts =~= seq![init[0].push(s.last())]);
                assert(s =~= s.drop_last().push(s.last()));
            } else {
                assert(parts.drop_last() =~= init.drop_last());
                assert(join_with(parts, c) == join_with(init.drop_last(), c) + seq![c] + init.last().push(
                    s.last(),
                ));
                assert(s =~= (join_with(init.drop_last(), c) + seq![c] + init.last()).push(s.last()));
            }
        }
    }
}

/// Whether every character of a text is ASCII.
pub open spec fn is_ascii_text(s: Seq<char>) -> bool {
    forall|i: int| 0 <= i < s.len() ==> (#[trigger] s[i] as u32) < 0x80
}

/// Law: of two segments, the one with fewer UTF-8 bytes comes first,
/// however long both are (for ASCII segments: fewer characters); only
/// segments of equal byte length go by the alphabet.
pub proof fn lemma_shorter_segment_first(a: Seq<char>, b: Seq<char>)
    ensures
        utf8_len(a) < utf8_len(b) ==> segment_compare(a, b) == -1,
        is_ascii_text(a) && is_ascii_text(b) && a.len() < b.len() ==> segment_compare(a, b) == -1,
        is_ascii_text(a) && is_ascii_text(b) && a.len() == b.len() ==> segment_compare(a, b)
            == lex_compare(a, b),
{
    crate::text::lemma_utf8_len_bounds(a);
    crate::text::lemma_utf8_len_bounds(b);
}

/// Law: two module paths are ordered by the first segment in which they
/// differ, by `segment_compare`; how many segments each has decides only
/// when the segments of one are a prefix of the other's.
pub proof fn lemma_path_compare_first_difference(a: Seq<char>, b: Seq<char>, k: int)
    requires
        0 <= k < split_on(a, '.').len(),
        k < split_on(b, '.').len(),
        forall|i: int| 0 <= i < k ==> #[trigger] split_on(a, '.')[i] == split_on(b, '.')[i],
        split_on(a, '.')[k] != split_on(b, '.')[k],
    ensures
        path_compare(a, b) == segment_compare(split_on(a, '.')[k], split_on(b, '.')[k]),
{
    lemma_segments_first_difference(split_on(a, '.'), split_on(b, '.'), k);
}

proof fn lemma_segments_first_difference(x: Seq<Seq<char>>, y: Seq<Seq<char>>, k: int)
    requires
        0 <= k < x.len(),
        k < y.len(),
        forall|i: int| 0 <= i < k ==> #[trigger] x[i] == y[i],
        x[k] != y[k],
    ensures
        segments_compare(x, y) == segment_compare(x[k], y[k]),
    decreases k,
{
    lemma_segment_compare_order(x[0], y[0], y[0]);
    if k > 0 {
        assert(x[0] == y[0]);
        assert forall|i: int| 0 <= i < k - 1 implies #[trigger] x.drop_first()[i] == y.drop_first()[i] by {
            assert(x[i + 1] == y[i + 1]);
        }
        lemma_segments_first_difference(x.drop_first(), y.drop_first(), k - 1);
    }
}

/// Law: when the segments of one module path are a proper prefix of the
/// other's, it comes first.
pub proof fn lemma_path_compare_prefix(a: Seq<char>, b: Seq<char>)
    requires
        split_on(a, '.').len() < split_on(b, '.').len(),
        forall|i: int| 0 <= i < split_on(a, '.').len() ==> #[trigger] split_on(a, '.')[i] == split_on(b, '.')[i],
    ensures
        path_compare(a, b) == -1,
{
    let x = split_on(a, '.');
    let y = split_on(b, '.');
    assert(y =~= x + y.skip(x.len() as int));
    lemma_segments_prefix(x, y.skip(x.len() as int));
}

/// Law: statements that agree on being `__future__` imports, on being
/// type-annotation imports, on their kind, on being relative and on their
/// leading dots are ordered by their module paths after the dots, as
/// `compare_module_path` orders them; nothing else comes between.
pub proof fn lemma_tied_statements_by_path(a: SpecStatement, b: SpecStatement)
    requires
        a.is_future == b.is_future,
        typing_related(a.module) == typing_related(b.module),
        a.kind == b.kind,
        a.is_relative == b.is_relative,
        leading_dots(a.module) == leading_dots(b.module),
    ensures
        stmt_compare(a, b) == path_compare(after_dots(a.module), after_dots(b.module)),
{
}

/// Law: a package comes before its submodules (`a.b` before `a.b.c`).
pub proof fn lemma_parent_before_child(parent: Seq<char>, child_rest: Seq<char>)
    ensures
        path_compare(parent, parent + seq!['.'] + child_rest) == -1,
{
    lemma_split_concat(parent, child_rest, '.');
    let x = split_on(parent, '.');
    let y = split_on(parent + seq!['.'] + child_rest, '.');
    crate::text::lemma_split_on_nonempty(child_rest, '.');
    lemma_segments_prefix(x, split_on(child_rest, '.'));
}

proof fn lemma_segments_prefix(x: Seq<Seq<char>>, more: Seq<Seq<char>>)
    requires
        more.len() > 0,
    ensures
        segments_compare(x, x + more) == -1,
    decreases x.len(),
{
    if x.len() > 0 {
        lemma_segment_compare_order(x[0], x[0], x[0]);
        assert((x + more).drop_first() =~= x.drop_first() + more);
        lemma_segments_prefix(x.drop_first(), more);
    }
}

/// Splitting `a` `c` `b` at `c` gives the pieces of `a` then those of `b`.
pub proof fn lemma_split_concat(a: Seq<char>, b: Seq<char>, c: char)
    ensures
        split_on(a + seq![c] + b, c) == split_on(a, c) + split_on(b, c),
    decreases b.len(),
{
    let s = a + seq![c] + b;
    crate::text::lemma_split_on_nonempty(a, c);
    crate::text::lemma_split_on_nonempty(b, c);
    if b.len() == 0 {
        assert(s.drop_last() =~= a);
        assert(split_on(b, c) =~= seq![Seq::<char>::empty()]);
    } else {
        lemma_split_concat(a, b.drop_last(), c);
        assert(s.drop_last() =~= a + seq![c] + b.drop_last());
        crate::text::lemma_split_on_nonempty(b.drop_last(), c);
        let left = split_on(a, c);
        let right = split_on(b.drop_last(), c);
        if b.last() == c {
            assert((left + right).push(Seq::<char>::empty()) =~= left + right.push(
                Seq::<char>::empty(),
            ));
        } else {
            let whole = left + right;
            assert(whole.update(whole.len() - 1, whole.last().push(b.last())) =~= left
                + right.update(right.len() - 1, right.last().push(b.last())));
        }
    }
}

pub proof fn lemma_stmt_compare_order(a: SpecStatement, b: SpecStatement, c: SpecStatement)
    ensures
        stmt_compare(a, b) == -stmt_compare(b, a),
        stmt_compare(a, b) <= 0 && stmt_compare(b, c) <= 0 ==> stmt_compare(a, c) <= 0,
{
    lemma_path_compare_total_order(after_dots(a.module), after_dots(b.module), after_dots(c.module));
    lemma_path_compare_total_order(after_dots(b.module), after_dots(c.module), after_dots(a.module));
    lemma_path_compare_total_order(after_dots(a.module), after_dots(c.module), after_dots(b.module));
}

/// Law: statements are sorted by a total preorder (any two compare, and
/// the comparison is transitive).
pub proof fn lemma_stmt_order_total_preorder()
    ensures
        total_preorder(stmt_order()),
{
    assert forall|a: SpecStatement, b: SpecStatement| #[trigger]
        stmt_order()(a, b) || stmt_order()(b, a) by {
        lemma_stmt_compare_order(a, b, a);
    }
    assert forall|a: SpecStatement, b: SpecStatement, c: SpecStatement| #[trigger]
        stmt_order()(a, b) && #[trigger] stmt_order()(b, c) implies stmt_order()(a, c) by {
        lemma_stmt_compare_order(a, b, c);
    }
}

/// Law: imported names are sorted by a total preorder.
pub proof fn lemma_name_order_total_preorder()
    ensures
        total_preorder(name_order()),
{
    assert forall|a: SpecName, b: SpecName| #[trigger]
        name_order()(a, b) || name_order()(b, a) by {
        lemma_segment_compare_order(a.name, b.name, a.name);
    }
    assert forall|a: SpecName, b: SpecName, c: SpecName| #[trigger]
        name_order()(a, b) && #[trigger] name_order()(b, c) implies name_order()(a, c) by {
        lemma_segment_compare_order(a.name, b.name, c.name);
    }
}

// ---------------------------------------------------------------------
// Executable comparisons
// ---------------------------------------------------------------------

/// `lex_compare` of two character vectors.
pub fn lex_compare_exec(a: &Vec<char>, b: &Vec<char>) -> (r: i8)
    ensures
        r == lex_compare(a@, b@),
{
    let mut i: usize = 0;
    assert(a@.skip(0) =~= a@ && b@.skip(0) =~= b@);
    while i < a.len() && i < b.len()
        invariant
            i <= a@.len(),
            i <= b@.len(),
            lex_compare(a@, b@) == lex_compare(a@.skip(i as int), b@.skip(i as int)),
        decreases a@.len() - i,
    {
        let x = a[i];
        let y = b[i];
        assert(a@.skip(i as int)[0] == a@[i as int] && b@.skip(i as int)[0] == b@[i as int]);
        if x < y {
            return -1;
        }
        if x > y {
            return 1;
        }
        assert(a@.skip(i as int).drop_first() =~= a@.skip(i + 1));
        assert(b@.skip(i as int).drop_first() =~= b@.skip(i + 1));
        i = i + 1;
    }
    if a.len() == b.len() {
        0
    } else if i == a.len() {
        -1
    } else {
        1
    }
}

/// `segment_compare` of two character vectors: UTF-8 length, then alphabet.
pub fn segment_compare_exec(a: &Vec<char>, b: &Vec<char>) -> (r: i8)
    ensures
        r == segment_compare(a@, b@),
{
    let la = utf8_len_exec(a, 0, a.len());
    let lb = utf8_len_exec(b, 0, b.len());
    assert(a@.subrange(0, a@.len() as int) =~= a@ && b@.subrange(0, b@.len() as int) =~= b@);
    if la < lb {
        -1
    } else if la > lb {
        1
    } else {
        lex_compare_exec(a, b)
    }
}

/// `path_compare` of two character vectors.
pub fn path_compare_exec(a: &Vec<char>, b: &Vec<char>) -> (r: i8)
    ensures
        r == path_compare(a@, b@),
{
    let sa = split_chars(a, '.');
    let sb = split_chars(b, '.');
    let ghost x = split_on(a@, '.');
    let ghost y = split_on(b@, '.');
    let mut i: usize = 0;
    assert(x.skip(0) =~= x && y.skip(0) =~= y);
    while i < sa.len() && i < sb.len()
        invariant
            sa@.len() == x.len(),
            sb@.len() == y.len(),
            forall|k: int| 0 <= k < sa@.len() ==> #[trigger] sa@[k]@ == x[k],
            forall|k: int| 0 <= k < sb@.len() ==> #[trigger] sb@[k]@ == y[k],
            i <= x.len(),
            i <= y.len(),
            path_compare(a@, b@) == segments_compare(x.skip(i as int), y.skip(i as int)),
        decreases x.len() - i,
    {
        let c = segment_compare_exec(&sa[i], &sb[i]);
        assert(x.skip(i as int)[0] == x[i as int] && y.skip(i as int)[0] == y[i as int]);
        if c != 0 {
            return c;
        }
        assert(x.skip(i as int).drop_first() =~= x.skip(i + 1));
        assert(y.skip(i as int).drop_first() =~= y.skip(i + 1));
        i = i + 1;
    }
    if sa.len() == sb.len() {
        0
    } else if i == sa.len() {
        -1
    } else {
        1
    }
}

fn bool_compare_exec(x: bool, y: bool) -> (r: i8)
    ensures
        r == bool_compare(x, y),
{
    if x == y {
        0
    } else if !x {
        -1
    } else {
        1
    }
}

/// The number of leading dots of `p`.
fn leading_dots_exec(p: &Vec<char>) -> (n: usize)
    ensures
        n == leading_dots(p@),
        n <= p@.len(),
{
    let mut n: usize = 0;
    assert(p@.skip(0) =~= p@);
    while n < p.len() && p[n] == '.'
        invariant
            n <= p@.len(),
            leading_dots(p@) == n + leading_dots(p@.skip(n as int)),
        decreases p@.len() - n,
    {
        assert(p@.skip(n as int).drop_first() =~= p@.skip(n + 1));
        n = n + 1;
    }
    n
}

/// `stmt_compare` of two statements.
pub fn stmt_compare_exec(a: &ImportStatement, b: &ImportStatement) -> (r: i8)
    ensures
        r == stmt_compare(a@, b@),
{
    let c = bool_compare_exec(!a.is_future, !b.is_future);
    if c != 0 {
        return c;
    }
    let c = bool_compare_exec(
        is_typing_related(a.module.as_str()),
        is_typing_related(b.module.as_str()),
    );
    if c != 0 {
        return c;
    }
    let c = bool_compare_exec(a.kind == ImportKind::FromImport, b.kind == ImportKind::FromImport);
    if c != 0 {
        return c;
    }
    let c = bool_compare_exec(!a.is_relative, !b.is_relative);
    if c != 0 {
        return c;
    }
    let pa = to_chars(a.module.as_str());
    let pb = to_chars(b.module.as_str());
    let da = leading_dots_exec(&pa);
    let db = leading_dots_exec(&pb);
    if da < db {
        return -1;
    }
    if da > db {
        return 1;
    }
    let ra = crate::text::slice_of(&pa, da, pa.len());
    let rb = crate::text::slice_of(&pb, db, pb.len());
    path_compare_exec(&ra, &rb)
}

/// The order of two imported names (by name, never alias).
pub fn name_compare_exec(a: &ImportedName, b: &ImportedName) -> (r: i8)
    ensures
        r == segment_compare(a@.name, b@.name),
{
    segment_compare_exec(&to_chars(a.name.as_str()), &to_chars(b.name.as_str()))
}

} // verus!
