//! The order in which the tool visits the files it collects: paths
//! compared component by component, as `Path`'s order compares them on
//! Unix.

use vstd::prelude::*;

use crate::keys::{lemma_lex_antisymmetric, lemma_lex_transitive, lex_compare, lex_compare_exec};
use crate::stable::{insert_sorted, lemma_insert_pos_unique, stable_sort, total_preorder};
use crate::text::{
    chars_eq, first_is, lemma_split_on_nonempty, slice_of, split_chars, split_on,
    starts_with_char, to_chars,
};

verus! {

broadcast use vstd::seq_lib::group_seq_properties;

// ---------------------------------------------------------------------
// Components
// ---------------------------------------------------------------------

/// A component as a rank and a name: the root (rank 0), `.` at the
/// start (1), `..` (2), or a name (3), in the order of `Component`'s
/// variants.
pub open spec fn part_of(piece: Seq<char>) -> (int, Seq<char>) {
    if piece == ".."@ {
        (2, Seq::empty())
    } else {
        (3, piece)
    }
}

/// A piece between `/`s that makes a component: not empty and not `.`.
pub open spec fn kept_piece(piece: Seq<char>) -> bool {
    piece.len() > 0 && piece != "."@
}

/// The components of a path (`Path::components` on Unix): the root when
/// it starts with `/`, else `.` when that is its first piece; then its
/// pieces between `/`s, empty pieces and `.` left out.
pub open spec fn path_parts(p: Seq<char>) -> Seq<(int, Seq<char>)> {
    let pieces = split_on(p, '/');
    let head = if starts_with_char(p, '/') {
        seq![(0int, Seq::<char>::empty())]
    } else if pieces[0] == "."@ {
        seq![(1int, Seq::<char>::empty())]
    } else {
        Seq::empty()
    };
    head + pieces.filter(|x: Seq<char>| kept_piece(x)).map_values(|x: Seq<char>| part_of(x))
}

/// Two components: by rank, names by their bytes.
pub open spec fn part_compare(a: (int, Seq<char>), b: (int, Seq<char>)) -> int {
    if a.0 < b.0 {
        -1
    } else if a.0 > b.0 {
        1
    } else {
        lex_compare(a.1, b.1)
    }
}

/// Two lists of components, one by one; a list that is a prefix of the
/// other comes first.
pub open spec fn parts_compare(x: Seq<(int, Seq<char>)>, y: Seq<(int, Seq<char>)>) -> int
    decreases x.len(),
{
    if x.len() == 0 && y.len() == 0 {
        0
    } else if x.len() == 0 {
        -1
    } else if y.len() == 0 {
        1
    } else if part_compare(x[0], y[0]) != 0 {
        part_compare(x[0], y[0])
    } else {
        parts_compare(x.drop_first(), y.drop_first())
    }
}

/// Paths in the order the tool visits them.
pub open spec fn path_order() -> spec_fn(Seq<char>, Seq<char>) -> bool {
    |a: Seq<char>, b: Seq<char>| parts_compare(path_parts(a), path_parts(b)) <= 0
}

proof fn lemma_part_compare_order(a: (int, Seq<char>), b: (int, Seq<char>), c: (int, Seq<char>))
    ensures
        part_compare(a, b) == -part_compare(b, a),
        -1 <= part_compare(a, b) <= 1,
        part_compare(a, b) == 0 <==> a == b,
        part_compare(a, b) <= 0 && part_compare(b, c) <= 0 ==> part_compare(a, c) <= 0,
{
    lemma_lex_antisymmetric(a.1, b.1);
    if part_compare(a, b) <= 0 && part_compare(b, c) <= 0 && a.0 == b.0 && b.0 == c.0 {
        lemma_lex_transitive(a.1, b.1, c.1);
    }
}

proof fn lemma_parts_antisymmetric(x: Seq<(int, Seq<char>)>, y: Seq<(int, Seq<char>)>)
    ensures
        parts_compare(x, y) == -parts_compare(y, x),
    decreases x.len(),
{
    if x.len() > 0 && y.len() > 0 {
        lemma_part_compare_order(x[0], y[0], y[0]);
        lemma_parts_antisymmetric(x.drop_first(), y.drop_first());
    }
}

proof fn lemma_parts_transitive(
    x: Seq<(int, Seq<char>)>,
    y: Seq<(int, Seq<char>)>,
    z: Seq<(int, Seq<char>)>,
)
    requires
        parts_compare(x, y) <= 0,
        parts_compare(y, z) <= 0,
    ensures
        parts_compare(x, z) <= 0,
    decreases x.len(),
{
    if x.len() > 0 && y.len() > 0 && z.len() > 0 {
        lemma_part_compare_order(x[0], y[0], z[0]);
        lemma_part_compare_order(y[0], z[0], x[0]);
        lemma_part_compare_order(x[0], z[0], y[0]);
        if part_compare(x[0], y[0]) == 0 && part_compare(y[0], z[0]) == 0 {
            lemma_parts_transitive(x.drop_first(), y.drop_first(), z.drop_first());
        }
    }
}

/// Law: paths are sorted by a total preorder.
pub proof fn lemma_path_order_total_preorder()
    ensures
        total_preorder(path_order()),
{
    assert forall|a: Seq<char>, b: Seq<char>| #[trigger]
        path_order()(a, b) || path_order()(b, a) by {
        lemma_parts_antisymmetric(path_parts(a), path_parts(b));
    }
    assert forall|a: Seq<char>, b: Seq<char>, c: Seq<char>| #[trigger]
        path_order()(a, b) && #[trigger] path_order()(b, c) implies path_order()(a, c) by {
        lemma_parts_transitive(path_parts(a), path_parts(b), path_parts(c));
    }
}

// ---------------------------------------------------------------------
// Computing components and comparing them
// ---------------------------------------------------------------------

pub open spec fn parts_view(v: Seq<(u8, Vec<char>)>) -> Seq<(int, Seq<char>)> {
    v.map_values(|p: (u8, Vec<char>)| (p.0 as int, p.1@))
}

fn part_of_exec(piece: Vec<char>) -> (r: (u8, Vec<char>))
    ensures
        (r.0 as int, r.1@) == part_of(piece@),
{
    let dots = to_chars("..");
    if chars_eq(&piece, &dots) {
        let none: Vec<char> = Vec::new();
        assert(none@ =~= Seq::<char>::empty());
        (2, none)
    } else {
        (3, piece)
    }
}

proof fn lemma_kept_push(s: Seq<Seq<char>>, x: Seq<char>)
    ensures
        s.push(x).filter(|p: Seq<char>| kept_piece(p)) == if kept_piece(x) {
            s.filter(|p: Seq<char>| kept_piece(p)).push(x)
        } else {
            s.filter(|p: Seq<char>| kept_piece(p))
        },
{
    reveal_with_fuel(Seq::filter, 1);
    assert(s.push(x).drop_last() =~= s);
}

/// The components of a path.
pub fn path_parts_exec(p: &str) -> (r: Vec<(u8, Vec<char>)>)
    ensures
        parts_view(r@) == path_parts(p@),
{
    let chars = to_chars(p);
    let pieces = split_chars(&chars, '/');
    let ghost sp = split_on(p@, '/');
    proof {
        lemma_split_on_nonempty(p@, '/');
    }
    let dot = to_chars(".");
    let mut out: Vec<(u8, Vec<char>)> = Vec::new();
    if first_is(&chars, '/') {
        out.push((0, Vec::new()));
    } else if chars_eq(&pieces[0], &dot) {
        out.push((1, Vec::new()));
    }
    let ghost head = parts_view(out@);
    assert(head =~= if starts_with_char(p@, '/') {
        seq![(0int, Seq::<char>::empty())]
    } else if sp[0] == "."@ {
        seq![(1int, Seq::<char>::empty())]
    } else {
        Seq::<(int, Seq<char>)>::empty()
    });
    assert(sp.take(0) =~= Seq::<Seq<char>>::empty());
    assert(Seq::<Seq<char>>::empty().filter(|x: Seq<char>| kept_piece(x)) =~= Seq::<Seq<char>>::empty()) by {
        reveal_with_fuel(Seq::filter, 1);
    }
    assert(parts_view(out@) =~= head + sp.take(0).filter(|x: Seq<char>| kept_piece(x)).map_values(
        |x: Seq<char>| part_of(x),
    ));
    let mut k: usize = 0;
    while k < pieces.len()
        invariant
            pieces@.len() == sp.len(),
            forall|m: int| 0 <= m < pieces@.len() ==> #[trigger] pieces@[m]@ == sp[m],
            dot@ == "."@,
            k <= pieces@.len(),
            parts_view(out@) == head + sp.take(k as int).filter(|x: Seq<char>| kept_piece(x)).map_values(
                |x: Seq<char>| part_of(x),
            ),
        decreases pieces@.len() - k,
    {
        let piece = slice_of(&pieces[k], 0, pieces[k].len());
        assert(piece@ =~= sp[k as int]);
        proof {
            assert(sp.take(k + 1) =~= sp.take(k as int).push(sp[k as int]));
            lemma_kept_push(sp.take(k as int), sp[k as int]);
        }
        let ghost before = out@;
        if piece.len() > 0 && !chars_eq(&piece, &dot) {
            let part = part_of_exec(piece);
            out.push(part);
            proof {
                let f = sp.take(k as int).filter(|x: Seq<char>| kept_piece(x));
                assert(f.push(sp[k as int]).map_values(|x: Seq<char>| part_of(x)) =~= f.map_values(
                    |x: Seq<char>| part_of(x),
                ).push(part_of(sp[k as int])));
                assert(parts_view(out@) =~= parts_view(before).push((part.0 as int, part.1@)));
            }
        }
        k = k + 1;
    }
    assert(sp.take(sp.len() as int) =~= sp);
    out
}

fn part_compare_exec(a: &(u8, Vec<char>), b: &(u8, Vec<char>)) -> (r: i8)
    ensures
        r == part_compare((a.0 as int, a.1@), (b.0 as int, b.1@)),
{
    if a.0 < b.0 {
        -1
    } else if a.0 > b.0 {
        1
    } else {
        lex_compare_exec(&a.1, &b.1)
    }
}

/// `parts_compare` of two computed lists of components.
pub fn parts_compare_exec(x: &Vec<(u8, Vec<char>)>, y: &Vec<(u8, Vec<char>)>) -> (r: i8)
    ensures
        r == parts_compare(parts_view(x@), parts_view(y@)),
{
    let ghost xs = parts_view(x@);
    let ghost ys = parts_view(y@);
    let mut i: usize = 0;
    assert(xs.skip(0) =~= xs && ys.skip(0) =~= ys);
    while i < x.len() && i < y.len()
        invariant
            xs == parts_view(x@),
            ys == parts_view(y@),
            i <= x@.len(),
            i <= y@.len(),
            parts_compare(xs, ys) == parts_compare(xs.skip(i as int), ys.skip(i as int)),
        decreases x@.len() - i,
    {
        let c = part_compare_exec(&x[i], &y[i]);
        assert(xs.skip(i as int)[0] == xs[i as int] && ys.skip(i as int)[0] == ys[i as int]);
        if c != 0 {
            return c;
        }
        assert(xs.skip(i as int).drop_first() =~= xs.skip(i + 1));
        assert(ys.skip(i as int).drop_first() =~= ys.skip(i + 1));
        i = i + 1;
    }
    if x.len() == y.len() {
        0
    } else if i == x.len() {
        -1
    } else {
        1
    }
}

// ---------------------------------------------------------------------
// Sorting
// ---------------------------------------------------------------------

/// Indices ordered by the paths they stand for.
pub open spec fn index_order(keys: Seq<Seq<char>>) -> spec_fn(int, int) -> bool {
    |i: int, j: int| path_order()(keys[i], keys[j])
}

pub open spec fn indices_view(v: Seq<usize>) -> Seq<int> {
    v.map_values(|i: usize| i as int)
}

/// The order in which to take the paths: their indices, stably sorted by
/// the paths they stand for (as `sort` orders a list of paths).
pub fn path_sort_order(paths: &Vec<String>) -> (order: Vec<usize>)
    ensures
        indices_view(order@) == stable_sort(
            Seq::new(paths@.len(), |i: int| i),
            index_order(paths@.map_values(|s: String| s@)),
        ),
{
    let n = paths.len();
    let ghost keys = paths@.map_values(|s: String| s@);
    let ghost le = index_order(keys);
    let ghost all = Seq::new(n as nat, |i: int| i);
    let mut parts: Vec<Vec<(u8, Vec<char>)>> = Vec::new();
    let mut k: usize = 0;
    while k < n
        invariant
            n == paths@.len(),
            keys == paths@.map_values(|s: String| s@),
            k <= n,
            parts@.len() == k,
            forall|m: int| 0 <= m < k ==> parts_view(#[trigger] parts@[m]@) == path_parts(keys[m]),
        decreases n - k,
    {
        let pk = path_parts_exec(paths[k].as_str());
        parts.push(pk);
        k = k + 1;
    }
    let mut out: Vec<usize> = Vec::new();
    let mut k: usize = 0;
    assert(all.take(0) =~= Seq::<int>::empty());
    assert(indices_view(out@) =~= Seq::<int>::empty());
    while k < n
        invariant
            n == paths@.len(),
            keys == paths@.map_values(|s: String| s@),
            le == index_order(keys),
            all == Seq::new(n as nat, |i: int| i),
            parts@.len() == n,
            forall|m: int| 0 <= m < n ==> parts_view(#[trigger] parts@[m]@) == path_parts(keys[m]),
            k <= n,
            indices_view(out@) == stable_sort(all.take(k as int), le),
            forall|q: int| 0 <= q < out@.len() ==> #[trigger] out@[q] < k,
        decreases n - k,
    {
        let ghost t = indices_view(out@);
        let mut p: usize = 0;
        while p < out.len() && parts_compare_exec(&parts[out[p]], &parts[k]) <= 0
            invariant
                t == indices_view(out@),
                le == index_order(keys),
                parts@.len() == n,
                forall|m: int| 0 <= m < n ==> parts_view(#[trigger] parts@[m]@) == path_parts(keys[m]),
                forall|q: int| 0 <= q < out@.len() ==> #[trigger] out@[q] < k,
                k < n,
                p <= out@.len(),
                forall|q: int| 0 <= q < p ==> #[trigger] le(t[q], k as int),
            decreases out@.len() - p,
        {
            assert(le(t[p as int], k as int) == (parts_compare(parts_view(parts@[out@[p as int] as int]@), parts_view(parts@[k as int]@)) <= 0));
            p = p + 1;
        }
        proof {
            if p < out@.len() {
                assert(out@[p as int] < k);
                assert(!le(t[p as int], k as int));
            }
            lemma_insert_pos_unique(t, k as int, le, p as int);
        }
        let ghost before = out@;
        out.insert(p, k);
        proof {
            assert(indices_view(out@) =~= insert_sorted(t, k as int, le));
            assert(all.take(k + 1).drop_last() =~= all.take(k as int));
            assert(all.take(k + 1).last() == k as int);
            assert forall|q: int| 0 <= q < out@.len() implies #[trigger] out@[q] < k + 1 by {
                if q < p {
                    assert(out@[q] == before[q]);
                } else if q > p {
                    assert(out@[q] == before[q - 1]);
                }
            }
        }
        k = k + 1;
    }
    assert(all.take(n as int) =~= all);
    out
}

} // verus!
