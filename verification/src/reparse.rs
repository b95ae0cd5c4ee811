//! Reading back what reconstruction writes: a statement in the form that
//! parsing gives, written out as source text and parsed again, is the
//! same statement.

use vstd::prelude::*;

use crate::keys::lemma_split_concat;
use crate::error::SpecError;
use crate::parser::{
    absorb, alias_split, attach_comment, comment_split, comment_suffix, is_nonempty,
    join_comments, lemma_filter_push, multiline_names, name_list, name_of, name_text,
    parse_from, parse_lines, parse_source, reconstruct, scan_parenthesized, trailing_comment,
    ImportKind, SpecName, SpecSegment, SpecStatement,
};
use crate::text::{ends_with_char, join, lines, starts_with, starts_with_char, strip_cr};
use crate::text::{find, find_from, is_ws, occurs_at, split_on, trim, trim_end, trim_start};

verus! {

broadcast use vstd::seq_lib::group_seq_properties;

// ---------------------------------------------------------------------
// Facts about the text operations
// ---------------------------------------------------------------------

proof fn lemma_find_from_at(s: Seq<char>, p: Seq<char>, i: int, k: int)
    requires
        p.len() > 0,
        0 <= i <= k,
        occurs_at(s, p, k),
        forall|m: int| i <= m < k ==> s[m] != p[0],
    ensures
        find_from(s, p, i) == Some(k),
    decreases k - i,
{
    if i < k {
        assert(s.subrange(i, i + p.len())[0] == s[i]);
        lemma_find_from_at(s, p, i + 1, k);
    }
}

/// `p` is found where it first occurs, when its first character occurs
/// nowhere before.
pub proof fn lemma_find_at(s: Seq<char>, p: Seq<char>, k: int)
    requires
        p.len() > 0,
        occurs_at(s, p, k),
        forall|m: int| 0 <= m < k ==> s[m] != p[0],
    ensures
        find(s, p) == Some(k),
{
    lemma_find_from_at(s, p, 0, k);
}

proof fn lemma_find_from_none(s: Seq<char>, p: Seq<char>, i: int)
    requires
        p.len() > 0,
        0 <= i,
        forall|m: int| i <= m < s.len() ==> s[m] != p[0],
    ensures
        find_from(s, p, i) is None,
    decreases s.len() - i,
{
    if i + p.len() <= s.len() {
        assert(s.subrange(i, i + p.len())[0] == s[i]);
        lemma_find_from_none(s, p, i + 1);
    }
}

/// `p` is not found when its first character does not occur.
pub proof fn lemma_find_none(s: Seq<char>, p: Seq<char>)
    requires
        p.len() > 0,
        forall|m: int| 0 <= m < s.len() ==> s[m] != p[0],
    ensures
        find(s, p) is None,
{
    lemma_find_from_none(s, p, 0);
}

/// Trimming leaves a text alone that neither starts nor ends with
/// whitespace.
pub proof fn lemma_trim_plain(s: Seq<char>)
    requires
        s.len() > 0 ==> !is_ws(s[0]) && !is_ws(s.last()),
    ensures
        trim(s) == s,
{
}

/// Trimming the end leaves a text alone that does not end in whitespace.
pub proof fn lemma_trim_end_plain(s: Seq<char>)
    requires
        s.len() > 0 ==> !is_ws(s.last()),
    ensures
        trim_end(s) == s,
{
}

/// A space in front is trimmed away.
pub proof fn lemma_trim_start_space(s: Seq<char>)
    ensures
        trim_start(seq![' '] + s) == trim_start(s),
{
    assert((seq![' '] + s).drop_first() =~= s);
}

/// A space at the end is trimmed away.
pub proof fn lemma_trim_end_space(s: Seq<char>)
    ensures
        trim_end(s + seq![' ']) == trim_end(s),
{
    assert((s + seq![' ']).drop_last() =~= s);
}

/// A text without the separator is one piece.
pub proof fn lemma_split_none(s: Seq<char>, c: char)
    requires
        forall|m: int| 0 <= m < s.len() ==> s[m] != c,
    ensures
        split_on(s, c) == seq![s],
    decreases s.len(),
{
    if s.len() > 0 {
        lemma_split_none(s.drop_last(), c);
        assert(s.drop_last().push(s.last()) =~= s);
        assert(seq![s.drop_last()].update(0, s) =~= seq![s]);
    }
}

// ---------------------------------------------------------------------
// Name lists
// ---------------------------------------------------------------------

/// The names of `a`, `,`, `b` are those of `a` then those of `b`.
pub proof fn lemma_name_list_concat(a: Seq<char>, b: Seq<char>)
    ensures
        name_list(a + seq![','] + b) == name_list(a) + name_list(b),
{
    lemma_split_concat(a, b, ',');
    let pa = split_on(a, ',');
    let pb = split_on(b, ',');
    let ta = pa.map_values(|p: Seq<char>| trim(p));
    let tb = pb.map_values(|p: Seq<char>| trim(p));
    assert((pa + pb).map_values(|p: Seq<char>| trim(p)) =~= ta + tb);
    Seq::filter_distributes_over_add(ta, tb, |p: Seq<char>| is_nonempty(p));
    let fa = ta.filter(|p: Seq<char>| is_nonempty(p));
    let fb = tb.filter(|p: Seq<char>| is_nonempty(p));
    assert((fa + fb).map_values(|p: Seq<char>| name_of(p)) =~= fa.map_values(
        |p: Seq<char>| name_of(p),
    ) + fb.map_values(|p: Seq<char>| name_of(p)));
}

/// The names of a single piece without `,`.
pub proof fn lemma_name_list_single(s: Seq<char>)
    requires
        forall|m: int| 0 <= m < s.len() ==> s[m] != ',',
    ensures
        name_list(s) == if trim(s).len() > 0 {
            seq![name_of(trim(s))]
        } else {
            Seq::<SpecName>::empty()
        },
{
    lemma_split_none(s, ',');
    assert(seq![s].map_values(|p: Seq<char>| trim(p)) =~= Seq::<Seq<char>>::empty().push(trim(s)));
    lemma_filter_push(Seq::<Seq<char>>::empty(), trim(s));
    assert(Seq::<Seq<char>>::empty().filter(|p: Seq<char>| is_nonempty(p)) =~= Seq::<Seq<char>>::empty()) by {
        reveal_with_fuel(Seq::filter, 1);
    }
    if trim(s).len() > 0 {
        assert(Seq::<Seq<char>>::empty().push(trim(s)) =~= seq![trim(s)]);
    }
}

// ---------------------------------------------------------------------
// Text in the form that parsing gives
// ---------------------------------------------------------------------

/// A character that may stand in a module path, a name or an alias as it
/// is written back: not whitespace, and none of `,` `#` `(` `)` `\`.
pub open spec fn plain_char(c: char) -> bool {
    !is_ws(c) && c != ',' && c != '#' && c != '(' && c != ')' && c != '\\'
}

/// A non-empty text of plain characters.
pub open spec fn is_token(s: Seq<char>) -> bool {
    s.len() > 0 && forall|m: int| 0 <= m < s.len() ==> plain_char(#[trigger] s[m])
}

/// A comment as parsing leaves it: it starts with `#`, does not end in
/// whitespace or `\`, and holds no line break.
pub open spec fn is_line_comment(c: Seq<char>) -> bool {
    &&& c.len() > 0 && c[0] == '#'
    &&& !is_ws(c.last()) && c.last() != '\\'
    &&& forall|m: int| 0 <= m < c.len() ==> #[trigger] c[m] != '\n'
}

/// A comment that may follow a name inside parentheses: a line comment
/// without `)`.
pub open spec fn is_name_comment(c: Seq<char>) -> bool {
    is_line_comment(c) && forall|m: int| 0 <= m < c.len() ==> #[trigger] c[m] != ')'
}

/// An imported name in the form that parsing gives.
pub open spec fn clean_name(n: SpecName) -> bool {
    &&& is_token(n.name)
    &&& (n.alias matches Some(a) ==> is_token(a))
    &&& (n.comment matches Some(c) ==> is_name_comment(c))
}

pub open spec fn without_comment(n: SpecName) -> SpecName {
    SpecName { name: n.name, alias: n.alias, comment: None }
}

/// A name written out reads back as that name, without a comment.
pub proof fn lemma_name_of_text(n: SpecName)
    requires
        clean_name(n),
    ensures
        name_of(name_text(n)) == without_comment(n),
        name_text(n).len() > 0,
        plain_char(name_text(n)[0]),
        plain_char(name_text(n).last()),
        forall|m: int| 0 <= m < name_text(n).len() ==> #[trigger] name_text(n)[m] == ' ' || plain_char(name_text(n)[m]),
{
    reveal_strlit(" as ");
    let nm = n.name;
    lemma_trim_plain(nm);
    match n.alias {
        Some(a) => {
            let t = nm + " as "@ + a;
            assert(t =~= name_text(n));
            assert(t.subrange(nm.len() as int, nm.len() + 4int) =~= " as "@);
            assert forall|m: int| 0 <= m < nm.len() implies t[m] != " as "@[0] by {
                assert(t[m] == nm[m]);
                assert(plain_char(nm[m]));
            }
            lemma_find_at(t, " as "@, nm.len() as int);
            assert(t.take(nm.len() as int) =~= nm);
            assert(t.skip(nm.len() + 4int) =~= a);
            lemma_trim_plain(a);
            assert forall|m: int| 0 <= m < t.len() implies #[trigger] t[m] == ' ' || plain_char(t[m]) by {
                if m < nm.len() {
                    assert(plain_char(nm[m]));
                } else if m >= nm.len() + 4 {
                    assert(t[m] == a[m - nm.len() - 4]);
                    assert(plain_char(a[m - nm.len() - 4]));
                }
            }
            assert(plain_char(a[a.len() - 1]));
        },
        None => {
            assert forall|m: int| 0 <= m < nm.len() implies nm[m] != " as "@[0] by {
                assert(plain_char(nm[m]));
            }
            lemma_find_none(nm, " as "@);
            assert(plain_char(nm[nm.len() - 1]));
        },
    }
    assert(plain_char(nm[0]));
}

/// The names joined by `, `, as a single-line import writes them, read
/// back as the names.
pub proof fn lemma_joined_names(names: Seq<SpecName>)
    requires
        names.len() > 0,
        forall|i: int| 0 <= i < names.len() ==> clean_name(#[trigger] names[i]) && names[i].comment is None,
    ensures
        ({
            let j = join(names.map_values(|n: SpecName| name_text(n)), ", "@);
            &&& j.len() > 0
            &&& plain_char(j[0])
            &&& plain_char(j.last())
            &&& forall|m: int| 0 <= m < j.len() ==> #[trigger] j[m] == ' ' || j[m] == ',' || plain_char(j[m])
            &&& name_list(j) == names
        }),
    decreases names.len(),
{
    reveal_strlit(", ");
    let texts = names.map_values(|n: SpecName| name_text(n));
    let last = names.last();
    lemma_name_of_text(last);
    assert(without_comment(last) == last);
    let lt = name_text(last);
    if names.len() == 1 {
        assert forall|m: int| 0 <= m < lt.len() implies lt[m] != ',' by {
            assert(lt[m] == ' ' || plain_char(lt[m]));
        }
        lemma_name_list_single(lt);
        lemma_trim_plain(lt);
        assert(seq![last] =~= names);
    } else {
        let init = names.drop_last();
        assert forall|i: int| 0 <= i < init.len() implies clean_name(#[trigger] init[i]) && init[i].comment is None by {
            assert(init[i] == names[i]);
        }
        lemma_joined_names(init);
        assert(texts.drop_last() =~= init.map_values(|n: SpecName| name_text(n)));
        let ji = join(init.map_values(|n: SpecName| name_text(n)), ", "@);
        let tail = seq![' '] + lt;
        let j = join(texts, ", "@);
        assert(j =~= ji + seq![','] + tail);
        lemma_name_list_concat(ji, tail);
        assert forall|m: int| 0 <= m < tail.len() implies tail[m] != ',' by {
            if m > 0 {
                assert(tail[m] == lt[m - 1]);
                assert(lt[m - 1] == ' ' || plain_char(lt[m - 1]));
            }
        }
        lemma_name_list_single(tail);
        lemma_trim_start_space(lt);
        lemma_trim_plain(lt);
        assert(trim(tail) == lt);
        assert(init.push(last) =~= names);
        assert forall|m: int| 0 <= m < j.len() implies #[trigger] j[m] == ' ' || j[m] == ',' || plain_char(j[m]) by {
            if m < ji.len() {
                assert(j[m] == ji[m]);
            } else if m >= ji.len() + 2 {
                assert(j[m] == lt[m - ji.len() - 2]);
            }
        }
        assert(j[0] == ji[0]);
        assert(j.last() == lt.last());
    }
}

// ---------------------------------------------------------------------
// Lines
// ---------------------------------------------------------------------

/// A line as the lines of a text are: no line break in it, and no `\r`
/// at its end.
pub open spec fn single_line(l: Seq<char>) -> bool {
    &&& forall|m: int| 0 <= m < l.len() ==> #[trigger] l[m] != '\n'
    &&& !(l.len() > 0 && l.last() == '\r')
}

proof fn lemma_split_joined(ls: Seq<Seq<char>>)
    requires
        ls.len() > 0,
        forall|i: int| 0 <= i < ls.len() ==> single_line(#[trigger] ls[i]),
    ensures
        split_on(join(ls, seq!['\n']), '\n') == ls,
    decreases ls.len(),
{
    if ls.len() == 1 {
        assert(single_line(ls[0]));
        lemma_split_none(ls[0], '\n');
        assert(seq![ls[0]] =~= ls);
    } else {
        let init = ls.drop_last();
        assert forall|i: int| 0 <= i < init.len() implies single_line(#[trigger] init[i]) by {
            assert(init[i] == ls[i]);
        }
        lemma_split_joined(init);
        assert(single_line(ls.last()));
        lemma_split_none(ls.last(), '\n');
        lemma_split_concat(join(init, seq!['\n']), ls.last(), '\n');
        assert(init + seq![ls.last()] =~= ls);
    }
}

/// Lines joined by line breaks, with one at the end, split back into the
/// same lines.
pub proof fn lemma_lines_of_joined(ls: Seq<Seq<char>>)
    requires
        ls.len() > 0,
        forall|i: int| 0 <= i < ls.len() ==> single_line(#[trigger] ls[i]),
    ensures
        lines(join(ls, seq!['\n']) + seq!['\n']) == ls,
{
    let s = join(ls, seq!['\n']) + seq!['\n'];
    lemma_split_joined(ls);
    assert(s =~= join(ls, seq!['\n']) + seq!['\n'] + Seq::<char>::empty());
    lemma_split_concat(join(ls, seq!['\n']), Seq::<char>::empty(), '\n');
    assert(split_on(Seq::<char>::empty(), '\n') =~= seq![Seq::<char>::empty()]);
    let parts = split_on(s, '\n');
    assert(parts =~= ls + seq![Seq::<char>::empty()]);
    assert(parts.take(ls.len() as int).map_values(|p: Seq<char>| strip_cr(p)) =~= ls) by {
        assert forall|i: int| 0 <= i < ls.len() implies strip_cr(#[trigger] ls[i]) == ls[i] by {
            assert(single_line(ls[i]));
        }
    }
}

// ---------------------------------------------------------------------
// The parenthesized form
// ---------------------------------------------------------------------

/// The line that the parenthesized form gives a name.
pub open spec fn name_line(n: SpecName) -> Seq<char> {
    "    "@ + name_text(n) + ","@ + comment_suffix(n.comment)
}

/// A comment suffix: two spaces and the comment, read back.
proof fn lemma_comment_suffix(c: Option<Seq<char>>)
    requires
        c matches Some(x) ==> is_line_comment(x),
    ensures
        trailing_comment(comment_suffix(c)) == c,
        forall|m: int| 0 <= m < comment_suffix(c).len() ==> #[trigger] comment_suffix(c)[m] != '\n',
        c matches Some(x) ==> comment_suffix(c).last() == x.last(),
{
    reveal_strlit("  ");
    match c {
        Some(x) => {
            let cs = "  "@ + x;
            assert(cs =~= seq![' '] + (seq![' '] + x));
            lemma_trim_start_space(seq![' '] + x);
            lemma_trim_start_space(x);
            lemma_trim_plain(x);
            assert(trim(cs) == x);
            assert forall|m: int| 0 <= m < cs.len() implies #[trigger] cs[m] != '\n' by {
                if m >= 2 {
                    assert(cs[m] == x[m - 2]);
                }
            }
        },
        None => {
            assert(trim(Seq::<char>::empty()) =~= Seq::<char>::empty());
        },
    }
}

/// The names of an empty text: none.
pub proof fn lemma_name_list_empty()
    ensures
        name_list(Seq::<char>::empty()) == Seq::<SpecName>::empty(),
{
    lemma_name_list_single(Seq::<char>::empty());
    assert(trim(Seq::<char>::empty()) =~= Seq::<char>::empty());
}

/// The closing line of the parenthesized form ends the scan with the
/// names unchanged and the comment after the parenthesis.
proof fn lemma_close_line(done: Seq<SpecName>, c: Option<Seq<char>>)
    requires
        c matches Some(x) ==> is_line_comment(x),
    ensures
        ({
            let l = trim(")"@ + comment_suffix(c));
            &&& find(l, seq![')']) == Some(0int)
            &&& ({
                let split = comment_split(l.take(0));
                let st = absorb(done, None, trim(split.0), split.1);
                st.0 == done && join_comments(st.1, trailing_comment(l.skip(1))) == c
            })
        }),
{
    reveal_strlit(")");
    lemma_comment_suffix(c);
    lemma_name_list_empty();
    let close = ")"@ + comment_suffix(c);
    lemma_trim_plain(close);
    assert(close.subrange(0, 1) =~= seq![')']);
    lemma_find_at(close, seq![')'], 0);
    assert(close.take(0) =~= Seq::<char>::empty());
    lemma_find_none(Seq::<char>::empty(), seq!['#']);
    assert(close.skip(1) =~= comment_suffix(c));
    assert(trim(Seq::<char>::empty()) =~= Seq::<char>::empty());
    assert(done + Seq::<SpecName>::empty() =~= done);
    if done.len() > 0 {
        let last = done.last();
        assert(join_comments(last.comment, None) == last.comment);
        assert(attach_comment(done, None) =~= done);
    }
}

/// A name line, trimmed: its characters.
#[verifier::spinoff_prover]
#[verifier::rlimit(30)]
proof fn lemma_name_line_text(n: SpecName)
    requires
        clean_name(n),
    ensures
        ({
            let nt = name_text(n);
            let l = nt + ","@ + comment_suffix(n.comment);
            &&& trim(name_line(n)) == l
            &&& find(l, seq![')']) is None
            &&& !ends_with_char(l, '\\')
            &&& forall|m: int| 0 <= m < nt.len() + 3 && m < l.len() ==> #[trigger] l[m] != '#'
            &&& l.take(nt.len() as int) == nt
            &&& l[nt.len() as int] == ','
        }),
{
    reveal_strlit(",");
    reveal_strlit("    ");
    reveal_strlit("  ");
    lemma_name_of_text(n);
    let nt = name_text(n);
    lemma_comment_suffix(n.comment);
    let cs = comment_suffix(n.comment);
    let l = nt + ","@ + cs;
    assert(name_line(n) =~= seq![' '] + (seq![' '] + (seq![' '] + (seq![' '] + l))));
    lemma_trim_start_space(seq![' '] + (seq![' '] + (seq![' '] + l)));
    lemma_trim_start_space(seq![' '] + (seq![' '] + l));
    lemma_trim_start_space(seq![' '] + l);
    lemma_trim_start_space(l);
    assert(l[0] == nt[0]);
    assert(!is_ws(l.last()) && l.last() != '\\') by {
        if cs.len() == 0 {
            assert(l.last() == ',');
        }
    }
    lemma_trim_plain(l);
    assert forall|m: int| 0 <= m < l.len() implies #[trigger] l[m] != ')' && (m < nt.len() + 3 ==> l[m] != '#') by {
        if m < nt.len() {
            assert(l[m] == nt[m]);
            assert(nt[m] == ' ' || plain_char(nt[m]));
        } else if m == nt.len() {
            assert(l[m] == ',');
        } else if m < nt.len() + 3int {
            assert(l[m] == cs[m - nt.len() - 1]);
        } else {
            let x = n.comment->0;
            assert(l[m] == x[m - nt.len() - 3]);
        }
    }
    lemma_find_none(l, seq![')']);
    assert(l.take(nt.len() as int) =~= nt);
}

/// A name line of the parenthesized form adds its name, with its
/// comment, to the names so far.
proof fn lemma_name_line_absorbed(done: Seq<SpecName>, n: SpecName)
    requires
        clean_name(n),
    ensures
        ({
            let l = trim(name_line(n));
            let split = comment_split(l);
            absorb(done, None, trim(split.0), split.1) == (done.push(n), None::<Seq<char>>)
        }),
{
    reveal_strlit(",");
    lemma_name_line_text(n);
    lemma_name_of_text(n);
    lemma_name_list_empty();
    let nt = name_text(n);
    let l = nt + ","@ + comment_suffix(n.comment);
    let code = nt + ","@;
    assert(code =~= l.take(nt.len() + 1int));
    assert(code[0] == nt[0]);
    lemma_trim_plain(code);
    match n.comment {
        Some(x) => {
            reveal_strlit("  ");
            assert(l =~= code + seq![' '] + seq![' '] + x);
            assert(l.subrange(nt.len() + 3int, nt.len() + 4int) =~= seq!['#']);
            lemma_find_at(l, seq!['#'], nt.len() + 3int);
            assert(l.take(nt.len() + 3int) =~= code + seq![' '] + seq![' ']);
            lemma_trim_end_space(code + seq![' ']);
            lemma_trim_end_space(code);
            lemma_trim_end_plain(code);
            assert(l.skip(nt.len() + 3int) =~= x);
            lemma_trim_plain(x);
            assert(comment_split(l) == (code, Some(x)));
        },
        None => {
            assert(l =~= code);
            assert forall|m: int| 0 <= m < l.len() implies l[m] != '#' by {}
            lemma_find_none(l, seq!['#']);
        },
    }
    assert(code =~= nt + seq![','] + Seq::<char>::empty());
    lemma_name_list_concat(nt, Seq::<char>::empty());
    assert forall|m: int| 0 <= m < nt.len() implies nt[m] != ',' by {
        assert(nt[m] == ' ' || plain_char(nt[m]));
    }
    lemma_name_list_single(nt);
    lemma_trim_plain(nt);
    assert(name_list(code) =~= seq![without_comment(n)]);
    let all = done + seq![without_comment(n)];
    assert(all.drop_last() =~= done);
    assert(attach_comment(all, n.comment) =~= done.push(n));
}

/// Scanning the name lines and the closing line of the parenthesized
/// form collects the names with their comments, and the comment after
/// the parenthesis.
pub proof fn lemma_scan_names(
    ls: Seq<Seq<char>>,
    j: int,
    done: Seq<SpecName>,
    rest: Seq<SpecName>,
    c: Option<Seq<char>>,
    file: Seq<char>,
)
    requires
        1 <= j,
        j + rest.len() + 1 <= ls.len(),
        forall|k: int| 0 <= k < rest.len() ==> ls[j + k] == name_line(#[trigger] rest[k]),
        forall|k: int| 0 <= k < rest.len() ==> clean_name(#[trigger] rest[k]),
        ls[j + rest.len()] == ")"@ + comment_suffix(c),
        c matches Some(x) ==> is_line_comment(x),
    ensures
        scan_parenthesized(ls, j, done, None, file) == Ok::<_, SpecError>(
            (done + rest, c, j + rest.len() + 1),
        ),
    decreases rest.len(),
{
    if rest.len() == 0 {
        lemma_close_line(done, c);
        assert(done + rest =~= done);
    } else {
        let n = rest[0];
        assert(ls[j + 0] == name_line(n));
        assert(clean_name(n));
        lemma_name_line_text(n);
        lemma_name_line_absorbed(done, n);
        let more = rest.drop_first();
        assert forall|k: int| 0 <= k < more.len() implies ls[(j + 1) + k] == name_line(#[trigger] more[k]) by {
            assert(more[k] == rest[k + 1]);
            assert(ls[j + (k + 1)] == name_line(rest[k + 1]));
        }
        assert forall|k: int| 0 <= k < more.len() implies clean_name(#[trigger] more[k]) by {
            assert(more[k] == rest[k + 1]);
        }
        assert(ls[(j + 1) + more.len()] == ls[j + rest.len()]);
        lemma_scan_names(ls, j + 1, done.push(n), more, c, file);
        assert(done.push(n) + more =~= done + rest);
    }
}

/// The text of the parenthesized form, as its lines joined.
proof fn lemma_multiline_join(head: Seq<char>, names: Seq<SpecName>)
    ensures
        head + multiline_names(names) == join(
            seq![head] + names.map_values(|n: SpecName| name_line(n)),
            seq!['\n'],
        ),
    decreases names.len(),
{
    reveal_strlit("\n    ");
    reveal_strlit("    ");
    let ls = seq![head] + names.map_values(|n: SpecName| name_line(n));
    if names.len() == 0 {
        assert(ls =~= seq![head]);
        assert(head + multiline_names(names) =~= head);
    } else {
        let init = names.drop_last();
        lemma_multiline_join(head, init);
        assert(ls.drop_last() =~= seq![head] + init.map_values(|n: SpecName| name_line(n)));
        assert(ls.last() == name_line(names.last()));
        assert(head + multiline_names(names) =~= join(ls.drop_last(), seq!['\n']) + seq!['\n']
            + name_line(names.last()));
    }
}

// ---------------------------------------------------------------------
// Statements
// ---------------------------------------------------------------------

/// A statement in the form that parsing gives: plain module path, names
/// and aliases, line comments, flags that agree with the module path, a
/// plain `import` without names, and a single-line `from` import with at
/// least one name and no comments on its names.
pub open spec fn clean_statement(st: SpecStatement) -> bool {
    &&& is_token(st.module)
    &&& (st.inline_comment matches Some(c) ==> is_line_comment(c))
    &&& st.is_future == (st.module == "__future__"@)
    &&& match st.kind {
        ImportKind::Import => {
            &&& st.names.len() == 0
            &&& !st.is_multiline
            &&& !st.is_relative
            &&& (st.alias matches Some(a) ==> is_token(a))
        },
        ImportKind::FromImport => {
            &&& st.alias is None
            &&& st.is_relative == starts_with_char(st.module, '.')
            &&& forall|i: int| 0 <= i < st.names.len() ==> clean_name(#[trigger] st.names[i])
            &&& !st.is_multiline ==> st.names.len() > 0 && forall|i: int|
                0 <= i < st.names.len() ==> (#[trigger] st.names[i]).comment is None
        },
    }
}

/// The statement as it stands on line `n`.
pub open spec fn on_line(st: SpecStatement, n: usize) -> SpecStatement {
    SpecStatement {
        kind: st.kind,
        module: st.module,
        alias: st.alias,
        names: st.names,
        inline_comment: st.inline_comment,
        line_number: n,
        is_relative: st.is_relative,
        is_future: st.is_future,
        is_multiline: st.is_multiline,
    }
}

/// A text that starts with a plain character is not an `import ` line.
proof fn lemma_not_import_line(t: Seq<char>)
    requires
        t.len() > 0 && t[0] == 'f',
    ensures
        !starts_with(t, "import "@),
{
    reveal_strlit("import ");
    if starts_with(t, "import "@) {
        assert(t.take(7)[0] == "import "@[0]);
    }
}

/// The code part of a written-out line, with or without its comment:
/// the code is split off, and the comment is read back.
proof fn lemma_code_and_comment(code: Seq<char>, c: Option<Seq<char>>)
    requires
        code.len() > 0,
        !is_ws(code[0]) && !is_ws(code.last()),
        forall|m: int| 0 <= m < code.len() ==> #[trigger] code[m] != '#',
        c matches Some(x) ==> is_line_comment(x),
    ensures
        comment_split(code + comment_suffix(c)) == (code, c),
        trim(code) == code,
{
    reveal_strlit("  ");
    lemma_trim_plain(code);
    lemma_trim_end_plain(code);
    let l = code + comment_suffix(c);
    match c {
        Some(x) => {
            assert(l =~= code + seq![' '] + seq![' '] + x);
            assert(l.subrange(code.len() + 2int, code.len() + 3int) =~= seq!['#']);
            assert forall|m: int| 0 <= m < code.len() + 2int implies l[m] != seq!['#'][0] by {
                if m < code.len() {
                    assert(l[m] == code[m]);
                }
            }
            lemma_find_at(l, seq!['#'], code.len() + 2int);
            assert(l.take(code.len() + 2int) =~= code + seq![' '] + seq![' ']);
            lemma_trim_end_space(code + seq![' ']);
            lemma_trim_end_space(code);
            assert(l.skip(code.len() + 2int) =~= x);
            lemma_trim_plain(x);
        },
        None => {
            assert(l =~= code);
            lemma_find_none(l, seq!['#']);
        },
    }
}

proof fn lemma_import_shape(st: SpecStatement, line: usize, file: Seq<char>)
    requires
        clean_statement(st),
        st.kind == ImportKind::Import,
    ensures
        single_line(reconstruct(st)),
        trim(reconstruct(st)) == reconstruct(st),
        crate::parser::line_is_candidate(reconstruct(st)),
        starts_with(reconstruct(st), "import "@),
        !ends_with_char(reconstruct(st), '\\'),
        crate::parser::import_statement(reconstruct(st).skip("import "@.len() as int), line, file)
            == Ok::<_, SpecError>(on_line(st, line)),
{
    reveal_strlit("import ");
    reveal_strlit(" as ");
    let m = st.module;
    let n = SpecName { name: m, alias: st.alias, comment: None };
    lemma_name_of_text(n);
    let code = name_text(n);
    let cs = comment_suffix(st.inline_comment);
    lemma_comment_suffix(st.inline_comment);
    let rec = "import "@ + code + cs;
    assert(reconstruct(st) =~= rec);
    assert forall|k: int| 0 <= k < code.len() implies #[trigger] code[k] != '#' && code[k] != ',' && code[k] != '\n' by {
        assert(code[k] == ' ' || plain_char(code[k]));
    }
    assert forall|k: int| 0 <= k < rec.len() implies #[trigger] rec[k] != '\n' by {
        if 7 <= k < 7 + code.len() {
            assert(rec[k] == code[k - 7]);
        } else if k >= 7 + code.len() {
            assert(rec[k] == cs[k - 7 - code.len()]);
        }
    }
    assert(!is_ws(rec.last()) && rec.last() != '\\' && rec.last() != '\r') by {
        if cs.len() == 0 {
            assert(rec.last() == code.last());
        }
    }
    lemma_trim_plain(rec);
    assert(rec.take(7) =~= "import "@);
    let rest = rec.skip(7);
    assert(rest =~= code + cs);
    lemma_code_and_comment(code, st.inline_comment);
    lemma_find_none(code, seq![',']);
    assert(alias_split(code).0 == m && alias_split(code).1 == st.alias);
    assert(st.names =~= Seq::<SpecName>::empty());
}

/// The first line of a `from` import: `from`, the module path,
/// ` import ` and `tail`.
proof fn lemma_from_line_head(m: Seq<char>, tail: Seq<char>)
    requires
        is_token(m),
    ensures
        ({
            let t = "from "@ + m + " import "@ + tail;
            let after = t.skip("from "@.len() as int);
            &&& t.len() > 0 && t[0] == 'f'
            &&& starts_with(t, "from "@)
            &&& !starts_with(t, "import "@)
            &&& find(after, " import "@) == Some(m.len() as int)
            &&& trim(after.take(m.len() as int)) == m
            &&& after.skip(m.len() + " import "@.len() as int) == tail
        }),
{
    reveal_strlit("from ");
    reveal_strlit(" import ");
    let t = "from "@ + m + " import "@ + tail;
    let after = t.skip(5);
    assert(t.take(5) =~= "from "@);
    lemma_not_import_line(t);
    assert(after =~= m + " import "@ + tail);
    assert(after.subrange(m.len() as int, m.len() + 8int) =~= " import "@);
    assert forall|k: int| 0 <= k < m.len() implies after[k] != " import "@[0] by {
        assert(after[k] == m[k]);
        assert(plain_char(m[k]));
    }
    lemma_find_at(after, " import "@, m.len() as int);
    assert(after.take(m.len() as int) =~= m);
    assert(plain_char(m[0]) && plain_char(m.last()));
    lemma_trim_plain(m);
    assert(after.skip(m.len() + 8int) =~= tail);
}

/// The parts of a single-line `from` import as it is written out.
pub open spec fn from_line_tail(st: SpecStatement) -> Seq<char> {
    join(st.names.map_values(|n: SpecName| name_text(n)), ", "@) + comment_suffix(st.inline_comment)
}

proof fn lemma_from_line_shape(st: SpecStatement)
    requires
        clean_statement(st),
        st.kind == ImportKind::FromImport,
        !st.is_multiline,
    ensures
        reconstruct(st) == "from "@ + st.module + " import "@ + from_line_tail(st),
        from_line_tail(st).len() > 0,
        !is_ws(from_line_tail(st)[0]),
        from_line_tail(st)[0] != '(',
        !is_ws(from_line_tail(st).last()),
        from_line_tail(st).last() != '\\',
        trim(from_line_tail(st)) == from_line_tail(st),
        comment_split(from_line_tail(st)).1 == st.inline_comment,
        name_list(trim(comment_split(from_line_tail(st)).0)) == st.names,
        single_line(reconstruct(st)),
        trim(reconstruct(st)) == reconstruct(st),
        !ends_with_char(reconstruct(st), '\\'),
{
    let m = st.module;
    let j = join(st.names.map_values(|n: SpecName| name_text(n)), ", "@);
    let cs = comment_suffix(st.inline_comment);
    let tail = j + cs;
    let rec = "from "@ + m + " import "@ + tail;
    lemma_joined_names(st.names);
    lemma_comment_suffix(st.inline_comment);
    assert(reconstruct(st) =~= rec);
    assert(tail[0] == j[0]);
    assert(!is_ws(tail.last()) && tail.last() != '\\') by {
        if cs.len() == 0 {
            assert(tail.last() == j.last());
        }
    }
    lemma_trim_plain(tail);
    assert forall|k: int| 0 <= k < j.len() implies #[trigger] j[k] != '#' by {
        assert(j[k] == ' ' || j[k] == ',' || plain_char(j[k]));
    }
    lemma_code_and_comment(j, st.inline_comment);
    reveal_strlit("from ");
    reveal_strlit(" import ");
    assert forall|k: int| 0 <= k < rec.len() implies #[trigger] rec[k] != '\n' by {
        if 5 <= k < 5 + m.len() {
            assert(rec[k] == m[k - 5]);
            assert(plain_char(m[k - 5]));
        } else if 13 + m.len() <= k < 13 + m.len() + j.len() {
            assert(rec[k] == j[k - 13 - m.len()]);
        } else if k >= 13 + m.len() + j.len() {
            assert(rec[k] == cs[k - 13 - m.len() - j.len()]);
        }
    }
    assert(rec.last() == tail.last());
    assert(single_line(rec));
    lemma_trim_plain(rec);
}

proof fn lemma_from_line_parse(ls: Seq<Seq<char>>, i: int, st: SpecStatement, file: Seq<char>)
    requires
        clean_statement(st),
        st.kind == ImportKind::FromImport,
        !st.is_multiline,
        0 <= i < ls.len(),
        ls[i] == reconstruct(st),
    ensures
        parse_from(ls, i, file) == Ok::<_, SpecError>((on_line(st, (i + 1) as usize), 1int)),
{
    let rec = reconstruct(st);
    let tail = from_line_tail(st);
    lemma_from_line_shape(st);
    lemma_from_line_head(st.module, tail);
    let after = trim(ls[i]).skip("from "@.len() as int);
    assert(find(after, " import "@) == Some(st.module.len() as int));
    assert(trim(after.take(st.module.len() as int)) == st.module);
    assert(trim(after.skip(st.module.len() + " import "@.len() as int)) == tail);
    let split = comment_split(tail);
    assert(crate::parser::from_statement(st.module, name_list(trim(split.0)), split.1, (i + 1) as usize, false)
        == on_line(st, (i + 1) as usize));
}

/// The lines of the parenthesized form of a statement.
pub open spec fn block_lines(st: SpecStatement) -> Seq<Seq<char>> {
    seq!["from "@ + st.module + " import "@ + "("@] + st.names.map_values(|n: SpecName| name_line(n))
        + seq![")"@ + comment_suffix(st.inline_comment)]
}

proof fn lemma_block_shape(st: SpecStatement)
    requires
        clean_statement(st),
        st.kind == ImportKind::FromImport,
        st.is_multiline,
    ensures
        join(block_lines(st), seq!['\n']) == reconstruct(st),
        forall|i: int| 0 <= i < block_lines(st).len() ==> single_line(#[trigger] block_lines(st)[i]),
        block_lines(st).len() == st.names.len() + 2,
        trim(block_lines(st)[0]) == block_lines(st)[0],
        !ends_with_char(block_lines(st)[0], '\\'),
{
    reveal_strlit("from ");
    reveal_strlit(" import ");
    reveal_strlit("(");
    reveal_strlit(")");
    reveal_strlit("\n)");
    reveal_strlit("    ");
    reveal_strlit(",");
    let m = st.module;
    let head = "from "@ + m + " import "@ + "("@;
    let nl = st.names.map_values(|n: SpecName| name_line(n));
    let close = ")"@ + comment_suffix(st.inline_comment);
    let ls = block_lines(st);
    lemma_multiline_join(head, st.names);
    assert(ls.drop_last() =~= seq![head] + nl);
    assert(ls.last() == close);
    assert(reconstruct(st) =~= head + multiline_names(st.names) + seq!['\n'] + close);
    assert(reconstruct(st) == join(ls, seq!['\n']));
    lemma_comment_suffix(st.inline_comment);
    assert forall|i: int| 0 <= i < ls.len() implies single_line(#[trigger] ls[i]) by {
        if i == 0 {
            assert(ls[0] == head);
            assert forall|k: int| 0 <= k < head.len() implies #[trigger] head[k] != '\n' by {
                if 5 <= k < 5 + m.len() {
                    assert(head[k] == m[k - 5]);
                    assert(plain_char(m[k - 5]));
                }
            }
            assert(head.last() == '(');
        } else if i < ls.len() - 1 {
            let n = st.names[i - 1];
            assert(ls[i] == nl[i - 1]);
            assert(clean_name(n));
            lemma_name_of_text(n);
            lemma_comment_suffix(n.comment);
            let nt = name_text(n);
            let cs = comment_suffix(n.comment);
            let l = name_line(n);
            assert(l =~= "    "@ + nt + ","@ + cs);
            assert forall|k: int| 0 <= k < l.len() implies #[trigger] l[k] != '\n' by {
                if 4 <= k < 4 + nt.len() {
                    assert(l[k] == nt[k - 4]);
                    assert(nt[k - 4] == ' ' || plain_char(nt[k - 4]));
                } else if k >= 5 + nt.len() {
                    assert(l[k] == cs[k - 5 - nt.len()]);
                }
            }
            if cs.len() == 0 {
                assert(l.last() == ',');
            } else {
                assert(l.last() == cs.last());
            }
        } else {
            assert(ls[i] == close);
            let cs = comment_suffix(st.inline_comment);
            assert forall|k: int| 0 <= k < close.len() implies #[trigger] close[k] != '\n' by {
                if k >= 1 {
                    assert(close[k] == cs[k - 1]);
                }
            }
            if cs.len() == 0 {
                assert(close.last() == ')');
            } else {
                assert(close.last() == cs.last());
            }
        }
    }
    assert(ls[0] == head);
    assert(head[0] == 'f' && head.last() == '(');
    lemma_trim_plain(head);
}

proof fn lemma_block_parse(ls: Seq<Seq<char>>, i: int, st: SpecStatement, file: Seq<char>)
    requires
        clean_statement(st),
        st.kind == ImportKind::FromImport,
        st.is_multiline,
        0 <= i,
        i + block_lines(st).len() <= ls.len(),
        forall|k: int| 0 <= k < block_lines(st).len() ==> ls[i + k] == #[trigger] block_lines(st)[k],
    ensures
        parse_from(ls, i, file) == Ok::<_, SpecError>(
            (on_line(st, (i + 1) as usize), block_lines(st).len() as int),
        ),
{
    reveal_strlit("(");
    let bl = block_lines(st);
    let m = st.module;
    lemma_block_shape(st);
    lemma_from_line_head(m, "("@);
    assert(ls[i + 0] == bl[0]);
    let head = ls[i];
    assert(head == "from "@ + m + " import "@ + "("@);
    let after = trim(head).skip("from "@.len() as int);
    lemma_trim_plain("("@);
    assert(trim(after.skip(m.len() + " import "@.len() as int)) == "("@);
    let inner = "("@.drop_first();
    assert(inner =~= Seq::<char>::empty());
    lemma_find_none(inner, seq![')']);
    lemma_find_none(inner, seq!['#']);
    assert(comment_split(inner) == (inner, None::<Seq<char>>));
    lemma_name_list_empty();
    assert(trim(inner) =~= Seq::<char>::empty());
    assert(Seq::<SpecName>::empty() + name_list(trim(inner)) =~= Seq::<SpecName>::empty());
    assert(absorb(Seq::empty(), None, trim(inner), None) == (Seq::<SpecName>::empty(), None::<Seq<char>>));
    assert forall|k: int| 0 <= k < st.names.len() implies ls[(i + 1) + k] == name_line(#[trigger] st.names[k]) by {
        assert(ls[i + (k + 1)] == bl[k + 1]);
    }
    assert forall|k: int| 0 <= k < st.names.len() implies clean_name(#[trigger] st.names[k]) by {}
    assert(ls[i + (st.names.len() + 1)] == bl[st.names.len() + 1int]);
    assert(ls[(i + 1) + st.names.len()] == ")"@ + comment_suffix(st.inline_comment));
    lemma_scan_names(ls, i + 1, Seq::empty(), st.names, st.inline_comment, file);
    assert(Seq::<SpecName>::empty() + st.names =~= st.names);
    assert(crate::parser::from_statement(m, st.names, st.inline_comment, (i + 1) as usize, true) == on_line(st, (i + 1) as usize));
}

// ---------------------------------------------------------------------
// Statements read back
// ---------------------------------------------------------------------

/// The lines that a statement is written as.
pub open spec fn statement_lines(st: SpecStatement) -> Seq<Seq<char>> {
    if st.kind == ImportKind::FromImport && st.is_multiline {
        block_lines(st)
    } else {
        seq![reconstruct(st)]
    }
}

/// The lines of a statement are single lines, and joined they are its
/// text.
pub proof fn lemma_statement_lines(st: SpecStatement)
    requires
        clean_statement(st),
    ensures
        statement_lines(st).len() > 0,
        join(statement_lines(st), seq!['\n']) == reconstruct(st),
        forall|i: int| 0 <= i < statement_lines(st).len() ==> single_line(#[trigger] statement_lines(st)[i]),
{
    if st.kind == ImportKind::FromImport && st.is_multiline {
        lemma_block_shape(st);
    } else {
        if st.kind == ImportKind::Import {
            lemma_import_shape(st, 1, Seq::empty());
        } else {
            lemma_from_line_shape(st);
        }
        assert forall|i: int| 0 <= i < 1 implies single_line(#[trigger] seq![reconstruct(st)][i]) by {}
    }
}

/// Where the lines of a statement stand in a text at index `i`, parsing
/// there gives the statement, on line `i + 1`, and goes on after them.
#[verifier::rlimit(40)]
pub proof fn lemma_statement_parses_at(ls: Seq<Seq<char>>, i: int, st: SpecStatement, file: Seq<char>)
    requires
        clean_statement(st),
        0 <= i,
        i + statement_lines(st).len() <= ls.len(),
        forall|k: int| 0 <= k < statement_lines(st).len() ==> ls[i + k] == #[trigger] statement_lines(st)[k],
    ensures
        parse_lines(ls, i, file) == crate::parser::prepend(
            SpecSegment::Import(on_line(st, (i + 1) as usize)),
            parse_lines(ls, i + statement_lines(st).len(), file),
        ),
{
    let sl = statement_lines(st);
    assert(ls[i + 0] == sl[0]);
    let line = ls[i];
    if st.kind == ImportKind::Import {
        lemma_import_shape(st, (i + 1) as usize, file);
        assert(line == reconstruct(st));
        lemma_not_import_line_from_i(line);
    } else if st.is_multiline {
        lemma_block_shape(st);
        lemma_block_parse(ls, i, st, file);
        lemma_from_line_head(st.module, "("@);
        assert(line == block_lines(st)[0]);
    } else {
        lemma_from_line_shape(st);
        lemma_from_line_head(st.module, from_line_tail(st));
        lemma_from_line_parse(ls, i, st, file);
        assert(line == reconstruct(st));
    }
}

/// An `import ` line is not a `from ` line.
proof fn lemma_not_import_line_from_i(t: Seq<char>)
    requires
        starts_with(t, "import "@),
    ensures
        !starts_with(t, "from "@),
{
    reveal_strlit("import ");
    reveal_strlit("from ");
    if starts_with(t, "from "@) {
        assert(t.take(5)[0] == "from "@[0]);
        assert(t.take(7)[0] == "import "@[0]);
    }
}

/// Law: a statement in the form that parsing gives, written out by
/// `reconstruct_import` with a line break after it and parsed again, is
/// the same statement, standing on line 1.
pub proof fn lemma_reconstructed_statement_reads_back(st: SpecStatement, file: Seq<char>)
    requires
        clean_statement(st),
    ensures
        parse_source(reconstruct(st) + seq!['\n'], file) == Ok::<_, SpecError>(
            seq![SpecSegment::Import(on_line(st, 1))],
        ),
{
    let sl = statement_lines(st);
    lemma_statement_lines(st);
    lemma_lines_of_joined(sl);
    lemma_statement_parses_at(sl, 0, st, file);
    assert(parse_lines(sl, sl.len() as int, file) == Ok::<_, SpecError>(Seq::<SpecSegment>::empty()));
    assert(seq![SpecSegment::Import(on_line(st, 1))] + Seq::<SpecSegment>::empty() =~= seq![SpecSegment::Import(on_line(st, 1))]);
}

} // verus!
