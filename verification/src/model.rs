//! Mathematical model of the normalization pipeline.
//!
//! All stages are specified generically over the unit type `T` (`u8` for the
//! byte encodings, `char` for text), the line-feed and carriage-return units,
//! and a whitespace policy given as a spec-level predicate.  The pipeline is
//! `lines_of` (segmentation), `trimmed` (whitespace removal), `surviving`
//! (blank-line elimination) and `joined` (delimiter insertion); `normalized`
//! is their composition.

use vstd::prelude::*;

verus! {

/// Index of the first line feed in `s`, or `s.len()` if there is none.
pub open spec fn first_line_feed<T>(s: Seq<T>, lf: T) -> int
    decreases s.len(),
{
    if s.len() == 0 {
        0
    } else if s[0] == lf {
        0
    } else {
        1 + first_line_feed(s.drop_first(), lf)
    }
}

/// The line views of `s`, in order.  A line ends just before a line feed, or
/// just before the carriage return immediately preceding that line feed (so
/// CRLF counts as one boundary).  A lone carriage return is ordinary content.
/// Input that ends exactly on a boundary produces no trailing empty line.
pub open spec fn lines_of<T>(s: Seq<T>, lf: T, cr: T) -> Seq<Seq<T>>
    decreases s.len(),
{
    if s.len() == 0 {
        Seq::empty()
    } else {
        let i = first_line_feed(s, lf);
        if 0 <= i < s.len() {
            let end = if i > 0 && s[i - 1] == cr {
                i - 1
            } else {
                i
            };
            seq![s.subrange(0, end)] + lines_of(s.subrange(i + 1, s.len() as int), lf, cr)
        } else {
            seq![s]
        }
    }
}

/// `l` with its leading run of whitespace removed.
pub open spec fn drop_leading<T>(l: Seq<T>, ws: spec_fn(T) -> bool) -> Seq<T>
    decreases l.len(),
{
    if l.len() > 0 && ws(l[0]) {
        drop_leading(l.drop_first(), ws)
    } else {
        l
    }
}

/// `l` with its trailing run of whitespace removed.
pub open spec fn drop_trailing<T>(l: Seq<T>, ws: spec_fn(T) -> bool) -> Seq<T>
    decreases l.len(),
{
    if l.len() > 0 && ws(l.last()) {
        drop_trailing(l.drop_last(), ws)
    } else {
        l
    }
}

/// `l` with leading and trailing whitespace removed.
pub open spec fn trimmed<T>(l: Seq<T>, ws: spec_fn(T) -> bool) -> Seq<T> {
    drop_trailing(drop_leading(l, ws), ws)
}

/// The trimmed lines that are not blank, in order.  Blankness is evaluated
/// strictly after trimming.
pub open spec fn surviving<T>(lines: Seq<Seq<T>>, ws: spec_fn(T) -> bool) -> Seq<Seq<T>>
    decreases lines.len(),
{
    if lines.len() == 0 {
        Seq::empty()
    } else {
        let t = trimmed(lines[0], ws);
        let rest = surviving(lines.drop_first(), ws);
        if t.len() > 0 {
            seq![t] + rest
        } else {
            rest
        }
    }
}

/// Concatenation of `d + line` for every line, in order.
pub open spec fn joined_tail<T>(lines: Seq<Seq<T>>, d: Seq<T>) -> Seq<T>
    decreases lines.len(),
{
    if lines.len() == 0 {
        Seq::empty()
    } else {
        d + lines[0] + joined_tail(lines.drop_first(), d)
    }
}

/// The lines concatenated with the delimiter inserted only between pairs:
/// never before the first line, never after the last.
pub open spec fn joined<T>(lines: Seq<Seq<T>>, d: Seq<T>) -> Seq<T> {
    if lines.len() == 0 {
        Seq::empty()
    } else {
        lines[0] + joined_tail(lines.drop_first(), d)
    }
}

/// The whole pipeline: segment, trim, drop blanks, join.
pub open spec fn normalized<T>(
    s: Seq<T>,
    d: Seq<T>,
    lf: T,
    cr: T,
    ws: spec_fn(T) -> bool,
) -> Seq<T> {
    joined(surviving(lines_of(s, lf, cr), ws), d)
}

/// `first_line_feed` is the unique index with a line feed at it and none
/// before it; when no line feed exists at all it is `s.len()`.
pub proof fn lemma_first_line_feed_is<T>(s: Seq<T>, lf: T, i: int)
    requires
        0 <= i <= s.len(),
        forall|j: int| 0 <= j < i ==> s[j] != lf,
        i < s.len() ==> s[i] == lf,
    ensures
        first_line_feed(s, lf) == i,
    decreases s.len(),
{
    if s.len() == 0 {
    } else if s[0] == lf {
        assert(i == 0);
    } else {
        assert(i > 0);
        assert forall|j: int| 0 <= j < i - 1 implies s.drop_first()[j] != lf by {
            assert(s.drop_first()[j] == s[j + 1]);
        }
        assert(i - 1 < s.drop_first().len() ==> s.drop_first()[i - 1] == s[i]);
        lemma_first_line_feed_is(s.drop_first(), lf, i - 1);
    }
}

/// A payload without a line feed is a single line, whatever carriage returns
/// it holds: a lone carriage return is never a boundary.
pub proof fn lemma_lines_of_no_line_feed<T>(s: Seq<T>, lf: T, cr: T)
    requires
        s.len() > 0,
        forall|j: int| 0 <= j < s.len() ==> s[j] != lf,
    ensures
        lines_of(s, lf, cr) == seq![s],
{
    lemma_first_line_feed_is(s, lf, s.len() as int);
}

/// Unfolds `lines_of` at the first line feed: the first line ends just
/// before it (or before the carriage return immediately preceding it), and
/// the remaining lines are those of the rest of the payload.
pub proof fn lemma_lines_of_split<T>(s: Seq<T>, lf: T, cr: T, i: int)
    requires
        0 <= i < s.len(),
        s[i] == lf,
        forall|j: int| 0 <= j < i ==> s[j] != lf,
    ensures
        lines_of(s, lf, cr) == seq![
            s.subrange(
                0,
                if i > 0 && s[i - 1] == cr {
                    i - 1
                } else {
                    i
                },
            ),
        ] + lines_of(s.subrange(i + 1, s.len() as int), lf, cr),
{
    lemma_first_line_feed_is(s, lf, i);
}

/// `drop_leading` removes exactly the leading whitespace run: if everything
/// before `i` is whitespace and `l[i]` (when it exists) is not, the result is
/// the subrange from `i`.
pub proof fn lemma_drop_leading_at<T>(l: Seq<T>, ws: spec_fn(T) -> bool, i: int)
    requires
        0 <= i <= l.len(),
        forall|j: int| 0 <= j < i ==> ws(l[j]),
        i < l.len() ==> !ws(l[i]),
    ensures
        drop_leading(l, ws) == l.subrange(i, l.len() as int),
    decreases l.len(),
{
    if i == 0 {
        assert(l.subrange(0, l.len() as int) =~= l);
    } else {
        assert(ws(l[0]));
        let rest = l.drop_first();
        assert forall|j: int| 0 <= j < i - 1 implies ws(rest[j]) by {
            assert(rest[j] == l[j + 1]);
        }
        assert(i - 1 < rest.len() ==> rest[i - 1] == l[i]);
        lemma_drop_leading_at(rest, ws, i - 1);
        assert(rest.subrange(i - 1, rest.len() as int) =~= l.subrange(i, l.len() as int));
    }
}

/// `drop_trailing` removes exactly the trailing whitespace run: if everything
/// from `e` on is whitespace and `l[e - 1]` (when it exists) is not, the
/// result is the subrange up to `e`.
pub proof fn lemma_drop_trailing_at<T>(l: Seq<T>, ws: spec_fn(T) -> bool, e: int)
    requires
        0 <= e <= l.len(),
        forall|j: int| e <= j < l.len() ==> ws(l[j]),
        e > 0 ==> !ws(l[e - 1]),
    ensures
        drop_trailing(l, ws) == l.subrange(0, e),
    decreases l.len(),
{
    if e == l.len() {
        assert(l.subrange(0, l.len() as int) =~= l);
    } else {
        assert(ws(l.last()));
        let rest = l.drop_last();
        lemma_drop_trailing_at(rest, ws, e);
        assert(rest.subrange(0, e) =~= l.subrange(0, e));
    }
}

/// `trimmed` keeps exactly the subrange between the leading and trailing
/// whitespace runs.
pub proof fn lemma_trimmed_at<T>(l: Seq<T>, ws: spec_fn(T) -> bool, i: int, e: int)
    requires
        0 <= i <= e <= l.len(),
        forall|j: int| 0 <= j < i ==> ws(l[j]),
        forall|j: int| e <= j < l.len() ==> ws(l[j]),
        i < e ==> !ws(l[i]) && !ws(l[e - 1]),
    ensures
        trimmed(l, ws) == l.subrange(i, e),
{
    if i == e {
        lemma_drop_leading_at(l, ws, l.len() as int);
        assert(l.subrange(l.len() as int, l.len() as int) =~= Seq::<T>::empty());
        assert(drop_trailing(Seq::<T>::empty(), ws) =~= l.subrange(i, e));
    } else {
        lemma_drop_leading_at(l, ws, i);
        let dl = l.subrange(i, l.len() as int);
        assert forall|j: int| e - i <= j < dl.len() implies ws(dl[j]) by {
            assert(dl[j] == l[j + i]);
        }
        assert(dl[e - i - 1] == l[e - 1]);
        lemma_drop_trailing_at(dl, ws, e - i);
        assert(dl.subrange(0, e - i) =~= l.subrange(i, e));
    }
}

/// What `drop_leading` keeps never starts with whitespace.
pub proof fn lemma_drop_leading_head<T>(l: Seq<T>, ws: spec_fn(T) -> bool)
    ensures
        drop_leading(l, ws).len() > 0 ==> !ws(drop_leading(l, ws)[0]),
    decreases l.len(),
{
    if l.len() > 0 && ws(l[0]) {
        lemma_drop_leading_head(l.drop_first(), ws);
    }
}

/// What `drop_trailing` keeps never ends with whitespace.
pub proof fn lemma_drop_trailing_last<T>(l: Seq<T>, ws: spec_fn(T) -> bool)
    ensures
        drop_trailing(l, ws).len() > 0 ==> !ws(drop_trailing(l, ws).last()),
    decreases l.len(),
{
    if l.len() > 0 && ws(l.last()) {
        lemma_drop_trailing_last(l.drop_last(), ws);
    }
}

/// `drop_trailing` keeps a prefix: it changes no element it keeps.
pub proof fn lemma_drop_trailing_prefix<T>(l: Seq<T>, ws: spec_fn(T) -> bool)
    ensures
        drop_trailing(l, ws).len() <= l.len(),
        forall|j: int|
            0 <= j < drop_trailing(l, ws).len() ==> #[trigger] drop_trailing(l, ws)[j] == l[j],
    decreases l.len(),
{
    if l.len() > 0 && ws(l.last()) {
        lemma_drop_trailing_prefix(l.drop_last(), ws);
    }
}

/// A non-blank trimmed line neither starts nor ends with whitespace.
pub proof fn lemma_trimmed_edges<T>(l: Seq<T>, ws: spec_fn(T) -> bool)
    ensures
        trimmed(l, ws).len() > 0 ==> !ws(trimmed(l, ws)[0]) && !ws(trimmed(l, ws).last()),
{
    let dl = drop_leading(l, ws);
    lemma_drop_leading_head(l, ws);
    lemma_drop_trailing_last(dl, ws);
    lemma_drop_trailing_prefix(dl, ws);
}

/// Every surviving line is non-blank and neither starts nor ends with
/// whitespace.
pub proof fn lemma_surviving_edges<T>(lines: Seq<Seq<T>>, ws: spec_fn(T) -> bool)
    ensures
        forall|k: int|
            0 <= k < surviving(lines, ws).len() ==> (#[trigger] surviving(lines, ws)[k]).len() > 0
                && !ws(surviving(lines, ws)[k][0]) && !ws(surviving(lines, ws)[k].last()),
    decreases lines.len(),
{
    if lines.len() > 0 {
        lemma_trimmed_edges(lines[0], ws);
        lemma_surviving_edges(lines.drop_first(), ws);
        let t = trimmed(lines[0], ws);
        let rest = surviving(lines.drop_first(), ws);
        if t.len() > 0 {
            assert forall|k: int|
                0 <= k < surviving(lines, ws).len() implies (#[trigger] surviving(
                lines,
                ws,
            )[k]).len() > 0 && !ws(surviving(lines, ws)[k][0]) && !ws(
                surviving(lines, ws)[k].last(),
            ) by {
                if k > 0 {
                    assert(surviving(lines, ws)[k] == rest[k - 1]);
                }
            }
        }
    }
}

/// The join of non-empty lines ends with the last line's last unit.
pub proof fn lemma_joined_tail_last<T>(lines: Seq<Seq<T>>, d: Seq<T>)
    requires
        forall|k: int| 0 <= k < lines.len() ==> (#[trigger] lines[k]).len() > 0,
        lines.len() > 0,
    ensures
        joined_tail(lines, d).len() > 0,
        joined_tail(lines, d).last() == lines.last().last(),
    decreases lines.len(),
{
    if lines.len() == 1 {
        assert(joined_tail(lines.drop_first(), d) == Seq::<T>::empty());
        assert(joined_tail(lines, d).last() == lines[0].last());
    } else {
        lemma_joined_tail_last(lines.drop_first(), d);
    }
}

/// The join of non-empty lines is non-empty, starts with the first line's
/// first unit and ends with the last line's last unit.
pub proof fn lemma_joined_edges<T>(lines: Seq<Seq<T>>, d: Seq<T>)
    requires
        forall|k: int| 0 <= k < lines.len() ==> (#[trigger] lines[k]).len() > 0,
        lines.len() > 0,
    ensures
        joined(lines, d).len() > 0,
        joined(lines, d)[0] == lines[0][0],
        joined(lines, d).last() == lines.last().last(),
{
    if lines.len() == 1 {
        assert(joined_tail(lines.drop_first(), d) == Seq::<T>::empty());
    } else {
        lemma_joined_tail_last(lines.drop_first(), d);
        assert(lines.drop_first().last() == lines.last());
    }
}

/// Normalized output has no leading or trailing whitespace under the
/// variant's whitespace policy.
pub proof fn lemma_normalized_no_edge_whitespace<T>(
    s: Seq<T>,
    d: Seq<T>,
    lf: T,
    cr: T,
    ws: spec_fn(T) -> bool,
)
    ensures
        normalized(s, d, lf, cr, ws).len() > 0 ==> !ws(normalized(s, d, lf, cr, ws)[0]) && !ws(
            normalized(s, d, lf, cr, ws).last(),
        ),
{
    let lines = surviving(lines_of(s, lf, cr), ws);
    lemma_surviving_edges(lines_of(s, lf, cr), ws);
    if lines.len() > 0 {
        lemma_joined_edges(lines, d);
        assert(lines.last().len() > 0);
    }
}

/// For a non-empty line list, `joined_tail` is one delimiter followed by
/// the ordinary join.
pub proof fn lemma_joined_tail_unfold<T>(lines: Seq<Seq<T>>, d: Seq<T>)
    requires
        lines.len() > 0,
    ensures
        joined_tail(lines, d) == d + joined(lines, d),
{
    assert(d + lines[0] + joined_tail(lines.drop_first(), d) =~= d + (lines[0] + joined_tail(
        lines.drop_first(),
        d,
    )));
}

/// `joined_tail` distributes over concatenation of line lists.
pub proof fn lemma_joined_tail_concat<T>(a: Seq<Seq<T>>, b: Seq<Seq<T>>, d: Seq<T>)
    ensures
        joined_tail(a + b, d) == joined_tail(a, d) + joined_tail(b, d),
    decreases a.len(),
{
    if a.len() == 0 {
        assert(a + b =~= b);
        assert(joined_tail(a, d) + joined_tail(b, d) =~= joined_tail(b, d));
    } else {
        assert((a + b).drop_first() =~= a.drop_first() + b);
        lemma_joined_tail_concat(a.drop_first(), b, d);
        assert((a + b)[0] == a[0]);
        assert(d + a[0] + (joined_tail(a.drop_first(), d) + joined_tail(b, d)) =~= (d + a[0]
            + joined_tail(a.drop_first(), d)) + joined_tail(b, d));
    }
}

/// Between any two adjacent groups of surviving lines stands exactly one
/// delimiter instance: the join splits at every interior position into the
/// join of the lines before, one delimiter, and the join of the lines after.
pub proof fn lemma_joined_split<T>(lines: Seq<Seq<T>>, d: Seq<T>, k: int)
    requires
        0 < k < lines.len(),
    ensures
        joined(lines, d) == joined(lines.take(k), d) + d + joined(lines.skip(k), d),
{
    let front = lines.take(k);
    let back = lines.skip(k);
    assert(lines.drop_first() =~= front.drop_first() + back);
    lemma_joined_tail_concat(front.drop_first(), back, d);
    lemma_joined_tail_unfold(back, d);
    assert(front[0] == lines[0]);
    assert(lines[0] + (joined_tail(front.drop_first(), d) + (d + joined(back, d))) =~= ((lines[0]
        + joined_tail(front.drop_first(), d)) + d) + joined(back, d));
}

/// A line that is blank after trimming contributes nothing: dropping it
/// from the line list leaves the surviving lines unchanged, so it also
/// never causes a delimiter to be inserted.
pub proof fn lemma_blank_line_dropped<T>(lines: Seq<Seq<T>>, ws: spec_fn(T) -> bool, i: int)
    requires
        0 <= i < lines.len(),
        trimmed(lines[i], ws).len() == 0,
    ensures
        surviving(lines, ws) == surviving(lines.remove(i), ws),
    decreases lines.len(),
{
    if i == 0 {
        assert(lines.remove(0) =~= lines.drop_first());
    } else {
        lemma_blank_line_dropped(lines.drop_first(), ws, i - 1);
        assert(lines.remove(i).drop_first() =~= lines.drop_first().remove(i - 1));
        assert(lines.remove(i)[0] == lines[0]);
    }
}

/// Dropping a trailing whitespace unit does not change what trimming
/// keeps.
pub proof fn lemma_trimmed_drop_last_ws<T>(l: Seq<T>, ws: spec_fn(T) -> bool)
    requires
        l.len() > 0,
        ws(l.last()),
    ensures
        trimmed(l, ws) == trimmed(l.drop_last(), ws),
    decreases l.len(),
{
    if ws(l[0]) {
        if l.len() == 1 {
            assert(drop_leading(l, ws) == drop_leading(l.drop_first(), ws));
            assert(l.drop_first() =~= Seq::<T>::empty());
            assert(l.drop_last() =~= Seq::<T>::empty());
        } else {
            assert(trimmed(l, ws) == trimmed(l.drop_first(), ws));
            assert(l.drop_first().last() == l.last());
            lemma_trimmed_drop_last_ws(l.drop_first(), ws);
            assert(l.drop_first().drop_last() =~= l.drop_last().drop_first());
            assert(l.drop_last().len() > 0 && ws(l.drop_last()[0]));
            assert(trimmed(l.drop_last(), ws) == trimmed(l.drop_last().drop_first(), ws));
        }
    } else {
        assert(l.len() > 1);
        assert(drop_leading(l, ws) == l);
        assert(drop_trailing(l, ws) == drop_trailing(l.drop_last(), ws));
        assert(l.drop_last().len() > 0 && !ws(l.drop_last()[0]));
        assert(drop_leading(l.drop_last(), ws) == l.drop_last());
    }
}

/// A line feed and a carriage-return-plus-line-feed pair are equivalent
/// boundaries: with a whitespace carriage return, normalizing a payload is
/// the same whichever of the two separates its first line from the rest.
pub proof fn lemma_crlf_equivalent<T>(
    a: Seq<T>,
    b: Seq<T>,
    d: Seq<T>,
    lf: T,
    cr: T,
    ws: spec_fn(T) -> bool,
)
    requires
        forall|j: int| 0 <= j < a.len() ==> a[j] != lf,
        cr != lf,
        ws(cr),
    ensures
        normalized(a + seq![cr, lf] + b, d, lf, cr, ws) == normalized(
            a + seq![lf] + b,
            d,
            lf,
            cr,
            ws,
        ),
{
    let s1 = a + seq![cr, lf] + b;
    let s2 = a + seq![lf] + b;
    let n = a.len() as int;
    assert(s1[n] == cr && s1[n + 1] == lf);
    assert forall|j: int| 0 <= j < n + 1 implies s1[j] != lf by {
        if j < n {
            assert(s1[j] == a[j]);
        }
    }
    lemma_lines_of_split(s1, lf, cr, n + 1);
    assert(s1.subrange(0, n) =~= a);
    assert(s1.subrange(n + 2, s1.len() as int) =~= b);
    assert(s2[n] == lf);
    assert forall|j: int| 0 <= j < n implies s2[j] != lf by {
        assert(s2[j] == a[j]);
    }
    lemma_lines_of_split(s2, lf, cr, n);
    assert(s2.subrange(n + 1, s2.len() as int) =~= b);
    let line2 = if n > 0 && s2[n - 1] == cr {
        s2.subrange(0, n - 1)
    } else {
        s2.subrange(0, n)
    };
    if n > 0 && s2[n - 1] == cr {
        assert(a.last() == cr);
        lemma_trimmed_drop_last_ws(a, ws);
        assert(line2 =~= a.drop_last());
    } else {
        assert(line2 =~= a);
    }
    assert(trimmed(line2, ws) == trimmed(a, ws));
    let rest = surviving(lines_of(b, lf, cr), ws);
    assert((seq![a] + lines_of(b, lf, cr)).drop_first() =~= lines_of(b, lf, cr));
    assert((seq![line2] + lines_of(b, lf, cr)).drop_first() =~= lines_of(b, lf, cr));
    assert(surviving(lines_of(s1, lf, cr), ws) == surviving(lines_of(s2, lf, cr), ws));
}

/// Every unit of every line comes from the payload.
pub proof fn lemma_lines_of_units<T>(s: Seq<T>, lf: T, cr: T, p: spec_fn(T) -> bool)
    requires
        forall|i: int| 0 <= i < s.len() ==> p(s[i]),
    ensures
        forall|k: int, j: int|
            0 <= k < lines_of(s, lf, cr).len() && 0 <= j < lines_of(s, lf, cr)[k].len() ==> p(
                #[trigger] lines_of(s, lf, cr)[k][j],
            ),
    decreases s.len(),
{
    if s.len() > 0 {
        let i = first_line_feed(s, lf);
        if 0 <= i < s.len() {
            let rest = s.subrange(i + 1, s.len() as int);
            assert forall|j: int| 0 <= j < rest.len() implies p(rest[j]) by {
                assert(rest[j] == s[i + 1 + j]);
            }
            lemma_lines_of_units(rest, lf, cr, p);
            assert forall|k: int, j: int|
                0 <= k < lines_of(s, lf, cr).len() && 0 <= j < lines_of(s, lf, cr)[k].len() implies
                p(#[trigger] lines_of(s, lf, cr)[k][j]) by {
                if k == 0 {
                    assert(lines_of(s, lf, cr)[0][j] == s[j]);
                } else {
                    assert(lines_of(s, lf, cr)[k] == lines_of(rest, lf, cr)[k - 1]);
                }
            }
        }
    }
}

/// Every unit that trimming keeps comes from the line.
pub proof fn lemma_trimmed_units<T>(l: Seq<T>, ws: spec_fn(T) -> bool, p: spec_fn(T) -> bool)
    requires
        forall|j: int| 0 <= j < l.len() ==> p(l[j]),
    ensures
        forall|j: int| 0 <= j < trimmed(l, ws).len() ==> p(#[trigger] trimmed(l, ws)[j]),
{
    lemma_drop_leading_units(l, ws, p);
    lemma_drop_trailing_prefix(drop_leading(l, ws), ws);
}

/// Every unit that `drop_leading` keeps comes from the line.
pub proof fn lemma_drop_leading_units<T>(l: Seq<T>, ws: spec_fn(T) -> bool, p: spec_fn(T) -> bool)
    requires
        forall|j: int| 0 <= j < l.len() ==> p(l[j]),
    ensures
        forall|j: int|
            0 <= j < drop_leading(l, ws).len() ==> p(#[trigger] drop_leading(l, ws)[j]),
    decreases l.len(),
{
    if l.len() > 0 && ws(l[0]) {
        assert forall|j: int| 0 <= j < l.drop_first().len() implies p(l.drop_first()[j]) by {
            assert(l.drop_first()[j] == l[j + 1]);
        }
        lemma_drop_leading_units(l.drop_first(), ws, p);
        assert(drop_leading(l, ws) == drop_leading(l.drop_first(), ws));
    }
}

/// Every unit of every surviving line comes from some line.
pub proof fn lemma_surviving_units<T>(
    lines: Seq<Seq<T>>,
    ws: spec_fn(T) -> bool,
    p: spec_fn(T) -> bool,
)
    requires
        forall|k: int, j: int|
            0 <= k < lines.len() && 0 <= j < lines[k].len() ==> p(#[trigger] lines[k][j]),
    ensures
        forall|k: int, j: int|
            0 <= k < surviving(lines, ws).len() && 0 <= j < surviving(lines, ws)[k].len() ==> p(
                #[trigger] surviving(lines, ws)[k][j],
            ),
    decreases lines.len(),
{
    if lines.len() > 0 {
        let t = trimmed(lines[0], ws);
        let rest = lines.drop_first();
        assert forall|k: int, j: int|
            0 <= k < rest.len() && 0 <= j < rest[k].len() implies p(#[trigger] rest[k][j]) by {
            assert(rest[k] == lines[k + 1]);
        }
        lemma_surviving_units(rest, ws, p);
        lemma_trimmed_units(lines[0], ws, p);
        if t.len() > 0 {
            assert forall|k: int, j: int|
                0 <= k < surviving(lines, ws).len() && 0 <= j < surviving(lines, ws)[k].len()
                implies p(#[trigger] surviving(lines, ws)[k][j]) by {
                if k == 0 {
                    assert(surviving(lines, ws)[0] == t);
                } else {
                    assert(surviving(lines, ws)[k] == surviving(rest, ws)[k - 1]);
                }
            }
        } else {
            assert(surviving(lines, ws) == surviving(rest, ws));
        }
    }
}

/// Every unit of the join comes from some line or from the delimiter.
pub proof fn lemma_joined_tail_units<T>(lines: Seq<Seq<T>>, d: Seq<T>, p: spec_fn(T) -> bool)
    requires
        forall|k: int, j: int|
            0 <= k < lines.len() && 0 <= j < lines[k].len() ==> p(#[trigger] lines[k][j]),
        forall|j: int| 0 <= j < d.len() ==> p(d[j]),
    ensures
        forall|i: int| 0 <= i < joined_tail(lines, d).len() ==> p(#[trigger] joined_tail(lines, d)[i]),
    decreases lines.len(),
{
    if lines.len() > 0 {
        let rest = lines.drop_first();
        assert forall|k: int, j: int|
            0 <= k < rest.len() && 0 <= j < rest[k].len() implies p(#[trigger] rest[k][j]) by {
            assert(rest[k] == lines[k + 1]);
        }
        lemma_joined_tail_units(rest, d, p);
        assert forall|i: int|
            0 <= i < joined_tail(lines, d).len() implies p(#[trigger] joined_tail(lines, d)[i]) by {
            let head = d + lines[0];
            if i < head.len() {
                assert(joined_tail(lines, d)[i] == head[i]);
                assert(0 <= 0 < lines.len());
                if i >= d.len() {
                    assert(head[i] == lines[0][i - d.len()]);
                }
            } else {
                assert(joined_tail(lines, d)[i] == joined_tail(rest, d)[i - head.len()]);
            }
        }
    }
}

/// Every unit of the normalized output comes from the payload or from the
/// delimiter.
pub proof fn lemma_normalized_units<T>(
    s: Seq<T>,
    d: Seq<T>,
    lf: T,
    cr: T,
    ws: spec_fn(T) -> bool,
    p: spec_fn(T) -> bool,
)
    requires
        forall|i: int| 0 <= i < s.len() ==> p(s[i]),
        forall|i: int| 0 <= i < d.len() ==> p(d[i]),
    ensures
        forall|i: int|
            0 <= i < normalized(s, d, lf, cr, ws).len() ==> p(
                #[trigger] normalized(s, d, lf, cr, ws)[i],
            ),
{
    let lines = surviving(lines_of(s, lf, cr), ws);
    lemma_lines_of_units(s, lf, cr, p);
    lemma_surviving_units(lines_of(s, lf, cr), ws, p);
    if lines.len() > 0 {
        lemma_joined_tail_units(lines.drop_first(), d, p);
        assert forall|k: int, j: int|
            0 <= k < lines.drop_first().len() && 0 <= j < lines.drop_first()[k].len() implies p(
            #[trigger] lines.drop_first()[k][j],
        ) by {
            assert(lines.drop_first()[k] == lines[k + 1]);
        }
        assert forall|i: int|
            0 <= i < normalized(s, d, lf, cr, ws).len() implies p(
            #[trigger] normalized(s, d, lf, cr, ws)[i],
        ) by {
            if i < lines[0].len() {
                assert(normalized(s, d, lf, cr, ws)[i] == lines[0][i]);
            } else {
                assert(normalized(s, d, lf, cr, ws)[i] == joined_tail(lines.drop_first(), d)[i
                    - lines[0].len()]);
            }
        }
    }
}

/// Idempotence: normalized output that holds no line feed, normalized
/// again with the empty delimiter, is returned unchanged.
pub proof fn lemma_normalized_idempotent<T>(
    s: Seq<T>,
    d: Seq<T>,
    lf: T,
    cr: T,
    ws: spec_fn(T) -> bool,
)
    requires
        forall|i: int|
            0 <= i < normalized(s, d, lf, cr, ws).len() ==> #[trigger] normalized(
                s,
                d,
                lf,
                cr,
                ws,
            )[i] != lf,
    ensures
        normalized(normalized(s, d, lf, cr, ws), Seq::empty(), lf, cr, ws) == normalized(
            s,
            d,
            lf,
            cr,
            ws,
        ),
{
    let out = normalized(s, d, lf, cr, ws);
    if out.len() > 0 {
        lemma_lines_of_no_line_feed(out, lf, cr);
        lemma_normalized_no_edge_whitespace(s, d, lf, cr, ws);
        assert(drop_leading(out, ws) == out);
        assert(drop_trailing(out, ws) == out);
        assert(trimmed(out, ws) == out);
        assert(seq![out].drop_first() =~= Seq::<Seq<T>>::empty());
        assert(seq![out][0] == out);
        assert(surviving(seq![out], ws) == seq![out] + surviving(Seq::<Seq<T>>::empty(), ws));
        assert(seq![out] + surviving(Seq::<Seq<T>>::empty(), ws) =~= seq![out]);
        assert(out + joined_tail(Seq::<Seq<T>>::empty(), Seq::<T>::empty()) =~= out);
    }
}

/// The ASCII whitespace bytes: space, horizontal tab, line feed, vertical
/// tab, form feed, carriage return.
pub open spec fn is_ascii_ws(b: u8) -> bool {
    b == 0x20 || b == 0x09 || b == 0x0a || b == 0x0b || b == 0x0c || b == 0x0d
}

/// The byte whitespace policy as a predicate value.
pub open spec fn ascii_ws() -> spec_fn(u8) -> bool {
    |b: u8| is_ascii_ws(b)
}

} // verus!
