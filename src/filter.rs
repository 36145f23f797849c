use vstd::prelude::*;

use crate::metrics::{chars_of, depth_in, heading_depth};

verus! {

/// Position of the first newline in `s`, or its length when it has none.
pub open spec fn line_end(s: Seq<char>) -> nat
    decreases s.len(),
{
    if s.len() == 0 || s[0] == '\n' {
        0
    } else {
        1 + line_end(s.drop_first())
    }
}

/// A line ended by `\r\n` loses its carriage return.
pub open spec fn strip_cr(l: Seq<char>) -> Seq<char> {
    if l.len() > 0 && l.last() == '\r' {
        l.drop_last()
    } else {
        l
    }
}

/// The lines of a text: it is cut at each `\n`, a `\r` right before a `\n`
/// goes with the line ending, and a final line ending adds no empty line.
pub open spec fn split_lines(s: Seq<char>) -> Seq<Seq<char>>
    decreases s.len(),
{
    if s.len() == 0 {
        Seq::empty()
    } else if line_end(s) < s.len() {
        seq![strip_cr(s.subrange(0, line_end(s) as int))] + split_lines(
            s.subrange(line_end(s) as int + 1, s.len() as int),
        )
    } else {
        seq![s]
    }
}

/// Whether a line is a heading line: it starts with `#`.
pub open spec fn is_heading(l: Seq<char>) -> bool {
    l.len() > 0 && l[0] == '#'
}

/// The ancestor chain of the lines `ls`, read from the last one back; `last`
/// is the depth of the heading kept most recently, 0 while none is.
/// A heading is kept when it is shallower than that one.
pub open spec fn ancestors(ls: Seq<Seq<char>>, last: nat) -> Seq<Seq<char>>
    decreases ls.len(),
{
    if ls.len() == 0 {
        Seq::empty()
    } else if is_heading(ls.last()) && (last == 0 || heading_depth(ls.last()) < last) {
        ancestors(ls.drop_last(), heading_depth(ls.last())).push(ls.last())
    } else {
        ancestors(ls.drop_last(), last)
    }
}

/// Lines written one after another, each followed by a newline.
pub open spec fn join_lines(ls: Seq<Seq<char>>) -> Seq<char>
    decreases ls.len(),
{
    if ls.len() == 0 {
        Seq::empty()
    } else {
        ls[0] + seq!['\n'] + join_lines(ls.drop_first())
    }
}

/// The ancestor chain of a buffer of heading lines, as text.
pub open spec fn parent_chain(s: Seq<char>) -> Seq<char> {
    join_lines(ancestors(split_lines(s), 0))
}

proof fn lemma_line_end_at(t: Seq<char>, k: int)
    requires
        0 <= k <= t.len(),
        forall|j: int| 0 <= j < k ==> t[j] != '\n',
        k == t.len() || t[k] == '\n',
    ensures
        line_end(t) == k,
    decreases k,
{
    if k > 0 {
        lemma_line_end_at(t.drop_first(), k - 1);
    }
}

proof fn lemma_line_end_bounds(s: Seq<char>)
    ensures
        line_end(s) <= s.len(),
        forall|j: int| 0 <= j < line_end(s) ==> s[j] != '\n',
        line_end(s) < s.len() ==> s[line_end(s) as int] == '\n',
    decreases s.len(),
{
    if s.len() > 0 && s[0] != '\n' {
        lemma_line_end_bounds(s.drop_first());
        assert forall|j: int| 0 <= j < line_end(s) implies s[j] != '\n' by {
            if j > 0 {
                assert(s[j] == s.drop_first()[j - 1]);
            }
        }
    }
}

proof fn lemma_split_no_newline(s: Seq<char>)
    ensures
        forall|k: int, j: int|
            0 <= k < split_lines(s).len() && 0 <= j < split_lines(s)[k].len() ==> #[trigger] split_lines(s)[k][j] != '\n',
    decreases s.len(),
{
    if s.len() > 0 {
        lemma_line_end_bounds(s);
        if line_end(s) < s.len() {
            let rest = s.subrange(line_end(s) as int + 1, s.len() as int);
            lemma_split_no_newline(rest);
            let first = strip_cr(s.subrange(0, line_end(s) as int));
            assert forall|k: int, j: int|
                0 <= k < split_lines(s).len() && 0 <= j < split_lines(s)[k].len() implies #[trigger] split_lines(s)[k][j] != '\n' by {
                if k > 0 {
                    assert(split_lines(s)[k] == split_lines(rest)[k - 1]);
                } else {
                    assert(split_lines(s)[k] == first);
                    assert(first[j] == s[j]);
                }
            }
        } else {
            assert forall|k: int, j: int|
                0 <= k < split_lines(s).len() && 0 <= j < split_lines(s)[k].len() implies #[trigger] split_lines(s)[k][j] != '\n' by {
                assert(split_lines(s)[k] == s);
            }
        }
    }
}

proof fn lemma_ancestors_from(ls: Seq<Seq<char>>, last: nat)
    ensures
        forall|i: int|
            0 <= i < ancestors(ls, last).len() ==> ls.contains(#[trigger] ancestors(ls, last)[i]),
        forall|i: int| 0 <= i < ancestors(ls, last).len() ==> is_heading(#[trigger] ancestors(ls, last)[i]),
        forall|i: int|
            0 <= i < ancestors(ls, last).len() && last != 0 ==> heading_depth(
                #[trigger] ancestors(ls, last)[i],
            ) < last,
        forall|i: int, j: int|
            0 <= i < j < ancestors(ls, last).len() ==> heading_depth(#[trigger] ancestors(ls, last)[i])
                < heading_depth(#[trigger] ancestors(ls, last)[j]),
    decreases ls.len(),
{
    if ls.len() > 0 {
        let l = ls.last();
        let pre = ls.drop_last();
        let a = ancestors(ls, last);
        if is_heading(l) && (last == 0 || heading_depth(l) < last) {
            lemma_ancestors_from(pre, heading_depth(l));
            let b = ancestors(pre, heading_depth(l));
            assert(a == b.push(l));
            assert forall|i: int| 0 <= i < a.len() implies ls.contains(#[trigger] a[i]) by {
                if i < b.len() {
                    assert(pre.contains(b[i]));
                    let q = choose|q: int| 0 <= q < pre.len() && pre[q] == b[i];
                    assert(ls[q] == b[i]);
                } else {
                    assert(ls[ls.len() - 1] == a[i]);
                }
            }
        } else {
            lemma_ancestors_from(pre, last);
            let b = ancestors(pre, last);
            assert forall|i: int| 0 <= i < a.len() implies ls.contains(#[trigger] a[i]) by {
                assert(pre.contains(b[i]));
                let q = choose|q: int| 0 <= q < pre.len() && pre[q] == b[i];
                assert(ls[q] == b[i]);
            }
        }
    }
}

/// Every line of an ancestor chain is a heading, and in printed order each
/// heading is strictly deeper than every one before it, so no two share a
/// depth.
pub proof fn lemma_chain_depths_increase(s: Seq<char>)
    ensures
        forall|i: int|
            0 <= i < ancestors(split_lines(s), 0).len() ==> is_heading(
                #[trigger] ancestors(split_lines(s), 0)[i],
            ),
        forall|i: int, j: int|
            0 <= i < j < ancestors(split_lines(s), 0).len() ==> heading_depth(
                #[trigger] ancestors(split_lines(s), 0)[i],
            ) < heading_depth(#[trigger] ancestors(split_lines(s), 0)[j]),
{
    lemma_ancestors_from(split_lines(s), 0);
}

proof fn lemma_ancestors_of_chain(ls: Seq<Seq<char>>, last: nat)
    requires
        forall|i: int| 0 <= i < ls.len() ==> is_heading(#[trigger] ls[i]),
        forall|i: int| 0 <= i < ls.len() && last != 0 ==> heading_depth(#[trigger] ls[i]) < last,
        forall|i: int, j: int|
            0 <= i < j < ls.len() ==> heading_depth(#[trigger] ls[i]) < heading_depth(#[trigger] ls[j]),
    ensures
        ancestors(ls, last) == ls,
    decreases ls.len(),
{
    if ls.len() > 0 {
        let l = ls.last();
        let pre = ls.drop_last();
        assert(is_heading(ls[ls.len() - 1]));
        assert forall|i: int| 0 <= i < pre.len() implies heading_depth(#[trigger] pre[i]) < heading_depth(l) by {
            assert(pre[i] == ls[i]);
        }
        lemma_ancestors_of_chain(pre, heading_depth(l));
        assert(pre.push(l) =~= ls);
    }
}

proof fn lemma_split_join(ls: Seq<Seq<char>>)
    requires
        forall|k: int, j: int| 0 <= k < ls.len() && 0 <= j < ls[k].len() ==> #[trigger] ls[k][j] != '\n',
        forall|k: int| 0 <= k < ls.len() ==> !(#[trigger] ls[k].len() > 0 && ls[k].last() == '\r'),
    ensures
        split_lines(join_lines(ls)) == ls,
    decreases ls.len(),
{
    if ls.len() > 0 {
        let l = ls[0];
        let rest = ls.drop_first();
        let t = join_lines(ls);
        lemma_split_join(rest);
        assert(t == l + seq!['\n'] + join_lines(rest));
        assert forall|j: int| 0 <= j < l.len() implies t[j] != '\n' by {
            assert(t[j] == ls[0][j]);
        }
        lemma_line_end_at(t, l.len() as int);
        assert(t.subrange(0, l.len() as int) =~= l);
        assert(t.subrange(l.len() as int + 1, t.len() as int) =~= join_lines(rest));
        assert(!(ls[0].len() > 0 && ls[0].last() == '\r'));
        assert(split_lines(t) =~= ls);
    } else {
        assert(join_lines(ls) =~= Seq::<char>::empty());
    }
}

/// Filtering an ancestor chain again gives it back unchanged, as long as none
/// of its lines ends in a carriage return (such a line would lose it as the
/// chain is read back).
pub proof fn lemma_filter_idempotent(s: Seq<char>)
    requires
        forall|i: int|
            0 <= i < ancestors(split_lines(s), 0).len() ==> !((#[trigger] ancestors(split_lines(s), 0)[i]).len()
                > 0 && ancestors(split_lines(s), 0)[i].last() == '\r'),
    ensures
        parent_chain(parent_chain(s)) == parent_chain(s),
{
    let ls = split_lines(s);
    let c = ancestors(ls, 0);
    lemma_ancestors_from(ls, 0);
    lemma_split_no_newline(s);
    assert forall|k: int, j: int| 0 <= k < c.len() && 0 <= j < c[k].len() implies #[trigger] c[k][j] != '\n' by {
        assert(ls.contains(c[k]));
        let q = choose|q: int| 0 <= q < ls.len() && ls[q] == c[k];
        assert(ls[q][j] != '\n');
    }
    lemma_split_join(c);
    lemma_ancestors_of_chain(c, 0);
}

/// Splits `cs` into line ranges `(start, end)`, one for each of its lines.
fn line_ranges(cs: &Vec<char>) -> (r: Vec<(usize, usize)>)
    ensures
        r@.len() == split_lines(cs@).len(),
        forall|k: int|
            0 <= k < r@.len() ==> (#[trigger] r@[k]).0 <= r@[k].1 <= cs@.len() && cs@.subrange(
                r@[k].0 as int,
                r@[k].1 as int,
            ) == split_lines(cs@)[k],
{
    let n = cs.len();
    let mut r: Vec<(usize, usize)> = Vec::new();
    let ghost mut done: Seq<Seq<char>> = Seq::empty();
    let mut start: usize = 0;
    let mut i: usize = 0;
    assert(cs@.subrange(0, n as int) =~= cs@);
    while i < n
        invariant
            n == cs@.len(),
            start <= i <= n,
            forall|j: int| start <= j < i ==> cs@[j] != '\n',
            split_lines(cs@) == done + split_lines(cs@.subrange(start as int, n as int)),
            r@.len() == done.len(),
            forall|k: int|
                0 <= k < r@.len() ==> (#[trigger] r@[k]).0 <= r@[k].1 <= cs@.len() && cs@.subrange(
                    r@[k].0 as int,
                    r@[k].1 as int,
                ) == done[k],
        decreases n - i,
    {
        if cs[i] == '\n' {
            let ghost t = cs@.subrange(start as int, n as int);
            proof {
                lemma_line_end_at(t, i - start);
                assert(t.subrange(0, i - start) =~= cs@.subrange(start as int, i as int));
                assert(t.subrange(i - start + 1, t.len() as int) =~= cs@.subrange(
                    i + 1,
                    n as int,
                ));
            }
            let mut end: usize = i;
            if i > start && cs[i - 1] == '\r' {
                end = i - 1;
            }
            proof {
                let l = cs@.subrange(start as int, i as int);
                assert(strip_cr(l) =~= cs@.subrange(start as int, end as int));
                done = done.push(strip_cr(l));
                assert(split_lines(cs@) =~= done + split_lines(cs@.subrange(i + 1, n as int)));
            }
            r.push((start, end));
            assert(r@.last() == (start, end));
            start = i + 1;
        }
        i = i + 1;
    }
    if start < n {
        proof {
            let t = cs@.subrange(start as int, n as int);
            lemma_line_end_at(t, t.len() as int);
            done = done.push(t);
            assert(split_lines(cs@) =~= done);
        }
        r.push((start, n));
    } else {
        assert(split_lines(cs@) =~= done);
    }
    r
}

/// The ancestor chain that a task after the heading lines in `s` needs: read
/// from the last line back, a heading is kept when it is shallower than the
/// heading kept before it (the first one always is); lines that do not start
/// with `#` are skipped. The kept lines come out in their order in `s`, each
/// followed by a newline.
pub fn filter_headers_to_parents(s: &str) -> (r: String)
    ensures
        r@ == parent_chain(s@),
{
    let cs = chars_of(s);
    let ranges = line_ranges(&cs);
    let ghost ls = split_lines(s@);
    let mut result = String::new();
    let ghost mut kept: Seq<Seq<char>> = Seq::empty();
    let mut last: usize = 0;
    let mut k: usize = ranges.len();
    assert(ls.subrange(0, k as int) =~= ls);
    while k > 0
        invariant
            k <= ranges@.len(),
            ranges@.len() == ls.len(),
            ls == split_lines(s@),
            cs@ == s@,
            forall|q: int|
                0 <= q < ranges@.len() ==> (#[trigger] ranges@[q]).0 <= ranges@[q].1 <= s@.len()
                    && s@.subrange(ranges@[q].0 as int, ranges@[q].1 as int) == ls[q],
            ancestors(ls, 0) == ancestors(ls.subrange(0, k as int), last as nat) + kept,
            result@ == join_lines(kept),
        decreases k,
    {
        let (a, b) = ranges[k - 1];
        let ghost pre = ls.subrange(0, k as int);
        proof {
            assert(cs@.subrange(a as int, b as int) == ls[k - 1]);
            if a < b {
                assert(ls[k - 1][0] == cs@[a as int]);
            }
            assert(pre.last() == ls[k - 1]);
            assert(pre.drop_last() =~= ls.subrange(0, k - 1));
        }
        if a < b && cs[a] == '#' {
            let d = depth_in(&cs, a, b);
            if last == 0 || d < last {
                let line = s.substring_char(a, b);
                let ghost old_kept = kept;
                proof {
                    kept = seq![line@] + kept;
                    assert(kept.drop_first() =~= old_kept);
                    let base = ancestors(ls.subrange(0, k - 1), d as nat);
                    assert(base.push(line@) + old_kept =~= base + kept);
                }
                let mut t = String::from_str(line);
                t.append("\n");
                t.append(result.as_str());
                proof {
                    reveal_strlit("\n");
                    assert(kept[0] == line@);
                    assert(t@ =~= kept[0] + seq!['\n'] + join_lines(kept.drop_first()));
                }
                result = t;
                last = d;
            }
        }
        k = k - 1;
    }
    assert(kept =~= ancestors(ls, 0));
    result
}

} // verus!
