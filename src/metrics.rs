use vstd::prelude::*;
use vstd::std_specs::iter::IteratorSpec;

verus! {

/// Depth of a heading: the length of the leading run of `#` characters.
pub open spec fn heading_depth(s: Seq<char>) -> nat
    decreases s.len(),
{
    if s.len() > 0 && s[0] == '#' {
        1 + heading_depth(s.drop_first())
    } else {
        0
    }
}

/// Only the leading run of `#` counts: `k` of them followed by any other
/// character give depth `k`, whatever comes after; with `k` zero, a line that
/// does not start with `#` has depth 0.
pub proof fn lemma_depth_leading_run(k: nat, c: char, rest: Seq<char>)
    requires
        c != '#',
    ensures
        heading_depth(Seq::new(k, |i: int| '#') + seq![c] + rest) == k,
    decreases k,
{
    let s = Seq::new(k, |i: int| '#') + seq![c] + rest;
    if k > 0 {
        lemma_depth_leading_run((k - 1) as nat, c, rest);
        assert(s.drop_first() =~= Seq::new((k - 1) as nat, |i: int| '#') + seq![c] + rest);
    } else {
        assert(s[0] == c);
    }
}

/// Heading depth of the characters `cs[a..b]`.
pub(crate) fn depth_in(cs: &Vec<char>, a: usize, b: usize) -> (r: usize)
    requires
        a <= b <= cs@.len(),
    ensures
        r == heading_depth(cs@.subrange(a as int, b as int)),
{
    let mut i: usize = a;
    while i < b && cs[i] == '#'
        invariant
            a <= i <= b,
            b <= cs@.len(),
            heading_depth(cs@.subrange(a as int, b as int)) == (i - a) + heading_depth(
                cs@.subrange(i as int, b as int),
            ),
        decreases b - i,
    {
        proof {
            let t = cs@.subrange(i as int, b as int);
            assert(t.drop_first() =~= cs@.subrange(i + 1, b as int));
        }
        i = i + 1;
    }
    proof {
        let t = cs@.subrange(i as int, b as int);
        if t.len() > 0 {
            assert(t[0] == cs@[i as int]);
        }
    }
    i - a
}

/// Number of `#` characters that the line starts with.
pub fn count_leading_hashes(s: &str) -> (r: usize)
    ensures
        r == heading_depth(s@),
{
    let cs = chars_of(s);
    assert(cs@.subrange(0, cs@.len() as int) =~= s@);
    depth_in(&cs, 0, cs.len())
}

/// Characters with Unicode's White_Space property, as `char::is_whitespace`
/// documents them.
pub open spec fn is_space_char(c: char) -> bool {
    ('\u{9}' <= c && c <= '\u{d}') || c == ' ' || c == '\u{85}' || c == '\u{a0}'
        || c == '\u{1680}' || ('\u{2000}' <= c && c <= '\u{200a}') || c == '\u{2028}'
        || c == '\u{2029}' || c == '\u{202f}' || c == '\u{205f}' || c == '\u{3000}'
}

/// Whether `c` has the White_Space property.
pub fn is_space(c: char) -> (r: bool)
    ensures
        r == is_space_char(c),
{
    ('\u{9}' <= c && c <= '\u{d}') || c == ' ' || c == '\u{85}' || c == '\u{a0}'
        || c == '\u{1680}' || ('\u{2000}' <= c && c <= '\u{200a}') || c == '\u{2028}'
        || c == '\u{2029}' || c == '\u{202f}' || c == '\u{205f}' || c == '\u{3000}'
}

/// Weight of one whitespace character in an indentation.
pub open spec fn char_width(c: char) -> nat {
    if c == '\t' {
        4
    } else if c == ' ' {
        1
    } else {
        0
    }
}

/// Indentation width: over the leading run of whitespace, a tab counts 4 and a
/// space 1; the run ends at the first character that is not whitespace.
pub open spec fn indent_width(s: Seq<char>) -> nat
    decreases s.len(),
{
    if s.len() > 0 && is_space_char(s[0]) {
        char_width(s[0]) + indent_width(s.drop_first())
    } else {
        0
    }
}

/// How many times `c` occurs in `s`.
pub open spec fn count_char(s: Seq<char>, c: char) -> nat
    decreases s.len(),
{
    if s.len() == 0 {
        0
    } else {
        (if s[0] == c {
            1nat
        } else {
            0nat
        }) + count_char(s.drop_first(), c)
    }
}

/// A line made of a run of tabs and spaces and then a character that is not
/// whitespace has indentation width four per tab plus one per space; a line
/// that does not start with whitespace has width 0.
pub proof fn lemma_indent_counts(ws: Seq<char>, rest: Seq<char>)
    requires
        forall|i: int| 0 <= i < ws.len() ==> ws[i] == ' ' || ws[i] == '\t',
        rest.len() == 0 || !is_space_char(rest[0]),
    ensures
        indent_width(ws + rest) == 4 * count_char(ws, '\t') + count_char(ws, ' '),
        indent_width(rest) == 0,
    decreases ws.len(),
{
    if ws.len() > 0 {
        lemma_indent_counts(ws.drop_first(), rest);
        assert((ws + rest).drop_first() =~= ws.drop_first() + rest);
        assert((ws + rest)[0] == ws[0]);
    } else {
        assert(ws + rest =~= rest);
    }
}

/// Indentation width of a line.
pub fn count_leading_whitespace(s: &str) -> (r: usize)
    requires
        s@.len() <= usize::MAX / 4,
    ensures
        r == indent_width(s@),
{
    let cs = chars_of(s);
    let n = cs.len();
    let mut i: usize = 0;
    let mut w: usize = 0;
    assert(cs@.subrange(0, n as int) =~= s@);
    while i < n && is_space(cs[i])
        invariant
            i <= n,
            n == cs@.len(),
            n <= usize::MAX / 4,
            w <= 4 * i,
            indent_width(cs@) == w + indent_width(cs@.subrange(i as int, n as int)),
        decreases n - i,
    {
        let c = cs[i];
        proof {
            let t = cs@.subrange(i as int, n as int);
            assert(t.drop_first() =~= cs@.subrange(i + 1, n as int));
            assert(t[0] == c);
        }
        if c == '\t' {
            w = w + 4;
        } else if c == ' ' {
            w = w + 1;
        }
        i = i + 1;
    }
    proof {
        let t = cs@.subrange(i as int, n as int);
        if t.len() > 0 {
            assert(t[0] == cs@[i as int]);
        }
    }
    w
}

/// The characters of `s`, read once.
pub fn chars_of(s: &str) -> (r: Vec<char>)
    ensures
        r@ == s@,
{
    let mut it = s.chars();
    let mut v: Vec<char> = Vec::new();
    loop
        invariant
            v@ + it.remaining() == s@,
            it.obeys_prophetic_iter_laws(),
            it.decrease() is Some,
        ensures
            v@ == s@,
        decreases it.decrease()->0,
    {
        match it.next() {
            Some(c) => {
                v.push(c);
            },
            None => {
                assert(v@ + it.remaining() =~= v@);
                break;
            },
        }
    }
    v
}

} // verus!
