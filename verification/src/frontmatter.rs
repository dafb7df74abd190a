//! Splitting a content file into its front matter (between two `---` lines
//! at the top) and its body.

use vstd::prelude::*;
use crate::text::{chars_of, extend, index_of, lemma_index_of_bounds, lines, lines_of, strip_cr, string_of, trim, trim_range, views};

verus! {

/// A line that is `---` once trimmed.
pub open spec fn is_rule(l: Seq<char>) -> bool {
    let t = trim(l);
    t.len() == 3 && t[0] == '-' && t[1] == '-' && t[2] == '-'
}

/// The first position at or after `i` that holds a `---` line, or the
/// number of lines when there is none.
pub open spec fn next_rule(ls: Seq<Seq<char>>, i: int) -> int
    decreases ls.len() - i,
{
    if i >= ls.len() {
        ls.len() as int
    } else if is_rule(ls[i]) {
        i
    } else {
        next_rule(ls, i + 1)
    }
}

/// The lines, each followed by a line feed.
pub open spec fn with_newlines(ls: Seq<Seq<char>>) -> Seq<char>
    decreases ls.len(),
{
    if ls.len() == 0 {
        Seq::empty()
    } else {
        with_newlines(ls.drop_last()) + ls.last() + seq!['\n']
    }
}

/// The lines joined by line feeds.
pub open spec fn join_lines(ls: Seq<Seq<char>>) -> Seq<char>
    decreases ls.len(),
{
    if ls.len() == 0 {
        Seq::empty()
    } else if ls.len() == 1 {
        ls[0]
    } else {
        join_lines(ls.drop_last()) + seq!['\n'] + ls.last()
    }
}

/// Front matter and body of a text: when its first line is `---`, the front
/// matter is the lines up to the next `---` line (each ended by a line
/// feed) and the body is the lines after it, joined by line feeds (nothing
/// when the front matter is not closed); otherwise there is no front matter
/// and the body is the whole text.
pub open spec fn split_front(t: Seq<char>) -> (Seq<char>, Seq<char>) {
    let ls = lines(t);
    if ls.len() > 0 && is_rule(ls[0]) {
        let k = next_rule(ls, 1);
        (
            with_newlines(ls.subrange(1, k)),
            if k < ls.len() {
                join_lines(ls.subrange(k + 1, ls.len() as int))
            } else {
                Seq::empty()
            },
        )
    } else {
        (Seq::empty(), t)
    }
}

fn rule(l: &Vec<char>) -> (r: bool)
    ensures
        r == is_rule(l@),
{
    let (a, b) = trim_range(l.as_slice(), 0, l.len());
    assert(l@.subrange(0, l@.len() as int) =~= l@);
    b - a == 3 && l[a] == '-' && l[a + 1] == '-' && l[a + 2] == '-'
}

proof fn lemma_next_rule_bounds(ls: Seq<Seq<char>>, i: int)
    requires
        0 <= i,
    ensures
        i <= next_rule(ls, i) || i >= ls.len(),
        next_rule(ls, i) <= ls.len(),
    decreases ls.len() - i,
{
    if i < ls.len() && !is_rule(ls[i]) {
        lemma_next_rule_bounds(ls, i + 1);
    }
}

/// Split a content file into its front matter and its body.
pub fn split_frontmatter(txt: &str) -> (r: (String, String))
    ensures
        (r.0@, r.1@) == split_front(txt@),
{
    let chars = chars_of(txt);
    let ls = lines_of(chars.as_slice());
    let ghost lv = views(ls@);
    if ls.len() > 0 && rule(&ls[0]) {
        let mut fm: Vec<char> = Vec::new();
        let mut i: usize = 1;
        proof {
            assert(ls@.subrange(1, 1).len() == 0);
            assert(lv.subrange(1, 1) =~= Seq::<Seq<char>>::empty());
        }
        while i < ls.len() && !rule(&ls[i])
            invariant
                1 <= i <= ls@.len(),
                lv == views(ls@),
                next_rule(lv, i as int) == next_rule(lv, 1),
                fm@ == with_newlines(lv.subrange(1, i as int)),
            decreases ls@.len() - i,
        {
            let ghost before = fm@;
            extend(&mut fm, ls[i].as_slice());
            fm.push('\n');
            proof {
                assert(lv.subrange(1, i + 1).drop_last() =~= lv.subrange(1, i as int));
            }
            i = i + 1;
        }
        proof {
            lemma_next_rule_bounds(lv, 1);
        }
        let k = i;
        let mut body: Vec<char> = Vec::new();
        if k < ls.len() {
            let mut j: usize = k + 1;
            assert(lv.subrange(k + 1, k + 1) =~= Seq::<Seq<char>>::empty());
            while j < ls.len()
                invariant
                    k + 1 <= j <= ls@.len(),
                    lv == views(ls@),
                    body@ == join_lines(lv.subrange(k + 1, j as int)),
                decreases ls@.len() - j,
            {
                if j > k + 1 {
                    body.push('\n');
                }
                extend(&mut body, ls[j].as_slice());
                proof {
                    let p = lv.subrange(k + 1, j + 1);
                    assert(p.drop_last() =~= lv.subrange(k + 1, j as int));
                }
                j = j + 1;
            }
        }
        (string_of(fm.as_slice()), string_of(body.as_slice()))
    } else {
        proof {
            assert(chars@ == txt@);
        }
        (String::new(), string_of(chars.as_slice()))
    }
}

proof fn lemma_with_newlines_prepend(a: Seq<char>, ls: Seq<Seq<char>>)
    ensures
        with_newlines(seq![a] + ls).len() == a.len() + 1 + with_newlines(ls).len(),
    decreases ls.len(),
{
    let s2 = seq![a] + ls;
    if ls.len() > 0 {
        assert(s2.drop_last() =~= seq![a] + ls.drop_last());
        assert(s2.last() == ls.last());
        lemma_with_newlines_prepend(a, ls.drop_last());
        assert(with_newlines(s2) == with_newlines(s2.drop_last()) + s2.last() + seq!['\n']);
        assert(with_newlines(ls) == with_newlines(ls.drop_last()) + ls.last() + seq!['\n']);
    } else {
        assert(s2 =~= seq![a]);
        assert(s2.drop_last() =~= Seq::<Seq<char>>::empty());
        assert(s2.last() == a);
        assert(with_newlines(s2) == with_newlines(s2.drop_last()) + s2.last() + seq!['\n']);
        assert(with_newlines(ls) == Seq::<char>::empty());
    }
}

proof fn lemma_with_newlines_prefix(ls: Seq<Seq<char>>, k: int, n: int)
    requires
        0 <= k <= n <= ls.len(),
    ensures
        with_newlines(ls.subrange(0, k)).len() <= with_newlines(ls.subrange(0, n)).len(),
    decreases n - k,
{
    if k < n {
        assert(ls.subrange(0, n).drop_last() =~= ls.subrange(0, n - 1));
        lemma_with_newlines_prefix(ls, k, n - 1);
    }
}

proof fn lemma_lines_length(t: Seq<char>)
    ensures
        with_newlines(lines(t)).len() <= t.len() + 1,
    decreases t.len(),
{
    if t.len() > 0 {
        let i = index_of(t, '\n');
        lemma_index_of_bounds(t, '\n');
        if i >= t.len() {
            assert(seq![t].drop_last() =~= Seq::<Seq<char>>::empty());
            assert(seq![t].last() == t);
            assert(lines(t) == seq![t]);
            assert(with_newlines(seq![t]) == with_newlines(seq![t].drop_last()) + t + seq!['\n']);
        } else {
            let rest = t.subrange(i + 1int, t.len() as int);
            let first = strip_cr(t.subrange(0, i as int));
            lemma_lines_length(rest);
            lemma_with_newlines_prepend(first, lines(rest));
            assert(lines(t) == seq![first] + lines(rest));
            assert(first.len() <= i);
        }
    }
}

/// The front matter of a text is shorter than the text.
pub proof fn lemma_front_shorter(t: Seq<char>)
    ensures
        split_front(t).0.len() <= t.len(),
{
    let ls = lines(t);
    if ls.len() > 0 && is_rule(ls[0]) {
        let k = next_rule(ls, 1);
        lemma_next_rule_bounds(ls, 1);
        lemma_lines_length(t);
        assert(ls.subrange(0, k) =~= seq![ls[0]] + ls.subrange(1, k));
        lemma_with_newlines_prepend(ls[0], ls.subrange(1, k));
        lemma_with_newlines_prefix(ls, k, ls.len() as int);
        assert(ls.subrange(0, ls.len() as int) =~= ls);
    }
}

} // verus!
