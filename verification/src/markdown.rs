//! The Markdown subset of the content bodies, converted to HTML: `#`
//! headings, `-`/`*` bullet lists, paragraphs, `**bold**` and `*italic*`,
//! with `&`, `<` and `>` escaped.

use vstd::prelude::*;
use crate::text::{
    chars_of, extend, subrange_vec, index_of, is_ws, lines, lines_of, push_text, string_of, trim, trim_range,
    trim_start, trim_start_from, views, strip_cr, lemma_index_of_is,
};

verus! {

/// The first position at which `d` occurs in `s`, or -1 when it does not.
pub open spec fn find(s: Seq<char>, d: Seq<char>) -> int
    decreases s.len(),
{
    if d.len() == 0 {
        0
    } else if s.len() < d.len() {
        -1
    } else if s.subrange(0, d.len() as int) == d {
        0
    } else {
        let k = find(s.drop_first(), d);
        if k < 0 {
            -1
        } else {
            k + 1
        }
    }
}

/// A match found by `find` lies within the text.
pub proof fn lemma_find_bounds(s: Seq<char>, d: Seq<char>)
    ensures
        find(s, d) >= 0 ==> find(s, d) + d.len() <= s.len(),
        find(s, d) >= -1,
    decreases s.len(),
{
    if d.len() > 0 && s.len() >= d.len() && s.subrange(0, d.len() as int) != d {
        lemma_find_bounds(s.drop_first(), d);
    }
}

/// Every other occurrence of `d` replaced by `open`, the ones in between by
/// `close` (starting with `open` when `opening`).
pub open spec fn replace_pairs(s: Seq<char>, d: Seq<char>, open: Seq<char>, close: Seq<char>, opening: bool) -> Seq<char>
    decreases s.len(),
{
    if d.len() == 0 {
        s
    } else {
        let k = find(s, d);
        if k < 0 {
            s
        } else {
            proof {
                lemma_find_bounds(s, d);
            }
            s.subrange(0, k) + (if opening { open } else { close }) + replace_pairs(
                s.subrange(k + d.len(), s.len() as int),
                d,
                open,
                close,
                !opening,
            )
        }
    }
}

/// HTML escaping of `&`, `<` and `>`.
pub open spec fn escape(s: Seq<char>) -> Seq<char>
    decreases s.len(),
{
    if s.len() == 0 {
        Seq::empty()
    } else {
        escape(s.drop_last()) + if s.last() == '&' {
            "&amp;"@
        } else if s.last() == '<' {
            "&lt;"@
        } else if s.last() == '>' {
            "&gt;"@
        } else {
            seq![s.last()]
        }
    }
}

/// Inline Markdown: escaped text with `**bold**` and then `*italic*`.
pub open spec fn inline(s: Seq<char>) -> Seq<char> {
    replace_pairs(
        replace_pairs(escape(s), "**"@, "<strong>"@, "</strong>"@, true),
        "*"@,
        "<em>"@,
        "</em>"@,
        true,
    )
}

/// The conversion state after some lines: the HTML so far, whether a list
/// is open, and the paragraph being gathered.
#[verifier::ext_equal]
pub struct MdState {
    pub out: Seq<char>,
    pub in_list: bool,
    pub para: Seq<char>,
}

/// Close an open list.
pub open spec fn close_list(st: MdState) -> MdState {
    if st.in_list {
        MdState { out: st.out + "</ul>\n"@, in_list: false, para: st.para }
    } else {
        st
    }
}

/// End the current block: close an open list, then emit the gathered
/// paragraph, if any.
pub open spec fn flush(st: MdState) -> MdState {
    let c = close_list(st);
    if c.para.len() == 0 {
        c
    } else {
        MdState {
            out: c.out + "<p>"@ + inline(trim(c.para)) + "</p>\n"@,
            in_list: false,
            para: Seq::empty(),
        }
    }
}

/// `t` starts with the two characters `a` and `b`.
pub open spec fn starts2(t: Seq<char>, a: char, b: char) -> bool {
    t.len() >= 2 && t[0] == a && t[1] == b
}

/// One line of Markdown applied to the state.
pub open spec fn md_step(st: MdState, line: Seq<char>) -> MdState {
    let t = trim_start(line);
    if starts2(t, '#', ' ') {
        let f = flush(st);
        MdState {
            out: f.out + "<h2>"@ + inline(trim(t.subrange(2, t.len() as int))) + "</h2>\n"@,
            ..f
        }
    } else if t.len() >= 3 && t[0] == '#' && t[1] == '#' && t[2] == ' ' {
        let f = flush(st);
        MdState {
            out: f.out + "<h3>"@ + inline(trim(t.subrange(3, t.len() as int))) + "</h3>\n"@,
            ..f
        }
    } else if t.len() >= 1 && t[0] == '#' {
        let f = flush(st);
        let hs = index_of(t, ' ');
        MdState {
            out: f.out + "<h3>"@ + inline(trim(t.subrange(hs as int, t.len() as int)))
                + "</h3>\n"@,
            ..f
        }
    } else if starts2(t, '-', ' ') || starts2(t, '*', ' ') {
        let f = if st.para.len() > 0 {
            flush(st)
        } else {
            st
        };
        let g = if !f.in_list {
            MdState { out: f.out + "<ul>\n"@, in_list: true, para: f.para }
        } else {
            f
        };
        MdState {
            out: g.out + "<li>"@ + inline(trim(t.subrange(2, t.len() as int))) + "</li>\n"@,
            ..g
        }
    } else if t.len() == 0 {
        flush(st)
    } else {
        let c = close_list(st);
        MdState {
            para: if c.para.len() > 0 {
                c.para + seq![' '] + t
            } else {
                t
            },
            ..c
        }
    }
}

/// The state after the given lines.
pub open spec fn md_lines(ls: Seq<Seq<char>>) -> MdState
    decreases ls.len(),
{
    if ls.len() == 0 {
        MdState { out: Seq::empty(), in_list: false, para: Seq::empty() }
    } else {
        md_step(md_lines(ls.drop_last()), ls.last())
    }
}

/// The HTML of a Markdown text.
pub open spec fn md_html(md: Seq<char>) -> Seq<char> {
    flush(md_lines(lines(md))).out
}

proof fn lemma_find_at(s: Seq<char>, d: Seq<char>, k: int)
    requires
        d.len() > 0,
        0 <= k,
        k + d.len() <= s.len(),
        s.subrange(k, k + d.len()) == d,
        forall|i: int| 0 <= i < k ==> #[trigger] s.subrange(i, i + d.len()) != d,
    ensures
        find(s, d) == k,
    decreases s.len(),
{
    if k > 0 {
        let t = s.drop_first();
        assert(s.subrange(0int, 0int + d.len()) != d);
        assert(t.subrange(k - 1, k - 1 + d.len()) =~= s.subrange(k, k + d.len()));
        assert forall|i: int| 0 <= i < k - 1 implies #[trigger] t.subrange(i, i + d.len()) != d by {
            assert(t.subrange(i, i + d.len()) =~= s.subrange(i + 1, i + 1 + d.len()));
        }
        lemma_find_at(t, d, k - 1);
    }
}

proof fn lemma_find_none(s: Seq<char>, d: Seq<char>)
    requires
        d.len() > 0,
        forall|i: int| 0 <= i && i + d.len() <= s.len() ==> #[trigger] s.subrange(i, i + d.len()) != d,
    ensures
        find(s, d) == -1,
    decreases s.len(),
{
    if s.len() >= d.len() {
        let t = s.drop_first();
        assert(s.subrange(0int, 0int + d.len()) != d);
        assert forall|i: int| 0 <= i && i + d.len() <= t.len() implies #[trigger] t.subrange(
            i,
            i + d.len(),
        ) != d by {
            assert(t.subrange(i, i + d.len()) =~= s.subrange(i + 1, i + 1 + d.len()));
        }
        lemma_find_none(t, d);
    }
}

fn matches_at(s: &[char], j: usize, d: &[char]) -> (r: bool)
    requires
        j + d@.len() <= s@.len(),
    ensures
        r == (s@.subrange(j as int, j + d@.len()) == d@),
{
    let n = s.len();
    let mut k: usize = 0;
    while k < d.len()
        invariant
            n == s@.len(),
            j + d@.len() <= n,
            k <= d@.len(),
            forall|x: int| 0 <= x < k ==> s@[j + x] == d@[x],
        decreases d@.len() - k,
    {
        if s[j + k] != d[k] {
            assert(s@.subrange(j as int, j + d@.len())[k as int] != d@[k as int]);
            return false;
        }
        k = k + 1;
    }
    assert(s@.subrange(j as int, j + d@.len()) =~= d@);
    true
}

/// Replace the occurrences of `d` in `s` by `open` and `close` in turn.
pub fn replace_pairs_of(s: &[char], d: &[char], open: &[char], close: &[char]) -> (r: Vec<char>)
    requires
        d@.len() > 0,
    ensures
        r@ == replace_pairs(s@, d@, open@, close@, true),
{
    let n = s.len();
    let dl = d.len();
    let mut out: Vec<char> = Vec::new();
    let mut pos: usize = 0;
    let mut opening = true;
    assert(s@.subrange(0, n as int) =~= s@);
    loop
        invariant
            n == s@.len(),
            dl == d@.len(),
            dl > 0,
            pos <= n,
            out@ + replace_pairs(s@.subrange(pos as int, n as int), d@, open@, close@, opening)
                == replace_pairs(s@, d@, open@, close@, true),
        decreases n - pos,
    {
        let ghost rest = s@.subrange(pos as int, n as int);
        let mut j = pos;
        let mut found = false;
        while j <= n && dl <= n - j && !found
            invariant
                n == s@.len(),
                dl == d@.len(),
                dl > 0,
                pos <= j <= n,
                found ==> j + dl <= n && s@.subrange(j as int, j + dl) == d@,
                forall|i: int| pos <= i < j && i + dl <= n ==> #[trigger] s@.subrange(i, i + dl) != d@,
                !found ==> forall|i: int| pos <= i < j ==> #[trigger] s@.subrange(i, i + dl) != d@,
            decreases n + 1 - j - (if found { 1int } else { 0 }),
        {
            if matches_at(s, j, d) {
                found = true;
            } else {
                j = j + 1;
            }
        }
        if !found {
            proof {
                assert forall|i: int| 0 <= i && i + dl <= rest.len() implies #[trigger] rest.subrange(
                    i,
                    i + dl,
                ) != d@ by {
                    assert(rest.subrange(i, i + dl) =~= s@.subrange(pos + i, pos + i + dl));
                }
                lemma_find_none(rest, d@);
            }
            let tail = subrange_vec(s, pos, n);
            extend(&mut out, tail.as_slice());
            return out;
        }
        proof {
            assert(rest.subrange(j - pos, j - pos + dl) =~= s@.subrange(j as int, j + dl));
            assert forall|i: int| 0 <= i < j - pos implies #[trigger] rest.subrange(i, i + dl) != d@ by {
                assert(rest.subrange(i, i + dl) =~= s@.subrange(pos + i, pos + i + dl));
            }
            lemma_find_at(rest, d@, j - pos);
            assert(rest.subrange(0, j - pos) =~= s@.subrange(pos as int, j as int));
            assert(rest.subrange(j - pos + dl, rest.len() as int) =~= s@.subrange(
                j + dl,
                n as int,
            ));
        }
        let piece = subrange_vec(s, pos, j);
        let ghost before = out@;
        extend(&mut out, piece.as_slice());
        if opening {
            extend(&mut out, open);
        } else {
            extend(&mut out, close);
        }
        proof {
            assert(out@ + replace_pairs(s@.subrange(j + dl, n as int), d@, open@, close@, !opening)
                =~= before + replace_pairs(rest, d@, open@, close@, opening));
        }
        pos = j + dl;
        opening = !opening;
    }
}

/// Escape `&`, `<` and `>` for HTML.
fn escape_of(s: &[char]) -> (r: Vec<char>)
    ensures
        r@ == escape(s@),
{
    let mut out: Vec<char> = Vec::new();
    let mut i: usize = 0;
    while i < s.len()
        invariant
            i <= s@.len(),
            out@ == escape(s@.subrange(0, i as int)),
        decreases s@.len() - i,
    {
        let c = s[i];
        if c == '&' {
            push_text(&mut out, "&amp;");
        } else if c == '<' {
            push_text(&mut out, "&lt;");
        } else if c == '>' {
            push_text(&mut out, "&gt;");
        } else {
            out.push(c);
        }
        assert(s@.subrange(0, i + 1).drop_last() =~= s@.subrange(0, i as int));
        i = i + 1;
    }
    assert(s@.subrange(0, s@.len() as int) =~= s@);
    out
}

/// Inline Markdown of `s`: escaped, with bold and italic.
fn inline_of(s: &[char]) -> (r: Vec<char>)
    ensures
        r@ == inline(s@),
{
    let e = escape_of(s);
    let two = chars_of("**");
    let one = chars_of("*");
    proof {
        reveal_strlit("**");
        reveal_strlit("*");
    }
    let b = replace_pairs_of(
        e.as_slice(),
        two.as_slice(),
        chars_of("<strong>").as_slice(),
        chars_of("</strong>").as_slice(),
    );
    replace_pairs_of(b.as_slice(), one.as_slice(), chars_of("<em>").as_slice(), chars_of("</em>").as_slice())
}

fn close_list_of(out: &mut Vec<char>, in_list: &mut bool)
    ensures
        ({
            let c = close_list(MdState { out: old(out)@, in_list: *old(in_list), para: Seq::empty() });
            final(out)@ == c.out && *final(in_list) == c.in_list
        }),
{
    if *in_list {
        push_text(out, "</ul>\n");
        *in_list = false;
    }
}

fn flush_of(out: &mut Vec<char>, in_list: &mut bool, para: &mut Vec<char>)
    ensures
        ({
            let f = flush(MdState { out: old(out)@, in_list: *old(in_list), para: old(para)@ });
            final(out)@ == f.out && *final(in_list) == f.in_list && final(para)@ == f.para
        }),
{
    close_list_of(out, in_list);
    if para.len() > 0 {
        push_text(out, "<p>");
        let (a, b) = trim_range(para.as_slice(), 0, para.len());
        assert(para@.subrange(0, para@.len() as int) =~= para@);
        let t = subrange_vec(para.as_slice(), a, b);
        let h = inline_of(t.as_slice());
        extend(out, h.as_slice());
        push_text(out, "</p>\n");
        *para = Vec::new();
    }
}

/// Emit a heading `<tag>inline(trim(t[from..]))</close>`.
fn heading_of(out: &mut Vec<char>, t: &[char], from: usize, open: &str, close: &str)
    requires
        from <= t@.len(),
    ensures
        final(out)@ == old(out)@ + open@ + inline(trim(t@.subrange(from as int, t@.len() as int)))
            + close@,
{
    push_text(out, open);
    let (a, b) = trim_range(t, from, t.len());
    let x = subrange_vec(t, a, b);
    let h = inline_of(x.as_slice());
    extend(out, h.as_slice());
    push_text(out, close);
}

/// Convert Markdown to HTML.
pub fn md_to_html(md: &str) -> (r: String)
    ensures
        r@ == md_html(md@),
{
    let chars = chars_of(md);
    let ls = lines_of(chars.as_slice());
    let ghost lv = views(ls@);
    let mut out: Vec<char> = Vec::new();
    let mut in_list = false;
    let mut para: Vec<char> = Vec::new();
    let mut i: usize = 0;
    assert(lv.subrange(0, 0) =~= Seq::<Seq<char>>::empty());
    while i < ls.len()
        invariant
            i <= ls@.len(),
            lv == views(ls@),
            md_lines(lv.subrange(0, i as int)) == (MdState { out: out@, in_list, para: para@ }),
        decreases ls@.len() - i,
    {
        let line = &ls[i];
        let ghost st = MdState { out: out@, in_list, para: para@ };
        let n = line.len();
        let s0 = trim_start_from(line.as_slice(), 0, n);
        let t = subrange_vec(line.as_slice(), s0, n);
        assert(line@.subrange(0, n as int) =~= line@);
        let tn = t.len();
        if tn >= 2 && t[0] == '#' && t[1] == ' ' {
            flush_of(&mut out, &mut in_list, &mut para);
            heading_of(&mut out, t.as_slice(), 2, "<h2>", "</h2>\n");
        } else if tn >= 3 && t[0] == '#' && t[1] == '#' && t[2] == ' ' {
            flush_of(&mut out, &mut in_list, &mut para);
            heading_of(&mut out, t.as_slice(), 3, "<h3>", "</h3>\n");
        } else if tn >= 1 && t[0] == '#' {
            flush_of(&mut out, &mut in_list, &mut para);
            let mut hs: usize = 0;
            while hs < tn && t[hs] != ' '
                invariant
                    hs <= tn == t@.len(),
                    forall|j: int| 0 <= j < hs ==> t@[j] != ' ',
                decreases tn - hs,
            {
                hs = hs + 1;
            }
            proof {
                crate::text::lemma_index_of_is(t@, ' ', hs as int);
            }
            heading_of(&mut out, t.as_slice(), hs, "<h3>", "</h3>\n");
        } else if tn >= 2 && (t[0] == '-' || t[0] == '*') && t[1] == ' ' {
            if para.len() > 0 {
                flush_of(&mut out, &mut in_list, &mut para);
            }
            if !in_list {
                push_text(&mut out, "<ul>\n");
                in_list = true;
            }
            heading_of(&mut out, t.as_slice(), 2, "<li>", "</li>\n");
        } else if tn == 0 {
            flush_of(&mut out, &mut in_list, &mut para);
        } else {
            close_list_of(&mut out, &mut in_list);
            if para.len() > 0 {
                para.push(' ');
            }
            extend(&mut para, t.as_slice());
        }
        proof {
            assert(lv.subrange(0, i + 1).drop_last() =~= lv.subrange(0, i as int));
            assert(md_step(st, line@) == (MdState { out: out@, in_list, para: para@ }));
        }
        i = i + 1;
    }
    assert(lv.subrange(0, ls@.len() as int) =~= lv);
    flush_of(&mut out, &mut in_list, &mut para);
    string_of(out.as_slice())
}

/* Laws of the conversion. */

/// A line of plain text: bare text that is not a heading or a list item.
pub open spec fn plain_text(a: Seq<char>) -> bool {
    &&& bare_text(a)
    &&& a[0] != '#'
    &&& !(a.len() >= 2 && a[0] == '-' && a[1] == ' ')
}

proof fn lemma_escape_plain(s: Seq<char>)
    requires
        forall|i: int| 0 <= i < s.len() ==> {
            let c = #[trigger] s[i];
            c != '&' && c != '<' && c != '>'
        },
    ensures
        escape(s) == s,
    decreases s.len(),
{
    if s.len() > 0 {
        lemma_escape_plain(s.drop_last());
        assert(s.drop_last() + seq![s.last()] =~= s);
    }
}

proof fn lemma_replace_absent(s: Seq<char>, d: Seq<char>, open: Seq<char>, close: Seq<char>)
    requires
        d.len() > 0,
        forall|i: int| 0 <= i < s.len() ==> #[trigger] s[i] != d[0],
    ensures
        replace_pairs(s, d, open, close, true) == s,
{
    assert forall|i: int| 0 <= i && i + d.len() <= s.len() implies #[trigger] s.subrange(
        i,
        i + d.len(),
    ) != d by {
        assert(s.subrange(i, i + d.len())[0] == s[i]);
    }
    lemma_find_none(s, d);
}

/// Text without line breaks, markup or escaped characters, and without
/// white space at its ends.
pub open spec fn bare_text(a: Seq<char>) -> bool {
    &&& a.len() > 0
    &&& !is_ws(a[0])
    &&& !is_ws(a.last())
    &&& forall|i: int|
        0 <= i < a.len() ==> {
            let c = #[trigger] a[i];
            c != '\n' && c != '\r' && c != '*' && c != '&' && c != '<' && c != '>'
        }
}

proof fn lemma_plain_unchanged(a: Seq<char>)
    requires
        bare_text(a),
    ensures
        trim_start(a) == a,
        trim(a) == a,
        inline(a) == a,
        strip_cr(a) == a,
{
    reveal_strlit("**");
    reveal_strlit("*");
    assert(trim_start(a) == a);
    assert(trim(a) == a);
    lemma_escape_plain(a);
    lemma_replace_absent(a, "**"@, "<strong>"@, "</strong>"@);
    lemma_replace_absent(a, "*"@, "<em>"@, "</em>"@);
}

proof fn lemma_lines_plain(a: Seq<char>, rest: Seq<char>)
    requires
        plain_text(a),
    ensures
        lines(a + seq!['\n'] + rest) == seq![a] + lines(rest),
        lines(a) == seq![a],
{
    let s = a + seq!['\n'] + rest;
    assert forall|j: int| 0 <= j < a.len() implies s[j] != '\n' by {
        assert(s[j] == a[j]);
    }
    lemma_index_of_is(s, '\n', a.len() as int);
    lemma_index_of_is(a, '\n', a.len() as int);
    lemma_plain_unchanged(a);
    assert(s.subrange(0, a.len() as int) =~= a);
    assert(s.subrange(a.len() + 1int, s.len() as int) =~= rest);
}

/// A blank line ends a paragraph: two lines of plain text separated by a
/// blank line give two paragraphs.
pub proof fn lemma_blank_line_ends_paragraph(a: Seq<char>, b: Seq<char>)
    requires
        plain_text(a),
        plain_text(b),
    ensures
        md_html(a + seq!['\n', '\n'] + b) == "<p>"@ + a + "</p>\n"@ + "<p>"@ + b + "</p>\n"@,
{
    let e = Seq::<char>::empty();
    lemma_plain_unchanged(a);
    lemma_plain_unchanged(b);
    assert(a + seq!['\n', '\n'] + b =~= a + seq!['\n'] + (seq!['\n'] + b));
    lemma_lines_plain(a, seq!['\n'] + b);
    lemma_lines_plain(b, e);
    let r = seq!['\n'] + b;
    lemma_index_of_is(r, '\n', 0);
    assert(r.subrange(0, 0) =~= e);
    assert(r.subrange(1, r.len() as int) =~= b);
    assert(strip_cr(e) == e);
    assert(lines(r) == seq![e] + lines(b));
    let ls = seq![a, e, b];
    assert(lines(a + seq!['\n', '\n'] + b) =~= ls);
    assert(ls.drop_last() =~= seq![a, e]);
    assert(seq![a, e].drop_last() =~= seq![a]);
    assert(seq![a].drop_last() =~= Seq::<Seq<char>>::empty());
    assert(trim_start(e) =~= e);
    let s0 = MdState { out: e, in_list: false, para: e };
    let s1 = md_step(s0, a);
    assert(s1 == MdState { out: e, in_list: false, para: a });
    assert(seq![a].drop_last() =~= Seq::<Seq<char>>::empty());
    assert(seq![a].last() == a);
    assert(md_lines(Seq::<Seq<char>>::empty()) == s0);
    assert(md_lines(seq![a]) == md_step(md_lines(seq![a].drop_last()), a));
    assert(md_lines(seq![a]) == s1);
    assert(seq![a, e].last() == e);
    assert(md_lines(seq![a, e]) == md_step(s1, e));
    let s2 = md_step(s1, e);
    assert(s2 == MdState { out: "<p>"@ + a + "</p>\n"@, in_list: false, para: e });
    let s3 = md_step(s2, b);
    assert(s3 == MdState { out: "<p>"@ + a + "</p>\n"@, in_list: false, para: b });
    assert(ls.last() == b);
    assert(md_lines(ls) == s3);
    assert(flush(s3).out =~= "<p>"@ + a + "</p>\n"@ + "<p>"@ + b + "</p>\n"@);
}

/// Consecutive lines of plain text form one paragraph, joined by a space.
pub proof fn lemma_lines_join_in_paragraph(a: Seq<char>, b: Seq<char>)
    requires
        plain_text(a),
        plain_text(b),
    ensures
        md_html(a + seq!['\n'] + b) == "<p>"@ + a + seq![' '] + b + "</p>\n"@,
{
    let e = Seq::<char>::empty();
    lemma_plain_unchanged(a);
    lemma_plain_unchanged(b);
    lemma_lines_plain(a, b);
    lemma_lines_plain(b, e);
    let ls = seq![a, b];
    assert(lines(a + seq!['\n'] + b) =~= ls);
    assert(ls.drop_last() =~= seq![a]);
    assert(seq![a].drop_last() =~= Seq::<Seq<char>>::empty());
    let j = a + seq![' '] + b;
    assert(bare_text(j)) by {
        assert(j[0] == a[0]);
        assert(j.last() == b.last());
        assert forall|i: int| 0 <= i < j.len() implies {
            let c = #[trigger] j[i];
            c != '\n' && c != '\r' && c != '*' && c != '&' && c != '<' && c != '>'
        } by {
            if i < a.len() {
                assert(j[i] == a[i]);
            } else if i > a.len() {
                assert(j[i] == b[i - a.len() - 1]);
            }
        }
    }
    lemma_plain_unchanged(j);
    let s0 = MdState { out: e, in_list: false, para: e };
    let s1 = md_step(s0, a);
    assert(s1 == MdState { out: e, in_list: false, para: a });
    let s2 = md_step(s1, b);
    assert(s2 == MdState { out: e, in_list: false, para: j });
    assert(seq![a].drop_last() =~= Seq::<Seq<char>>::empty());
    assert(seq![a].last() == a);
    assert(md_lines(Seq::<Seq<char>>::empty()) == s0);
    assert(md_lines(seq![a]) == md_step(md_lines(seq![a].drop_last()), a));
    assert(md_lines(seq![a]) == s1);
    assert(ls.last() == b);
    assert(md_lines(ls) == s2);
    assert(flush(s2).out =~= "<p>"@ + j + "</p>\n"@);
}

proof fn lemma_single_line(l: Seq<char>)
    requires
        l.len() > 0,
        l.last() != '\r',
        forall|j: int| 0 <= j < l.len() ==> #[trigger] l[j] != '\n',
    ensures
        lines(l) == seq![l],
{
    lemma_index_of_is(l, '\n', l.len() as int);
}

/// A line `- text` is a one-item list.
pub proof fn lemma_list_item(a: Seq<char>)
    requires
        bare_text(a),
    ensures
        md_html(seq!['-', ' '] + a) == "<ul>\n"@ + "<li>"@ + a + "</li>\n"@ + "</ul>\n"@,
{
    let e = Seq::<char>::empty();
    let l = seq!['-', ' '] + a;
    lemma_plain_unchanged(a);
    assert forall|j: int| 0 <= j < l.len() implies #[trigger] l[j] != '\n' by {
        if j >= 2 {
            assert(l[j] == a[j - 2]);
        }
    }
    assert(l.last() == a.last());
    lemma_single_line(l);
    assert(trim_start(l) == l);
    assert(l.subrange(2, l.len() as int) =~= a);
    assert(seq![l].drop_last() =~= Seq::<Seq<char>>::empty());
    assert(seq![l].last() == l);
    let s0 = MdState { out: e, in_list: false, para: e };
    assert(md_lines(Seq::<Seq<char>>::empty()) == s0);
    let s1 = md_step(s0, l);
    assert(s1 == MdState { out: "<ul>\n"@ + "<li>"@ + a + "</li>\n"@, in_list: true, para: e });
    assert(md_lines(seq![l]) == s1);
    assert(flush(s1).out =~= "<ul>\n"@ + "<li>"@ + a + "</li>\n"@ + "</ul>\n"@);
}

/// A line `# text` is a heading.
pub proof fn lemma_heading_line(a: Seq<char>)
    requires
        bare_text(a),
    ensures
        md_html(seq!['#', ' '] + a) == "<h2>"@ + a + "</h2>\n"@,
{
    let e = Seq::<char>::empty();
    let l = seq!['#', ' '] + a;
    lemma_plain_unchanged(a);
    assert forall|j: int| 0 <= j < l.len() implies #[trigger] l[j] != '\n' by {
        if j >= 2 {
            assert(l[j] == a[j - 2]);
        }
    }
    assert(l.last() == a.last());
    lemma_single_line(l);
    assert(trim_start(l) == l);
    assert(l.subrange(2, l.len() as int) =~= a);
    assert(seq![l].drop_last() =~= Seq::<Seq<char>>::empty());
    assert(seq![l].last() == l);
    let s0 = MdState { out: e, in_list: false, para: e };
    assert(md_lines(Seq::<Seq<char>>::empty()) == s0);
    let s1 = md_step(s0, l);
    assert(flush(s0) == s0);
    assert(s1 == MdState { out: "<h2>"@ + a + "</h2>\n"@, in_list: false, para: e });
    assert(md_lines(seq![l]) == s1);
    assert(flush(s1) == s1);
}

/// `&`, `<` and `>` are written as the entities `&amp;`, `&lt;`, `&gt;`;
/// other characters are kept.
pub proof fn lemma_escape_char(s: Seq<char>, c: char)
    ensures
        escape(s.push(c)) == escape(s) + (if c == '&' {
            seq!['&', 'a', 'm', 'p', ';']
        } else if c == '<' {
            seq!['&', 'l', 't', ';']
        } else if c == '>' {
            seq!['&', 'g', 't', ';']
        } else {
            seq![c]
        }),
{
    reveal_strlit("&amp;");
    reveal_strlit("&lt;");
    reveal_strlit("&gt;");
    assert(s.push(c).drop_last() =~= s);
    assert(seq!['&', 'a', 'm', 'p', ';'] =~= "&amp;"@);
    assert(seq!['&', 'l', 't', ';'] =~= "&lt;"@);
    assert(seq!['&', 'g', 't', ';'] =~= "&gt;"@);
}

/// `**text**` on a line of its own is a paragraph of bold text.
pub proof fn lemma_bold_paragraph(a: Seq<char>)
    requires
        bare_text(a),
    ensures
        md_html(seq!['*', '*'] + a + seq!['*', '*']) == "<p>"@ + "<strong>"@ + a + "</strong>"@
            + "</p>\n"@,
{
    reveal_strlit("**");
    reveal_strlit("*");
    reveal_strlit("<strong>");
    reveal_strlit("</strong>");
    let e = Seq::<char>::empty();
    let d = "**"@;
    let l = seq!['*', '*'] + a + seq!['*', '*'];
    assert forall|j: int| 0 <= j < l.len() implies {
        let c = #[trigger] l[j];
        c != '\n' && c != '\r' && c != '&' && c != '<' && c != '>'
    } by {
        if 2 <= j < l.len() - 2 {
            assert(l[j] == a[j - 2]);
        }
    }
    assert(l.last() == '*');
    lemma_single_line(l);
    lemma_trim_ends(l);
    lemma_escape_plain(l);
    // The first `**` opens, the second closes.
    assert(l.subrange(0, 2) =~= d);
    let rest = a + seq!['*', '*'];
    assert(l.subrange(2, l.len() as int) =~= rest);
    assert(rest.subrange(a.len() as int, a.len() + 2int) =~= d);
    assert forall|i: int| 0 <= i < a.len() implies #[trigger] rest.subrange(i, i + d.len()) != d by {
        assert(rest.subrange(i, i + d.len())[0] == a[i]);
    }
    lemma_find_at(rest, d, a.len() as int);
    assert(rest.subrange(0, a.len() as int) =~= a);
    assert(rest.subrange(a.len() + 2int, rest.len() as int) =~= e);
    assert(replace_pairs(e, d, "<strong>"@, "</strong>"@, true) == e);
    assert(replace_pairs(rest, d, "<strong>"@, "</strong>"@, false) =~= a + "</strong>"@);
    let x = "<strong>"@ + a + "</strong>"@;
    assert(replace_pairs(l, d, "<strong>"@, "</strong>"@, true) =~= x);
    assert forall|i: int| 0 <= i < x.len() implies #[trigger] x[i] != "*"@[0] by {
        if 8 <= i < 8 + a.len() {
            assert(x[i] == a[i - 8]);
        }
    }
    lemma_replace_absent(x, "*"@, "<em>"@, "</em>"@);
    assert(inline(l) == x);
    // The line is gathered as a paragraph.
    assert(seq![l].drop_last() =~= Seq::<Seq<char>>::empty());
    assert(seq![l].last() == l);
    let s0 = MdState { out: e, in_list: false, para: e };
    assert(md_lines(Seq::<Seq<char>>::empty()) == s0);
    let s1 = md_step(s0, l);
    assert(s1 == MdState { out: e, in_list: false, para: l });
    assert(md_lines(seq![l]) == s1);
    assert(flush(s1).out =~= "<p>"@ + x + "</p>\n"@);
}

proof fn lemma_trim_ends(s: Seq<char>)
    requires
        s.len() > 0,
        !is_ws(s[0]),
        !is_ws(s.last()),
    ensures
        trim_start(s) == s,
        trim(s) == s,
{
}

} // verus!
