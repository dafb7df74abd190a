//! The front-matter values: the subset of YAML that the content files use.

use vstd::prelude::*;
use crate::ordering::parse_i64;
use crate::text::{
    chars_of, index_of, is_ws, lemma_index_of_is, lines, lines_of, string_of, strip_cr, subrange_vec, trim,
    trim_end, trim_range, trim_start, views,
};
use crate::ordering::all_digits;
use crate::ordering::parse_range;

verus! {

/// A front-matter value. A mapping keeps its keys in the order of first
/// appearance; a later value for the same key replaces the earlier one.
pub enum Yaml {
    Null,
    Str(String),
    Bool(bool),
    Int(i64),
    Mapping(Vec<(String, Yaml)>),
    List(Vec<Yaml>),
}

/// The mathematical value of a front-matter value.
pub enum YamlV {
    Null,
    Str(Seq<char>),
    Bool(bool),
    Int(int),
    Mapping(Seq<(Seq<char>, YamlV)>),
    List(Seq<YamlV>),
}

impl Yaml {
    /// The value `self` stands for.
    pub open spec fn value(self) -> YamlV
        decreases self,
    {
        match self {
            Yaml::Null => YamlV::Null,
            Yaml::Str(s) => YamlV::Str(s@),
            Yaml::Bool(b) => YamlV::Bool(b),
            Yaml::Int(i) => YamlV::Int(i as int),
            Yaml::Mapping(v) => YamlV::Mapping(
                Seq::new(
                    v@.len(),
                    |i: int|
                        {
                            if 0 <= i < v@.len() {
                                (v@[i].0@, v@[i].1.value())
                            } else {
                                (Seq::empty(), YamlV::Null)
                            }
                        },
                ),
            ),
            Yaml::List(v) => YamlV::List(
                Seq::new(
                    v@.len(),
                    |i: int|
                        {
                            if 0 <= i < v@.len() {
                                v@[i].value()
                            } else {
                                YamlV::Null
                            }
                        },
                ),
            ),
        }
    }
}

/* The parser, as a function of the lines of the front matter. */

/// The number of spaces that start `l`.
pub open spec fn indent_of(l: Seq<char>) -> nat
    decreases l.len(),
{
    if l.len() > 0 && l[0] == ' ' {
        1 + indent_of(l.drop_first())
    } else {
        0
    }
}

/// A line with nothing but white space.
pub open spec fn blank(l: Seq<char>) -> bool {
    trim(l).len() == 0
}

/// The first ':' that ends the text or is followed by a space: where a key
/// ends. -1 when there is none.
pub open spec fn kv_colon(s: Seq<char>) -> int
    decreases s.len(),
{
    if s.len() == 0 {
        -1
    } else if s[0] == ':' && (s.len() == 1 || s[1] == ' ') {
        0
    } else {
        let k = kv_colon(s.drop_first());
        if k < 0 {
            -1
        } else {
            k + 1
        }
    }
}

/// `s` without its leading '"' characters.
pub open spec fn strip_lead_quotes(s: Seq<char>) -> Seq<char>
    decreases s.len(),
{
    if s.len() > 0 && s[0] == '"' {
        strip_lead_quotes(s.drop_first())
    } else {
        s
    }
}

/// `s` without its trailing '"' characters.
pub open spec fn strip_trail_quotes(s: Seq<char>) -> Seq<char>
    decreases s.len(),
{
    if s.len() > 0 && s.last() == '"' {
        strip_trail_quotes(s.drop_last())
    } else {
        s
    }
}

/// The key of a `key: value` text whose colon is at `c`.
pub open spec fn key_at(t: Seq<char>, c: int) -> Seq<char> {
    strip_trail_quotes(strip_lead_quotes(trim(t.subrange(0, c))))
}

/// The value text of a `key: value` text whose colon is at `c`.
pub open spec fn rest_at(t: Seq<char>, c: int) -> Seq<char> {
    trim(t.subrange(c + 1, t.len() as int))
}

/// Where an inline comment starts, scanning from `i` with the given quote
/// states: a '#' outside quotes that starts the text or follows a space.
/// Inside double quotes a backslash escapes the next character; inside
/// single quotes '' is a quote.
pub open spec fn comment_start(s: Seq<char>, i: int, sq: bool, dq: bool) -> int
    decreases s.len() + 2 - i,
{
    if i < 0 || i >= s.len() {
        s.len() as int
    } else {
        let c = s[i];
        if c == '\\' && dq {
            comment_start(s, i + 2, sq, dq)
        } else if c == '\'' && dq {
            comment_start(s, i + 1, sq, dq)
        } else if c == '\'' && sq {
            if i + 1 < s.len() && s[i + 1] == '\'' {
                comment_start(s, i + 2, sq, dq)
            } else {
                comment_start(s, i + 1, false, dq)
            }
        } else if c == '\'' {
            comment_start(s, i + 1, true, dq)
        } else if c == '"' && !sq {
            comment_start(s, i + 1, sq, !dq)
        } else if c == '#' && !sq && !dq && (i == 0 || s[i - 1] == ' ') {
            i
        } else {
            comment_start(s, i + 1, sq, dq)
        }
    }
}

/// `s` without a trailing inline comment.
pub open spec fn strip_comment(s: Seq<char>) -> Seq<char> {
    s.subrange(0, comment_start(s, 0, false, false))
}

/// A scalar: empty, `null` or `~` is null; `true`/`false` a boolean; an
/// `i64` an integer; text in matching double or single quotes the text
/// inside them; anything else the text itself (all once trimmed).
pub open spec fn scalar(s: Seq<char>) -> YamlV {
    let t = trim(s);
    if t.len() == 0 || t == "null"@ || t == "~"@ {
        YamlV::Null
    } else if t == "true"@ {
        YamlV::Bool(true)
    } else if t == "false"@ {
        YamlV::Bool(false)
    } else if parse_i64(t) is Some {
        YamlV::Int(parse_i64(t)->0)
    } else if t.len() >= 2 && ((t[0] == '"' && t.last() == '"') || (t[0] == '\'' && t.last()
        == '\'')) {
        YamlV::Str(t.subrange(1, t.len() - 1))
    } else {
        YamlV::Str(t)
    }
}

/// The position of key `k` in a mapping, or -1.
pub open spec fn key_index(m: Seq<(Seq<char>, YamlV)>, k: Seq<char>) -> int
    decreases m.len(),
{
    if m.len() == 0 {
        -1
    } else if m.last().0 == k {
        m.len() - 1
    } else {
        key_index(m.drop_last(), k)
    }
}

/// A mapping with `k` set to `v`: replaced in place when present, added at
/// the end otherwise.
pub open spec fn insert(m: Seq<(Seq<char>, YamlV)>, k: Seq<char>, v: YamlV) -> Seq<(Seq<char>, YamlV)> {
    let i = key_index(m, k);
    if 0 <= i < m.len() {
        m.update(i, (k, v))
    } else {
        m.push((k, v))
    }
}

/// `p` brought into `[lo, hi]` (`lo` when that range is empty).
pub open spec fn clamp(p: int, lo: int, hi: int) -> int {
    if p < lo || hi < lo {
        lo
    } else if p > hi {
        hi
    } else {
        p
    }
}

/// The text of a `|` block: following lines indented deeper than `indent`,
/// each cut after `indent + 1` characters and ended by a line feed; blank
/// lines give a line feed.
pub open spec fn block_text(ls: Seq<Seq<char>>, pos: int, indent: int, buf: Seq<char>) -> (Seq<char>, int)
    decreases ls.len() - pos,
{
    if pos < 0 || pos >= ls.len() {
        (buf, pos)
    } else if blank(ls[pos]) {
        block_text(ls, pos + 1, indent, buf + seq!['\n'])
    } else if indent_of(ls[pos]) <= indent {
        (buf, pos)
    } else {
        block_text(
            ls,
            pos + 1,
            indent,
            buf + ls[pos].subrange(indent + 1, ls[pos].len() as int) + seq!['\n'],
        )
    }
}

/// A block of lines at `pos` indented at least `min`: a list of `- item`
/// lines or a mapping of `key: value` lines (comments and blank lines
/// skipped); null when empty. Gives the value and the position after it.
pub open spec fn block(
    ls: Seq<Seq<char>>,
    pos: int,
    min: int,
    map: Seq<(Seq<char>, YamlV)>,
    list: Seq<YamlV>,
    is_list: bool,
) -> (YamlV, int)
    decreases ls.len() - pos, 1int,
{
    let done = if is_list {
        YamlV::List(list)
    } else if map.len() == 0 {
        YamlV::Null
    } else {
        YamlV::Mapping(map)
    };
    if pos < 0 || pos >= ls.len() {
        (done, pos)
    } else if blank(ls[pos]) {
        block(ls, pos + 1, min, map, list, is_list)
    } else if indent_of(ls[pos]) < min {
        (done, pos)
    } else {
        let ind = indent_of(ls[pos]) as int;
        let t = ls[pos].subrange(ind, ls[pos].len() as int);
        if t.len() > 0 && t[0] == '#' {
            block(ls, pos + 1, min, map, list, is_list)
        } else if t.len() >= 2 && t[0] == '-' && t[1] == ' ' {
            let r = item(ls, pos + 1, ind + 2, t.subrange(2, t.len() as int));
            block(ls, clamp(r.1, pos + 1, ls.len() as int), min, map, list.push(r.0), true)
        } else if is_list {
            (done, pos)
        } else {
            let c = kv_colon(t);
            if c >= 0 {
                let r = value(ls, pos + 1, ind, rest_at(t, c));
                block(
                    ls,
                    clamp(r.1, pos + 1, ls.len() as int),
                    min,
                    insert(map, key_at(t, c), r.0),
                    list,
                    is_list,
                )
            } else {
                (done, pos)
            }
        }
    }
}

/// The value after `key:` on a line indented `indent`, the following lines
/// starting at `pos`: a `|` block, a nested block when nothing follows the
/// colon, or a scalar.
pub open spec fn value(ls: Seq<Seq<char>>, pos: int, indent: int, rest: Seq<char>) -> (YamlV, int)
    decreases ls.len() - pos, 2int,
{
    let r = trim(strip_comment(rest));
    if r == "|"@ || r == "|-"@ || r == "|+"@ {
        let b = block_text(ls, pos, indent, Seq::empty());
        (YamlV::Str(b.0), b.1)
    } else if r.len() == 0 {
        block(ls, pos, indent + 1, Seq::empty(), Seq::empty(), false)
    } else {
        (scalar(r), pos)
    }
}

/// A list item's text after `- `: a nested block when empty, a mapping when
/// it holds `key: value` (continued by the following `key: value` lines
/// indented at least `min`), a scalar otherwise.
pub open spec fn item(ls: Seq<Seq<char>>, pos: int, min: int, text: Seq<char>) -> (YamlV, int)
    decreases ls.len() - pos, 3int,
{
    let it = trim(text);
    if it.len() == 0 {
        block(ls, pos, min, Seq::empty(), Seq::empty(), false)
    } else {
        let c = kv_colon(it);
        if c >= 0 {
            let r = value(ls, pos, min, rest_at(it, c));
            item_map(
                ls,
                clamp(r.1, pos, ls.len() as int),
                min,
                insert(Seq::empty(), key_at(it, c), r.0),
            )
        } else {
            (scalar(it), pos)
        }
    }
}

/// The further `key: value` lines of a list item's mapping.
pub open spec fn item_map(ls: Seq<Seq<char>>, pos: int, min: int, map: Seq<(Seq<char>, YamlV)>) -> (YamlV, int)
    decreases ls.len() - pos, 1int,
{
    if pos < 0 || pos >= ls.len() {
        (YamlV::Mapping(map), pos)
    } else if blank(ls[pos]) {
        item_map(ls, pos + 1, min, map)
    } else if indent_of(ls[pos]) < min {
        (YamlV::Mapping(map), pos)
    } else {
        let ind = indent_of(ls[pos]) as int;
        let t = ls[pos].subrange(ind, ls[pos].len() as int);
        if t.len() >= 2 && t[0] == '-' && t[1] == ' ' {
            (YamlV::Mapping(map), pos)
        } else {
            let c = kv_colon(t);
            if c >= 0 {
                let r = value(ls, pos + 1, ind, rest_at(t, c));
                item_map(ls, clamp(r.1, pos + 1, ls.len() as int), min, insert(map, key_at(t, c), r.0))
            } else {
                (YamlV::Mapping(map), pos)
            }
        }
    }
}

/// The value of a front-matter text.
pub open spec fn front_value(fm: Seq<char>) -> YamlV {
    block(lines(fm), 0, 0, Seq::empty(), Seq::empty(), false).0
}

/* Executable parser. */

/// The entries of a mapping, as values.
pub open spec fn entries(m: Seq<(String, Yaml)>) -> Seq<(Seq<char>, YamlV)> {
    Seq::new(m.len(), |i: int| (m[i].0@, m[i].1.value()))
}

/// The items of a list, as values.
pub open spec fn items(l: Seq<Yaml>) -> Seq<YamlV> {
    Seq::new(l.len(), |i: int| l[i].value())
}

proof fn lemma_indent_of_is(l: Seq<char>, i: int)
    requires
        0 <= i <= l.len(),
        i < l.len() ==> l[i] != ' ',
        forall|j: int| 0 <= j < i ==> l[j] == ' ',
    ensures
        indent_of(l) == i,
    decreases l.len(),
{
    if i > 0 {
        let t = l.drop_first();
        assert forall|j: int| 0 <= j < i - 1 implies t[j] == ' ' by {
            assert(t[j] == l[j + 1]);
        }
        lemma_indent_of_is(t, i - 1);
    }
}

fn indentation(l: &[char]) -> (r: usize)
    ensures
        r == indent_of(l@),
        r <= l@.len(),
{
    let mut i: usize = 0;
    while i < l.len() && l[i] == ' '
        invariant
            i <= l@.len(),
            forall|j: int| 0 <= j < i ==> l@[j] == ' ',
        decreases l@.len() - i,
    {
        i = i + 1;
    }
    proof {
        lemma_indent_of_is(l@, i as int);
    }
    i
}

fn is_blank(l: &[char]) -> (r: bool)
    ensures
        r == blank(l@),
{
    let (a, b) = trim_range(l, 0, l.len());
    assert(l@.subrange(0, l@.len() as int) =~= l@);
    a == b
}

/// A key-ending colon stands at `j`.
pub open spec fn colon_at(s: Seq<char>, j: int) -> bool {
    s[j] == ':' && (j + 1 == s.len() || s[j + 1] == ' ')
}

proof fn lemma_kv_colon_is(s: Seq<char>, i: int)
    requires
        0 <= i <= s.len(),
        i < s.len() ==> colon_at(s, i),
        forall|j: int| 0 <= j < i ==> !#[trigger] colon_at(s, j),
    ensures
        kv_colon(s) == (if i < s.len() { i } else { -1 }),
    decreases s.len(),
{
    if s.len() > 0 && i > 0 {
        let t = s.drop_first();
        assert(!colon_at(s, 0));
        assert forall|j: int| 0 <= j < i - 1 implies !#[trigger] colon_at(t, j) by {
            assert(!colon_at(s, j + 1));
            assert(t[j] == s[j + 1]);
            if j + 1 < t.len() {
                assert(t[j + 1] == s[j + 2]);
            }
        }
        if i < s.len() {
            assert(t[i - 1] == s[i]);
            if i < t.len() {
                assert(t[i] == s[i + 1]);
            }
            assert(colon_at(t, i - 1));
        }
        lemma_kv_colon_is(t, i - 1);
    }
}

fn colon(t: &[char]) -> (r: Option<usize>)
    ensures
        match r {
            Some(c) => kv_colon(t@) == c && c < t@.len(),
            None => kv_colon(t@) < 0,
        },
{
    let n = t.len();
    let mut i: usize = 0;
    while i < n
        invariant
            n == t@.len(),
            i <= n,
            forall|j: int| 0 <= j < i ==> !#[trigger] colon_at(t@, j),
        decreases n - i,
    {
        if t[i] == ':' && (i + 1 == n || t[i + 1] == ' ') {
            proof {
                lemma_kv_colon_is(t@, i as int);
            }
            return Some(i);
        }
        i = i + 1;
    }
    proof {
        lemma_kv_colon_is(t@, n as int);
    }
    None
}

/// The key of `t` whose colon is at `c`.
fn key_of(t: &[char], c: usize) -> (r: String)
    requires
        c <= t@.len(),
    ensures
        r@ == key_at(t@, c as int),
{
    let (a, b) = trim_range(t, 0, c);
    assert(t@.subrange(0, c as int).subrange(0, c as int) =~= t@.subrange(0, c as int));
    let mut i = a;
    while i < b && t[i] == '"'
        invariant
            a <= i <= b <= t@.len(),
            strip_lead_quotes(t@.subrange(i as int, b as int)) == strip_lead_quotes(
                t@.subrange(a as int, b as int),
            ),
        decreases b - i,
    {
        assert(t@.subrange(i as int, b as int).drop_first() =~= t@.subrange(i + 1, b as int));
        i = i + 1;
    }
    let mut j = b;
    while j > i && t[j - 1] == '"'
        invariant
            i <= j <= b <= t@.len(),
            strip_trail_quotes(t@.subrange(i as int, j as int)) == strip_trail_quotes(
                t@.subrange(i as int, b as int),
            ),
        decreases j - i,
    {
        assert(t@.subrange(i as int, j as int).drop_last() =~= t@.subrange(i as int, j - 1));
        j = j - 1;
    }
    proof {
        assert(trim(t@.subrange(0, c as int)) == t@.subrange(a as int, b as int));
        assert(strip_lead_quotes(t@.subrange(i as int, b as int)) == t@.subrange(i as int, b as int));
        assert(strip_trail_quotes(t@.subrange(i as int, j as int)) == t@.subrange(i as int, j as int));
    }
    let v = subrange_vec(t, i, j);
    string_of(v.as_slice())
}

/// The value text of `t` whose colon is at `c`.
fn rest_of(t: &[char], c: usize) -> (r: Vec<char>)
    requires
        c < t@.len(),
    ensures
        r@ == rest_at(t@, c as int),
{
    let n = t.len();
    let (a, b) = trim_range(t, c + 1, n);
    subrange_vec(t, a, b)
}

/// The text of `s` before an inline comment.
fn without_comment(s: &[char]) -> (r: Vec<char>)
    ensures
        r@ == strip_comment(s@),
{
    let n = s.len();
    let mut i: usize = 0;
    let mut sq = false;
    let mut dq = false;
    while i < n
        invariant
            n == s@.len(),
            comment_start(s@, i as int, sq, dq) == comment_start(s@, 0, false, false),
        decreases n + 2 - i,
    {
        let c = s[i];
        if c == '\\' && dq {
            if i + 1 >= n {
                assert(comment_start(s@, i + 2, sq, dq) == s@.len());
                assert(comment_start(s@, n as int, sq, dq) == s@.len());
            }
            i = if i + 1 < n { i + 2 } else { n };
            continue;
        } else if c == '\'' && dq {
        } else if c == '\'' && sq {
            if i + 1 < n && s[i + 1] == '\'' {
                i = i + 2;
                continue;
            }
            sq = false;
        } else if c == '\'' {
            sq = true;
        } else if c == '"' && !sq {
            dq = !dq;
        } else if c == '#' && !sq && !dq && (i == 0 || s[i - 1] == ' ') {
            return subrange_vec(s, 0, i);
        }
        i = i + 1;
    }
    assert(s@.subrange(0, n as int) =~= s@);
    subrange_vec(s, 0, n)
}

fn same(a: &[char], b: &[char]) -> (r: bool)
    ensures
        r == (a@ == b@),
{
    if a.len() != b.len() {
        return false;
    }
    let mut i: usize = 0;
    while i < a.len()
        invariant
            a@.len() == b@.len(),
            i <= a@.len(),
            forall|j: int| 0 <= j < i ==> a@[j] == b@[j],
        decreases a@.len() - i,
    {
        if a[i] != b[i] {
            return false;
        }
        i = i + 1;
    }
    assert(a@ =~= b@);
    true
}

/// Parse a scalar.
fn scalar_of(s: &[char]) -> (r: Yaml)
    ensures
        r.value() == scalar(s@),
{
    let (a, b) = trim_range(s, 0, s.len());
    assert(s@.subrange(0, s@.len() as int) =~= s@);
    let t = subrange_vec(s, a, b);
    let n = t.len();
    if n == 0 || same(t.as_slice(), chars_of("null").as_slice()) || same(
        t.as_slice(),
        chars_of("~").as_slice(),
    ) {
        return Yaml::Null;
    }
    if same(t.as_slice(), chars_of("true").as_slice()) {
        return Yaml::Bool(true);
    }
    if same(t.as_slice(), chars_of("false").as_slice()) {
        return Yaml::Bool(false);
    }
    assert(t@.subrange(0, n as int) =~= t@);
    if let Some(i) = parse_range(t.as_slice(), 0, n) {
        return Yaml::Int(i);
    }
    if n >= 2 && ((t[0] == '"' && t[n - 1] == '"') || (t[0] == '\'' && t[n - 1] == '\'')) {
        let inner = subrange_vec(t.as_slice(), 1, n - 1);
        return Yaml::Str(string_of(inner.as_slice()));
    }
    Yaml::Str(string_of(t.as_slice()))
}

/// Set key `k` to `v` in the mapping `m`.
fn insert_into(m: &mut Vec<(String, Yaml)>, k: String, v: Yaml)
    ensures
        entries(final(m)@) == insert(entries(old(m)@), k@, v.value()),
{
    let ghost e = entries(m@);
    let ghost kv = k@;
    let mut i = m.len();
    assert(e.subrange(0, i as int) =~= e);
    while i > 0 && !(m[i - 1].0 == k)
        invariant
            i <= m@.len(),
            e == entries(m@),
            kv == k@,
            key_index(e.subrange(0, i as int), kv) == key_index(e, kv),
        decreases i,
    {
        assert(e.subrange(0, i as int).drop_last() =~= e.subrange(0, i - 1));
        i = i - 1;
    }
    if i > 0 {
        proof {
            assert(e.subrange(0, i as int).last() == e[i - 1]);
        }
        let ghost vv = v.value();
        m.set(i - 1, (k, v));
        proof {
            assert(entries(m@) =~= e.update(i - 1, (kv, vv)));
        }
    } else {
        let ghost vv = v.value();
        assert(e.subrange(0, 0) =~= Seq::<(Seq<char>, YamlV)>::empty());
        m.push((k, v));
        proof {
            assert(entries(m@) =~= e.push((kv, vv)));
        }
    }
}

proof fn lemma_list_value(v: Vec<Yaml>)
    ensures
        Yaml::List(v).value() == YamlV::List(items(v@)),
{
    let w = match Yaml::List(v).value() {
        YamlV::List(w) => w,
        _ => Seq::empty(),
    };
    assert(w =~= items(v@));
}

proof fn lemma_mapping_value(v: Vec<(String, Yaml)>)
    ensures
        Yaml::Mapping(v).value() == YamlV::Mapping(entries(v@)),
{
    let w = match Yaml::Mapping(v).value() {
        YamlV::Mapping(w) => w,
        _ => Seq::empty(),
    };
    assert(w =~= entries(v@));
}

/// Every line is short enough for the indentation arithmetic.
pub open spec fn short_lines(ls: Seq<Vec<char>>) -> bool {
    forall|k: int| 0 <= k < ls.len() ==> (#[trigger] ls[k])@.len() + 8 <= usize::MAX
}

fn block_text_of(ls: &Vec<Vec<char>>, pos: usize, indent: usize) -> (r: (String, usize))
    requires
        pos <= ls@.len(),
    ensures
        (r.0@, r.1 as int) == block_text(views(ls@), pos as int, indent as int, Seq::empty()),
        pos <= r.1 <= ls@.len(),
{
    let ghost lv = views(ls@);
    let mut buf: Vec<char> = Vec::new();
    let mut i = pos;
    while i < ls.len()
        invariant
            pos <= i <= ls@.len(),
            lv == views(ls@),
            block_text(lv, i as int, indent as int, buf@) == block_text(lv, pos as int, indent as int, Seq::empty()),
        decreases ls@.len() - i,
    {
        let line = &ls[i];
        let ghost b0 = buf@;
        assert(lv[i as int] == line@);
        if is_blank(line.as_slice()) {
            buf.push('\n');
            assert(buf@ =~= b0 + seq!['\n']);
        } else {
            let ind = indentation(line.as_slice());
            if ind <= indent {
                let text = string_of(buf.as_slice());
                return (text, i);
            }
            let rest = subrange_vec(line.as_slice(), indent + 1, line.len());
            crate::text::extend(&mut buf, rest.as_slice());
            buf.push('\n');
            proof {
                assert(buf@ =~= b0 + line@.subrange(indent + 1, line@.len() as int) + seq!['\n']);
            }
        }
        i = i + 1;
    }
    (string_of(buf.as_slice()), i)
}

/// The value a block ends with.
fn finished(map: Vec<(String, Yaml)>, list: Vec<Yaml>, is_list: bool) -> (r: Yaml)
    ensures
        r.value() == (if is_list {
            YamlV::List(items(list@))
        } else if entries(map@).len() == 0 {
            YamlV::Null
        } else {
            YamlV::Mapping(entries(map@))
        }),
{
    proof {
        lemma_list_value(list);
        lemma_mapping_value(map);
    }
    if is_list {
        Yaml::List(list)
    } else if map.len() == 0 {
        Yaml::Null
    } else {
        Yaml::Mapping(map)
    }
}

fn block_of(ls: &Vec<Vec<char>>, pos: usize, min: usize) -> (r: (Yaml, usize))
    requires
        pos <= ls@.len(),
        short_lines(ls@),
    ensures
        (r.0.value(), r.1 as int) == block(
            views(ls@),
            pos as int,
            min as int,
            Seq::empty(),
            Seq::empty(),
            false,
        ),
        pos <= r.1 <= ls@.len(),
    decreases ls@.len() - pos, 1int,
{
    let ghost lv = views(ls@);
    let mut map: Vec<(String, Yaml)> = Vec::new();
    let mut list: Vec<Yaml> = Vec::new();
    let mut is_list = false;
    let mut i = pos;
    proof {
        assert(entries(map@) =~= Seq::<(Seq<char>, YamlV)>::empty());
        assert(items(list@) =~= Seq::<YamlV>::empty());
    }
    loop
        invariant
            pos <= i <= ls@.len(),
            lv == views(ls@),
            short_lines(ls@),
            block(lv, i as int, min as int, entries(map@), items(list@), is_list) == block(
                lv,
                pos as int,
                min as int,
                Seq::empty(),
                Seq::empty(),
                false,
            ),
        decreases ls@.len() - i,
    {
        if i >= ls.len() {
            return (finished(map, list, is_list), i);
        }
        let line = &ls[i];
        assert(lv[i as int] == line@);
        if is_blank(line.as_slice()) {
            i = i + 1;
            continue;
        }
        let ind = indentation(line.as_slice());
        if ind < min {
            return (finished(map, list, is_list), i);
        }
        let t = subrange_vec(line.as_slice(), ind, line.len());
        if t.len() > 0 && t[0] == '#' {
            i = i + 1;
            continue;
        }
        if t.len() >= 2 && t[0] == '-' && t[1] == ' ' {
            assert(line@.len() + 8 <= usize::MAX);
            let text = subrange_vec(t.as_slice(), 2, t.len());
            let (v, p2) = item_of(ls, i + 1, ind + 2, text.as_slice());
            let ghost l0 = list@;
            let ghost vv = v.value();
            list.push(v);
            proof {
                assert(items(list@) =~= items(l0).push(vv));
            }
            is_list = true;
            i = p2;
            continue;
        }
        if is_list {
            return (finished(map, list, is_list), i);
        }
        match colon(t.as_slice()) {
            Some(c) => {
                let rest = rest_of(t.as_slice(), c);
                let (v, p2) = value_of(ls, i + 1, ind, rest.as_slice());
                let k = key_of(t.as_slice(), c);
                insert_into(&mut map, k, v);
                i = p2;
            },
            None => {
                return (finished(map, list, is_list), i);
            },
        }
    }
}

fn value_of(ls: &Vec<Vec<char>>, pos: usize, indent: usize, rest: &[char]) -> (r: (Yaml, usize))
    requires
        pos <= ls@.len(),
        short_lines(ls@),
        indent < usize::MAX,
    ensures
        (r.0.value(), r.1 as int) == value(views(ls@), pos as int, indent as int, rest@),
        pos <= r.1 <= ls@.len(),
    decreases ls@.len() - pos, 2int,
{
    let c = without_comment(rest);
    let (a, b) = trim_range(c.as_slice(), 0, c.len());
    assert(c@.subrange(0, c@.len() as int) =~= c@);
    let r = subrange_vec(c.as_slice(), a, b);
    if same(r.as_slice(), chars_of("|").as_slice()) || same(r.as_slice(), chars_of("|-").as_slice())
        || same(r.as_slice(), chars_of("|+").as_slice()) {
        let (txt, p) = block_text_of(ls, pos, indent);
        return (Yaml::Str(txt), p);
    }
    if r.len() == 0 {
        return block_of(ls, pos, indent + 1);
    }
    (scalar_of(r.as_slice()), pos)
}

fn item_of(ls: &Vec<Vec<char>>, pos: usize, min: usize, text: &[char]) -> (r: (Yaml, usize))
    requires
        pos <= ls@.len(),
        short_lines(ls@),
        min < usize::MAX,
    ensures
        (r.0.value(), r.1 as int) == item(views(ls@), pos as int, min as int, text@),
        pos <= r.1 <= ls@.len(),
    decreases ls@.len() - pos, 3int,
{
    let (a, b) = trim_range(text, 0, text.len());
    assert(text@.subrange(0, text@.len() as int) =~= text@);
    let it = subrange_vec(text, a, b);
    if it.len() == 0 {
        return block_of(ls, pos, min);
    }
    match colon(it.as_slice()) {
        Some(c) => {
            let rest = rest_of(it.as_slice(), c);
            let (v, p2) = value_of(ls, pos, min, rest.as_slice());
            let k = key_of(it.as_slice(), c);
            let mut m: Vec<(String, Yaml)> = Vec::new();
            assert(entries(m@) =~= Seq::<(Seq<char>, YamlV)>::empty());
            insert_into(&mut m, k, v);
            item_map_of(ls, p2, min, m)
        },
        None => (scalar_of(it.as_slice()), pos),
    }
}

fn item_map_of(ls: &Vec<Vec<char>>, pos: usize, min: usize, start: Vec<(String, Yaml)>) -> (r: (
    Yaml,
    usize,
))
    requires
        pos <= ls@.len(),
        short_lines(ls@),
    ensures
        (r.0.value(), r.1 as int) == item_map(views(ls@), pos as int, min as int, entries(start@)),
        pos <= r.1 <= ls@.len(),
    decreases ls@.len() - pos, 1int,
{
    let ghost lv = views(ls@);
    let ghost m0 = entries(start@);
    let mut map = start;
    let mut i = pos;
    loop
        invariant
            pos <= i <= ls@.len(),
            lv == views(ls@),
            short_lines(ls@),
            m0 == entries(start@),
            item_map(lv, i as int, min as int, entries(map@)) == item_map(lv, pos as int, min as int, m0),
        decreases ls@.len() - i,
    {
        if i >= ls.len() {
            proof {
                lemma_mapping_value(map);
            }
            return (Yaml::Mapping(map), i);
        }
        let line = &ls[i];
        assert(lv[i as int] == line@);
        if is_blank(line.as_slice()) {
            i = i + 1;
            continue;
        }
        let ind = indentation(line.as_slice());
        let t = subrange_vec(line.as_slice(), ind, line.len());
        if ind < min || (t.len() >= 2 && t[0] == '-' && t[1] == ' ') {
            proof {
                lemma_mapping_value(map);
            }
            return (Yaml::Mapping(map), i);
        }
        match colon(t.as_slice()) {
            Some(c) => {
                assert(line@.len() + 8 <= usize::MAX);
                let rest = rest_of(t.as_slice(), c);
                let (v, p2) = value_of(ls, i + 1, ind, rest.as_slice());
                let k = key_of(t.as_slice(), c);
                insert_into(&mut map, k, v);
                i = p2;
            },
            None => {
                proof {
                    lemma_mapping_value(map);
                }
                return (Yaml::Mapping(map), i);
            },
        }
    }
}

/// Parse front matter.
pub fn parse_front(fm: &str) -> (r: Yaml)
    requires
        fm@.len() + 8 <= usize::MAX,
    ensures
        r.value() == front_value(fm@),
{
    let c = chars_of(fm);
    let ls = lines_of(c.as_slice());
    assert(short_lines(ls@));
    block_of(&ls, 0, 0).0
}

/* Laws of the parser. */

/// A plain key: not empty, not starting a list item, and without white
/// space, ':', '"' or '#'.
pub open spec fn plain_key(k: Seq<char>) -> bool {
    &&& k.len() > 0
    &&& k[0] != '-'
    &&& forall|i: int|
        0 <= i < k.len() ==> {
            let c = #[trigger] k[i];
            !is_ws(c) && c != ':' && c != '"' && c != '#'
        }
}

/// Text that can stand between quotes on one line: no quote, no '#' and
/// no line break.
pub open spec fn quotable(v: Seq<char>) -> bool {
    forall|i: int|
        0 <= i < v.len() ==> {
            let c = #[trigger] v[i];
            c != '\'' && c != '"' && c != '#' && c != '\n' && c != '\r'
        }
}

proof fn lemma_kv_colon_after_key(k: Seq<char>, rest: Seq<char>)
    requires
        forall|i: int| 0 <= i < k.len() ==> #[trigger] k[i] != ':',
        rest.len() >= 2,
        rest[0] == ':',
        rest[1] == ' ',
    ensures
        kv_colon(k + rest) == k.len(),
    decreases k.len(),
{
    let s = k + rest;
    if k.len() == 0 {
        assert(s =~= rest);
    } else {
        assert(s.drop_first() =~= k.drop_first() + rest);
        assert forall|i: int| 0 <= i < k.drop_first().len() implies #[trigger] k.drop_first()[i]
            != ':' by {
            assert(k.drop_first()[i] == k[i + 1]);
        }
        lemma_kv_colon_after_key(k.drop_first(), rest);
        assert(s[0] == k[0]);
    }
}

proof fn lemma_quoted_no_comment(q: Seq<char>, i: int)
    requires
        q.len() >= 2,
        q.last() == '\'',
        forall|j: int| 1 <= j < q.len() - 1 ==> #[trigger] q[j] != '\'',
        1 <= i <= q.len() - 1,
    ensures
        comment_start(q, i, true, false) == q.len(),
    decreases q.len() - i,
{
    if i < q.len() - 1 {
        lemma_quoted_no_comment(q, i + 1);
    } else {
        assert(q[i] == '\'');
        assert(comment_start(q, q.len() as int, false, false) == q.len());
    }
}

proof fn lemma_one_line(line: Seq<char>)
    requires
        line.len() > 0,
        line.last() != '\r',
        forall|j: int| 0 <= j < line.len() ==> #[trigger] line[j] != '\n',
    ensures
        lines(line + seq!['\n']) == seq![line],
{
    let text = line + seq!['\n'];
    assert forall|j: int| 0 <= j < line.len() implies text[j] != '\n' by {
        assert(text[j] == line[j]);
    }
    lemma_index_of_is(text, '\n', line.len() as int);
    assert(text.subrange(0, line.len() as int) =~= line);
    assert(text.subrange(line.len() + 1int, text.len() as int) =~= Seq::<char>::empty());
    assert(strip_cr(line) == line);
    assert(lines(Seq::<char>::empty()) =~= Seq::<Seq<char>>::empty());
    assert(lines(text) =~= seq![line]);
}

proof fn lemma_quoted_scalar(v: Seq<char>)
    requires
        quotable(v),
    ensures
        ({
            let q = seq!['\''] + v + seq!['\''];
            &&& trim(strip_comment(q)) == q
            &&& q != "|"@ && q != "|-"@ && q != "|+"@ && q.len() > 0
            &&& scalar(q) == YamlV::Str(v)
        }),
{
    let q = seq!['\''] + v + seq!['\''];
    assert(q.len() >= 2 && q[0] == '\'' && q.last() == '\'');
    lemma_trim_unchanged(q);
    assert forall|j: int| 1 <= j < q.len() - 1 implies #[trigger] q[j] != '\'' by {
        assert(q[j] == v[j - 1]);
    }
    lemma_quoted_no_comment(q, 1);
    assert(comment_start(q, 0, false, false) == q.len());
    assert(strip_comment(q) =~= q);
    reveal_strlit("|");
    reveal_strlit("|-");
    reveal_strlit("|+");
    reveal_strlit("null");
    reveal_strlit("~");
    reveal_strlit("true");
    reveal_strlit("false");
    assert(q != "|"@ && q != "|-"@ && q != "|+"@) by {
        assert(q[0] != '|');
    }
    assert(q != "null"@ && q != "~"@ && q != "true"@ && q != "false"@) by {
        assert(q[0] == '\'');
    }
    assert(!all_digits(q)) by {
        assert(!crate::ordering::is_digit(q[0]));
    }
    assert(parse_i64(q) is None);
    assert(q.subrange(1, q.len() - 1) =~= v);
}

proof fn lemma_trim_unchanged(s: Seq<char>)
    requires
        s.len() > 0,
        !is_ws(s[0]),
        !is_ws(s.last()),
    ensures
        trim_start(s) == s,
        trim(s) == s,
{
}

/// A value between single quotes is the text between them, as one between
/// double quotes is: `k: 'v'` maps `k` to the text `v`.
pub proof fn lemma_single_quoted_value(k: Seq<char>, v: Seq<char>)
    requires
        plain_key(k),
        quotable(v),
    ensures
        front_value(k + seq![':', ' ', '\''] + v + seq!['\'', '\n']) == YamlV::Mapping(
            seq![(k, YamlV::Str(v))],
        ),
{
    let q = seq!['\''] + v + seq!['\''];
    let line = k + seq![':', ' '] + q;
    let text = line + seq!['\n'];
    assert(k + seq![':', ' ', '\''] + v + seq!['\'', '\n'] =~= text);
    assert forall|j: int| 0 <= j < line.len() implies #[trigger] line[j] != '\n' by {
        if j < k.len() {
            assert(line[j] == k[j]);
        } else if k.len() + 3 <= j < line.len() - 1 {
            assert(line[j] == v[j - k.len() - 3]);
        }
    }
    assert(line.last() == '\'');
    lemma_one_line(line);
    let ls = lines(text);
    assert(ls == seq![line]);
    assert(line[0] == k[0]);
    lemma_trim_unchanged(line);
    assert(!blank(line));
    assert(indent_of(line) == 0);
    let t = line.subrange(0, line.len() as int);
    assert(t =~= line);
    assert forall|i: int| 0 <= i < k.len() implies #[trigger] k[i] != ':' by {
        assert(!is_ws(k[i]) && k[i] != ':');
    }
    assert(line =~= k + (seq![':', ' '] + q));
    lemma_kv_colon_after_key(k, seq![':', ' '] + q);
    let c = k.len() as int;
    assert(kv_colon(t) == c);
    assert(t.subrange(0, c) =~= k);
    assert(!is_ws(k[k.len() - 1]));
    lemma_trim_unchanged(k);
    assert(strip_lead_quotes(k) == k);
    assert(strip_trail_quotes(k) == k);
    assert(key_at(t, c) == k);
    let after = t.subrange(c + 1, t.len() as int);
    assert(after =~= seq![' '] + q);
    assert(after.drop_first() =~= q);
    lemma_trim_unchanged(q);
    assert(trim_start(after) == trim_start(q));
    assert(trim_end(q) == q);
    assert(rest_at(t, c) == q);
    lemma_quoted_scalar(v);
    assert(value(ls, 1, 0, q) == (YamlV::Str(v), 1int));
    let m = insert(Seq::empty(), k, YamlV::Str(v));
    assert(m =~= seq![(k, YamlV::Str(v))]);
    assert(block(ls, 1, 0, m, Seq::empty(), false) == (YamlV::Mapping(m), 1int));
    assert(block(ls, 0, 0, Seq::empty(), Seq::empty(), false).0 == YamlV::Mapping(m));
}

} // verus!
