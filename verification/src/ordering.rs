//! The order of a collection: newest first by the end of each entry's
//! period (an ongoing period first), ties broken by the start, newest first,
//! and then by the order the entries came in.

use vstd::prelude::*;
use crate::text::{chars_of, trim, trim_range};
use crate::yaml::{Yaml, YamlV};

verus! {

/// A decimal digit character.
pub open spec fn is_digit(c: char) -> bool {
    '0' <= c <= '9'
}

/// The number written by a run of digit characters.
pub open spec fn digits_value(s: Seq<char>) -> int
    decreases s.len(),
{
    if s.len() == 0 {
        0
    } else {
        digits_value(s.drop_last()) * 10 + (s.last() as int - '0' as int)
    }
}

/// Every character is a digit.
pub open spec fn all_digits(s: Seq<char>) -> bool {
    forall|i: int| 0 <= i < s.len() ==> is_digit(#[trigger] s[i])
}

/// The `i64` written as an optional sign and one or more digits, as `i64`
/// parsing reads it; `None` for other text and for numbers out of range.
pub open spec fn parse_i64(s: Seq<char>) -> Option<int> {
    let signed = s.len() > 0 && (s[0] == '+' || s[0] == '-');
    let d = if signed { s.drop_first() } else { s };
    let v = if signed && s[0] == '-' { -digits_value(d) } else { digits_value(d) };
    if d.len() > 0 && all_digits(d) && i64::MIN <= v <= i64::MAX {
        Some(v)
    } else {
        None
    }
}

/// The text means "no date": empty, `~`, or `null` in any ASCII case.
pub open spec fn is_null_text(s: Seq<char>) -> bool {
    ||| s.len() == 0
    ||| s.len() == 1 && s[0] == '~'
    ||| s.len() == 4 && (s[0] == 'n' || s[0] == 'N') && (s[1] == 'u' || s[1] == 'U') && (s[2]
        == 'l' || s[2] == 'L') && (s[3] == 'l' || s[3] == 'L')
}

/// The `(year, month)` key of a period endpoint written as text. Text that
/// means "no date" is the newest key when `present_is_newest` (an ongoing
/// period) and the oldest otherwise; `YYYY-MM...` gives `(year, month)`; a
/// bare year gives `(year, 0)`; anything unparseable is the oldest, `(0, 0)`.
pub open spec fn text_key(v: Seq<char>, present_is_newest: bool) -> (int, int) {
    let s = trim(v);
    if is_null_text(s) {
        if present_is_newest {
            (i64::MAX as int, 99)
        } else {
            (0, 0)
        }
    } else if s.len() >= 7 && s[4] == '-' && parse_i64(s.subrange(0, 4)) is Some && parse_i64(
        s.subrange(5, 7),
    ) is Some {
        (parse_i64(s.subrange(0, 4))->0, parse_i64(s.subrange(5, 7))->0)
    } else if parse_i64(s) is Some {
        (parse_i64(s)->0, 0)
    } else {
        (0, 0)
    }
}

/// The key of a front-matter value: text as above, a bare integer year as
/// `(year, 0)`, a missing value like empty text, anything else the oldest.
pub open spec fn value_key(v: YamlV, present_is_newest: bool) -> (int, int) {
    match v {
        YamlV::Str(s) => text_key(s, present_is_newest),
        YamlV::Int(i) => (i, 0),
        YamlV::Null => text_key(Seq::empty(), present_is_newest),
        _ => (0, 0),
    }
}

proof fn lemma_digits_value_push(s: Seq<char>, c: char)
    ensures
        digits_value(s.push(c)) == digits_value(s) * 10 + (c as int - '0' as int),
{
    assert(s.push(c).drop_last() =~= s);
}

proof fn lemma_digits_value_nonneg(s: Seq<char>)
    requires
        all_digits(s),
    ensures
        digits_value(s) >= 0,
    decreases s.len(),
{
    if s.len() > 0 {
        assert(all_digits(s.drop_last()));
        lemma_digits_value_nonneg(s.drop_last());
    }
}

/// Parse `s[lo..hi]` as an `i64`.
pub(crate) fn parse_range(s: &[char], lo: usize, hi: usize) -> (r: Option<i64>)
    requires
        lo <= hi <= s@.len(),
    ensures
        match r {
            Some(v) => parse_i64(s@.subrange(lo as int, hi as int)) == Some(v as int),
            None => parse_i64(s@.subrange(lo as int, hi as int)) is None,
        },
{
    let ghost t = s@.subrange(lo as int, hi as int);
    if lo == hi {
        return None;
    }
    let signed = s[lo] == '+' || s[lo] == '-';
    let negative = s[lo] == '-';
    let start = if signed { lo + 1 } else { lo };
    let ghost d = s@.subrange(start as int, hi as int);
    assert(signed ==> d =~= t.drop_first());
    assert(!signed ==> d =~= t);
    if start == hi {
        return None;
    }
    // The magnitude so far, or `None` once it no longer fits an `i64`.
    let mut v: u64 = 0;
    let mut over = false;
    let mut i = start;
    let bound: u64 = 9223372036854775808;
    while i < hi
        invariant
            start <= i <= hi <= s@.len(),
            d == s@.subrange(start as int, hi as int),
            t == s@.subrange(lo as int, hi as int),
            t.len() > 0,
            signed == (t[0] == '+' || t[0] == '-'),
            negative == (t[0] == '-'),
            signed ==> d == t.drop_first(),
            !signed ==> d == t,
            all_digits(s@.subrange(start as int, i as int)),
            !over ==> v == digits_value(s@.subrange(start as int, i as int)),
            !over ==> v <= bound,
            over ==> digits_value(s@.subrange(start as int, i as int)) > bound,
            bound == 9223372036854775808u64,
        decreases hi - i,
    {
        let c = s[i];
        if c < '0' || c > '9' {
            assert(d[i - start] == c);
            return None;
        }
        proof {
            let p = s@.subrange(start as int, i as int);
            assert(s@.subrange(start as int, i + 1) =~= p.push(c));
            lemma_digits_value_push(p, c);
            lemma_digits_value_nonneg(p);
        }
        let dv = (c as u32 - '0' as u32) as u64;
        if !over {
            if v > (bound - dv) / 10 {
                over = true;
            } else {
                v = v * 10 + dv;
            }
        }
        i = i + 1;
    }
    assert(s@.subrange(start as int, hi as int) =~= d);
    if over {
        return None;
    }
    if negative {
        if v == bound {
            Some(i64::MIN)
        } else {
            Some(-(v as i64))
        }
    } else if v == bound {
        None
    } else {
        Some(v as i64)
    }
}

fn null_text(s: &[char], lo: usize, hi: usize) -> (r: bool)
    requires
        lo <= hi <= s@.len(),
    ensures
        r == is_null_text(s@.subrange(lo as int, hi as int)),
{
    let n = hi - lo;
    n == 0 || (n == 1 && s[lo] == '~') || (n == 4 && (s[lo] == 'n' || s[lo] == 'N') && (s[lo
        + 1] == 'u' || s[lo + 1] == 'U') && (s[lo + 2] == 'l' || s[lo + 2] == 'L') && (s[lo + 3]
        == 'l' || s[lo + 3] == 'L'))
}

/// The `(year, month)` sort key of a period endpoint given as text.
pub fn period_text_key(v: &str, present_is_newest: bool) -> (r: (i64, i64))
    ensures
        (r.0 as int, r.1 as int) == text_key(v@, present_is_newest),
{
    let c = chars_of(v);
    let n = c.len();
    let (a, b) = trim_range(c.as_slice(), 0, n);
    assert(c@.subrange(0, n as int) =~= c@);
    let ghost s = c@.subrange(a as int, b as int);
    if null_text(c.as_slice(), a, b) {
        return if present_is_newest {
            (i64::MAX, 99)
        } else {
            (0, 0)
        };
    }
    if b - a >= 7 && c[a + 4] == '-' {
        let y = parse_range(c.as_slice(), a, a + 4);
        let m = parse_range(c.as_slice(), a + 5, a + 7);
        assert(s.subrange(0, 4) =~= c@.subrange(a as int, a + 4));
        assert(s.subrange(5, 7) =~= c@.subrange(a + 5, a + 7));
        if let (Some(y), Some(m)) = (y, m) {
            return (y, m);
        }
    }
    match parse_range(c.as_slice(), a, b) {
        Some(y) => (y, 0),
        None => (0, 0),
    }
}

/// The `(year, month)` sort key of a period endpoint: a null or absent
/// value is an ongoing period when `present_is_newest`, a missing start
/// otherwise.
pub fn period_sort_key(v: &Yaml, present_is_newest: bool) -> (r: (i64, i64))
    ensures
        (r.0 as int, r.1 as int) == value_key(v.value(), present_is_newest),
{
    match v {
        Yaml::Str(s) => period_text_key(s.as_str(), present_is_newest),
        Yaml::Int(i) => (*i, 0),
        Yaml::Null => {
            proof {
                reveal_strlit("");
            }
            period_text_key("", present_is_newest)
        },
        _ => (0, 0),
    }
}

/// The keys by which an entry is ordered: the end and the start of its
/// period.
pub struct PeriodKeys {
    pub end: (i64, i64),
    pub start: (i64, i64),
}

/// Lexicographic "greater than" on `(year, month)` keys.
pub open spec fn key_gt(a: (i64, i64), b: (i64, i64)) -> bool {
    a.0 > b.0 || (a.0 == b.0 && a.1 > b.1)
}

/// Entry `i` is listed before entry `j`: it ends later, or ends at the same
/// time and starts later, or has the same keys and came first.
pub open spec fn listed_before(keys: Seq<PeriodKeys>, i: int, j: int) -> bool {
    let a = keys[i];
    let b = keys[j];
    ||| key_gt(a.end, b.end)
    ||| a.end == b.end && key_gt(a.start, b.start)
    ||| a.end == b.end && a.start == b.start && i < j
}

fn gt(a: (i64, i64), b: (i64, i64)) -> (r: bool)
    ensures
        r == key_gt(a, b),
{
    a.0 > b.0 || (a.0 == b.0 && a.1 > b.1)
}

fn before(keys: &[PeriodKeys], i: usize, j: usize) -> (r: bool)
    requires
        i < keys@.len(),
        j < keys@.len(),
    ensures
        r == listed_before(keys@, i as int, j as int),
{
    let a = &keys[i];
    let b = &keys[j];
    let same_end = a.end.0 == b.end.0 && a.end.1 == b.end.1;
    let same_start = a.start.0 == b.start.0 && a.start.1 == b.start.1;
    gt(a.end, b.end) || (same_end && gt(a.start, b.start)) || (same_end && same_start && i < j)
}

proof fn lemma_listed_before_total(keys: Seq<PeriodKeys>, i: int, j: int)
    requires
        i != j,
    ensures
        listed_before(keys, i, j) || listed_before(keys, j, i),
        !(listed_before(keys, i, j) && listed_before(keys, j, i)),
{
}

proof fn lemma_listed_before_transitive(keys: Seq<PeriodKeys>, i: int, j: int, k: int)
    requires
        listed_before(keys, i, j),
        listed_before(keys, j, k),
    ensures
        listed_before(keys, i, k),
{
}

/// The order in which to list the entries whose keys are `keys`: every
/// position exactly once, newest end first, then newest start first, then
/// in the order given.
pub fn sort_newest_first(keys: &[PeriodKeys]) -> (r: Vec<usize>)
    ensures
        r@.len() == keys@.len(),
        forall|a: int| 0 <= a < r@.len() ==> r@[a] < keys@.len(),
        forall|i: int| 0 <= i < keys@.len() ==> #[trigger] r@.contains(i as usize),
        forall|a: int, b: int|
            0 <= a < b < r@.len() ==> listed_before(keys@, r@[a] as int, r@[b] as int),
{
    let n = keys.len();
    let mut r: Vec<usize> = Vec::new();
    let mut i: usize = 0;
    while i < n
        invariant
            n == keys@.len(),
            i <= n,
            r@.len() == i,
            forall|a: int| 0 <= a < r@.len() ==> r@[a] < i,
            forall|x: int| 0 <= x < i ==> #[trigger] r@.contains(x as usize),
            forall|a: int, b: int|
                0 <= a < b < r@.len() ==> listed_before(keys@, r@[a] as int, r@[b] as int),
        decreases n - i,
    {
        let mut p: usize = 0;
        while p < r.len() && !before(keys, i, r[p])
            invariant
                n == keys@.len(),
                i < n,
                p <= r@.len(),
                forall|a: int| 0 <= a < r@.len() ==> r@[a] < i,
                forall|a: int| 0 <= a < p ==> !listed_before(keys@, i as int, r@[a] as int),
            decreases r@.len() - p,
        {
            p = p + 1;
        }
        let ghost old_r = r@;
        assert(forall|x: int| 0 <= x < i ==> #[trigger] old_r.contains(x as usize));
        r.insert(p, i);
        proof {
            assert(r@ =~= old_r.subrange(0, p as int).push(i).add(
                old_r.subrange(p as int, old_r.len() as int),
            ));
            assert forall|a: int, b: int| 0 <= a < b < r@.len() implies listed_before(
                keys@,
                r@[a] as int,
                r@[b] as int,
            ) by {
                if a < p && b == p {
                    lemma_listed_before_total(keys@, i as int, old_r[a] as int);
                } else if a == p && b > p {
                    if b > p + 1 {
                        lemma_listed_before_transitive(
                            keys@,
                            i as int,
                            old_r[p as int] as int,
                            old_r[b - 1] as int,
                        );
                    }
                } else if a < p && b > p {
                } else if a > p {
                }
            }
            assert forall|x: int| 0 <= x < i + 1 implies #[trigger] r@.contains(x as usize) by {
                if x == i {
                    assert(r@[p as int] == i);
                } else {
                    assert(old_r.contains(x as usize));
                    let k = choose|k: int| 0 <= k < old_r.len() && old_r[k] == x as usize;
                    if k < p {
                        assert(r@[k] == x as usize);
                    } else {
                        assert(r@[k + 1] == x as usize);
                    }
                }
            }
        }
        i = i + 1;
    }
    r
}

} // verus!
