//! Human-readable dates and periods, in English and French.
//!
//! A date is written `YYYY`, `YYYY-MM` or `YYYY-MM-DD`. The shape is read on
//! the UTF-8 bytes of the text, so the specifications below speak of those
//! bytes (`spec_bytes()`), and of the characters they decode to.

use vstd::prelude::*;
use vstd::utf8::*;
use vstd::string::StringSliceAdditionalSpecFns;
use vstd::string::StrSliceExecFns;
use vstd::string::StringExecFns;
use crate::content::Lang;

verus! {

broadcast use vstd::utf8::encode_utf8_decode_utf8, vstd::utf8::encode_utf8_valid_utf8;

/// An ASCII decimal digit.
pub open spec fn is_digit(b: u8) -> bool {
    48 <= b <= 57
}

/// Every byte is an ASCII decimal digit.
pub open spec fn all_digits(s: Seq<u8>) -> bool {
    forall|i: int| 0 <= i < s.len() ==> is_digit(#[trigger] s[i])
}

/// The number written by a run of decimal digits.
pub open spec fn digits_value(s: Seq<u8>) -> int
    decreases s.len(),
{
    if s.len() == 0 {
        0
    } else {
        digits_value(s.drop_last()) * 10 + (s.last() - 48)
    }
}

/// The number written as an optional `+` or `-` followed by one or more
/// decimal digits; `None` for any other text (whitespace included). This is
/// the text that `i32` parsing accepts, except that numbers beyond the range
/// of `i32`, which it rejects, are kept here: they name no month either way.
pub open spec fn signed_decimal(s: Seq<u8>) -> Option<int> {
    if s.len() > 0 && (s[0] == 43u8 || s[0] == 45u8) {
        let d = s.drop_first();
        if d.len() > 0 && all_digits(d) {
            if s[0] == 45u8 {
                Some(-digits_value(d))
            } else {
                Some(digits_value(d))
            }
        } else {
            None
        }
    } else if s.len() > 0 && all_digits(s) {
        Some(digits_value(s))
    } else {
        None
    }
}

/// The zero-based month that a text names: its number must lie in 1..=12.
pub open spec fn month_index_of(s: Seq<u8>) -> Option<int> {
    match signed_decimal(s) {
        Some(n) => if 1 <= n <= 12 { Some(n - 1) } else { None },
        None => None,
    }
}

/// The abbreviated name of the zero-based month `i`.
pub open spec fn month_abbrev(i: int, lang: Lang) -> Seq<char> {
    match lang {
        Lang::En => if i == 0 {
            "Jan"@
        } else if i == 1 {
            "Feb"@
        } else if i == 2 {
            "Mar"@
        } else if i == 3 {
            "Apr"@
        } else if i == 4 {
            "May"@
        } else if i == 5 {
            "Jun"@
        } else if i == 6 {
            "Jul"@
        } else if i == 7 {
            "Aug"@
        } else if i == 8 {
            "Sep"@
        } else if i == 9 {
            "Oct"@
        } else if i == 10 {
            "Nov"@
        } else {
            "Dec"@
        },
        Lang::Fr => if i == 0 {
            "janv."@
        } else if i == 1 {
            "févr."@
        } else if i == 2 {
            "mars"@
        } else if i == 3 {
            "avr."@
        } else if i == 4 {
            "mai"@
        } else if i == 5 {
            "juin"@
        } else if i == 6 {
            "juil."@
        } else if i == 7 {
            "août"@
        } else if i == 8 {
            "sept."@
        } else if i == 9 {
            "oct."@
        } else if i == 10 {
            "nov."@
        } else {
            "déc."@
        },
    }
}

/// The month name for the text `s` (as bytes), or the empty text when `s`
/// names no month.
pub open spec fn month_text(s: Seq<u8>, lang: Lang) -> Seq<char> {
    match month_index_of(s) {
        Some(i) => month_abbrev(i, lang),
        None => Seq::empty(),
    }
}

/// An ASCII decimal digit character.
pub open spec fn is_digit_char(c: char) -> bool {
    '0' <= c <= '9'
}

/// The number written by two digit characters.
pub open spec fn two_digits(a: char, b: char) -> int {
    (a as int - '0' as int) * 10 + (b as int - '0' as int)
}

/// The text is a date with a month: four digits, '-', a month 01..=12, and
/// optionally '-' and two digits for the day (`YYYY-MM` or `YYYY-MM-DD`).
pub open spec fn is_month_date(s: Seq<char>) -> bool {
    &&& s.len() == 7 || s.len() == 10
    &&& is_digit_char(s[0]) && is_digit_char(s[1]) && is_digit_char(s[2]) && is_digit_char(s[3])
    &&& s[4] == '-'
    &&& is_digit_char(s[5]) && is_digit_char(s[6])
    &&& 1 <= two_digits(s[5], s[6]) <= 12
    &&& s.len() == 10 ==> s[7] == '-' && is_digit_char(s[8]) && is_digit_char(s[9])
}

/// A date as shown: `YYYY-MM` and `YYYY-MM-DD` become "<month> <year>" (the
/// day is ignored); any other text, a bare `YYYY` included, is shown as it
/// is.
pub open spec fn date_text(s: Seq<char>, lang: Lang) -> Seq<char> {
    if is_month_date(s) {
        month_abbrev(two_digits(s[5], s[6]) - 1, lang) + seq![' '] + s.subrange(0, 4)
    } else {
        s
    }
}

/// The word for "up to now".
pub open spec fn present_word(lang: Lang) -> Seq<char> {
    match lang {
        Lang::En => "present"@,
        Lang::Fr => "présent"@,
    }
}

/// A period as shown: "<start> — <end>", with the word for "present" when
/// `end` is empty.
pub open spec fn period_text(start: Seq<char>, end: Seq<char>, lang: Lang) -> Seq<char> {
    date_text(start, lang) + " — "@ + if end.len() == 0 {
        present_word(lang)
    } else {
        date_text(end, lang)
    }
}

proof fn lemma_digits_value_push(s: Seq<u8>, b: u8)
    ensures
        digits_value(s.push(b)) == digits_value(s) * 10 + (b - 48),
{
    assert(s.push(b).drop_last() =~= s);
}

proof fn lemma_digits_value_nonneg(s: Seq<u8>)
    requires
        all_digits(s),
    ensures
        digits_value(s) >= 0,
    decreases s.len(),
{
    if s.len() > 0 {
        assert(all_digits(s.drop_last()));
        lemma_digits_value_nonneg(s.drop_last());
    }
}

/// Reads `b[lo..hi]` as a month number and gives its zero-based index.
fn month_index(b: &[u8], lo: usize, hi: usize) -> (r: Option<usize>)
    requires
        lo <= hi <= b@.len(),
    ensures
        match r {
            Some(i) => month_index_of(b@.subrange(lo as int, hi as int)) == Some(i as int),
            None => month_index_of(b@.subrange(lo as int, hi as int)) is None,
        },
{
    let ghost s = b@.subrange(lo as int, hi as int);
    if lo == hi {
        return None;
    }
    let negative = b[lo] == 45u8;
    let start = if b[lo] == 43u8 || b[lo] == 45u8 {
        lo + 1
    } else {
        lo
    };
    let ghost d = b@.subrange(start as int, hi as int);
    assert(start == lo + 1 ==> d =~= s.drop_first());
    assert(start == lo ==> d =~= s);
    if start == hi {
        return None;
    }
    // The value read so far, capped at 13: every value above 12 names no month.
    let mut v: u8 = 0;
    let mut i = start;
    while i < hi
        invariant
            start <= i <= hi <= b@.len(),
            d == b@.subrange(start as int, hi as int),
            s == b@.subrange(lo as int, hi as int),
            s.len() > 0,
            negative == (s[0] == 45u8),
            start == lo + 1 ==> d == s.drop_first() && (s[0] == 43u8 || s[0] == 45u8),
            start == lo ==> d == s && !(s[0] == 43u8 || s[0] == 45u8),
            start == lo || start == lo + 1,
            all_digits(b@.subrange(start as int, i as int)),
            v <= 13,
            v < 13 ==> v == digits_value(b@.subrange(start as int, i as int)),
            v == 13 ==> digits_value(b@.subrange(start as int, i as int)) >= 13,
        decreases hi - i,
    {
        let c = b[i];
        if c < 48 || c > 57 {
            assert(d[i - start] == c);
            assert(!all_digits(d));
            return None;
        }
        proof {
            let p = b@.subrange(start as int, i as int);
            assert(b@.subrange(start as int, i + 1) =~= p.push(c));
            lemma_digits_value_push(p, c);
        }
        if v >= 13 || v * 10 + (c - 48) >= 13 {
            v = 13;
        } else {
            v = v * 10 + (c - 48);
        }
        i = i + 1;
    }
    assert(b@.subrange(start as int, hi as int) =~= d);
    proof {
        lemma_digits_value_nonneg(d);
    }
    if negative || v == 0 || v > 12 {
        None
    } else {
        Some((v - 1) as usize)
    }
}

/// The abbreviated name of the zero-based month `i`.
fn abbreviation(i: usize, lang: Lang) -> (r: &'static str)
    requires
        i < 12,
    ensures
        r@ == month_abbrev(i as int, lang),
{
    match lang {
        Lang::En => if i == 0 {
            "Jan"
        } else if i == 1 {
            "Feb"
        } else if i == 2 {
            "Mar"
        } else if i == 3 {
            "Apr"
        } else if i == 4 {
            "May"
        } else if i == 5 {
            "Jun"
        } else if i == 6 {
            "Jul"
        } else if i == 7 {
            "Aug"
        } else if i == 8 {
            "Sep"
        } else if i == 9 {
            "Oct"
        } else if i == 10 {
            "Nov"
        } else {
            "Dec"
        },
        Lang::Fr => if i == 0 {
            "janv."
        } else if i == 1 {
            "févr."
        } else if i == 2 {
            "mars"
        } else if i == 3 {
            "avr."
        } else if i == 4 {
            "mai"
        } else if i == 5 {
            "juin"
        } else if i == 6 {
            "juil."
        } else if i == 7 {
            "août"
        } else if i == 8 {
            "sept."
        } else if i == 9 {
            "oct."
        } else if i == 10 {
            "nov."
        } else {
            "déc."
        },
    }
}

/// The abbreviated name of the month numbered by `m` ("09" gives "Sep" or
/// "sept."), or the empty string when `m` is not a number in 1..=12.
pub fn month_name(m: &str, lang: Lang) -> (r: &'static str)
    ensures
        r@ == month_text(m.spec_bytes(), lang),
{
    let b = m.as_bytes();
    let n = b.len();
    assert(b@.subrange(0, n as int) =~= b@);
    match month_index(b, 0, n) {
        Some(i) => abbreviation(i, lang),
        None => {
            proof {
                reveal_strlit("");
            }
            ""
        },
    }
}

fn digit_char(c: char) -> (r: bool)
    ensures
        r == is_digit_char(c),
{
    '0' <= c && c <= '9'
}

/// Whether `s` is `YYYY-MM` or `YYYY-MM-DD` with a month in 01..=12.
fn month_date(s: &str) -> (r: bool)
    ensures
        r == is_month_date(s@),
{
    let n = s.unicode_len();
    if n != 7 && n != 10 {
        return false;
    }
    let ok = digit_char(s.get_char(0)) && digit_char(s.get_char(1)) && digit_char(s.get_char(2))
        && digit_char(s.get_char(3)) && s.get_char(4) == '-' && digit_char(s.get_char(5))
        && digit_char(s.get_char(6));
    if !ok {
        return false;
    }
    let m = (s.get_char(5) as u32 - '0' as u32) * 10 + (s.get_char(6) as u32 - '0' as u32);
    if m < 1 || m > 12 {
        return false;
    }
    if n == 10 {
        s.get_char(7) == '-' && digit_char(s.get_char(8)) && digit_char(s.get_char(9))
    } else {
        true
    }
}

/// Format a single date as "Sep 2024" / "sept. 2024". `YYYY-MM` and
/// `YYYY-MM-DD` give the month and the year (the day is ignored); anything
/// else (a bare `YYYY`, or text that is not such a date) is returned as is.
pub fn format_date(ym: &str, lang: Lang) -> (r: String)
    ensures
        r@ == date_text(ym@, lang),
        !is_month_date(ym@) ==> r@ == ym@,
{
    if month_date(ym) {
        let m = (ym.get_char(5) as u32 - '0' as u32) * 10 + (ym.get_char(6) as u32 - '0' as u32);
        let mut r = String::from_str(abbreviation((m - 1) as usize, lang));
        r.append(" ");
        r.append(ym.substring_char(0, 4));
        proof {
            reveal_strlit(" ");
        }
        r
    } else {
        String::from_str(ym)
    }
}

/// Format a start/end pair as a range, "<start> — <end>"; an empty `end`
/// means the period is still going on ("present" / "présent").
pub fn format_period(start: &str, end: &str, lang: Lang) -> (r: String)
    ensures
        r@ == period_text(start@, end@, lang),
        end@.len() == 0 ==> r@ == date_text(start@, lang) + " — "@ + present_word(lang),
{
    let mut r = format_date(start, lang);
    r.append(" — ");
    if end.is_empty() {
        match lang {
            Lang::En => r.append("present"),
            Lang::Fr => r.append("présent"),
        }
    } else {
        let e = format_date(end, lang);
        r.append(e.as_str());
    }
    r
}

/// Only the year and the month of a full `YYYY-MM-DD` date are shown: the
/// date formats exactly as its `YYYY-MM` prefix does.
pub proof fn lemma_date_ignores_day(s: Seq<char>, lang: Lang)
    requires
        is_month_date(s),
        s.len() == 10,
    ensures
        is_month_date(s.subrange(0, 7)),
        date_text(s, lang) == date_text(s.subrange(0, 7), lang),
{
    let p = s.subrange(0, 7);
    assert(p.subrange(0, 4) =~= s.subrange(0, 4));
}

/// A date with a month is shown ending with its year; any other text is
/// shown unchanged.
pub proof fn lemma_date_keeps_year_or_text(s: Seq<char>, lang: Lang)
    ensures
        is_month_date(s) ==> ({
            let t = date_text(s, lang);
            t.len() >= 4 && t.subrange(t.len() - 4, t.len() as int) =~= s.subrange(0, 4)
        }),
        !is_month_date(s) ==> date_text(s, lang) == s,
{
}

/// No two months share an abbreviation, in either language.
pub proof fn lemma_month_names_distinct(i: int, j: int, lang: Lang)
    requires
        0 <= i < 12,
        0 <= j < 12,
        i != j,
    ensures
        month_abbrev(i, lang) != month_abbrev(j, lang),
{
    reveal_strlit("Jan");
    reveal_strlit("Feb");
    reveal_strlit("Mar");
    reveal_strlit("Apr");
    reveal_strlit("May");
    reveal_strlit("Jun");
    reveal_strlit("Jul");
    reveal_strlit("Aug");
    reveal_strlit("Sep");
    reveal_strlit("Oct");
    reveal_strlit("Nov");
    reveal_strlit("Dec");
    reveal_strlit("janv.");
    reveal_strlit("févr.");
    reveal_strlit("mars");
    reveal_strlit("avr.");
    reveal_strlit("mai");
    reveal_strlit("juin");
    reveal_strlit("juil.");
    reveal_strlit("août");
    reveal_strlit("sept.");
    reveal_strlit("oct.");
    reveal_strlit("nov.");
    reveal_strlit("déc.");
    let a = month_abbrev(i, lang);
    let b = month_abbrev(j, lang);
    if a == b {
        assert(a.len() == b.len());
        assert(a[0] == b[0]);
        assert(a[1] == b[1]);
        assert(a[2] == b[2]);
        if a.len() > 3 {
            assert(a[3] == b[3]);
        }
    }
}

/// The English and French names of a month begin with the same letter,
/// capitalised in English: J, F, M, A, M, J, J, A, S, O, N, D.
pub proof fn lemma_month_initials_agree(i: int)
    requires
        0 <= i < 12,
    ensures
        month_abbrev(i, Lang::En)[0] as int + 32 == month_abbrev(i, Lang::Fr)[0] as int,
        month_abbrev(i, Lang::En).len() == 3,
{
    reveal_strlit("Jan");
    reveal_strlit("Feb");
    reveal_strlit("Mar");
    reveal_strlit("Apr");
    reveal_strlit("May");
    reveal_strlit("Jun");
    reveal_strlit("Jul");
    reveal_strlit("Aug");
    reveal_strlit("Sep");
    reveal_strlit("Oct");
    reveal_strlit("Nov");
    reveal_strlit("Dec");
    reveal_strlit("janv.");
    reveal_strlit("févr.");
    reveal_strlit("mars");
    reveal_strlit("avr.");
    reveal_strlit("mai");
    reveal_strlit("juin");
    reveal_strlit("juil.");
    reveal_strlit("août");
    reveal_strlit("sept.");
    reveal_strlit("oct.");
    reveal_strlit("nov.");
    reveal_strlit("déc.");
}

/// The English abbreviations follow the calendar: January to December.
pub proof fn lemma_english_calendar_order()
    ensures
        Seq::new(12, |i: int| month_abbrev(i, Lang::En)) =~= seq![
            seq!['J', 'a', 'n'],
            seq!['F', 'e', 'b'],
            seq!['M', 'a', 'r'],
            seq!['A', 'p', 'r'],
            seq!['M', 'a', 'y'],
            seq!['J', 'u', 'n'],
            seq!['J', 'u', 'l'],
            seq!['A', 'u', 'g'],
            seq!['S', 'e', 'p'],
            seq!['O', 'c', 't'],
            seq!['N', 'o', 'v'],
            seq!['D', 'e', 'c'],
        ],
{
    reveal_strlit("Jan");
    reveal_strlit("Feb");
    reveal_strlit("Mar");
    reveal_strlit("Apr");
    reveal_strlit("May");
    reveal_strlit("Jun");
    reveal_strlit("Jul");
    reveal_strlit("Aug");
    reveal_strlit("Sep");
    reveal_strlit("Oct");
    reveal_strlit("Nov");
    reveal_strlit("Dec");
    assert(seq!['J', 'a', 'n'] =~= "Jan"@);
    assert(seq!['F', 'e', 'b'] =~= "Feb"@);
    assert(seq!['M', 'a', 'r'] =~= "Mar"@);
    assert(seq!['A', 'p', 'r'] =~= "Apr"@);
    assert(seq!['M', 'a', 'y'] =~= "May"@);
    assert(seq!['J', 'u', 'n'] =~= "Jun"@);
    assert(seq!['J', 'u', 'l'] =~= "Jul"@);
    assert(seq!['A', 'u', 'g'] =~= "Aug"@);
    assert(seq!['S', 'e', 'p'] =~= "Sep"@);
    assert(seq!['O', 'c', 't'] =~= "Oct"@);
    assert(seq!['N', 'o', 'v'] =~= "Nov"@);
    assert(seq!['D', 'e', 'c'] =~= "Dec"@);
}

} // verus!
