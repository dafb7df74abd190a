//! Looking up values in the profile table.
//!
//! The profile is a table of `(key, value)` pairs. A value is either a plain
//! string (`"name"`) or an English/French pair written as the English form,
//! a NUL character, and the French form (`"title"`, `"location"`).

use vstd::prelude::*;
use vstd::string::StrSliceExecFns;
use vstd::utf8::*;
use vstd::string::StringSliceAdditionalSpecFns;
use crate::content::LStr;

verus! {

broadcast use vstd::utf8::encode_utf8_decode_utf8, vstd::utf8::encode_utf8_valid_utf8;

/// The value of the first pair whose key is `key`, or the empty text when
/// no key matches.
pub open spec fn profile_value(table: Seq<(&'static str, &'static str)>, key: Seq<char>) -> Seq<char>
    decreases table.len(),
{
    if table.len() == 0 {
        Seq::empty()
    } else if table[0].0@ == key {
        table[0].1@
    } else {
        profile_value(table.drop_first(), key)
    }
}

/// The position of the first NUL character, or the length when there is none.
pub open spec fn nul_index(s: Seq<char>) -> nat
    decreases s.len(),
{
    if s.len() == 0 {
        0
    } else if s[0] == '\0' {
        0
    } else {
        1 + nul_index(s.drop_first())
    }
}

/// The part of `s` before its first NUL character (all of `s` when there is
/// none).
pub open spec fn before_nul(s: Seq<char>) -> Seq<char> {
    s.subrange(0, nul_index(s) as int)
}

/// The part of `s` after its first NUL character, or the empty text when
/// there is none.
pub open spec fn after_nul(s: Seq<char>) -> Seq<char> {
    if nul_index(s) < s.len() {
        s.subrange(nul_index(s) + 1int, s.len() as int)
    } else {
        Seq::empty()
    }
}

/// The English/French pair stored in a profile value; the French form falls
/// back to the English one when it is empty.
pub open spec fn localized_pair(raw: Seq<char>) -> (Seq<char>, Seq<char>) {
    let en = before_nul(raw);
    let fr = after_nul(raw);
    (en, if fr.len() == 0 { en } else { fr })
}

proof fn lemma_nul_index_is(s: Seq<char>, i: int)
    requires
        0 <= i <= s.len(),
        i < s.len() ==> s[i] == '\0',
        forall|j: int| 0 <= j < i ==> s[j] != '\0',
    ensures
        nul_index(s) == i,
    decreases s.len(),
{
    if s.len() > 0 && s[0] != '\0' {
        let t = s.drop_first();
        assert forall|j: int| 0 <= j < i - 1 implies t[j] != '\0' by {
            assert(t[j] == s[j + 1]);
        }
        lemma_nul_index_is(t, i - 1);
    }
}

/// Whether two strings hold the same characters.
fn same_text(a: &str, b: &str) -> (r: bool)
    ensures
        r == (a@ == b@),
{
    let x = a.as_bytes();
    let y = b.as_bytes();
    proof {
        assert(decode_utf8(encode_utf8(a@)) == a@);
        assert(decode_utf8(encode_utf8(b@)) == b@);
    }
    if x.len() != y.len() {
        return false;
    }
    let mut i: usize = 0;
    while i < x.len()
        invariant
            x@.len() == y@.len(),
            x@ == a.spec_bytes(),
            y@ == b.spec_bytes(),
            0 <= i <= x@.len(),
            forall|j: int| 0 <= j < i ==> x@[j] == y@[j],
        decreases x@.len() - i,
    {
        if x[i] != y[i] {
            return false;
        }
        i = i + 1;
    }
    assert(x@ =~= y@);
    true
}

/// The raw value stored under `key`, or `""` when the table has no such key.
fn raw_value(profile: &[(&'static str, &'static str)], key: &str) -> (r: &'static str)
    ensures
        r@ == profile_value(profile@, key@),
{
    let mut i: usize = 0;
    assert(profile@.skip(0) =~= profile@);
    while i < profile.len()
        invariant
            0 <= i <= profile@.len(),
            profile_value(profile@.skip(i as int), key@) == profile_value(profile@, key@),
        decreases profile@.len() - i,
    {
        assert(profile@.skip(i as int).drop_first() =~= profile@.skip(i + 1));
        let (k, v) = profile[i];
        if same_text(k, key) {
            return v;
        }
        i = i + 1;
    }
    proof {
        reveal_strlit("");
    }
    ""
}

/// Split `s` at its first NUL character: the part before it, and the part
/// after it when there is one.
fn split_at_nul(s: &'static str) -> (r: (&'static str, Option<&'static str>))
    ensures
        r.0@ == before_nul(s@),
        match r.1 {
            Some(f) => nul_index(s@) < s@.len() && f@ == after_nul(s@),
            None => nul_index(s@) == s@.len(),
        },
{
    let n = s.unicode_len();
    let mut i: usize = 0;
    while i < n
        invariant
            n == s@.len(),
            0 <= i <= n,
            forall|j: int| 0 <= j < i ==> s@[j] != '\0',
        decreases n - i,
    {
        if s.get_char(i) == '\0' {
            proof {
                lemma_nul_index_is(s@, i as int);
            }
            return (s.substring_char(0, i), Some(s.substring_char(i + 1, n)));
        }
        i = i + 1;
    }
    proof {
        lemma_nul_index_is(s@, n as int);
    }
    (s.substring_char(0, n), None)
}

/// A plain profile value: the (English) part before any NUL separator, or
/// `""` when the key is absent.
pub fn profile_str(profile: &[(&'static str, &'static str)], key: &str) -> (r: &'static str)
    ensures
        r@ == before_nul(profile_value(profile@, key@)),
{
    let raw = raw_value(profile, key);
    split_at_nul(raw).0
}

/// A bilingual profile value: English before the NUL separator, French after
/// it; the French form falls back to the English one when it is empty or
/// missing. An absent key gives two empty forms.
pub fn profile_loc(profile: &[(&'static str, &'static str)], key: &str) -> (r: LStr)
    ensures
        (r.en@, r.fr@) == localized_pair(profile_value(profile@, key@)),
{
    let raw = raw_value(profile, key);
    let (en, rest) = split_at_nul(raw);
    let fr = match rest {
        Some(f) => f,
        None => {
            proof {
                reveal_strlit("");
            }
            ""
        },
    };
    LStr { en, fr: if fr.is_empty() { en } else { fr } }
}

/// The English form of a bilingual value is what the plain lookup gives for
/// the same key.
pub proof fn lemma_loc_en_is_plain_value(table: Seq<(&'static str, &'static str)>, key: Seq<char>)
    ensures
        localized_pair(profile_value(table, key)).0 == before_nul(profile_value(table, key)),
{
}

/// A bilingual value's French form is empty only when its English form is
/// empty too, and a French form that is present is shown as is.
pub proof fn lemma_loc_french_falls_back(raw: Seq<char>)
    ensures
        localized_pair(raw).1.len() == 0 ==> localized_pair(raw).0.len() == 0,
        after_nul(raw).len() > 0 ==> localized_pair(raw).1 == after_nul(raw),
        after_nul(raw).len() == 0 ==> localized_pair(raw).1 == localized_pair(raw).0,
{
}

} // verus!
