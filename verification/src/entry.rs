//! Building an entry of a collection from the front matter of its content
//! file: heading, organisation, location, period and body in both
//! languages, with their fallbacks.

use vstd::prelude::*;
use vstd::string::StringExecFns;
use crate::text::{chars_of, extend, push_text, string_of, subrange_vec, trim, trim_range};
use crate::yaml::{entries, items, key_index, Yaml, YamlV, front_value, parse_front};
use crate::frontmatter::{lemma_front_shorter, split_front, split_frontmatter};
use crate::markdown::{md_html, md_to_html};
use crate::ordering::{value_key, period_sort_key, PeriodKeys};

verus! {

/* Reading values. */

/// The value under key `k` of a mapping; `None` for another value or a
/// missing key.
pub open spec fn vget(y: YamlV, k: Seq<char>) -> Option<YamlV> {
    match y {
        YamlV::Mapping(m) => {
            let i = key_index(m, k);
            if 0 <= i < m.len() {
                Some(m[i].1)
            } else {
                None
            }
        },
        _ => None,
    }
}

/// The value of an optional front-matter value.
pub open spec fn opt_value(y: Option<&Yaml>) -> Option<YamlV> {
    match y {
        Some(v) => Some(v.value()),
        None => None,
    }
}

/// The view of an optional string.
pub open spec fn opt_view(o: Option<String>) -> Option<Seq<char>> {
    match o {
        Some(s) => Some(s@),
        None => None,
    }
}

/// `vget` on an optional value.
pub open spec fn sub_value(y: Option<YamlV>, k: Seq<char>) -> Option<YamlV> {
    match y {
        Some(v) => vget(v, k),
        None => None,
    }
}

/// The text of a value: a string, or empty for null; `None` otherwise.
pub open spec fn as_text(y: Option<YamlV>) -> Option<Seq<char>> {
    match y {
        Some(YamlV::Str(s)) => Some(s),
        Some(YamlV::Null) => Some(Seq::empty()),
        _ => None,
    }
}

/// The decimal writing of a natural number.
pub open spec fn digits(n: nat) -> Seq<char>
    decreases n,
{
    if n < 10 {
        seq![(('0' as nat) + n) as char]
    } else {
        digits(n / 10) + seq![(('0' as nat) + n % 10) as char]
    }
}

/// The decimal writing of an integer.
pub open spec fn decimal(i: int) -> Seq<char> {
    if i < 0 {
        seq!['-'] + digits((-i) as nat)
    } else {
        digits(i as nat)
    }
}

/// Like `as_text`, but an integer is written in decimal.
pub open spec fn scalar_text(y: Option<YamlV>) -> Option<Seq<char>> {
    match y {
        Some(YamlV::Int(i)) => Some(decimal(i)),
        _ => as_text(y),
    }
}

/// `o`, or `None` when it is the empty text.
pub open spec fn non_empty(o: Option<Seq<char>>) -> Option<Seq<char>> {
    match o {
        Some(s) => if s.len() > 0 { Some(s) } else { None },
        None => None,
    }
}

/// `o`, or `d` when it is `None`.
pub open spec fn or_else(o: Option<Seq<char>>, d: Seq<char>) -> Seq<char> {
    match o {
        Some(s) => s,
        None => d,
    }
}

/// `a`, or `b` when `a` is `None`.
pub open spec fn either(a: Option<Seq<char>>, b: Option<Seq<char>>) -> Option<Seq<char>> {
    match a {
        Some(s) => Some(s),
        None => b,
    }
}

/// Find `k` in a value.
pub fn get<'a>(y: &'a Yaml, k: &str) -> (r: Option<&'a Yaml>)
    ensures
        opt_value(r) == vget(y.value(), k@),
{
    match y {
        Yaml::Mapping(m) => {
            let key = String::from_str(k);
            let ghost e = entries(m@);
            proof {
                let w = match y.value() {
                    YamlV::Mapping(w) => w,
                    _ => Seq::empty(),
                };
                assert(w =~= e);
            }
            let mut i = m.len();
            assert(e.subrange(0, i as int) =~= e);
            while i > 0 && !(m[i - 1].0 == key)
                invariant
                    i <= m@.len(),
                    e == entries(m@),
                    key@ == k@,
                    key_index(e.subrange(0, i as int), k@) == key_index(e, k@),
                decreases i,
            {
                assert(e.subrange(0, i as int).drop_last() =~= e.subrange(0, i - 1));
                i = i - 1;
            }
            if i > 0 {
                assert(e.subrange(0, i as int).last() == e[i - 1]);
                Some(&m[i - 1].1)
            } else {
                None
            }
        },
        _ => None,
    }
}

/// Find `k` in an optional value.
pub fn get_in<'a>(y: Option<&'a Yaml>, k: &str) -> (r: Option<&'a Yaml>)
    ensures
        opt_value(r) == sub_value(opt_value(y), k@),
{
    match y {
        Some(v) => get(v, k),
        None => None,
    }
}

/// The text of an optional value.
pub fn text_of(y: Option<&Yaml>) -> (r: Option<String>)
    ensures
        opt_view(r) == as_text(opt_value(y)),
{
    match y {
        Some(Yaml::Str(s)) => Some(s.clone()),
        Some(Yaml::Null) => Some(String::new()),
        _ => None,
    }
}

fn digits_of(n: u64) -> (r: Vec<char>)
    ensures
        r@ == digits(n as nat),
    decreases n,
{
    let d = char_of_digit((n % 10) as u32);
    if n < 10 {
        let mut v = Vec::new();
        v.push(d);
        assert(v@ =~= digits(n as nat));
        v
    } else {
        let mut v = digits_of(n / 10);
        v.push(d);
        v
    }
}

fn char_of_digit(d: u32) -> (r: char)
    requires
        d < 10,
    ensures
        r == (('0' as nat) + d) as char,
{
    if d == 0 { '0' } else if d == 1 { '1' } else if d == 2 { '2' } else if d == 3 { '3' }
    else if d == 4 { '4' } else if d == 5 { '5' } else if d == 6 { '6' } else if d == 7 { '7' }
    else if d == 8 { '8' } else { '9' }
}

/// Like `text_of`, but an integer is written in decimal.
pub fn scalar_text_of(y: Option<&Yaml>) -> (r: Option<String>)
    ensures
        opt_view(r) == scalar_text(opt_value(y)),
{
    match y {
        Some(Yaml::Int(i)) => {
            let i = *i;
            let mut v: Vec<char> = Vec::new();
            if i < 0 {
                v.push('-');
                let m: u64 = if i == i64::MIN { 9223372036854775808u64 } else { (-i) as u64 };
                let d = digits_of(m);
                extend(&mut v, d.as_slice());
            } else {
                let d = digits_of(i as u64);
                extend(&mut v, d.as_slice());
            }
            assert(v@ =~= decimal(i as int));
            Some(string_of(v.as_slice()))
        },
        _ => text_of(y),
    }
}


/* What an entry is made of. */

/// The text under `a.b` of the front matter.
pub open spec fn text_at(f: YamlV, a: Seq<char>, b: Seq<char>) -> Option<Seq<char>> {
    as_text(sub_value(vget(f, a), b))
}

/// `v`, or null when absent.
pub open spec fn or_null(v: Option<YamlV>) -> YamlV {
    match v {
        Some(x) => x,
        None => YamlV::Null,
    }
}

/// One line of a Markdown list: `- **label**: v`.
pub open spec fn labelled_line(label: Seq<char>, v: Seq<char>) -> Seq<char> {
    "- **"@ + label + "**: "@ + v + seq!['\n']
}

/// One line of a Markdown list: `- v`.
pub open spec fn plain_line(v: Seq<char>) -> Seq<char> {
    "- "@ + v + seq!['\n']
}

/// The trimmed English and French texts of a bilingual value.
pub open spec fn both_texts(val: Option<YamlV>) -> (Seq<char>, Seq<char>) {
    (
        trim(or_else(as_text(sub_value(val, "en"@)), Seq::empty())),
        trim(or_else(as_text(sub_value(val, "fr"@)), Seq::empty())),
    )
}

/// The English line, the French line and whether a French text was given,
/// for one labelled field of an education entry; nothing when it has no
/// English text. The French line falls back to the English text.
pub open spec fn field_part(val: Option<YamlV>, label_en: Seq<char>, label_fr: Seq<char>) -> (
    Seq<char>,
    Seq<char>,
    bool,
) {
    let (en, fr) = both_texts(val);
    if en.len() == 0 {
        (Seq::empty(), Seq::empty(), false)
    } else {
        (
            labelled_line(label_en, en),
            labelled_line(label_fr, if fr.len() == 0 { en } else { fr }),
            fr.len() > 0,
        )
    }
}

/// The same for one course.
pub open spec fn course_part(c: YamlV) -> (Seq<char>, Seq<char>, bool) {
    let (en, fr) = both_texts(Some(c));
    if en.len() == 0 {
        (Seq::empty(), Seq::empty(), false)
    } else {
        (plain_line(en), plain_line(if fr.len() == 0 { en } else { fr }), fr.len() > 0)
    }
}

/// The lines of a list of courses, in order.
pub open spec fn courses_part(cs: Seq<YamlV>) -> (Seq<char>, Seq<char>, bool)
    decreases cs.len(),
{
    if cs.len() == 0 {
        (Seq::empty(), Seq::empty(), false)
    } else {
        let a = courses_part(cs.drop_last());
        let b = course_part(cs.last());
        (a.0 + b.0, a.1 + b.1, a.2 || b.2)
    }
}

/// The courses of an education entry, when it has a list of them.
pub open spec fn courses_of(f: YamlV) -> (Seq<char>, Seq<char>, bool) {
    match vget(f, "courses"@) {
        Some(YamlV::List(cs)) => courses_part(cs),
        _ => (Seq::empty(), Seq::empty(), false),
    }
}

/// The English and French Markdown bodies of an education entry, made of
/// its thesis, honors, specialization and courses. The French body is empty
/// when no French text was given at all.
pub open spec fn education_body(f: YamlV) -> (Seq<char>, Seq<char>) {
    let t = field_part(vget(f, "thesis"@), "Thesis"@, "Thèse"@);
    let h = field_part(vget(f, "honors"@), "Honors"@, "Mention"@);
    let s = field_part(vget(f, "specialization"@), "Specialization"@, "Spécialisation"@);
    let c = courses_of(f);
    let en = t.0 + h.0 + s.0 + c.0;
    let fr = t.1 + h.1 + s.1 + c.1;
    (en, if t.2 || h.2 || s.2 || c.2 { fr } else { Seq::empty() })
}

/// The English name of an entry as given: its degree, else its title, else
/// its section heading.
pub open spec fn named_en(f: YamlV) -> Option<Seq<char>> {
    either(
        text_at(f, "degree"@, "en"@),
        either(text_at(f, "title"@, "en"@), text_at(f, "heading"@, "en"@)),
    )
}

/// The French name of an entry as given, when not empty.
pub open spec fn named_fr(f: YamlV) -> Option<Seq<char>> {
    either(
        non_empty(text_at(f, "degree"@, "fr"@)),
        either(non_empty(text_at(f, "title"@, "fr"@)), non_empty(text_at(f, "heading"@, "fr"@))),
    )
}

/// The English heading: the degree, else the title, else the section
/// heading, else the role.
pub open spec fn heading_en(f: YamlV) -> Seq<char> {
    or_else(named_en(f), or_else(text_at(f, "role"@, "en"@), Seq::empty()))
}

/// The French heading: a non-empty French degree, title or section
/// heading, else the English one, else the French role, else the English
/// role.
pub open spec fn heading_fr(f: YamlV) -> Seq<char> {
    let role_en = or_else(text_at(f, "role"@, "en"@), Seq::empty());
    let role_fr = or_else(non_empty(text_at(f, "role"@, "fr"@)), role_en);
    or_else(named_fr(f), or_else(named_en(f), role_fr))
}

/// An entry without any French name falls back to its English heading.
pub proof fn lemma_heading_fr_falls_back(f: YamlV)
    requires
        named_fr(f) is None,
        non_empty(text_at(f, "role"@, "fr"@)) is None,
    ensures
        heading_fr(f) == heading_en(f),
{
}

/// A non-empty French degree is the French heading.
pub proof fn lemma_degree_is_heading_fr(f: YamlV, d: Seq<char>)
    requires
        text_at(f, "degree"@, "fr"@) == Some(d),
        d.len() > 0,
    ensures
        heading_fr(f) == d,
{
}

/// An English degree is the English heading.
pub proof fn lemma_degree_is_heading_en(f: YamlV, d: Seq<char>)
    requires
        text_at(f, "degree"@, "en"@) == Some(d),
    ensures
        heading_en(f) == d,
{
}

/// Without a French degree, a non-empty French title is the French
/// heading.
pub proof fn lemma_title_is_heading_fr(f: YamlV, t: Seq<char>)
    requires
        non_empty(text_at(f, "degree"@, "fr"@)) is None,
        text_at(f, "title"@, "fr"@) == Some(t),
        t.len() > 0,
    ensures
        heading_fr(f) == t,
{
}

/// Without an English degree, the English title is the English heading.
pub proof fn lemma_title_is_heading_en(f: YamlV, t: Seq<char>)
    requires
        text_at(f, "degree"@, "en"@) is None,
        text_at(f, "title"@, "en"@) == Some(t),
    ensures
        heading_en(f) == t,
{
}

/// The organisation: the company, else the venue (a text or its English
/// form).
pub open spec fn org_of(f: YamlV) -> Seq<char> {
    let company = or_else(as_text(vget(f, "company"@)), Seq::empty());
    let venue = or_else(
        either(as_text(vget(f, "venue"@)), text_at(f, "venue"@, "en"@)),
        Seq::empty(),
    );
    if company.len() == 0 {
        venue
    } else {
        company
    }
}

/// The English location.
pub open spec fn location_en(f: YamlV) -> Seq<char> {
    or_else(text_at(f, "location"@, "en"@), Seq::empty())
}

/// The French location, else the English one.
pub open spec fn location_fr(f: YamlV) -> Seq<char> {
    or_else(non_empty(text_at(f, "location"@, "fr"@)), location_en(f))
}

/// A period endpoint as text; empty when null or absent.
pub open spec fn endpoint(f: YamlV, k: Seq<char>) -> Seq<char> {
    or_else(scalar_text(sub_value(vget(f, "period"@), k)), Seq::empty())
}

/// The Markdown bodies: the long summary, else the short one; an entry
/// without an English summary gets its education body.
pub open spec fn bodies(f: YamlV) -> (Seq<char>, Seq<char>) {
    let en = or_else(
        non_empty(text_at(f, "summary"@, "en.long"@)),
        or_else(text_at(f, "summary"@, "en.short"@), Seq::empty()),
    );
    let fr = or_else(
        non_empty(text_at(f, "summary"@, "fr.long"@)),
        or_else(non_empty(text_at(f, "summary"@, "fr.short"@)), Seq::empty()),
    );
    if en.len() == 0 {
        education_body(f)
    } else {
        (en, fr)
    }
}

/// Whether the French summary is marked as a draft.
pub open spec fn fr_draft_of(f: YamlV) -> bool {
    match sub_value(vget(f, "summary"@), "fr_draft"@) {
        Some(YamlV::Bool(b)) => b,
        _ => false,
    }
}

/// The `order` field, 0 when absent.
pub open spec fn order_of(f: YamlV) -> int {
    match vget(f, "order"@) {
        Some(YamlV::Int(i)) => i,
        _ => 0,
    }
}

/// A non-empty company is the organisation, whatever the venue.
pub proof fn lemma_company_is_org(f: YamlV, c: Seq<char>)
    requires
        as_text(vget(f, "company"@)) == Some(c),
        c.len() > 0,
    ensures
        org_of(f) == c,
{
}

/// A non-empty long English summary is the English body; the short one is
/// used only when the long one is empty or absent.
pub proof fn lemma_long_summary_is_body(f: YamlV, b: Seq<char>)
    requires
        text_at(f, "summary"@, "en.long"@) == Some(b),
        b.len() > 0,
    ensures
        bodies(f).0 == b,
{
}

/// Without a long English summary, a non-empty short one is the English
/// body.
pub proof fn lemma_short_summary_is_body(f: YamlV, b: Seq<char>)
    requires
        non_empty(text_at(f, "summary"@, "en.long"@)) is None,
        text_at(f, "summary"@, "en.short"@) == Some(b),
        b.len() > 0,
    ensures
        bodies(f).0 == b,
{
}

/// The French location is the French text when one is given, the English
/// one otherwise.
pub proof fn lemma_location_fr(f: YamlV)
    ensures
        text_at(f, "location"@, "fr"@) matches Some(t) ==> (t.len() > 0 ==> location_fr(f) == t),
        non_empty(text_at(f, "location"@, "fr"@)) is None ==> location_fr(f) == location_en(f),
{
}

/// An entry of a collection, as built from its front matter.
pub struct SourceEntry {
    pub id: String,
    pub order: i64,
    pub heading_en: String,
    pub heading_fr: String,
    pub org: String,
    pub location_en: String,
    pub location_fr: String,
    pub start: String,
    pub end: String,
    pub body_en: String,
    pub body_fr: String,
    pub fr_draft: bool,
    pub keys: PeriodKeys,
}

/// The value of an entry.
pub struct EntryV {
    pub id: Seq<char>,
    pub order: int,
    pub heading_en: Seq<char>,
    pub heading_fr: Seq<char>,
    pub org: Seq<char>,
    pub location_en: Seq<char>,
    pub location_fr: Seq<char>,
    pub start: Seq<char>,
    pub end: Seq<char>,
    pub body_en: Seq<char>,
    pub body_fr: Seq<char>,
    pub fr_draft: bool,
    pub end_key: (int, int),
    pub start_key: (int, int),
}

impl View for SourceEntry {
    type V = EntryV;

    open spec fn view(&self) -> EntryV {
        EntryV {
            id: self.id@,
            order: self.order as int,
            heading_en: self.heading_en@,
            heading_fr: self.heading_fr@,
            org: self.org@,
            location_en: self.location_en@,
            location_fr: self.location_fr@,
            start: self.start@,
            end: self.end@,
            body_en: self.body_en@,
            body_fr: self.body_fr@,
            fr_draft: self.fr_draft,
            end_key: (self.keys.end.0 as int, self.keys.end.1 as int),
            start_key: (self.keys.start.0 as int, self.keys.start.1 as int),
        }
    }
}

/// The entry that a front matter describes; `None` when it has no `id`.
pub open spec fn entry_of(f: YamlV) -> Option<EntryV> {
    match as_text(vget(f, "id"@)) {
        None => None,
        Some(id) => {
            let (en, fr) = bodies(f);
            Some(
                EntryV {
                    id,
                    order: order_of(f),
                    heading_en: heading_en(f),
                    heading_fr: heading_fr(f),
                    org: org_of(f),
                    location_en: location_en(f),
                    location_fr: location_fr(f),
                    start: endpoint(f, "start"@),
                    end: endpoint(f, "end"@),
                    body_en: md_html(en),
                    body_fr: if fr.len() == 0 { Seq::empty() } else { md_html(fr) },
                    fr_draft: fr_draft_of(f),
                    end_key: value_key(or_null(sub_value(vget(f, "period"@), "end"@)), true),
                    start_key: value_key(or_null(sub_value(vget(f, "period"@), "start"@)), false),
                },
            )
        },
    }
}


/// A front matter gives an entry exactly when it has an `id`, and the
/// entry carries that id and its `order` (0 when absent).
pub proof fn lemma_entry_has_its_id(f: YamlV)
    ensures
        entry_of(f) is Some <==> as_text(vget(f, "id"@)) is Some,
        entry_of(f) is Some ==> entry_of(f)->0.id == as_text(vget(f, "id"@))->0,
        entry_of(f) is Some ==> (vget(f, "order"@) matches Some(YamlV::Int(i)) ==> entry_of(
            f,
        )->0.order == i),
{
}

/* Building an entry. */

fn pick(o: Option<String>, d: String) -> (r: String)
    ensures
        r@ == or_else(opt_view(o), d@),
{
    match o {
        Some(s) => s,
        None => d,
    }
}

fn keep_non_empty(o: Option<String>) -> (r: Option<String>)
    ensures
        opt_view(r) == non_empty(opt_view(o)),
{
    match o {
        Some(s) => if s.as_str().is_empty() {
            None
        } else {
            Some(s)
        },
        None => None,
    }
}

fn first_of(a: Option<String>, b: Option<String>) -> (r: Option<String>)
    ensures
        opt_view(r) == either(opt_view(a), opt_view(b)),
{
    match a {
        Some(s) => Some(s),
        None => b,
    }
}

/// The text under `a.b` of a front matter.
pub fn text_at_of(f: &Yaml, a: &str, b: &str) -> (r: Option<String>)
    ensures
        opt_view(r) == text_at(f.value(), a@, b@),
{
    text_of(get_in(get(f, a), b))
}

fn named_en_of(f: &Yaml) -> (r: Option<String>)
    ensures
        opt_view(r) == named_en(f.value()),
{
    first_of(
        text_at_of(f, "degree", "en"),
        first_of(text_at_of(f, "title", "en"), text_at_of(f, "heading", "en")),
    )
}

fn named_fr_of(f: &Yaml) -> (r: Option<String>)
    ensures
        opt_view(r) == named_fr(f.value()),
{
    first_of(
        keep_non_empty(text_at_of(f, "degree", "fr")),
        first_of(
            keep_non_empty(text_at_of(f, "title", "fr")),
            keep_non_empty(text_at_of(f, "heading", "fr")),
        ),
    )
}

fn trimmed(o: Option<String>) -> (r: Vec<char>)
    ensures
        r@ == trim(or_else(opt_view(o), Seq::empty())),
{
    let c = match o {
        Some(s) => chars_of(s.as_str()),
        None => Vec::new(),
    };
    let (a, b) = trim_range(c.as_slice(), 0, c.len());
    assert(c@.subrange(0, c@.len() as int) =~= c@);
    subrange_vec(c.as_slice(), a, b)
}

fn texts_of(val: Option<&Yaml>) -> (r: (Vec<char>, Vec<char>))
    ensures
        (r.0@, r.1@) == both_texts(opt_value(val)),
{
    let en = trimmed(text_of(get_in(val, "en")));
    let fr = trimmed(text_of(get_in(val, "fr")));
    (en, fr)
}

fn push_labelled(out: &mut Vec<char>, label: &str, v: &[char])
    ensures
        final(out)@ == old(out)@ + labelled_line(label@, v@),
{
    push_text(out, "- **");
    push_text(out, label);
    push_text(out, "**: ");
    extend(out, v);
    out.push('\n');
    assert(final(out)@ =~= old(out)@ + labelled_line(label@, v@));
}

fn push_plain(out: &mut Vec<char>, v: &[char])
    ensures
        final(out)@ == old(out)@ + plain_line(v@),
{
    push_text(out, "- ");
    extend(out, v);
    out.push('\n');
    assert(final(out)@ =~= old(out)@ + plain_line(v@));
}

fn field_part_of(val: Option<&Yaml>, label_en: &str, label_fr: &str) -> (r: (Vec<char>, Vec<char>, bool))
    ensures
        (r.0@, r.1@, r.2) == field_part(opt_value(val), label_en@, label_fr@),
{
    let (en, fr) = texts_of(val);
    let mut a: Vec<char> = Vec::new();
    let mut b: Vec<char> = Vec::new();
    if en.len() == 0 {
        assert(a@ =~= Seq::<char>::empty());
        return (a, b, false);
    }
    push_labelled(&mut a, label_en, en.as_slice());
    if fr.len() == 0 {
        push_labelled(&mut b, label_fr, en.as_slice());
    } else {
        push_labelled(&mut b, label_fr, fr.as_slice());
    }
    assert(a@ =~= labelled_line(label_en@, en@));
    assert(b@ =~= labelled_line(label_fr@, if fr@.len() == 0 { en@ } else { fr@ }));
    let given = fr.len() > 0;
    (a, b, given)
}

fn course_part_of(c: &Yaml) -> (r: (Vec<char>, Vec<char>, bool))
    ensures
        (r.0@, r.1@, r.2) == course_part(c.value()),
{
    let (en, fr) = texts_of(Some(c));
    let mut a: Vec<char> = Vec::new();
    let mut b: Vec<char> = Vec::new();
    if en.len() == 0 {
        assert(a@ =~= Seq::<char>::empty());
        return (a, b, false);
    }
    push_plain(&mut a, en.as_slice());
    if fr.len() == 0 {
        push_plain(&mut b, en.as_slice());
    } else {
        push_plain(&mut b, fr.as_slice());
    }
    assert(a@ =~= plain_line(en@));
    assert(b@ =~= plain_line(if fr@.len() == 0 { en@ } else { fr@ }));
    let given = fr.len() > 0;
    (a, b, given)
}

fn courses_of_exec(f: &Yaml) -> (r: (Vec<char>, Vec<char>, bool))
    ensures
        (r.0@, r.1@, r.2) == courses_of(f.value()),
{
    let mut en: Vec<char> = Vec::new();
    let mut fr: Vec<char> = Vec::new();
    let mut any = false;
    match get(f, "courses") {
        Some(Yaml::List(cs)) => {
            let ghost all = items(cs@);
            proof {
                let w = match vget(f.value(), "courses"@) {
                    Some(YamlV::List(w)) => w,
                    _ => Seq::empty(),
                };
                assert(w =~= all);
                assert(all.subrange(0, 0) =~= Seq::<YamlV>::empty());
            }
            let mut i: usize = 0;
            while i < cs.len()
                invariant
                    i <= cs@.len(),
                    all == items(cs@),
                    (en@, fr@, any) == courses_part(all.subrange(0, i as int)),
                decreases cs@.len() - i,
            {
                let (a, b, g) = course_part_of(&cs[i]);
                extend(&mut en, a.as_slice());
                extend(&mut fr, b.as_slice());
                any = any || g;
                assert(all.subrange(0, i + 1).drop_last() =~= all.subrange(0, i as int));
                i = i + 1;
            }
            assert(all.subrange(0, i as int) =~= all);
        },
        _ => {
            assert(en@ =~= Seq::<char>::empty());
        },
    }
    (en, fr, any)
}

fn education_body_of(f: &Yaml) -> (r: (Vec<char>, Vec<char>))
    ensures
        (r.0@, r.1@) == education_body(f.value()),
{
    let t = field_part_of(get(f, "thesis"), "Thesis", "Thèse");
    let h = field_part_of(get(f, "honors"), "Honors", "Mention");
    let s = field_part_of(get(f, "specialization"), "Specialization", "Spécialisation");
    let c = courses_of_exec(f);
    let mut en: Vec<char> = Vec::new();
    extend(&mut en, t.0.as_slice());
    extend(&mut en, h.0.as_slice());
    extend(&mut en, s.0.as_slice());
    extend(&mut en, c.0.as_slice());
    let mut fr: Vec<char> = Vec::new();
    if t.2 || h.2 || s.2 || c.2 {
        extend(&mut fr, t.1.as_slice());
        extend(&mut fr, h.1.as_slice());
        extend(&mut fr, s.1.as_slice());
        extend(&mut fr, c.1.as_slice());
    }
    assert(en@ =~= t.0@ + h.0@ + s.0@ + c.0@);
    assert(fr@ =~= (if t.2 || h.2 || s.2 || c.2 { t.1@ + h.1@ + s.1@ + c.1@ } else { Seq::empty() }));
    (en, fr)
}

fn bodies_of(f: &Yaml) -> (r: (Vec<char>, Vec<char>))
    ensures
        (r.0@, r.1@) == bodies(f.value()),
{
    let en = pick(
        keep_non_empty(text_at_of(f, "summary", "en.long")),
        pick(text_at_of(f, "summary", "en.short"), String::new()),
    );
    let fr = pick(
        keep_non_empty(text_at_of(f, "summary", "fr.long")),
        pick(keep_non_empty(text_at_of(f, "summary", "fr.short")), String::new()),
    );
    if en.as_str().is_empty() {
        education_body_of(f)
    } else {
        (chars_of(en.as_str()), chars_of(fr.as_str()))
    }
}

/// Build the entry that a front matter describes; `None` when it has no
/// `id`.
pub fn entry_from_front(front: &Yaml) -> (r: Option<SourceEntry>)
    ensures
        match r {
            Some(e) => entry_of(front.value()) == Some(e@),
            None => entry_of(front.value()) is None,
        },
{
    let id = match text_of(get(front, "id")) {
        Some(s) => s,
        None => {
            return None;
        },
    };
    let order: i64 = match get(front, "order") {
        Some(Yaml::Int(i)) => *i,
        _ => 0,
    };
    let role_en = pick(text_at_of(front, "role", "en"), String::new());
    let role_fr = pick(keep_non_empty(text_at_of(front, "role", "fr")), role_en.clone());
    let heading_en = pick(named_en_of(front), role_en);
    let heading_fr = pick(named_fr_of(front), pick(named_en_of(front), role_fr));
    let company = pick(text_of(get(front, "company")), String::new());
    let venue = pick(
        first_of(text_of(get(front, "venue")), text_at_of(front, "venue", "en")),
        String::new(),
    );
    let org = if company.as_str().is_empty() {
        venue
    } else {
        company
    };
    let location_en = pick(text_at_of(front, "location", "en"), String::new());
    let location_fr = pick(keep_non_empty(text_at_of(front, "location", "fr")), location_en.clone());
    let period = get(front, "period");
    let start = pick(scalar_text_of(get_in(period, "start")), String::new());
    let end = pick(scalar_text_of(get_in(period, "end")), String::new());
    let (long_en, long_fr) = bodies_of(front);
    let body_en = md_to_html(string_of(long_en.as_slice()).as_str());
    let body_fr = if long_fr.len() == 0 {
        String::new()
    } else {
        md_to_html(string_of(long_fr.as_slice()).as_str())
    };
    let fr_draft = match get_in(get(front, "summary"), "fr_draft") {
        Some(Yaml::Bool(b)) => *b,
        _ => false,
    };
    let null = Yaml::Null;
    let end_value = match get_in(period, "end") {
        Some(v) => v,
        None => &null,
    };
    let start_value = match get_in(period, "start") {
        Some(v) => v,
        None => &null,
    };
    let keys = PeriodKeys {
        end: period_sort_key(end_value, true),
        start: period_sort_key(start_value, false),
    };
    let e = SourceEntry {
        id,
        order,
        heading_en,
        heading_fr,
        org,
        location_en,
        location_fr,
        start,
        end,
        body_en,
        body_fr,
        fr_draft,
        keys,
    };
    Some(e)
}

/// The front matter of a content file.
pub fn front_from_text(txt: &str) -> (r: Yaml)
    requires
        txt@.len() + 8 <= usize::MAX,
    ensures
        r.value() == front_value(split_front(txt@).0),
{
    let (fm, _) = split_frontmatter(txt);
    proof {
        lemma_front_shorter(txt@);
    }
    parse_front(fm.as_str())
}

/// Build the entry that a content file describes; `None` when its front
/// matter has no `id`.
pub fn entry_from_text(txt: &str) -> (r: Option<SourceEntry>)
    requires
        txt@.len() + 8 <= usize::MAX,
    ensures
        match r {
            Some(e) => entry_of(front_value(split_front(txt@).0)) == Some(e@),
            None => entry_of(front_value(split_front(txt@).0)) is None,
        },
{
    let front = front_from_text(txt);
    entry_from_front(&front)
}

/* Prose blocks and the profile. */

/// The text under `k`, empty when absent or not a text.
pub open spec fn text_or_empty(f: YamlV, k: Seq<char>) -> Seq<char> {
    or_else(as_text(vget(f, k)), Seq::empty())
}

/// A bilingual prose block: its English and French bodies as HTML (the
/// French one empty when not written) and whether the French is a draft.
pub open spec fn prose_of(f: YamlV) -> (Seq<char>, Seq<char>, bool) {
    let en = text_or_empty(f, "en"@);
    let fr = text_or_empty(f, "fr"@);
    let draft = match vget(f, "fr_draft"@) {
        Some(YamlV::Bool(b)) => b,
        _ => false,
    };
    (md_html(en), if fr.len() == 0 { Seq::empty() } else { md_html(fr) }, draft)
}

/// Convert a bilingual prose block.
pub fn prose_from_front(front: &Yaml) -> (r: (String, String, bool))
    ensures
        (r.0@, r.1@, r.2) == prose_of(front.value()),
{
    let en = pick(text_of(get(front, "en")), String::new());
    let fr = pick(text_of(get(front, "fr")), String::new());
    let draft = match get(front, "fr_draft") {
        Some(Yaml::Bool(b)) => *b,
        _ => false,
    };
    let en_html = md_to_html(en.as_str());
    let fr_html = if fr.as_str().is_empty() {
        String::new()
    } else {
        md_to_html(fr.as_str())
    };
    (en_html, fr_html, draft)
}

/// A bilingual profile value: English and French joined by a NUL; the
/// French falls back to the English when absent.
pub open spec fn profile_pair(f: YamlV, k: Seq<char>) -> Seq<char> {
    let en = or_else(text_at(f, k, "en"@), Seq::empty());
    let fr = or_else(text_at(f, k, "fr"@), en);
    en + seq!['\u{0}'] + fr
}

/// The profile as key/value pairs: name, email, LinkedIn, phone, then the
/// bilingual title and location.
pub open spec fn profile_of(f: YamlV) -> Seq<(Seq<char>, Seq<char>)> {
    seq![
        ("name"@, text_or_empty(f, "name"@)),
        ("email"@, text_or_empty(f, "email"@)),
        ("linkedin"@, text_or_empty(f, "linkedin"@)),
        ("phone"@, text_or_empty(f, "phone"@)),
        ("title"@, profile_pair(f, "title"@)),
        ("location"@, profile_pair(f, "location"@)),
    ]
}

/// The views of key/value pairs.
pub open spec fn pair_views(v: Seq<(String, String)>) -> Seq<(Seq<char>, Seq<char>)> {
    Seq::new(v.len(), |i: int| (v[i].0@, v[i].1@))
}

fn plain_pair(front: &Yaml, k: &str) -> (r: (String, String))
    ensures
        (r.0@, r.1@) == (k@, text_or_empty(front.value(), k@)),
{
    (String::from_str(k), pick(text_of(get(front, k)), String::new()))
}

fn joined_pair(front: &Yaml, k: &str) -> (r: (String, String))
    ensures
        (r.0@, r.1@) == (k@, profile_pair(front.value(), k@)),
{
    let en = pick(text_at_of(front, k, "en"), String::new());
    let fr = pick(text_at_of(front, k, "fr"), en.clone());
    let mut v: Vec<char> = Vec::new();
    push_text(&mut v, en.as_str());
    v.push('\u{0}');
    push_text(&mut v, fr.as_str());
    (String::from_str(k), string_of(v.as_slice()))
}

/// The profile as key/value pairs.
pub fn profile_pairs(front: &Yaml) -> (r: Vec<(String, String)>)
    ensures
        pair_views(r@) == profile_of(front.value()),
{
    let mut r: Vec<(String, String)> = Vec::new();
    r.push(plain_pair(front, "name"));
    r.push(plain_pair(front, "email"));
    r.push(plain_pair(front, "linkedin"));
    r.push(plain_pair(front, "phone"));
    r.push(joined_pair(front, "title"));
    r.push(joined_pair(front, "location"));
    assert(pair_views(r@) =~= profile_of(front.value()));
    r
}

} // verus!
