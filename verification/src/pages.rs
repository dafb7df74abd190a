//! What each page shows: section headings and navigation labels in both
//! languages, the French-draft notice, and the parts of an entry that a
//! timeline item or a card displays.

use vstd::prelude::*;
use vstd::string::StringSliceAdditionalSpecFns;
use crate::content::{Entry, Lang};
use crate::date::{format_period, period_text};

verus! {

/// The sections of the site, one page each.
#[derive(Clone, Copy, PartialEq, Eq, Structural, Debug)]
pub enum Section {
    Home,
    Experience,
    Education,
    Teaching,
    Skills,
    Publications,
    Talks,
    Portfolio,
    Blog,
    Archive,
    Cv,
}

/// The value of the `lang` attribute of the document for `lang`.
pub open spec fn lang_tag(lang: Lang) -> Seq<char> {
    match lang {
        Lang::En => "en"@,
        Lang::Fr => "fr"@,
    }
}

/// The label of a section in the navigation bar.
pub open spec fn nav_text(section: Section, lang: Lang) -> Seq<char> {
    match (section, lang) {
        (Section::Home, Lang::En) => "Home"@,
        (Section::Home, Lang::Fr) => "Accueil"@,
        (Section::Experience, Lang::En) => "Experience"@,
        (Section::Experience, Lang::Fr) => "Expérience"@,
        (Section::Education, Lang::En) => "Education"@,
        (Section::Education, Lang::Fr) => "Formation"@,
        (Section::Teaching, Lang::En) => "Teaching"@,
        (Section::Teaching, Lang::Fr) => "Enseignement"@,
        (Section::Skills, Lang::En) => "Skills"@,
        (Section::Skills, Lang::Fr) => "Compétences"@,
        (Section::Publications, _) => "Publications"@,
        (Section::Talks, Lang::En) => "Talks"@,
        (Section::Talks, Lang::Fr) => "Exposés"@,
        (Section::Portfolio, _) => "Portfolio"@,
        (Section::Blog, _) => "Blog"@,
        (Section::Archive, Lang::En) => "Archive"@,
        (Section::Archive, Lang::Fr) => "Archives"@,
        (Section::Cv, _) => "CV"@,
    }
}

/// The heading of a section's page; the home page has none of its own (it
/// shows the profile's name).
pub open spec fn heading_text(section: Section, lang: Lang) -> Option<Seq<char>> {
    match (section, lang) {
        (Section::Home, _) => None,
        (Section::Experience, Lang::En) => Some("Professional experience"@),
        (Section::Experience, Lang::Fr) => Some("Expérience professionnelle"@),
        (Section::Education, Lang::En) => Some("Education"@),
        (Section::Education, Lang::Fr) => Some("Formation"@),
        (Section::Teaching, Lang::En) => Some("Teaching"@),
        (Section::Teaching, Lang::Fr) => Some("Enseignement"@),
        (Section::Skills, Lang::En) => Some("Skills"@),
        (Section::Skills, Lang::Fr) => Some("Compétences"@),
        (Section::Publications, _) => Some("Publications"@),
        (Section::Talks, _) => Some("Talks"@),
        (Section::Portfolio, _) => Some("Portfolio"@),
        (Section::Blog, _) => Some("Blog"@),
        (Section::Archive, Lang::En) => Some("Archive"@),
        (Section::Archive, Lang::Fr) => Some("Archives"@),
        (Section::Cv, _) => Some("CV"@),
    }
}

/// The paragraph that a page shows under its heading, if any.
pub open spec fn note_text(section: Section, lang: Lang) -> Option<Seq<char>> {
    match (section, lang) {
        (Section::Publications, Lang::En) => Some("Primary author in bold."@),
        (Section::Publications, Lang::Fr) => Some("Premier auteur en gras."@),
        (Section::Cv, Lang::En) => Some(
            "Downloadable CVs — a full English CV and a two-page French CV — generated from the same Markdown source as the site, rendered with Typst."@,
        ),
        (Section::Cv, Lang::Fr) => Some(
            "CV téléchargeables — un CV complet en anglais et un CV condensé en deux pages en français — générés depuis la même source Markdown que le site, mis en page avec Typst."@,
        ),
        _ => None,
    }
}

/// The sections that hold only seeded sample entries so far; the navigation
/// shows them dimmed.
pub open spec fn is_placeholder(section: Section) -> bool {
    section == Section::Talks || section == Section::Portfolio || section == Section::Blog
        || section == Section::Archive
}

/// The order of the sections in the navigation bar: the populated ones
/// first, then the placeholders, then the CV.
pub open spec fn nav_order() -> Seq<Section> {
    seq![
        Section::Home,
        Section::Experience,
        Section::Education,
        Section::Teaching,
        Section::Skills,
        Section::Publications,
        Section::Talks,
        Section::Portfolio,
        Section::Blog,
        Section::Archive,
        Section::Cv,
    ]
}

/// The `lang` attribute of the document, kept in step with the language
/// toggle.
pub fn html_lang(lang: Lang) -> (r: &'static str)
    ensures
        r@ == lang_tag(lang),
{
    match lang {
        Lang::En => "en",
        Lang::Fr => "fr",
    }
}

/// The label of `section` in the navigation bar.
pub fn nav_label(section: Section, lang: Lang) -> (r: &'static str)
    ensures
        r@ == nav_text(section, lang),
{
    match (section, lang) {
        (Section::Home, Lang::En) => "Home",
        (Section::Home, Lang::Fr) => "Accueil",
        (Section::Experience, Lang::En) => "Experience",
        (Section::Experience, Lang::Fr) => "Expérience",
        (Section::Education, Lang::En) => "Education",
        (Section::Education, Lang::Fr) => "Formation",
        (Section::Teaching, Lang::En) => "Teaching",
        (Section::Teaching, Lang::Fr) => "Enseignement",
        (Section::Skills, Lang::En) => "Skills",
        (Section::Skills, Lang::Fr) => "Compétences",
        (Section::Publications, _) => "Publications",
        (Section::Talks, Lang::En) => "Talks",
        (Section::Talks, Lang::Fr) => "Exposés",
        (Section::Portfolio, _) => "Portfolio",
        (Section::Blog, _) => "Blog",
        (Section::Archive, Lang::En) => "Archive",
        (Section::Archive, Lang::Fr) => "Archives",
        (Section::Cv, _) => "CV",
    }
}

/// Whether the navigation shows `section` dimmed, as not yet populated.
pub fn nav_is_placeholder(section: Section) -> (r: bool)
    ensures
        r == is_placeholder(section),
{
    match section {
        Section::Talks | Section::Portfolio | Section::Blog | Section::Archive => true,
        _ => false,
    }
}

/// The sections in navigation order.
pub fn nav_sections() -> (r: Vec<Section>)
    ensures
        r@ == nav_order(),
{
    let r = vec![
        Section::Home,
        Section::Experience,
        Section::Education,
        Section::Teaching,
        Section::Skills,
        Section::Publications,
        Section::Talks,
        Section::Portfolio,
        Section::Blog,
        Section::Archive,
        Section::Cv,
    ];
    assert(r@ =~= nav_order());
    r
}

/// The heading of the page of `section`; `None` for the home page.
pub fn page_heading(section: Section, lang: Lang) -> (r: Option<&'static str>)
    ensures
        match r {
            Some(h) => heading_text(section, lang) == Some(h@),
            None => heading_text(section, lang) is None,
        },
{
    match (section, lang) {
        (Section::Home, _) => None,
        (Section::Experience, Lang::En) => Some("Professional experience"),
        (Section::Experience, Lang::Fr) => Some("Expérience professionnelle"),
        (Section::Education, Lang::En) => Some("Education"),
        (Section::Education, Lang::Fr) => Some("Formation"),
        (Section::Teaching, Lang::En) => Some("Teaching"),
        (Section::Teaching, Lang::Fr) => Some("Enseignement"),
        (Section::Skills, Lang::En) => Some("Skills"),
        (Section::Skills, Lang::Fr) => Some("Compétences"),
        (Section::Publications, _) => Some("Publications"),
        (Section::Talks, _) => Some("Talks"),
        (Section::Portfolio, _) => Some("Portfolio"),
        (Section::Blog, _) => Some("Blog"),
        (Section::Archive, Lang::En) => Some("Archive"),
        (Section::Archive, Lang::Fr) => Some("Archives"),
        (Section::Cv, _) => Some("CV"),
    }
}

/// The paragraph shown under the heading of `section`: the bold-author note
/// of the publications page, the introduction of the CV page.
pub fn page_note(section: Section, lang: Lang) -> (r: Option<&'static str>)
    ensures
        match r {
            Some(t) => note_text(section, lang) == Some(t@),
            None => note_text(section, lang) is None,
        },
{
    match (section, lang) {
        (Section::Publications, Lang::En) => Some("Primary author in bold."),
        (Section::Publications, Lang::Fr) => Some("Premier auteur en gras."),
        (Section::Cv, Lang::En) => Some(
            "Downloadable CVs — a full English CV and a two-page French CV — generated from the same Markdown source as the site, rendered with Typst.",
        ),
        (Section::Cv, Lang::Fr) => Some(
            "CV téléchargeables — un CV complet en anglais et un CV condensé en deux pages en français — générés depuis la même source Markdown que le site, mis en page avec Typst.",
        ),
        _ => None,
    }
}

/// Whether any entry of a collection carries a French draft.
pub fn any_fr_draft(entries: &[Entry]) -> (r: bool)
    ensures
        r == exists|i: int| 0 <= i < entries@.len() && (#[trigger] entries@[i]).fr_draft,
{
    let mut i: usize = 0;
    while i < entries.len()
        invariant
            0 <= i <= entries@.len(),
            forall|j: int| 0 <= j < i ==> !(#[trigger] entries@[j]).fr_draft,
        decreases entries@.len() - i,
    {
        if entries[i].fr_draft {
            return true;
        }
        i = i + 1;
    }
    false
}

/// The notice that the French text is a draft is shown on French pages
/// whose French text is a draft, and nowhere else.
pub fn show_fr_draft_notice(lang: Lang, draft: bool) -> (r: bool)
    ensures
        r == (lang == Lang::Fr && draft),
{
    lang == Lang::Fr && draft
}

/// The parts of an entry that a page displays. A part that is `None` is not
/// shown.
pub struct EntryView {
    pub heading: &'static str,
    pub org: Option<&'static str>,
    pub location: Option<&'static str>,
    /// Whether the " · " separator stands between organisation and location.
    pub separator: bool,
    /// Whether the line holding organisation and location is shown.
    pub meta: bool,
    pub period: Option<String>,
    pub body: &'static str,
}

/// A text shown only when it is not empty.
pub open spec fn shown_if_not_empty(s: &'static str) -> Option<&'static str> {
    if s@.len() == 0 {
        None
    } else {
        Some(s)
    }
}

fn if_not_empty(s: &'static str) -> (r: Option<&'static str>)
    ensures
        r == shown_if_not_empty(s),
{
    if s.is_empty() {
        None
    } else {
        Some(s)
    }
}

/// An entry of a timeline (experience, education, teaching, talks): heading,
/// organisation (always), location (when not empty), the separator between
/// them when both are present, the period, and the body.
pub fn timeline_item(e: Entry, lang: Lang) -> (r: EntryView)
    ensures
        r.heading == e.heading.picked(lang),
        r.org == Some(e.org),
        r.location == shown_if_not_empty(e.location.picked(lang)),
        r.separator == (e.org@.len() > 0 && e.location.picked(lang)@.len() > 0),
        r.meta,
        r.period matches Some(p) && p@ == period_text(e.start@, e.end@, lang),
        r.body == e.body_for(lang),
{
    let loc = e.location.pick(lang);
    EntryView {
        heading: e.heading.pick(lang),
        org: Some(e.org),
        location: if_not_empty(loc),
        separator: !e.org.is_empty() && !loc.is_empty(),
        meta: true,
        period: Some(format_period(e.start, e.end, lang)),
        body: e.body(lang),
    }
}

/// An entry shown as a card (portfolio, blog, archive, skills, publications):
/// heading, the period when there is a start date, a line with organisation
/// and location when either is present (each shown when not empty, with the
/// separator when both are), and the body.
pub fn card_item(e: Entry, lang: Lang) -> (r: EntryView)
    ensures
        r.heading == e.heading.picked(lang),
        r.org == shown_if_not_empty(e.org),
        r.location == shown_if_not_empty(e.location.picked(lang)),
        r.separator == (e.org@.len() > 0 && e.location.picked(lang)@.len() > 0),
        r.meta == (e.org@.len() > 0 || e.location.picked(lang)@.len() > 0),
        e.start@.len() == 0 ==> r.period is None,
        e.start@.len() > 0 ==> (r.period matches Some(p) && p@ == period_text(e.start@, e.end@, lang)),
        r.body == e.body_for(lang),
{
    let loc = e.location.pick(lang);
    let period = if e.start.is_empty() {
        None
    } else {
        Some(format_period(e.start, e.end, lang))
    };
    EntryView {
        heading: e.heading.pick(lang),
        org: if_not_empty(e.org),
        location: if_not_empty(loc),
        separator: !e.org.is_empty() && !loc.is_empty(),
        meta: !e.org.is_empty() || !loc.is_empty(),
        period,
        body: e.body(lang),
    }
}

/// The navigation bar links to every section, each exactly once.
pub proof fn lemma_nav_lists_every_section(section: Section)
    ensures
        nav_order().contains(section),
        forall|i: int, j: int|
            0 <= i < j < nav_order().len() ==> nav_order()[i] != nav_order()[j],
{
    let o = nav_order();
    match section {
        Section::Home => assert(o[0] == section),
        Section::Experience => assert(o[1] == section),
        Section::Education => assert(o[2] == section),
        Section::Teaching => assert(o[3] == section),
        Section::Skills => assert(o[4] == section),
        Section::Publications => assert(o[5] == section),
        Section::Talks => assert(o[6] == section),
        Section::Portfolio => assert(o[7] == section),
        Section::Blog => assert(o[8] == section),
        Section::Archive => assert(o[9] == section),
        Section::Cv => assert(o[10] == section),
    }
}

/// Every page but the home page has a heading of its own, in both languages.
pub proof fn lemma_every_page_but_home_has_a_heading(section: Section, lang: Lang)
    ensures
        (heading_text(section, lang) is Some) <==> section != Section::Home,
{
}

} // verus!
