use fmonna_site::content::{Entry, LStr, Lang};
use fmonna_site::home::{home_view, LinkKind};
use fmonna_site::pages::{
    any_fr_draft, card_item, html_lang, nav_is_placeholder, nav_label, nav_sections, page_heading,
    page_note, show_fr_draft_notice, timeline_item, Section,
};
use fmonna_site::profile::{profile_loc, profile_str};

static PROFILE: &[(&str, &str)] = &[
    ("name", "Florence Monna"),
    ("email", "florence@example.org"),
    ("linkedin", "florencemonna"),
    ("phone", ""),
    ("title", "HPC Architect\0Architecte HPC"),
    ("location", "Paris, France\0"),
];

fn job(org: &'static str, loc_en: &'static str, start: &'static str, end: &'static str) -> Entry {
    Entry {
        id: "edf",
        order: 1,
        heading: LStr { en: "HPC Architect", fr: "Architecte HPC" },
        org,
        location: LStr { en: loc_en, fr: "" },
        start,
        end,
        body_en: "<p>Work.</p>",
        body_fr: "",
        fr_draft: false,
    }
}

#[test]
fn profile_plain_values() {
    assert_eq!(profile_str(PROFILE, "name"), "Florence Monna");
    assert_eq!(profile_str(PROFILE, "email"), "florence@example.org");
    assert_eq!(profile_str(PROFILE, "github"), "");
    assert_eq!(profile_str(PROFILE, "phone"), "");
}

#[test]
fn profile_plain_value_of_a_pair_is_its_english_form() {
    assert_eq!(profile_str(PROFILE, "title"), "HPC Architect");
    assert_eq!(profile_str(PROFILE, "location"), "Paris, France");
    assert_eq!(profile_loc(PROFILE, "title").en, profile_str(PROFILE, "title"));
}

#[test]
fn profile_localized_values() {
    let title = profile_loc(PROFILE, "title");
    assert_eq!(title.en, "HPC Architect");
    assert_eq!(title.fr, "Architecte HPC");
    assert_eq!(title.pick(Lang::Fr), "Architecte HPC");
    let location = profile_loc(PROFILE, "location");
    assert_eq!(location.en, "Paris, France");
    assert_eq!(location.fr, "Paris, France");
    let name = profile_loc(PROFILE, "name");
    assert_eq!(name.en, "Florence Monna");
    assert_eq!(name.fr, "Florence Monna");
    let missing = profile_loc(PROFILE, "tagline");
    assert_eq!(missing.en, "");
    assert_eq!(missing.fr, "");
}

#[test]
fn profile_first_matching_key_wins() {
    let table: &[(&str, &str)] = &[("name", "First"), ("name", "Second")];
    assert_eq!(profile_str(table, "name"), "First");
    let table: &[(&str, &str)] = &[("k", "a\0b\0c")];
    assert_eq!(profile_str(table, "k"), "a");
    assert_eq!(profile_loc(table, "k").fr, "b\0c");
}

#[test]
fn document_language() {
    assert_eq!(html_lang(Lang::En), "en");
    assert_eq!(html_lang(Lang::Fr), "fr");
}

#[test]
fn navigation_labels_and_order() {
    let order = nav_sections();
    assert_eq!(order.len(), 11);
    assert_eq!(order[0], Section::Home);
    assert_eq!(order[6], Section::Talks);
    assert_eq!(order[10], Section::Cv);
    assert_eq!(nav_label(Section::Home, Lang::Fr), "Accueil");
    assert_eq!(nav_label(Section::Talks, Lang::Fr), "Exposés");
    assert_eq!(nav_label(Section::Skills, Lang::Fr), "Compétences");
    assert_eq!(nav_label(Section::Archive, Lang::En), "Archive");
    assert_eq!(nav_label(Section::Cv, Lang::Fr), "CV");
    assert!(nav_is_placeholder(Section::Blog));
    assert!(nav_is_placeholder(Section::Talks));
    assert!(!nav_is_placeholder(Section::Experience));
    assert!(!nav_is_placeholder(Section::Cv));
}

#[test]
fn page_headings_and_notes() {
    assert_eq!(page_heading(Section::Home, Lang::En), None);
    assert_eq!(page_heading(Section::Experience, Lang::En), Some("Professional experience"));
    assert_eq!(page_heading(Section::Experience, Lang::Fr), Some("Expérience professionnelle"));
    assert_eq!(page_heading(Section::Talks, Lang::Fr), Some("Talks"));
    assert_eq!(page_heading(Section::Archive, Lang::Fr), Some("Archives"));
    assert_eq!(page_note(Section::Publications, Lang::Fr), Some("Premier auteur en gras."));
    assert!(page_note(Section::Cv, Lang::En).unwrap().starts_with("Downloadable CVs"));
    assert_eq!(page_note(Section::Skills, Lang::En), None);
}

#[test]
fn fr_draft_notice_only_on_french_drafts() {
    assert!(show_fr_draft_notice(Lang::Fr, true));
    assert!(!show_fr_draft_notice(Lang::Fr, false));
    assert!(!show_fr_draft_notice(Lang::En, true));
    let mut a = job("EDF", "Paris", "2024-09", "");
    let b = job("CEA", "Saclay", "2020-01", "2024-08");
    assert!(!any_fr_draft(&[a, b]));
    a.fr_draft = true;
    assert!(any_fr_draft(&[b, a]));
    assert!(!any_fr_draft(&[]));
}

#[test]
fn timeline_item_shows_separator_only_with_both_parts() {
    let v = timeline_item(job("EDF R&D", "Paris, France", "2024-09", ""), Lang::En);
    assert_eq!(v.heading, "HPC Architect");
    assert_eq!(v.org, Some("EDF R&D"));
    assert_eq!(v.location, Some("Paris, France"));
    assert!(v.separator);
    assert_eq!(v.period.as_deref(), Some("Sep 2024 — present"));
    assert_eq!(v.body, "<p>Work.</p>");

    let v = timeline_item(job("", "Paris, France", "2011", "2014-06"), Lang::Fr);
    assert_eq!(v.heading, "Architecte HPC");
    assert_eq!(v.org, Some(""));
    assert!(!v.separator);
    assert_eq!(v.period.as_deref(), Some("2011 — juin 2014"));
    assert_eq!(v.body, "<p>Work.</p>");

    let v = timeline_item(job("EDF", "", "2024-09", ""), Lang::En);
    assert_eq!(v.location, None);
    assert!(!v.separator);
}

#[test]
fn card_item_hides_empty_parts() {
    let v = card_item(job("", "", "", ""), Lang::En);
    assert_eq!(v.period, None);
    assert!(!v.meta);
    assert_eq!(v.org, None);
    assert_eq!(v.location, None);
    assert!(!v.separator);

    let v = card_item(job("Venue", "", "2026-07", ""), Lang::Fr);
    assert_eq!(v.period.as_deref(), Some("juil. 2026 — présent"));
    assert!(v.meta);
    assert_eq!(v.org, Some("Venue"));
    assert_eq!(v.location, None);

    let v = card_item(job("Venue", "Lyon", "2026-07-01", "2026-07-02"), Lang::En);
    assert!(v.separator);
    assert_eq!(v.period.as_deref(), Some("Jul 2026 — Jul 2026"));
}

#[test]
fn home_view_from_profile() {
    let v = home_view(PROFILE, Lang::Fr);
    assert_eq!(v.name, "Florence Monna");
    assert_eq!(v.title, "Architecte HPC");
    assert_eq!(v.tagline, None);
    assert_eq!(v.now, None);
    assert_eq!(v.location, Some("Paris, France"));
    assert_eq!(v.portrait_alt, "Portrait of Florence Monna");
    assert_eq!(v.links.len(), 2);
    assert_eq!(v.links[0].kind, LinkKind::Email);
    assert_eq!(v.links[0].href, "mailto:florence@example.org");
    assert_eq!(v.links[0].title, "florence@example.org");
    assert_eq!(v.links[1].kind, LinkKind::LinkedIn);
    assert_eq!(v.links[1].href, "https://linkedin.com/in/florencemonna");
    assert_eq!(v.links[1].title, "LinkedIn");
}

#[test]
fn home_view_all_links_in_order() {
    let table: &[(&str, &str)] = &[
        ("orcid", "0000-0001"),
        ("scholar", "https://scholar.example/u"),
        ("github", "fmonna"),
        ("name", "F"),
        ("tagline", "Tag\0Étiquette"),
    ];
    let v = home_view(table, Lang::En);
    let kinds: Vec<LinkKind> = v.links.iter().map(|l| l.kind).collect();
    assert_eq!(kinds, vec![LinkKind::GitHub, LinkKind::Scholar, LinkKind::Orcid]);
    assert_eq!(v.links[0].href, "https://github.com/fmonna");
    assert_eq!(v.links[1].href, "https://scholar.example/u");
    assert_eq!(v.links[1].title, "Google Scholar");
    assert_eq!(v.links[2].href, "https://orcid.org/0000-0001");
    assert_eq!(v.tagline, Some("Tag"));
    assert_eq!(v.title, "");
    assert_eq!(v.location, None);
    let v = home_view(table, Lang::Fr);
    assert_eq!(v.tagline, Some("Étiquette"));
}

#[test]
fn navigation_lists_every_section_once() {
    let all = [
        Section::Home,
        Section::Experience,
        Section::Education,
        Section::Teaching,
        Section::Skills,
        Section::Publications,
        Section::Talks,
        Section::Portfolio,
        Section::Blog,
        Section::Archive,
        Section::Cv,
    ];
    let order = nav_sections();
    for s in all {
        assert_eq!(order.iter().filter(|x| **x == s).count(), 1);
    }
}

#[test]
fn every_page_but_home_has_a_heading() {
    for s in nav_sections() {
        for lang in [Lang::En, Lang::Fr] {
            assert_eq!(page_heading(s, lang).is_some(), s != Section::Home);
        }
    }
}
