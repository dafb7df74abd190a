use fmonna_site::collection::{sort_by_order, sort_entries, sort_sections};
use fmonna_site::entry::{entry_from_front, entry_from_text, front_from_text, profile_pairs, prose_from_front, SourceEntry};
use fmonna_site::markdown::md_to_html;
use fmonna_site::yaml::{parse_front, Yaml};

const WELCOME: &str = "---
# Dummy entry — replace with a real post. The blog lists entries newest-first by
# period.end (date_key end-desc, matching the experience/education timeline).
id: welcome
order: 1
title:
  en: Welcome to my website
  fr: Bienvenue sur mon site
period:
  start: 2026-07
  end: null
summary:
  en.short: A short summary shown on the blog index and in cards.
  en.long: |
    This is a placeholder blog post. Replace `content/blog/welcome.md` with a real
    entry — one file per post, newest file renders first by date.

    The `summary.en.long` body is the post content rendered as Markdown (headings,
    paragraphs, bullet lists, **bold**).
  fr.short: Un résumé court affiché sur l'index du blog et dans les cartes.
  fr.long: |
    Ceci est un article d'espace réservé. Remplacez `content/blog/welcome.md` par
    une vraie entrée — un fichier par article, le plus récent s'affiche en premier
    par date.
---

Body below the frontmatter is ignored — the rendered content comes from
`summary.en.long` / `fr.long`.
";

const EXPERIENCE: &str = "---
id: edf                      # stable slug, used as a key
order: 1                     # display order (highest = most recent)
role:
  en: High Performance Computing Architect
  fr: Architecte Haute Performance Computing
company: EDF R&D
location:
  en: Paris, France
  fr: Paris, France
period:
  start: 2024-09
  end: null                  # null = current
summary:
  en.short: \"\"               # 1-line, for the FR 2-page CV
  en.long: |                 # full bullets, for the EN full CV + site
    - bullet one
    - bullet two
  fr.short: \"\"               # TODO: translate
  fr.long: \"\"                # TODO: translate
---
";

fn entry(txt: &str) -> SourceEntry {
    entry_from_text(txt).expect("an entry with an id")
}

fn get<'a>(y: &'a Yaml, k: &str) -> &'a Yaml {
    match y {
        Yaml::Mapping(m) => &m.iter().rev().find(|(key, _)| key.as_str() == k).expect("key present").1,
        _ => panic!("not a mapping"),
    }
}

#[test]
fn yaml_scalars_and_nesting() {
    let y = parse_front("a: 1\nb: true\nc: null\nd: \"x # y\"  # note\ne:\n  f: -7\n  g: ~\nh: text\n");
    assert!(matches!(get(&y, "a"), Yaml::Int(1)));
    assert!(matches!(get(&y, "b"), Yaml::Bool(true)));
    assert!(matches!(get(&y, "c"), Yaml::Null));
    assert!(matches!(get(&y, "d"), Yaml::Str(s) if s == "x # y"));
    assert!(matches!(get(get(&y, "e"), "f"), Yaml::Int(-7)));
    assert!(matches!(get(get(&y, "e"), "g"), Yaml::Null));
    assert!(matches!(get(&y, "h"), Yaml::Str(s) if s == "text"));
}

#[test]
fn yaml_block_scalar_keeps_lines() {
    let y = parse_front("k: |\n    one\n\n    two # kept\nnext: 2\n");
    assert!(matches!(get(&y, "k"), Yaml::Str(s) if s == "   one\n\n   two # kept\n"));
    assert!(matches!(get(&y, "next"), Yaml::Int(2)));
}

#[test]
fn yaml_list_of_maps() {
    let y = parse_front("courses:\n  - en: Algebra\n    fr: Algèbre\n  - en: Topology\n");
    match get(&y, "courses") {
        Yaml::List(items) => {
            assert_eq!(items.len(), 2);
            assert!(matches!(get(&items[0], "fr"), Yaml::Str(s) if s == "Algèbre"));
            assert!(matches!(get(&items[1], "en"), Yaml::Str(s) if s == "Topology"));
        }
        _ => panic!("expected a list"),
    }
}

#[test]
fn yaml_empty_front_is_null() {
    assert!(matches!(parse_front(""), Yaml::Null));
    assert!(matches!(parse_front("# only a comment\n"), Yaml::Null));
}

#[test]
fn blog_entry_from_file() {
    let e = entry(WELCOME);
    assert_eq!(e.id, "welcome");
    assert_eq!(e.order, 1);
    assert_eq!(e.heading_en, "Welcome to my website");
    assert_eq!(e.heading_fr, "Bienvenue sur mon site");
    assert_eq!(e.org, "");
    assert_eq!(e.start, "2026-07");
    assert_eq!(e.end, "");
    assert!(!e.fr_draft);
    let long_en = " This is a placeholder blog post. Replace `content/blog/welcome.md` with a real\n entry — one file per post, newest file renders first by date.\n\n The `summary.en.long` body is the post content rendered as Markdown (headings,\n paragraphs, bullet lists, **bold**).\n";
    assert_eq!(e.body_en, md_to_html(long_en));
    assert!(e.body_en.starts_with("<p>This is a placeholder blog post."));
    assert!(e.body_en.contains("<strong>bold</strong>"));
    assert!(e.body_fr.starts_with("<p>Ceci est un article"));
    assert_eq!(e.keys.end, (i64::MAX, 99));
    assert_eq!(e.keys.start, (2026, 7));
}

#[test]
fn experience_entry_from_schema() {
    let e = entry(EXPERIENCE);
    assert_eq!(e.id, "edf");
    assert_eq!(e.heading_en, "High Performance Computing Architect");
    assert_eq!(e.heading_fr, "Architecte Haute Performance Computing");
    assert_eq!(e.org, "EDF R&D");
    assert_eq!(e.location_en, "Paris, France");
    assert_eq!(e.location_fr, "Paris, France");
    assert_eq!(e.start, "2024-09");
    assert_eq!(e.end, "");
    assert_eq!(e.body_en, "<ul>\n<li>bullet one</li>\n<li>bullet two</li>\n</ul>\n");
    assert_eq!(e.body_fr, "");
    assert_eq!(e.keys.start, (2024, 9));
}

#[test]
fn entry_without_id_is_skipped() {
    assert!(entry_from_text("---\norder: 2\n---\n").is_none());
    assert!(entry_from_text("no front matter at all").is_none());
}

#[test]
fn heading_and_org_fallbacks() {
    let e = entry("---\nid: t\nrole:\n  en: Lecturer\n  fr: \"\"\nvenue:\n  en: Sorbonne\n  fr: La Sorbonne\nlocation:\n  en: Paris\nperiod:\n  start: 2011\n  end: 2013\n---\n");
    assert_eq!(e.heading_en, "Lecturer");
    assert_eq!(e.heading_fr, "Lecturer");
    assert_eq!(e.org, "Sorbonne");
    assert_eq!(e.location_fr, "Paris");
    assert_eq!(e.start, "2011");
    assert_eq!(e.end, "2013");
    assert_eq!(e.keys.end, (2013, 0));
    assert_eq!(e.keys.start, (2011, 0));
    let d = entry("---\nid: d\ndegree:\n  en: PhD\nrole:\n  fr: Doctorante\nvenue: Sorbonne\n---\n");
    assert_eq!(d.heading_en, "PhD");
    assert_eq!(d.heading_fr, "PhD");
    assert_eq!(d.org, "Sorbonne");
    let s = entry("---\nid: journals\norder: 1\nheading:\n  en: Journals\n  fr: Revues\n---\n");
    assert_eq!(s.heading_en, "Journals");
    assert_eq!(s.heading_fr, "Revues");
}

#[test]
fn summary_falls_back_to_short() {
    let e = entry("---\nid: s\nsummary:\n  en.short: One line.\n  fr.short: Une ligne.\n  fr_draft: true\n---\n");
    assert_eq!(e.body_en, "<p>One line.</p>\n");
    assert_eq!(e.body_fr, "<p>Une ligne.</p>\n");
    assert!(e.fr_draft);
}

#[test]
fn education_body_from_fields() {
    let e = entry("---\nid: phd\nthesis:\n  en: \" Graphs \"\n  fr: Graphes\nhonors:\n  en: Summa\ncourses:\n  - en: Algebra\n  - en: \"\"\n    fr: Ignored\n---\n");
    assert_eq!(
        e.body_en,
        md_to_html("- **Thesis**: Graphs\n- **Honors**: Summa\n- Algebra\n")
    );
    assert_eq!(
        e.body_fr,
        md_to_html("- **Thèse**: Graphes\n- **Mention**: Summa\n- Algebra\n")
    );
    let only_en = entry("---\nid: ms\nspecialization:\n  en: Networks\n---\n");
    assert_eq!(only_en.body_en, "<ul>\n<li><strong>Specialization</strong>: Networks</li>\n</ul>\n");
    assert_eq!(only_en.body_fr, "");
}

#[test]
fn front_of_profile_file() {
    let front = front_from_text("---\nname: Florence Monna\nemail: f@example.org\nlinkedin: florencemonna  # url\ntitle:\n  en: Architect\n  fr: Architecte\nlocation:\n  en: Paris\n---\n");
    let pairs = profile_pairs(&front);
    let expected: Vec<(String, String)> = vec![
        ("name".to_string(), "Florence Monna".to_string()),
        ("email".to_string(), "f@example.org".to_string()),
        ("linkedin".to_string(), "florencemonna".to_string()),
        ("phone".to_string(), "".to_string()),
        ("title".to_string(), "Architect\u{0}Architecte".to_string()),
        ("location".to_string(), "Paris\u{0}Paris".to_string()),
    ];
    assert_eq!(pairs, expected);
}

#[test]
fn prose_block() {
    let front = parse_front("en: |\n  - **Monna F.**, paper\nfr: \"\"\nfr_draft: true\n");
    let (en, fr, draft) = prose_from_front(&front);
    assert_eq!(en, "<ul>\n<li><strong>Monna F.</strong>, paper</li>\n</ul>\n");
    assert_eq!(fr, "");
    assert!(draft);
}

#[test]
fn collection_newest_first() {
    let files = [
        "---\nid: old\nperiod:\n  start: 2010-01\n  end: 2012-06\n---\n",
        "---\nid: current\nperiod:\n  start: 2020-01\n  end: null\n---\n",
        "---\nid: mid-a\nperiod:\n  start: 2013-01\n  end: 2016\n---\n",
        "---\nid: mid-b\nperiod:\n  start: 2014-01\n  end: 2016\n---\n",
        "---\nid: unknown\nperiod:\n  start: soon\n  end: someday\n---\n",
        "---\nid: also-current\nperiod:\n  start: 2020-01\n---\n",
    ];
    let es: Vec<SourceEntry> = files.iter().map(|t| entry(t)).collect();
    let ids: Vec<String> = sort_entries(es).into_iter().map(|e| e.id).collect();
    assert_eq!(ids, vec!["current", "also-current", "mid-b", "mid-a", "old", "unknown"]);
}

#[test]
fn sections_by_ascending_order() {
    let files = [
        "---\nid: books\norder: 3\n---\n",
        "---\nid: journals\norder: 1\n---\n",
        "---\nid: talks\norder: 3\n---\n",
        "---\nid: none\n---\n",
    ];
    let es: Vec<SourceEntry> = files.iter().map(|t| entry(t)).collect();
    let ids: Vec<String> = sort_sections(es).into_iter().map(|e| e.id).collect();
    assert_eq!(ids, vec!["none", "journals", "books", "talks"]);
    assert_eq!(sort_by_order(&[5, -1, 5, 0]), vec![1, 3, 0, 2]);
    assert_eq!(sort_by_order(&[]), Vec::<usize>::new());
}

#[test]
fn entry_from_parsed_front() {
    let front = parse_front("id: x\norder: -4\n");
    let e = entry_from_front(&front).expect("entry");
    assert_eq!(e.order, -4);
    assert_eq!(e.keys.end, (i64::MAX, 99));
    assert_eq!(e.keys.start, (0, 0));
}
