use fmonna_site::content::{Entry, LStr, Lang};
use fmonna_site::date::{format_date, format_period, month_name};

fn entry(body_en: &'static str, body_fr: &'static str) -> Entry {
    Entry {
        id: "edf",
        order: 1,
        heading: LStr { en: "Architect", fr: "Architecte" },
        org: "EDF R&D",
        location: LStr { en: "Paris, France", fr: "" },
        start: "2024-09",
        end: "",
        body_en,
        body_fr,
        fr_draft: false,
    }
}

#[test]
fn pick_english_is_always_english() {
    let s = LStr { en: "Journals", fr: "Revues" };
    assert_eq!(s.pick(Lang::En), "Journals");
    let s = LStr { en: "Journals", fr: "" };
    assert_eq!(s.pick(Lang::En), "Journals");
}

#[test]
fn pick_french_when_available() {
    let s = LStr { en: "Journals", fr: "Revues" };
    assert_eq!(s.pick(Lang::Fr), "Revues");
    assert!(s.fr_available());
}

#[test]
fn pick_french_falls_back_to_english() {
    let s = LStr { en: "Journals", fr: "" };
    assert_eq!(s.pick(Lang::Fr), "Journals");
    assert!(!s.fr_available());
    let both_empty = LStr { en: "", fr: "" };
    assert_eq!(both_empty.pick(Lang::Fr), "");
}

#[test]
fn entry_body_falls_back_to_english() {
    let e = entry("<p>en</p>", "");
    assert_eq!(e.body(Lang::En), "<p>en</p>");
    assert_eq!(e.body(Lang::Fr), "<p>en</p>");
    assert!(!e.fr_available());
    let e = entry("<p>en</p>", "<p>fr</p>");
    assert_eq!(e.body(Lang::Fr), "<p>fr</p>");
    assert_eq!(e.body(Lang::En), "<p>en</p>");
    assert!(e.fr_available());
}

#[test]
fn month_names_in_both_languages() {
    assert_eq!(month_name("01", Lang::En), "Jan");
    assert_eq!(month_name("09", Lang::En), "Sep");
    assert_eq!(month_name("12", Lang::En), "Dec");
    assert_eq!(month_name("01", Lang::Fr), "janv.");
    assert_eq!(month_name("02", Lang::Fr), "févr.");
    assert_eq!(month_name("08", Lang::Fr), "août");
    assert_eq!(month_name("09", Lang::Fr), "sept.");
    assert_eq!(month_name("12", Lang::Fr), "déc.");
}

#[test]
fn month_names_read_numbers_like_integer_parsing() {
    assert_eq!(month_name("9", Lang::En), "Sep");
    assert_eq!(month_name("+9", Lang::En), "Sep");
    assert_eq!(month_name("0009", Lang::En), "Sep");
    assert_eq!(month_name("-1", Lang::En), "");
    assert_eq!(month_name("00", Lang::En), "");
    assert_eq!(month_name("13", Lang::En), "");
    assert_eq!(month_name("99999999999999999999", Lang::En), "");
    assert_eq!(month_name("1a", Lang::En), "");
    assert_eq!(month_name(" 1", Lang::En), "");
    assert_eq!(month_name("+", Lang::En), "");
    assert_eq!(month_name("", Lang::En), "");
}

#[test]
fn format_date_year_month() {
    assert_eq!(format_date("2024-09", Lang::En), "Sep 2024");
    assert_eq!(format_date("2024-09", Lang::Fr), "sept. 2024");
}

#[test]
fn format_date_ignores_the_day() {
    assert_eq!(format_date("2019-03-14", Lang::En), "Mar 2019");
    assert_eq!(format_date("2019-03-14", Lang::En), format_date("2019-03", Lang::En));
    assert_eq!(format_date("2019-03-14", Lang::Fr), "mars 2019");
}

#[test]
fn format_date_bare_year_and_unparseable() {
    assert_eq!(format_date("2024", Lang::En), "2024");
    assert_eq!(format_date("", Lang::Fr), "");
    assert_eq!(format_date("soon", Lang::En), "soon");
    assert_eq!(format_date("2024/09", Lang::En), "2024/09");
}

#[test]
fn format_date_returns_non_dates_as_is() {
    assert_eq!(format_date("2024-13", Lang::En), "2024-13");
    assert_eq!(format_date("2024-00", Lang::En), "2024-00");
    assert_eq!(format_date("2024-xx-01", Lang::Fr), "2024-xx-01");
    assert_eq!(format_date("abcd-09", Lang::En), "abcd-09");
    assert_eq!(format_date("2000-+1", Lang::En), "2000-+1");
    assert_eq!(format_date("2024-1\u{e9}", Lang::En), "2024-1\u{e9}");
    assert_eq!(format_date("2024-09-1", Lang::En), "2024-09-1");
    assert_eq!(format_date("2024-09-15T10", Lang::En), "2024-09-15T10");
    assert_eq!(format_date("2024-09x01", Lang::En), "2024-09x01");
}

#[test]
fn format_period_current() {
    assert_eq!(format_period("2024-09", "", Lang::En), "Sep 2024 — present");
    assert_eq!(format_period("2024-09", "", Lang::Fr), "sept. 2024 — présent");
}

#[test]
fn format_period_closed() {
    assert_eq!(format_period("2011", "2014-06", Lang::En), "2011 — Jun 2014");
    assert_eq!(format_period("2016-09-01", "2017-06-30", Lang::Fr), "sept. 2016 — juin 2017");
}

#[test]
fn formatted_dates_end_with_the_year() {
    for ym in ["2024-09", "1999-12-31", "2000-01"] {
        for lang in [Lang::En, Lang::Fr] {
            assert!(format_date(ym, lang).ends_with(&ym[..4]));
        }
    }
    assert_eq!(format_date("2000-01", Lang::Fr), "janv. 2000");
}
