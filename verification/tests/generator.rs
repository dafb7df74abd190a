use fmonna_site::frontmatter::split_frontmatter;
use fmonna_site::markdown::md_to_html;
use fmonna_site::ordering::{period_sort_key, period_text_key, sort_newest_first, PeriodKeys};
use fmonna_site::yaml::Yaml;

#[test]
fn markdown_blocks_and_inline() {
    let md = "# Title\nSome *text* & more\ncontinued\n\n- a **b**\n- c\n## Sub\n";
    assert_eq!(
        md_to_html(md),
        "<h2>Title</h2>\n<p>Some <em>text</em> &amp; more continued</p>\n<ul>\n<li>a <strong>b</strong></li>\n<li>c</li>\n</ul>\n<h3>Sub</h3>\n"
    );
}

#[test]
fn markdown_deeper_headings_and_edges() {
    assert_eq!(md_to_html("###Deep title"), "<h3>title</h3>\n");
    assert_eq!(md_to_html("#NoSpace"), "<h3></h3>\n");
    assert_eq!(md_to_html("a **b"), "<p>a <strong>b</p>\n");
    assert_eq!(md_to_html("x < y > z"), "<p>x &lt; y &gt; z</p>\n");
    assert_eq!(md_to_html(""), "");
    assert_eq!(md_to_html("* one\ntext\n- two"), "<ul>\n<li>one</li>\n</ul>\n<p>text</p>\n<ul>\n<li>two</li>\n</ul>\n");
    assert_eq!(md_to_html("  **Monna F.**, paper\r\n"), "<p><strong>Monna F.</strong>, paper</p>\n");
}

#[test]
fn frontmatter_split() {
    let (fm, body) = split_frontmatter("---\nid: x\norder: 1\n---\nbody line\nline2\n");
    assert_eq!(fm, "id: x\norder: 1\n");
    assert_eq!(body, "body line\nline2");
    let (fm, body) = split_frontmatter("no front matter\n");
    assert_eq!(fm, "");
    assert_eq!(body, "no front matter\n");
    let (fm, body) = split_frontmatter("  ---  \na: 1\n");
    assert_eq!(fm, "a: 1\n");
    assert_eq!(body, "");
    let (fm, body) = split_frontmatter("");
    assert_eq!((fm.as_str(), body.as_str()), ("", ""));
}

#[test]
fn period_keys_of_text() {
    assert_eq!(period_text_key("2024-09", true), (2024, 9));
    assert_eq!(period_text_key("2024-09-15", false), (2024, 9));
    assert_eq!(period_text_key("", true), (i64::MAX, 99));
    assert_eq!(period_text_key("", false), (0, 0));
    assert_eq!(period_text_key("null", true), (i64::MAX, 99));
    assert_eq!(period_text_key("NuLL", true), (i64::MAX, 99));
    assert_eq!(period_text_key(" ~ ", true), (i64::MAX, 99));
    assert_eq!(period_text_key(" 2014 ", true), (2014, 0));
    assert_eq!(period_text_key("-5", true), (-5, 0));
    assert_eq!(period_text_key("2024-xx", true), (0, 0));
    assert_eq!(period_text_key("abc", true), (0, 0));
    assert_eq!(period_text_key("99999999999999999999", true), (0, 0));
    assert_eq!(period_text_key("-9223372036854775808", true), (i64::MIN, 0));
}

#[test]
fn period_keys_of_values() {
    assert_eq!(period_sort_key(&Yaml::Int(2011), false), (2011, 0));
    assert_eq!(period_sort_key(&Yaml::Null, true), (i64::MAX, 99));
    assert_eq!(period_sort_key(&Yaml::Null, false), (0, 0));
    assert_eq!(period_sort_key(&Yaml::Bool(true), true), (0, 0));
    assert_eq!(period_sort_key(&Yaml::Str("2016-09".to_string()), true), (2016, 9));
}

#[test]
fn newest_first_order() {
    let keys = [
        PeriodKeys { end: (2020, 1), start: (2019, 1) },
        PeriodKeys { end: (i64::MAX, 99), start: (2024, 9) },
        PeriodKeys { end: (2020, 1), start: (2019, 5) },
        PeriodKeys { end: (2020, 1), start: (2019, 1) },
        PeriodKeys { end: (2021, 0), start: (0, 0) },
    ];
    assert_eq!(sort_newest_first(&keys), vec![1, 4, 2, 0, 3]);
    assert_eq!(sort_newest_first(&[]), Vec::<usize>::new());
}
