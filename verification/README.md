# fmonna-site

The content model, content pipeline and page logic of a bilingual
(English/French) personal site, verified with Verus, and the Dioxus program
that renders it.

- `src/content.rs` — `Lang`, `LStr`, `Entry`: English is the source of truth,
  an empty French form falls back to English.
- `src/date.rs` — month names, dates (`YYYY-MM`, `YYYY-MM-DD`; any other text
  is shown as it is) and periods as shown on the pages.
- `src/profile.rs` — lookups in the profile table, whose bilingual values are
  written `en\0fr`.
- `src/pages.rs` — navigation labels and order, page headings and notes, the
  French-draft notice, and what a timeline item or a card shows of an entry.
- `src/home.rs` — what the home page shows, including the identity links.
- The content pipeline, from the text of a Markdown content file to the
  listed entries:
  - `src/text.rs` — characters, lines (as `str::lines` gives them), trimming;
  - `src/frontmatter.rs` — splitting a file into front matter and body;
  - `src/yaml.rs` — the subset of YAML that the front matter uses, with the
    parser stated as a function of the lines;
  - `src/markdown.rs` — the Markdown subset (headings, lists, paragraphs,
    bold, italic, HTML escaping) converted to HTML;
  - `src/ordering.rs` — the `(year, month)` keys of period endpoints and the
    newest-first order;
  - `src/entry.rs` — an entry built from its front matter: heading,
    organisation, location, period, bodies and their fallbacks, the bodies
    of education entries, prose blocks and the profile table;
  - `src/collection.rs` — listing a collection newest first (timelines) or
    by ascending `order` (skills, publications).
- `app/` — the Dioxus program: reading the content files, routing, layout,
  language toggle, rendering.
- `tests/` — tests of the library on concrete values.
