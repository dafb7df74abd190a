//! The home page: name, title, optional tagline, "now" line and location,
//! and the strip of identity links, all read from the profile table.

use vstd::prelude::*;
use vstd::string::StringExecFns;
use crate::content::Lang;
use crate::profile::{before_nul, localized_pair, profile_loc, profile_str, profile_value};

verus! {

/// The identity networks that the home page links to.
#[derive(Clone, Copy, PartialEq, Eq, Structural, Debug)]
pub enum LinkKind {
    Email,
    LinkedIn,
    GitHub,
    Scholar,
    Orcid,
}

/// The profile key that holds the account of `kind`.
pub open spec fn link_key(kind: LinkKind) -> Seq<char> {
    match kind {
        LinkKind::Email => "email"@,
        LinkKind::LinkedIn => "linkedin"@,
        LinkKind::GitHub => "github"@,
        LinkKind::Scholar => "scholar"@,
        LinkKind::Orcid => "orcid"@,
    }
}

/// What is put before the account to make the link's target.
pub open spec fn link_prefix(kind: LinkKind) -> Seq<char> {
    match kind {
        LinkKind::Email => "mailto:"@,
        LinkKind::LinkedIn => "https://linkedin.com/in/"@,
        LinkKind::GitHub => "https://github.com/"@,
        LinkKind::Scholar => ""@,
        LinkKind::Orcid => "https://orcid.org/"@,
    }
}

/// The tooltip of the link; an e-mail link shows the address itself.
pub open spec fn link_title(kind: LinkKind, account: Seq<char>) -> Seq<char> {
    match kind {
        LinkKind::Email => account,
        LinkKind::LinkedIn => "LinkedIn"@,
        LinkKind::GitHub => "GitHub"@,
        LinkKind::Scholar => "Google Scholar"@,
        LinkKind::Orcid => "ORCID"@,
    }
}

/// The plain profile value stored under `key`.
pub open spec fn plain_value(table: Seq<(&'static str, &'static str)>, key: Seq<char>) -> Seq<char> {
    before_nul(profile_value(table, key))
}

/// The bilingual profile value stored under `key`, in `lang`.
pub open spec fn localized_value(
    table: Seq<(&'static str, &'static str)>,
    key: Seq<char>,
    lang: Lang,
) -> Seq<char> {
    let (en, fr) = localized_pair(profile_value(table, key));
    match lang {
        Lang::En => en,
        Lang::Fr => if fr.len() == 0 { en } else { fr },
    }
}

/// The link for `kind` (kind, target, tooltip), present only when the
/// profile has an account for it.
pub open spec fn link_of(table: Seq<(&'static str, &'static str)>, kind: LinkKind) -> Seq<
    (LinkKind, Seq<char>, Seq<char>),
> {
    let account = plain_value(table, link_key(kind));
    if account.len() == 0 {
        Seq::empty()
    } else {
        seq![(kind, link_prefix(kind) + account, link_title(kind, account))]
    }
}

/// The identity strip: e-mail, LinkedIn, GitHub, Google Scholar, ORCID, in
/// that order, each only when its account is known.
pub open spec fn identity_links(table: Seq<(&'static str, &'static str)>) -> Seq<
    (LinkKind, Seq<char>, Seq<char>),
> {
    link_of(table, LinkKind::Email) + link_of(table, LinkKind::LinkedIn) + link_of(
        table,
        LinkKind::GitHub,
    ) + link_of(table, LinkKind::Scholar) + link_of(table, LinkKind::Orcid)
}

/// One link of the identity strip.
pub struct IdentityLink {
    pub kind: LinkKind,
    pub href: String,
    pub title: &'static str,
}

impl View for IdentityLink {
    type V = (LinkKind, Seq<char>, Seq<char>);

    open spec fn view(&self) -> (LinkKind, Seq<char>, Seq<char>) {
        (self.kind, self.href@, self.title@)
    }
}

/// What the home page shows. A part that is `None` is not shown.
pub struct HomeView {
    pub name: &'static str,
    pub title: &'static str,
    pub tagline: Option<&'static str>,
    pub now: Option<&'static str>,
    pub location: Option<&'static str>,
    pub links: Vec<IdentityLink>,
    pub portrait_alt: String,
}

fn key_of(kind: LinkKind) -> (r: &'static str)
    ensures
        r@ == link_key(kind),
{
    match kind {
        LinkKind::Email => "email",
        LinkKind::LinkedIn => "linkedin",
        LinkKind::GitHub => "github",
        LinkKind::Scholar => "scholar",
        LinkKind::Orcid => "orcid",
    }
}

fn prefix_of(kind: LinkKind) -> (r: &'static str)
    ensures
        r@ == link_prefix(kind),
{
    match kind {
        LinkKind::Email => "mailto:",
        LinkKind::LinkedIn => "https://linkedin.com/in/",
        LinkKind::GitHub => "https://github.com/",
        LinkKind::Scholar => "",
        LinkKind::Orcid => "https://orcid.org/",
    }
}

fn title_of(kind: LinkKind, account: &'static str) -> (r: &'static str)
    ensures
        r@ == link_title(kind, account@),
{
    match kind {
        LinkKind::Email => account,
        LinkKind::LinkedIn => "LinkedIn",
        LinkKind::GitHub => "GitHub",
        LinkKind::Scholar => "Google Scholar",
        LinkKind::Orcid => "ORCID",
    }
}

/// Append the link for `kind` to `links` when the profile has an account
/// for it.
fn push_link(
    profile: &[(&'static str, &'static str)],
    kind: LinkKind,
    links: &mut Vec<IdentityLink>,
)
    ensures
        final(links)@.map_values(|l: IdentityLink| l@) == old(links)@.map_values(
            |l: IdentityLink| l@,
        ) + link_of(profile@, kind),
{
    let account = profile_str(profile, key_of(kind));
    if account.is_empty() {
        assert(old(links)@.map_values(|l: IdentityLink| l@) + link_of(profile@, kind)
            =~= old(links)@.map_values(|l: IdentityLink| l@));
    } else {
        let mut href = String::from_str(prefix_of(kind));
        href.append(account);
        let link = IdentityLink { kind, href, title: title_of(kind, account) };
        let ghost before = links@;
        links.push(link);
        assert(links@.map_values(|l: IdentityLink| l@) =~= before.map_values(
            |l: IdentityLink| l@,
        ) + link_of(profile@, kind));
    }
}

/// Gather what the home page shows from the profile table, in `lang`.
pub fn home_view(profile: &[(&'static str, &'static str)], lang: Lang) -> (r: HomeView)
    ensures
        r.name@ == plain_value(profile@, "name"@),
        r.title@ == localized_value(profile@, "title"@, lang),
        (match r.tagline {
            Some(t) => t@ == localized_value(profile@, "tagline"@, lang) && t@.len() > 0,
            None => localized_value(profile@, "tagline"@, lang).len() == 0,
        }),
        (match r.now {
            Some(t) => t@ == localized_value(profile@, "now"@, lang) && t@.len() > 0,
            None => localized_value(profile@, "now"@, lang).len() == 0,
        }),
        (match r.location {
            Some(t) => t@ == localized_value(profile@, "location"@, lang) && t@.len() > 0,
            None => localized_value(profile@, "location"@, lang).len() == 0,
        }),
        r.links@.map_values(|l: IdentityLink| l@) == identity_links(profile@),
        r.portrait_alt@ == "Portrait of "@ + plain_value(profile@, "name"@),
{
    let name = profile_str(profile, "name");
    let title = profile_loc(profile, "title").pick(lang);
    let tagline = profile_loc(profile, "tagline").pick(lang);
    let now = profile_loc(profile, "now").pick(lang);
    let location = profile_loc(profile, "location").pick(lang);
    let mut links: Vec<IdentityLink> = Vec::new();
    assert(links@.map_values(|l: IdentityLink| l@) =~= Seq::empty());
    push_link(profile, LinkKind::Email, &mut links);
    push_link(profile, LinkKind::LinkedIn, &mut links);
    push_link(profile, LinkKind::GitHub, &mut links);
    push_link(profile, LinkKind::Scholar, &mut links);
    push_link(profile, LinkKind::Orcid, &mut links);
    assert(links@.map_values(|l: IdentityLink| l@) =~= identity_links(profile@));
    let mut portrait_alt = String::from_str("Portrait of ");
    portrait_alt.append(name);
    HomeView {
        name,
        title,
        tagline: if tagline.is_empty() { None } else { Some(tagline) },
        now: if now.is_empty() { None } else { Some(now) },
        location: if location.is_empty() { None } else { Some(location) },
        links,
        portrait_alt,
    }
}

} // verus!
