//! The bilingual content model: English is the source of truth, and a French
//! field left empty falls back to its English counterpart.

use vstd::prelude::*;

verus! {

/// The two languages the site is written in.
#[derive(Clone, Copy, PartialEq, Eq, Structural, Debug)]
pub enum Lang {
    En,
    Fr,
}

/// A string with an English and a French form; an empty French form means
/// "use the English one".
#[derive(Clone, Copy, PartialEq)]
pub struct LStr {
    pub en: &'static str,
    pub fr: &'static str,
}

impl LStr {
    /// The string shown for `lang`.
    pub open spec fn picked(self, lang: Lang) -> &'static str {
        match lang {
            Lang::En => self.en,
            Lang::Fr => if self.fr@.len() == 0 { self.en } else { self.fr },
        }
    }

    /// Return the string for `lang`, falling back to English when the French
    /// form is empty.
    pub fn pick(self, lang: Lang) -> (r: &'static str)
        ensures
            r == self.picked(lang),
    {
        match lang {
            Lang::En => self.en,
            Lang::Fr => {
                if self.fr.is_empty() {
                    self.en
                } else {
                    self.fr
                }
            },
        }
    }

    /// Whether a French form exists.
    pub fn fr_available(self) -> (r: bool)
        ensures
            r == (self.fr@.len() > 0),
    {
        !self.fr.is_empty()
    }
}

/// One entry of a collection (a job, a degree, a talk, a post...).
#[derive(Clone, Copy, PartialEq)]
pub struct Entry {
    pub id: &'static str,
    pub order: i64,
    pub heading: LStr,
    pub org: &'static str,
    pub location: LStr,
    pub start: &'static str,
    /// Empty when the entry is current.
    pub end: &'static str,
    pub body_en: &'static str,
    /// Empty when the English body is to be shown.
    pub body_fr: &'static str,
    /// Whether the French text is an unreviewed draft.
    pub fr_draft: bool,
}

impl Entry {
    /// The body shown for `lang`.
    pub open spec fn body_for(self, lang: Lang) -> &'static str {
        match lang {
            Lang::En => self.body_en,
            Lang::Fr => if self.body_fr@.len() == 0 { self.body_en } else { self.body_fr },
        }
    }

    /// Return the body for `lang`, falling back to English when the French
    /// body is empty.
    pub fn body(self, lang: Lang) -> (r: &'static str)
        ensures
            r == self.body_for(lang),
    {
        match lang {
            Lang::En => self.body_en,
            Lang::Fr => {
                if self.body_fr.is_empty() {
                    self.body_en
                } else {
                    self.body_fr
                }
            },
        }
    }

    /// Whether a French body exists.
    pub fn fr_available(self) -> (r: bool)
        ensures
            r == (self.body_fr@.len() > 0),
    {
        !self.body_fr.is_empty()
    }
}

/// English is the source of truth: the English form is always shown as is,
/// and the French form is shown exactly when it is available, else the
/// English one stands in for it.
pub proof fn lemma_lstr_french_falls_back(s: LStr)
    ensures
        s.picked(Lang::En) == s.en,
        s.fr@.len() > 0 ==> s.picked(Lang::Fr) == s.fr,
        s.fr@.len() == 0 ==> s.picked(Lang::Fr) == s.picked(Lang::En),
{
}

/// The same fallback for an entry's body: the French body is shown exactly
/// when it is available, otherwise the English body is shown.
pub proof fn lemma_body_french_falls_back(e: Entry)
    ensures
        e.body_for(Lang::En) == e.body_en,
        e.body_fr@.len() > 0 ==> e.body_for(Lang::Fr) == e.body_fr,
        e.body_fr@.len() == 0 ==> e.body_for(Lang::Fr) == e.body_for(Lang::En),
{
}

} // verus!
