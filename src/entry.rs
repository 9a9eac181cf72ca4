//! One annotatable record and the annotations a user can make on it.
use vstd::prelude::*;
use crate::tags::TagSet;

verus! {

/// The codes of an entry: a set of tags from a vocabulary, or one free text.
pub enum Codes {
    Tags(TagSet),
    Text(String),
}

/// What the codes of an entry hold.
pub enum CodesModel {
    Tags(Set<Seq<char>>),
    Text(Seq<char>),
}

impl View for Codes {
    type V = CodesModel;

    open spec fn view(&self) -> CodesModel {
        match self {
            Codes::Tags(t) => CodesModel::Tags(t@),
            Codes::Text(s) => CodesModel::Text(s@),
        }
    }
}

/// One record under review.
pub struct Entry {
    pub index: u32,
    pub lab: String,
    pub group: String,
    pub response: String,
    pub ratings: Vec<String>,
    pub matches: Option<bool>,
    pub codes: Codes,
}

/// What an entry holds.
pub struct EntryModel {
    pub index: u32,
    pub lab: Seq<char>,
    pub group: Seq<char>,
    pub response: Seq<char>,
    pub ratings: Seq<Seq<char>>,
    pub matches: Option<bool>,
    pub codes: CodesModel,
}

impl EntryModel {
    /// The same entry with its flag replaced.
    pub open spec fn with_matches(self, m: Option<bool>) -> EntryModel {
        EntryModel { matches: m, ..self }
    }

    /// The same entry with its codes replaced.
    pub open spec fn with_codes(self, c: CodesModel) -> EntryModel {
        EntryModel { codes: c, ..self }
    }
}

impl View for Entry {
    type V = EntryModel;

    open spec fn view(&self) -> EntryModel {
        EntryModel {
            index: self.index,
            lab: self.lab@,
            group: self.group@,
            response: self.response@,
            ratings: self.ratings@.map_values(|r: String| r@),
            matches: self.matches,
            codes: self.codes@,
        }
    }
}

/// The flag after a toggle: an absent flag counts as `false` and so becomes `true`.
pub open spec fn toggled(m: Option<bool>) -> Option<bool> {
    match m {
        Some(b) => Some(!b),
        None => Some(true),
    }
}

/// The tag set after `tag` is put in (`present`) or taken out.
pub open spec fn tags_after(t: Set<Seq<char>>, tag: Seq<char>, present: bool) -> Set<Seq<char>> {
    if present {
        t.insert(tag)
    } else {
        t.remove(tag)
    }
}

impl Entry {
    /// Sets the flag to `b`.
    pub fn set_matches(&mut self, b: bool)
        ensures
            final(self)@ == old(self)@.with_matches(Some(b)),
    {
        self.matches = Some(b);
    }

    /// Flips the flag, treating an absent flag as `false`.
    pub fn toggle_matches(&mut self)
        ensures
            final(self)@ == old(self)@.with_matches(toggled(old(self).matches)),
    {
        self.matches = match self.matches {
            Some(b) => Some(!b),
            None => Some(true),
        };
    }

    /// Puts `tag` into the tag set, or takes it out. An entry with free-text codes is left
    /// as it is; the result says whether the entry holds tags.
    pub fn set_code(&mut self, tag: String, present: bool) -> (r: bool)
        ensures
            r == old(self)@.codes is Tags,
            final(self)@ == match old(self)@.codes {
                CodesModel::Tags(t) => old(self)@.with_codes(CodesModel::Tags(tags_after(t, tag@, present))),
                CodesModel::Text(_) => old(self)@,
            },
    {
        match &mut self.codes {
            Codes::Tags(t) => {
                if present {
                    t.insert(tag);
                } else {
                    t.remove(&tag);
                }
                true
            },
            Codes::Text(_) => false,
        }
    }

    /// Replaces the free-text codes with `text`. An entry with tags is left as it is; the
    /// result says whether the entry holds free text.
    pub fn set_code_text(&mut self, text: String) -> (r: bool)
        ensures
            r == old(self)@.codes is Text,
            final(self)@ == match old(self)@.codes {
                CodesModel::Text(_) => old(self)@.with_codes(CodesModel::Text(text@)),
                CodesModel::Tags(_) => old(self)@,
            },
    {
        match self.codes {
            Codes::Text(_) => {
                self.codes = Codes::Text(text);
                true
            },
            Codes::Tags(_) => false,
        }
    }

    /// Whether the entry holds `tag` among its tags.
    pub fn has_code(&self, tag: &String) -> (r: bool)
        ensures
            r == match self@.codes {
                CodesModel::Tags(t) => t.contains(tag@),
                CodesModel::Text(_) => false,
            },
    {
        match &self.codes {
            Codes::Tags(t) => t.contains(tag),
            Codes::Text(_) => false,
        }
    }

    /// The flag as a checkbox shows it: absent reads as `false`.
    pub fn matches_shown(&self) -> (r: bool)
        ensures
            r == (self.matches == Some(true)),
    {
        match self.matches {
            Some(b) => b,
            None => false,
        }
    }
}

} // verus!
