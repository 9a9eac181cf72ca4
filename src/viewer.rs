//! The viewer's state: a position into the entries, and the intents that move it or
//! annotate the current entry.
use vstd::prelude::*;
use crate::entry::{tags_after, toggled, CodesModel, Entry, EntryModel};
use crate::vocabulary::{strictly_sorted, themes_in, themes_of, Code};
use crate::tags::views_of;

verus! {

/// A discrete user intent.
#[derive(Clone, Debug)]
pub enum Message {
    NextRow,
    PrevRow,
    Matches(bool),
    ToggleMatches,
    CodeToggle(String, bool),
    CodeText(String),
    Ignore,
}

/// The keys the viewer reacts to; every other key is `Other`.
#[derive(Clone, Copy, PartialEq, Eq, Debug)]
pub enum Key {
    Right,
    Left,
    Space,
    Other,
}

/// The intent of a key press: right advances, left goes back, space flips the flag.
pub fn message_for_key(k: Key) -> (m: Message)
    ensures
        k == Key::Right ==> m is NextRow,
        k == Key::Left ==> m is PrevRow,
        k == Key::Space ==> m is ToggleMatches,
        k == Key::Other ==> m is Ignore,
{
    match k {
        Key::Right => Message::NextRow,
        Key::Left => Message::PrevRow,
        Key::Space => Message::ToggleMatches,
        Key::Other => Message::Ignore,
    }
}

/// The current position and the entries.
pub struct ViewerModel {
    pub idx: int,
    pub data: Seq<EntryModel>,
}

impl ViewerModel {
    /// The position lies within a non-empty sequence of entries.
    pub open spec fn valid(self) -> bool {
        0 <= self.idx < self.data.len()
    }

    /// The current entry.
    pub open spec fn curr(self) -> EntryModel {
        self.data[self.idx]
    }

    /// The same state with the current entry replaced by `e`.
    pub open spec fn with_curr(self, e: EntryModel) -> ViewerModel {
        ViewerModel { idx: self.idx, data: self.data.update(self.idx, e) }
    }
}

/// The position after an advance from `idx` among `n` entries: one on, but never past
/// the last.
pub open spec fn next_idx(idx: int, n: int) -> int {
    if idx + 1 < n {
        idx + 1
    } else {
        n - 1
    }
}

/// The position after a retreat from `idx`: one back, but never before the first.
pub open spec fn prev_idx(idx: int) -> int {
    if idx > 0 {
        idx - 1
    } else {
        0
    }
}

/// Where row `i` of the theme grid ends among `n` themes: five on from its start, or at
/// the last theme.
pub open spec fn row_end(i: int, n: int) -> int {
    if 5 * i + 5 <= n {
        5 * i + 5
    } else {
        n
    }
}

/// The state after intent `m` in state `s`.
pub open spec fn step(s: ViewerModel, m: Message) -> ViewerModel {
    match m {
        Message::NextRow => ViewerModel { idx: next_idx(s.idx, s.data.len() as int), data: s.data },
        Message::PrevRow => ViewerModel { idx: prev_idx(s.idx), data: s.data },
        Message::Matches(b) => s.with_curr(s.curr().with_matches(Some(b))),
        Message::ToggleMatches => s.with_curr(s.curr().with_matches(toggled(s.curr().matches))),
        Message::CodeToggle(tag, present) => match s.curr().codes {
            CodesModel::Tags(t) => s.with_curr(
                s.curr().with_codes(CodesModel::Tags(tags_after(t, tag@, present))),
            ),
            CodesModel::Text(_) => s,
        },
        Message::CodeText(text) => match s.curr().codes {
            CodesModel::Text(_) => s.with_curr(s.curr().with_codes(CodesModel::Text(text@))),
            CodesModel::Tags(_) => s,
        },
        Message::Ignore => s,
    }
}

/// Whether intent `m` in state `s` annotates the current entry, so that the entries
/// are to be saved after it.
pub open spec fn saves(s: ViewerModel, m: Message) -> bool {
    match m {
        Message::Matches(_) => true,
        Message::ToggleMatches => true,
        Message::CodeToggle(_, _) => s.curr().codes is Tags,
        Message::CodeText(_) => s.curr().codes is Text,
        _ => false,
    }
}

/// The entries under review, the position of the current one, and the vocabulary.
pub struct Viewer {
    idx: usize,
    data: Vec<Entry>,
    codes: Vec<Code>,
    themes: Vec<String>,
}

impl View for Viewer {
    type V = ViewerModel;

    closed spec fn view(&self) -> ViewerModel {
        ViewerModel { idx: self.idx as int, data: self.data@.map_values(|e: Entry| e@) }
    }
}

impl Viewer {
    /// The position lies within the entries, of which there is at least one.
    pub open spec fn wf(&self) -> bool {
        self@.valid()
    }

    /// A viewer on the first of `data`, with the vocabulary `codes` and its themes.
    pub fn new(data: Vec<Entry>, codes: Vec<Code>) -> (r: Viewer)
        requires
            data.len() > 0,
        ensures
            r.wf(),
            r@ == (ViewerModel { idx: 0, data: data@.map_values(|e: Entry| e@) }),
            r.vocabulary() == codes@,
            strictly_sorted(r.theme_list()),
            views_of(r.theme_list()) == themes_in(codes@),
    {
        let themes = themes_of(&codes);
        Viewer { idx: 0, data, codes, themes }
    }

    /// The codes of the vocabulary.
    pub closed spec fn vocabulary(&self) -> Seq<Code> {
        self.codes@
    }

    /// The themes of the vocabulary, as the viewer lays them out.
    pub closed spec fn theme_list(&self) -> Seq<String> {
        self.themes@
    }

    /// The codes of the vocabulary.
    pub fn codes(&self) -> (r: &Vec<Code>)
        ensures
            r@ == self.vocabulary(),
    {
        &self.codes
    }

    /// The distinct themes of the vocabulary, sorted ascending.
    pub fn themes(&self) -> (r: &Vec<String>)
        ensures
            r@ == self.theme_list(),
    {
        &self.themes
    }

    /// The rows of the theme grid, as ranges `[start, end)` into the themes: rows of five
    /// in order, the last one holding what remains, so that every theme is laid out.
    pub fn theme_rows(&self) -> (r: Vec<(usize, usize)>)
        ensures
            r.len() == (self.theme_list().len() + 4) / 5,
            forall|i: int|
                0 <= i < r.len() ==> #[trigger] r@[i] == (
                (5 * i) as usize,
                row_end(i, self.theme_list().len() as int) as usize,
            ),
    {
        let n = self.themes.len();
        let mut r: Vec<(usize, usize)> = Vec::new();
        let mut start: usize = 0;
        while start < n
            invariant
                n == self.theme_list().len(),
                start == if 5 * r.len() <= n { 5 * r.len() } else { n as int },
                5 * r.len() < n + 5,
                forall|i: int|
                    0 <= i < r.len() ==> #[trigger] r@[i] == ((5 * i) as usize, row_end(i, n as int) as usize),
            decreases n - start,
        {
            let end = if n - start >= 5 { start + 5 } else { n };
            r.push((start, end));
            start = end;
        }
        assert(r.len() == (n + 4) / 5) by (nonlinear_arith)
            requires
                5 * r.len() >= n,
                5 * r.len() < n + 5,
        ;
        r
    }

    /// The positions of the vocabulary's codes of theme `theme`, ascending.
    pub fn codes_in_theme(&self, theme: &String) -> (r: Vec<usize>)
        ensures
            forall|i: int, j: int| 0 <= i < j < r.len() ==> r@[i] < r@[j],
            forall|k: int| 0 <= k < r.len() ==> #[trigger] r@[k] < self.vocabulary().len(),
            forall|c: int|
                0 <= c < self.vocabulary().len() ==> (r@.contains(c as usize) <==> (
                #[trigger] self.vocabulary()[c]).theme@ == theme@),
    {
        let mut r: Vec<usize> = Vec::new();
        let mut c: usize = 0;
        while c < self.codes.len()
            invariant
                c <= self.codes.len(),
                forall|i: int, j: int| 0 <= i < j < r.len() ==> r@[i] < r@[j],
                forall|k: int| 0 <= k < r.len() ==> #[trigger] r@[k] < c,
                forall|d: int|
                    0 <= d < c ==> (r@.contains(d as usize) <==> (#[trigger] self.codes@[d]).theme@
                        == theme@),
            decreases self.codes.len() - c,
        {
            let ghost before = r@;
            if self.codes[c].theme == *theme {
                r.push(c);
                assert forall|d: int| 0 <= d < c implies (r@.contains(d as usize) <==> #[trigger] before.contains(d as usize)) by {
                    if r@.contains(d as usize) {
                        let k = choose|k: int| 0 <= k < r.len() && r@[k] == d as usize;
                        if k < before.len() {
                            assert(before[k] == d as usize);
                        }
                    }
                    if before.contains(d as usize) {
                        let k = choose|k: int| 0 <= k < before.len() && before[k] == d as usize;
                        assert(r@[k] == d as usize);
                    }
                }
                assert(r@[before.len() as int] == c);
            } else {
                assert(!r@.contains(c));
            }
            c = c + 1;
        }
        r
    }

    /// The position of the current entry.
    pub fn idx(&self) -> (r: usize)
        ensures
            r == self@.idx,
    {
        self.idx
    }

    /// The number of entries.
    pub fn len(&self) -> (r: usize)
        ensures
            r == self@.data.len(),
    {
        self.data.len()
    }

    /// All entries, in order.
    pub fn entries(&self) -> (r: &Vec<Entry>)
        ensures
            r@.map_values(|e: Entry| e@) == self@.data,
    {
        &self.data
    }

    /// The current entry.
    pub fn curr(&self) -> (r: &Entry)
        requires
            self.wf(),
        ensures
            r@ == self@.curr(),
    {
        &self.data[self.idx]
    }

    /// The current entry, to change in place.
    fn curr_mut(&mut self) -> (r: &mut Entry)
        requires
            old(self).wf(),
        ensures
            *r == old(self).data@[old(self).idx as int],
            final(self).data@ == old(self).data@.update(old(self).idx as int, *final(r)),
            final(self).idx == old(self).idx,
            final(self).codes == old(self).codes,
            final(self).themes == old(self).themes,
    {
        &mut self.data[self.idx]
    }

    /// Carries out intent `m`. The result says whether the current entry was annotated,
    /// in which case the entries are to be saved.
    pub fn update(&mut self, m: Message) -> (save: bool)
        requires
            old(self).wf(),
        ensures
            final(self).wf(),
            final(self)@ == step(old(self)@, m),
            save == saves(old(self)@, m),
            final(self).vocabulary() == old(self).vocabulary(),
            final(self).theme_list() == old(self).theme_list(),
    {
        let ghost s = self@;
        let n = self.data.len();
        match m {
            Message::NextRow => {
                self.idx = if self.idx + 1 < n { self.idx + 1 } else { n - 1 };
                false
            },
            Message::PrevRow => {
                self.idx = if self.idx > 0 { self.idx - 1 } else { 0 };
                false
            },
            Message::Matches(b) => {
                self.curr_mut().set_matches(b);
                assert(self@.data =~= s.data.update(s.idx, s.curr().with_matches(Some(b))));
                true
            },
            Message::ToggleMatches => {
                self.curr_mut().toggle_matches();
                assert(self@.data =~= s.data.update(s.idx, s.curr().with_matches(toggled(s.curr().matches))));
                true
            },
            Message::CodeToggle(tag, present) => {
                let ghost tv = tag@;
                let done = self.curr_mut().set_code(tag, present);
                proof {
                    match s.curr().codes {
                        CodesModel::Tags(t) => {
                            assert(self@.data =~= s.data.update(
                                s.idx,
                                s.curr().with_codes(CodesModel::Tags(tags_after(t, tv, present))),
                            ));
                        },
                        CodesModel::Text(_) => {
                            assert(self@.data =~= s.data);
                        },
                    }
                }
                done
            },
            Message::CodeText(text) => {
                let ghost tv = text@;
                let done = self.curr_mut().set_code_text(text);
                proof {
                    match s.curr().codes {
                        CodesModel::Text(_) => {
                            assert(self@.data =~= s.data.update(
                                s.idx,
                                s.curr().with_codes(CodesModel::Text(tv)),
                            ));
                        },
                        CodesModel::Tags(_) => {
                            assert(self@.data =~= s.data);
                        },
                    }
                }
                done
            },
            Message::Ignore => false,
        }
    }
}

} // verus!
