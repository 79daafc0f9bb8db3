//! The data model: emoji records and the picker's state.

use vstd::prelude::*;
use crate::ui_options::MAX_RESULTS;

verus! {

/// What an [`Emoji`] stands for in contracts: its two texts.
pub struct EmojiView {
    pub emoji: Seq<char>,
    pub name: Seq<char>,
}

/// One emoji: the glyph itself and its human-readable name.
#[derive(Debug)]
pub struct Emoji {
    pub emoji: String,
    pub name: String,
}

impl View for Emoji {
    type V = EmojiView;

    open spec fn view(&self) -> EmojiView {
        EmojiView { emoji: self.emoji@, name: self.name@ }
    }
}

impl Clone for Emoji {
    fn clone(&self) -> (out: Self)
        ensures
            out == *self,
    {
        Emoji { emoji: self.emoji.clone(), name: self.name.clone() }
    }
}

/// The views of a sequence of records.
pub open spec fn records(v: Seq<Emoji>) -> Seq<EmojiView> {
    v.map_values(|e: Emoji| e@)
}

/// The line that stores a record: glyph, one space, name.
pub open spec fn line_of(r: EmojiView) -> Seq<char> {
    r.emoji + seq![' '] + r.name
}

impl Emoji {
    /// A record with the given name and glyph.
    pub fn new(name: &str, emoji: &str) -> (out: Emoji)
        ensures
            out@ == (EmojiView { emoji: emoji@, name: name@ }),
    {
        Emoji { name: name.to_owned(), emoji: emoji.to_owned() }
    }

    /// The record as one line of text: glyph, one space, name.
    pub fn as_string(&self) -> (out: String)
        ensures
            out@ == line_of(self@),
    {
        let mut out = self.emoji.clone();
        proof {
            reveal_strlit(" ");
        }
        out.append(" ");
        out.append(self.name.as_str());
        out
    }
}

/// Everything the picker holds between two user actions.
pub struct State {
    /// The text typed so far.
    pub query: String,
    /// The list on show, best match first.
    pub results: Vec<Emoji>,
    /// The catalog: every emoji that can be found.
    pub emojis: Vec<Emoji>,
    /// The recently-used list, most recent first.
    pub recent_emojis: Vec<Emoji>,
    /// The highlighted row of `results`, if any.
    pub selected: Option<usize>,
}

impl State {
    /// The list on show fits the cap, and the highlight, if there is one,
    /// points into it.
    pub open spec fn wf(&self) -> bool {
        &&& self.results.len() <= MAX_RESULTS
        &&& self.selected matches Some(i) ==> i < self.results.len()
    }

    /// A state with no query, no records and no highlight.
    pub fn new() -> (out: State)
        ensures
            out.query@.len() == 0,
            out.results@.len() == 0,
            out.emojis@.len() == 0,
            out.recent_emojis@.len() == 0,
            out.selected is None,
            out.wf(),
    {
        State {
            query: String::new(),
            results: Vec::new(),
            emojis: Vec::new(),
            recent_emojis: Vec::new(),
            selected: None,
        }
    }
}

} // verus!
