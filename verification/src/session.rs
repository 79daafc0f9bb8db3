//! The selection controller and the picker's reactions to user input.
//!
//! Nothing here touches a window, the clipboard or a file. Every operation
//! takes the state and an event, updates the state and says what the caller
//! has to do next.
//!
//! Moving the highlight steps one row at a time and stops at either end of
//! the list: it neither wraps around nor jumps. From a list without a
//! highlight, a step in either direction lands on the first row.

use vstd::prelude::*;
use crate::recents::{pushed, save_recent_emojis, stored_text};
use crate::search::{rank_spec, update_entries};
use crate::structs::{records, Emoji, State};
use crate::text::{chars_of, fold_case, lowercase, same_chars};
use crate::ui_options::MAX_RESULTS;

verus! {

/// Which way the highlight moves.
#[derive(Clone, Copy, Debug, PartialEq, Eq, Structural)]
pub enum Direction {
    Next,
    Previous,
}

/// The keys the picker tells apart.
#[derive(Clone, Copy, Debug, PartialEq, Eq, Structural)]
pub enum Key {
    Escape,
    Up,
    Down,
    Return,
    Other,
}

/// What a confirmed pick hands to the caller.
#[derive(Debug)]
pub struct Confirmed {
    /// The glyph to put on the clipboard.
    pub glyph: String,
    /// The text to write to the recency storage.
    pub stored: String,
}

/// What the caller has to do after an event.
#[derive(Debug)]
pub enum Action {
    /// Nothing.
    Idle,
    /// Give the keyboard focus to the query field.
    FocusInput,
    /// Show the given row as highlighted.
    Select(usize),
    /// Copy the glyph, write the recency storage, then end the session.
    Commit(Confirmed),
    /// End the session; nothing is copied or stored.
    Exit,
}

/// Where the highlight stands after one step through a list of `len` rows.
pub open spec fn stepped(selected: Option<usize>, len: nat, direction: Direction) -> Option<usize> {
    if len == 0 {
        None
    } else {
        match selected {
            None => Some(0usize),
            Some(i) => match direction {
                Direction::Next => if i + 1 < len {
                    Some((i + 1) as usize)
                } else {
                    Some((len - 1) as usize)
                },
                Direction::Previous => if i == 0 {
                    Some(0usize)
                } else if i - 1 < len {
                    Some((i - 1) as usize)
                } else {
                    Some((len - 1) as usize)
                },
            },
        }
    }
}

/// The key that a lowercased key name stands for.
pub open spec fn key_of(folded: Seq<char>) -> Key {
    if folded == seq!['e', 's', 'c', 'a', 'p', 'e'] {
        Key::Escape
    } else if folded == seq!['u', 'p'] {
        Key::Up
    } else if folded == seq!['d', 'o', 'w', 'n'] {
        Key::Down
    } else if folded == seq!['r', 'e', 't', 'u', 'r', 'n'] {
        Key::Return
    } else {
        Key::Other
    }
}

/// The key that the lowercased name `folded` stands for.
pub fn classify_folded_key(folded: &Vec<char>) -> (key: Key)
    ensures
        key == key_of(folded@),
{
    proof {
        reveal_strlit("escape");
        reveal_strlit("up");
        reveal_strlit("down");
        reveal_strlit("return");
        assert("escape"@ =~= seq!['e', 's', 'c', 'a', 'p', 'e']);
        assert("up"@ =~= seq!['u', 'p']);
        assert("down"@ =~= seq!['d', 'o', 'w', 'n']);
        assert("return"@ =~= seq!['r', 'e', 't', 'u', 'r', 'n']);
    }
    if same_chars(folded, &chars_of("escape")) {
        Key::Escape
    } else if same_chars(folded, &chars_of("up")) {
        Key::Up
    } else if same_chars(folded, &chars_of("down")) {
        Key::Down
    } else if same_chars(folded, &chars_of("return")) {
        Key::Return
    } else {
        Key::Other
    }
}

/// The key that `name` stands for, whatever its letter case.
pub fn classify_key(name: &str) -> (key: Key)
    ensures
        key == key_of(lowercase(name@)),
{
    let folded = fold_case(name);
    classify_folded_key(&folded)
}

impl State {
    /// The records a query is matched against: the recently-used list for the
    /// empty query, the catalog for any other.
    pub open spec fn candidates_for(&self, query: Seq<char>) -> Seq<Emoji> {
        if query.len() == 0 {
            self.recent_emojis@
        } else {
            self.emojis@
        }
    }

    /// The row that a confirmation would pick, if the highlight points at one.
    pub open spec fn chosen(&self) -> Option<int> {
        match self.selected {
            Some(i) => if i < self.results.len() {
                Some(i as int)
            } else {
                None
            },
            None => None,
        }
    }

    /// Takes a new query: the list on show is ranked afresh and the highlight
    /// is dropped.
    pub fn set_query(&mut self, text: &str)
        ensures
            final(self).query@ == text@,
            records(final(self).results@) == rank_spec(
                text@,
                records(old(self).candidates_for(text@)),
                MAX_RESULTS as nat,
            ),
            final(self).selected is None,
            final(self).emojis == old(self).emojis,
            final(self).recent_emojis == old(self).recent_emojis,
            final(self).wf(),
    {
        let results = if text.is_empty() {
            update_entries(text, &self.recent_emojis)
        } else {
            update_entries(text, &self.emojis)
        };
        self.results = results;
        self.query = text.to_owned();
        self.selected = None;
    }

    /// Moves the highlight one step. With no rows on show there is nothing to
    /// highlight.
    pub fn navigate(&mut self, direction: Direction)
        ensures
            final(self).selected == stepped(
                old(self).selected,
                old(self).results.len() as nat,
                direction,
            ),
            final(self).query == old(self).query,
            final(self).results == old(self).results,
            final(self).emojis == old(self).emojis,
            final(self).recent_emojis == old(self).recent_emojis,
            old(self).wf() ==> final(self).wf(),
            old(self).wf() && old(self).results.len() == 0 ==> *final(self) == *old(self),
    {
        let len: usize = self.results.len();
        if len == 0 {
            self.selected = None;
        } else {
            let next: usize = match self.selected {
                None => 0,
                Some(i) => match direction {
                    Direction::Next => if i < len - 1 {
                        i + 1
                    } else {
                        len - 1
                    },
                    Direction::Previous => if i == 0 {
                        0
                    } else if i - 1 < len {
                        i - 1
                    } else {
                        len - 1
                    },
                },
            };
            self.selected = Some(next);
        }
    }

    /// Puts the highlight on row `index`, as a pointer or the keyboard focus
    /// does. An index past the end of the list changes nothing.
    pub fn select(&mut self, index: usize) -> (moved: bool)
        ensures
            moved == (index < old(self).results.len()),
            moved ==> final(self).selected == Some(index),
            !moved ==> final(self).selected == old(self).selected,
            final(self).query == old(self).query,
            final(self).results == old(self).results,
            final(self).emojis == old(self).emojis,
            final(self).recent_emojis == old(self).recent_emojis,
            old(self).wf() ==> final(self).wf(),
    {
        if index < self.results.len() {
            self.selected = Some(index);
            true
        } else {
            false
        }
    }

    /// Confirms the highlighted record. Without a highlight nothing happens.
    /// With one, the record goes to the front of the recently-used list, and
    /// the caller gets its glyph and the text to store for the new list.
    pub fn confirm(&mut self) -> (done: Option<Confirmed>)
        ensures
            old(self).chosen() is None ==> done is None && *final(self) == *old(self),
            old(self).chosen() matches Some(i) ==> {
                &&& done matches Some(c)
                &&& c.glyph@ == old(self).results@[i].emoji@
                &&& c.stored@ == stored_text(records(final(self).recent_emojis@))
                &&& records(final(self).recent_emojis@) == pushed(
                    records(old(self).recent_emojis@),
                    old(self).results@[i]@,
                )
            },
            final(self).query == old(self).query,
            final(self).results == old(self).results,
            final(self).emojis == old(self).emojis,
            final(self).selected == old(self).selected,
            old(self).wf() ==> final(self).wf(),
    {
        let len: usize = self.results.len();
        let pick: Option<usize> = match self.selected {
            Some(i) => if i < len {
                Some(i)
            } else {
                None
            },
            None => None,
        };
        match pick {
            None => None,
            Some(i) => {
                let record = self.results[i].clone();
                let glyph = record.emoji.clone();
                self.recent_emojis.insert(0, record);
                let stored = save_recent_emojis(&self.recent_emojis);
                Some(Confirmed { glyph, stored })
            },
        }
    }

    /// Reacts to a key going down. Escape ends the session; the arrow keys
    /// move the highlight; every other key sends the focus to the query field.
    pub fn key_pressed(&mut self, key: Key) -> (action: Action)
        ensures
            key == Key::Escape ==> action is Exit && *final(self) == *old(self),
            key == Key::Up || key == Key::Down ==> {
                &&& final(self).selected == stepped(
                    old(self).selected,
                    old(self).results.len() as nat,
                    if key == Key::Up {
                        Direction::Previous
                    } else {
                        Direction::Next
                    },
                )
                &&& match final(self).selected {
                    Some(i) => action == Action::Select(i),
                    None => action is Idle,
                }
            },
            key == Key::Return || key == Key::Other ==> action is FocusInput && *final(self)
                == *old(self),
            final(self).query == old(self).query,
            final(self).results == old(self).results,
            final(self).emojis == old(self).emojis,
            final(self).recent_emojis == old(self).recent_emojis,
            old(self).wf() ==> final(self).wf(),
    {
        match key {
            Key::Escape => Action::Exit,
            Key::Up | Key::Down => {
                let direction = match key {
                    Key::Up => Direction::Previous,
                    _ => Direction::Next,
                };
                self.navigate(direction);
                match self.selected {
                    Some(i) => Action::Select(i),
                    None => Action::Idle,
                }
            },
            Key::Return | Key::Other => Action::FocusInput,
        }
    }

    /// Reacts to a key coming up. Return confirms the highlighted record;
    /// every other key is ignored.
    pub fn key_released(&mut self, key: Key) -> (action: Action)
        ensures
            key != Key::Return || old(self).chosen() is None ==> action is Idle && *final(self)
                == *old(self),
            key == Key::Return ==> (old(self).chosen() matches Some(i) ==> {
                &&& action matches Action::Commit(c)
                &&& c.glyph@ == old(self).results@[i].emoji@
                &&& c.stored@ == stored_text(records(final(self).recent_emojis@))
                &&& records(final(self).recent_emojis@) == pushed(
                    records(old(self).recent_emojis@),
                    old(self).results@[i]@,
                )
            }),
            final(self).query == old(self).query,
            final(self).results == old(self).results,
            final(self).emojis == old(self).emojis,
            final(self).selected == old(self).selected,
            old(self).wf() ==> final(self).wf(),
    {
        match key {
            Key::Return => match self.confirm() {
                Some(c) => Action::Commit(c),
                None => Action::Idle,
            },
            _ => Action::Idle,
        }
    }
}

} // verus!
