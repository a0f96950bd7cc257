//! A deck: a named, identified collection of notes.

use vstd::prelude::*;

use crate::db_entries::DeckDbEntry;
use crate::note::Note;

verus! {

/// A named collection of notes, importable as a unit. The id is
/// caller-supplied and must be unique within a package.
#[derive(Debug, Clone)]
pub struct Deck {
    pub id: i64,
    pub name: String,
    pub description: String,
    pub notes: Vec<Note>,
}

/// What the deck's database row holds.
pub open spec fn deck_entry_ok(entry: DeckDbEntry, deck: Deck, timestamp: int) -> bool {
    &&& entry.id == deck.id
    &&& entry.name@ == deck.name@
    &&& entry.desc@ == deck.description@
    &&& entry.deck_db_entry_mod == timestamp
    &&& entry.usn == -1
}

impl Deck {
    /// An empty deck with the given identity.
    pub fn new(id: i64, name: &str, description: &str) -> (d: Deck)
        ensures
            d.id == id,
            d.name@ == name@,
            d.description@ == description@,
            d.notes@.len() == 0,
    {
        Deck { id, name: name.to_owned(), description: description.to_owned(), notes: Vec::new() }
    }

    /// Appends a note to the deck.
    pub fn add_note(&mut self, note: Note)
        ensures
            final (self).id == old(self).id,
            final (self).name == old(self).name,
            final (self).description == old(self).description,
            final (self).notes@ == old(self).notes@.push(note),
    {
        self.notes.push(note);
    }

    /// The deck's database row, stamped with the package-build timestamp.
    pub fn to_deck_db_entry(&self, timestamp: i64) -> (entry: DeckDbEntry)
        ensures
            deck_entry_ok(entry, *self, timestamp as int),
    {
        DeckDbEntry {
            id: self.id,
            name: self.name.clone(),
            desc: self.description.clone(),
            deck_db_entry_mod: timestamp,
            usn: -1,
        }
    }
}

} // verus!
