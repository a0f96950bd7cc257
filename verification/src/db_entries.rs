//! The rows of the embedded database, as plain values. The embedding
//! database engine and the archive writer are sinks outside this library:
//! they accept these rows and blobs as given and add nothing to them.

use vstd::prelude::*;

use crate::model::{Field, Template};

verus! {

/// One row of the `col` table's models blob: a model renumbered and made
/// ready for the importing application.
#[derive(Debug, Clone)]
pub struct ModelDbEntry {
    pub id: i64,
    pub name: String,
    pub flds: Vec<Field>,
    pub tmpls: Vec<Template>,
    pub css: String,
    pub latex_pre: String,
    pub latex_post: String,
    pub sortf: i64,
    /// 0 for a plain front/back model, 1 for a cloze model.
    pub model_db_entry_type: i64,
    pub did: i64,
    pub usn: i64,
    pub model_db_entry_mod: i64,
    /// One entry per template: its ordinal, the kind `"all"`, and every
    /// field index of the model.
    pub req: Vec<(usize, String, Vec<usize>)>,
}

/// One row of the `col` table's decks blob.
#[derive(Debug, Clone)]
pub struct DeckDbEntry {
    pub id: i64,
    pub name: String,
    pub desc: String,
    pub deck_db_entry_mod: i64,
    pub usn: i64,
}

/// One row of the `notes` table.
#[derive(Debug, Clone)]
pub struct NoteDbEntry {
    pub id: i64,
    pub guid: String,
    pub mid: i64,
    pub note_mod: i64,
    pub usn: i64,
    pub tags: String,
    /// The note's field values joined by the schema's unit separator.
    pub flds: String,
    /// The text of the model's sort field, used by the importer for sorting.
    pub sfld: String,
    /// Duplicate-detection checksum of the first field value.
    pub csum: i64,
    pub flags: i64,
    pub data: String,
}

/// One row of the `cards` table; scheduling state is the "new card" default.
#[derive(Debug, Clone)]
pub struct CardDbEntry {
    pub id: i64,
    pub nid: i64,
    pub did: i64,
    pub ord: i64,
    pub card_mod: i64,
    pub usn: i64,
    pub ctype: i64,
    pub queue: i64,
    pub due: i64,
    pub ivl: i64,
    pub factor: i64,
    pub reps: i64,
    pub lapses: i64,
    pub left: i64,
    pub odue: i64,
    pub odid: i64,
    pub flags: i64,
    pub data: String,
}

/// The single row of the `col` table; the models and decks blobs stand
/// beside it in the payload.
#[derive(Debug, Clone)]
pub struct ColDbEntry {
    pub id: i64,
    /// Creation time.
    pub crt: i64,
    /// Modification time.
    pub col_db_entry_mod: i64,
    /// Schema modification time.
    pub scm: i64,
    /// Schema version.
    pub ver: i64,
    pub dty: i64,
    pub usn: i64,
    pub ls: i64,
}

/// One media entry of the archive: the blob is stored under the decimal
/// index as its entry name, and the manifest maps that index to the file's
/// original base name.
#[derive(Debug, Clone)]
pub struct MediaEntry {
    pub index: usize,
    pub name: String,
}

} // verus!
