//! Builds portable flashcard packages: models (field layouts and render
//! templates), notes (field values bound to a model), the cards a note
//! expands into, decks, and the database rows and archive entries of the
//! final package file.

mod cloze;
mod db_entries;
mod deck;
mod digest;
mod error;
mod guid;
mod model;
mod note;
mod package;

pub use db_entries::CardDbEntry;
pub use db_entries::ColDbEntry;
pub use db_entries::DeckDbEntry;
pub use db_entries::MediaEntry;
pub use db_entries::ModelDbEntry;
pub use db_entries::NoteDbEntry;
pub use deck::Deck;
pub use error::Error;
pub use guid::field_checksum;
pub use guid::guid_for;
pub use model::Field;
pub use model::Model;
pub use model::ModelType;
pub use model::Template;
pub use note::Card;
pub use note::Note;
pub use package::Package;
pub use package::Payload;
