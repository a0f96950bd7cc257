use genanki_rs::{Deck, Error, Field, Model, Note, Package, Template};

fn one_field_model(id: i64) -> Model {
    Model::new(
        id,
        "One Field",
        vec![Field::new("Front")],
        vec![Template::new("Card 1").qfmt("{{Front}}").afmt("{{Front}}")],
    )
}

#[test]
fn round_trip_single_note() {
    // One deck, one note, one field, one template: exactly one notes row and
    // one cards row, linked to the deck and the model.
    let model = one_field_model(4242);
    let note = Note::new(model, vec!["the one value"]).unwrap();
    let mut deck = Deck::new(77, "Deck", "one deck");
    deck.add_note(note);
    let package = Package::new(vec![deck], vec![]).unwrap();
    let payload = package.to_payload(1_000_000).unwrap();
    assert_eq!(payload.notes.len(), 1);
    assert_eq!(payload.cards.len(), 1);
    assert_eq!(payload.cards[0].did, 77);
    assert_eq!(payload.notes[0].mid, 4242);
    assert_eq!(payload.cards[0].nid, payload.notes[0].id);
    assert_eq!(payload.cards[0].ord, 0);
    assert_eq!(payload.decks.len(), 1);
    assert_eq!(payload.decks[0].id, 77);
    assert_eq!(payload.models.len(), 1);
    assert_eq!(payload.models[0].id, 4242);
    assert_eq!(payload.col.crt, 1_000_000);
}

#[test]
fn duplicate_deck_ids_are_rejected() {
    let d1 = Deck::new(5, "first", "");
    let d2 = Deck::new(5, "second", "");
    let package = Package::new(vec![d1, d2], vec![]).unwrap();
    let result = package.to_payload(1_000_000);
    assert!(matches!(result, Err(Error::DuplicateId)));
}

#[test]
fn conflicting_model_ids_are_rejected() {
    // Two models with the same id but different content: one id must mean
    // one model, so the build fails with DuplicateId.
    let first = Note::new(one_field_model(4242), vec!["a"]).unwrap();
    let other_model = Model::new(
        4242,
        "Other Model",
        vec![Field::new("Back")],
        vec![Template::new("Card 1").qfmt("{{Back}}").afmt("{{Back}}")],
    );
    let second = Note::new(other_model, vec!["b"]).unwrap();
    let mut deck = Deck::new(1, "d", "");
    deck.add_note(first);
    deck.add_note(second);
    let package = Package::new(vec![deck], vec![]).unwrap();
    assert!(matches!(
        package.to_payload(1_000_000),
        Err(Error::DuplicateId)
    ));
}

#[test]
fn empty_template_model_fails_the_build() {
    let model = Model::new(9, "No Templates", vec![Field::new("F")], vec![]);
    let note = Note::new(model, vec!["v"]).unwrap();
    let mut deck = Deck::new(1, "d", "");
    deck.add_note(note);
    let package = Package::new(vec![deck], vec![]).unwrap();
    assert!(matches!(
        package.to_payload(1_000_000),
        Err(Error::EmptyTemplateSet)
    ));
}

#[test]
fn shared_model_is_serialized_once() {
    let n1 = Note::new(one_field_model(4242), vec!["a"]).unwrap();
    let n2 = Note::new(one_field_model(4242), vec!["b"]).unwrap();
    let mut deck = Deck::new(1, "d", "");
    deck.add_note(n1);
    deck.add_note(n2);
    let package = Package::new(vec![deck], vec![]).unwrap();
    let payload = package.to_payload(2_000_000).unwrap();
    assert_eq!(payload.models.len(), 1);
    assert_eq!(payload.notes.len(), 2);
    assert_eq!(payload.cards.len(), 2);
    // Row ids are unique and sequential from the timestamp seed.
    assert_eq!(payload.notes[0].id, 2_000_000);
    assert_eq!(payload.notes[1].id, 2_000_001);
    assert_ne!(payload.cards[0].id, payload.cards[1].id);
}

#[test]
fn note_row_joins_fields_with_unit_separator() {
    let model = Model::new(
        10,
        "Two Fields",
        vec![Field::new("A"), Field::new("B")],
        vec![Template::new("T").qfmt("{{A}}").afmt("{{B}}")],
    );
    let note = Note::new(model, vec!["front text", "back text"]).unwrap();
    let mut deck = Deck::new(2, "d", "");
    deck.add_note(note);
    let package = Package::new(vec![deck], vec![]).unwrap();
    let payload = package.to_payload(3_000_000).unwrap();
    assert_eq!(payload.notes[0].flds, "front text\u{1f}back text");
    assert_eq!(payload.notes[0].sfld, "front text");
    assert_eq!(payload.notes[0].usn, -1);
    assert_eq!(payload.notes[0].guid, genanki_rs::guid_for(&vec![
        "front text".to_string(),
        "back text".to_string(),
    ]));
    assert_eq!(
        payload.notes[0].csum,
        genanki_rs::field_checksum("front text") as i64
    );
}

#[test]
fn media_manifest_uses_sequential_indices_and_base_names() {
    let model = one_field_model(1);
    let note = Note::new(model, vec!["v"]).unwrap();
    let mut deck = Deck::new(1, "d", "");
    deck.add_note(note);
    let package = Package::new(
        vec![deck],
        vec!["sounds/word.mp3", "images/deep/tree.png", "plain.jpg"],
    )
    .unwrap();
    let payload = package.to_payload(1_000_000).unwrap();
    assert_eq!(payload.media.len(), 3);
    assert_eq!(payload.media[0].index, 0);
    assert_eq!(payload.media[0].name, "word.mp3");
    assert_eq!(payload.media[1].index, 1);
    assert_eq!(payload.media[1].name, "tree.png");
    assert_eq!(payload.media[2].index, 2);
    assert_eq!(payload.media[2].name, "plain.jpg");
}

#[test]
fn new_card_rows_carry_default_scheduling_state() {
    let model = one_field_model(4242);
    let note = Note::new(model, vec!["x"]).unwrap();
    let mut deck = Deck::new(3, "d", "");
    deck.add_note(note);
    let package = Package::new(vec![deck], vec![]).unwrap();
    let payload = package.to_payload(1_000_000).unwrap();
    let card = &payload.cards[0];
    assert_eq!(card.ctype, 0);
    assert_eq!(card.queue, 0);
    assert_eq!(card.due, 0);
    assert_eq!(card.ivl, 0);
    assert_eq!(card.reps, 0);
    assert_eq!(card.lapses, 0);
    assert_eq!(card.usn, -1);
}
