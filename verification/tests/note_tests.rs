use genanki_rs::{field_checksum, guid_for, Error, Field, Model, ModelType, Note, Template};

fn css() -> String {
    r#".card {
 font-family: arial;
 font-size: 20px;
 text-align: center;
 color: black;
 background-color: white;
}

.cloze {
 font-weight: bold;
 color: blue;
}
.nightMode .cloze {
 color: lightblue;
}
"#
    .to_owned()
}

fn multi_field_cloze_model() -> Model {
    Model::new_with_options(
        1047194615,
        "Multi Field Cloze Model",
        vec![Field::new("Text1"), Field::new("Text2")],
        vec![Template::new("Cloze")
            .qfmt("{{cloze:Text1}} and {{cloze:Text2}}")
            .afmt("{{cloze:Text1}} and {{cloze:Text2}}")],
        Some(&css()),
        Some(ModelType::Cloze),
        None,
        None,
        None,
    )
}

fn plain_model() -> Model {
    Model::new(
        1607392319,
        "Simple Model",
        vec![Field::new("Question"), Field::new("Answer")],
        vec![
            Template::new("Card 1").qfmt("{{Question}}").afmt("{{Answer}}"),
            Template::new("Card 2").qfmt("{{Answer}}").afmt("{{Question}}"),
            Template::new("Card 3").qfmt("{{Question}}").afmt("{{Question}}"),
        ],
    )
}

#[test]
fn cloze_multi_field() {
    let fields = vec![
        "{{c1::Berlin}} is the capital of {{c2::Germany}}",
        "{{c3::Paris}} is the capital of {{c4::France}}",
    ];
    let note = Note::new(multi_field_cloze_model(), fields).unwrap();
    let mut sorted = note
        .cards()
        .iter()
        .map(|card| card.ord())
        .collect::<Vec<i64>>();
    sorted.sort_unstable();
    assert_eq!(sorted, vec![0, 1, 2, 3]);
}

#[test]
fn plain_front_back_yields_one_card_per_template() {
    // Regardless of field content, ordinals are 0..T-1 in template order.
    let note = Note::new(plain_model(), vec!["what?", ""]).unwrap();
    let ords: Vec<i64> = note.cards().iter().map(|card| card.ord()).collect();
    assert_eq!(ords, vec![0, 1, 2]);
}

#[test]
fn cloze_without_markers_falls_back_to_one_card() {
    let note = Note::new(multi_field_cloze_model(), vec!["no markers here", "none"]).unwrap();
    let ords: Vec<i64> = note.cards().iter().map(|card| card.ord()).collect();
    assert_eq!(ords, vec![0]);
}

#[test]
fn cloze_ordinals_ignore_which_field_carries_the_marker() {
    let left = Note::new(
        multi_field_cloze_model(),
        vec!["{{c1::a}} {{c2::b}}", ""],
    )
    .unwrap();
    let right = Note::new(
        multi_field_cloze_model(),
        vec!["", "{{c2::b}} {{c1::a}}"],
    )
    .unwrap();
    let mut l: Vec<i64> = left.cards().iter().map(|card| card.ord()).collect();
    let mut r: Vec<i64> = right.cards().iter().map(|card| card.ord()).collect();
    l.sort_unstable();
    r.sort_unstable();
    assert_eq!(l, vec![0, 1]);
    assert_eq!(l, r);
}

#[test]
fn cloze_marker_prefix_is_case_insensitive() {
    let note = Note::new(multi_field_cloze_model(), vec!["{{C2::x}}", ""]).unwrap();
    let ords: Vec<i64> = note.cards().iter().map(|card| card.ord()).collect();
    assert_eq!(ords, vec![1]);
}

#[test]
fn cloze_index_zero_is_not_a_marker() {
    // Indices are 1-based; {{c0::..}} produces no card of its own.
    let note = Note::new(multi_field_cloze_model(), vec!["{{c0::x}}", ""]).unwrap();
    let ords: Vec<i64> = note.cards().iter().map(|card| card.ord()).collect();
    assert_eq!(ords, vec![0]);
}

#[test]
fn cloze_duplicate_indices_count_once() {
    let note = Note::new(
        multi_field_cloze_model(),
        vec!["{{c1::a}} {{c1::b}}", "{{c1::c}}"],
    )
    .unwrap();
    let ords: Vec<i64> = note.cards().iter().map(|card| card.ord()).collect();
    assert_eq!(ords, vec![0]);
}

#[test]
fn cloze_index_digit_run_is_capped() {
    // Nine digits are a marker; a ten-digit run is not treated as one, so
    // the note falls back to the single ordinal 0.
    let nine = Note::new(multi_field_cloze_model(), vec!["{{c123456789::x}}", ""]).unwrap();
    let ords: Vec<i64> = nine.cards().iter().map(|card| card.ord()).collect();
    assert_eq!(ords, vec![123456788]);
    let ten = Note::new(multi_field_cloze_model(), vec!["{{c1234567890::x}}", ""]).unwrap();
    let ords: Vec<i64> = ten.cards().iter().map(|card| card.ord()).collect();
    assert_eq!(ords, vec![0]);
}

#[test]
fn cloze_ordinals_come_in_first_occurrence_order() {
    let note = Note::new(multi_field_cloze_model(), vec!["{{c2::a}} {{c1::b}}", ""]).unwrap();
    let ords: Vec<i64> = note.cards().iter().map(|card| card.ord()).collect();
    assert_eq!(ords, vec![1, 0]);
}

#[test]
fn field_count_mismatch_is_rejected() {
    let result = Note::new(plain_model(), vec!["only one value"]);
    assert!(matches!(result, Err(Error::InvalidFieldCount)));
}

#[test]
fn field_value_with_unit_separator_is_rejected() {
    // The schema joins field values with U+001F, so no value may contain it.
    let result = Note::new(plain_model(), vec!["front", "bad\u{1f}back"]);
    assert!(matches!(result, Err(Error::EncodingFailure)));
}

#[test]
fn guid_is_deterministic() {
    let fields = vec!["hello".to_string(), "world".to_string()];
    assert_eq!(guid_for(&fields), guid_for(&fields));
    assert_eq!(guid_for(&fields), "y{W(vA<uRZ");
}

#[test]
fn guid_changes_when_a_field_changes() {
    let fields = vec!["hello".to_string(), "world".to_string()];
    let changed = vec!["hello".to_string(), "world!".to_string()];
    assert_ne!(guid_for(&fields), guid_for(&changed));
    assert_eq!(guid_for(&changed), "J1IeTWcq49");
}

#[test]
fn guid_of_single_empty_field() {
    let fields = vec![String::new()];
    assert_eq!(guid_for(&fields), "ME_YHw2?15");
}

#[test]
fn checksum_is_first_eight_hex_digits_of_sha1() {
    assert_eq!(field_checksum("hello"), 2868168221);
    assert_eq!(field_checksum(""), 3661210606);
}

#[test]
fn note_guid_comes_from_field_values() {
    let note = Note::new(plain_model(), vec!["hello", "world"]).unwrap();
    assert_eq!(note.guid(), "y{W(vA<uRZ");
}
