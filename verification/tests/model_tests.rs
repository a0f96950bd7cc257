use genanki_rs::{Field, Model, ModelType, Template};

fn css() -> String {
    r#".card {
 font-family: arial;
 font-size: 20px;
 text-align: center;
 color: black;
 background-color: white;
}

.cloze {
 font-weight: bold;
 color: blue;
}
.nightMode .cloze {
 color: lightblue;
}
"#
    .to_owned()
}

#[test]
fn build_all_fields() {
    // A simple test to make sure we can call all the setters on the builder.
    //
    // It doesn't actually verify any behavior, it's basically just a smoke test.
    Model::new(12345, "test model", vec![Field::new("front")], vec![])
        .with_template(Template::new("template"))
        .css(css())
        .latex_post("")
        .latex_pre("")
        .sort_field_index(1)
        .model_type(ModelType::FrontBack);
}

#[test]
fn requirements_are_conservative() {
    // A plain front/back model with F fields and T templates reports T
    // entries, each kind "all" and listing every field index.
    let model = Model::new(
        1,
        "m",
        vec![Field::new("Question"), Field::new("Answer")],
        vec![
            Template::new("Card 1").qfmt("{{Question}}").afmt("{{Answer}}"),
            Template::new("Card 2").qfmt("{{Answer}}").afmt("{{Question}}"),
            Template::new("Card 3").qfmt("{{Question}}").afmt("{{Question}}"),
        ],
    );
    let req = model.req().unwrap();
    assert_eq!(req.len(), 3);
    for (ord, entry) in req.iter().enumerate() {
        assert_eq!(entry.0, ord);
        assert_eq!(entry.1, "all");
        assert_eq!(entry.2, vec![0, 1]);
    }
}

#[test]
fn renumbering_is_idempotent() {
    // Serializing the same model twice assigns identical ordinals.
    let model = Model::new(
        7,
        "m",
        vec![Field::new("A"), Field::new("B"), Field::new("C")],
        vec![
            Template::new("T0").qfmt("{{A}}").afmt("{{B}}"),
            Template::new("T1").qfmt("{{C}}").afmt("{{A}}"),
        ],
    );
    let first = model.to_model_db_entry(1000, 55).unwrap();
    let second = model.to_model_db_entry(1000, 55).unwrap();
    let first_field_ords: Vec<i64> = first.flds.iter().map(|f| f.ord).collect();
    let second_field_ords: Vec<i64> = second.flds.iter().map(|f| f.ord).collect();
    assert_eq!(first_field_ords, vec![0, 1, 2]);
    assert_eq!(first_field_ords, second_field_ords);
    let first_template_ords: Vec<i64> = first.tmpls.iter().map(|t| t.ord).collect();
    let second_template_ords: Vec<i64> = second.tmpls.iter().map(|t| t.ord).collect();
    assert_eq!(first_template_ords, vec![0, 1]);
    assert_eq!(first_template_ords, second_template_ords);
}

#[test]
fn model_db_entry_carries_model_data() {
    let model = Model::new_with_options(
        99,
        "opts",
        vec![Field::new("F")],
        vec![Template::new("T").qfmt("{{F}}").afmt("{{F}}")],
        Some("p { color: red; }"),
        Some(ModelType::Cloze),
        Some("pre"),
        Some("post"),
        Some(0),
    );
    let entry = model.to_model_db_entry(42, 9).unwrap();
    assert_eq!(entry.id, 99);
    assert_eq!(entry.name, "opts");
    assert_eq!(entry.css, "p { color: red; }");
    assert_eq!(entry.latex_pre, "pre");
    assert_eq!(entry.latex_post, "post");
    assert_eq!(entry.model_db_entry_type, 1);
    assert_eq!(entry.did, 9);
    assert_eq!(entry.usn, -1);
    assert_eq!(entry.model_db_entry_mod, 42);
    assert_eq!(entry.sortf, 0);
}

#[test]
fn model_without_templates_cannot_serialize() {
    let model = Model::new(3, "empty", vec![Field::new("F")], vec![]);
    assert!(matches!(
        model.to_model_db_entry(0, 0),
        Err(genanki_rs::Error::EmptyTemplateSet)
    ));
}
