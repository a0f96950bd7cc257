//! Field and template descriptors, and the model that owns them: an ordered
//! list of fields, an ordered list of render templates, a rendering mode
//! (plain front/back or cloze), and styling metadata. The model computes the
//! per-template field requirements and its own database row; field and
//! template ordinals are recomputed from position at serialization time, so
//! re-serializing gives the same assignment.

use vstd::prelude::*;

use crate::db_entries::ModelDbEntry;
use crate::error::Error;

verus! {

/// One named field slot of a model. `ord` is recomputed from the field's
/// position whenever the model is serialized; its value at construction
/// carries no meaning.
#[derive(Debug, Clone)]
pub struct Field {
    pub name: String,
    pub ord: i64,
}

impl Field {
    /// A field with the given name.
    pub fn new(name: &str) -> (f: Field)
        ensures
            f.name@ == name@,
            f.ord == 0,
    {
        Field { name: name.to_owned(), ord: 0 }
    }
}

/// One render template of a model: a question format and an answer format,
/// both template strings over the model's field names. `ord` is recomputed
/// from position at serialization time.
#[derive(Debug, Clone)]
pub struct Template {
    pub name: String,
    pub qfmt: String,
    pub afmt: String,
    pub ord: i64,
}

impl Template {
    /// A template with the given name and empty formats.
    pub fn new(name: &str) -> (t: Template)
        ensures
            t.name@ == name@,
            t.qfmt@.len() == 0,
            t.afmt@.len() == 0,
            t.ord == 0,
    {
        Template { name: name.to_owned(), qfmt: String::new(), afmt: String::new(), ord: 0 }
    }

    /// Sets the question format.
    pub fn qfmt(self, qfmt: &str) -> (t: Template)
        ensures
            t == (Template { qfmt: t.qfmt, ..self }),
            t.qfmt@ == qfmt@,
    {
        Template { qfmt: qfmt.to_owned(), ..self }
    }

    /// Sets the answer format.
    pub fn afmt(self, afmt: &str) -> (t: Template)
        ensures
            t == (Template { afmt: t.afmt, ..self }),
            t.afmt@ == afmt@,
    {
        Template { afmt: afmt.to_owned(), ..self }
    }
}

/// `FrontBack` or `Cloze`: how a note bound to the model expands into cards.
///
/// When creating a model, the default is `FrontBack`.
#[derive(Debug, Clone, Copy, PartialEq, Eq, Structural)]
pub enum ModelType {
    FrontBack,
    Cloze,
}

/// Schema for a family of notes: its fields and the templates used to render
/// them into cards.
#[derive(Debug, Clone)]
pub struct Model {
    /// Caller-supplied id; must be unique across every package the importing
    /// application will ever see.
    pub id: i64,
    pub name: String,
    pub fields: Vec<Field>,
    pub templates: Vec<Template>,
    pub css: String,
    pub model_type: ModelType,
    pub latex_pre: String,
    pub latex_post: String,
    /// Index into `fields` of the field the importing application sorts by.
    pub sort_field_index: i64,
}

/// The default LaTeX preamble of a freshly created model.
pub open spec fn default_latex_pre() -> Seq<char> {
    "\n\\documentclass[12pt]{article}\n\\special{papersize=3in,5in}\n\\usepackage[utf8]{inputenc}\n\\usepackage{amssymb,amsmath}\n\\pagestyle{empty}\n\\setlength{\\parindent}{0in}\n\\begin{document}\n\n"@
}

/// The default LaTeX postamble of a freshly created model.
pub open spec fn default_latex_post() -> Seq<char> {
    "\\end{document}"@
}

/// `s` with every element's `ord` replaced by its position.
pub open spec fn renumbered_fields(s: Seq<Field>) -> Seq<Field> {
    Seq::new(s.len(), |i: int| Field { name: s[i].name, ord: i as i64 })
}

/// `s` with every element's `ord` replaced by its position.
pub open spec fn renumbered_templates(s: Seq<Template>) -> Seq<Template> {
    Seq::new(
        s.len(),
        |i: int| Template { name: s[i].name, qfmt: s[i].qfmt, afmt: s[i].afmt, ord: i as i64 },
    )
}

/// Renumbering fields is idempotent: renumbering an already renumbered
/// sequence assigns exactly the same ordinals again.
pub proof fn lemma_renumber_fields_idempotent(s: Seq<Field>)
    ensures
        renumbered_fields(renumbered_fields(s)) == renumbered_fields(s),
{
    assert(renumbered_fields(renumbered_fields(s)) =~= renumbered_fields(s));
}

/// Renumbering templates is idempotent: renumbering an already renumbered
/// sequence assigns exactly the same ordinals again.
pub proof fn lemma_renumber_templates_idempotent(s: Seq<Template>)
    ensures
        renumbered_templates(renumbered_templates(s)) == renumbered_templates(s),
{
    assert(renumbered_templates(renumbered_templates(s)) =~= renumbered_templates(s));
}

/// The field-index list every requirements entry carries: every index of the
/// model's fields, in order.
pub open spec fn all_field_indices(n: nat) -> Seq<usize> {
    Seq::new(n, |j: int| j as usize)
}

/// The conservative requirements of a model with the given field and
/// template counts: exactly one entry per template, entry `i` being
/// `(i, "all", [0 .. F-1])` — every template is marked kind `"all"` and
/// requires every field index, whatever its formats reference.
pub open spec fn requirements_ok(
    v: Seq<(usize, String, Vec<usize>)>,
    n_fields: nat,
    n_templates: nat,
) -> bool {
    &&& v.len() == n_templates
    &&& forall|i: int|
        0 <= i < v.len() ==> {
            &&& (#[trigger] v[i]).0 == i
            &&& v[i].1@ == "all"@
            &&& v[i].2@ == all_field_indices(n_fields)
        }
}

/// What the model's database row holds: the model's data with fields and
/// templates renumbered by position, the conservative requirements, and the
/// build timestamp.
pub open spec fn model_entry_ok(entry: ModelDbEntry, m: Model, timestamp: int, deck_id: int) -> bool {
    &&& entry.id == m.id
    &&& entry.name@ == m.name@
    &&& entry.flds@ == renumbered_fields(m.fields@)
    &&& entry.tmpls@ == renumbered_templates(m.templates@)
    &&& entry.css@ == m.css@
    &&& entry.latex_pre@ == m.latex_pre@
    &&& entry.latex_post@ == m.latex_post@
    &&& entry.sortf == m.sort_field_index
    &&& entry.model_db_entry_type == m.spec_type_flag()
    &&& entry.did == deck_id
    &&& entry.usn == -1
    &&& entry.model_db_entry_mod == timestamp
    &&& requirements_ok(entry.req@, m.fields@.len(), m.templates@.len())
}

/// Two field sequences hold the same data.
pub open spec fn fields_equal(a: Seq<Field>, b: Seq<Field>) -> bool {
    &&& a.len() == b.len()
    &&& forall|i: int|
        0 <= i < a.len() ==> (#[trigger] a[i]).name@ == b[i].name@ && a[i].ord == b[i].ord
}

/// Two template sequences hold the same data.
pub open spec fn templates_equal(a: Seq<Template>, b: Seq<Template>) -> bool {
    &&& a.len() == b.len()
    &&& forall|i: int|
        0 <= i < a.len() ==> (#[trigger] a[i]).name@ == b[i].name@ && a[i].qfmt@ == b[i].qfmt@
            && a[i].afmt@ == b[i].afmt@ && a[i].ord == b[i].ord
}

/// Two models hold the same content: same id, name, fields, templates,
/// styling, mode and sort field. Two such models serialize identically.
pub open spec fn models_equal(a: Model, b: Model) -> bool {
    &&& a.id == b.id
    &&& a.name@ == b.name@
    &&& fields_equal(a.fields@, b.fields@)
    &&& templates_equal(a.templates@, b.templates@)
    &&& a.css@ == b.css@
    &&& a.model_type == b.model_type
    &&& a.latex_pre@ == b.latex_pre@
    &&& a.latex_post@ == b.latex_post@
    &&& a.sort_field_index == b.sort_field_index
}

/// Model content equality is symmetric.
pub proof fn lemma_models_equal_sym(a: Model, b: Model)
    requires
        models_equal(a, b),
    ensures
        models_equal(b, a),
{
}

/// Two models with the content of a third have the same content.
pub proof fn lemma_models_equal_trans(a: Model, b: Model, c: Model)
    requires
        models_equal(a, c),
        models_equal(b, c),
    ensures
        models_equal(a, b),
{
}

fn fields_eq(a: &Vec<Field>, b: &Vec<Field>) -> (r: bool)
    ensures
        r == fields_equal(a@, b@),
{
    if a.len() != b.len() {
        return false;
    }
    let mut i: usize = 0;
    while i < a.len()
        invariant
            i <= a@.len(),
            a@.len() == b@.len(),
            forall|m: int|
                0 <= m < i ==> (#[trigger] a@[m]).name@ == b@[m].name@ && a@[m].ord == b@[m].ord,
        decreases a@.len() - i,
    {
        if !(a[i].name == b[i].name) || a[i].ord != b[i].ord {
            return false;
        }
        i = i + 1;
    }
    true
}

fn templates_eq(a: &Vec<Template>, b: &Vec<Template>) -> (r: bool)
    ensures
        r == templates_equal(a@, b@),
{
    if a.len() != b.len() {
        return false;
    }
    let mut i: usize = 0;
    while i < a.len()
        invariant
            i <= a@.len(),
            a@.len() == b@.len(),
            forall|m: int|
                0 <= m < i ==> (#[trigger] a@[m]).name@ == b@[m].name@ && a@[m].qfmt@
                    == b@[m].qfmt@ && a@[m].afmt@ == b@[m].afmt@ && a@[m].ord == b@[m].ord,
        decreases a@.len() - i,
    {
        let ta = &a[i];
        let tb = &b[i];
        if !(ta.name == tb.name) || !(ta.qfmt == tb.qfmt) || !(ta.afmt == tb.afmt) || ta.ord
            != tb.ord {
            return false;
        }
        i = i + 1;
    }
    true
}

/// Whether the two models hold the same content.
pub(crate) fn models_eq(a: &Model, b: &Model) -> (r: bool)
    ensures
        r == models_equal(*a, *b),
{
    if a.id != b.id {
        return false;
    }
    if !(a.name == b.name) {
        return false;
    }
    if !fields_eq(&a.fields, &b.fields) {
        return false;
    }
    if !templates_eq(&a.templates, &b.templates) {
        return false;
    }
    if !(a.css == b.css) {
        return false;
    }
    if !(a.model_type == b.model_type) {
        return false;
    }
    if !(a.latex_pre == b.latex_pre) {
        return false;
    }
    if !(a.latex_post == b.latex_post) {
        return false;
    }
    if a.sort_field_index != b.sort_field_index {
        return false;
    }
    true
}

fn default_latex_pre_exec() -> (r: String)
    ensures
        r@ == default_latex_pre(),
{
    "\n\\documentclass[12pt]{article}\n\\special{papersize=3in,5in}\n\\usepackage[utf8]{inputenc}\n\\usepackage{amssymb,amsmath}\n\\pagestyle{empty}\n\\setlength{\\parindent}{0in}\n\\begin{document}\n\n".to_owned()
}

fn default_latex_post_exec() -> (r: String)
    ensures
        r@ == default_latex_post(),
{
    "\\end{document}".to_owned()
}

/// The vector `[0, 1, ..., n - 1]` of field indices.
fn index_vec(n: usize) -> (v: Vec<usize>)
    ensures
        v@ == all_field_indices(n as nat),
{
    let mut v: Vec<usize> = Vec::new();
    let mut j: usize = 0;
    while j < n
        invariant
            j <= n,
            v@ == all_field_indices(j as nat),
        decreases n - j,
    {
        v.push(j);
        j = j + 1;
        proof {
            assert(v@ =~= all_field_indices(j as nat));
        }
    }
    v
}

impl Model {
    /// Creates a new model with a unique(!) `id`, a `name`, `fields` and
    /// `templates`; css empty, mode `FrontBack`, default LaTeX pre/post,
    /// sort field index 0.
    pub fn new(id: i64, name: &str, fields: Vec<Field>, templates: Vec<Template>) -> (m: Model)
        ensures
            m.id == id,
            m.name@ == name@,
            m.fields == fields,
            m.templates == templates,
            m.css@.len() == 0,
            m.model_type == ModelType::FrontBack,
            m.latex_pre@ == default_latex_pre(),
            m.latex_post@ == default_latex_post(),
            m.sort_field_index == 0,
    {
        Model {
            id,
            name: name.to_owned(),
            fields,
            templates,
            css: String::new(),
            model_type: ModelType::FrontBack,
            latex_pre: default_latex_pre_exec(),
            latex_post: default_latex_post_exec(),
            sort_field_index: 0,
        }
    }

    /// Creates a new model with a unique(!) `id`, a `name`, `fields` and
    /// `templates` and custom parameters; every `None` takes the same
    /// default as `new`.
    pub fn new_with_options(
        id: i64,
        name: &str,
        fields: Vec<Field>,
        templates: Vec<Template>,
        css: Option<&str>,
        model_type: Option<ModelType>,
        latex_pre: Option<&str>,
        latex_post: Option<&str>,
        sort_field_index: Option<i64>,
    ) -> (m: Model)
        ensures
            m.id == id,
            m.name@ == name@,
            m.fields == fields,
            m.templates == templates,
            m.css@ == (match css {
                Option::Some(c) => c@,
                Option::None => Seq::<char>::empty(),
            }),
            m.model_type == (match model_type {
                Option::Some(t) => t,
                Option::None => ModelType::FrontBack,
            }),
            m.latex_pre@ == (match latex_pre {
                Option::Some(l) => l@,
                Option::None => default_latex_pre(),
            }),
            m.latex_post@ == (match latex_post {
                Option::Some(l) => l@,
                Option::None => default_latex_post(),
            }),
            m.sort_field_index == (match sort_field_index {
                Option::Some(i) => i,
                Option::None => 0,
            }),
    {
        let css_val = match css {
            Option::Some(c) => c.to_owned(),
            Option::None => String::new(),
        };
        let model_type_val = match model_type {
            Option::Some(t) => t,
            Option::None => ModelType::FrontBack,
        };
        let latex_pre_val = match latex_pre {
            Option::Some(l) => l.to_owned(),
            Option::None => default_latex_pre_exec(),
        };
        let latex_post_val = match latex_post {
            Option::Some(l) => l.to_owned(),
            Option::None => default_latex_post_exec(),
        };
        let sort_field_index_val = match sort_field_index {
            Option::Some(i) => i,
            Option::None => 0,
        };
        Model {
            id,
            name: name.to_owned(),
            fields,
            templates,
            css: css_val,
            model_type: model_type_val,
            latex_pre: latex_pre_val,
            latex_post: latex_post_val,
            sort_field_index: sort_field_index_val,
        }
    }

    /// Adds an additional field to the model.
    pub fn with_field(self, field: Field) -> (m: Model)
        ensures
            m == (Model { fields: m.fields, ..self }),
            m.fields@ == self.fields@.push(field),
    {
        let mut fields = self.fields;
        fields.push(field);
        Model { fields, ..self }
    }

    /// Adds an additional template to the model.
    pub fn with_template(self, template: Template) -> (m: Model)
        ensures
            m == (Model { templates: m.templates, ..self }),
            m.templates@ == self.templates@.push(template),
    {
        let mut templates = self.templates;
        templates.push(template);
        Model { templates, ..self }
    }

    /// Sets the custom CSS for this model.
    pub fn css(self, css: String) -> (m: Model)
        ensures
            m == (Model { css: m.css, ..self }),
            m.css == css,
    {
        Model { css, ..self }
    }

    /// Changes the type of the model.
    pub fn model_type(self, model_type: ModelType) -> (m: Model)
        ensures
            m == (Model { model_type: m.model_type, ..self }),
            m.model_type == model_type,
    {
        Model { model_type, ..self }
    }

    /// Sets the model's LaTeX preamble.
    pub fn latex_pre(self, latex_pre: &str) -> (m: Model)
        ensures
            m == (Model { latex_pre: m.latex_pre, ..self }),
            m.latex_pre@ == latex_pre@,
    {
        Model { latex_pre: latex_pre.to_owned(), ..self }
    }

    /// Sets the model's LaTeX postamble.
    pub fn latex_post(self, latex_post: &str) -> (m: Model)
        ensures
            m == (Model { latex_post: m.latex_post, ..self }),
            m.latex_post@ == latex_post@,
    {
        Model { latex_post: latex_post.to_owned(), ..self }
    }

    /// Sets the index of the field used for sorting with this model.
    pub fn sort_field_index(self, sort_field_index: i64) -> (m: Model)
        ensures
            m == (Model { sort_field_index: m.sort_field_index, ..self }),
            m.sort_field_index == sort_field_index,
    {
        Model { sort_field_index, ..self }
    }

    /// The per-template field requirements: one entry per template, each
    /// marked kind `"all"` and listing every field index of the model. This
    /// conservative policy (a template is reported as requiring every field)
    /// is deliberate: it can never wrongly suppress a card, and the output
    /// must not be narrowed by inferring which fields a template really uses.
    pub fn req(&self) -> (r: Result<Vec<(usize, String, Vec<usize>)>, Error>)
        ensures
            r is Ok,
            r matches Ok(v) ==> requirements_ok(v@, self.fields@.len(), self.templates@.len()),
    {
        let mut req: Vec<(usize, String, Vec<usize>)> = Vec::new();
        let n_templates = self.templates.len();
        let n_fields = self.fields.len();
        let mut template_ord: usize = 0;
        while template_ord < n_templates
            invariant
                template_ord <= n_templates,
                n_fields == self.fields@.len(),
                req@.len() == template_ord,
                forall|i: int|
                    0 <= i < req@.len() ==> {
                        &&& (#[trigger] req@[i]).0 == i
                        &&& req@[i].1@ == "all"@
                        &&& req@[i].2@ == all_field_indices(self.fields@.len())
                    },
            decreases n_templates - template_ord,
        {
            req.push((template_ord, "all".to_owned(), index_vec(n_fields)));
            template_ord = template_ord + 1;
        }
        Ok(req)
    }

    /// The model's fields, renumbered by position.
    pub fn fields(&self) -> (r: Vec<Field>)
        requires
            self.fields@.len() <= i64::MAX,
        ensures
            r@ == renumbered_fields(self.fields@),
    {
        let mut r: Vec<Field> = Vec::new();
        let n = self.fields.len();
        let mut i: usize = 0;
        while i < n
            invariant
                i <= n,
                n == self.fields@.len(),
                n <= i64::MAX,
                r@ == renumbered_fields(self.fields@).subrange(0, i as int),
            decreases n - i,
        {
            r.push(Field { name: self.fields[i].name.clone(), ord: i as i64 });
            i = i + 1;
            proof {
                assert(r@ =~= renumbered_fields(self.fields@).subrange(0, i as int));
            }
        }
        proof {
            assert(r@ =~= renumbered_fields(self.fields@));
        }
        r
    }

    /// The model's templates, renumbered by position.
    pub fn templates(&self) -> (r: Vec<Template>)
        requires
            self.templates@.len() <= i64::MAX,
        ensures
            r@ == renumbered_templates(self.templates@),
    {
        let mut r: Vec<Template> = Vec::new();
        let n = self.templates.len();
        let mut i: usize = 0;
        while i < n
            invariant
                i <= n,
                n == self.templates@.len(),
                n <= i64::MAX,
                r@ == renumbered_templates(self.templates@).subrange(0, i as int),
            decreases n - i,
        {
            let t = &self.templates[i];
            r.push(
                Template {
                    name: t.name.clone(),
                    qfmt: t.qfmt.clone(),
                    afmt: t.afmt.clone(),
                    ord: i as i64,
                },
            );
            i = i + 1;
            proof {
                assert(r@ =~= renumbered_templates(self.templates@).subrange(0, i as int));
            }
        }
        proof {
            assert(r@ =~= renumbered_templates(self.templates@));
        }
        r
    }

    /// The model's rendering mode.
    pub fn get_model_type(&self) -> (r: ModelType)
        ensures
            r == self.model_type,
    {
        self.model_type.clone()
    }

    /// The numeric mode flag of the database row: 0 for `FrontBack`, 1 for
    /// `Cloze`.
    pub open spec fn spec_type_flag(&self) -> i64 {
        match self.model_type {
            ModelType::FrontBack => 0,
            ModelType::Cloze => 1,
        }
    }

    /// The model's database row: fields and templates renumbered by
    /// position, the requirements, and the styling metadata, stamped with
    /// the package-build timestamp. Fails with `EmptyTemplateSet` exactly
    /// when the model has no templates. Re-serializing the same model gives
    /// the identical row: every part is a pure function of the model and the
    /// arguments.
    pub fn to_model_db_entry(&self, timestamp: i64, deck_id: i64) -> (r: Result<
        ModelDbEntry,
        Error,
    >)
        requires
            self.fields@.len() <= i64::MAX,
            self.templates@.len() <= i64::MAX,
        ensures
            r is Err <==> self.templates@.len() == 0,
            r matches Err(e) ==> e == Error::EmptyTemplateSet,
            r matches Ok(entry) ==> model_entry_ok(entry, *self, timestamp as int, deck_id as int),
    {
        if self.templates.len() == 0 {
            return Err(Error::EmptyTemplateSet);
        }
        let model_type_flag: i64 = match self.model_type {
            ModelType::FrontBack => 0,
            ModelType::Cloze => 1,
        };
        let req = match self.req() {
            Ok(req) => req,
            Err(e) => {
                return Err(e);
            },
        };
        Ok(
            ModelDbEntry {
                id: self.id,
                name: self.name.clone(),
                flds: self.fields(),
                tmpls: self.templates(),
                css: self.css.clone(),
                latex_pre: self.latex_pre.clone(),
                latex_post: self.latex_post.clone(),
                sortf: self.sort_field_index,
                model_db_entry_type: model_type_flag,
                did: deck_id,
                usn: -1,
                model_db_entry_mod: timestamp,
                req,
            },
        )
    }
}

} // verus!
