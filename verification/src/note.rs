//! A note binds a model to concrete field values and expands into cards. A
//! plain front/back note yields one card per template, in template order; a
//! cloze note yields one card per distinct cloze index found anywhere in its
//! field values, with ordinal index minus one, and the single fallback
//! ordinal 0 when no marker occurs. The ordinal set is deterministic: no
//! randomness and no unordered container takes part.

use vstd::prelude::*;

use crate::cloze::{cloze_ord_seq, cloze_ords};
use crate::error::Error;
use crate::guid::{guid_for, guid_spec};
use crate::model::{Model, ModelType};

verus! {

/// One reviewable item: a projection of a note under one template ordinal
/// (plain front/back) or one cloze ordinal (cloze). Never constructed
/// independently by the caller.
#[derive(Debug, Clone, Copy, PartialEq, Eq, Structural)]
pub struct Card {
    pub ord: i64,
}

impl Card {
    /// The card's template or cloze ordinal.
    pub fn ord(&self) -> (r: i64)
        ensures
            r == self.ord,
    {
        self.ord
    }
}

/// One set of field values conforming to a model.
#[derive(Debug, Clone)]
pub struct Note {
    pub model: Model,
    pub field_values: Vec<String>,
    /// The note's GUID where the caller supplied one; otherwise it is
    /// derived from the field values at serialization time.
    pub guid: Option<String>,
    pub tags: Vec<String>,
}

/// The text holds the schema's unit separator, which joins field values in
/// the database row and separates them under the GUID hash: no field value
/// may contain it.
pub open spec fn has_unit_separator(s: Seq<char>) -> bool {
    exists|i: int| 0 <= i < s.len() && s[i] == '\u{1f}'
}

/// Some field value holds the schema's unit separator.
pub open spec fn any_unit_separator(fields: Seq<Seq<char>>) -> bool {
    exists|f: int| 0 <= f < fields.len() && has_unit_separator(#[trigger] fields[f])
}

fn contains_unit_separator(s: &str) -> (b: bool)
    ensures
        b == has_unit_separator(s@),
{
    let n = s.unicode_len();
    let mut i: usize = 0;
    while i < n
        invariant
            i <= n,
            n == s@.len(),
            forall|m: int| 0 <= m < i ==> s@[m] != '\u{1f}',
        decreases n - i,
    {
        if s.get_char(i) == '\u{1f}' {
            return true;
        }
        i = i + 1;
    }
    false
}

/// A note on a plain front/back model with T templates expands into exactly
/// T cards, with ordinals 0 .. T-1 in template order; the field values play
/// no part.
pub proof fn lemma_plain_front_back_ords(n: Note)
    requires
        n.model.model_type == ModelType::FrontBack,
    ensures
        n.spec_card_ords().len() == n.model.templates@.len(),
        forall|i: int| 0 <= i < n.spec_card_ords().len() ==> #[trigger] n.spec_card_ords()[i] == i,
{
}

impl Note {
    /// Binds `model` to the given field values. Fails with
    /// `InvalidFieldCount` exactly when the number of values differs from
    /// the model's field count, else with `EncodingFailure` exactly when a
    /// value contains the schema's unit separator.
    pub fn new(model: Model, field_values: Vec<&str>) -> (r: Result<Note, Error>)
        ensures
            r is Ok <==> (field_values@.len() == model.fields@.len() && !any_unit_separator(
                field_values.deep_view(),
            )),
            r matches Err(e) ==> {
                &&& (e == Error::InvalidFieldCount <==> field_values@.len()
                    != model.fields@.len())
                &&& (e == Error::InvalidFieldCount || e == Error::EncodingFailure)
            },
            r matches Ok(n) ==> {
                &&& n.model == model
                &&& n.field_values.deep_view() == field_values.deep_view()
                &&& n.guid is None
                &&& n.tags@.len() == 0
            },
    {
        if field_values.len() != model.fields.len() {
            return Err(Error::InvalidFieldCount);
        }
        let ghost dv = field_values.deep_view();
        let mut j: usize = 0;
        while j < field_values.len()
            invariant
                j <= field_values@.len(),
                field_values@.len() == model.fields@.len(),
                dv == field_values.deep_view(),
                dv.len() == field_values@.len(),
                forall|m: int| 0 <= m < j ==> !has_unit_separator(#[trigger] dv[m]),
            decreases field_values@.len() - j,
        {
            if contains_unit_separator(field_values[j]) {
                proof {
                    assert(has_unit_separator(dv[j as int]));
                }
                return Err(Error::EncodingFailure);
            }
            j = j + 1;
        }
        let mut vals: Vec<String> = Vec::new();
        let mut j: usize = 0;
        while j < field_values.len()
            invariant
                j <= field_values@.len(),
                vals@.len() == j,
                forall|w: int| 0 <= w < j ==> (#[trigger] vals@[w])@ == field_values@[w]@,
            decreases field_values@.len() - j,
        {
            vals.push(field_values[j].to_owned());
            j = j + 1;
        }
        proof {
            assert(vals.deep_view() =~~= field_values.deep_view());
        }
        Ok(Note { model, field_values: vals, guid: None, tags: Vec::new() })
    }

    /// The GUID the serialized note carries: the caller-supplied one where
    /// it was set, else the one derived from the field values.
    pub open spec fn spec_guid(&self) -> Seq<char> {
        match self.guid {
            Option::Some(g) => g@,
            Option::None => guid_spec(self.field_values.deep_view()),
        }
    }

    /// The note's GUID; derived deterministically from the field values
    /// when the caller did not supply one.
    pub fn guid(&self) -> (g: String)
        ensures
            g@ == self.spec_guid(),
    {
        match &self.guid {
            Option::Some(g) => g.clone(),
            Option::None => guid_for(&self.field_values),
        }
    }

    /// The ordinals of the cards this note produces, in the order `cards`
    /// yields them.
    pub open spec fn spec_card_ords(&self) -> Seq<int> {
        match self.model.model_type {
            ModelType::FrontBack => Seq::new(self.model.templates@.len(), |i: int| i),
            ModelType::Cloze => cloze_ord_seq(self.field_values.deep_view()),
        }
    }

    /// Expands the note into its cards. A plain front/back note yields
    /// exactly one card per template, with ordinals 0 .. templates - 1 in
    /// order, regardless of field content; a cloze note yields one card per
    /// distinct cloze index across all field values, ordinal index minus
    /// one, with the single fallback ordinal 0 when no marker occurs.
    pub fn cards(&self) -> (r: Vec<Card>)
        requires
            self.model.templates@.len() <= i64::MAX,
        ensures
            r@.map_values(|c: Card| c.ord as int) == self.spec_card_ords(),
    {
        match self.model.model_type {
            ModelType::FrontBack => {
                let mut r: Vec<Card> = Vec::new();
                let n = self.model.templates.len();
                let mut i: usize = 0;
                while i < n
                    invariant
                        i <= n,
                        n == self.model.templates@.len(),
                        n <= i64::MAX,
                        r@.len() == i,
                        forall|w: int| 0 <= w < i ==> (#[trigger] r@[w]).ord == w,
                    decreases n - i,
                {
                    r.push(Card { ord: i as i64 });
                    i = i + 1;
                }
                proof {
                    assert(r@.map_values(|c: Card| c.ord as int) =~= self.spec_card_ords());
                }
                r
            },
            ModelType::Cloze => {
                let ns = cloze_ords(&self.field_values);
                let ghost d = ns@.map_values(|x: u64| x as nat);
                let mut r: Vec<Card> = Vec::new();
                if ns.len() == 0 {
                    r.push(Card { ord: 0 });
                    proof {
                        assert(r@.map_values(|c: Card| c.ord as int) =~= self.spec_card_ords());
                    }
                    return r;
                }
                let mut a: usize = 0;
                while a < ns.len()
                    invariant
                        a <= ns@.len(),
                        ns@.len() > 0,
                        d == ns@.map_values(|x: u64| x as nat),
                        d == crate::cloze::dedup(
                            crate::cloze::note_markers(self.field_values.deep_view()),
                        ),
                        forall|w: int| 0 <= w < ns@.len() ==> 1 <= #[trigger] ns@[w] < 1000000000,
                        r@.len() == a,
                        forall|w: int| 0 <= w < a ==> (#[trigger] r@[w]).ord == ns@[w] - 1,
                    decreases ns@.len() - a,
                {
                    let n_val = ns[a];
                    r.push(Card { ord: (n_val - 1) as i64 });
                    a = a + 1;
                }
                proof {
                    let mapped = r@.map_values(|c: Card| c.ord as int);
                    let ords = self.spec_card_ords();
                    assert(d.len() == ns@.len());
                    assert forall|w: int| 0 <= w < mapped.len() implies mapped[w] == ords[w] by {
                        assert(d[w] == ns@[w] as nat);
                        assert(ords[w] == d[w] - 1);
                    }
                    assert(mapped =~= ords);
                }
                r
            },
        }
    }
}

} // verus!
