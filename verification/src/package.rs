//! The package assembler. It walks the decks, expands every note into its
//! cards, and emits the embedded database's rows — the single `col` row with
//! its model and deck entries, one `notes` row per note, one `cards` row per
//! card — and the archive's media manifest. The database engine and the
//! archive writer are sinks outside the library: a payload either is built
//! whole or an error is returned and nothing is emitted. All ids are seeded
//! deterministically from the caller's one build timestamp.

use vstd::prelude::*;
use vstd::string::StrSliceExecFns;
use vstd::string::StringExecFns;

use crate::db_entries::{
    CardDbEntry, ColDbEntry, DeckDbEntry, MediaEntry, ModelDbEntry, NoteDbEntry,
};
use crate::deck::{deck_entry_ok, Deck};
use crate::error::Error;
use crate::guid::checksum_spec;
use crate::model::{
    lemma_models_equal_sym, lemma_models_equal_trans, model_entry_ok, models_eq, models_equal,
    Model, ModelType,
};
use crate::note::{any_unit_separator, Note};

verus! {

/// The rows and entries of one package, ready for the embedding sinks.
#[derive(Debug, Clone)]
pub struct Payload {
    pub col: ColDbEntry,
    pub models: Vec<ModelDbEntry>,
    pub decks: Vec<DeckDbEntry>,
    pub notes: Vec<NoteDbEntry>,
    pub cards: Vec<CardDbEntry>,
    pub media: Vec<MediaEntry>,
}

/// The notes of one deck, each paired with the deck's id.
pub open spec fn note_pairs_of_deck(d: Deck) -> Seq<(i64, Note)> {
    d.notes@.map_values(|n: Note| (d.id, n))
}

/// The note pairs of the first `f` decks, in deck order.
pub open spec fn pairs_prefix(decks: Seq<Deck>, f: int) -> Seq<(i64, Note)>
    decreases f,
{
    if f <= 0 {
        Seq::empty()
    } else {
        pairs_prefix(decks, f - 1) + note_pairs_of_deck(decks[f - 1])
    }
}

/// Every note of every deck, in deck order, paired with its deck's id.
pub open spec fn deck_note_pairs(decks: Seq<Deck>) -> Seq<(i64, Note)> {
    pairs_prefix(decks, decks.len() as int)
}

/// Two decks of the package share an id.
pub open spec fn has_duplicate_deck_ids(decks: Seq<Deck>) -> bool {
    exists|a: int, b: int| 0 <= a < b < decks.len() && decks[a].id == decks[b].id
}

/// Some note's model has no templates.
pub open spec fn has_empty_template_model(pairs: Seq<(i64, Note)>) -> bool {
    exists|i: int| 0 <= i < pairs.len() && (#[trigger] pairs[i]).1.model.templates@.len() == 0
}

/// Two notes carry models that share an id but differ in content. One id
/// must mean one model: serializing would silently drop one of the two.
pub open spec fn has_conflicting_model_ids(pairs: Seq<(i64, Note)>) -> bool {
    exists|i: int, j: int|
        0 <= i < j < pairs.len() && (#[trigger] pairs[i]).1.model.id == (
        #[trigger] pairs[j]).1.model.id && !models_equal(pairs[i].1.model, pairs[j].1.model)
}

/// A model with this id already occurs among `occ`.
pub open spec fn occ_contains_id(occ: Seq<(i64, Model)>, id: i64) -> bool {
    exists|w: int| 0 <= w < occ.len() && (#[trigger] occ[w]).1.id == id
}

/// The first occurrence of every model used by the note pairs, in order,
/// paired with the deck id it first occurred under; identity is the model
/// id, so a model referenced many times is serialized exactly once.
pub open spec fn model_occurrences(pairs: Seq<(i64, Note)>) -> Seq<(i64, Model)>
    decreases pairs.len(),
{
    if pairs.len() == 0 {
        Seq::empty()
    } else {
        let pre = model_occurrences(pairs.drop_last());
        if occ_contains_id(pre, pairs.last().1.model.id) {
            pre
        } else {
            pre.push((pairs.last().0, pairs.last().1.model))
        }
    }
}

/// How many cards the note pairs expand into, altogether.
pub open spec fn total_cards(pairs: Seq<(i64, Note)>) -> nat
    decreases pairs.len(),
{
    if pairs.len() == 0 {
        0
    } else {
        total_cards(pairs.drop_last()) + pairs.last().1.spec_card_ords().len()
    }
}

/// How many cards the notes before pair `i` expand into.
pub open spec fn cards_before(pairs: Seq<(i64, Note)>, i: int) -> nat {
    total_cards(pairs.subrange(0, i))
}

/// `parts` joined by `sep`.
pub open spec fn join_with(parts: Seq<Seq<char>>, sep: Seq<char>) -> Seq<char>
    decreases parts.len(),
{
    if parts.len() == 0 {
        Seq::empty()
    } else if parts.len() == 1 {
        parts[0]
    } else {
        join_with(parts.drop_last(), sep) + sep + parts.last()
    }
}

/// The note's duplicate-detection checksum column: the checksum of the first
/// field value, or 0 for a note without fields.
pub open spec fn spec_csum(n: Note) -> int {
    if n.field_values@.len() == 0 {
        0
    } else {
        checksum_spec(n.field_values.deep_view()[0]) as int
    }
}

/// A note is fit for serialization: its field-value count matches its
/// model and no value holds the schema's unit separator (both
/// construction-time invariants), its model's sort field index points into
/// the fields, and the sizes fit the database's integers.
pub open spec fn spec_note_wf(n: Note) -> bool {
    &&& n.field_values@.len() == n.model.fields@.len()
    &&& !any_unit_separator(n.field_values.deep_view())
    &&& n.model.fields@.len() <= i64::MAX
    &&& n.model.templates@.len() <= i64::MAX
    &&& 0 <= n.model.sort_field_index < n.model.fields@.len()
}

/// What one `notes` row holds for the note pair it serializes.
pub open spec fn note_row_ok(row: NoteDbEntry, pair: (i64, Note), id: int, timestamp: int) -> bool {
    &&& row.id == id
    &&& row.guid@ == pair.1.spec_guid()
    &&& row.mid == pair.1.model.id
    &&& row.note_mod == timestamp
    &&& row.usn == -1
    &&& row.tags@ == join_with(pair.1.tags.deep_view(), " "@)
    &&& row.flds@ == join_with(pair.1.field_values.deep_view(), "\u{1f}"@)
    &&& row.sfld@ == pair.1.field_values.deep_view()[pair.1.model.sort_field_index as int]
    &&& row.csum == spec_csum(pair.1)
    &&& row.flags == 0
    &&& row.data@ == Seq::<char>::empty()
}

/// What one `cards` row holds: identity and linkage, and the "new card"
/// scheduling defaults.
pub open spec fn card_row_ok(
    row: CardDbEntry,
    pair: (i64, Note),
    nid: int,
    id: int,
    ord: int,
    timestamp: int,
) -> bool {
    &&& row.id == id
    &&& row.nid == nid
    &&& row.did == pair.0
    &&& row.ord == ord
    &&& row.card_mod == timestamp
    &&& row.usn == -1
    &&& row.ctype == 0
    &&& row.queue == 0
    &&& row.due == 0
    &&& row.ivl == 0
    &&& row.factor == 0
    &&& row.reps == 0
    &&& row.lapses == 0
    &&& row.left == 0
    &&& row.odue == 0
    &&& row.odid == 0
    &&& row.flags == 0
    &&& row.data@ == Seq::<char>::empty()
}

/// The index after the last `/` of `s`; 0 when `s` holds none.
pub open spec fn after_last_slash(s: Seq<char>) -> int
    decreases s.len(),
{
    if s.len() == 0 {
        0
    } else if s.last() == '/' {
        s.len() as int
    } else {
        after_last_slash(s.drop_last())
    }
}

/// The base name of a path: everything after its last `/`.
pub open spec fn base_name(s: Seq<char>) -> Seq<char> {
    s.subrange(after_last_slash(s), s.len() as int)
}

/// A prefix of the deck walk is a prefix of the full pair sequence.
proof fn lemma_prefix_mono(decks: Seq<Deck>, g: int)
    requires
        0 <= g <= decks.len(),
    ensures
        pairs_prefix(decks, g).len() <= deck_note_pairs(decks).len(),
        forall|w: int|
            0 <= w < pairs_prefix(decks, g).len() ==> #[trigger] deck_note_pairs(decks)[w]
                == pairs_prefix(decks, g)[w],
    decreases decks.len() - g,
{
    if g < decks.len() {
        lemma_prefix_mono(decks, g + 1);
        assert(pairs_prefix(decks, g + 1) == pairs_prefix(decks, g) + note_pairs_of_deck(
            decks[g],
        ));
    }
}

/// The pair standing at the walk position of note `j` of deck `f`.
proof fn lemma_pairs_at(decks: Seq<Deck>, f: int, j: int)
    requires
        0 <= f < decks.len(),
        0 <= j < decks[f].notes@.len(),
    ensures
        pairs_prefix(decks, f).len() + j < deck_note_pairs(decks).len(),
        deck_note_pairs(decks)[pairs_prefix(decks, f).len() + j] == (
            decks[f].id,
            decks[f].notes@[j],
        ),
{
    let l = pairs_prefix(decks, f).len() + j;
    assert(pairs_prefix(decks, f + 1) == pairs_prefix(decks, f) + note_pairs_of_deck(decks[f]));
    assert(note_pairs_of_deck(decks[f])[j] == (decks[f].id, decks[f].notes@[j]));
    assert(pairs_prefix(decks, f + 1)[l as int] == (decks[f].id, decks[f].notes@[j]));
    lemma_prefix_mono(decks, f + 1);
}

/// Appending one pair extends the card total by that note's card count.
proof fn lemma_total_cards_push(s: Seq<(i64, Note)>, x: (i64, Note))
    ensures
        total_cards(s.push(x)) == total_cards(s) + x.1.spec_card_ords().len(),
{
    assert(s.push(x).drop_last() =~= s);
    assert(s.push(x).last() == x);
}

/// Appending one pair extends the model occurrences by the pair's model
/// exactly when its id is new.
proof fn lemma_occ_push(s: Seq<(i64, Note)>, x: (i64, Note))
    ensures
        model_occurrences(s.push(x)) == (if occ_contains_id(model_occurrences(s), x.1.model.id) {
            model_occurrences(s)
        } else {
            model_occurrences(s).push((x.0, x.1.model))
        }),
{
    assert(s.push(x).drop_last() =~= s);
    assert(s.push(x).last() == x);
}

/// Walking further never shrinks the count of cards already emitted.
proof fn lemma_cards_before_mono(pairs: Seq<(i64, Note)>, i: int, l: int)
    requires
        0 <= i <= l <= pairs.len(),
    ensures
        cards_before(pairs, i) <= cards_before(pairs, l),
{
    assert(pairs.subrange(0, l).subrange(0, i) =~= pairs.subrange(0, i));
    lemma_total_cards_prefix(pairs.subrange(0, l), i);
}

/// A prefix of the pairs never expands to more cards than the whole.
proof fn lemma_total_cards_prefix(pairs: Seq<(i64, Note)>, l: int)
    requires
        0 <= l <= pairs.len(),
    ensures
        total_cards(pairs.subrange(0, l)) <= total_cards(pairs),
    decreases pairs.len() - l,
{
    if l == pairs.len() {
        assert(pairs.subrange(0, l) =~= pairs);
    } else {
        lemma_total_cards_prefix(pairs, l + 1);
        assert(pairs.subrange(0, l + 1) =~= pairs.subrange(0, l).push(pairs[l]));
        lemma_total_cards_push(pairs.subrange(0, l), pairs[l]);
    }
}

/// A package of one deck holding one note on a plain front/back model with
/// one field and one template expands to exactly one note pair, whose one
/// card carries ordinal 0. Together with `to_payload`'s contract this pins
/// the round trip: the payload holds exactly one `notes` row and one
/// `cards` row, the card's deck id is the deck's, its note id the note
/// row's, and the note row's model id the model's.
pub proof fn lemma_single_note_package(decks: Seq<Deck>)
    requires
        decks.len() == 1,
        decks[0].notes@.len() == 1,
        decks[0].notes@[0].model.model_type == ModelType::FrontBack,
        decks[0].notes@[0].model.fields@.len() == 1,
        decks[0].notes@[0].model.templates@.len() == 1,
    ensures
        deck_note_pairs(decks).len() == 1,
        deck_note_pairs(decks)[0] == (decks[0].id, decks[0].notes@[0]),
        total_cards(deck_note_pairs(decks)) == 1,
        deck_note_pairs(decks)[0].1.spec_card_ords() == seq![0int],
{
    let pairs = deck_note_pairs(decks);
    assert(pairs_prefix(decks, 1) == pairs_prefix(decks, 0) + note_pairs_of_deck(decks[0]));
    assert(note_pairs_of_deck(decks[0])[0] == (decks[0].id, decks[0].notes@[0]));
    assert(pairs.len() == 1);
    assert(pairs[0] == (decks[0].id, decks[0].notes@[0]));
    let note = decks[0].notes@[0];
    assert(note.spec_card_ords() =~= seq![0int]);
    assert(pairs.drop_last() =~= Seq::<(i64, Note)>::empty());
    assert(total_cards(pairs) == total_cards(pairs.drop_last()) + note.spec_card_ords().len());
}

/// `parts` of a vector joined by `sep`.
fn join_with_exec(parts: &Vec<String>, sep: &str) -> (r: String)
    ensures
        r@ == join_with(parts.deep_view(), sep@),
{
    let ghost dv = parts.deep_view();
    let mut r = String::new();
    let mut f: usize = 0;
    proof {
        assert(dv.subrange(0, 0) =~= Seq::<Seq<char>>::empty());
    }
    while f < parts.len()
        invariant
            f <= parts@.len(),
            dv == parts.deep_view(),
            dv.len() == parts@.len(),
            r@ == join_with(dv.subrange(0, f as int), sep@),
        decreases parts@.len() - f,
    {
        let ghost pre = r@;
        if f > 0 {
            r.append(sep);
        }
        r.append(parts[f].as_str());
        f = f + 1;
        proof {
            assert(dv[f - 1] == parts@[f - 1]@);
            let now = dv.subrange(0, f as int);
            assert(now.drop_last() =~= dv.subrange(0, f - 1));
            assert(now.last() == dv[f - 1]);
            if f == 1 {
                assert(r@ =~= dv[0]);
                assert(join_with(now, sep@) == now[0]);
            } else {
                assert(join_with(now, sep@) == join_with(now.drop_last(), sep@) + sep@
                    + now.last());
                assert(r@ =~= pre + sep@ + dv[f - 1]);
            }
        }
    }
    proof {
        assert(dv.subrange(0, dv.len() as int) =~= dv);
    }
    r
}

/// The base name of a path: everything after its last `/`.
fn base_name_exec(name: &str) -> (r: String)
    ensures
        r@ == base_name(name@),
{
    let cv = crate::cloze::chars_vec(name);
    let n = cv.len();
    let mut cut: usize = 0;
    let mut m: usize = 0;
    proof {
        assert(cv@.subrange(0, 0) =~= Seq::<char>::empty());
    }
    while m < n
        invariant
            m <= n,
            n == cv@.len(),
            cv@ == name@,
            cut <= m,
            cut == after_last_slash(cv@.subrange(0, m as int)),
        decreases n - m,
    {
        if cv[m] == '/' {
            cut = m + 1;
        }
        m = m + 1;
        proof {
            let now = cv@.subrange(0, m as int);
            assert(now.drop_last() =~= cv@.subrange(0, m - 1));
            assert(now.last() == cv@[m - 1]);
        }
    }
    proof {
        assert(cv@.subrange(0, n as int) =~= cv@);
    }
    let whole = name.unicode_len();
    name.substring_char(cut, whole).to_owned()
}

/// The model occurrences among the first `l` note pairs.
pub open spec fn occ_pre(pairs: Seq<(i64, Note)>, l: int) -> Seq<(i64, Model)> {
    model_occurrences(pairs.subrange(0, l))
}

fn vec_find_i64(v: &Vec<i64>, x: i64) -> (r: Option<usize>)
    ensures
        match r {
            Option::Some(w) => w < v@.len() && v@[w as int] == x,
            Option::None => !v@.contains(x),
        },
{
    let mut a: usize = 0;
    while a < v.len()
        invariant
            a <= v@.len(),
            forall|m: int| 0 <= m < a ==> v@[m] != x,
        decreases v@.len() - a,
    {
        if v[a] == x {
            return Some(a);
        }
        a = a + 1;
    }
    None
}

fn vec_contains_i64(v: &Vec<i64>, x: i64) -> (b: bool)
    ensures
        b == v@.contains(x),
{
    let mut a: usize = 0;
    while a < v.len()
        invariant
            a <= v@.len(),
            forall|m: int| 0 <= m < a ==> v@[m] != x,
        decreases v@.len() - a,
    {
        if v[a] == x {
            return true;
        }
        a = a + 1;
    }
    false
}

/// The transient aggregate of one package build: the decks and the media
/// file paths; discarded after the payload is produced.
#[derive(Debug, Clone)]
pub struct Package {
    pub decks: Vec<Deck>,
    pub media_files: Vec<String>,
}

impl Package {
    /// A package over the given decks and media file paths.
    pub fn new(decks: Vec<Deck>, media_files: Vec<&str>) -> (r: Result<Package, Error>)
        ensures
            r is Ok,
            r matches Ok(p) ==> {
                &&& p.decks == decks
                &&& p.media_files.deep_view() == media_files.deep_view()
            },
    {
        let mut media: Vec<String> = Vec::new();
        let mut j: usize = 0;
        while j < media_files.len()
            invariant
                j <= media_files@.len(),
                media@.len() == j,
                forall|w: int| 0 <= w < j ==> (#[trigger] media@[w])@ == media_files@[w]@,
            decreases media_files@.len() - j,
        {
            media.push(media_files[j].to_owned());
            j = j + 1;
        }
        proof {
            assert(media.deep_view() =~~= media_files.deep_view());
        }
        Ok(Package { decks, media_files: media })
    }

    /// Builds the package's payload: the `col` row, one model entry per
    /// distinct model id (identity is the id; the first occurrence is
    /// serialized, exactly once), one deck row per deck, one `notes` row per
    /// note with its GUID and checksum, one `cards` row per card with
    /// new-card defaults, and the media manifest with sequential indices.
    /// Fails with `DuplicateId` exactly when two decks share an id or two
    /// models with differing content do, else with `EmptyTemplateSet`
    /// exactly when a used model has no templates; on failure nothing is
    /// emitted. Every row is a pure function of the package and
    /// `timestamp`, which stamps the rows and seeds the note and card ids.
    pub fn to_payload(&self, timestamp: i64) -> (r: Result<Payload, Error>)
        requires
            0 <= timestamp,
            forall|f: int, j: int|
                0 <= f < self.decks@.len() && 0 <= j < self.decks@[f].notes@.len()
                    ==> spec_note_wf(#[trigger] self.decks@[f].notes@[j]),
            timestamp + deck_note_pairs(self.decks@).len() + total_cards(
                deck_note_pairs(self.decks@),
            ) <= i64::MAX,
        ensures
            r is Err <==> (has_duplicate_deck_ids(self.decks@) || has_conflicting_model_ids(
                deck_note_pairs(self.decks@),
            ) || has_empty_template_model(deck_note_pairs(self.decks@))),
            r matches Err(e) ==> {
                &&& (e == Error::DuplicateId <==> (has_duplicate_deck_ids(self.decks@)
                    || has_conflicting_model_ids(deck_note_pairs(self.decks@))))
                &&& (e == Error::DuplicateId || e == Error::EmptyTemplateSet)
            },
            r matches Ok(p) ==> ({
                let pairs = deck_note_pairs(self.decks@);
                let occ = model_occurrences(pairs);
                &&& p.col == (ColDbEntry {
                    id: 1,
                    crt: timestamp,
                    col_db_entry_mod: timestamp,
                    scm: timestamp,
                    ver: 11,
                    dty: 0,
                    usn: 0,
                    ls: 0,
                })
                &&& p.models@.len() == occ.len()
                &&& forall|w: int|
                    0 <= w < occ.len() ==> model_entry_ok(
                        #[trigger] p.models@[w],
                        occ[w].1,
                        timestamp as int,
                        occ[w].0 as int,
                    )
                &&& p.decks@.len() == self.decks@.len()
                &&& forall|f: int|
                    0 <= f < self.decks@.len() ==> deck_entry_ok(
                        #[trigger] p.decks@[f],
                        self.decks@[f],
                        timestamp as int,
                    )
                &&& p.notes@.len() == pairs.len()
                &&& forall|i: int|
                    0 <= i < pairs.len() ==> note_row_ok(
                        #[trigger] p.notes@[i],
                        pairs[i],
                        timestamp + i,
                        timestamp as int,
                    )
                &&& p.cards@.len() == total_cards(pairs)
                &&& forall|i: int, w: int|
                    #![trigger pairs[i].1.spec_card_ords()[w]]
                    0 <= i < pairs.len() && 0 <= w < pairs[i].1.spec_card_ords().len()
                        ==> card_row_ok(
                        p.cards@[cards_before(pairs, i) + w],
                        pairs[i],
                        timestamp + i,
                        timestamp + pairs.len() + cards_before(pairs, i) + w,
                        pairs[i].1.spec_card_ords()[w],
                        timestamp as int,
                    )
                &&& p.media@.len() == self.media_files@.len()
                &&& forall|m: int|
                    0 <= m < self.media_files@.len() ==> (#[trigger] p.media@[m]).index == m
                        && p.media@[m].name@ == base_name(self.media_files@[m]@)
            }),
    {
        let ghost decks_view = self.decks@;
        let ghost pairs = deck_note_pairs(decks_view);
        let nd = self.decks.len();

        // No two decks may share an id.
        let mut a: usize = 0;
        while a < nd
            invariant
                a <= nd,
                nd == decks_view.len(),
                decks_view == self.decks@,
                forall|x: int, y: int|
                    #![trigger decks_view[x].id, decks_view[y].id]
                    0 <= x < y < nd && x < a ==> decks_view[x].id != decks_view[y].id,
            decreases nd - a,
        {
            let mut b: usize = a + 1;
            while b < nd
                invariant
                    a < nd,
                    a < b <= nd,
                    nd == decks_view.len(),
                    decks_view == self.decks@,
                    forall|y: int|
                        a < y < b ==> decks_view[a as int].id != (#[trigger] decks_view[y]).id,
                decreases nd - b,
            {
                if self.decks[a].id == self.decks[b].id {
                    return Err(Error::DuplicateId);
                }
                b = b + 1;
            }
            a = a + 1;
        }
        proof {
            assert(!has_duplicate_deck_ids(decks_view));
        }

        // One id must mean one model: an id reused by a model with other
        // content is a duplicate id. The first occurrence of each id is the
        // representative every later occurrence is compared against.
        let mut seen_ids: Vec<i64> = Vec::new();
        let mut first_deck: Vec<usize> = Vec::new();
        let mut first_note: Vec<usize> = Vec::new();
        let mut f: usize = 0;
        while f < nd
            invariant
                f <= nd,
                nd == decks_view.len(),
                decks_view == self.decks@,
                pairs == deck_note_pairs(decks_view),
                seen_ids@.len() == first_deck@.len(),
                seen_ids@.len() == first_note@.len(),
                forall|w: int|
                    0 <= w < seen_ids@.len() ==> {
                        &&& (#[trigger] first_deck@[w]) < decks_view.len()
                        &&& first_note@[w] < decks_view[first_deck@[w] as int].notes@.len()
                        &&& decks_view[first_deck@[w] as int].notes@[first_note@[w] as int].model.id
                            == seen_ids@[w]
                        &&& pairs_prefix(decks_view, first_deck@[w] as int).len() + first_note@[w]
                            < pairs_prefix(decks_view, f as int).len()
                    },
                forall|w1: int, w2: int|
                    #![trigger seen_ids@[w1], seen_ids@[w2]]
                    0 <= w1 < w2 < seen_ids@.len() ==> seen_ids@[w1] != seen_ids@[w2],
                forall|l: int|
                    0 <= l < pairs_prefix(decks_view, f as int).len() ==> seen_ids@.contains(
                        (#[trigger] pairs[l]).1.model.id,
                    ),
                forall|l: int, w: int|
                    #![trigger pairs[l], seen_ids@[w]]
                    0 <= l < pairs_prefix(decks_view, f as int).len() && 0 <= w < seen_ids@.len()
                        && pairs[l].1.model.id == seen_ids@[w] ==> models_equal(
                        pairs[l].1.model,
                        decks_view[first_deck@[w] as int].notes@[first_note@[w] as int].model,
                    ),
            decreases nd - f,
        {
            let deck = &self.decks[f];
            let nn = deck.notes.len();
            let mut j: usize = 0;
            while j < nn
                invariant
                    j <= nn,
                    f < nd,
                    nn == decks_view[f as int].notes@.len(),
                    nd == decks_view.len(),
                    decks_view == self.decks@,
                    pairs == deck_note_pairs(decks_view),
                    deck == &self.decks@[f as int],
                    seen_ids@.len() == first_deck@.len(),
                    seen_ids@.len() == first_note@.len(),
                    forall|w: int|
                        0 <= w < seen_ids@.len() ==> {
                            &&& (#[trigger] first_deck@[w]) < decks_view.len()
                            &&& first_note@[w] < decks_view[first_deck@[w] as int].notes@.len()
                            &&& decks_view[first_deck@[w] as int].notes@[first_note@[w] as int].model.id
                                == seen_ids@[w]
                            &&& pairs_prefix(decks_view, first_deck@[w] as int).len()
                                + first_note@[w] < pairs_prefix(decks_view, f as int).len() + j
                        },
                    forall|w1: int, w2: int|
                        #![trigger seen_ids@[w1], seen_ids@[w2]]
                        0 <= w1 < w2 < seen_ids@.len() ==> seen_ids@[w1] != seen_ids@[w2],
                    forall|l: int|
                        0 <= l < pairs_prefix(decks_view, f as int).len() + j
                            ==> seen_ids@.contains((#[trigger] pairs[l]).1.model.id),
                    forall|l: int, w: int|
                        #![trigger pairs[l], seen_ids@[w]]
                        0 <= l < pairs_prefix(decks_view, f as int).len() + j && 0 <= w
                            < seen_ids@.len() && pairs[l].1.model.id == seen_ids@[w]
                            ==> models_equal(
                            pairs[l].1.model,
                            decks_view[first_deck@[w] as int].notes@[first_note@[w] as int].model,
                        ),
                decreases nn - j,
            {
                let ghost l = pairs_prefix(decks_view, f as int).len() as int + j;
                proof {
                    lemma_pairs_at(decks_view, f as int, j as int);
                }
                let mid = deck.notes[j].model.id;
                match vec_find_i64(&seen_ids, mid) {
                    Option::Some(w) => {
                        let fd = first_deck[w];
                        let fnote = first_note[w];
                        let same = models_eq(
                            &deck.notes[j].model,
                            &self.decks[fd].notes[fnote].model,
                        );
                        if !same {
                            proof {
                                lemma_pairs_at(decks_view, fd as int, fnote as int);
                                let l0 = pairs_prefix(decks_view, fd as int).len() as int + fnote;
                                assert(pairs[l0].1.model == decks_view[fd as int].notes@[
                                    fnote as int
                                ].model);
                                if models_equal(pairs[l0].1.model, pairs[l].1.model) {
                                    lemma_models_equal_sym(pairs[l0].1.model, pairs[l].1.model);
                                    assert(false);
                                }
                                assert(0 <= l0 < l < pairs.len());
                                assert(pairs[l0].1.model.id == pairs[l].1.model.id);
                                assert(has_conflicting_model_ids(pairs));
                            }
                            return Err(Error::DuplicateId);
                        }
                        proof {
                            assert(seen_ids@.contains(pairs[l].1.model.id)) by {
                                assert(seen_ids@[w as int] == mid);
                            }
                            assert forall|w2: int|
                                0 <= w2 < seen_ids@.len() && pairs[l].1.model.id == seen_ids@[w2] implies models_equal(
                                pairs[l].1.model,
                                decks_view[first_deck@[w2] as int].notes@[
                                    first_note@[w2] as int
                                ].model,
                            ) by {
                                if w2 != w {
                                    assert(seen_ids@[w as int] == seen_ids@[w2]);
                                    assert(false);
                                }
                            }
                        }
                    },
                    Option::None => {
                        let ghost old_seen = seen_ids@;
                        seen_ids.push(mid);
                        first_deck.push(f);
                        first_note.push(j);
                        proof {
                            let w_new = seen_ids@.len() - 1;
                            assert(seen_ids@[w_new] == mid);
                            assert forall|l2: int| 0 <= l2 < l + 1 implies seen_ids@.contains(
                                (#[trigger] pairs[l2]).1.model.id,
                            ) by {
                                if l2 == l {
                                    assert(seen_ids@[w_new] == pairs[l].1.model.id);
                                } else {
                                    assert(old_seen.contains(pairs[l2].1.model.id));
                                    let wx = choose|wx: int|
                                        0 <= wx < old_seen.len() && old_seen[wx] == pairs[
                                            l2
                                        ].1.model.id;
                                    assert(seen_ids@[wx] == pairs[l2].1.model.id);
                                }
                            }
                            assert forall|w1: int, w2: int|
                                #![trigger seen_ids@[w1], seen_ids@[w2]]
                                0 <= w1 < w2 < seen_ids@.len() implies seen_ids@[w1]
                                != seen_ids@[w2] by {
                                if w2 == w_new {
                                    assert(seen_ids@[w1] == old_seen[w1]);
                                    if old_seen[w1] == mid {
                                        assert(old_seen.contains(mid));
                                        assert(false);
                                    }
                                }
                            }
                            assert forall|l2: int, w: int|
                                #![trigger pairs[l2], seen_ids@[w]]
                                0 <= l2 < l + 1 && 0 <= w < seen_ids@.len() && pairs[l2].1.model.id
                                    == seen_ids@[w] implies models_equal(
                                pairs[l2].1.model,
                                decks_view[first_deck@[w] as int].notes@[
                                    first_note@[w] as int
                                ].model,
                            ) by {
                                if l2 == l && w == w_new {
                                    assert(pairs[l].1.model == decks_view[f as int].notes@[
                                        j as int
                                    ].model);
                                } else if l2 == l {
                                    assert(old_seen[w] == seen_ids@[w]);
                                    assert(old_seen.contains(mid)) by {
                                        assert(old_seen[w] == mid);
                                    }
                                    assert(false);
                                } else if w == w_new {
                                    assert(old_seen.contains(pairs[l2].1.model.id));
                                    let wx = choose|wx: int|
                                        0 <= wx < old_seen.len() && old_seen[wx] == pairs[
                                            l2
                                        ].1.model.id;
                                    assert(old_seen[wx] == mid);
                                    assert(old_seen.contains(mid));
                                    assert(false);
                                }
                            }
                        }
                    },
                }
                j = j + 1;
            }
            f = f + 1;
            proof {
                assert(pairs_prefix(decks_view, f as int) == pairs_prefix(decks_view, f - 1)
                    + note_pairs_of_deck(decks_view[f - 1]));
            }
        }
        proof {
            assert forall|i: int, j2: int|
                0 <= i < j2 < pairs.len() && (#[trigger] pairs[i]).1.model.id == (
            #[trigger] pairs[j2]).1.model.id implies models_equal(
                pairs[i].1.model,
                pairs[j2].1.model,
            ) by {
                assert(seen_ids@.contains(pairs[i].1.model.id));
                let wi = choose|w: int|
                    0 <= w < seen_ids@.len() && seen_ids@[w] == pairs[i].1.model.id;
                assert(seen_ids@.contains(pairs[j2].1.model.id));
                let wj = choose|w: int|
                    0 <= w < seen_ids@.len() && seen_ids@[w] == pairs[j2].1.model.id;
                if wi != wj {
                    assert(seen_ids@[wi] == seen_ids@[wj]);
                    assert(false);
                }
                let rep = decks_view[first_deck@[wi] as int].notes@[first_note@[wi] as int].model;
                assert(models_equal(pairs[i].1.model, rep));
                assert(models_equal(pairs[j2].1.model, rep));
                lemma_models_equal_trans(pairs[i].1.model, pairs[j2].1.model, rep);
            }
            assert(!has_conflicting_model_ids(pairs));
        }

        // Every used model must have at least one template; count the notes.
        let mut total_notes: i64 = 0;
        let mut f: usize = 0;
        while f < nd
            invariant
                f <= nd,
                nd == decks_view.len(),
                decks_view == self.decks@,
                pairs == deck_note_pairs(decks_view),
                !has_duplicate_deck_ids(decks_view),
                !has_conflicting_model_ids(pairs),
                0 <= timestamp,
                timestamp + pairs.len() + total_cards(pairs) <= i64::MAX,
                total_notes == pairs_prefix(decks_view, f as int).len(),
                forall|l: int|
                    0 <= l < pairs_prefix(decks_view, f as int).len() ==> (
                    #[trigger] pairs[l]).1.model.templates@.len() >= 1,
            decreases nd - f,
        {
            let deck = &self.decks[f];
            let nn = deck.notes.len();
            let mut j: usize = 0;
            while j < nn
                invariant
                    j <= nn,
                    f < nd,
                    nn == decks_view[f as int].notes@.len(),
                    nd == decks_view.len(),
                    decks_view == self.decks@,
                    pairs == deck_note_pairs(decks_view),
                    deck == &self.decks@[f as int],
                    !has_duplicate_deck_ids(decks_view),
                    !has_conflicting_model_ids(pairs),
                    0 <= timestamp,
                    timestamp + pairs.len() + total_cards(pairs) <= i64::MAX,
                    total_notes == pairs_prefix(decks_view, f as int).len() + j,
                    forall|l: int|
                        0 <= l < pairs_prefix(decks_view, f as int).len() + j ==> (
                        #[trigger] pairs[l]).1.model.templates@.len() >= 1,
                decreases nn - j,
            {
                let ghost l = pairs_prefix(decks_view, f as int).len() as int + j;
                proof {
                    lemma_pairs_at(decks_view, f as int, j as int);
                }
                if deck.notes[j].model.templates.len() == 0 {
                    proof {
                        assert(pairs[l].1.model.templates@.len() == 0);
                        assert(has_empty_template_model(pairs));
                    }
                    return Err(Error::EmptyTemplateSet);
                }
                total_notes = total_notes + 1;
                j = j + 1;
            }
            f = f + 1;
            proof {
                assert(pairs_prefix(decks_view, f as int) == pairs_prefix(decks_view, f - 1)
                    + note_pairs_of_deck(decks_view[f - 1]));
            }
        }
        proof {
            assert(!has_empty_template_model(pairs));
        }

        // One model entry per distinct model id, first occurrence first.
        let mut model_rows: Vec<ModelDbEntry> = Vec::new();
        let mut seen: Vec<i64> = Vec::new();
        let mut f: usize = 0;
        while f < nd
            invariant
                f <= nd,
                nd == decks_view.len(),
                decks_view == self.decks@,
                pairs == deck_note_pairs(decks_view),
                forall|l: int|
                    0 <= l < pairs.len() ==> (#[trigger] pairs[l]).1.model.templates@.len() >= 1,
                forall|x: int, y: int|
                    0 <= x < self.decks@.len() && 0 <= y < self.decks@[x].notes@.len()
                        ==> spec_note_wf(#[trigger] self.decks@[x].notes@[y]),
                seen@.len() == occ_pre(pairs, pairs_prefix(decks_view, f as int).len() as int).len(),
                forall|w: int|
                    0 <= w < seen@.len() ==> seen@[w] == occ_pre(
                        pairs,
                        pairs_prefix(decks_view, f as int).len() as int,
                    )[w].1.id,
                model_rows@.len() == seen@.len(),
                forall|w: int|
                    0 <= w < model_rows@.len() ==> model_entry_ok(
                        #[trigger] model_rows@[w],
                        occ_pre(pairs, pairs_prefix(decks_view, f as int).len() as int)[w].1,
                        timestamp as int,
                        occ_pre(pairs, pairs_prefix(decks_view, f as int).len() as int)[w].0 as int,
                    ),
            decreases nd - f,
        {
            let deck = &self.decks[f];
            let nn = deck.notes.len();
            let mut j: usize = 0;
            while j < nn
                invariant
                    j <= nn,
                    f < nd,
                    nn == decks_view[f as int].notes@.len(),
                    nd == decks_view.len(),
                    decks_view == self.decks@,
                    pairs == deck_note_pairs(decks_view),
                    deck == &self.decks@[f as int],
                    forall|l: int|
                        0 <= l < pairs.len() ==> (
                        #[trigger] pairs[l]).1.model.templates@.len() >= 1,
                    forall|x: int, y: int|
                        0 <= x < self.decks@.len() && 0 <= y < self.decks@[x].notes@.len()
                            ==> spec_note_wf(#[trigger] self.decks@[x].notes@[y]),
                    seen@.len() == occ_pre(
                        pairs,
                        pairs_prefix(decks_view, f as int).len() + j,
                    ).len(),
                    forall|w: int|
                        0 <= w < seen@.len() ==> seen@[w] == occ_pre(
                            pairs,
                            pairs_prefix(decks_view, f as int).len() + j,
                        )[w].1.id,
                    model_rows@.len() == seen@.len(),
                    forall|w: int|
                        0 <= w < model_rows@.len() ==> model_entry_ok(
                            #[trigger] model_rows@[w],
                            occ_pre(pairs, pairs_prefix(decks_view, f as int).len() + j)[w].1,
                            timestamp as int,
                            occ_pre(pairs, pairs_prefix(decks_view, f as int).len() + j)[w].0
                                as int,
                        ),
                decreases nn - j,
            {
                let ghost l = pairs_prefix(decks_view, f as int).len() as int + j;
                proof {
                    lemma_pairs_at(decks_view, f as int, j as int);
                    assert(pairs.subrange(0, l + 1) =~= pairs.subrange(0, l).push(pairs[l]));
                    lemma_occ_push(pairs.subrange(0, l), pairs[l]);
                }
                let mid = deck.notes[j].model.id;
                let present = vec_contains_i64(&seen, mid);
                proof {
                    let occ_now = occ_pre(pairs, l);
                    if present {
                        let w = choose|w: int| 0 <= w < seen@.len() && seen@[w] == mid;
                        assert(occ_now[w].1.id == mid);
                        assert(occ_contains_id(occ_now, mid));
                    } else {
                        if occ_contains_id(occ_now, mid) {
                            let w = choose|w: int|
                                0 <= w < occ_now.len() && (#[trigger] occ_now[w]).1.id == mid;
                            assert(seen@[w] == mid);
                            assert(seen@.contains(seen@[w]));
                        }
                    }
                }
                if !present {
                    match deck.notes[j].model.to_model_db_entry(timestamp, deck.id) {
                        Ok(entry) => {
                            model_rows.push(entry);
                            seen.push(mid);
                        },
                        Err(e) => {
                            proof {
                                assert(pairs[l].1.model.templates@.len() >= 1);
                                assert(false);
                            }
                            return Err(e);
                        },
                    }
                }
                j = j + 1;
            }
            f = f + 1;
            proof {
                assert(pairs_prefix(decks_view, f as int) == pairs_prefix(decks_view, f - 1)
                    + note_pairs_of_deck(decks_view[f - 1]));
            }
        }
        proof {
            assert(pairs.subrange(0, pairs.len() as int) =~= pairs);
        }

        // One row per deck.
        let mut deck_rows: Vec<DeckDbEntry> = Vec::new();
        let mut f: usize = 0;
        while f < nd
            invariant
                f <= nd,
                nd == decks_view.len(),
                decks_view == self.decks@,
                deck_rows@.len() == f,
                forall|w: int|
                    0 <= w < f ==> deck_entry_ok(
                        #[trigger] deck_rows@[w],
                        decks_view[w],
                        timestamp as int,
                    ),
            decreases nd - f,
        {
            deck_rows.push(self.decks[f].to_deck_db_entry(timestamp));
            f = f + 1;
        }

        // One notes row per note, one cards row per card, ids seeded from
        // the timestamp: notes first, then cards.
        let mut note_rows: Vec<NoteDbEntry> = Vec::new();
        let mut card_rows: Vec<CardDbEntry> = Vec::new();
        let mut f: usize = 0;
        while f < nd
            invariant
                f <= nd,
                nd == decks_view.len(),
                decks_view == self.decks@,
                pairs == deck_note_pairs(decks_view),
                0 <= timestamp,
                timestamp + pairs.len() + total_cards(pairs) <= i64::MAX,
                total_notes == pairs.len(),
                forall|x: int, y: int|
                    0 <= x < self.decks@.len() && 0 <= y < self.decks@[x].notes@.len()
                        ==> spec_note_wf(#[trigger] self.decks@[x].notes@[y]),
                note_rows@.len() == pairs_prefix(decks_view, f as int).len(),
                forall|i: int|
                    0 <= i < note_rows@.len() ==> note_row_ok(
                        #[trigger] note_rows@[i],
                        pairs[i],
                        timestamp + i,
                        timestamp as int,
                    ),
                card_rows@.len() == cards_before(pairs, note_rows@.len() as int),
                forall|i: int, w: int|
                    #![trigger pairs[i].1.spec_card_ords()[w]]
                    0 <= i < note_rows@.len() && 0 <= w < pairs[i].1.spec_card_ords().len()
                        ==> card_row_ok(
                        card_rows@[cards_before(pairs, i) + w],
                        pairs[i],
                        timestamp + i,
                        timestamp + pairs.len() + cards_before(pairs, i) + w,
                        pairs[i].1.spec_card_ords()[w],
                        timestamp as int,
                    ),
            decreases nd - f,
        {
            let deck = &self.decks[f];
            let nn = deck.notes.len();
            let mut j: usize = 0;
            while j < nn
                invariant
                    j <= nn,
                    f < nd,
                    nn == decks_view[f as int].notes@.len(),
                    nd == decks_view.len(),
                    decks_view == self.decks@,
                    pairs == deck_note_pairs(decks_view),
                    deck == &self.decks@[f as int],
                    0 <= timestamp,
                    timestamp + pairs.len() + total_cards(pairs) <= i64::MAX,
                    total_notes == pairs.len(),
                    forall|x: int, y: int|
                        0 <= x < self.decks@.len() && 0 <= y < self.decks@[x].notes@.len()
                            ==> spec_note_wf(#[trigger] self.decks@[x].notes@[y]),
                    note_rows@.len() == pairs_prefix(decks_view, f as int).len() + j,
                    forall|i: int|
                        0 <= i < note_rows@.len() ==> note_row_ok(
                            #[trigger] note_rows@[i],
                            pairs[i],
                            timestamp + i,
                            timestamp as int,
                        ),
                    card_rows@.len() == cards_before(pairs, note_rows@.len() as int),
                    forall|i: int, w: int|
                        #![trigger pairs[i].1.spec_card_ords()[w]]
                        0 <= i < note_rows@.len() && 0 <= w < pairs[i].1.spec_card_ords().len()
                            ==> card_row_ok(
                            card_rows@[cards_before(pairs, i) + w],
                            pairs[i],
                            timestamp + i,
                            timestamp + pairs.len() + cards_before(pairs, i) + w,
                            pairs[i].1.spec_card_ords()[w],
                            timestamp as int,
                        ),
                decreases nn - j,
            {
                let ghost l = pairs_prefix(decks_view, f as int).len() as int + j;
                proof {
                    lemma_pairs_at(decks_view, f as int, j as int);
                    assert(pairs.subrange(0, l + 1) =~= pairs.subrange(0, l).push(pairs[l]));
                    lemma_total_cards_push(pairs.subrange(0, l), pairs[l]);
                    lemma_total_cards_prefix(pairs, l + 1);
                }
                let note = &deck.notes[j];
                let nid = timestamp + (note_rows.len() as i64);
                let guid = note.guid();
                let flds = join_with_exec(&note.field_values, "\u{1f}");
                let tags = join_with_exec(&note.tags, " ");
                let sidx = note.model.sort_field_index as usize;
                let sfld = note.field_values[sidx].clone();
                let csum: i64 = if note.field_values.len() == 0 {
                    0
                } else {
                    crate::guid::field_checksum(note.field_values[0].as_str()) as i64
                };
                note_rows.push(
                    NoteDbEntry {
                        id: nid,
                        guid,
                        mid: note.model.id,
                        note_mod: timestamp,
                        usn: -1,
                        tags,
                        flds,
                        sfld,
                        csum,
                        flags: 0,
                        data: String::new(),
                    },
                );
                proof {
                    assert(note_rows@.last().sfld@ == pairs[l].1.field_values.deep_view()[
                        pairs[l].1.model.sort_field_index as int
                    ]);
                    assert(note_row_ok(note_rows@[l], pairs[l], timestamp + l, timestamp as int));
                }
                let cs = note.cards();
                let ghost ords = pairs[l].1.spec_card_ords();
                proof {
                    assert(cs@.map_values(|c: crate::note::Card| c.ord as int) == ords);
                }
                let mut w: usize = 0;
                while w < cs.len()
                    invariant
                        w <= cs@.len(),
                        cs@.map_values(|c: crate::note::Card| c.ord as int) == ords,
                        ords == pairs[l].1.spec_card_ords(),
                        0 <= l < pairs.len(),
                        pairs == deck_note_pairs(decks_view),
                        nid == timestamp + l,
                        pairs[l].0 == deck.id,
                        0 <= timestamp,
                        timestamp + pairs.len() + total_cards(pairs) <= i64::MAX,
                        total_notes == pairs.len(),
                        cards_before(pairs, l + 1) == cards_before(pairs, l) + ords.len(),
                        cards_before(pairs, l + 1) <= total_cards(pairs),
                        card_rows@.len() == cards_before(pairs, l) + w,
                        forall|i: int, u: int|
                            #![trigger pairs[i].1.spec_card_ords()[u]]
                            0 <= i < l && 0 <= u < pairs[i].1.spec_card_ords().len()
                                ==> card_row_ok(
                                card_rows@[cards_before(pairs, i) + u],
                                pairs[i],
                                timestamp + i,
                                timestamp + pairs.len() + cards_before(pairs, i) + u,
                                pairs[i].1.spec_card_ords()[u],
                                timestamp as int,
                            ),
                        forall|u: int|
                            0 <= u < w ==> card_row_ok(
                                #[trigger] card_rows@[cards_before(pairs, l) + u],
                                pairs[l],
                                timestamp + l,
                                timestamp + pairs.len() + cards_before(pairs, l) + u,
                                pairs[l].1.spec_card_ords()[u],
                                timestamp as int,
                            ),
                    decreases cs@.len() - w,
                {
                    let cid = timestamp + total_notes + (card_rows.len() as i64);
                    let ord = cs[w].ord;
                    let ghost old_rows = card_rows@;
                    proof {
                        assert(cs@.map_values(|c: crate::note::Card| c.ord as int)[w as int]
                            == ords[w as int]);
                    }
                    card_rows.push(
                        CardDbEntry {
                            id: cid,
                            nid,
                            did: deck.id,
                            ord,
                            card_mod: timestamp,
                            usn: -1,
                            ctype: 0,
                            queue: 0,
                            due: 0,
                            ivl: 0,
                            factor: 0,
                            reps: 0,
                            lapses: 0,
                            left: 0,
                            odue: 0,
                            odid: 0,
                            flags: 0,
                            data: String::new(),
                        },
                    );
                    proof {
                        assert forall|i: int, u: int|
                            #![trigger pairs[i].1.spec_card_ords()[u]]
                            0 <= i < l && 0 <= u < pairs[i].1.spec_card_ords().len() implies
                            card_row_ok(
                            card_rows@[cards_before(pairs, i) + u],
                            pairs[i],
                            timestamp + i,
                            timestamp + pairs.len() + cards_before(pairs, i) + u,
                            pairs[i].1.spec_card_ords()[u],
                            timestamp as int,
                        ) by {
                            assert(pairs.subrange(0, i + 1) =~= pairs.subrange(0, i).push(
                                pairs[i],
                            ));
                            lemma_total_cards_push(pairs.subrange(0, i), pairs[i]);
                            lemma_cards_before_mono(pairs, i + 1, l);
                            assert(card_rows@[cards_before(pairs, i) + u] == old_rows[
                                cards_before(pairs, i) + u
                            ]);
                        }
                    }
                    w = w + 1;
                }
                j = j + 1;
            }
            f = f + 1;
            proof {
                assert(pairs_prefix(decks_view, f as int) == pairs_prefix(decks_view, f - 1)
                    + note_pairs_of_deck(decks_view[f - 1]));
            }
        }
        proof {
            assert(note_rows@.len() == pairs.len());
            assert(pairs.subrange(0, pairs.len() as int) =~= pairs);
            assert(card_rows@.len() == total_cards(pairs));
        }

        // The media manifest: sequential indices, original base names.
        let mut media_rows: Vec<MediaEntry> = Vec::new();
        let mut m: usize = 0;
        while m < self.media_files.len()
            invariant
                m <= self.media_files@.len(),
                media_rows@.len() == m,
                forall|w: int|
                    0 <= w < m ==> (#[trigger] media_rows@[w]).index == w
                        && media_rows@[w].name@ == base_name(self.media_files@[w]@),
            decreases self.media_files@.len() - m,
        {
            media_rows.push(MediaEntry { index: m, name: base_name_exec(self.media_files[m].as_str()) });
            m = m + 1;
        }

        Ok(
            Payload {
                col: ColDbEntry {
                    id: 1,
                    crt: timestamp,
                    col_db_entry_mod: timestamp,
                    scm: timestamp,
                    ver: 11,
                    dty: 0,
                    usn: 0,
                    ls: 0,
                },
                models: model_rows,
                decks: deck_rows,
                notes: note_rows,
                cards: card_rows,
                media: media_rows,
            },
        )
    }
}

} // verus!
