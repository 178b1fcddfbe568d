//! Values in the shape of JSON, and what is left of one when all that is
//! empty has been taken out.

use vstd::prelude::*;

verus! {

/// A value in the shape of JSON.  A number is held as its text.
pub enum JsonValue {
    Null,
    Bool(bool),
    Number(String),
    Text(String),
    Array(Vec<JsonValue>),
    Object(Vec<(String, JsonValue)>),
}

/// The content of a [`JsonValue`] as a mathematical value.
pub enum JsonModel {
    Null,
    Bool(bool),
    Number(Seq<char>),
    Text(Seq<char>),
    Array(Seq<JsonModel>),
    Object(Seq<(Seq<char>, JsonModel)>),
}

/// The items of an array, or none for any other value.
pub open spec fn items_of(v: JsonValue) -> Seq<JsonValue> {
    match v {
        JsonValue::Array(xs) => xs@,
        _ => Seq::empty(),
    }
}

/// The entries of an object, or none for any other value.
pub open spec fn entries_of(v: JsonValue) -> Seq<(String, JsonValue)> {
    match v {
        JsonValue::Object(m) => m@,
        _ => Seq::empty(),
    }
}

/// The content of a value.
pub open spec fn model_of(v: JsonValue) -> JsonModel
    decreases v, 1nat, 0nat,
{
    match v {
        JsonValue::Null => JsonModel::Null,
        JsonValue::Bool(b) => JsonModel::Bool(b),
        JsonValue::Number(t) => JsonModel::Number(t@),
        JsonValue::Text(s) => JsonModel::Text(s@),
        JsonValue::Array(xs) => JsonModel::Array(item_models(v, 0)),
        JsonValue::Object(m) => JsonModel::Object(entry_models(v, 0)),
    }
}

/// The contents of the items of an array from place `i` on.
pub open spec fn item_models(parent: JsonValue, i: nat) -> Seq<JsonModel>
    decreases parent, 0nat, items_of(parent).len() - i,
{
    match parent {
        JsonValue::Array(xs) => if i >= xs@.len() {
            Seq::empty()
        } else {
            seq![model_of(xs@[i as int])] + item_models(parent, i + 1)
        },
        _ => Seq::empty(),
    }
}

/// The contents of the entries of an object from place `i` on.
pub open spec fn entry_models(parent: JsonValue, i: nat) -> Seq<(Seq<char>, JsonModel)>
    decreases parent, 0nat, entries_of(parent).len() - i,
{
    match parent {
        JsonValue::Object(m) => if i >= m@.len() {
            Seq::empty()
        } else {
            seq![(m@[i as int].0@, model_of(m@[i as int].1))] + entry_models(parent, i + 1)
        },
        _ => Seq::empty(),
    }
}

/// What is left of a value when all that is empty has been taken out of
/// it: of an array the items that are not empty, each with what is left
/// of it, and of an object the entries whose values are not empty, in
/// their order.  Any other value is left as it is.
pub open spec fn left_of(v: JsonValue) -> JsonModel
    decreases v, 2nat, 0nat,
{
    match v {
        JsonValue::Null => JsonModel::Null,
        JsonValue::Bool(b) => JsonModel::Bool(b),
        JsonValue::Number(t) => JsonModel::Number(t@),
        JsonValue::Text(s) => JsonModel::Text(s@),
        JsonValue::Array(xs) => JsonModel::Array(items_left(v, 0)),
        JsonValue::Object(m) => JsonModel::Object(entries_left(v, 0)),
    }
}

/// Whether a value is not empty: `null` and the empty text are empty,
/// and so are an array and an object of which nothing is left.
pub open spec fn is_kept(v: JsonValue) -> bool
    decreases v, 2nat, 0nat,
{
    match v {
        JsonValue::Null => false,
        JsonValue::Bool(_) => true,
        JsonValue::Number(_) => true,
        JsonValue::Text(s) => s@.len() > 0,
        JsonValue::Array(xs) => items_left(v, 0).len() > 0,
        JsonValue::Object(m) => entries_left(v, 0).len() > 0,
    }
}

/// What is left of the items of an array from place `i` on.
pub open spec fn items_left(parent: JsonValue, i: nat) -> Seq<JsonModel>
    decreases parent, 1nat, items_of(parent).len() - i,
{
    match parent {
        JsonValue::Array(xs) => if i >= xs@.len() {
            Seq::empty()
        } else if is_kept(xs@[i as int]) {
            seq![left_of(xs@[i as int])] + items_left(parent, i + 1)
        } else {
            items_left(parent, i + 1)
        },
        _ => Seq::empty(),
    }
}

/// What is left of the entries of an object from place `i` on.
pub open spec fn entries_left(parent: JsonValue, i: nat) -> Seq<(Seq<char>, JsonModel)>
    decreases parent, 1nat, entries_of(parent).len() - i,
{
    match parent {
        JsonValue::Object(m) => if i >= m@.len() {
            Seq::empty()
        } else if is_kept(m@[i as int].1) {
            seq![(m@[i as int].0@, left_of(m@[i as int].1))] + entries_left(parent, i + 1)
        } else {
            entries_left(parent, i + 1)
        },
        _ => Seq::empty(),
    }
}

/// The contents of values.
pub open spec fn models(xs: Seq<JsonValue>) -> Seq<JsonModel> {
    Seq::new(xs.len(), |k: int| model_of(xs[k]))
}

/// The contents of entries.
pub open spec fn entry_pairs(m: Seq<(String, JsonValue)>) -> Seq<(Seq<char>, JsonModel)> {
    Seq::new(m.len(), |k: int| (m[k].0@, model_of(m[k].1)))
}

/// The content of an array is the contents of its items.
pub proof fn lemma_array_model(xs: Vec<JsonValue>, i: nat)
    requires
        i <= xs@.len(),
    ensures
        item_models(JsonValue::Array(xs), i) == models(xs@).skip(i as int),
    decreases xs@.len() - i,
{
    if i < xs@.len() {
        lemma_array_model(xs, i + 1);
        assert(item_models(JsonValue::Array(xs), i) =~= models(xs@).skip(i as int));
    } else {
        assert(item_models(JsonValue::Array(xs), i) =~= models(xs@).skip(i as int));
    }
}

/// The content of an object is the contents of its entries.
pub proof fn lemma_object_model(m: Vec<(String, JsonValue)>, i: nat)
    requires
        i <= m@.len(),
    ensures
        entry_models(JsonValue::Object(m), i) == entry_pairs(m@).skip(i as int),
    decreases m@.len() - i,
{
    if i < m@.len() {
        lemma_object_model(m, i + 1);
        assert(entry_models(JsonValue::Object(m), i) =~= entry_pairs(m@).skip(i as int));
    } else {
        assert(entry_models(JsonValue::Object(m), i) =~= entry_pairs(m@).skip(i as int));
    }
}

/// Makes what is left of a value when all that is empty has been taken
/// out of it, and says whether the value is not empty.
pub fn pruned(v: &JsonValue) -> (r: (JsonValue, bool))
    ensures
        model_of(r.0) == left_of(*v),
        r.1 == is_kept(*v),
    decreases v,
{
    match v {
        JsonValue::Null => (JsonValue::Null, false),
        JsonValue::Bool(b) => (JsonValue::Bool(*b), true),
        JsonValue::Number(t) => (JsonValue::Number(t.clone()), true),
        JsonValue::Text(s) => (JsonValue::Text(s.clone()), s.as_str().unicode_len() > 0),
        JsonValue::Array(xs) => {
            let mut out: Vec<JsonValue> = Vec::new();
            let mut i: usize = 0;
            assert(models(out@) + items_left(*v, 0) =~= items_left(*v, 0));
            while i < xs.len()
                invariant
                    *v == JsonValue::Array(*xs),
                    i <= xs@.len(),
                    models(out@) + items_left(*v, i as nat) == items_left(*v, 0),
                decreases xs@.len() - i,
            {
                let ghost before = models(out@);
                let (w, keep) = pruned(&xs[i]);
                if keep {
                    out.push(w);
                    assert(models(out@) =~= before + seq![left_of(xs@[i as int])]);
                    assert(models(out@) + items_left(*v, (i + 1) as nat) =~= before + items_left(
                        *v,
                        i as nat,
                    ));
                }
                i = i + 1;
            }
            let keep = out.len() > 0;
            proof {
                lemma_array_model(out, 0);
                assert(models(out@).skip(0) =~= models(out@));
                assert(models(out@) + items_left(*v, i as nat) =~= models(out@));
            }
            (JsonValue::Array(out), keep)
        },
        JsonValue::Object(m) => {
            let mut out: Vec<(String, JsonValue)> = Vec::new();
            let mut i: usize = 0;
            assert(entry_pairs(out@) + entries_left(*v, 0) =~= entries_left(*v, 0));
            while i < m.len()
                invariant
                    *v == JsonValue::Object(*m),
                    i <= m@.len(),
                    entry_pairs(out@) + entries_left(*v, i as nat) == entries_left(*v, 0),
                decreases m@.len() - i,
            {
                let ghost before = entry_pairs(out@);
                let (w, keep) = pruned(&m[i].1);
                if keep {
                    out.push((m[i].0.clone(), w));
                    assert(entry_pairs(out@) =~= before + seq![
                        (m@[i as int].0@, left_of(m@[i as int].1)),
                    ]);
                    assert(entry_pairs(out@) + entries_left(*v, (i + 1) as nat) =~= before
                        + entries_left(*v, i as nat));
                }
                i = i + 1;
            }
            let keep = out.len() > 0;
            proof {
                lemma_object_model(out, 0);
                assert(entry_pairs(out@).skip(0) =~= entry_pairs(out@));
                assert(entry_pairs(out@) + entries_left(*v, i as nat) =~= entry_pairs(out@));
            }
            (JsonValue::Object(out), keep)
        },
    }
}

/// Takes all that is empty out of a value and says whether the value is
/// not empty.
pub fn prune_json(v: &mut JsonValue) -> (keep: bool)
    ensures
        model_of(*final(v)) == left_of(*old(v)),
        keep == is_kept(*old(v)),
{
    let (w, keep) = pruned(v);
    *v = w;
    keep
}

} // verus!
