//! The document tree and its mathematical model.

use vstd::prelude::*;

verus! {

/// An in-memory JSON document: nested key-value mappings, arrays, strings,
/// numbers, booleans and null. A number is carried as its literal text, so
/// that a document passes through unaltered. An object keeps its fields as
/// an ordered list of key/value pairs.
#[derive(Debug, PartialEq, Eq)]
pub enum Json {
    Null,
    Bool(bool),
    Num(String),
    Str(String),
    Arr(Vec<Json>),
    Obj(Vec<(String, Json)>),
}

/// The mathematical shape of a document: the same tree with every string
/// read as a sequence of characters. Contracts speak of this model.
#[verifier::ext_equal]
pub enum JsonModel {
    Null,
    Bool(bool),
    Num(Seq<char>),
    Str(Seq<char>),
    Arr(Seq<JsonModel>),
    Obj(Seq<(Seq<char>, JsonModel)>),
}

impl Json {
    /// The model of a document: every string replaced by its character
    /// sequence, every `Vec` by a `Seq`.
    pub open spec fn deep(self) -> JsonModel
        decreases self,
    {
        match self {
            Json::Null => JsonModel::Null,
            Json::Bool(b) => JsonModel::Bool(b),
            Json::Num(s) => JsonModel::Num(s@),
            Json::Str(s) => JsonModel::Str(s@),
            Json::Arr(items) => JsonModel::Arr(Json::deep_items(items@)),
            Json::Obj(fields) => JsonModel::Obj(Json::deep_fields(fields@)),
        }
    }

    /// The models of an array's elements, in order.
    pub open spec fn deep_items(s: Seq<Json>) -> Seq<JsonModel>
        decreases s,
    {
        if s.len() == 0 {
            Seq::empty()
        } else {
            seq![s[0].deep()] + Json::deep_items(s.subrange(1, s.len() as int))
        }
    }

    /// The models of an object's key/value pairs, in order.
    pub open spec fn deep_fields(s: Seq<(String, Json)>) -> Seq<(Seq<char>, JsonModel)>
        decreases s,
    {
        if s.len() == 0 {
            Seq::empty()
        } else {
            seq![(s[0].0@, s[0].1.deep())] + Json::deep_fields(s.subrange(1, s.len() as int))
        }
    }
}

impl View for Json {
    type V = JsonModel;

    open spec fn view(&self) -> JsonModel {
        self.deep()
    }
}

/// Whether no two pairs of an object share a key.
pub open spec fn keys_unique(fields: Seq<(Seq<char>, JsonModel)>) -> bool {
    forall|p: int, q: int| 0 <= p < q < fields.len() ==> fields[p].0 != fields[q].0
}

impl JsonModel {
    /// A well-formed document: every object's keys are distinct, at
    /// every depth. A document parsed from text always has this shape,
    /// since a mapping holds each key once.
    pub open spec fn wf(self) -> bool
        decreases self,
    {
        match self {
            JsonModel::Arr(items) => forall|k: int|
                0 <= k < items.len() ==> (#[trigger] items[k]).wf(),
            JsonModel::Obj(fields) => keys_unique(fields) && forall|k: int|
                0 <= k < fields.len() ==> (#[trigger] fields[k]).1.wf(),
            _ => true,
        }
    }
}

/// Taking an element out and putting another back in its place is the
/// same as overwriting that place.
pub proof fn lemma_remove_insert<A>(s: Seq<A>, i: int, x: A)
    requires
        0 <= i < s.len(),
    ensures
        s.remove(i).insert(i, x) =~= s.update(i, x),
{
}

/// Overwriting one pair of an object maps through `deep_fields`.
pub proof fn lemma_deep_fields_update(s: Seq<(String, Json)>, i: int, p: (String, Json))
    requires
        0 <= i < s.len(),
    ensures
        Json::deep_fields(s.update(i, p)) =~= Json::deep_fields(s).update(i, (p.0@, p.1.deep())),
{
    lemma_deep_fields_props(s);
    lemma_deep_fields_props(s.update(i, p));
}

/// `deep_fields` maps an object's pairs element by element.
pub proof fn lemma_deep_fields_props(s: Seq<(String, Json)>)
    ensures
        Json::deep_fields(s).len() == s.len(),
        forall|i: int| 0 <= i < s.len() ==> Json::deep_fields(s)[i] == (s[i].0@, s[i].1.deep()),
    decreases s,
{
    if s.len() > 0 {
        let rest = s.subrange(1, s.len() as int);
        lemma_deep_fields_props(rest);
        assert forall|i: int| 0 <= i < s.len() implies Json::deep_fields(s)[i] == (
            s[i].0@,
            s[i].1.deep(),
        ) by {
            if i >= 1 {
                assert(rest[i - 1] == s[i]);
            }
        }
    }
}

} // verus!
