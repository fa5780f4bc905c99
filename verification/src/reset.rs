//! Locating and clearing the target field.
//!
//! The persisted document keeps the field `gui_tile_state` inside the
//! top-level object `das`. Resetting navigates to that field and replaces
//! its value with the empty string, leaving every other part of the
//! document as it was.

use vstd::prelude::*;
use crate::errors::ResetError;
use crate::json::Json;
use crate::json::JsonModel;
use crate::json::lemma_deep_fields_props;
use crate::json::lemma_deep_fields_update;
use crate::json::lemma_remove_insert;

verus! {

/// The key of the top-level object that holds the target field.
pub open spec fn das_key() -> Seq<char> {
    "das"@
}

/// The key of the target field inside that object.
pub open spec fn tile_key() -> Seq<char> {
    "gui_tile_state"@
}

/// The position of the first pair of `fields` whose key is `key`,
/// or `-1` if no pair has it.
pub open spec fn first_index(fields: Seq<(Seq<char>, JsonModel)>, key: Seq<char>) -> int
    decreases fields,
{
    if fields.len() == 0 {
        -1
    } else if fields[0].0 == key {
        0
    } else {
        let rest = first_index(fields.subrange(1, fields.len() as int), key);
        if rest < 0 {
            -1
        } else {
            rest + 1
        }
    }
}

/// Whether some pair of `fields` has the key `key`.
pub open spec fn has_key(fields: Seq<(Seq<char>, JsonModel)>, key: Seq<char>) -> bool {
    first_index(fields, key) >= 0
}

/// What `first_index` finds: either the earliest pair with the key, or a
/// witness that no pair has it.
pub proof fn lemma_first_index_props(fields: Seq<(Seq<char>, JsonModel)>, key: Seq<char>)
    ensures
        has_key(fields, key) ==> {
            let i = first_index(fields, key);
            &&& 0 <= i < fields.len()
            &&& fields[i].0 == key
            &&& forall|k: int| 0 <= k < i ==> (#[trigger] fields[k]).0 != key
        },
        !has_key(fields, key) ==> forall|k: int|
            0 <= k < fields.len() ==> (#[trigger] fields[k]).0 != key,
    decreases fields,
{
    if fields.len() > 0 && fields[0].0 != key {
        let rest = fields.subrange(1, fields.len() as int);
        lemma_first_index_props(rest, key);
        if has_key(fields, key) {
            let i = first_index(fields, key);
            assert(fields[i] == rest[i - 1]);
            assert forall|k: int| 0 <= k < i implies (#[trigger] fields[k]).0 != key by {
                if k >= 1 {
                    assert(rest[k - 1] == fields[k]);
                }
            }
        } else {
            assert forall|k: int| 0 <= k < fields.len() implies (#[trigger] fields[k]).0
                != key by {
                if k >= 1 {
                    assert(rest[k - 1] == fields[k]);
                }
            }
        }
    }
}

/// A position whose key matches, with no match before it, is the one
/// `first_index` returns.
pub proof fn lemma_first_index_is(fields: Seq<(Seq<char>, JsonModel)>, key: Seq<char>, i: int)
    requires
        0 <= i < fields.len(),
        fields[i].0 == key,
        forall|k: int| 0 <= k < i ==> (#[trigger] fields[k]).0 != key,
    ensures
        first_index(fields, key) == i,
    decreases fields,
{
    if fields[0].0 != key {
        let rest = fields.subrange(1, fields.len() as int);
        assert(forall|k: int| 0 <= k < rest.len() ==> rest[k] == fields[k + 1]);
        lemma_first_index_is(rest, key, i - 1);
    }
}

/// Whether the document's root is an object with the `das` field.
pub open spec fn root_has_das(m: JsonModel) -> bool {
    match m {
        JsonModel::Obj(fields) => has_key(fields, das_key()),
        _ => false,
    }
}

/// The value of the `das` field at the root.
pub open spec fn das_value(m: JsonModel) -> JsonModel
    recommends
        root_has_das(m),
{
    match m {
        JsonModel::Obj(fields) => fields[first_index(fields, das_key())].1,
        _ => m,
    }
}

/// Whether the document has the nested layout the reset expects: an
/// object at the root, a `das` object inside it, and a `gui_tile_state`
/// field inside that.
pub open spec fn resettable(m: JsonModel) -> bool {
    root_has_das(m) && (das_value(m) matches JsonModel::Obj(inner) && has_key(inner, tile_key()))
}

/// The document after the reset: the value of `das.gui_tile_state`
/// replaced by the empty string, everything else in place.
pub open spec fn reset_model(m: JsonModel) -> JsonModel
    recommends
        resettable(m),
{
    match m {
        JsonModel::Obj(fields) => {
            let i = first_index(fields, das_key());
            match fields[i].1 {
                JsonModel::Obj(inner) => {
                    let j = first_index(inner, tile_key());
                    JsonModel::Obj(
                        fields.update(
                            i,
                            (
                                fields[i].0,
                                JsonModel::Obj(
                                    inner.update(j, (inner[j].0, JsonModel::Str(Seq::empty()))),
                                ),
                            ),
                        ),
                    )
                },
                _ => m,
            }
        },
        _ => m,
    }
}

/// The reset changes exactly one value. In the document it returns, the
/// field `das.gui_tile_state` reads as the empty string, while every
/// other pair of the root object and of the `das` object — key and value
/// alike — is the one the input document had.
pub proof fn lemma_reset_clears_field(m: JsonModel)
    requires
        resettable(m),
    ensures
        ({
            let fields = m->Obj_0;
            let i = first_index(fields, das_key());
            let inner = fields[i].1->Obj_0;
            let j = first_index(inner, tile_key());
            let rf = reset_model(m)->Obj_0;
            let rinner = rf[i].1->Obj_0;
            &&& reset_model(m) is Obj
            &&& rf.len() == fields.len()
            &&& forall|k: int| 0 <= k < fields.len() && k != i ==> #[trigger] rf[k] == fields[k]
            &&& rf[i].0 == fields[i].0
            &&& rf[i].1 is Obj
            &&& rinner.len() == inner.len()
            &&& forall|k: int| 0 <= k < inner.len() && k != j ==> #[trigger] rinner[k] == inner[k]
            &&& rinner[j].0 == inner[j].0
            &&& rinner[j].1 == JsonModel::Str(Seq::<char>::empty())
        }),
{
    let fields = m->Obj_0;
    lemma_first_index_props(fields, das_key());
    let i = first_index(fields, das_key());
    let inner = fields[i].1->Obj_0;
    lemma_first_index_props(inner, tile_key());
}

/// Resetting is idempotent: the document a reset returns still has the
/// nested layout, and resetting it again returns it unchanged.
pub proof fn lemma_reset_idempotent(m: JsonModel)
    requires
        resettable(m),
    ensures
        resettable(reset_model(m)),
        reset_model(reset_model(m)) == reset_model(m),
{
    let fields = m->Obj_0;
    lemma_first_index_props(fields, das_key());
    let i = first_index(fields, das_key());
    let inner = fields[i].1->Obj_0;
    lemma_first_index_props(inner, tile_key());
    let j = first_index(inner, tile_key());
    let inner2 = inner.update(j, (inner[j].0, JsonModel::Str(Seq::<char>::empty())));
    let fields2 = fields.update(i, (fields[i].0, JsonModel::Obj(inner2)));
    assert(reset_model(m) == JsonModel::Obj(fields2));
    assert forall|k: int| 0 <= k < i implies (#[trigger] fields2[k]).0 != das_key() by {
        assert(fields2[k] == fields[k]);
    }
    lemma_first_index_is(fields2, das_key(), i);
    assert forall|k: int| 0 <= k < j implies (#[trigger] inner2[k]).0 != tile_key() by {
        assert(inner2[k] == inner[k]);
    }
    lemma_first_index_is(inner2, tile_key(), j);
    assert(das_value(JsonModel::Obj(fields2)) == JsonModel::Obj(inner2));
    assert(resettable(reset_model(m)));
    assert(inner2.update(j, (inner2[j].0, JsonModel::Str(Seq::<char>::empty()))) =~= inner2);
    assert(fields2.update(i, (fields2[i].0, JsonModel::Obj(inner2))) =~= fields2);
}

/// The reset keeps a document well formed: it renames no key and adds
/// no pair, so distinct keys stay distinct at every depth.
pub proof fn lemma_reset_preserves_wf(m: JsonModel)
    requires
        resettable(m),
        m.wf(),
    ensures
        reset_model(m).wf(),
{
    let fields = m->Obj_0;
    lemma_first_index_props(fields, das_key());
    let i = first_index(fields, das_key());
    let inner = fields[i].1->Obj_0;
    lemma_first_index_props(inner, tile_key());
    let j = first_index(inner, tile_key());
    let inner2 = inner.update(j, (inner[j].0, JsonModel::Str(Seq::<char>::empty())));
    let fields2 = fields.update(i, (fields[i].0, JsonModel::Obj(inner2)));
    assert(fields[i].1.wf());
    assert forall|k: int| 0 <= k < inner2.len() implies (#[trigger] inner2[k]).1.wf() by {
        if k != j {
            assert(inner2[k] == inner[k]);
            assert(inner[k].1.wf());
        }
    }
    assert(JsonModel::Obj(inner2).wf());
    assert forall|k: int| 0 <= k < fields2.len() implies (#[trigger] fields2[k]).1.wf() by {
        if k != i {
            assert(fields2[k] == fields[k]);
            assert(fields[k].1.wf());
        }
    }
    assert(reset_model(m) == JsonModel::Obj(fields2));
    assert(JsonModel::Obj(fields2).wf());
}

/// The position of the first pair of `fields` whose key reads as `key`,
/// if any pair does.
fn find_key(fields: &Vec<(String, Json)>, key: &String) -> (r: Option<usize>)
    ensures
        match r {
            Some(i) => i < fields@.len() && first_index(
                Json::deep_fields(fields@),
                key@,
            ) == i as int,
            None => !has_key(Json::deep_fields(fields@), key@),
        },
{
    let ghost mf = Json::deep_fields(fields@);
    proof {
        lemma_deep_fields_props(fields@);
    }
    let len = fields.len();
    let mut idx: usize = 0;
    while idx < len
        invariant
            len == fields@.len(),
            idx <= len,
            mf == Json::deep_fields(fields@),
            mf.len() == len,
            forall|k: int| 0 <= k < mf.len() ==> #[trigger] mf[k] == (fields@[k].0@, fields@[k].1.deep()),
            forall|k: int| 0 <= k < idx ==> (#[trigger] mf[k]).0 != key@,
        decreases len - idx,
    {
        if fields[idx].0 == *key {
            proof {
                lemma_first_index_is(mf, key@, idx as int);
            }
            return Some(idx);
        }
        idx += 1;
    }
    proof {
        lemma_first_index_props(mf, key@);
    }
    None
}

/// Clears `das.gui_tile_state` to the empty string.
///
/// On the expected nested layout the result is the same document with
/// only that one value replaced. A document whose root has no `das`
/// object fails naming `das`; one whose `das` has no `gui_tile_state`
/// field (or whose `das` is not an object) fails naming `gui_tile_state`.
pub fn reset_field(doc: Json) -> (r: Result<Json, ResetError>)
    ensures
        r is Ok <==> resettable(doc@),
        resettable(doc@) ==> (r matches Ok(d) && d@ == reset_model(doc@)),
        !root_has_das(doc@) ==> (r matches Err(e) && (e matches ResetError::MissingField(name)
            && name@ == das_key())),
        root_has_das(doc@) && !resettable(doc@) ==> (r matches Err(e) && (e
            matches ResetError::MissingField(name) && name@ == tile_key())),
{
    match doc {
        Json::Obj(mut fields) => {
            let ghost fields0 = fields@;
            let das = "das".to_owned();
            match find_key(&fields, &das) {
                Some(i) => {
                    let (dkey, dval) = fields.remove(i);
                    proof {
                        lemma_deep_fields_props(fields0);
                    }
                    match dval {
                        Json::Obj(mut inner) => {
                            let ghost inner0 = inner@;
                            let tile = "gui_tile_state".to_owned();
                            match find_key(&inner, &tile) {
                                Some(j) => {
                                    let (tkey, _old) = inner.remove(j);
                                    let tile_pair = (tkey, Json::Str(String::new()));
                                    let ghost gtile = tile_pair;
                                    inner.insert(j, tile_pair);
                                    proof {
                                        lemma_deep_fields_props(inner0);
                                        lemma_remove_insert(inner0, j as int, gtile);
                                        lemma_deep_fields_update(inner0, j as int, gtile);
                                    }
                                    let das_pair = (dkey, Json::Obj(inner));
                                    let ghost gdas = das_pair;
                                    fields.insert(i, das_pair);
                                    let out = Json::Obj(fields);
                                    proof {
                                        lemma_remove_insert(fields0, i as int, gdas);
                                        lemma_deep_fields_update(fields0, i as int, gdas);
                                        assert(out@ =~~= reset_model(doc@));
                                    }
                                    Ok(out)
                                },
                                None => Err(ResetError::MissingField("gui_tile_state".to_owned())),
                            }
                        },
                        _ => Err(ResetError::MissingField("gui_tile_state".to_owned())),
                    }
                },
                None => Err(ResetError::MissingField("das".to_owned())),
            }
        },
        _ => Err(ResetError::MissingField("das".to_owned())),
    }
}

} // verus!
