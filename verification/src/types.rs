//! The codecs of the primitive and container shapes.

use crate::error::{JsonableError, outcome};
use crate::instance::{
    entry_models, has_key, holds, Instance, instance_models, lemma_entry_models,
    lemma_entry_models_push, lemma_instance_models, lemma_instance_models_push,
};
use crate::lemmas::{
    lemma_decode_entries, lemma_decode_items, lemma_encode_entries, lemma_encode_items,
};
use crate::number::{Number, NumberKind};
use crate::rules::{
    all_conform, conforms, decode_entries, decode_items, decode_spec, encode_entries, encode_items,
    encode_spec, entries_conform, entries_valid, first_occurrences, first_of_each_key, items_valid,
    mismatch, validate_spec,
};
use crate::shape::Shape;
use crate::value::{Json, Object, Value};
use vstd::pervasive::unreached;
use vstd::prelude::*;

verus! {

/// Validates `json` as a string.
pub fn validate_text(json: &Value) -> (r: Result<(), JsonableError>)
    ensures
        outcome(r) == validate_spec(Shape::Text, json@),
{
    match json {
        Value::String(_) => Ok(()),
        other => Err(JsonableError::mismatch(other.kind(), "string")),
    }
}

/// Validates `json` as a number. Every number is valid for every integer
/// kind: decoding cuts it down to the kind's width.
pub fn validate_number(json: &Value) -> (r: Result<(), JsonableError>)
    ensures
        outcome(r) == (if json@ is Number {
            Ok(())
        } else {
            Err(mismatch(json@, "number"@))
        }),
{
    match json {
        Value::Number(_) => Ok(()),
        other => Err(JsonableError::mismatch(other.kind(), "number")),
    }
}

/// Whether every one of `items` is valid under `inner`.
fn items_pass(inner: &Shape, items: &Vec<Value>) -> (r: bool)
    ensures
        r == (forall|i: int|
            0 <= i < items@.len() ==> validate_spec(*inner, (#[trigger] items@[i])@) is Ok),
    decreases inner, 1nat,
{
    let mut i: usize = 0;
    while i < items.len()
        invariant
            i <= items.len(),
            forall|k: int| 0 <= k < i ==> validate_spec(*inner, (#[trigger] items@[k])@) is Ok,
        decreases items.len() - i,
    {
        match inner.validate_json(&items[i]) {
            Ok(_) => {},
            Err(_) => {
                return false;
            },
        }
        i += 1;
    }
    true
}

/// Whether every item of the array `json` is valid under `inner`.
fn array_passes(inner: &Shape, json: &Value) -> (r: bool)
    requires
        json@ is Array,
    ensures
        r == items_valid(*inner, json@->Array_0),
    decreases inner, 2nat,
{
    match json {
        Value::Array(items) => {
            let r = items_pass(inner, items);
            proof {
                Value::lemma_view_array(*items);
                let models = json@->Array_0;
                if r {
                    assert forall|i: int| 0 <= i < models.len() implies validate_spec(
                        *inner,
                        #[trigger] models[i],
                    ) is Ok by {
                        assert(validate_spec(*inner, items@[i]@) is Ok);
                    }
                } else {
                    let i = choose|i: int|
                        0 <= i < items@.len() && !(validate_spec(*inner, (#[trigger] items@[i])@)
                            is Ok);
                    assert(models[i] == items@[i]@);
                }
            }
            r
        },
        _ => true,
    }
}

/// Validates `json` as a sequence of `inner`.
pub fn validate_sequence(inner: &Shape, json: &Value) -> (r: Result<(), JsonableError>)
    ensures
        outcome(r) == validate_spec(Shape::Sequence(Box::new(*inner)), json@),
    decreases inner, 3nat,
{
    match json {
        Value::Array(_) => {
            if array_passes(inner, json) {
                Ok(())
            } else {
                Err(JsonableError::IncompatibleEntryForType(inner.to_name()))
            }
        },
        other => Err(JsonableError::mismatch(other.kind(), "array")),
    }
}

/// Validates `json` as a set of `inner`: as a sequence is validated.
pub fn validate_set(inner: &Shape, json: &Value) -> (r: Result<(), JsonableError>)
    ensures
        outcome(r) == validate_spec(Shape::HashSet(Box::new(*inner)), json@),
    decreases inner, 4nat,
{
    validate_sequence(inner, json)
}

/// Validates `json` as an array of exactly `n` values of `inner`. Another
/// length is reported as such, before any element is looked at.
pub fn validate_array(inner: &Shape, n: usize, json: &Value) -> (r: Result<(), JsonableError>)
    ensures
        outcome(r) == validate_spec(Shape::Array(Box::new(*inner), n), json@),
    decreases inner, 3nat,
{
    match json {
        Value::Array(items) => {
            proof {
                Value::lemma_view_array(*items);
            }
            if items.len() != n {
                Err(JsonableError::InvalidArrayLength { got: items.len(), expected: n })
            } else if array_passes(inner, json) {
                Ok(())
            } else {
                Err(JsonableError::IncompatibleEntryForType(inner.to_name()))
            }
        },
        other => Err(JsonableError::mismatch(other.kind(), "array")),
    }
}

/// Validates `json` as a map from strings to `inner`: an object whose values
/// are all valid. The keys are not looked at.
pub fn validate_map(inner: &Shape, json: &Value) -> (r: Result<(), JsonableError>)
    ensures
        outcome(r) == validate_spec(Shape::HashMap(Box::new(*inner)), json@),
    decreases inner, 3nat,
{
    match json {
        Value::Object(object) => {
            proof {
                Value::lemma_view_object(*object);
            }
            let mut i: usize = 0;
            while i < object.entries.len()
                invariant
                    i <= object.entries.len(),
                    json@ == crate::value::Json::Object(object@),
                    object@.len() == object.entries@.len(),
                    forall|k: int|
                        0 <= k < object.entries@.len() ==> (#[trigger] object@[k]).1
                            == object.entries@[k].1@,
                    forall|k: int|
                        0 <= k < i ==> validate_spec(*inner, (#[trigger] object@[k]).1) is Ok,
                decreases object.entries.len() - i,
            {
                match inner.validate_json(&object.entries[i].1) {
                    Ok(_) => {},
                    Err(_) => {
                        assert(!(validate_spec(*inner, object@[i as int].1) is Ok));
                        assert(!entries_valid(*inner, object@));
                        return Err(JsonableError::IncompatibleEntryForType(inner.to_name()));
                    },
                }
                i += 1;
            }
            assert(entries_valid(*inner, object@));
            Ok(())
        },
        other => Err(JsonableError::mismatch(other.kind(), "object")),
    }
}

/// Decodes the string `json`.
pub fn decode_text(json: &Value) -> (d: Instance)
    requires
        validate_spec(Shape::Text, json@) is Ok,
    ensures
        d@ == decode_spec(Shape::Text, json@),
{
    match json {
        Value::String(s) => Instance::Text(s.clone()),
        _ => unreached(),
    }
}

/// Decodes the number `json` into the integer kind `kind`: the number is
/// read as a 64-bit pattern, and the pattern is cut down to the kind's width.
/// What does not fit is lost.
pub fn decode_number(kind: NumberKind, json: &Value) -> (d: Instance)
    requires
        validate_spec(Shape::Number(kind), json@) is Ok,
    ensures
        d@ == decode_spec(Shape::Number(kind), json@),
{
    match json {
        Value::Number(n) => {
            if kind.signed() {
                Instance::Signed(kind.decode_signed(n))
            } else {
                Instance::Unsigned(kind.decode_unsigned(n))
            }
        },
        _ => unreached(),
    }
}

/// Decodes the items of the array `json`, in order.
pub fn decode_elements(inner: &Shape, json: &Value) -> (out: Vec<Instance>)
    requires
        json@ is Array,
        items_valid(*inner, json@->Array_0),
    ensures
        instance_models(out@) == decode_items(*inner, json@->Array_0, json@->Array_0.len()),
    decreases inner, 1nat,
{
    match json {
        Value::Array(items) => {
            proof {
                Value::lemma_view_array(*items);
            }
            let ghost models = json@->Array_0;
            let mut out: Vec<Instance> = Vec::new();
            let mut i: usize = 0;
            while i < items.len()
                invariant
                    i <= items.len(),
                    out@.len() == i,
                    models.len() == items@.len(),
                    forall|k: int| 0 <= k < items@.len() ==> (#[trigger] models[k]) == items@[k]@,
                    items_valid(*inner, models),
                    forall|k: int|
                        0 <= k < i ==> (#[trigger] out@[k])@ == decode_spec(*inner, models[k]),
                decreases items.len() - i,
            {
                assert(validate_spec(*inner, models[i as int]) is Ok);
                let d = inner.decode(&items[i]);
                out.push(d);
                i += 1;
            }
            proof {
                lemma_instance_models(out@);
                lemma_decode_items(*inner, models, models.len());
                assert(instance_models(out@) =~= decode_items(*inner, models, models.len()));
            }
            out
        },
        _ => unreached(),
    }
}

/// Decodes a sequence of `inner`, in the order of the array.
pub fn decode_sequence(inner: &Shape, json: &Value) -> (d: Instance)
    requires
        validate_spec(Shape::Sequence(Box::new(*inner)), json@) is Ok,
    ensures
        d@ == decode_spec(Shape::Sequence(Box::new(*inner)), json@),
    decreases inner, 2nat,
{
    Instance::Sequence(decode_elements(inner, json))
}

/// Decodes a set of `inner`: its members in the order of the array, each
/// where it occurs first. A member that the array gives again is dropped.
pub fn decode_set(inner: &Shape, json: &Value) -> (d: Instance)
    requires
        validate_spec(Shape::HashSet(Box::new(*inner)), json@) is Ok,
    ensures
        d@ == decode_spec(Shape::HashSet(Box::new(*inner)), json@),
    decreases inner, 2nat,
{
    let decoded = decode_elements(inner, json);
    let ghost models = instance_models(decoded@);
    proof {
        lemma_instance_models(decoded@);
        lemma_decode_items(*inner, json@->Array_0, json@->Array_0.len());
    }
    let mut out: Vec<Instance> = Vec::new();
    assert(instance_models(out@) =~= first_occurrences(models, 0));
    for item in iter: decoded
        invariant
            iter.seq() == decoded@,
            models == instance_models(decoded@),
            models.len() == decoded@.len(),
            forall|k: int| 0 <= k < decoded@.len() ==> (#[trigger] models[k]) == decoded@[k]@,
            instance_models(out@) == first_occurrences(models, iter.index() as nat),
    {
        let ghost before = out@;
        if !holds(&out, &item) {
            proof {
                lemma_instance_models_push(before, item);
            }
            out.push(item);
        }
    }
    Instance::Sequence(out)
}

/// Decodes an array of exactly `n` values of `inner`.
pub fn decode_array(inner: &Shape, n: usize, json: &Value) -> (d: Instance)
    requires
        validate_spec(Shape::Array(Box::new(*inner), n), json@) is Ok,
    ensures
        d@ == decode_spec(Shape::Array(Box::new(*inner), n), json@),
    decreases inner, 2nat,
{
    Instance::Sequence(decode_elements(inner, json))
}

/// Decodes a map from strings to `inner`: one entry for each member of the
/// object, in order, under the member's key.
pub fn decode_map(inner: &Shape, json: &Value) -> (d: Instance)
    requires
        validate_spec(Shape::HashMap(Box::new(*inner)), json@) is Ok,
    ensures
        d@ == decode_spec(Shape::HashMap(Box::new(*inner)), json@),
    decreases inner, 2nat,
{
    match json {
        Value::Object(object) => {
            proof {
                Value::lemma_view_object(*object);
            }
            let mut out: Vec<(String, Instance)> = Vec::new();
            let mut i: usize = 0;
            while i < object.entries.len()
                invariant
                    i <= object.entries.len(),
                    out@.len() == i,
                    object@.len() == object.entries@.len(),
                    forall|k: int|
                        0 <= k < object.entries@.len() ==> (#[trigger] object@[k]) == (
                            object.entries@[k].0@,
                            object.entries@[k].1@,
                        ),
                    entries_valid(*inner, object@),
                    forall|k: int|
                        0 <= k < i ==> (#[trigger] out@[k]).0@ == object@[k].0 && out@[k].1@
                            == decode_spec(*inner, object@[k].1),
                decreases object.entries.len() - i,
            {
                assert(validate_spec(*inner, object@[i as int].1) is Ok);
                let d = inner.decode(&object.entries[i].1);
                out.push((object.entries[i].0.clone(), d));
                i += 1;
            }
            proof {
                lemma_entry_models(out@);
                lemma_decode_entries(*inner, object@, object@.len());
                assert(entry_models(out@) =~= decode_entries(*inner, object@, object@.len()));
            }
            Instance::Entries(first_entries(out))
        },
        _ => unreached(),
    }
}

/// The entries of `entries`, each where its key occurs first. An entry whose
/// key an earlier entry has is dropped.
pub fn first_entries(entries: Vec<(String, Instance)>) -> (out: Vec<(String, Instance)>)
    ensures
        entry_models(out@) == first_of_each_key(entry_models(entries@), entries@.len()),
{
    let ghost models = entry_models(entries@);
    proof {
        lemma_entry_models(entries@);
    }
    let mut out: Vec<(String, Instance)> = Vec::new();
    assert(entry_models(out@) =~= first_of_each_key(models, 0));
    for entry in iter: entries
        invariant
            iter.seq() == entries@,
            models == entry_models(entries@),
            models.len() == entries@.len(),
            forall|k: int|
                0 <= k < entries@.len() ==> (#[trigger] models[k]) == (
                    entries@[k].0@,
                    entries@[k].1@,
                ),
            entry_models(out@) == first_of_each_key(models, iter.index() as nat),
    {
        let ghost before = out@;
        if !has_key(&out, &entry.0) {
            proof {
                lemma_entry_models_push(before, entry);
            }
            out.push(entry);
        }
    }
    out
}

/// Encodes a string.
pub fn encode_text(d: &Instance) -> (json: Value)
    requires
        conforms(Shape::Text, d@),
    ensures
        json@ == encode_spec(Shape::Text, d@),
{
    match d {
        Instance::Text(s) => Value::String(s.clone()),
        _ => unreached(),
    }
}

/// Encodes an integer of the kind `kind` as a number.
pub fn encode_number(kind: NumberKind, d: &Instance) -> (json: Value)
    requires
        conforms(Shape::Number(kind), d@),
    ensures
        json@ == encode_spec(Shape::Number(kind), d@),
{
    match d {
        Instance::Unsigned(v) => Value::Number(Number::from_unsigned(*v)),
        Instance::Signed(i) => Value::Number(Number::from_signed(*i)),
        _ => unreached(),
    }
}

/// Encodes the elements of `d` as an array, in order.
pub fn encode_elements(inner: &Shape, d: &Instance) -> (json: Value)
    requires
        d@ is Sequence,
        all_conform(*inner, d@->Sequence_0),
    ensures
        json@ == Json::Array(encode_items(*inner, d@->Sequence_0, d@->Sequence_0.len())),
    decreases inner, 1nat,
{
    match d {
        Instance::Sequence(items) => {
            proof {
                lemma_instance_models(items@);
            }
            let ghost models = d@->Sequence_0;
            let mut out: Vec<Value> = Vec::new();
            let mut i: usize = 0;
            while i < items.len()
                invariant
                    i <= items.len(),
                    out@.len() == i,
                    models.len() == items@.len(),
                    forall|k: int| 0 <= k < items@.len() ==> (#[trigger] models[k]) == items@[k]@,
                    all_conform(*inner, models),
                    forall|k: int|
                        0 <= k < i ==> (#[trigger] out@[k])@ == encode_spec(*inner, models[k]),
                decreases items.len() - i,
            {
                assert(conforms(*inner, models[i as int]));
                let v = inner.to_json(&items[i]);
                out.push(v);
                i += 1;
            }
            proof {
                Value::lemma_view_array(out);
                lemma_encode_items(*inner, models, models.len());
                assert(Value::Array(out)@->Array_0 =~= encode_items(*inner, models, models.len()));
            }
            Value::Array(out)
        },
        _ => unreached(),
    }
}

/// Encodes a map from strings to `inner` as an object: one member for each
/// entry, in order, under the entry's key.
pub fn encode_map(inner: &Shape, d: &Instance) -> (json: Value)
    requires
        conforms(Shape::HashMap(Box::new(*inner)), d@),
    ensures
        json@ == encode_spec(Shape::HashMap(Box::new(*inner)), d@),
    decreases inner, 1nat,
{
    match d {
        Instance::Entries(entries) => {
            proof {
                lemma_entry_models(entries@);
            }
            let ghost models = d@->Entries_0;
            let mut out: Vec<(String, Value)> = Vec::new();
            let mut i: usize = 0;
            while i < entries.len()
                invariant
                    i <= entries.len(),
                    out@.len() == i,
                    models.len() == entries@.len(),
                    forall|k: int|
                        0 <= k < entries@.len() ==> (#[trigger] models[k]) == (
                            entries@[k].0@,
                            entries@[k].1@,
                        ),
                    entries_conform(*inner, models),
                    forall|k: int|
                        0 <= k < i ==> (#[trigger] out@[k]).0@ == models[k].0 && out@[k].1@
                            == encode_spec(*inner, models[k].1),
                decreases entries.len() - i,
            {
                assert(conforms(*inner, models[i as int].1));
                let v = inner.to_json(&entries[i].1);
                out.push((entries[i].0.clone(), v));
                i += 1;
            }
            let object = Object { entries: out };
            proof {
                Value::lemma_view_object(object);
                lemma_encode_entries(*inner, models, models.len());
                assert(object@ =~= encode_entries(*inner, models, models.len()));
            }
            Value::Object(object)
        },
        _ => unreached(),
    }
}

/// Whether every one of `items` is an instance of `inner`.
pub fn all_admitted(inner: &Shape, items: &Vec<Instance>) -> (r: bool)
    ensures
        r == all_conform(*inner, instance_models(items@)),
    decreases inner, 1nat,
{
    proof {
        lemma_instance_models(items@);
    }
    let ghost models = instance_models(items@);
    let mut i: usize = 0;
    while i < items.len()
        invariant
            i <= items.len(),
            models == instance_models(items@),
            models.len() == items@.len(),
            forall|k: int| 0 <= k < items@.len() ==> (#[trigger] models[k]) == items@[k]@,
            forall|k: int| 0 <= k < i ==> conforms(*inner, #[trigger] models[k]),
        decreases items.len() - i,
    {
        if !inner.admits(&items[i]) {
            assert(!conforms(*inner, models[i as int]));
            return false;
        }
        i += 1;
    }
    true
}

/// Whether the value of every one of `entries` is an instance of `inner`.
pub fn entries_admitted(inner: &Shape, entries: &Vec<(String, Instance)>) -> (r: bool)
    ensures
        r == entries_conform(*inner, entry_models(entries@)),
    decreases inner, 1nat,
{
    proof {
        lemma_entry_models(entries@);
    }
    let ghost models = entry_models(entries@);
    let mut i: usize = 0;
    while i < entries.len()
        invariant
            i <= entries.len(),
            models == entry_models(entries@),
            models.len() == entries@.len(),
            forall|k: int|
                0 <= k < entries@.len() ==> (#[trigger] models[k]) == (
                    entries@[k].0@,
                    entries@[k].1@,
                ),
            forall|k: int| 0 <= k < i ==> conforms(*inner, (#[trigger] models[k]).1),
        decreases entries.len() - i,
    {
        if !inner.admits(&entries[i].1) {
            assert(!conforms(*inner, models[i as int].1));
            return false;
        }
        i += 1;
    }
    true
}

} // verus!
