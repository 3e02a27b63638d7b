//! The codec of a record: named fields, positional fields, or none.

use crate::error::{JsonableError, outcome};
use crate::instance::{Instance, instance_models, lemma_instance_models};
use crate::lemmas::{
    lemma_check_fields_ok, lemma_check_fields_stays, lemma_decode_fields, lemma_encode_fields,
};
use crate::rules::{
    check_fields, conforms, decode_fields, decode_spec, encode_fields, encode_spec, fields_conform,
    record_check, record_decode, record_encode,
};
use crate::shape::{distinct_field_names, Field, Fields, Shape};
use crate::value::{Json, member, Object, Value};
use vstd::pervasive::unreached;
use vstd::prelude::*;

verus! {

/// Whether no two of `fields` share a name.
pub fn distinct_names(fields: &Vec<Field>) -> (r: bool)
    ensures
        r == distinct_field_names(fields@),
{
    let mut j: usize = 0;
    while j < fields.len()
        invariant
            j <= fields.len(),
            forall|a: int, b: int|
                0 <= a < b < j ==> (#[trigger] fields@[a]).ident@ != (#[trigger] fields@[b]).ident@,
        decreases fields.len() - j,
    {
        let mut i: usize = 0;
        while i < j
            invariant
                i <= j < fields.len(),
                forall|a: int| 0 <= a < i ==> (#[trigger] fields@[a]).ident@ != fields@[j as int].ident@,
            decreases j - i,
        {
            if fields[i].ident == fields[j].ident {
                return false;
            }
            i += 1;
        }
        j += 1;
    }
    true
}

/// The shape of the record `identifier` with the named fields `input`, or
/// why there is none: two fields may not share a name.
pub fn implement_named(identifier: &String, input: Vec<Field>) -> (r: Result<Shape, String>)
    ensures
        match r {
            Ok(shape) => {
                &&& distinct_field_names(input@)
                &&& shape == Shape::Struct(*identifier, Fields::Named(input))
                &&& (forall|i: int| 0 <= i < input@.len() ==> (#[trigger] input@[i]).ty.wf())
                    ==> shape.wf()
            },
            Err(reason) => !distinct_field_names(input@) && reason@ == "duplicate field name"@,
        },
{
    if distinct_names(&input) {
        let shape = Shape::Struct(identifier.clone(), Fields::Named(input));
        proof {
            if forall|i: int| 0 <= i < input@.len() ==> (#[trigger] input@[i]).ty.wf() {
                let fields = Fields::Named(input);
                assert forall|i: int| 0 <= i < fields.count() implies (#[trigger] fields.ty(
                    i,
                )).wf() by {
                    assert(input@[i].ty.wf());
                }
                assert(fields.wf());
                assert(shape.wf());
            }
        }
        Ok(shape)
    } else {
        Err("duplicate field name".to_string())
    }
}

/// The shape of the record `identifier` with the positional fields `input`.
/// Field `i` is stored under the decimal numeral of `i`, so no two fields
/// share a key and every list of fields has a shape.
pub fn implement_unnamed(identifier: &String, input: Vec<Shape>) -> (r: Result<Shape, String>)
    ensures
        r matches Ok(shape) && shape == Shape::Struct(*identifier, Fields::Unnamed(input)) && ((
        forall|i: int| 0 <= i < input@.len() ==> (#[trigger] input@[i]).wf()) ==> shape.wf()),
{
    let shape = Shape::Struct(identifier.clone(), Fields::Unnamed(input));
    proof {
        if forall|i: int| 0 <= i < input@.len() ==> (#[trigger] input@[i]).wf() {
            let fields = Fields::Unnamed(input);
            assert forall|i: int| 0 <= i < fields.count() implies (#[trigger] fields.ty(i)).wf() by {
                assert(input@[i].wf());
            }
            assert(fields.wf());
            assert(shape.wf());
        }
    }
    Ok(shape)
}

/// The shape of the record `identifier` without fields.
pub fn implement_unit(identifier: &String) -> (shape: Shape)
    ensures
        shape == Shape::Struct(*identifier, Fields::Unit),
        shape.wf(),
{
    let shape = Shape::Struct(identifier.clone(), Fields::Unit);
    assert(Fields::Unit.wf());
    assert(shape.wf());
    shape
}

/// Validates `json` as a record with the fields `fields`. The value has to
/// be an object; each field is validated against the member under its key,
/// or against null where there is none, and the first field that fails is
/// reported under the name of its type.
pub fn validate(fields: &Fields, json: &Value) -> (r: Result<(), JsonableError>)
    ensures
        outcome(r) == record_check(*fields, json@),
    decreases fields, 0nat,
{
    match json {
        Value::Object(object) => {
            proof {
                Value::lemma_view_object(*object);
            }
            let null = Value::Null;
            let count = fields.len();
            let mut i: usize = 0;
            while i < count
                invariant
                    i <= count,
                    count == fields.count(),
                    null@ == Json::Null,
                    json@ == Json::Object(object@),
                    check_fields(*fields, object@, i as nat) is Ok,
                decreases count - i,
            {
                let key = fields.key_of(i);
                let value = match object.get(&key) {
                    Some(value) => value,
                    None => &null,
                };
                match fields.type_of(i).validate_json(value) {
                    Ok(_) => {},
                    Err(e) => {
                        proof {
                            lemma_check_fields_stays(
                                *fields,
                                object@,
                                (i + 1) as nat,
                                count as nat,
                            );
                        }
                        return Err(JsonableError::inside(fields.type_of(i).to_name(), e));
                    },
                }
                i += 1;
            }
            Ok(())
        },
        other => Err(JsonableError::mismatch(other.kind(), "object")),
    }
}

/// Decodes the record stored in the object `json`: each field from the
/// member under its key, or from null where there is none.
pub fn decode(fields: &Fields, json: &Value) -> (d: Instance)
    requires
        record_check(*fields, json@) is Ok,
    ensures
        d@ == record_decode(*fields, json@),
    decreases fields, 0nat,
{
    match json {
        Value::Object(object) => {
            proof {
                Value::lemma_view_object(*object);
            }
            let null = Value::Null;
            let count = fields.len();
            let mut out: Vec<Instance> = Vec::new();
            let mut i: usize = 0;
            while i < count
                invariant
                    i <= count,
                    count == fields.count(),
                    out@.len() == i,
                    null@ == Json::Null,
                    check_fields(*fields, object@, count as nat) is Ok,
                    forall|k: int|
                        0 <= k < i ==> (#[trigger] out@[k])@ == decode_spec(
                            fields.ty(k),
                            member(object@, fields.key(k)),
                        ),
                decreases count - i,
            {
                let key = fields.key_of(i);
                let value = match object.get(&key) {
                    Some(value) => value,
                    None => &null,
                };
                proof {
                    lemma_check_fields_ok(*fields, object@, count as nat, i as int);
                }
                let d = fields.type_of(i).decode(value);
                out.push(d);
                i += 1;
            }
            proof {
                lemma_instance_models(out@);
                lemma_decode_fields(*fields, object@, count as nat);
                assert(instance_models(out@) =~= decode_fields(*fields, object@, count as nat));
            }
            Instance::Struct(out)
        },
        _ => unreached(),
    }
}

/// The members that store the field values `values` of `fields`: one for
/// each field, in field order, under the field's key.
pub fn encode_members(fields: &Fields, values: &Vec<Instance>) -> (object: Object)
    requires
        fields_conform(*fields, instance_models(values@)),
    ensures
        object@ == encode_fields(*fields, instance_models(values@), fields.count()),
    decreases fields, 0nat,
{
    proof {
        lemma_instance_models(values@);
    }
    let ghost models = instance_models(values@);
    let count = fields.len();
    let mut out: Vec<(String, Value)> = Vec::new();
    let mut i: usize = 0;
    while i < count
        invariant
            i <= count,
            count == fields.count(),
            count == values@.len(),
            out@.len() == i,
            models.len() == values@.len(),
            forall|k: int| 0 <= k < values@.len() ==> (#[trigger] models[k]) == values@[k]@,
            fields_conform(*fields, models),
            forall|k: int|
                0 <= k < i ==> (#[trigger] out@[k]).0@ == fields.key(k) && out@[k].1@
                    == encode_spec(fields.ty(k), models[k]),
        decreases count - i,
    {
        assert(conforms(fields.ty(i as int), models[i as int]));
        let v = fields.type_of(i).to_json(&values[i]);
        out.push((fields.key_of(i), v));
        i += 1;
    }
    let object = Object { entries: out };
    proof {
        Value::lemma_view_object(object);
        lemma_encode_fields(*fields, models, count as nat);
        assert(object@ =~= encode_fields(*fields, models, count as nat));
    }
    object
}

/// Encodes a record as an object with one member for each field.
pub fn encode(fields: &Fields, d: &Instance) -> (json: Value)
    requires
        d@ is Struct,
        fields_conform(*fields, d@->Struct_0),
    ensures
        json@ == record_encode(*fields, d@),
    decreases fields, 1nat,
{
    match d {
        Instance::Struct(values) => {
            let object = encode_members(fields, values);
            proof {
                Value::lemma_view_object(object);
            }
            Value::Object(object)
        },
        _ => unreached(),
    }
}

/// Whether `values` holds one instance for each of `fields`, in order.
pub fn admits(fields: &Fields, values: &Vec<Instance>) -> (r: bool)
    ensures
        r == fields_conform(*fields, instance_models(values@)),
    decreases fields, 0nat,
{
    proof {
        lemma_instance_models(values@);
    }
    let ghost models = instance_models(values@);
    let count = fields.len();
    if values.len() != count {
        return false;
    }
    let mut i: usize = 0;
    while i < count
        invariant
            i <= count,
            count == fields.count(),
            count == values@.len(),
            models == instance_models(values@),
            models.len() == values@.len(),
            forall|k: int| 0 <= k < values@.len() ==> (#[trigger] models[k]) == values@[k]@,
            forall|k: int| 0 <= k < i ==> conforms(fields.ty(k), #[trigger] models[k]),
        decreases count - i,
    {
        if !fields.type_of(i).admits(&values[i]) {
            assert(!conforms(fields.ty(i as int), models[i as int]));
            return false;
        }
        i += 1;
    }
    true
}

/// Whether `fields` is well formed.
pub fn well_formed(fields: &Fields) -> (r: bool)
    ensures
        r == fields.wf(),
    decreases fields, 0nat,
{
    match fields {
        Fields::Named(fs) => {
            if !distinct_names(fs) {
                return false;
            }
        },
        _ => {},
    }
    let count = fields.len();
    let mut i: usize = 0;
    while i < count
        invariant
            i <= count,
            count == fields.count(),
            forall|k: int| 0 <= k < i ==> (#[trigger] fields.ty(k)).wf(),
        decreases count - i,
    {
        if !fields.type_of(i).well_formed() {
            return false;
        }
        i += 1;
    }
    true
}

/// Whether the shape of every one of `fields` is faithful.
pub fn faithful(fields: &Fields) -> (r: bool)
    ensures
        r == fields.faithful(),
    decreases fields, 0nat,
{
    let count = fields.len();
    let mut i: usize = 0;
    while i < count
        invariant
            i <= count,
            count == fields.count(),
            forall|k: int| 0 <= k < i ==> (#[trigger] fields.ty(k)).faithful(),
        decreases count - i,
    {
        if !fields.type_of(i).is_faithful() {
            return false;
        }
        i += 1;
    }
    true
}

} // verus!
