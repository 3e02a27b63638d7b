//! The codec of a tagged union.

use crate::error::{
    error_models, JsonableError, lemma_error_models, lemma_error_models_push, outcome, texts,
};
use crate::instance::{Instance, instance_models, lemma_instance_models};
use crate::lemmas::{
    lemma_decode_fields, lemma_decode_tuple, lemma_encode_tuple, lemma_find_variant,
    lemma_named_errors_none, lemma_tuple_errors_none, variant_matches,
};
use crate::rules::{
    check_payload, conforms, decode_fields, decode_payload, decode_spec, decode_tuple, encode_spec,
    encode_tuple, encode_variant, fields_conform, find_variant, named_errors, tuple_errors,
    union_check, union_decode, union_encode, unit_names,
};
use crate::shape::{distinct_field_names, distinct_variant_names, Fields, Shape, Variant};
use crate::structs::{distinct_names, encode_members};
use crate::value::{Json, member, Object, Value};
use vstd::pervasive::unreached;
use vstd::prelude::*;

verus! {

/// Why the fields of a variant cannot be given a codec, if they cannot:
/// named fields have to have distinct names, and positional fields have to
/// be one at least.
pub open spec fn fields_refusal(fields: Fields) -> Option<Seq<char>> {
    match fields {
        Fields::Named(fs) => if distinct_field_names(fs@) {
            None
        } else {
            Some("duplicate field name"@)
        },
        Fields::Unnamed(ts) => if ts@.len() >= 1 {
            None
        } else {
            Some("variant without positional fields"@)
        },
        Fields::Unit => None,
    }
}

/// Why the first of the first `n` variants that cannot be given a codec
/// cannot, if there is one.
pub open spec fn variants_refusal(variants: Seq<Variant>, n: nat) -> Option<Seq<char>>
    decreases n,
{
    if n == 0 || n > variants.len() {
        None
    } else {
        match variants_refusal(variants, (n - 1) as nat) {
            Some(reason) => Some(reason),
            None => fields_refusal(variants[n - 1].fields),
        }
    }
}

/// Why a union with the variants `variants` has no shape, if it has none:
/// two variants share a name, or a variant cannot be given a codec.
pub open spec fn refusal(variants: Seq<Variant>) -> Option<Seq<char>> {
    if !distinct_variant_names(variants) {
        Some("duplicate variant name"@)
    } else {
        variants_refusal(variants, variants.len())
    }
}

/// Whether every field of every one of `variants` has a well-formed shape.
pub open spec fn variant_fields_wf(variants: Seq<Variant>) -> bool {
    forall|k: int, i: int|
        0 <= k < variants.len() && 0 <= i < variants[k].fields.count() ==> (
        #[trigger] variants[k].fields.ty(i)).wf()
}

/// Where none of the first `n` variants is refused, each of them can be
/// given a codec.
pub proof fn lemma_variants_accepted(variants: Seq<Variant>, n: nat, k: int)
    requires
        n <= variants.len(),
        variants_refusal(variants, n) is None,
        0 <= k < n,
    ensures
        fields_refusal(variants[k].fields) is None,
    decreases n,
{
    if k < n - 1 {
        lemma_variants_accepted(variants, (n - 1) as nat, k);
    }
}

/// Whether no two of `variants` share a name.
fn distinct_variants(variants: &Vec<Variant>) -> (r: bool)
    ensures
        r == distinct_variant_names(variants@),
{
    let mut j: usize = 0;
    while j < variants.len()
        invariant
            j <= variants.len(),
            forall|a: int, b: int|
                0 <= a < b < j ==> (#[trigger] variants@[a]).ident@ != (
                #[trigger] variants@[b]).ident@,
        decreases variants.len() - j,
    {
        let mut i: usize = 0;
        while i < j
            invariant
                i <= j < variants.len(),
                forall|a: int|
                    0 <= a < i ==> (#[trigger] variants@[a]).ident@ != variants@[j as int].ident@,
            decreases j - i,
        {
            if variants[i].ident == variants[j].ident {
                return false;
            }
            i += 1;
        }
        j += 1;
    }
    true
}

/// Checks a variant with named fields: no two of them may share a name.
fn implement_named(variant: &Variant) -> (r: Result<(), String>)
    requires
        variant.fields is Named,
    ensures
        match r {
            Ok(_) => fields_refusal(variant.fields) is None,
            Err(reason) => fields_refusal(variant.fields) == Some(reason@),
        },
{
    match &variant.fields {
        Fields::Named(fs) => {
            if distinct_names(fs) {
                Ok(())
            } else {
                Err("duplicate field name".to_string())
            }
        },
        _ => Ok(()),
    }
}

/// Checks a variant with positional fields: there has to be at least one.
fn implement_unnamed(variant: &Variant) -> (r: Result<(), String>)
    requires
        variant.fields is Unnamed,
    ensures
        match r {
            Ok(_) => fields_refusal(variant.fields) is None,
            Err(reason) => fields_refusal(variant.fields) == Some(reason@),
        },
{
    if variant.fields.len() == 0 {
        Err("variant without positional fields".to_string())
    } else {
        Ok(())
    }
}

/// The shape of the union `identifier` with the variants `variants`, or why
/// there is none. No two variants may share a name, no two named fields of
/// one variant may share a name, and a variant with positional fields has to
/// have one at least. Where the fields' shapes are well formed, so is the
/// union's.
pub fn implement(identifier: &String, variants: Vec<Variant>) -> (r: Result<Shape, String>)
    ensures
        match r {
            Ok(shape) => {
                &&& refusal(variants@) is None
                &&& shape == Shape::Enum(*identifier, variants)
                &&& variant_fields_wf(variants@) ==> shape.wf()
            },
            Err(reason) => refusal(variants@) == Some(reason@),
        },
{
    if !distinct_variants(&variants) {
        return Err("duplicate variant name".to_string());
    }
    let mut k: usize = 0;
    while k < variants.len()
        invariant
            k <= variants.len(),
            distinct_variant_names(variants@),
            variants_refusal(variants@, k as nat) is None,
        decreases variants.len() - k,
    {
        let checked = match &variants[k].fields {
            Fields::Named(_) => implement_named(&variants[k]),
            Fields::Unnamed(_) => implement_unnamed(&variants[k]),
            Fields::Unit => Ok(()),
        };
        proof {
            assert(variants_refusal(variants@, (k + 1) as nat) == fields_refusal(
                variants@[k as int].fields,
            ));
        }
        match checked {
            Ok(_) => {},
            Err(reason) => {
                proof {
                    lemma_variants_refusal_stays(variants@, (k + 1) as nat, variants@.len());
                }
                return Err(reason);
            },
        }
        k += 1;
    }
    let shape = Shape::Enum(identifier.clone(), variants);
    proof {
        if variant_fields_wf(variants@) {
            assert forall|a: int| 0 <= a < variants@.len() implies (#[trigger] variants[a]).wf() by {
                let fields = variants@[a].fields;
                lemma_variants_accepted(variants@, variants@.len(), a);
                assert forall|i: int| 0 <= i < fields.count() implies (#[trigger] fields.ty(
                    i,
                )).wf() by {
                    assert(variants@[a].fields.ty(i).wf());
                }
                assert(fields.wf());
            }
            assert(shape.wf());
        }
    }
    Ok(shape)
}

/// Once a variant is refused, the variants after it change nothing.
pub proof fn lemma_variants_refusal_stays(variants: Seq<Variant>, n: nat, m: nat)
    requires
        n <= m <= variants.len(),
        variants_refusal(variants, n) is Some,
    ensures
        variants_refusal(variants, m) == variants_refusal(variants, n),
    decreases m,
{
    if n < m {
        lemma_variants_refusal_stays(variants, n, (m - 1) as nat);
    }
}

/// Whether `fields` is the unit case.
fn is_unit(fields: &Fields) -> (r: bool)
    ensures
        r == (*fields is Unit),
{
    match fields {
        Fields::Unit => true,
        _ => false,
    }
}

/// The index of the first variant that is named `name` and is a unit variant
/// (`unit`) or a variant with fields (`!unit`).
pub fn find(variants: &Vec<Variant>, name: &String, unit: bool) -> (found: Option<usize>)
    ensures
        match found {
            Some(k) => {
                &&& k < variants@.len()
                &&& variant_matches(variants@[k as int], name@, unit)
                &&& find_variant(variants@, name@, unit, variants@.len()) == Some(k as int)
            },
            None => find_variant(variants@, name@, unit, variants@.len()) is None,
        },
{
    let mut i: usize = 0;
    while i < variants.len()
        invariant
            i <= variants.len(),
            forall|j: int| 0 <= j < i ==> !variant_matches(#[trigger] variants@[j], name@, unit),
        decreases variants.len() - i,
    {
        if variants[i].ident == *name && is_unit(&variants[i].fields) == unit {
            proof {
                lemma_find_variant(variants@, name@, unit, variants@.len());
            }
            return Some(i);
        }
        i += 1;
    }
    proof {
        lemma_find_variant(variants@, name@, unit, variants@.len());
    }
    None
}

/// The names of the unit variants, in declared order.
pub fn expected_names(variants: &Vec<Variant>) -> (names: Vec<String>)
    ensures
        texts(names@) == unit_names(variants@, variants@.len()),
{
    let mut names: Vec<String> = Vec::new();
    let mut i: usize = 0;
    assert(texts(names@) =~= unit_names(variants@, 0));
    while i < variants.len()
        invariant
            i <= variants.len(),
            texts(names@) == unit_names(variants@, i as nat),
        decreases variants.len() - i,
    {
        if is_unit(&variants[i].fields) {
            let ghost before = names@;
            names.push(variants[i].ident.clone());
            assert(texts(names@) =~= texts(before).push(variants@[i as int].ident@));
        }
        i += 1;
    }
    names
}

/// Validates `json` as an instance of the union `ident`.
pub fn validate(ident: &String, variants: &Vec<Variant>, json: &Value) -> (r: Result<
    (),
    JsonableError,
>)
    ensures
        outcome(r) == union_check(ident@, *variants, json@),
    decreases variants, 0nat,
{
    match json {
        Value::String(s) => match find(variants, s, true) {
            Some(_) => Ok(()),
            None => Err(
                JsonableError::InvalidEnumStringVariant {
                    enum_type: ident.clone(),
                    got: s.clone(),
                    expected: expected_names(variants),
                },
            ),
        },
        Value::Object(object) => {
            proof {
                Value::lemma_view_object(*object);
            }
            if object.len() != 1 {
                Err(
                    JsonableError::IncorrectObjectKeyCountForEnum {
                        ty: ident.clone(),
                        count: object.len(),
                    },
                )
            } else {
                match find(variants, &object.entries[0].0, false) {
                    Some(k) => validate_payload(ident, &variants[k], &object.entries[0].1),
                    None => Err(
                        JsonableError::IncorrectKeyForEnum {
                            ty: ident.clone(),
                            key: object.entries[0].0.clone(),
                        },
                    ),
                }
            }
        },
        other => Err(JsonableError::mismatch(other.kind(), "object or string")),
    }
}

/// Validates `inner` as the payload of `variant`.
fn validate_payload(enum_name: &String, variant: &Variant, inner: &Value) -> (r: Result<
    (),
    JsonableError,
>)
    ensures
        outcome(r) == check_payload(enum_name@, *variant, inner@),
    decreases variant, 0nat,
{
    match &variant.fields {
        Fields::Unit => Ok(()),
        Fields::Named(_) => validate_named(enum_name, variant, inner),
        Fields::Unnamed(ts) => {
            if ts.len() == 1 {
                match ts[0].validate_json(inner) {
                    Ok(_) => Ok(()),
                    Err(e) => Err(
                        JsonableError::inside(
                            variant.ident.clone(),
                            JsonableError::inside(ts[0].to_name(), e),
                        ),
                    ),
                }
            } else {
                validate_unnamed(enum_name, variant, inner)
            }
        },
    }
}

/// All of `errors` under the union's name, or `Ok` where there are none.
fn all_or_nothing(enum_name: &String, errors: Vec<JsonableError>) -> (r: Result<(), JsonableError>)
    ensures
        outcome(r) == crate::rules::all_or_nothing(enum_name@, error_models(errors@)),
{
    proof {
        lemma_error_models(errors@);
    }
    if errors.len() > 0 {
        Err(JsonableError::InnerErrorsForType { ty: enum_name.clone(), errors })
    } else {
        Ok(())
    }
}

/// Validates `inner` as the payload of a variant with named fields: an
/// object with as many members as the variant has fields. Every field is
/// checked, and all that fail are reported together.
fn validate_named(enum_name: &String, variant: &Variant, inner: &Value) -> (r: Result<
    (),
    JsonableError,
>)
    requires
        variant.fields is Named,
    ensures
        outcome(r) == check_payload(enum_name@, *variant, inner@),
    decreases variant.fields, 0nat,
{
    match inner {
        Value::Object(object) => {
            proof {
                Value::lemma_view_object(*object);
            }
            let count = variant.fields.len();
            if object.len() != count {
                Err(
                    JsonableError::IncorrectFieldCountForEnum {
                        enum_type: enum_name.clone(),
                        variant: variant.ident.clone(),
                        count,
                    },
                )
            } else {
                let mut errors: Vec<JsonableError> = Vec::new();
                let mut i: usize = 0;
                assert(error_models(errors@) =~= named_errors(
                    variant.fields,
                    object@,
                    variant.ident@,
                    0,
                ));
                while i < count
                    invariant
                        i <= count,
                        count == variant.fields.count(),
                        error_models(errors@) == named_errors(
                            variant.fields,
                            object@,
                            variant.ident@,
                            i as nat,
                        ),
                    decreases count - i,
                {
                    let key = variant.fields.key_of(i);
                    let ghost before = errors@;
                    match object.get(&key) {
                        Some(value) => match variant.fields.type_of(i).validate_json(value) {
                            Ok(_) => {},
                            Err(e) => {
                                let wrapped = JsonableError::inside(
                                    variant.fields.type_of(i).to_name(),
                                    e,
                                );
                                proof {
                                    lemma_error_models_push(before, wrapped);
                                }
                                errors.push(wrapped);
                            },
                        },
                        None => {
                            let missing = JsonableError::MissingKeyForEnumVariant {
                                variant: variant.ident.clone(),
                                key,
                            };
                            proof {
                                lemma_error_models_push(before, missing);
                            }
                            errors.push(missing);
                        },
                    }
                    i += 1;
                }
                all_or_nothing(enum_name, errors)
            }
        },
        _ => Err(JsonableError::mismatch("other", "object")),
    }
}

/// Validates `inner` as the payload of a variant with two or more positional
/// fields: an array with one item for each field, in order. Every field is
/// checked, and all that fail are reported together.
fn validate_unnamed(enum_name: &String, variant: &Variant, inner: &Value) -> (r: Result<
    (),
    JsonableError,
>)
    requires
        variant.fields is Unnamed,
        variant.fields.count() != 1,
    ensures
        outcome(r) == check_payload(enum_name@, *variant, inner@),
    decreases variant.fields, 0nat,
{
    match inner {
        Value::Array(items) => {
            proof {
                Value::lemma_view_array(*items);
            }
            let count = variant.fields.len();
            if items.len() != count {
                Err(
                    JsonableError::IncorrectFieldCountForEnum {
                        enum_type: enum_name.clone(),
                        variant: variant.ident.clone(),
                        count,
                    },
                )
            } else {
                let mut errors: Vec<JsonableError> = Vec::new();
                let mut i: usize = 0;
                assert(error_models(errors@) =~= tuple_errors(variant.fields, inner@->Array_0, 0));
                while i < count
                    invariant
                        i <= count,
                        count == variant.fields.count(),
                        count == items@.len(),
                        inner@ is Array,
                        inner@->Array_0.len() == items@.len(),
                        forall|k: int|
                            0 <= k < items@.len() ==> (#[trigger] inner@->Array_0[k])
                                == items@[k]@,
                        error_models(errors@) == tuple_errors(
                            variant.fields,
                            inner@->Array_0,
                            i as nat,
                        ),
                    decreases count - i,
                {
                    let ghost before = errors@;
                    match variant.fields.type_of(i).validate_json(&items[i]) {
                        Ok(_) => {},
                        Err(e) => {
                            let wrapped = JsonableError::inside(
                                variant.fields.type_of(i).to_name(),
                                e,
                            );
                            proof {
                                lemma_error_models_push(before, wrapped);
                            }
                            errors.push(wrapped);
                        },
                    }
                    i += 1;
                }
                all_or_nothing(enum_name, errors)
            }
        },
        _ => Err(JsonableError::mismatch("other", "array")),
    }
}

/// Decodes the instance of a union that `json` stands for: a string is the
/// unit variant it names; an object is the variant that its key names, with
/// the payload under that key.
pub fn decode(ident: &String, variants: &Vec<Variant>, json: &Value) -> (d: Instance)
    requires
        union_check(ident@, *variants, json@) is Ok,
    ensures
        d@ == union_decode(*variants, json@),
    decreases variants, 0nat,
{
    match json {
        Value::String(s) => match find(variants, s, true) {
            Some(k) => {
                let fields: Vec<Instance> = Vec::new();
                assert(instance_models(fields@) =~= Seq::empty());
                Instance::Variant(k, fields)
            },
            None => unreached(),
        },
        Value::Object(object) => {
            proof {
                Value::lemma_view_object(*object);
            }
            if object.len() != 1 {
                unreached()
            } else {
                match find(variants, &object.entries[0].0, false) {
                    Some(k) => Instance::Variant(
                        k,
                        decode_fields_of(ident, &variants[k], &object.entries[0].1),
                    ),
                    None => unreached(),
                }
            }
        },
        _ => unreached(),
    }
}

/// Decodes the field values of `variant` from its payload `inner`.
fn decode_fields_of(enum_name: &String, variant: &Variant, inner: &Value) -> (out: Vec<Instance>)
    requires
        !(variant.fields is Unit),
        check_payload(enum_name@, *variant, inner@) is Ok,
    ensures
        instance_models(out@) == decode_payload(variant.fields, inner@),
    decreases variant, 0nat,
{
    match &variant.fields {
        Fields::Unit => unreached(),
        Fields::Named(_) => decode_named(enum_name, variant, inner),
        Fields::Unnamed(ts) => {
            if ts.len() == 1 {
                let mut out: Vec<Instance> = Vec::new();
                let d = ts[0].decode(inner);
                out.push(d);
                proof {
                    lemma_instance_models(out@);
                    assert(instance_models(out@) =~= seq![decode_spec(variant.fields.ty(0), inner@)]);
                }
                out
            } else {
                decode_unnamed(enum_name, variant, inner)
            }
        },
    }
}

/// Decodes the named fields of `variant` from the object `inner`.
fn decode_named(enum_name: &String, variant: &Variant, inner: &Value) -> (out: Vec<Instance>)
    requires
        variant.fields is Named,
        check_payload(enum_name@, *variant, inner@) is Ok,
    ensures
        instance_models(out@) == decode_payload(variant.fields, inner@),
    decreases variant.fields, 0nat,
{
    match inner {
        Value::Object(object) => {
            proof {
                Value::lemma_view_object(*object);
            }
            let count = variant.fields.len();
            let mut out: Vec<Instance> = Vec::new();
            let mut i: usize = 0;
            while i < count
                invariant
                    i <= count,
                    count == variant.fields.count(),
                    out@.len() == i,
                    named_errors(variant.fields, object@, variant.ident@, count as nat).len() == 0,
                    forall|k: int|
                        0 <= k < i ==> (#[trigger] out@[k])@ == decode_spec(
                            variant.fields.ty(k),
                            member(object@, variant.fields.key(k)),
                        ),
                decreases count - i,
            {
                let key = variant.fields.key_of(i);
                proof {
                    lemma_named_errors_none(
                        variant.fields,
                        object@,
                        variant.ident@,
                        count as nat,
                        i as int,
                    );
                }
                match object.get(&key) {
                    Some(value) => {
                        let d = variant.fields.type_of(i).decode(value);
                        out.push(d);
                    },
                    None => unreached(),
                }
                i += 1;
            }
            proof {
                lemma_instance_models(out@);
                lemma_decode_fields(variant.fields, object@, count as nat);
                assert(instance_models(out@) =~= decode_fields(
                    variant.fields,
                    object@,
                    count as nat,
                ));
            }
            out
        },
        _ => unreached(),
    }
}

/// Decodes two or more positional fields of `variant` from the array
/// `inner`: field `i` from item `i`.
fn decode_unnamed(enum_name: &String, variant: &Variant, inner: &Value) -> (out: Vec<Instance>)
    requires
        variant.fields is Unnamed,
        variant.fields.count() != 1,
        check_payload(enum_name@, *variant, inner@) is Ok,
    ensures
        instance_models(out@) == decode_payload(variant.fields, inner@),
    decreases variant.fields, 0nat,
{
    match inner {
        Value::Array(items) => {
            proof {
                Value::lemma_view_array(*items);
            }
            let ghost models = inner@->Array_0;
            let count = variant.fields.len();
            let mut out: Vec<Instance> = Vec::new();
            let mut i: usize = 0;
            while i < count
                invariant
                    i <= count,
                    count == variant.fields.count(),
                    count == items@.len(),
                    out@.len() == i,
                    models.len() == items@.len(),
                    forall|k: int| 0 <= k < items@.len() ==> (#[trigger] models[k]) == items@[k]@,
                    tuple_errors(variant.fields, models, count as nat).len() == 0,
                    forall|k: int|
                        0 <= k < i ==> (#[trigger] out@[k])@ == decode_spec(
                            variant.fields.ty(k),
                            models[k],
                        ),
                decreases count - i,
            {
                proof {
                    lemma_tuple_errors_none(variant.fields, models, count as nat, i as int);
                }
                let d = variant.fields.type_of(i).decode(&items[i]);
                out.push(d);
                i += 1;
            }
            proof {
                lemma_instance_models(out@);
                lemma_decode_tuple(variant.fields, models, count as nat);
                assert(instance_models(out@) =~= decode_tuple(variant.fields, models, count as nat));
            }
            out
        },
        _ => unreached(),
    }
}

/// Encodes an instance of a union: a unit variant as its bare name, any
/// other variant as an object whose one key is the variant's name.
pub fn encode(variants: &Vec<Variant>, d: &Instance) -> (json: Value)
    requires
        d@ is Variant,
        0 <= d@->Variant_0 < variants@.len(),
        fields_conform(variants@[d@->Variant_0].fields, d@->Variant_1),
    ensures
        json@ == union_encode(*variants, d@),
    decreases variants, 0nat,
{
    match d {
        Instance::Variant(k, values) => encode_one(&variants[*k], values),
        _ => unreached(),
    }
}

/// The object whose one member is `payload` under `key`.
fn tagged(key: &String, payload: Value) -> (json: Value)
    ensures
        json@ == Json::Object(seq![(key@, payload@)]),
{
    let mut entries: Vec<(String, Value)> = Vec::new();
    entries.push((key.clone(), payload));
    let object = Object { entries };
    proof {
        Value::lemma_view_object(object);
        assert(object@ =~= seq![(key@, payload@)]);
    }
    Value::Object(object)
}

/// Encodes the variant `variant` with the field values `values`.
fn encode_one(variant: &Variant, values: &Vec<Instance>) -> (json: Value)
    requires
        fields_conform(variant.fields, instance_models(values@)),
    ensures
        json@ == encode_variant(*variant, instance_models(values@)),
    decreases variant, 0nat,
{
    proof {
        lemma_instance_models(values@);
    }
    match &variant.fields {
        Fields::Unit => Value::String(variant.ident.clone()),
        Fields::Named(_) => {
            let object = encode_members(&variant.fields, values);
            proof {
                Value::lemma_view_object(object);
            }
            tagged(&variant.ident, Value::Object(object))
        },
        Fields::Unnamed(ts) => {
            if ts.len() == 1 {
                assert(conforms(variant.fields.ty(0), instance_models(values@)[0]));
                tagged(&variant.ident, ts[0].to_json(&values[0]))
            } else {
                tagged(&variant.ident, encode_unnamed(&variant.fields, values))
            }
        },
    }
}

/// Encodes positional fields as an array with one item for each field, in
/// field order.
fn encode_unnamed(fields: &Fields, values: &Vec<Instance>) -> (json: Value)
    requires
        fields_conform(*fields, instance_models(values@)),
    ensures
        json@ == Json::Array(encode_tuple(*fields, instance_models(values@), fields.count())),
    decreases fields, 0nat,
{
    proof {
        lemma_instance_models(values@);
    }
    let ghost models = instance_models(values@);
    let count = fields.len();
    let mut out: Vec<Value> = Vec::new();
    let mut i: usize = 0;
    while i < count
        invariant
            i <= count,
            count == fields.count(),
            count == values@.len(),
            out@.len() == i,
            models.len() == values@.len(),
            forall|k: int| 0 <= k < values@.len() ==> (#[trigger] models[k]) == values@[k]@,
            fields_conform(*fields, models),
            forall|k: int|
                0 <= k < i ==> (#[trigger] out@[k])@ == encode_spec(fields.ty(k), models[k]),
        decreases count - i,
    {
        assert(conforms(fields.ty(i as int), models[i as int]));
        let v = fields.type_of(i).to_json(&values[i]);
        out.push(v);
        i += 1;
    }
    proof {
        Value::lemma_view_array(out);
        lemma_encode_tuple(*fields, models, count as nat);
        assert(Value::Array(out)@->Array_0 =~= encode_tuple(*fields, models, count as nat));
    }
    Value::Array(out)
}

/// Whether the union with the variants `variants` is well formed.
pub fn well_formed(variants: &Vec<Variant>) -> (r: bool)
    ensures
        r == (distinct_variant_names(variants@) && forall|k: int|
            0 <= k < variants@.len() ==> (#[trigger] variants@[k]).wf()),
    decreases variants, 0nat,
{
    if !distinct_variants(variants) {
        return false;
    }
    let mut k: usize = 0;
    while k < variants.len()
        invariant
            k <= variants.len(),
            forall|a: int| 0 <= a < k ==> (#[trigger] variants@[a]).wf(),
        decreases variants.len() - k,
    {
        let unnamed_empty = match &variants[k].fields {
            Fields::Unnamed(ts) => ts.len() == 0,
            _ => false,
        };
        if unnamed_empty || !crate::structs::well_formed(&variants[k].fields) {
            assert(!variants@[k as int].wf());
            return false;
        }
        assert(variants@[k as int].wf());
        k += 1;
    }
    true
}

/// Whether the shape of every field of every one of `variants` is faithful.
pub fn faithful(variants: &Vec<Variant>) -> (r: bool)
    ensures
        r == (forall|k: int| 0 <= k < variants@.len() ==> (#[trigger] variants@[k]).faithful()),
    decreases variants, 0nat,
{
    let mut k: usize = 0;
    while k < variants.len()
        invariant
            k <= variants.len(),
            forall|a: int| 0 <= a < k ==> (#[trigger] variants@[a]).faithful(),
        decreases variants.len() - k,
    {
        if !crate::structs::faithful(&variants[k].fields) {
            assert(!variants@[k as int].faithful());
            return false;
        }
        assert(variants@[k as int].faithful());
        k += 1;
    }
    true
}

} // verus!
