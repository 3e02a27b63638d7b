//! The codec of a shape, as mathematics: what validation answers, what
//! decoding yields and what encoding produces, for every shape and value.
//!
//! The executable codecs are proved against these functions, and the laws of
//! the library are stated over them.

use crate::error::ErrorModel;
use crate::instance::InstanceModel;
use crate::number::Number;
use crate::shape::{Fields, Shape, Variant};
use crate::value::{distinct_keys, Json, key_index, lookup, member};
use vstd::prelude::*;

verus! {

/// The report that `j` is of another kind than the `expected` one.
pub open spec fn mismatch(j: Json, expected: Seq<char>) -> ErrorModel {
    ErrorModel::IncompatibleJsonType { got: j.kind(), expected }
}

/// A failure, wrapped with the name of the type it was found in.
pub open spec fn inside(ty: Seq<char>, e: ErrorModel) -> ErrorModel {
    ErrorModel::InnerErrorForType { ty, error: Box::new(e) }
}

/// The index of the first of the first `n` variants that is named `name` and
/// is a unit variant (`unit`) or a variant with fields (`!unit`).
pub open spec fn find_variant(variants: Seq<Variant>, name: Seq<char>, unit: bool, n: nat) -> Option<
    int,
>
    decreases n,
{
    if n == 0 || n > variants.len() {
        None
    } else {
        match find_variant(variants, name, unit, (n - 1) as nat) {
            Some(k) => Some(k),
            None => if variants[n - 1].ident@ == name && (variants[n - 1].fields is Unit) == unit {
                Some(n - 1)
            } else {
                None
            },
        }
    }
}

/// The names of the unit variants among the first `n` variants, in order.
pub open spec fn unit_names(variants: Seq<Variant>, n: nat) -> Seq<Seq<char>>
    decreases n,
{
    if n == 0 || n > variants.len() {
        Seq::empty()
    } else if variants[n - 1].fields is Unit {
        unit_names(variants, (n - 1) as nat).push(variants[n - 1].ident@)
    } else {
        unit_names(variants, (n - 1) as nat)
    }
}

/// The first `n` elements of `s`, each kept where it occurs first and
/// dropped where it occurs again.
pub open spec fn first_occurrences<A>(s: Seq<A>, n: nat) -> Seq<A>
    decreases n,
{
    if n == 0 || n > s.len() {
        Seq::empty()
    } else {
        let before = first_occurrences(s, (n - 1) as nat);
        if before.contains(s[n - 1]) {
            before
        } else {
            before.push(s[n - 1])
        }
    }
}

/// The first `n` of `entries`, each kept where its key occurs first and
/// dropped where the key occurs again.
pub open spec fn first_of_each_key<V>(entries: Seq<(Seq<char>, V)>, n: nat) -> Seq<
    (Seq<char>, V),
>
    decreases n,
{
    if n == 0 || n > entries.len() {
        Seq::empty()
    } else {
        let before = first_of_each_key(entries, (n - 1) as nat);
        if key_index(before, entries[n - 1].0) is Some {
            before
        } else {
            before.push(entries[n - 1])
        }
    }
}

/// What validation answers for the value `j` under `shape`: `Ok`, or the
/// failure to report.
pub open spec fn validate_spec(shape: Shape, j: Json) -> Result<(), ErrorModel>
    decreases shape, 0nat,
{
    match shape {
        Shape::Text => if j is String {
            Ok(())
        } else {
            Err(mismatch(j, "string"@))
        },
        Shape::Number(_) => if j is Number {
            Ok(())
        } else {
            Err(mismatch(j, "number"@))
        },
        Shape::Optional(inner) => if j is Null {
            Ok(())
        } else {
            validate_spec(*inner, j)
        },
        Shape::Sequence(inner) => match j {
            Json::Array(items) => if items_valid(*inner, items) {
                Ok(())
            } else {
                Err(ErrorModel::IncompatibleEntryForType(inner.name()))
            },
            _ => Err(mismatch(j, "array"@)),
        },
        Shape::HashSet(inner) => match j {
            Json::Array(items) => if items_valid(*inner, items) {
                Ok(())
            } else {
                Err(ErrorModel::IncompatibleEntryForType(inner.name()))
            },
            _ => Err(mismatch(j, "array"@)),
        },
        Shape::Array(inner, n) => match j {
            Json::Array(items) => if items.len() != n {
                Err(ErrorModel::InvalidArrayLength { got: items.len() as int, expected: n as int })
            } else if items_valid(*inner, items) {
                Ok(())
            } else {
                Err(ErrorModel::IncompatibleEntryForType(inner.name()))
            },
            _ => Err(mismatch(j, "array"@)),
        },
        Shape::HashMap(inner) => match j {
            Json::Object(entries) => if entries_valid(*inner, entries) {
                Ok(())
            } else {
                Err(ErrorModel::IncompatibleEntryForType(inner.name()))
            },
            _ => Err(mismatch(j, "object"@)),
        },
        Shape::Struct(_, fields) => record_check(fields, j),
        Shape::Enum(ident, variants) => union_check(ident@, variants, j),
    }
}

/// What validation answers for `j` under a record with the fields `fields`:
/// an object is checked field by field, anything else is of the wrong kind.
pub open spec fn record_check(fields: Fields, j: Json) -> Result<(), ErrorModel>
    decreases fields, fields.count() + 1,
{
    match j {
        Json::Object(entries) => check_fields(fields, entries, fields.count()),
        _ => Err(mismatch(j, "object"@)),
    }
}

/// What validation answers for `j` under the union `enum_name` with the
/// variants `variants`: a string has to name a unit variant; an object has to
/// have one member, whose key names the first variant with fields of that
/// name and whose value is that variant's payload.
pub open spec fn union_check(enum_name: Seq<char>, variants: Vec<Variant>, j: Json) -> Result<
    (),
    ErrorModel,
>
    decreases variants, 0nat,
{
    match j {
        Json::String(s) => match find_variant(variants@, s, true, variants@.len()) {
            Some(_) => Ok(()),
            None => Err(
                ErrorModel::InvalidEnumStringVariant {
                    enum_type: enum_name,
                    got: s,
                    expected: unit_names(variants@, variants@.len()),
                },
            ),
        },
        Json::Object(entries) => if entries.len() != 1 {
            Err(
                ErrorModel::IncorrectObjectKeyCountForEnum {
                    ty: enum_name,
                    count: entries.len() as int,
                },
            )
        } else {
            match find_variant(variants@, entries[0].0, false, variants@.len()) {
                Some(k) => if 0 <= k < variants@.len() {
                    check_payload(enum_name, variants[k], entries[0].1)
                } else {
                    Ok(())
                },
                None => Err(ErrorModel::IncorrectKeyForEnum { ty: enum_name, key: entries[0].0 }),
            }
        },
        _ => Err(mismatch(j, "object or string"@)),
    }
}

/// Whether every one of `items` is valid under `inner`.
pub open spec fn items_valid(inner: Shape, items: Seq<Json>) -> bool
    decreases inner, 1nat,
{
    forall|i: int| 0 <= i < items.len() ==> validate_spec(inner, #[trigger] items[i]) is Ok
}

/// Whether the value of every one of `entries` is valid under `inner`.
pub open spec fn entries_valid(inner: Shape, entries: Seq<(Seq<char>, Json)>) -> bool
    decreases inner, 1nat,
{
    forall|i: int|
        0 <= i < entries.len() ==> validate_spec(inner, (#[trigger] entries[i]).1) is Ok
}

/// What validation answers for the first `n` fields of a record stored in
/// the object `entries`: the failure of the first field that is not valid,
/// wrapped with the name of that field's type. A field without a member is
/// validated as null.
pub open spec fn check_fields(fields: Fields, entries: Seq<(Seq<char>, Json)>, n: nat) -> Result<
    (),
    ErrorModel,
>
    decreases fields, n,
{
    if n == 0 || n > fields.count() {
        Ok(())
    } else {
        match check_fields(fields, entries, (n - 1) as nat) {
            Err(e) => Err(e),
            Ok(_) => match validate_spec(
                fields.ty(n - 1),
                member(entries, fields.key(n - 1)),
            ) {
                Ok(_) => Ok(()),
                Err(e) => Err(inside(fields.ty(n - 1).name(), e)),
            },
        }
    }
}

/// The failures among the first `n` named fields of the variant `variant`
/// stored in the object `entries`, in field order: a field without a member
/// is missing, one with a member that is not valid fails with the name of
/// its type.
pub open spec fn named_errors(
    fields: Fields,
    entries: Seq<(Seq<char>, Json)>,
    variant: Seq<char>,
    n: nat,
) -> Seq<ErrorModel>
    decreases fields, n,
{
    if n == 0 || n > fields.count() {
        Seq::empty()
    } else {
        let before = named_errors(fields, entries, variant, (n - 1) as nat);
        match lookup(entries, fields.key(n - 1)) {
            None => before.push(
                ErrorModel::MissingKeyForEnumVariant { variant, key: fields.key(n - 1) },
            ),
            Some(j) => match validate_spec(fields.ty(n - 1), j) {
                Ok(_) => before,
                Err(e) => before.push(inside(fields.ty(n - 1).name(), e)),
            },
        }
    }
}

/// The failures among the first `n` positional fields stored in the array
/// `items`, in field order, each with the name of the field's type.
pub open spec fn tuple_errors(fields: Fields, items: Seq<Json>, n: nat) -> Seq<ErrorModel>
    decreases fields, n,
{
    if n == 0 || n > fields.count() || n > items.len() {
        Seq::empty()
    } else {
        let before = tuple_errors(fields, items, (n - 1) as nat);
        match validate_spec(fields.ty(n - 1), items[n - 1]) {
            Ok(_) => before,
            Err(e) => before.push(inside(fields.ty(n - 1).name(), e)),
        }
    }
}

/// `Ok` where `errors` is empty, else all of them under the union's name.
pub open spec fn all_or_nothing(enum_name: Seq<char>, errors: Seq<ErrorModel>) -> Result<
    (),
    ErrorModel,
> {
    if errors.len() == 0 {
        Ok(())
    } else {
        Err(ErrorModel::InnerErrorsForType { ty: enum_name, errors })
    }
}

/// What validation answers for the payload `inner` of the variant `variant`
/// of the union `enum_name`.
///
/// Named fields want an object with as many members as there are fields,
/// and two or more positional fields an array with as many items; another
/// kind of value is reported without a look at what it is, as `other`. The
/// count reported with a wrong number of members or items is the number of
/// fields that the variant declares. All fields are then checked, and those
/// that fail are reported together. One positional field is stored bare: its
/// failure is wrapped with the name of its type and then with the name of
/// the variant.
pub open spec fn check_payload(enum_name: Seq<char>, variant: Variant, inner: Json) -> Result<
    (),
    ErrorModel,
>
    decreases variant, 0nat,
{
    let count = variant.fields.count();
    match variant.fields {
        Fields::Unit => Ok(()),
        Fields::Named(_) => match inner {
            Json::Object(entries) => if entries.len() != count {
                Err(
                    ErrorModel::IncorrectFieldCountForEnum {
                        enum_type: enum_name,
                        variant: variant.ident@,
                        count: count as int,
                    },
                )
            } else {
                all_or_nothing(
                    enum_name,
                    named_errors(variant.fields, entries, variant.ident@, count),
                )
            },
            _ => Err(ErrorModel::IncompatibleJsonType { got: "other"@, expected: "object"@ }),
        },
        Fields::Unnamed(_) => if count == 1 {
            match validate_spec(variant.fields.ty(0), inner) {
                Ok(_) => Ok(()),
                Err(e) => Err(inside(variant.ident@, inside(variant.fields.ty(0).name(), e))),
            }
        } else {
            match inner {
                Json::Array(items) => if items.len() != count {
                    Err(
                        ErrorModel::IncorrectFieldCountForEnum {
                            enum_type: enum_name,
                            variant: variant.ident@,
                            count: count as int,
                        },
                    )
                } else {
                    all_or_nothing(enum_name, tuple_errors(variant.fields, items, count))
                },
                _ => Err(ErrorModel::IncompatibleJsonType { got: "other"@, expected: "array"@ }),
            }
        },
    }
}

/// The instance that the valid value `j` stands for under `shape`.
pub open spec fn decode_spec(shape: Shape, j: Json) -> InstanceModel
    decreases shape, 0nat,
{
    match shape {
        Shape::Text => match j {
            Json::String(s) => InstanceModel::Text(s),
            _ => InstanceModel::Text(Seq::empty()),
        },
        Shape::Number(kind) => match j {
            Json::Number(n) => InstanceModel::Integer(kind.decode(n)),
            _ => InstanceModel::Integer(0),
        },
        Shape::Optional(inner) => if j is Null {
            InstanceModel::Optional(None)
        } else {
            InstanceModel::Optional(Some(Box::new(decode_spec(*inner, j))))
        },
        Shape::Sequence(inner) => match j {
            Json::Array(items) => InstanceModel::Sequence(decode_items(*inner, items, items.len())),
            _ => InstanceModel::Sequence(Seq::empty()),
        },
        Shape::HashSet(inner) => match j {
            Json::Array(items) => InstanceModel::Sequence(
                first_occurrences(decode_items(*inner, items, items.len()), items.len()),
            ),
            _ => InstanceModel::Sequence(Seq::empty()),
        },
        Shape::Array(inner, _) => match j {
            Json::Array(items) => InstanceModel::Sequence(decode_items(*inner, items, items.len())),
            _ => InstanceModel::Sequence(Seq::empty()),
        },
        Shape::HashMap(inner) => match j {
            Json::Object(entries) => InstanceModel::Entries(
                first_of_each_key(decode_entries(*inner, entries, entries.len()), entries.len()),
            ),
            _ => InstanceModel::Entries(Seq::empty()),
        },
        Shape::Struct(_, fields) => record_decode(fields, j),
        Shape::Enum(_, variants) => union_decode(variants, j),
    }
}

/// The record instance that `j` stands for: the values of the fields
/// `fields`, in order.
pub open spec fn record_decode(fields: Fields, j: Json) -> InstanceModel
    decreases fields, fields.count() + 1,
{
    match j {
        Json::Object(entries) => InstanceModel::Struct(
            decode_fields(fields, entries, fields.count()),
        ),
        _ => InstanceModel::Struct(Seq::empty()),
    }
}

/// The variant of a union with the variants `variants` that `j` stands for.
pub open spec fn union_decode(variants: Vec<Variant>, j: Json) -> InstanceModel
    decreases variants, 0nat,
{
    match j {
        Json::String(s) => match find_variant(variants@, s, true, variants@.len()) {
            Some(k) => InstanceModel::Variant(k, Seq::empty()),
            None => InstanceModel::Variant(0, Seq::empty()),
        },
        Json::Object(entries) => if entries.len() == 0 {
            InstanceModel::Variant(0, Seq::empty())
        } else {
            match find_variant(variants@, entries[0].0, false, variants@.len()) {
                Some(k) => if 0 <= k < variants@.len() {
                    InstanceModel::Variant(k, decode_payload(variants[k].fields, entries[0].1))
                } else {
                    InstanceModel::Variant(0, Seq::empty())
                },
                None => InstanceModel::Variant(0, Seq::empty()),
            }
        },
        _ => InstanceModel::Variant(0, Seq::empty()),
    }
}

/// The instances that the first `n` of `items` stand for under `inner`.
pub open spec fn decode_items(inner: Shape, items: Seq<Json>, n: nat) -> Seq<InstanceModel>
    decreases inner, n,
{
    if n == 0 || n > items.len() {
        Seq::empty()
    } else {
        decode_items(inner, items, (n - 1) as nat).push(decode_spec(inner, items[n - 1]))
    }
}

/// The first `n` of `entries`, each value replaced by the instance it stands
/// for under `inner`.
pub open spec fn decode_entries(inner: Shape, entries: Seq<(Seq<char>, Json)>, n: nat) -> Seq<
    (Seq<char>, InstanceModel),
>
    decreases inner, n,
{
    if n == 0 || n > entries.len() {
        Seq::empty()
    } else {
        decode_entries(inner, entries, (n - 1) as nat).push(
            (entries[n - 1].0, decode_spec(inner, entries[n - 1].1)),
        )
    }
}

/// The values of the first `n` fields of a record stored in the object
/// `entries`. A field without a member is decoded from null.
pub open spec fn decode_fields(fields: Fields, entries: Seq<(Seq<char>, Json)>, n: nat) -> Seq<
    InstanceModel,
>
    decreases fields, n,
{
    if n == 0 || n > fields.count() {
        Seq::empty()
    } else {
        decode_fields(fields, entries, (n - 1) as nat).push(
            decode_spec(fields.ty(n - 1), member(entries, fields.key(n - 1))),
        )
    }
}

/// The values of the first `n` positional fields stored in the array `items`:
/// field `i` is decoded from item `i`.
pub open spec fn decode_tuple(fields: Fields, items: Seq<Json>, n: nat) -> Seq<InstanceModel>
    decreases fields, n,
{
    if n == 0 || n > fields.count() || n > items.len() {
        Seq::empty()
    } else {
        decode_tuple(fields, items, (n - 1) as nat).push(
            decode_spec(fields.ty(n - 1), items[n - 1]),
        )
    }
}

/// The field values that the payload `inner` of a variant with the fields
/// `fields` stands for.
pub open spec fn decode_payload(fields: Fields, inner: Json) -> Seq<InstanceModel>
    decreases fields, fields.count() + 1,
{
    match fields {
        Fields::Unit => Seq::empty(),
        Fields::Named(_) => match inner {
            Json::Object(entries) => decode_fields(fields, entries, fields.count()),
            _ => Seq::empty(),
        },
        Fields::Unnamed(_) => if fields.count() == 1 {
            seq![decode_spec(fields.ty(0), inner)]
        } else {
            match inner {
                Json::Array(items) => decode_tuple(fields, items, fields.count()),
                _ => Seq::empty(),
            }
        },
    }
}

/// The number that stands for the integer `x`.
pub open spec fn encode_integer(x: int) -> Number {
    if x < 0 {
        Number::NegInt(x as i64)
    } else {
        Number::PosInt(x as u64)
    }
}

/// The value that encodes the instance `d` of `shape`.
pub open spec fn encode_spec(shape: Shape, d: InstanceModel) -> Json
    decreases shape, 0nat,
{
    match shape {
        Shape::Text => match d {
            InstanceModel::Text(s) => Json::String(s),
            _ => Json::Null,
        },
        Shape::Number(_) => match d {
            InstanceModel::Integer(x) => Json::Number(encode_integer(x)),
            _ => Json::Null,
        },
        Shape::Optional(inner) => match d {
            InstanceModel::Optional(Some(x)) => encode_spec(*inner, *x),
            _ => Json::Null,
        },
        Shape::Sequence(inner) => match d {
            InstanceModel::Sequence(values) => Json::Array(
                encode_items(*inner, values, values.len()),
            ),
            _ => Json::Null,
        },
        Shape::HashSet(inner) => match d {
            InstanceModel::Sequence(values) => Json::Array(
                encode_items(*inner, values, values.len()),
            ),
            _ => Json::Null,
        },
        Shape::Array(inner, _) => match d {
            InstanceModel::Sequence(values) => Json::Array(
                encode_items(*inner, values, values.len()),
            ),
            _ => Json::Null,
        },
        Shape::HashMap(inner) => match d {
            InstanceModel::Entries(entries) => Json::Object(
                encode_entries(*inner, entries, entries.len()),
            ),
            _ => Json::Null,
        },
        Shape::Struct(_, fields) => record_encode(fields, d),
        Shape::Enum(_, variants) => union_encode(variants, d),
    }
}

/// The object that encodes the record instance `d`: one member for each of
/// `fields`, in field order.
pub open spec fn record_encode(fields: Fields, d: InstanceModel) -> Json
    decreases fields, fields.count() + 1,
{
    match d {
        InstanceModel::Struct(values) => Json::Object(
            encode_fields(fields, values, fields.count()),
        ),
        _ => Json::Null,
    }
}

/// The value that encodes the instance `d` of a union with the variants
/// `variants`.
pub open spec fn union_encode(variants: Vec<Variant>, d: InstanceModel) -> Json
    decreases variants, 0nat,
{
    match d {
        InstanceModel::Variant(k, values) => if 0 <= k < variants@.len() {
            encode_variant(variants[k], values)
        } else {
            Json::Null
        },
        _ => Json::Null,
    }
}

/// The values that encode the first `n` of `values` under `inner`.
pub open spec fn encode_items(inner: Shape, values: Seq<InstanceModel>, n: nat) -> Seq<Json>
    decreases inner, n,
{
    if n == 0 || n > values.len() {
        Seq::empty()
    } else {
        encode_items(inner, values, (n - 1) as nat).push(encode_spec(inner, values[n - 1]))
    }
}

/// The first `n` of `entries`, each instance replaced by the value that
/// encodes it under `inner`.
pub open spec fn encode_entries(
    inner: Shape,
    entries: Seq<(Seq<char>, InstanceModel)>,
    n: nat,
) -> Seq<(Seq<char>, Json)>
    decreases inner, n,
{
    if n == 0 || n > entries.len() {
        Seq::empty()
    } else {
        encode_entries(inner, entries, (n - 1) as nat).push(
            (entries[n - 1].0, encode_spec(inner, entries[n - 1].1)),
        )
    }
}

/// The members that store the first `n` fields of a record: one member for
/// each field, in field order, under the field's key.
pub open spec fn encode_fields(fields: Fields, values: Seq<InstanceModel>, n: nat) -> Seq<
    (Seq<char>, Json),
>
    decreases fields, n,
{
    if n == 0 || n > fields.count() || n > values.len() {
        Seq::empty()
    } else {
        encode_fields(fields, values, (n - 1) as nat).push(
            (fields.key(n - 1), encode_spec(fields.ty(n - 1), values[n - 1])),
        )
    }
}

/// The items that store the first `n` positional fields, in field order.
pub open spec fn encode_tuple(fields: Fields, values: Seq<InstanceModel>, n: nat) -> Seq<Json>
    decreases fields, n,
{
    if n == 0 || n > fields.count() || n > values.len() {
        Seq::empty()
    } else {
        encode_tuple(fields, values, (n - 1) as nat).push(
            encode_spec(fields.ty(n - 1), values[n - 1]),
        )
    }
}

/// The value that encodes the variant `variant` with the field values
/// `values`: the bare name for a unit variant, else an object whose one key
/// is the name.
pub open spec fn encode_variant(variant: Variant, values: Seq<InstanceModel>) -> Json
    decreases variant, 0nat,
{
    let count = variant.fields.count();
    match variant.fields {
        Fields::Unit => Json::String(variant.ident@),
        Fields::Named(_) => Json::Object(
            seq![(variant.ident@, Json::Object(encode_fields(variant.fields, values, count)))],
        ),
        Fields::Unnamed(_) => if count == 1 {
            if values.len() == 1 {
                Json::Object(seq![(variant.ident@, encode_spec(variant.fields.ty(0), values[0]))])
            } else {
                Json::Null
            }
        } else {
            Json::Object(
                seq![(variant.ident@, Json::Array(encode_tuple(variant.fields, values, count)))],
            )
        },
    }
}

/// Whether `d` is an instance of `shape`.
pub open spec fn conforms(shape: Shape, d: InstanceModel) -> bool
    decreases shape, 0nat,
{
    match shape {
        Shape::Text => d is Text,
        Shape::Number(kind) => match d {
            InstanceModel::Integer(x) => kind.min_value() <= x <= kind.max_value(),
            _ => false,
        },
        Shape::Optional(inner) => match d {
            InstanceModel::Optional(None) => true,
            InstanceModel::Optional(Some(x)) => conforms(*inner, *x),
            _ => false,
        },
        Shape::Sequence(inner) => match d {
            InstanceModel::Sequence(values) => all_conform(*inner, values),
            _ => false,
        },
        Shape::HashSet(inner) => match d {
            InstanceModel::Sequence(values) => values.no_duplicates() && all_conform(
                *inner,
                values,
            ),
            _ => false,
        },
        Shape::Array(inner, n) => match d {
            InstanceModel::Sequence(values) => values.len() == n && all_conform(*inner, values),
            _ => false,
        },
        Shape::HashMap(inner) => match d {
            InstanceModel::Entries(entries) => distinct_keys(entries) && entries_conform(
                *inner,
                entries,
            ),
            _ => false,
        },
        Shape::Struct(_, fields) => match d {
            InstanceModel::Struct(values) => fields_conform(fields, values),
            _ => false,
        },
        Shape::Enum(_, variants) => match d {
            InstanceModel::Variant(k, values) => 0 <= k < variants@.len() && fields_conform(
                variants[k].fields,
                values,
            ),
            _ => false,
        },
    }
}

/// Whether every one of `values` is an instance of `inner`.
pub open spec fn all_conform(inner: Shape, values: Seq<InstanceModel>) -> bool
    decreases inner, 1nat,
{
    forall|i: int| 0 <= i < values.len() ==> conforms(inner, #[trigger] values[i])
}

/// Whether the value of every one of `entries` is an instance of `inner`.
pub open spec fn entries_conform(inner: Shape, entries: Seq<(Seq<char>, InstanceModel)>) -> bool
    decreases inner, 1nat,
{
    forall|i: int| 0 <= i < entries.len() ==> conforms(inner, (#[trigger] entries[i]).1)
}

/// Whether `values` holds one instance for each of `fields`, in order.
pub open spec fn fields_conform(fields: Fields, values: Seq<InstanceModel>) -> bool
    decreases fields, 0nat,
{
    &&& values.len() == fields.count()
    &&& forall|i: int| 0 <= i < fields.count() ==> conforms(fields.ty(i), #[trigger] values[i])
}

} // verus!
