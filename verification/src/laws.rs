//! The laws of the codecs.
//!
//! What is encoded can be decoded again, and gives back what was encoded.
//! The law holds for every shape that is well formed and faithful, and for
//! every instance of it.

use crate::instance::InstanceModel;
use crate::lemmas::{
    lemma_check_fields_ok, lemma_decode_entries, lemma_decode_fields, lemma_decode_items,
    lemma_decode_tuple, lemma_encode_entries, lemma_encode_fields, lemma_encode_items,
    lemma_encode_tuple, lemma_find_variant, lemma_first_occurrences,
    lemma_first_occurrences_of_distinct, lemma_first_of_each_distinct_key, lemma_first_of_each_key,
    lemma_named_errors_none, lemma_tuple_errors_none,
};
use crate::number::{NumberKind, word};
use crate::rules::{
    all_conform, check_fields, check_payload, conforms, decode_entries, decode_fields,
    decode_items, decode_payload, decode_spec, decode_tuple, encode_entries, encode_fields,
    encode_integer, encode_items, encode_spec, encode_tuple, encode_variant, entries_conform,
    entries_valid, fields_conform, find_variant, first_occurrences, first_of_each_key, items_valid,
    named_errors, record_check, record_decode, record_encode, tuple_errors, union_check,
    union_decode, union_encode, validate_spec,
};
use crate::shape::{Fields, Shape, Variant};
use crate::text::lemma_decimal_injective;
use crate::value::{Json, lemma_key_index_is, lookup, member};
use vstd::arithmetic::div_mod::{lemma_mod_multiples_vanish, lemma_small_mod};
use vstd::prelude::*;

verus! {

/// An integer of a kind, encoded as a number and decoded into the kind
/// again, is the integer.
pub proof fn lemma_number_round_trip(kind: NumberKind, x: int)
    requires
        kind.min_value() <= x <= kind.max_value(),
    ensures
        kind.decode(encode_integer(x)) == x,
{
    let m = kind.modulus();
    if x >= 0 {
        lemma_small_mod(x as nat, m as nat);
    } else {
        assert(word() == 0x1_0000_0000_0000 * 0x1_0000);
        assert(word() == (word() / m) * m);
        lemma_mod_multiples_vanish(word() / m, x + m, m);
        lemma_small_mod((x + m) as nat, m as nat);
        assert(word() + x == m * (word() / m - 1) + (x + m)) by (nonlinear_arith)
            requires
                word() == (word() / m) * m,
        ;
        lemma_mod_multiples_vanish(word() / m - 1, x + m, m);
    }
}

/// An instance of a shape that is not an optional is never encoded as null.
pub proof fn lemma_encode_not_null(shape: Shape, d: InstanceModel)
    requires
        conforms(shape, d),
        !(shape is Optional),
    ensures
        !(encode_spec(shape, d) is Null),
{
    match shape {
        Shape::Struct(_, fields) => {
            assert(encode_spec(shape, d) == record_encode(fields, d));
        },
        Shape::Enum(_, variants) => {
            let k = d->Variant_0;
            assert(fields_conform(variants[k].fields, d->Variant_1));
            assert(encode_spec(shape, d) == union_encode(variants, d));
            assert(union_encode(variants, d) == encode_variant(variants[k], d->Variant_1));
        },
        _ => {},
    }
}

/// In a well-formed list of fields no two fields are stored under one key.
pub proof fn lemma_keys_distinct(fields: Fields)
    requires
        fields.wf(),
    ensures
        fields.distinct_keys(),
{
    assert forall|i: int, j: int| 0 <= i < j < fields.count() implies #[trigger] fields.key(i)
        != #[trigger] fields.key(j) by {
        match fields {
            Fields::Named(fs) => {
                assert(fs@[i].ident@ != fs@[j].ident@);
            },
            Fields::Unnamed(_) => {
                if fields.key(i) == fields.key(j) {
                    lemma_decimal_injective(i as nat, j as nat);
                }
            },
            Fields::Unit => {},
        }
    }
}

/// In the object that encodes a record, the member under a field's key is
/// the encoding of that field.
pub proof fn lemma_member_of_encoded(fields: Fields, values: Seq<InstanceModel>, i: int)
    requires
        fields.distinct_keys(),
        values.len() == fields.count(),
        0 <= i < fields.count(),
    ensures
        lookup(encode_fields(fields, values, fields.count()), fields.key(i)) == Some(
            encode_spec(fields.ty(i), values[i]),
        ),
        member(encode_fields(fields, values, fields.count()), fields.key(i)) == encode_spec(
            fields.ty(i),
            values[i],
        ),
{
    let es = encode_fields(fields, values, fields.count());
    lemma_encode_fields(fields, values, fields.count());
    assert(es[i].0 == fields.key(i));
    assert forall|j: int| 0 <= j < i implies (#[trigger] es[j]).0 != fields.key(i) by {
        assert(es[j].0 == fields.key(j));
        assert(fields.key(j) != fields.key(i));
    }
    lemma_key_index_is(es, fields.key(i), i);
}

/// Where each of the first `n` fields is valid, the first `n` fields pass.
pub proof fn lemma_check_fields_pass(fields: Fields, entries: Seq<(Seq<char>, Json)>, n: nat)
    requires
        n <= fields.count(),
        forall|i: int|
            0 <= i < n ==> validate_spec(
                #[trigger] fields.ty(i),
                member(entries, fields.key(i)),
            ) is Ok,
    ensures
        check_fields(fields, entries, n) is Ok,
    decreases n,
{
    if n > 0 {
        lemma_check_fields_pass(fields, entries, (n - 1) as nat);
        assert(validate_spec(fields.ty(n - 1), member(entries, fields.key(n - 1))) is Ok);
    }
}

/// Where each of the first `n` named fields has a member with a valid
/// value, none of them fails.
pub proof fn lemma_named_errors_empty(
    fields: Fields,
    entries: Seq<(Seq<char>, Json)>,
    variant: Seq<char>,
    n: nat,
)
    requires
        n <= fields.count(),
        forall|i: int|
            0 <= i < n ==> lookup(entries, fields.key(i)) is Some && validate_spec(
                #[trigger] fields.ty(i),
                member(entries, fields.key(i)),
            ) is Ok,
    ensures
        named_errors(fields, entries, variant, n).len() == 0,
    decreases n,
{
    if n > 0 {
        lemma_named_errors_empty(fields, entries, variant, (n - 1) as nat);
        assert(validate_spec(fields.ty(n - 1), member(entries, fields.key(n - 1))) is Ok);
        assert(lookup(entries, fields.key(n - 1)) is Some);
    } else {
        assert(named_errors(fields, entries, variant, 0).len() == 0);
    }
}

/// Where each of the first `n` positional fields is valid, none of them
/// fails.
pub proof fn lemma_tuple_errors_empty(fields: Fields, items: Seq<Json>, n: nat)
    requires
        n <= fields.count(),
        n <= items.len(),
        forall|i: int| 0 <= i < n ==> validate_spec(#[trigger] fields.ty(i), items[i]) is Ok,
    ensures
        tuple_errors(fields, items, n).len() == 0,
    decreases n,
{
    if n > 0 {
        lemma_tuple_errors_empty(fields, items, (n - 1) as nat);
        assert(validate_spec(fields.ty(n - 1), items[n - 1]) is Ok);
    } else {
        assert(tuple_errors(fields, items, 0).len() == 0);
    }
}

/// Whether field `i` of `fields` makes the round trip with the value
/// `values[i]`.
pub open spec fn field_round_trips(fields: Fields, values: Seq<InstanceModel>, i: int) -> bool {
    let j = encode_spec(fields.ty(i), values[i]);
    validate_spec(fields.ty(i), j) is Ok && decode_spec(fields.ty(i), j) == values[i]
}

/// **Round trip.** An instance of a well-formed, faithful shape is encoded
/// as a valid value, and decoding that value gives the instance back.
pub proof fn lemma_round_trip(shape: Shape, d: InstanceModel)
    requires
        shape.wf(),
        shape.faithful(),
        conforms(shape, d),
    ensures
        validate_spec(shape, encode_spec(shape, d)) is Ok,
        decode_spec(shape, encode_spec(shape, d)) == d,
    decreases shape, 0nat,
{
    match shape {
        Shape::Text => {},
        Shape::Number(kind) => {
            lemma_number_round_trip(kind, d->Integer_0);
        },
        Shape::Optional(inner) => {
            match d {
                InstanceModel::Optional(Some(x)) => {
                    lemma_round_trip(*inner, *x);
                    lemma_encode_not_null(*inner, *x);
                },
                _ => {},
            }
        },
        Shape::Sequence(inner) => {
            lemma_round_trip_items(*inner, d->Sequence_0);
        },
        Shape::HashSet(inner) => {
            let values = d->Sequence_0;
            lemma_round_trip_items(*inner, values);
            lemma_encode_items(*inner, values, values.len());
            lemma_first_occurrences_of_distinct(values, values.len());
            assert(values.take(values.len() as int) =~= values);
        },
        Shape::Array(inner, n) => {
            lemma_round_trip_items(*inner, d->Sequence_0);
            lemma_encode_items(*inner, d->Sequence_0, d->Sequence_0.len());
        },
        Shape::HashMap(inner) => {
            let entries = d->Entries_0;
            lemma_round_trip_entries(*inner, entries);
            lemma_encode_entries(*inner, entries, entries.len());
            lemma_first_of_each_distinct_key(entries, entries.len());
            assert(entries.take(entries.len() as int) =~= entries);
        },
        Shape::Struct(_, fields) => {
            let values = d->Struct_0;
            let es = encode_fields(fields, values, fields.count());
            assert(fields_conform(fields, values));
            assert(encode_spec(shape, d) == record_encode(fields, d));
            assert(record_encode(fields, d) == Json::Object(es));
            lemma_round_trip_fields(fields, values);
            lemma_keys_distinct(fields);
            assert forall|i: int| 0 <= i < fields.count() implies validate_spec(
                #[trigger] fields.ty(i),
                member(es, fields.key(i)),
            ) is Ok by {
                lemma_member_of_encoded(fields, values, i);
                assert(field_round_trips(fields, values, i));
            }
            lemma_check_fields_pass(fields, es, fields.count());
            lemma_decode_fields(fields, es, fields.count());
            assert forall|i: int| 0 <= i < fields.count() implies decode_fields(
                fields,
                es,
                fields.count(),
            )[i] == values[i] by {
                lemma_member_of_encoded(fields, values, i);
                assert(field_round_trips(fields, values, i));
            }
            assert(decode_fields(fields, es, fields.count()) =~= values);
            assert(validate_spec(shape, Json::Object(es)) == record_check(fields, Json::Object(es)));
            assert(decode_spec(shape, Json::Object(es)) == record_decode(fields, Json::Object(es)));
        },
        Shape::Enum(ident, variants) => {
            let k = d->Variant_0;
            let values = d->Variant_1;
            assert(variants[k].wf());
            assert(variants[k].faithful());
            lemma_round_trip_variant(ident@, variants@, k, values);
            let j = encode_variant(variants[k], values);
            assert(encode_spec(shape, d) == union_encode(variants, d));
            assert(union_encode(variants, d) == j);
            assert(validate_spec(shape, j) == union_check(ident@, variants, j));
            assert(decode_spec(shape, j) == union_decode(variants, j));
            assert(union_check(ident@, variants, j) is Ok);
            assert(union_decode(variants, j) == d);
        },
    }
}

/// The round trip of the elements of a sequence.
pub proof fn lemma_round_trip_items(inner: Shape, values: Seq<InstanceModel>)
    requires
        inner.wf(),
        inner.faithful(),
        all_conform(inner, values),
    ensures
        items_valid(inner, encode_items(inner, values, values.len())),
        decode_items(
            inner,
            encode_items(inner, values, values.len()),
            encode_items(inner, values, values.len()).len(),
        ) == values,
    decreases inner, 1nat,
{
    let items = encode_items(inner, values, values.len());
    lemma_encode_items(inner, values, values.len());
    assert forall|i: int| 0 <= i < items.len() implies validate_spec(inner, #[trigger] items[i])
        is Ok && decode_spec(inner, items[i]) == values[i] by {
        assert(conforms(inner, values[i]));
        lemma_round_trip(inner, values[i]);
    }
    lemma_decode_items(inner, items, items.len());
    assert(decode_items(inner, items, items.len()) =~= values);
}

/// The round trip of the entries of a map.
pub proof fn lemma_round_trip_entries(inner: Shape, entries: Seq<(Seq<char>, InstanceModel)>)
    requires
        inner.wf(),
        inner.faithful(),
        entries_conform(inner, entries),
    ensures
        entries_valid(inner, encode_entries(inner, entries, entries.len())),
        decode_entries(
            inner,
            encode_entries(inner, entries, entries.len()),
            encode_entries(inner, entries, entries.len()).len(),
        ) == entries,
    decreases inner, 1nat,
{
    let es = encode_entries(inner, entries, entries.len());
    lemma_encode_entries(inner, entries, entries.len());
    assert forall|i: int| 0 <= i < es.len() implies validate_spec(inner, (#[trigger] es[i]).1)
        is Ok && decode_spec(inner, es[i].1) == entries[i].1 by {
        assert(conforms(inner, entries[i].1));
        lemma_round_trip(inner, entries[i].1);
    }
    lemma_decode_entries(inner, es, es.len());
    assert(decode_entries(inner, es, es.len()) =~= entries);
}

/// The round trip of each field of a record or of a variant.
pub proof fn lemma_round_trip_fields(fields: Fields, values: Seq<InstanceModel>)
    requires
        fields.wf(),
        fields.faithful(),
        fields_conform(fields, values),
    ensures
        forall|i: int| 0 <= i < fields.count() ==> field_round_trips(fields, values, i),
    decreases fields, 0nat,
{
    assert forall|i: int| 0 <= i < fields.count() implies field_round_trips(fields, values, i) by {
        assert(fields.ty(i).wf());
        assert(fields.ty(i).faithful());
        assert(conforms(fields.ty(i), values[i]));
        lemma_round_trip(fields.ty(i), values[i]);
    }
}

/// The round trip of an instance of a union.
pub proof fn lemma_round_trip_variant(
    enum_name: Seq<char>,
    variants: Seq<Variant>,
    k: int,
    values: Seq<InstanceModel>,
)
    requires
        0 <= k < variants.len(),
        crate::shape::distinct_variant_names(variants),
        variants[k].wf(),
        variants[k].faithful(),
        fields_conform(variants[k].fields, values),
    ensures
        ({
            let j = encode_variant(variants[k], values);
            let unit = variants[k].fields is Unit;
            &&& unit ==> j == Json::String(variants[k].ident@)
            &&& !unit ==> {
                &&& j is Object
                &&& j->Object_0.len() == 1
                &&& j->Object_0[0].0 == variants[k].ident@
                &&& check_payload(enum_name, variants[k], j->Object_0[0].1) is Ok
                &&& decode_payload(variants[k].fields, j->Object_0[0].1) == values
            }
            &&& find_variant(variants, variants[k].ident@, unit, variants.len()) == Some(k)
            &&& unit ==> values == Seq::<InstanceModel>::empty()
        }),
    decreases variants[k], 1nat,
{
    let variant = variants[k];
    let fields = variant.fields;
    let count = fields.count();
    let unit = fields is Unit;
    lemma_find_variant(variants, variant.ident@, unit, variants.len());
    match find_variant(variants, variant.ident@, unit, variants.len()) {
        Some(found) => {
            if found < k {
                assert(variants[found].ident@ != variants[k].ident@);
            }
        },
        None => {
            assert(crate::lemmas::variant_matches(variants[k], variant.ident@, unit));
        },
    }
    lemma_round_trip_fields(fields, values);
    lemma_keys_distinct(fields);
    match fields {
        Fields::Unit => {
            assert(values =~= Seq::<InstanceModel>::empty());
        },
        Fields::Named(_) => {
            let es = encode_fields(fields, values, count);
            lemma_encode_fields(fields, values, count);
            assert forall|i: int| 0 <= i < count implies lookup(es, fields.key(i)) is Some
                && validate_spec(#[trigger] fields.ty(i), member(es, fields.key(i))) is Ok by {
                lemma_member_of_encoded(fields, values, i);
                assert(field_round_trips(fields, values, i));
            }
            lemma_named_errors_empty(fields, es, variant.ident@, count);
            lemma_decode_fields(fields, es, count);
            assert forall|i: int| 0 <= i < count implies decode_fields(fields, es, count)[i]
                == values[i] by {
                lemma_member_of_encoded(fields, values, i);
                assert(field_round_trips(fields, values, i));
            }
            assert(decode_fields(fields, es, count) =~= values);
        },
        Fields::Unnamed(_) => {
            if count == 1 {
                assert(field_round_trips(fields, values, 0));
                assert(seq![values[0]] =~= values);
            } else {
                let items = encode_tuple(fields, values, count);
                lemma_encode_tuple(fields, values, count);
                assert forall|i: int| 0 <= i < count implies validate_spec(
                    #[trigger] fields.ty(i),
                    items[i],
                ) is Ok by {
                    assert(field_round_trips(fields, values, i));
                }
                lemma_tuple_errors_empty(fields, items, count);
                lemma_decode_tuple(fields, items, count);
                assert forall|i: int| 0 <= i < count implies decode_tuple(fields, items, count)[i]
                    == values[i] by {
                    assert(field_round_trips(fields, values, i));
                }
                assert(decode_tuple(fields, items, count) =~= values);
            }
        },
    }
}

/// What a number decodes to lies in the range of the kind.
pub proof fn lemma_decode_in_range(kind: NumberKind, n: crate::number::Number)
    ensures
        kind.min_value() <= kind.decode(n) <= kind.max_value(),
{
    let m = kind.modulus();
    let pattern = if kind.is_signed() {
        n.signed_pattern()
    } else {
        n.unsigned_pattern()
    };
    assert(0 <= pattern % m < m);
}

/// **Decoding yields an instance.** What a valid value decodes to under a
/// shape is an instance of that shape.
pub proof fn lemma_decode_conforms(shape: Shape, j: Json)
    requires
        validate_spec(shape, j) is Ok,
    ensures
        conforms(shape, decode_spec(shape, j)),
    decreases shape, 0nat,
{
    match shape {
        Shape::Text => {},
        Shape::Number(kind) => {
            lemma_decode_in_range(kind, j->Number_0);
        },
        Shape::Optional(inner) => {
            if !(j is Null) {
                lemma_decode_conforms(*inner, j);
            }
        },
        Shape::Sequence(inner) => {
            lemma_decoded_items_conform(*inner, j->Array_0);
        },
        Shape::HashSet(inner) => {
            let items = j->Array_0;
            let decoded = decode_items(*inner, items, items.len());
            let kept = first_occurrences(decoded, items.len());
            lemma_decoded_items_conform(*inner, items);
            lemma_decode_items(*inner, items, items.len());
            lemma_first_occurrences(decoded, items.len());
            assert forall|k: int| 0 <= k < kept.len() implies conforms(*inner, #[trigger] kept[k]) by {
                let i = choose|i: int| 0 <= i < items.len() && decoded[i] == kept[k];
                assert(conforms(*inner, decoded[i]));
            }
            assert(all_conform(*inner, kept));
        },
        Shape::Array(inner, n) => {
            lemma_decoded_items_conform(*inner, j->Array_0);
            lemma_decode_items(*inner, j->Array_0, j->Array_0.len());
        },
        Shape::HashMap(inner) => {
            let entries = j->Object_0;
            let decoded = decode_entries(*inner, entries, entries.len());
            assert(entries_valid(*inner, entries));
            lemma_decode_entries(*inner, entries, entries.len());
            assert forall|i: int| 0 <= i < decoded.len() implies conforms(
                *inner,
                (#[trigger] decoded[i]).1,
            ) by {
                assert(validate_spec(*inner, entries[i].1) is Ok);
                lemma_decode_conforms(*inner, entries[i].1);
            }
            assert(entries_conform(*inner, decoded));
            let kept = first_of_each_key(decoded, entries.len());
            lemma_first_of_each_key(decoded, entries.len());
            assert forall|k: int| 0 <= k < kept.len() implies conforms(
                *inner,
                (#[trigger] kept[k]).1,
            ) by {
                let i = choose|i: int| 0 <= i < entries.len() && decoded[i] == kept[k];
                assert(conforms(*inner, decoded[i].1));
            }
            assert(entries_conform(*inner, kept));
        },
        Shape::Struct(_, fields) => {
            assert(validate_spec(shape, j) == record_check(fields, j));
            assert(decode_spec(shape, j) == record_decode(fields, j));
            let entries = j->Object_0;
            let decoded = decode_fields(fields, entries, fields.count());
            lemma_decode_fields(fields, entries, fields.count());
            assert forall|i: int| 0 <= i < fields.count() implies conforms(
                fields.ty(i),
                #[trigger] decoded[i],
            ) by {
                lemma_check_fields_ok(fields, entries, fields.count(), i);
                lemma_decode_conforms(fields.ty(i), member(entries, fields.key(i)));
            }
            assert(fields_conform(fields, decoded));
        },
        Shape::Enum(ident, variants) => {
            assert(validate_spec(shape, j) == union_check(ident@, variants, j));
            assert(decode_spec(shape, j) == union_decode(variants, j));
            match j {
                Json::String(s) => {
                    lemma_find_variant(variants@, s, true, variants@.len());
                    let k = find_variant(variants@, s, true, variants@.len())->0;
                    assert(fields_conform(variants[k].fields, Seq::<InstanceModel>::empty()));
                },
                Json::Object(entries) => {
                    lemma_find_variant(variants@, entries[0].0, false, variants@.len());
                    let k = find_variant(variants@, entries[0].0, false, variants@.len())->0;
                    lemma_decoded_payload_conforms(ident@, variants[k], entries[0].1);
                },
                _ => {},
            }
        },
    }
}

/// What the items of a valid array decode to are instances of the element
/// shape.
pub proof fn lemma_decoded_items_conform(inner: Shape, items: Seq<Json>)
    requires
        items_valid(inner, items),
    ensures
        all_conform(inner, decode_items(inner, items, items.len())),
    decreases inner, 1nat,
{
    let decoded = decode_items(inner, items, items.len());
    lemma_decode_items(inner, items, items.len());
    assert forall|i: int| 0 <= i < decoded.len() implies conforms(inner, #[trigger] decoded[i]) by {
        assert(validate_spec(inner, items[i]) is Ok);
        lemma_decode_conforms(inner, items[i]);
    }
}

/// What the valid payload of a variant decodes to are values for the
/// variant's fields.
pub proof fn lemma_decoded_payload_conforms(enum_name: Seq<char>, variant: Variant, inner: Json)
    requires
        !(variant.fields is Unit),
        check_payload(enum_name, variant, inner) is Ok,
    ensures
        fields_conform(variant.fields, decode_payload(variant.fields, inner)),
    decreases variant, 0nat,
{
    let fields = variant.fields;
    let count = fields.count();
    match fields {
        Fields::Unit => {},
        Fields::Named(_) => {
            let entries = inner->Object_0;
            let decoded = decode_fields(fields, entries, count);
            lemma_decode_fields(fields, entries, count);
            assert forall|i: int| 0 <= i < count implies conforms(
                fields.ty(i),
                #[trigger] decoded[i],
            ) by {
                lemma_named_errors_none(fields, entries, variant.ident@, count, i);
                lemma_decode_conforms(fields.ty(i), member(entries, fields.key(i)));
            }
        },
        Fields::Unnamed(_) => {
            if count == 1 {
                lemma_decode_conforms(fields.ty(0), inner);
                let decoded = seq![decode_spec(fields.ty(0), inner)];
                assert forall|i: int| 0 <= i < count implies conforms(
                    fields.ty(i),
                    #[trigger] decoded[i],
                ) by {}
            } else {
                let items = inner->Array_0;
                let decoded = decode_tuple(fields, items, count);
                lemma_decode_tuple(fields, items, count);
                assert forall|i: int| 0 <= i < count implies conforms(
                    fields.ty(i),
                    #[trigger] decoded[i],
                ) by {
                    lemma_tuple_errors_none(fields, items, count, i);
                    lemma_decode_conforms(fields.ty(i), items[i]);
                }
            }
        },
    }
}

} // verus!
