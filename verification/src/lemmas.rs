//! Facts about the rules that the executable codecs and the laws rest on.

use crate::instance::InstanceModel;
use crate::rules::{
    check_fields, decode_entries, decode_fields, decode_items, decode_spec, decode_tuple,
    encode_entries, encode_fields, encode_items, encode_spec, encode_tuple, find_variant,
    first_occurrences, first_of_each_key, named_errors, tuple_errors, validate_spec,
};
use crate::shape::{Fields, Shape, Variant};
use crate::value::{distinct_keys, Json, key_index, lemma_key_index, lookup, member};
use vstd::prelude::*;

verus! {

/// Whether `variant` is named `name` and is of the kind asked for.
pub open spec fn variant_matches(variant: Variant, name: Seq<char>, unit: bool) -> bool {
    variant.ident@ == name && (variant.fields is Unit) == unit
}

/// `find_variant` finds the first matching index below `n`, and none where
/// no index below `n` matches.
pub proof fn lemma_find_variant(variants: Seq<Variant>, name: Seq<char>, unit: bool, n: nat)
    requires
        n <= variants.len(),
    ensures
        match find_variant(variants, name, unit, n) {
            Some(k) => {
                &&& 0 <= k < n
                &&& variant_matches(variants[k], name, unit)
                &&& forall|j: int| 0 <= j < k ==> !variant_matches(#[trigger] variants[j], name, unit)
            },
            None => forall|j: int|
                0 <= j < n ==> !variant_matches(#[trigger] variants[j], name, unit),
        },
    decreases n,
{
    if n > 0 {
        lemma_find_variant(variants, name, unit, (n - 1) as nat);
    }
}

/// Once a field has failed, the fields after it change nothing.
pub proof fn lemma_check_fields_stays(
    fields: Fields,
    entries: Seq<(Seq<char>, Json)>,
    n: nat,
    m: nat,
)
    requires
        n <= m <= fields.count(),
        check_fields(fields, entries, n) is Err,
    ensures
        check_fields(fields, entries, m) == check_fields(fields, entries, n),
    decreases m,
{
    if n < m {
        lemma_check_fields_stays(fields, entries, n, (m - 1) as nat);
    }
}

/// Where the first `n` fields pass, each of them is valid.
pub proof fn lemma_check_fields_ok(
    fields: Fields,
    entries: Seq<(Seq<char>, Json)>,
    n: nat,
    i: int,
)
    requires
        n <= fields.count(),
        check_fields(fields, entries, n) is Ok,
        0 <= i < n,
    ensures
        validate_spec(fields.ty(i), member(entries, fields.key(i))) is Ok,
    decreases n,
{
    if i < n - 1 {
        lemma_check_fields_ok(fields, entries, (n - 1) as nat, i);
    }
}

/// Where none of the first `n` named fields fails, each of them has a
/// member, and the member's value is valid.
pub proof fn lemma_named_errors_none(
    fields: Fields,
    entries: Seq<(Seq<char>, Json)>,
    variant: Seq<char>,
    n: nat,
    i: int,
)
    requires
        n <= fields.count(),
        named_errors(fields, entries, variant, n).len() == 0,
        0 <= i < n,
    ensures
        lookup(entries, fields.key(i)) is Some,
        validate_spec(fields.ty(i), member(entries, fields.key(i))) is Ok,
    decreases n,
{
    if i < n - 1 {
        lemma_named_errors_none(fields, entries, variant, (n - 1) as nat, i);
    }
}

/// Where none of the first `n` positional fields fails, each of them is
/// valid.
pub proof fn lemma_tuple_errors_none(fields: Fields, items: Seq<Json>, n: nat, i: int)
    requires
        n <= fields.count(),
        n <= items.len(),
        tuple_errors(fields, items, n).len() == 0,
        0 <= i < n,
    ensures
        validate_spec(fields.ty(i), items[i]) is Ok,
    decreases n,
{
    if i < n - 1 {
        lemma_tuple_errors_none(fields, items, (n - 1) as nat, i);
    }
}

/// `decode_items` maps the first `n` items one for one.
pub proof fn lemma_decode_items(inner: Shape, items: Seq<Json>, n: nat)
    requires
        n <= items.len(),
    ensures
        decode_items(inner, items, n).len() == n,
        forall|i: int|
            0 <= i < n ==> (#[trigger] decode_items(inner, items, n)[i]) == decode_spec(
                inner,
                items[i],
            ),
    decreases n,
{
    if n > 0 {
        lemma_decode_items(inner, items, (n - 1) as nat);
    }
}

/// `decode_entries` maps the first `n` entries one for one.
pub proof fn lemma_decode_entries(inner: Shape, entries: Seq<(Seq<char>, Json)>, n: nat)
    requires
        n <= entries.len(),
    ensures
        decode_entries(inner, entries, n).len() == n,
        forall|i: int|
            0 <= i < n ==> (#[trigger] decode_entries(inner, entries, n)[i]) == (
                entries[i].0,
                decode_spec(inner, entries[i].1),
            ),
    decreases n,
{
    if n > 0 {
        lemma_decode_entries(inner, entries, (n - 1) as nat);
    }
}

/// `decode_fields` yields one value for each of the first `n` fields.
pub proof fn lemma_decode_fields(fields: Fields, entries: Seq<(Seq<char>, Json)>, n: nat)
    requires
        n <= fields.count(),
    ensures
        decode_fields(fields, entries, n).len() == n,
        forall|i: int|
            0 <= i < n ==> (#[trigger] decode_fields(fields, entries, n)[i]) == decode_spec(
                fields.ty(i),
                member(entries, fields.key(i)),
            ),
    decreases n,
{
    if n > 0 {
        lemma_decode_fields(fields, entries, (n - 1) as nat);
    }
}

/// `decode_tuple` yields one value for each of the first `n` fields.
pub proof fn lemma_decode_tuple(fields: Fields, items: Seq<Json>, n: nat)
    requires
        n <= fields.count(),
        n <= items.len(),
    ensures
        decode_tuple(fields, items, n).len() == n,
        forall|i: int|
            0 <= i < n ==> (#[trigger] decode_tuple(fields, items, n)[i]) == decode_spec(
                fields.ty(i),
                items[i],
            ),
    decreases n,
{
    if n > 0 {
        lemma_decode_tuple(fields, items, (n - 1) as nat);
    }
}

/// `encode_items` maps the first `n` values one for one.
pub proof fn lemma_encode_items(inner: Shape, values: Seq<InstanceModel>, n: nat)
    requires
        n <= values.len(),
    ensures
        encode_items(inner, values, n).len() == n,
        forall|i: int|
            0 <= i < n ==> (#[trigger] encode_items(inner, values, n)[i]) == encode_spec(
                inner,
                values[i],
            ),
    decreases n,
{
    if n > 0 {
        lemma_encode_items(inner, values, (n - 1) as nat);
    }
}

/// `encode_entries` maps the first `n` entries one for one.
pub proof fn lemma_encode_entries(inner: Shape, entries: Seq<(Seq<char>, InstanceModel)>, n: nat)
    requires
        n <= entries.len(),
    ensures
        encode_entries(inner, entries, n).len() == n,
        forall|i: int|
            0 <= i < n ==> (#[trigger] encode_entries(inner, entries, n)[i]) == (
                entries[i].0,
                encode_spec(inner, entries[i].1),
            ),
    decreases n,
{
    if n > 0 {
        lemma_encode_entries(inner, entries, (n - 1) as nat);
    }
}

/// `encode_fields` yields one member for each of the first `n` fields.
pub proof fn lemma_encode_fields(fields: Fields, values: Seq<InstanceModel>, n: nat)
    requires
        n <= fields.count(),
        n <= values.len(),
    ensures
        encode_fields(fields, values, n).len() == n,
        forall|i: int|
            0 <= i < n ==> (#[trigger] encode_fields(fields, values, n)[i]) == (
                fields.key(i),
                encode_spec(fields.ty(i), values[i]),
            ),
    decreases n,
{
    if n > 0 {
        lemma_encode_fields(fields, values, (n - 1) as nat);
    }
}

/// `encode_tuple` yields one item for each of the first `n` fields.
pub proof fn lemma_encode_tuple(fields: Fields, values: Seq<InstanceModel>, n: nat)
    requires
        n <= fields.count(),
        n <= values.len(),
    ensures
        encode_tuple(fields, values, n).len() == n,
        forall|i: int|
            0 <= i < n ==> (#[trigger] encode_tuple(fields, values, n)[i]) == encode_spec(
                fields.ty(i),
                values[i],
            ),
    decreases n,
{
    if n > 0 {
        lemma_encode_tuple(fields, values, (n - 1) as nat);
    }
}

/// What `first_occurrences` keeps: no element twice, every element that
/// occurs among the first `n`, and nothing else.
pub proof fn lemma_first_occurrences<A>(s: Seq<A>, n: nat)
    requires
        n <= s.len(),
    ensures
        first_occurrences(s, n).no_duplicates(),
        first_occurrences(s, n).len() <= n,
        forall|i: int| 0 <= i < n ==> first_occurrences(s, n).contains(#[trigger] s[i]),
        forall|k: int|
            0 <= k < first_occurrences(s, n).len() ==> exists|i: int|
                0 <= i < n && s[i] == #[trigger] first_occurrences(s, n)[k],
    decreases n,
{
    if n > 0 {
        let before = first_occurrences(s, (n - 1) as nat);
        let after = first_occurrences(s, n);
        lemma_first_occurrences(s, (n - 1) as nat);
        if before.contains(s[n - 1]) {
            assert(after == before);
        } else {
            assert(after == before.push(s[n - 1]));
            assert forall|i: int| 0 <= i < n implies after.contains(#[trigger] s[i]) by {
                if i < n - 1 {
                    let k = choose|k: int| 0 <= k < before.len() && before[k] == s[i];
                    assert(after[k] == s[i]);
                } else {
                    assert(after[after.len() - 1] == s[i]);
                }
            }
            assert forall|k: int| 0 <= k < after.len() implies exists|i: int|
                0 <= i < n && s[i] == #[trigger] after[k] by {
                if k < before.len() {
                    assert(after[k] == before[k]);
                    let i = choose|i: int| 0 <= i < n - 1 && s[i] == before[k];
                    assert(0 <= i < n && s[i] == after[k]);
                } else {
                    assert(s[n - 1] == after[k]);
                }
            }
            assert forall|i: int, j: int|
                0 <= i < after.len() && 0 <= j < after.len() && i != j implies after[i]
                != after[j] by {
                if i < before.len() && j < before.len() {
                    assert(before[i] != before[j]);
                } else if i < before.len() {
                    assert(before[i] == after[i]);
                } else {
                    assert(before[j] == after[j]);
                }
            }
        }
    } else {
        assert(first_occurrences(s, 0).len() == 0);
    }
}

/// Where no element occurs twice, `first_occurrences` keeps them all.
pub proof fn lemma_first_occurrences_of_distinct<A>(s: Seq<A>, n: nat)
    requires
        n <= s.len(),
        s.no_duplicates(),
    ensures
        first_occurrences(s, n) == s.take(n as int),
    decreases n,
{
    if n > 0 {
        let before = first_occurrences(s, (n - 1) as nat);
        lemma_first_occurrences_of_distinct(s, (n - 1) as nat);
        if before.contains(s[n - 1]) {
            let k = choose|k: int| 0 <= k < before.len() && before[k] == s[n - 1];
            assert(s[k] == s[n - 1]);
        }
        assert(first_occurrences(s, n) == before.push(s[n - 1]));
        assert(before.push(s[n - 1]) =~= s.take(n as int));
    } else {
        assert(first_occurrences(s, 0) =~= s.take(0));
    }
}

/// What `first_of_each_key` keeps: no key twice, and only entries that occur
/// among the first `n`.
pub proof fn lemma_first_of_each_key<V>(entries: Seq<(Seq<char>, V)>, n: nat)
    requires
        n <= entries.len(),
    ensures
        distinct_keys(first_of_each_key(entries, n)),
        first_of_each_key(entries, n).len() <= n,
        forall|k: int|
            0 <= k < first_of_each_key(entries, n).len() ==> exists|i: int|
                0 <= i < n && entries[i] == #[trigger] first_of_each_key(entries, n)[k],
    decreases n,
{
    if n > 0 {
        let before = first_of_each_key(entries, (n - 1) as nat);
        let after = first_of_each_key(entries, n);
        lemma_first_of_each_key(entries, (n - 1) as nat);
        lemma_key_index(before, entries[n - 1].0);
        if key_index(before, entries[n - 1].0) is Some {
            assert(after == before);
        } else {
            assert(after == before.push(entries[n - 1]));
            assert forall|k: int| 0 <= k < after.len() implies exists|i: int|
                0 <= i < n && entries[i] == #[trigger] after[k] by {
                if k < before.len() {
                    assert(after[k] == before[k]);
                    let i = choose|i: int| 0 <= i < n - 1 && entries[i] == before[k];
                    assert(0 <= i < n && entries[i] == after[k]);
                } else {
                    assert(entries[n - 1] == after[k]);
                }
            }
            assert forall|i: int, j: int| 0 <= i < j < after.len() implies (#[trigger] after[i]).0
                != (#[trigger] after[j]).0 by {
                if j < before.len() {
                    assert(before[i].0 != before[j].0);
                } else {
                    assert(before[i] == after[i]);
                    assert(before[i].0 != entries[n - 1].0);
                }
            }
        }
    } else {
        assert(first_of_each_key(entries, 0).len() == 0);
    }
}

/// Where no key occurs twice, `first_of_each_key` keeps every entry.
pub proof fn lemma_first_of_each_distinct_key<V>(entries: Seq<(Seq<char>, V)>, n: nat)
    requires
        n <= entries.len(),
        distinct_keys(entries),
    ensures
        first_of_each_key(entries, n) == entries.take(n as int),
    decreases n,
{
    if n > 0 {
        let before = first_of_each_key(entries, (n - 1) as nat);
        lemma_first_of_each_distinct_key(entries, (n - 1) as nat);
        lemma_key_index(before, entries[n - 1].0);
        if key_index(before, entries[n - 1].0) is Some {
            let k = key_index(before, entries[n - 1].0)->0;
            assert(before[k] == entries[k]);
            assert(entries[k].0 != entries[n - 1].0);
        }
        assert(first_of_each_key(entries, n) == before.push(entries[n - 1]));
        assert(before.push(entries[n - 1]) =~= entries.take(n as int));
    } else {
        assert(first_of_each_key(entries, 0) =~= entries.take(0));
    }
}

} // verus!
