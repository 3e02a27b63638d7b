//! Decoded values: what a JSON value stands for under a shape.

use vstd::prelude::*;

verus! {

/// An instance of some shape. Which shape it is an instance of is not stored
/// in it: see `conforms`.
#[derive(Debug, PartialEq, Eq)]
pub enum Instance {
    /// A string.
    Text(String),
    /// An integer of an unsigned kind.
    Unsigned(u64),
    /// An integer of a signed kind.
    Signed(i64),
    /// An optional value: absent, or present with its value.
    Optional(Option<Box<Instance>>),
    /// The elements of a sequence, of a fixed-length array or of a set, in
    /// order. An instance of a set holds no element twice.
    Sequence(Vec<Instance>),
    /// The entries of a string-keyed map, in order. An instance of a map
    /// holds no key twice.
    Entries(Vec<(String, Instance)>),
    /// The field values of a record, in declared order.
    Struct(Vec<Instance>),
    /// A variant of a union: its index among the declared variants, and its
    /// field values in declared order.
    Variant(usize, Vec<Instance>),
}

/// The mathematical model of an [`Instance`].
pub enum InstanceModel {
    Text(Seq<char>),
    Integer(int),
    Optional(Option<Box<InstanceModel>>),
    Sequence(Seq<InstanceModel>),
    Entries(Seq<(Seq<char>, InstanceModel)>),
    Struct(Seq<InstanceModel>),
    Variant(int, Seq<InstanceModel>),
}

impl View for Instance {
    type V = InstanceModel;

    open spec fn view(&self) -> InstanceModel
        decreases self, 0nat,
    {
        match self {
            Instance::Text(s) => InstanceModel::Text(s@),
            Instance::Unsigned(v) => InstanceModel::Integer(*v as int),
            Instance::Signed(i) => InstanceModel::Integer(*i as int),
            Instance::Optional(None) => InstanceModel::Optional(None),
            Instance::Optional(Some(inner)) => InstanceModel::Optional(
                Some(Box::new((**inner)@)),
            ),
            Instance::Sequence(items) => InstanceModel::Sequence(instance_models(items@)),
            Instance::Entries(entries) => InstanceModel::Entries(entry_models(entries@)),
            Instance::Struct(values) => InstanceModel::Struct(instance_models(values@)),
            Instance::Variant(index, values) => InstanceModel::Variant(
                *index as int,
                instance_models(values@),
            ),
        }
    }
}

/// The models of the first `n` of `items`, in order.
pub open spec fn instance_models_to(items: Seq<Instance>, n: nat) -> Seq<InstanceModel>
    decreases items, n,
{
    if n == 0 || n > items.len() {
        Seq::empty()
    } else {
        instance_models_to(items, (n - 1) as nat).push(items[n - 1]@)
    }
}

/// The models of `items`, in order.
pub open spec fn instance_models(items: Seq<Instance>) -> Seq<InstanceModel>
    decreases items, items.len() + 1,
{
    instance_models_to(items, items.len())
}

/// The models of the first `n` of `entries`, in order.
pub open spec fn entry_models_to(entries: Seq<(String, Instance)>, n: nat) -> Seq<
    (Seq<char>, InstanceModel),
>
    decreases entries, n,
{
    if n == 0 || n > entries.len() {
        Seq::empty()
    } else {
        entry_models_to(entries, (n - 1) as nat).push((entries[n - 1].0@, entries[n - 1].1@))
    }
}

/// The models of `entries`, in order.
pub open spec fn entry_models(entries: Seq<(String, Instance)>) -> Seq<(Seq<char>, InstanceModel)>
    decreases entries, entries.len() + 1,
{
    entry_models_to(entries, entries.len())
}

/// `instance_models_to` maps the first `n` items one for one.
pub proof fn lemma_instance_models_to(items: Seq<Instance>, n: nat)
    requires
        n <= items.len(),
    ensures
        instance_models_to(items, n).len() == n,
        forall|i: int| 0 <= i < n ==> (#[trigger] instance_models_to(items, n)[i]) == items[i]@,
    decreases n,
{
    if n > 0 {
        lemma_instance_models_to(items, (n - 1) as nat);
        assert(instance_models_to(items, n) == instance_models_to(items, (n - 1) as nat).push(
            items[n - 1]@,
        ));
    }
}

/// `instance_models` maps the items one for one.
pub proof fn lemma_instance_models(items: Seq<Instance>)
    ensures
        instance_models(items).len() == items.len(),
        forall|i: int| 0 <= i < items.len() ==> (#[trigger] instance_models(items)[i]) == items[i]@,
{
    lemma_instance_models_to(items, items.len());
}

/// `entry_models_to` maps the first `n` entries one for one.
pub proof fn lemma_entry_models_to(entries: Seq<(String, Instance)>, n: nat)
    requires
        n <= entries.len(),
    ensures
        entry_models_to(entries, n).len() == n,
        forall|i: int|
            0 <= i < n ==> (#[trigger] entry_models_to(entries, n)[i]) == (
                entries[i].0@,
                entries[i].1@,
            ),
    decreases n,
{
    if n > 0 {
        lemma_entry_models_to(entries, (n - 1) as nat);
        assert(entry_models_to(entries, n) == entry_models_to(entries, (n - 1) as nat).push(
            (entries[n - 1].0@, entries[n - 1].1@),
        ));
    }
}

/// `entry_models` maps the entries one for one.
pub proof fn lemma_entry_models(entries: Seq<(String, Instance)>)
    ensures
        entry_models(entries).len() == entries.len(),
        forall|i: int|
            0 <= i < entries.len() ==> (#[trigger] entry_models(entries)[i]) == (
                entries[i].0@,
                entries[i].1@,
            ),
{
    lemma_entry_models_to(entries, entries.len());
}

/// The models of a list one longer are the models of the list and that of
/// the new last item.
pub proof fn lemma_instance_models_push(items: Seq<Instance>, d: Instance)
    ensures
        instance_models(items.push(d)) == instance_models(items).push(d@),
{
    lemma_instance_models(items);
    lemma_instance_models(items.push(d));
    assert(instance_models(items.push(d)) =~= instance_models(items).push(d@));
}

/// The models of a list one longer are the models of the list and that of
/// the new last entry.
pub proof fn lemma_entry_models_push(entries: Seq<(String, Instance)>, e: (String, Instance))
    ensures
        entry_models(entries.push(e)) == entry_models(entries).push((e.0@, e.1@)),
{
    lemma_entry_models(entries);
    lemma_entry_models(entries.push(e));
    assert(entry_models(entries.push(e)) =~= entry_models(entries).push((e.0@, e.1@)));
}

impl Instance {
    /// Whether the two instances are the same: whether their models are
    /// equal. An integer is the same whether it is held as signed or as
    /// unsigned.
    pub fn same(&self, other: &Instance) -> (r: bool)
        ensures
            r == (self@ == other@),
        decreases self, 0nat,
    {
        match (self, other) {
            (Instance::Text(a), Instance::Text(b)) => *a == *b,
            (Instance::Unsigned(a), Instance::Unsigned(b)) => *a == *b,
            (Instance::Signed(a), Instance::Signed(b)) => *a == *b,
            (Instance::Unsigned(a), Instance::Signed(b)) => *b >= 0 && *b as u64 == *a,
            (Instance::Signed(a), Instance::Unsigned(b)) => *a >= 0 && *a as u64 == *b,
            (Instance::Optional(None), Instance::Optional(None)) => true,
            (Instance::Optional(Some(a)), Instance::Optional(Some(b))) => a.same(&**b),
            (Instance::Sequence(a), Instance::Sequence(b)) => all_same(a, b),
            (Instance::Entries(a), Instance::Entries(b)) => entries_same(a, b),
            (Instance::Struct(a), Instance::Struct(b)) => all_same(a, b),
            (Instance::Variant(i, a), Instance::Variant(j, b)) => *i == *j && all_same(a, b),
            _ => false,
        }
    }
}

/// Whether the two lists hold the same instances in the same order.
pub fn all_same(a: &Vec<Instance>, b: &Vec<Instance>) -> (r: bool)
    ensures
        r == (instance_models(a@) == instance_models(b@)),
    decreases a, 1nat,
{
    proof {
        lemma_instance_models(a@);
        lemma_instance_models(b@);
    }
    if a.len() != b.len() {
        return false;
    }
    let mut i: usize = 0;
    while i < a.len()
        invariant
            i <= a.len(),
            a.len() == b.len(),
            instance_models(a@).len() == a@.len(),
            instance_models(b@).len() == b@.len(),
            forall|k: int| 0 <= k < a@.len() ==> (#[trigger] instance_models(a@)[k]) == a@[k]@,
            forall|k: int| 0 <= k < b@.len() ==> (#[trigger] instance_models(b@)[k]) == b@[k]@,
            forall|k: int| 0 <= k < i ==> (#[trigger] a@[k])@ == b@[k]@,
        decreases a.len() - i,
    {
        if !a[i].same(&b[i]) {
            assert(instance_models(a@)[i as int] != instance_models(b@)[i as int]);
            return false;
        }
        i += 1;
    }
    assert(instance_models(a@) =~= instance_models(b@));
    true
}

/// Whether the two lists hold the same entries in the same order.
pub fn entries_same(a: &Vec<(String, Instance)>, b: &Vec<(String, Instance)>) -> (r: bool)
    ensures
        r == (entry_models(a@) == entry_models(b@)),
    decreases a, 1nat,
{
    proof {
        lemma_entry_models(a@);
        lemma_entry_models(b@);
    }
    if a.len() != b.len() {
        return false;
    }
    let mut i: usize = 0;
    while i < a.len()
        invariant
            i <= a.len(),
            a.len() == b.len(),
            entry_models(a@).len() == a@.len(),
            entry_models(b@).len() == b@.len(),
            forall|k: int|
                0 <= k < a@.len() ==> (#[trigger] entry_models(a@)[k]) == (a@[k].0@, a@[k].1@),
            forall|k: int|
                0 <= k < b@.len() ==> (#[trigger] entry_models(b@)[k]) == (b@[k].0@, b@[k].1@),
            forall|k: int|
                0 <= k < i ==> (#[trigger] a@[k]).0@ == b@[k].0@ && a@[k].1@ == b@[k].1@,
        decreases a.len() - i,
    {
        if !(a[i].0 == b[i].0 && a[i].1.same(&b[i].1)) {
            assert(entry_models(a@)[i as int] != entry_models(b@)[i as int]);
            return false;
        }
        i += 1;
    }
    assert(entry_models(a@) =~= entry_models(b@));
    true
}

/// Whether `d` is among `items`.
pub fn holds(items: &Vec<Instance>, d: &Instance) -> (r: bool)
    ensures
        r == instance_models(items@).contains(d@),
{
    proof {
        lemma_instance_models(items@);
    }
    let mut i: usize = 0;
    while i < items.len()
        invariant
            i <= items.len(),
            instance_models(items@).len() == items@.len(),
            forall|k: int|
                0 <= k < items@.len() ==> (#[trigger] instance_models(items@)[k]) == items@[k]@,
            forall|k: int| 0 <= k < i ==> (#[trigger] instance_models(items@)[k]) != d@,
        decreases items.len() - i,
    {
        if items[i].same(d) {
            assert(instance_models(items@)[i as int] == d@);
            return true;
        }
        i += 1;
    }
    false
}

/// Whether an entry of `entries` has the key `key`.
pub fn has_key(entries: &Vec<(String, Instance)>, key: &String) -> (r: bool)
    ensures
        r == (crate::value::key_index(entry_models(entries@), key@) is Some),
{
    proof {
        lemma_entry_models(entries@);
    }
    let mut i: usize = 0;
    while i < entries.len()
        invariant
            i <= entries.len(),
            entry_models(entries@).len() == entries@.len(),
            forall|k: int|
                0 <= k < entries@.len() ==> (#[trigger] entry_models(entries@)[k]) == (
                    entries@[k].0@,
                    entries@[k].1@,
                ),
            forall|k: int| 0 <= k < i ==> (#[trigger] entry_models(entries@)[k]).0 != key@,
        decreases entries.len() - i,
    {
        if entries[i].0 == *key {
            proof {
                crate::value::lemma_key_index_is(entry_models(entries@), key@, i as int);
            }
            return true;
        }
        i += 1;
    }
    proof {
        crate::value::lemma_key_index_none(entry_models(entries@), key@);
    }
    false
}

/// Whether no instance occurs twice in `items`.
pub fn all_distinct(items: &Vec<Instance>) -> (r: bool)
    ensures
        r == instance_models(items@).no_duplicates(),
{
    proof {
        lemma_instance_models(items@);
    }
    let ghost models = instance_models(items@);
    let mut j: usize = 0;
    while j < items.len()
        invariant
            j <= items.len(),
            models == instance_models(items@),
            models.len() == items@.len(),
            forall|k: int| 0 <= k < items@.len() ==> (#[trigger] models[k]) == items@[k]@,
            forall|a: int, b: int| 0 <= a < b < j ==> models[a] != models[b],
        decreases items.len() - j,
    {
        let mut i: usize = 0;
        while i < j
            invariant
                i <= j < items.len(),
                models == instance_models(items@),
                models.len() == items@.len(),
                forall|k: int| 0 <= k < items@.len() ==> (#[trigger] models[k]) == items@[k]@,
                forall|a: int| 0 <= a < i ==> models[a] != models[j as int],
            decreases j - i,
        {
            if items[i].same(&items[j]) {
                assert(models[i as int] == models[j as int]);
                return false;
            }
            i += 1;
        }
        j += 1;
    }
    assert forall|a: int, b: int|
        0 <= a < models.len() && 0 <= b < models.len() && a != b implies models[a] != models[b] by {
        if a < b {
            assert(models[a] != models[b]);
        } else {
            assert(models[b] != models[a]);
        }
    }
    true
}

/// Whether no key occurs twice in `entries`.
pub fn all_distinct_keys(entries: &Vec<(String, Instance)>) -> (r: bool)
    ensures
        r == crate::value::distinct_keys(entry_models(entries@)),
{
    proof {
        lemma_entry_models(entries@);
    }
    let ghost models = entry_models(entries@);
    let mut j: usize = 0;
    while j < entries.len()
        invariant
            j <= entries.len(),
            models == entry_models(entries@),
            models.len() == entries@.len(),
            forall|k: int|
                0 <= k < entries@.len() ==> (#[trigger] models[k]) == (
                    entries@[k].0@,
                    entries@[k].1@,
                ),
            forall|a: int, b: int|
                0 <= a < b < j ==> (#[trigger] models[a]).0 != (#[trigger] models[b]).0,
        decreases entries.len() - j,
    {
        let mut i: usize = 0;
        while i < j
            invariant
                i <= j < entries.len(),
                models == entry_models(entries@),
                models.len() == entries@.len(),
                forall|k: int|
                    0 <= k < entries@.len() ==> (#[trigger] models[k]) == (
                        entries@[k].0@,
                        entries@[k].1@,
                    ),
                forall|a: int| 0 <= a < i ==> (#[trigger] models[a]).0 != models[j as int].0,
            decreases j - i,
        {
            if entries[i].0 == entries[j].0 {
                assert(models[i as int].0 == models[j as int].0);
                return false;
            }
            i += 1;
        }
        j += 1;
    }
    true
}

} // verus!
