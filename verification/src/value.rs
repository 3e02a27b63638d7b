//! The dynamic JSON value and its mathematical model.

use crate::number::Number;
use vstd::prelude::*;

verus! {

/// A JSON value.
#[derive(Debug, PartialEq, Eq)]
pub enum Value {
    Null,
    Bool(bool),
    Number(Number),
    String(String),
    Array(Vec<Value>),
    Object(Object),
}

/// The members of a JSON object, in insertion order. A key is looked up from
/// the front, so of two members with one key only the first is ever read;
/// [`Object::insert`] never adds a second.
#[derive(Debug, PartialEq, Eq)]
pub struct Object {
    pub entries: Vec<(String, Value)>,
}

/// The mathematical model of a [`Value`].
pub enum Json {
    Null,
    Bool(bool),
    Number(Number),
    String(Seq<char>),
    Array(Seq<Json>),
    Object(Seq<(Seq<char>, Json)>),
}

impl View for Value {
    type V = Json;

    open spec fn view(&self) -> Json
        decreases self,
    {
        match self {
            Value::Null => Json::Null,
            Value::Bool(b) => Json::Bool(*b),
            Value::Number(n) => Json::Number(*n),
            Value::String(s) => Json::String(s@),
            Value::Array(items) => Json::Array(
                Seq::new(
                    items@.len(),
                    |i: int|
                        if 0 <= i < items@.len() {
                            items@[i]@
                        } else {
                            Json::Null
                        },
                ),
            ),
            Value::Object(object) => Json::Object(
                Seq::new(
                    object.entries@.len(),
                    |i: int|
                        if 0 <= i < object.entries@.len() {
                            (object.entries@[i].0@, object.entries@[i].1@)
                        } else {
                            (Seq::empty(), Json::Null)
                        },
                ),
            ),
        }
    }
}

impl View for Object {
    type V = Seq<(Seq<char>, Json)>;

    open spec fn view(&self) -> Seq<(Seq<char>, Json)> {
        Seq::new(self.entries@.len(), |i: int| (self.entries@[i].0@, self.entries@[i].1@))
    }
}

/// The index of the first member of `entries` whose key is `key`.
pub open spec fn key_index<V>(entries: Seq<(Seq<char>, V)>, key: Seq<char>) -> Option<int>
    decreases entries.len(),
{
    if entries.len() == 0 {
        None
    } else {
        match key_index(entries.drop_last(), key) {
            Some(i) => Some(i),
            None => if entries.last().0 == key {
                Some(entries.len() - 1)
            } else {
                None
            },
        }
    }
}

/// The value of the first member of `entries` whose key is `key`.
pub open spec fn lookup<V>(entries: Seq<(Seq<char>, V)>, key: Seq<char>) -> Option<V> {
    match key_index(entries, key) {
        Some(i) => Some(entries[i].1),
        None => None,
    }
}

/// What a record reads under `key`: the member's value, or null where the key
/// is absent.
pub open spec fn member(entries: Seq<(Seq<char>, Json)>, key: Seq<char>) -> Json {
    match lookup(entries, key) {
        Some(j) => j,
        None => Json::Null,
    }
}

/// Whether no two members of `entries` share a key.
pub open spec fn distinct_keys<V>(entries: Seq<(Seq<char>, V)>) -> bool {
    forall|i: int, j: int|
        0 <= i < j < entries.len() ==> (#[trigger] entries[i]).0 != (#[trigger] entries[j]).0
}

/// `key_index` finds the first index that holds the key, and none where no
/// index holds it.
pub proof fn lemma_key_index<V>(entries: Seq<(Seq<char>, V)>, key: Seq<char>)
    ensures
        match key_index(entries, key) {
            Some(i) => {
                &&& 0 <= i < entries.len()
                &&& entries[i].0 == key
                &&& forall|j: int| 0 <= j < i ==> (#[trigger] entries[j]).0 != key
            },
            None => forall|j: int| 0 <= j < entries.len() ==> (#[trigger] entries[j]).0 != key,
        },
    decreases entries.len(),
{
    if entries.len() > 0 {
        lemma_key_index(entries.drop_last(), key);
        let front = entries.drop_last();
        assert forall|j: int| 0 <= j < front.len() implies front[j] == entries[j] by {}
        match key_index(front, key) {
            Some(i) => {
                assert forall|j: int| 0 <= j < i implies (#[trigger] entries[j]).0 != key by {
                    assert(front[j].0 != key);
                }
            },
            None => {
                assert forall|j: int| 0 <= j < entries.len() - 1 implies (#[trigger] entries[j]).0
                    != key by {
                    assert(front[j].0 != key);
                }
            },
        }
    }
}

/// An index that holds the key, with no earlier one that does, is what
/// `key_index` finds.
pub proof fn lemma_key_index_is<V>(entries: Seq<(Seq<char>, V)>, key: Seq<char>, i: int)
    requires
        0 <= i < entries.len(),
        entries[i].0 == key,
        forall|j: int| 0 <= j < i ==> (#[trigger] entries[j]).0 != key,
    ensures
        key_index(entries, key) == Some(i),
        lookup(entries, key) == Some(entries[i].1),
{
    lemma_key_index(entries, key);
}

/// Where no index holds the key, `key_index` finds none.
pub proof fn lemma_key_index_none<V>(entries: Seq<(Seq<char>, V)>, key: Seq<char>)
    requires
        forall|j: int| 0 <= j < entries.len() ==> (#[trigger] entries[j]).0 != key,
    ensures
        key_index(entries, key) is None,
        lookup(entries, key) is None,
{
    lemma_key_index(entries, key);
}

impl Json {
    /// The name of the value's kind, as error reports give it.
    pub open spec fn kind(self) -> Seq<char> {
        match self {
            Json::Null => "null"@,
            Json::Bool(_) => "bool"@,
            Json::Number(_) => "number"@,
            Json::String(_) => "string"@,
            Json::Array(_) => "array"@,
            Json::Object(_) => "object"@,
        }
    }
}

impl Value {
    /// The view of an array is the sequence of its items' views.
    pub proof fn lemma_view_array(items: Vec<Value>)
        ensures
            Value::Array(items)@ is Array,
            Value::Array(items)@->Array_0.len() == items@.len(),
            forall|i: int|
                0 <= i < items@.len() ==> (#[trigger] Value::Array(items)@->Array_0[i])
                    == items@[i]@,
    {
        reveal_with_fuel(<Value as View>::view, 2);
    }

    /// The view of an object is the sequence of its members' views.
    pub proof fn lemma_view_object(object: Object)
        ensures
            Value::Object(object)@ == Json::Object(object@),
            object@.len() == object.entries@.len(),
            forall|i: int|
                0 <= i < object.entries@.len() ==> (#[trigger] object@[i]) == (
                    object.entries@[i].0@,
                    object.entries@[i].1@,
                ),
    {
        reveal_with_fuel(<Value as View>::view, 2);
        assert(Value::Object(object)@->Object_0 =~= object@);
    }

    /// The name of the value's kind, as error reports give it.
    pub fn kind(&self) -> (name: &'static str)
        ensures
            name@ == self@.kind(),
    {
        match self {
            Value::Null => "null",
            Value::Bool(_) => "bool",
            Value::Number(_) => "number",
            Value::String(_) => "string",
            Value::Array(_) => "array",
            Value::Object(_) => "object",
        }
    }
}

impl Object {
    /// An object without members.
    pub fn new() -> (object: Object)
        ensures
            object@ == Seq::<(Seq<char>, Json)>::empty(),
    {
        Object { entries: Vec::new() }
    }

    /// The number of members.
    pub fn len(&self) -> (n: usize)
        ensures
            n == self@.len(),
    {
        self.entries.len()
    }

    /// The value of the first member whose key is `key`.
    pub fn get(&self, key: &String) -> (found: Option<&Value>)
        ensures
            match found {
                Some(value) => lookup(self@, key@) == Some(value@),
                None => lookup(self@, key@) is None,
            },
    {
        let mut i: usize = 0;
        while i < self.entries.len()
            invariant
                i <= self.entries.len(),
                forall|j: int| 0 <= j < i ==> (#[trigger] self@[j]).0 != key@,
            decreases self.entries.len() - i,
        {
            if self.entries[i].0 == *key {
                proof {
                    lemma_key_index_is(self@, key@, i as int);
                }
                return Some(&self.entries[i].1);
            }
            i += 1;
        }
        proof {
            lemma_key_index_none(self@, key@);
        }
        None
    }

    /// Sets the value under `key`: in place where a member has the key, as a
    /// new last member where none has.
    pub fn insert(&mut self, key: String, value: Value)
        ensures
            match key_index(old(self)@, key@) {
                Some(i) => final(self)@ == old(self)@.update(i, (key@, value@)),
                None => final(self)@ == old(self)@.push((key@, value@)),
            },
            distinct_keys(old(self)@) ==> distinct_keys(final(self)@),
    {
        let ghost before = self@;
        let mut i: usize = 0;
        while i < self.entries.len()
            invariant
                i <= self.entries.len(),
                self@ == before,
                before == old(self)@,
                forall|j: int| 0 <= j < i ==> (#[trigger] before[j]).0 != key@,
            decreases self.entries.len() - i,
        {
            if self.entries[i].0 == key {
                proof {
                    lemma_key_index_is(before, key@, i as int);
                }
                self.entries.set(i, (key, value));
                proof {
                    let after = self@;
                    assert(after =~= before.update(i as int, (key@, value@)));
                    if distinct_keys(before) {
                        assert forall|a: int, b: int| 0 <= a < b < after.len() implies (
                        #[trigger] after[a]).0 != (#[trigger] after[b]).0 by {
                            assert(before[a].0 != before[b].0);
                        }
                    }
                }
                return ;
            }
            i += 1;
        }
        proof {
            lemma_key_index_none(before, key@);
        }
        self.entries.push((key, value));
        assert(self@ =~= before.push((key@, value@)));
    }
}

} // verus!
