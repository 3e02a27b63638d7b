//! The codec protocol for types of the language: strings, integers,
//! optionals, vectors and arrays.
//!
//! A type that implements [`Jsonable`] names its shape, and its three
//! operations are held to the rules of that shape: so what is proved of the
//! rules holds of every such type.

use crate::error::{JsonableError, outcome};
use crate::instance::InstanceModel;
use crate::lemmas::{lemma_decode_items, lemma_encode_items};
use crate::number::{Number, NumberKind};
use crate::rules::{
    all_conform, conforms, decode_items, decode_spec, encode_items, encode_spec, items_valid,
    validate_spec,
};
use crate::shape::Shape;
use crate::value::{Json, Value};
use vstd::pervasive::unreached;
use vstd::prelude::*;

verus! {

/// A type that can be converted to and from a JSON value.
///
/// `shape`, `instance` and `lemma_conforms` exist for the proofs alone and
/// are never run: an implementation that is not verified may give them any
/// body.
pub trait Jsonable: Sized {
    /// The shape of the type.
    spec fn shape() -> Shape;

    /// The instance of the shape that a value of the type is.
    spec fn instance(&self) -> InstanceModel;

    /// A value of the type is an instance of the type's shape.
    proof fn lemma_conforms(&self)
        ensures
            conforms(Self::shape(), self.instance()),
    ;

    /// The shape of the type.
    fn describe() -> (shape: Shape)
        ensures
            shape == Self::shape(),
    ;

    /// Validates `json` and, where it is valid, decodes it.
    fn from_json(json: Value) -> (r: Result<Self, JsonableError>)
        ensures
            match r {
                Ok(v) => validate_spec(Self::shape(), json@) is Ok && v.instance() == decode_spec(
                    Self::shape(),
                    json@,
                ),
                Err(e) => validate_spec(Self::shape(), json@) == Err::<(), _>(e@),
            },
    {
        match Self::validate_json(&json) {
            Ok(_) => Ok(Self::from_json_unchecked(json)),
            Err(err) => Err(err),
        }
    }

    /// Decodes a value that is known to be valid, and uses it up.
    fn from_json_unchecked(json: Value) -> (v: Self)
        requires
            validate_spec(Self::shape(), json@) is Ok,
        ensures
            v.instance() == decode_spec(Self::shape(), json@),
    ;

    /// Encodes the value.
    fn to_json(&self) -> (json: Value)
        ensures
            json@ == encode_spec(Self::shape(), self.instance()),
    ;

    /// Whether `json` describes a value of the type: `Ok`, or the failure.
    fn validate_json(json: &Value) -> (r: Result<(), JsonableError>)
        ensures
            outcome(r) == validate_spec(Self::shape(), json@),
    ;
}

impl Jsonable for String {
    open spec fn shape() -> Shape {
        Shape::Text
    }

    open spec fn instance(&self) -> InstanceModel {
        InstanceModel::Text(self@)
    }

    proof fn lemma_conforms(&self) {
    }

    fn describe() -> Shape {
        Shape::Text
    }

    fn from_json_unchecked(json: Value) -> String {
        match json {
            Value::String(s) => s,
            _ => unreached(),
        }
    }

    fn to_json(&self) -> Value {
        Value::String(self.clone())
    }

    fn validate_json(json: &Value) -> Result<(), JsonableError> {
        crate::types::validate_text(json)
    }
}

impl Jsonable for u8 {
    open spec fn shape() -> Shape {
        Shape::Number(NumberKind::U8)
    }

    open spec fn instance(&self) -> InstanceModel {
        InstanceModel::Integer(*self as int)
    }

    proof fn lemma_conforms(&self) {
    }

    fn describe() -> Shape {
        Shape::Number(NumberKind::U8)
    }

    fn from_json_unchecked(json: Value) -> u8 {
        match json {
            Value::Number(n) => NumberKind::U8.decode_unsigned(&n) as u8,
            _ => unreached(),
        }
    }

    fn to_json(&self) -> Value {
        Value::Number(Number::from_unsigned(*self as u64))
    }

    fn validate_json(json: &Value) -> Result<(), JsonableError> {
        crate::types::validate_number(json)
    }
}

impl Jsonable for u16 {
    open spec fn shape() -> Shape {
        Shape::Number(NumberKind::U16)
    }

    open spec fn instance(&self) -> InstanceModel {
        InstanceModel::Integer(*self as int)
    }

    proof fn lemma_conforms(&self) {
    }

    fn describe() -> Shape {
        Shape::Number(NumberKind::U16)
    }

    fn from_json_unchecked(json: Value) -> u16 {
        match json {
            Value::Number(n) => NumberKind::U16.decode_unsigned(&n) as u16,
            _ => unreached(),
        }
    }

    fn to_json(&self) -> Value {
        Value::Number(Number::from_unsigned(*self as u64))
    }

    fn validate_json(json: &Value) -> Result<(), JsonableError> {
        crate::types::validate_number(json)
    }
}

impl Jsonable for u32 {
    open spec fn shape() -> Shape {
        Shape::Number(NumberKind::U32)
    }

    open spec fn instance(&self) -> InstanceModel {
        InstanceModel::Integer(*self as int)
    }

    proof fn lemma_conforms(&self) {
    }

    fn describe() -> Shape {
        Shape::Number(NumberKind::U32)
    }

    fn from_json_unchecked(json: Value) -> u32 {
        match json {
            Value::Number(n) => NumberKind::U32.decode_unsigned(&n) as u32,
            _ => unreached(),
        }
    }

    fn to_json(&self) -> Value {
        Value::Number(Number::from_unsigned(*self as u64))
    }

    fn validate_json(json: &Value) -> Result<(), JsonableError> {
        crate::types::validate_number(json)
    }
}

impl Jsonable for u64 {
    open spec fn shape() -> Shape {
        Shape::Number(NumberKind::U64)
    }

    open spec fn instance(&self) -> InstanceModel {
        InstanceModel::Integer(*self as int)
    }

    proof fn lemma_conforms(&self) {
    }

    fn describe() -> Shape {
        Shape::Number(NumberKind::U64)
    }

    fn from_json_unchecked(json: Value) -> u64 {
        match json {
            Value::Number(n) => NumberKind::U64.decode_unsigned(&n),
            _ => unreached(),
        }
    }

    fn to_json(&self) -> Value {
        Value::Number(Number::from_unsigned(*self))
    }

    fn validate_json(json: &Value) -> Result<(), JsonableError> {
        crate::types::validate_number(json)
    }
}

impl Jsonable for i8 {
    open spec fn shape() -> Shape {
        Shape::Number(NumberKind::I8)
    }

    open spec fn instance(&self) -> InstanceModel {
        InstanceModel::Integer(*self as int)
    }

    proof fn lemma_conforms(&self) {
    }

    fn describe() -> Shape {
        Shape::Number(NumberKind::I8)
    }

    fn from_json_unchecked(json: Value) -> i8 {
        match json {
            Value::Number(n) => NumberKind::I8.decode_signed(&n) as i8,
            _ => unreached(),
        }
    }

    fn to_json(&self) -> Value {
        Value::Number(Number::from_signed(*self as i64))
    }

    fn validate_json(json: &Value) -> Result<(), JsonableError> {
        crate::types::validate_number(json)
    }
}

impl Jsonable for i16 {
    open spec fn shape() -> Shape {
        Shape::Number(NumberKind::I16)
    }

    open spec fn instance(&self) -> InstanceModel {
        InstanceModel::Integer(*self as int)
    }

    proof fn lemma_conforms(&self) {
    }

    fn describe() -> Shape {
        Shape::Number(NumberKind::I16)
    }

    fn from_json_unchecked(json: Value) -> i16 {
        match json {
            Value::Number(n) => NumberKind::I16.decode_signed(&n) as i16,
            _ => unreached(),
        }
    }

    fn to_json(&self) -> Value {
        Value::Number(Number::from_signed(*self as i64))
    }

    fn validate_json(json: &Value) -> Result<(), JsonableError> {
        crate::types::validate_number(json)
    }
}

impl Jsonable for i32 {
    open spec fn shape() -> Shape {
        Shape::Number(NumberKind::I32)
    }

    open spec fn instance(&self) -> InstanceModel {
        InstanceModel::Integer(*self as int)
    }

    proof fn lemma_conforms(&self) {
    }

    fn describe() -> Shape {
        Shape::Number(NumberKind::I32)
    }

    fn from_json_unchecked(json: Value) -> i32 {
        match json {
            Value::Number(n) => NumberKind::I32.decode_signed(&n) as i32,
            _ => unreached(),
        }
    }

    fn to_json(&self) -> Value {
        Value::Number(Number::from_signed(*self as i64))
    }

    fn validate_json(json: &Value) -> Result<(), JsonableError> {
        crate::types::validate_number(json)
    }
}

impl Jsonable for i64 {
    open spec fn shape() -> Shape {
        Shape::Number(NumberKind::I64)
    }

    open spec fn instance(&self) -> InstanceModel {
        InstanceModel::Integer(*self as int)
    }

    proof fn lemma_conforms(&self) {
    }

    fn describe() -> Shape {
        Shape::Number(NumberKind::I64)
    }

    fn from_json_unchecked(json: Value) -> i64 {
        match json {
            Value::Number(n) => NumberKind::I64.decode_signed(&n),
            _ => unreached(),
        }
    }

    fn to_json(&self) -> Value {
        Value::Number(Number::from_signed(*self))
    }

    fn validate_json(json: &Value) -> Result<(), JsonableError> {
        crate::types::validate_number(json)
    }
}

impl<T: Jsonable> Jsonable for Option<T> {
    open spec fn shape() -> Shape {
        Shape::Optional(Box::new(T::shape()))
    }

    open spec fn instance(&self) -> InstanceModel {
        match self {
            None => InstanceModel::Optional(None),
            Some(v) => InstanceModel::Optional(Some(Box::new(v.instance()))),
        }
    }

    proof fn lemma_conforms(&self) {
        match self {
            None => {},
            Some(v) => {
                v.lemma_conforms();
            },
        }
    }

    fn describe() -> Shape {
        Shape::Optional(Box::new(T::describe()))
    }

    fn from_json_unchecked(json: Value) -> Option<T> {
        match json {
            Value::Null => None,
            other => Some(T::from_json_unchecked(other)),
        }
    }

    fn to_json(&self) -> Value {
        match self {
            Some(v) => v.to_json(),
            None => Value::Null,
        }
    }

    fn validate_json(json: &Value) -> Result<(), JsonableError> {
        match json {
            Value::Null => Ok(()),
            _ => T::validate_json(json),
        }
    }
}

/// The instances that the elements of `items` are.
pub open spec fn instances<T: Jsonable>(items: Seq<T>) -> Seq<InstanceModel> {
    Seq::new(items.len(), |i: int| items[i].instance())
}

impl<T: Jsonable> Jsonable for Vec<T> {
    open spec fn shape() -> Shape {
        Shape::Sequence(Box::new(T::shape()))
    }

    open spec fn instance(&self) -> InstanceModel {
        InstanceModel::Sequence(instances(self@))
    }

    proof fn lemma_conforms(&self) {
        assert forall|i: int| 0 <= i < self@.len() implies conforms(
            T::shape(),
            #[trigger] instances(self@)[i],
        ) by {
            self@[i].lemma_conforms();
        }
        assert(all_conform(T::shape(), instances(self@)));
    }

    fn describe() -> Shape {
        Shape::Sequence(Box::new(T::describe()))
    }

    fn from_json_unchecked(json: Value) -> Vec<T> {
        match json {
            Value::Array(items) => {
                proof {
                    Value::lemma_view_array(items);
                }
                let ghost models = json@->Array_0;
                let mut out: Vec<T> = Vec::new();
                for item in iter: items
                    invariant
                        out@.len() == iter.index(),
                        iter.seq() == items@,
                        models.len() == items@.len(),
                        forall|k: int| 0 <= k < items@.len() ==> (#[trigger] models[k]) == items@[k]@,
                        items_valid(T::shape(), models),
                        forall|k: int|
                            0 <= k < out@.len() ==> (#[trigger] out@[k]).instance() == decode_spec(
                                T::shape(),
                                models[k],
                            ),
                {
                    assert(validate_spec(T::shape(), models[iter.index()]) is Ok);
                    let v = T::from_json_unchecked(item);
                    out.push(v);
                }
                proof {
                    lemma_decode_items(T::shape(), models, models.len());
                    assert(instances(out@) =~= decode_items(T::shape(), models, models.len()));
                }
                out
            },
            _ => unreached(),
        }
    }

    fn to_json(&self) -> Value {
        let ghost models = instances(self@);
        let mut out: Vec<Value> = Vec::new();
        let mut i: usize = 0;
        while i < self.len()
            invariant
                i <= self.len(),
                out@.len() == i,
                models == instances(self@),
                forall|k: int|
                    0 <= k < i ==> (#[trigger] out@[k])@ == encode_spec(T::shape(), models[k]),
            decreases self.len() - i,
        {
            let v = self[i].to_json();
            out.push(v);
            i += 1;
        }
        proof {
            Value::lemma_view_array(out);
            lemma_encode_items(T::shape(), models, models.len());
            assert(Value::Array(out)@->Array_0 =~= encode_items(T::shape(), models, models.len()));
        }
        Value::Array(out)
    }

    fn validate_json(json: &Value) -> Result<(), JsonableError> {
        match json {
            Value::Array(items) => {
                proof {
                    Value::lemma_view_array(*items);
                }
                let ghost models = json@->Array_0;
                let mut i: usize = 0;
                while i < items.len()
                    invariant
                        i <= items.len(),
                        json@ == Json::Array(models),
                        models.len() == items@.len(),
                        forall|k: int| 0 <= k < items@.len() ==> (#[trigger] models[k]) == items@[k]@,
                        forall|k: int|
                            0 <= k < i ==> validate_spec(T::shape(), #[trigger] models[k]) is Ok,
                    decreases items.len() - i,
                {
                    match T::validate_json(&items[i]) {
                        Ok(_) => {},
                        Err(_) => {
                            assert(!(validate_spec(T::shape(), models[i as int]) is Ok));
                            assert(!items_valid(T::shape(), models));
                            return Err(
                                JsonableError::IncompatibleEntryForType(T::describe().to_name()),
                            );
                        },
                    }
                    i += 1;
                }
                assert(items_valid(T::shape(), models));
                Ok(())
            },
            other => Err(JsonableError::mismatch(other.kind(), "array")),
        }
    }
}

/// `TryFrom<Vec<T>>` for `[T; N]` of the standard library: the contents of
/// the vector as an array where the vector holds exactly `N` elements, the
/// vector itself where it does not.
#[verifier::external_body]
fn into_array<T, const N: usize>(items: Vec<T>) -> (r: Result<[T; N], Vec<T>>)
    ensures
        match r {
            Ok(array) => items@.len() == N && array@ == items@,
            Err(rest) => items@.len() != N && rest@ == items@,
        },
{
    items.try_into()
}

impl<T: Jsonable, const N: usize> Jsonable for [T; N] {
    open spec fn shape() -> Shape {
        Shape::Array(Box::new(T::shape()), N)
    }

    open spec fn instance(&self) -> InstanceModel {
        InstanceModel::Sequence(instances(self@))
    }

    proof fn lemma_conforms(&self) {
        assert forall|i: int| 0 <= i < self@.len() implies conforms(
            T::shape(),
            #[trigger] instances(self@)[i],
        ) by {
            self@[i].lemma_conforms();
        }
        assert(all_conform(T::shape(), instances(self@)));
    }

    fn describe() -> Shape {
        Shape::Array(Box::new(T::describe()), N)
    }

    fn from_json_unchecked(json: Value) -> [T; N] {
        let ghost models = json@->Array_0;
        assert(validate_spec(Shape::Sequence(Box::new(T::shape())), json@) is Ok);
        let items = Vec::<T>::from_json_unchecked(json);
        proof {
            lemma_decode_items(T::shape(), models, models.len());
        }
        match into_array(items) {
            Ok(array) => array,
            Err(_) => unreached(),
        }
    }

    fn to_json(&self) -> Value {
        let ghost models = instances(self@);
        let mut out: Vec<Value> = Vec::new();
        let mut i: usize = 0;
        while i < N
            invariant
                i <= N,
                self@.len() == N,
                out@.len() == i,
                models == instances(self@),
                forall|k: int|
                    0 <= k < i ==> (#[trigger] out@[k])@ == encode_spec(T::shape(), models[k]),
            decreases N - i,
        {
            let v = self[i].to_json();
            out.push(v);
            i += 1;
        }
        proof {
            Value::lemma_view_array(out);
            lemma_encode_items(T::shape(), models, models.len());
            assert(Value::Array(out)@->Array_0 =~= encode_items(T::shape(), models, models.len()));
        }
        Value::Array(out)
    }

    fn validate_json(json: &Value) -> Result<(), JsonableError> {
        match json {
            Value::Array(items) => {
                proof {
                    Value::lemma_view_array(*items);
                }
                if items.len() != N {
                    Err(JsonableError::InvalidArrayLength { got: items.len(), expected: N })
                } else {
                    match Vec::<T>::validate_json(json) {
                        Ok(_) => Ok(()),
                        Err(e) => Err(e),
                    }
                }
            },
            other => Err(JsonableError::mismatch(other.kind(), "array")),
        }
    }
}

/// **Round trip.** A value of a type with a well-formed, faithful shape is
/// encoded as a valid value that decodes to the same instance.
pub proof fn lemma_round_trip_of<T: Jsonable>(v: T)
    requires
        T::shape().wf(),
        T::shape().faithful(),
    ensures
        validate_spec(T::shape(), encode_spec(T::shape(), v.instance())) is Ok,
        decode_spec(T::shape(), encode_spec(T::shape(), v.instance())) == v.instance(),
{
    v.lemma_conforms();
    crate::laws::lemma_round_trip(T::shape(), v.instance());
}

} // verus!
