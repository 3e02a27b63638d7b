//! The codec protocol: validate, then decode; or encode.
//!
//! Every operation follows the shape, so it nests as deep as the shape does
//! and no deeper, whatever value it is given.

use crate::enums;
use crate::error::{JsonableError, outcome};
use crate::instance::Instance;
use crate::laws::{lemma_decode_conforms, lemma_round_trip};
use crate::rules::{conforms, decode_spec, encode_spec, validate_spec};
use crate::shape::Shape;
use crate::value::Value;
use crate::structs;
use crate::types;
use vstd::prelude::*;

verus! {

impl Shape {
    /// Whether `json` describes an instance of this shape: `Ok`, or the
    /// failure. The value is only read.
    pub fn validate_json(&self, json: &Value) -> (r: Result<(), JsonableError>)
        ensures
            outcome(r) == validate_spec(*self, json@),
        decreases self, 0nat,
    {
        match self {
            Shape::Text => types::validate_text(json),
            Shape::Number(_) => types::validate_number(json),
            Shape::Optional(inner) => match json {
                Value::Null => Ok(()),
                _ => inner.validate_json(json),
            },
            Shape::Sequence(inner) => types::validate_sequence(inner, json),
            Shape::HashSet(inner) => types::validate_set(inner, json),
            Shape::Array(inner, n) => types::validate_array(inner, *n, json),
            Shape::HashMap(inner) => types::validate_map(inner, json),
            Shape::Struct(_, fields) => structs::validate(fields, json),
            Shape::Enum(ident, variants) => enums::validate(ident, variants, json),
        }
    }

    /// The instance that the valid value `json` stands for.
    pub fn decode(&self, json: &Value) -> (d: Instance)
        requires
            validate_spec(*self, json@) is Ok,
        ensures
            d@ == decode_spec(*self, json@),
            conforms(*self, d@),
        decreases self, 0nat,
    {
        proof {
            lemma_decode_conforms(*self, json@);
        }
        match self {
            Shape::Text => types::decode_text(json),
            Shape::Number(kind) => types::decode_number(*kind, json),
            Shape::Optional(inner) => match json {
                Value::Null => Instance::Optional(None),
                _ => Instance::Optional(Some(Box::new(inner.decode(json)))),
            },
            Shape::Sequence(inner) => types::decode_sequence(inner, json),
            Shape::HashSet(inner) => types::decode_set(inner, json),
            Shape::Array(inner, n) => types::decode_array(inner, *n, json),
            Shape::HashMap(inner) => types::decode_map(inner, json),
            Shape::Struct(_, fields) => structs::decode(fields, json),
            Shape::Enum(ident, variants) => enums::decode(ident, variants, json),
        }
    }

    /// Decodes a value that is known to be valid, and uses it up. A value
    /// that has not been validated is not accepted here: see
    /// [`Shape::from_json`].
    pub fn from_json_unchecked(&self, json: Value) -> (d: Instance)
        requires
            validate_spec(*self, json@) is Ok,
        ensures
            d@ == decode_spec(*self, json@),
            conforms(*self, d@),
    {
        self.decode(&json)
    }

    /// Validates `json` and, where it is valid, decodes it: the failure that
    /// validation reports, or the instance that decoding a valid value
    /// yields.
    pub fn from_json(&self, json: Value) -> (r: Result<Instance, JsonableError>)
        ensures
            match r {
                Ok(d) => {
                    &&& validate_spec(*self, json@) is Ok
                    &&& d@ == decode_spec(*self, json@)
                    &&& conforms(*self, d@)
                },
                Err(e) => validate_spec(*self, json@) == Err::<(), _>(e@),
            },
    {
        match self.validate_json(&json) {
            Ok(_) => Ok(self.from_json_unchecked(json)),
            Err(e) => Err(e),
        }
    }

    /// The value that encodes the instance `d` of this shape. The value is
    /// new: nothing of `d` is shared or changed. Where the shape is well
    /// formed and faithful, the value is valid and decodes to `d` again.
    pub fn to_json(&self, d: &Instance) -> (json: Value)
        requires
            conforms(*self, d@),
        ensures
            json@ == encode_spec(*self, d@),
            self.wf() && self.faithful() ==> validate_spec(*self, json@) is Ok && decode_spec(
                *self,
                json@,
            ) == d@,
        decreases self, 0nat,
    {
        proof {
            if self.wf() && self.faithful() {
                lemma_round_trip(*self, d@);
            }
        }
        match self {
            Shape::Text => types::encode_text(d),
            Shape::Number(kind) => types::encode_number(*kind, d),
            Shape::Optional(inner) => match d {
                Instance::Optional(Some(present)) => inner.to_json(&**present),
                _ => Value::Null,
            },
            Shape::Sequence(inner) => types::encode_elements(inner, d),
            Shape::HashSet(inner) => types::encode_elements(inner, d),
            Shape::Array(inner, _) => types::encode_elements(inner, d),
            Shape::HashMap(inner) => types::encode_map(inner, d),
            Shape::Struct(_, fields) => structs::encode(fields, d),
            Shape::Enum(_, variants) => enums::encode(variants, d),
        }
    }

    /// Whether `d` is an instance of this shape.
    pub fn admits(&self, d: &Instance) -> (r: bool)
        ensures
            r == conforms(*self, d@),
        decreases self, 0nat,
    {
        match self {
            Shape::Text => match d {
                Instance::Text(_) => true,
                _ => false,
            },
            Shape::Number(kind) => match d {
                Instance::Unsigned(v) => kind.holds_unsigned(*v),
                Instance::Signed(i) => kind.holds_signed(*i),
                _ => false,
            },
            Shape::Optional(inner) => match d {
                Instance::Optional(None) => true,
                Instance::Optional(Some(present)) => inner.admits(&**present),
                _ => false,
            },
            Shape::Sequence(inner) => match d {
                Instance::Sequence(items) => types::all_admitted(inner, items),
                _ => false,
            },
            Shape::HashSet(inner) => match d {
                Instance::Sequence(items) => crate::instance::all_distinct(items)
                    && types::all_admitted(inner, items),
                _ => false,
            },
            Shape::Array(inner, n) => match d {
                Instance::Sequence(items) => {
                    proof {
                        crate::instance::lemma_instance_models(items@);
                    }
                    items.len() == *n && types::all_admitted(inner, items)
                },
                _ => false,
            },
            Shape::HashMap(inner) => match d {
                Instance::Entries(entries) => crate::instance::all_distinct_keys(entries)
                    && types::entries_admitted(inner, entries),
                _ => false,
            },
            Shape::Struct(_, fields) => match d {
                Instance::Struct(values) => structs::admits(fields, values),
                _ => false,
            },
            Shape::Enum(_, variants) => match d {
                Instance::Variant(k, values) => *k < variants.len() && structs::admits(
                    &variants[*k].fields,
                    values,
                ),
                _ => false,
            },
        }
    }

    /// Whether the shape is well formed.
    pub fn well_formed(&self) -> (r: bool)
        ensures
            r == self.wf(),
        decreases self, 0nat,
    {
        match self {
            Shape::Text => true,
            Shape::Number(_) => true,
            Shape::Optional(inner) => inner.well_formed(),
            Shape::Sequence(inner) => inner.well_formed(),
            Shape::Array(inner, _) => inner.well_formed(),
            Shape::HashSet(inner) => inner.well_formed(),
            Shape::HashMap(inner) => inner.well_formed(),
            Shape::Struct(_, fields) => structs::well_formed(fields),
            Shape::Enum(_, variants) => enums::well_formed(variants),
        }
    }

    /// Whether encoding loses nothing: whether no optional holds an
    /// optional directly.
    pub fn is_faithful(&self) -> (r: bool)
        ensures
            r == self.faithful(),
        decreases self, 0nat,
    {
        match self {
            Shape::Text => true,
            Shape::Number(_) => true,
            Shape::Optional(inner) => {
                let nested = match &**inner {
                    Shape::Optional(_) => true,
                    _ => false,
                };
                !nested && inner.is_faithful()
            },
            Shape::Sequence(inner) => inner.is_faithful(),
            Shape::Array(inner, _) => inner.is_faithful(),
            Shape::HashSet(inner) => inner.is_faithful(),
            Shape::HashMap(inner) => inner.is_faithful(),
            Shape::Struct(_, fields) => structs::faithful(fields),
            Shape::Enum(_, variants) => enums::faithful(variants),
        }
    }
}

} // verus!
