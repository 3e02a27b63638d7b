//! Conversion between shaped records and dynamic JSON values.
//!
//! A [`Shape`] describes a type: a primitive, a container, a record or a
//! tagged union. The shape alone decides how an instance is encoded as a
//! JSON [`Value`], which values are valid, and what a valid value decodes
//! to. Validation is kept apart from decoding: untrusted input is validated,
//! which reports a structured [`JsonableError`], and only a valid value is
//! decoded, which then cannot fail.

pub mod codec;
pub mod enums;
pub mod error;
pub mod instance;
pub mod jsonable;
pub mod laws;
pub mod lemmas;
pub mod number;
pub mod rules;
pub mod shape;
pub mod structs;
pub mod text;
pub mod types;
pub mod value;

pub use crate::error::JsonableError;
pub use crate::instance::Instance;
pub use crate::jsonable::Jsonable;
pub use crate::number::{Number, NumberKind};
pub use crate::shape::{Data, DeriveInput, Field, Fields, Shape, Variant};
pub use crate::value::{Object, Value};

use vstd::prelude::*;

verus! {

/// The shape that a declaration gives rise to, or why it gives rise to none.
/// A record has a shape where no two named fields share a name; a tagged
/// union has one where [`enums::refusal`] finds nothing to refuse; an
/// untagged union has none.
pub open spec fn derived(input: DeriveInput) -> Result<Shape, Seq<char>> {
    match input.data {
        Data::Struct(Fields::Named(fields)) => if shape::distinct_field_names(fields@) {
            Ok(Shape::Struct(input.ident, Fields::Named(fields)))
        } else {
            Err("duplicate field name"@)
        },
        Data::Struct(fields) => Ok(Shape::Struct(input.ident, fields)),
        Data::Enum(variants) => match enums::refusal(variants@) {
            None => Ok(Shape::Enum(input.ident, variants)),
            Some(reason) => Err(reason),
        },
        Data::Union => Err("Jsonable does not support unions"@),
    }
}

/// The shape of the declared type, or why there is none.
pub fn derive_jsonable(input: DeriveInput) -> (r: Result<Shape, String>)
    ensures
        match r {
            Ok(shape) => derived(input) == Ok::<Shape, Seq<char>>(shape),
            Err(reason) => derived(input) == Err::<Shape, Seq<char>>(reason@),
        },
{
    let DeriveInput { ident, data } = input;
    match data {
        Data::Struct(Fields::Named(fields)) => structs::implement_named(&ident, fields),
        Data::Struct(Fields::Unit) => Ok(structs::implement_unit(&ident)),
        Data::Struct(Fields::Unnamed(fields)) => structs::implement_unnamed(&ident, fields),
        Data::Enum(variants) => enums::implement(&ident, variants),
        Data::Union => Err("Jsonable does not support unions".to_string()),
    }
}

} // verus!
