//! Shape descriptors: what a type looks like, as data.
//!
//! A [`Shape`] says how instances of one type are laid out: a primitive, a
//! container of another shape, a record with its fields, or a tagged union
//! with its variants. The codec of a type is a function of its shape alone.

use crate::number::NumberKind;
use crate::text::{decimal, decimal_string};
use vstd::prelude::*;
use vstd::string::StringExecFns;

verus! {

/// The shape of a type.
#[derive(Debug, PartialEq, Eq)]
pub enum Shape {
    /// A string.
    Text,
    /// An integer of the given kind.
    Number(NumberKind),
    /// A value of the inner shape that may be absent.
    Optional(Box<Shape>),
    /// A sequence of any length.
    Sequence(Box<Shape>),
    /// A sequence of exactly the given length.
    Array(Box<Shape>, usize),
    /// A collection in which only membership counts: it is stored as a
    /// sequence, and of an element that is given twice the first is kept.
    HashSet(Box<Shape>),
    /// A mapping from strings to the inner shape: of two entries with one
    /// key the first is kept.
    HashMap(Box<Shape>),
    /// A record: its name and its fields.
    Struct(String, Fields),
    /// A tagged union: its name and its variants, in declared order.
    Enum(String, Vec<Variant>),
}

/// The fields of a record or of a variant.
#[derive(Debug, PartialEq, Eq)]
pub enum Fields {
    /// Fields with names, in declared order.
    Named(Vec<Field>),
    /// Positional fields, in declared order.
    Unnamed(Vec<Shape>),
    /// No fields.
    Unit,
}

/// A named field.
#[derive(Debug, PartialEq, Eq)]
pub struct Field {
    pub ident: String,
    pub ty: Shape,
}

/// A variant of a tagged union.
#[derive(Debug, PartialEq, Eq)]
pub struct Variant {
    pub ident: String,
    pub fields: Fields,
}

/// What a declaration is a declaration of.
#[derive(Debug, PartialEq, Eq)]
pub enum Data {
    /// A record with the given fields.
    Struct(Fields),
    /// A tagged union with the given variants.
    Enum(Vec<Variant>),
    /// An untagged union: no shape is derived for it.
    Union,
}

/// A type declaration: the name of the type and what it declares.
#[derive(Debug, PartialEq, Eq)]
pub struct DeriveInput {
    pub ident: String,
    pub data: Data,
}

/// Whether no two of `fields` share a name.
pub open spec fn distinct_field_names(fields: Seq<Field>) -> bool {
    forall|i: int, j: int|
        0 <= i < j < fields.len() ==> (#[trigger] fields[i]).ident@ != (#[trigger] fields[j]).ident@
}

/// Whether no two of `variants` share a name.
pub open spec fn distinct_variant_names(variants: Seq<Variant>) -> bool {
    forall|i: int, j: int|
        0 <= i < j < variants.len() ==> (#[trigger] variants[i]).ident@ != (
        #[trigger] variants[j]).ident@
}

impl Variant {
    /// Whether the variant is well formed: its fields are, and where they
    /// are positional there is at least one.
    pub open spec fn wf(self) -> bool
        decreases self, 0nat,
    {
        &&& self.fields.wf()
        &&& self.fields is Unnamed ==> self.fields.count() >= 1
    }

    /// Whether every field's shape is faithful.
    pub open spec fn faithful(self) -> bool
        decreases self, 0nat,
    {
        self.fields.faithful()
    }
}

impl Fields {
    /// Whether the fields are well formed: no two named fields share a name,
    /// and the shape of every field is well formed.
    pub open spec fn wf(self) -> bool
        decreases self, 0nat,
    {
        &&& self matches Fields::Named(fs) ==> distinct_field_names(fs@)
        &&& forall|i: int| 0 <= i < self.count() ==> (#[trigger] self.ty(i)).wf()
    }

    /// Whether every field's shape is faithful.
    pub open spec fn faithful(self) -> bool
        decreases self, 0nat,
    {
        forall|i: int| 0 <= i < self.count() ==> (#[trigger] self.ty(i)).faithful()
    }

    /// The number of fields.
    pub open spec fn count(self) -> nat {
        match self {
            Fields::Named(fs) => fs@.len(),
            Fields::Unnamed(ts) => ts@.len(),
            Fields::Unit => 0,
        }
    }

    /// The key under which field `i` is stored: its name, or for a positional
    /// field the decimal numeral of its index.
    pub open spec fn key(self, i: int) -> Seq<char> {
        match self {
            Fields::Named(fs) => fs[i].ident@,
            Fields::Unnamed(_) => decimal(i as nat),
            Fields::Unit => Seq::empty(),
        }
    }

    /// The shape of field `i`.
    pub open spec fn ty(self, i: int) -> Shape {
        match self {
            Fields::Named(fs) => fs[i].ty,
            Fields::Unnamed(ts) => ts[i],
            Fields::Unit => Shape::Text,
        }
    }

    /// Whether no two fields share a key.
    pub open spec fn distinct_keys(self) -> bool {
        forall|i: int, j: int|
            0 <= i < j < self.count() ==> #[trigger] self.key(i) != #[trigger] self.key(j)
    }

    /// The number of fields.
    pub fn len(&self) -> (n: usize)
        ensures
            n == self.count(),
    {
        match self {
            Fields::Named(fs) => fs.len(),
            Fields::Unnamed(ts) => ts.len(),
            Fields::Unit => 0,
        }
    }

    /// The key under which field `i` is stored.
    pub fn key_of(&self, i: usize) -> (key: String)
        requires
            i < self.count(),
        ensures
            key@ == self.key(i as int),
    {
        match self {
            Fields::Named(fs) => fs[i].ident.clone(),
            Fields::Unnamed(_) => decimal_string(i),
            Fields::Unit => String::new(),
        }
    }

    /// The shape of field `i`.
    pub fn type_of(&self, i: usize) -> (ty: &Shape)
        requires
            i < self.count(),
        ensures
            *ty == self.ty(i as int),
    {
        match self {
            Fields::Named(fs) => &fs[i].ty,
            Fields::Unnamed(ts) => &ts[i],
            Fields::Unit => &Shape::Text,
        }
    }
}

impl Shape {
    /// Whether the shape is well formed: within one record or variant no two
    /// fields share a name, within one union no two variants share a name,
    /// and a variant with positional fields has at least one.
    pub open spec fn wf(self) -> bool
        decreases self, 0nat,
    {
        match self {
            Shape::Text => true,
            Shape::Number(_) => true,
            Shape::Optional(inner) => inner.wf(),
            Shape::Sequence(inner) => inner.wf(),
            Shape::Array(inner, _) => inner.wf(),
            Shape::HashSet(inner) => inner.wf(),
            Shape::HashMap(inner) => inner.wf(),
            Shape::Struct(_, fields) => fields.wf(),
            Shape::Enum(_, variants) => {
                &&& distinct_variant_names(variants@)
                &&& forall|k: int| 0 <= k < variants@.len() ==> (#[trigger] variants[k]).wf()
            },
        }
    }

    /// Whether encoding loses nothing: nowhere in the shape does an optional
    /// hold an optional directly. Null stands for an absent value, so under
    /// an optional of an optional the absent value and the present, absent
    /// one would be encoded alike.
    pub open spec fn faithful(self) -> bool
        decreases self, 0nat,
    {
        match self {
            Shape::Text => true,
            Shape::Number(_) => true,
            Shape::Optional(inner) => !(*inner is Optional) && inner.faithful(),
            Shape::Sequence(inner) => inner.faithful(),
            Shape::Array(inner, _) => inner.faithful(),
            Shape::HashSet(inner) => inner.faithful(),
            Shape::HashMap(inner) => inner.faithful(),
            Shape::Struct(_, fields) => fields.faithful(),
            Shape::Enum(_, variants) => forall|k: int|
                0 <= k < variants@.len() ==> (#[trigger] variants[k]).faithful(),
        }
    }

    /// The name of the type, as error reports give it. A record or a union
    /// goes by the name it was declared with, everything else by the path of
    /// the type that holds it in memory.
    pub open spec fn name(self) -> Seq<char>
        decreases self,
    {
        match self {
            Shape::Text => "alloc::string::String"@,
            Shape::Number(kind) => kind.name(),
            Shape::Optional(inner) => "core::option::Option<"@ + inner.name() + ">"@,
            Shape::Sequence(inner) => "alloc::vec::Vec<"@ + inner.name() + ">"@,
            Shape::Array(inner, n) => "["@ + inner.name() + "; "@ + decimal(n as nat) + "]"@,
            Shape::HashSet(inner) => "std::collections::hash::set::HashSet<"@ + inner.name()
                + ">"@,
            Shape::HashMap(inner) => "std::collections::hash::map::HashMap<alloc::string::String, "@
                + inner.name() + ">"@,
            Shape::Struct(ident, _) => ident@,
            Shape::Enum(ident, _) => ident@,
        }
    }

    /// The name of the type, as error reports give it.
    pub fn to_name(&self) -> (s: String)
        ensures
            s@ == self.name(),
        decreases self,
    {
        match self {
            Shape::Text => "alloc::string::String".to_string(),
            Shape::Number(kind) => kind.to_name(),
            Shape::Optional(inner) => around("core::option::Option<", inner.to_name(), ">"),
            Shape::Sequence(inner) => around("alloc::vec::Vec<", inner.to_name(), ">"),
            Shape::Array(inner, n) => {
                let mut s = String::from_str("[");
                s.append(inner.to_name().as_str());
                s.append("; ");
                s.append(decimal_string(*n).as_str());
                s.append("]");
                s
            },
            Shape::HashSet(inner) => around(
                "std::collections::hash::set::HashSet<",
                inner.to_name(),
                ">",
            ),
            Shape::HashMap(inner) => around(
                "std::collections::hash::map::HashMap<alloc::string::String, ",
                inner.to_name(),
                ">",
            ),
            Shape::Struct(ident, _) => ident.clone(),
            Shape::Enum(ident, _) => ident.clone(),
        }
    }
}

/// `middle` between `before` and `after`.
fn around(before: &str, middle: String, after: &str) -> (s: String)
    ensures
        s@ == before@ + middle@ + after@,
{
    let mut s = String::from_str(before);
    s.append(middle.as_str());
    s.append(after);
    s
}

} // verus!
