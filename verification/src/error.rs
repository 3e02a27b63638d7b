//! The failures that validation reports.

use vstd::prelude::*;

verus! {

/// Why a JSON value does not describe an instance of a shape. A failure inside
/// a field or a variant is wrapped with the name it was found under, so the
/// whole error is a path from the root to the place that failed.
#[derive(Debug, PartialEq, Eq)]
#[allow(inconsistent_fields)]
pub enum JsonableError {
    /// The value is of the wrong kind for the shape.
    IncompatibleJsonType { got: &'static str, expected: &'static str },
    /// An element of a container is not valid for the element type named.
    IncompatibleEntryForType(String),
    /// A single field or payload, of the type named, is not valid.
    InnerErrorForType { ty: String, error: Box<JsonableError> },
    /// An array has another length than the fixed-length shape asks for.
    InvalidArrayLength { got: usize, expected: usize },
    /// Fields of one variant are not valid: every failure, in field order.
    InnerErrorsForType { ty: String, errors: Vec<JsonableError> },
    /// A named field of a variant has no member in the variant's object.
    MissingKeyForEnumVariant { variant: String, key: String },
    /// A variant's payload holds another number of fields than the `count`
    /// that the variant declares.
    IncorrectFieldCountForEnum { enum_type: String, variant: String, count: usize },
    /// The object given for a union has `count` members, not one.
    IncorrectObjectKeyCountForEnum { ty: String, count: usize },
    /// The object's one key names no variant that carries data.
    IncorrectKeyForEnum { ty: String, key: String },
    /// The string names no unit variant; `expected` lists those there are.
    InvalidEnumStringVariant { enum_type: String, got: String, expected: Vec<String> },
}

/// The mathematical model of a [`JsonableError`].
#[allow(inconsistent_fields)]
pub enum ErrorModel {
    IncompatibleJsonType { got: Seq<char>, expected: Seq<char> },
    IncompatibleEntryForType(Seq<char>),
    InnerErrorForType { ty: Seq<char>, error: Box<ErrorModel> },
    InvalidArrayLength { got: int, expected: int },
    InnerErrorsForType { ty: Seq<char>, errors: Seq<ErrorModel> },
    MissingKeyForEnumVariant { variant: Seq<char>, key: Seq<char> },
    IncorrectFieldCountForEnum { enum_type: Seq<char>, variant: Seq<char>, count: int },
    IncorrectObjectKeyCountForEnum { ty: Seq<char>, count: int },
    IncorrectKeyForEnum { ty: Seq<char>, key: Seq<char> },
    InvalidEnumStringVariant { enum_type: Seq<char>, got: Seq<char>, expected: Seq<Seq<char>> },
}

/// The texts of `names`, in order.
pub open spec fn texts(names: Seq<String>) -> Seq<Seq<char>> {
    Seq::new(names.len(), |i: int| names[i]@)
}

impl View for JsonableError {
    type V = ErrorModel;

    open spec fn view(&self) -> ErrorModel
        decreases self, 0nat,
    {
        match self {
            JsonableError::IncompatibleJsonType { got, expected } => {
                ErrorModel::IncompatibleJsonType { got: got@, expected: expected@ }
            },
            JsonableError::IncompatibleEntryForType(ty) => ErrorModel::IncompatibleEntryForType(
                ty@,
            ),
            JsonableError::InnerErrorForType { ty, error } => ErrorModel::InnerErrorForType {
                ty: ty@,
                error: Box::new((**error)@),
            },
            JsonableError::InvalidArrayLength { got, expected } => ErrorModel::InvalidArrayLength {
                got: *got as int,
                expected: *expected as int,
            },
            JsonableError::InnerErrorsForType { ty, errors } => ErrorModel::InnerErrorsForType {
                ty: ty@,
                errors: error_models(errors@),
            },
            JsonableError::MissingKeyForEnumVariant { variant, key } => {
                ErrorModel::MissingKeyForEnumVariant { variant: variant@, key: key@ }
            },
            JsonableError::IncorrectFieldCountForEnum { enum_type, variant, count } => {
                ErrorModel::IncorrectFieldCountForEnum {
                    enum_type: enum_type@,
                    variant: variant@,
                    count: *count as int,
                }
            },
            JsonableError::IncorrectObjectKeyCountForEnum { ty, count } => {
                ErrorModel::IncorrectObjectKeyCountForEnum { ty: ty@, count: *count as int }
            },
            JsonableError::IncorrectKeyForEnum { ty, key } => ErrorModel::IncorrectKeyForEnum {
                ty: ty@,
                key: key@,
            },
            JsonableError::InvalidEnumStringVariant { enum_type, got, expected } => {
                ErrorModel::InvalidEnumStringVariant {
                    enum_type: enum_type@,
                    got: got@,
                    expected: texts(expected@),
                }
            },
        }
    }
}

/// The models of the first `n` of `errors`, in order.
pub open spec fn error_models_to(errors: Seq<JsonableError>, n: nat) -> Seq<ErrorModel>
    decreases errors, n,
{
    if n == 0 || n > errors.len() {
        Seq::empty()
    } else {
        error_models_to(errors, (n - 1) as nat).push(errors[n - 1]@)
    }
}

/// The models of `errors`, in order.
pub open spec fn error_models(errors: Seq<JsonableError>) -> Seq<ErrorModel>
    decreases errors, errors.len() + 1,
{
    error_models_to(errors, errors.len())
}

/// `error_models_to` maps the first `n` errors one for one.
pub proof fn lemma_error_models_to(errors: Seq<JsonableError>, n: nat)
    requires
        n <= errors.len(),
    ensures
        error_models_to(errors, n).len() == n,
        forall|i: int| 0 <= i < n ==> (#[trigger] error_models_to(errors, n)[i]) == errors[i]@,
    decreases n,
{
    if n > 0 {
        lemma_error_models_to(errors, (n - 1) as nat);
        assert(error_models_to(errors, n) == error_models_to(errors, (n - 1) as nat).push(
            errors[n - 1]@,
        ));
    }
}

/// `error_models` maps the errors one for one.
pub proof fn lemma_error_models(errors: Seq<JsonableError>)
    ensures
        error_models(errors).len() == errors.len(),
        forall|i: int| 0 <= i < errors.len() ==> (#[trigger] error_models(errors)[i]) == errors[i]@,
{
    lemma_error_models_to(errors, errors.len());
}

/// The models of a list one longer are the models of the list and that of
/// the new last error.
pub proof fn lemma_error_models_push(errors: Seq<JsonableError>, e: JsonableError)
    ensures
        error_models(errors.push(e)) == error_models(errors).push(e@),
{
    lemma_error_models(errors);
    lemma_error_models(errors.push(e));
    assert(error_models(errors.push(e)) =~= error_models(errors).push(e@));
}

/// The model of what a validation returned.
pub open spec fn outcome(r: Result<(), JsonableError>) -> Result<(), ErrorModel> {
    match r {
        Ok(_) => Ok(()),
        Err(e) => Err(e@),
    }
}

impl JsonableError {
    /// The value of the wrong kind `got` where `expected` was asked for.
    pub fn mismatch(got: &'static str, expected: &'static str) -> (e: JsonableError)
        ensures
            e@ == (ErrorModel::IncompatibleJsonType { got: got@, expected: expected@ }),
    {
        JsonableError::IncompatibleJsonType { got, expected }
    }

    /// Wraps `error` with the name of the type it was found in.
    pub fn inside(ty: String, error: JsonableError) -> (e: JsonableError)
        ensures
            e@ == (ErrorModel::InnerErrorForType { ty: ty@, error: Box::new(error@) }),
    {
        JsonableError::InnerErrorForType { ty, error: Box::new(error) }
    }
}

} // verus!
