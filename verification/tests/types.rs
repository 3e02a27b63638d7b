use jsonable::Jsonable;
use jsonable::{Instance, JsonableError, Number, NumberKind, Object, Shape, Value};

fn number(n: u64) -> Value {
    Value::Number(Number::PosInt(n))
}

fn numbers(ns: &[u64]) -> Value {
    Value::Array(ns.iter().map(|n| number(*n)).collect())
}

fn text(s: &str) -> Value {
    Value::String(s.to_string())
}

fn empty_object() -> Value {
    Value::Object(Object::new())
}

fn object_of(members: Vec<(&str, Value)>) -> Value {
    let mut object = Object::new();
    for (key, value) in members {
        object.insert(key.to_string(), value);
    }
    Value::Object(object)
}

#[test]
fn fixed_array_from_json_unchecked_happy_path() {
    let result = <[u8; 4]>::from_json_unchecked(numbers(&[1, 2, 3, 4]));
    assert_eq!(result, [1, 2, 3, 4]);
}

#[test]
fn fixed_array_to_json_happy_path() {
    let subject: [u8; 4] = [1, 2, 3, 4];
    let json = subject.to_json();
    assert_eq!(json, numbers(&[1, 2, 3, 4]));
}

#[test]
fn fixed_array_validate_json_happy_path() {
    assert!(<[u8; 4]>::validate_json(&numbers(&[1, 2, 3, 4])).is_ok());
}

#[test]
fn fixed_array_validate_json_incorrect_json_type() {
    match <[u8; 4]>::validate_json(&empty_object()) {
        Err(err) => {
            assert_eq!(err, JsonableError::IncompatibleJsonType { expected: "array", got: "object" })
        }
        _ => assert!(false),
    };
}

#[test]
fn fixed_array_validate_json_incorrect_length() {
    match <[u8; 4]>::validate_json(&numbers(&[1, 2, 3])) {
        Err(err) => {
            assert_eq!(err, JsonableError::InvalidArrayLength { got: 3, expected: 4 })
        }
        _ => assert!(false),
    };
}

#[test]
fn fixed_array_validate_json_incorrect_entry() {
    let json = Value::Array(vec![number(1), text("two"), number(3), number(4)]);
    assert_eq!(
        <[u8; 4]>::validate_json(&json),
        Err(JsonableError::IncompatibleEntryForType("u8".to_string()))
    );
}

#[test]
fn hash_map_from_json_unchecked_happy_path() {
    let shape = Shape::HashMap(Box::new(Shape::Number(NumberKind::U8)));
    let result = shape.from_json_unchecked(object_of(vec![("key", number(1))]));
    assert_eq!(result, Instance::Entries(vec![("key".to_string(), Instance::Unsigned(1))]));
}

#[test]
fn hash_map_to_json_happy_path() {
    let shape = Shape::HashMap(Box::new(Shape::Number(NumberKind::U8)));
    let subject = Instance::Entries(vec![("key".to_string(), Instance::Unsigned(1))]);
    assert!(shape.admits(&subject));
    let json = shape.to_json(&subject);
    assert_eq!(json, object_of(vec![("key", number(1))]));
}

#[test]
fn hash_map_validate_json_happy_path() {
    let shape = Shape::HashMap(Box::new(Shape::Number(NumberKind::U8)));
    let result = shape.validate_json(&object_of(vec![("key", number(1))]));
    assert!(result.is_ok());
}

#[test]
fn hash_map_validate_json_incorrect_json_type() {
    let shape = Shape::HashMap(Box::new(Shape::Number(NumberKind::U8)));
    let result = shape.validate_json(&Value::Array(vec![]));
    match result {
        Err(err) => {
            assert_eq!(err, JsonableError::IncompatibleJsonType { got: "array", expected: "object" })
        }
        _ => assert!(false),
    };
}

#[test]
fn hash_map_validate_json_incorrect_entry() {
    let shape = Shape::HashMap(Box::new(Shape::Number(NumberKind::U8)));
    let result = shape.validate_json(&object_of(vec![("a", number(1)), ("b", text("x"))]));
    assert_eq!(result, Err(JsonableError::IncompatibleEntryForType("u8".to_string())));
}

#[test]
fn hash_set_from_json_unchecked_happy_path() {
    let shape = Shape::HashSet(Box::new(Shape::Text));
    let values: Vec<String> = vec!["Value 1".into(), "Value 2".into()];
    let json = Value::Array(values.iter().map(|value| Value::String(value.clone())).collect());
    let subject = shape.from_json_unchecked(json);
    match subject {
        Instance::Sequence(members) => {
            assert_eq!(members.len(), values.len());
            for value in values.iter() {
                assert!(members.contains(&Instance::Text(value.clone())));
            }
        }
        _ => assert!(false),
    }
}

#[test]
fn hash_set_to_json_happy_path() {
    let shape = Shape::HashSet(Box::new(Shape::Text));
    let subject =
        Instance::Sequence(vec![Instance::Text("Hello".into()), Instance::Text("World".into())]);
    assert!(shape.admits(&subject));
    let json = shape.to_json(&subject);
    match json {
        Value::Array(vec) => {
            assert!(vec.contains(&text("Hello")));
            assert!(vec.contains(&text("World")));
        }
        _ => assert!(false),
    }
}

#[test]
fn hash_set_validate_json_happy_path() {
    let shape = Shape::HashSet(Box::new(Shape::Text));
    let json = Value::Array(vec![text("Value 1"), text("Value 2")]);
    assert!(shape.validate_json(&json).is_ok());
}

#[test]
fn hash_set_validate_json_incorrect_json_type() {
    let shape = Shape::HashSet(Box::new(Shape::Text));
    let result = shape.validate_json(&empty_object());
    match result {
        Err(err) => {
            assert_eq!(err, JsonableError::IncompatibleJsonType { got: "object", expected: "array" })
        }
        _ => assert!(false),
    };
}

#[test]
fn option_from_json_unchecked_happy_path() {
    let result = Option::<u8>::from_json_unchecked(number(8));
    assert_eq!(result, Some(8 as u8));
}

#[test]
fn option_from_json_unchecked_happy_path_null() {
    let result = Option::<u8>::from_json_unchecked(Value::Null);
    assert_eq!(result, None);
}

#[test]
fn option_to_json_happy_path() {
    let subject: Option<u8> = Some(8);
    let result = subject.to_json();
    assert_eq!(result, number(8));
}

#[test]
fn option_to_json_happy_path_null() {
    let subject: Option<u8> = None;
    let result = subject.to_json();
    assert_eq!(result, Value::Null);
}

#[test]
fn option_validate_json_happy_path() {
    assert!(Option::<u8>::validate_json(&number(8)).is_ok());
}

#[test]
fn option_validate_json_happy_path_null() {
    assert!(Option::<u8>::validate_json(&Value::Null).is_ok());
}

#[test]
fn option_validate_json_delegates_failure() {
    assert_eq!(
        Option::<u8>::validate_json(&text("8")),
        Err(JsonableError::IncompatibleJsonType { got: "string", expected: "number" })
    );
}

#[test]
fn string_from_json_unchecked_happy_path() {
    let result: String = String::from_json_unchecked(text("Uh huh"));
    assert_eq!(result, String::from("Uh huh"));
}

#[test]
fn string_to_json_happy_path() {
    let subject = String::from("This is a triumph; huge success.");
    let json = subject.to_json();
    assert_eq!(json, text("This is a triumph; huge success."));
}

#[test]
fn string_validate_json_happy_path() {
    assert!(String::validate_json(&text("I'm a string")).is_ok());
}

#[test]
fn string_validate_json_incorrect_json_type() {
    let result = String::validate_json(&empty_object());
    match result {
        Err(err) => {
            assert_eq!(err, JsonableError::IncompatibleJsonType { got: "object", expected: "string" })
        }
        _ => assert!(false),
    };
}

#[test]
fn string_validate_json_names_every_kind() {
    let cases: Vec<(Value, &str)> = vec![
        (Value::Null, "null"),
        (Value::Bool(true), "bool"),
        (number(1), "number"),
        (Value::Array(vec![]), "array"),
        (empty_object(), "object"),
    ];
    for (json, kind) in cases {
        assert_eq!(
            String::validate_json(&json),
            Err(JsonableError::IncompatibleJsonType { got: kind, expected: "string" })
        );
    }
}

#[test]
fn vec_from_json_unchecked_happy_path() {
    let subject = Vec::<u8>::from_json_unchecked(numbers(&[1, 2, 3, 4]));
    assert_eq!(subject, vec![1, 2, 3, 4]);
}

#[test]
fn vec_to_json_happy_path() {
    let subject: Vec<u8> = vec![1, 2, 3, 4];
    let json = subject.to_json();
    assert_eq!(json, numbers(&[1, 2, 3, 4]));
}

#[test]
fn vec_validate_json_happy_path() {
    assert!(Vec::<u8>::validate_json(&numbers(&[1])).is_ok());
}

#[test]
fn vec_validate_json_incorrect_json_type() {
    let result = Vec::<u8>::validate_json(&empty_object());
    match result {
        Err(err) => {
            assert_eq!(err, JsonableError::IncompatibleJsonType { got: "object", expected: "array" })
        }
        _ => assert!(false),
    };
}

#[test]
fn vec_validate_json_incorrect_entry_names_the_element_type() {
    let json = Value::Array(vec![text("Why are you reading this?"), number(13)]);
    assert_eq!(
        Vec::<String>::validate_json(&json),
        Err(JsonableError::IncompatibleEntryForType("alloc::string::String".to_string()))
    );
    let nested = Value::Array(vec![Value::Array(vec![text("x")])]);
    assert_eq!(
        Vec::<Vec<Option<u16>>>::validate_json(&nested),
        Err(JsonableError::IncompatibleEntryForType(
            "alloc::vec::Vec<core::option::Option<u16>>".to_string()
        ))
    );
}

#[test]
fn from_json_is_validate_then_decode() {
    assert_eq!(Vec::<u8>::from_json(numbers(&[1, 2])), Ok(vec![1, 2]));
    assert_eq!(
        Vec::<u8>::from_json(text("no")),
        Err(JsonableError::IncompatibleJsonType { got: "string", expected: "array" })
    );
    assert_eq!(Vec::<u8>::from_json(text("no")).is_ok(), Vec::<u8>::validate_json(&text("no")).is_ok());
    assert_eq!(Option::<String>::from_json(Value::Null), Ok(None));
}

#[test]
fn static_types_round_trip() {
    let v: Vec<Option<i16>> = vec![Some(-5), None, Some(300)];
    assert_eq!(Vec::<Option<i16>>::from_json(v.to_json()), Ok(v));
    let a: [String; 2] = ["a".to_string(), "b".to_string()];
    assert_eq!(<[String; 2]>::from_json(a.to_json()), Ok(a));
    assert_eq!(i64::from_json(i64::MIN.to_json()), Ok(i64::MIN));
    assert_eq!(u64::from_json(u64::MAX.to_json()), Ok(u64::MAX));
    assert_eq!(i8::from_json((-128i8).to_json()), Ok(-128));
}

#[test]
fn describe_gives_the_shape_of_the_type() {
    assert_eq!(String::describe(), Shape::Text);
    assert_eq!(u32::describe(), Shape::Number(NumberKind::U32));
    assert_eq!(
        <[Option<Vec<i8>>; 3]>::describe(),
        Shape::Array(
            Box::new(Shape::Optional(Box::new(Shape::Sequence(Box::new(Shape::Number(
                NumberKind::I8
            )))))),
            3
        )
    );
}

#[test]
fn signed_numbers_encode_by_sign() {
    assert_eq!((-1i32).to_json(), Value::Number(Number::NegInt(-1)));
    assert_eq!(7i32.to_json(), Value::Number(Number::PosInt(7)));
    assert_eq!(7u16.to_json(), Value::Number(Number::PosInt(7)));
}

#[derive(Debug, PartialEq)]
struct Book {
    title: String,
    year: Option<u16>,
}

impl Jsonable for Book {
    fn shape() -> Shape {
        Self::describe()
    }

    fn instance(&self) -> jsonable::instance::InstanceModel {
        unreachable!("a model is never computed")
    }

    fn lemma_conforms(&self) {}

    fn describe() -> Shape {
        Shape::Struct(
            "Book".to_string(),
            jsonable::Fields::Named(vec![
                jsonable::Field { ident: "title".to_string(), ty: String::describe() },
                jsonable::Field { ident: "year".to_string(), ty: Option::<u16>::describe() },
            ]),
        )
    }

    fn from_json_unchecked(json: Value) -> Self {
        match Self::describe().from_json_unchecked(json) {
            Instance::Struct(mut values) => {
                let year = match values.pop() {
                    Some(Instance::Optional(Some(present))) => match *present {
                        Instance::Unsigned(year) => Some(year as u16),
                        _ => unreachable!(),
                    },
                    _ => None,
                };
                let title = match values.pop() {
                    Some(Instance::Text(title)) => title,
                    _ => unreachable!(),
                };
                Book { title, year }
            }
            _ => unreachable!(),
        }
    }

    fn to_json(&self) -> Value {
        let instance = Instance::Struct(vec![
            Instance::Text(self.title.clone()),
            Instance::Optional(self.year.map(|year| Box::new(Instance::Unsigned(year as u64)))),
        ]);
        Self::describe().to_json(&instance)
    }

    fn validate_json(json: &Value) -> Result<(), JsonableError> {
        Self::describe().validate_json(json)
    }
}

#[test]
fn a_record_type_takes_part_in_the_protocol() {
    let book = Book { title: "Dune".to_string(), year: Some(1965) };
    let json = book.to_json();
    assert_eq!(json, object_of(vec![("title", text("Dune")), ("year", number(1965))]));
    assert_eq!(Book::from_json(json), Ok(book));
    assert_eq!(
        Book::from_json(object_of(vec![("title", text("Untitled"))])),
        Ok(Book { title: "Untitled".to_string(), year: None })
    );
    let shelf = Value::Array(vec![
        object_of(vec![("title", text("A"))]),
        object_of(vec![("title", number(1))]),
    ]);
    assert_eq!(
        Vec::<Book>::from_json(shelf),
        Err(JsonableError::IncompatibleEntryForType("Book".to_string()))
    );
    assert_eq!(
        Option::<Book>::from_json(object_of(vec![("year", number(1))])),
        Err(JsonableError::InnerErrorForType {
            ty: "alloc::string::String".to_string(),
            error: Box::new(JsonableError::IncompatibleJsonType { got: "null", expected: "string" }),
        })
    );
}
