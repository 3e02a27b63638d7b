use jsonable::enums;
use jsonable::structs;
use jsonable::{
    derive_jsonable, Data, DeriveInput, Field, Fields, Instance, JsonableError, Number,
    NumberKind, Object, Shape, Value, Variant,
};

fn num(n: u64) -> Value {
    Value::Number(Number::PosInt(n))
}

fn string(s: &str) -> Value {
    Value::String(s.to_string())
}

fn object(members: Vec<(&str, Value)>) -> Value {
    let mut object = Object::new();
    for (key, value) in members {
        object.insert(key.to_string(), value);
    }
    Value::Object(object)
}

fn field(name: &str, ty: Shape) -> Field {
    Field { ident: name.to_string(), ty }
}

fn u8_shape() -> Shape {
    Shape::Number(NumberKind::U8)
}

fn wrong(got: &'static str, expected: &'static str) -> JsonableError {
    JsonableError::IncompatibleJsonType { got, expected }
}

fn inner(ty: &str, error: JsonableError) -> JsonableError {
    JsonableError::InnerErrorForType { ty: ty.to_string(), error: Box::new(error) }
}

const STRING_NAME: &str = "alloc::string::String";

fn person() -> Shape {
    Shape::Struct(
        "Person".to_string(),
        Fields::Named(vec![
            field("first_name", Shape::Text),
            field("last_name", Shape::Optional(Box::new(Shape::Text))),
        ]),
    )
}

fn example_enum() -> Shape {
    Shape::Enum(
        "Example".to_string(),
        vec![
            Variant { ident: "Value".to_string(), fields: Fields::Unit },
            Variant { ident: "Value2".to_string(), fields: Fields::Unit },
            Variant { ident: "One".to_string(), fields: Fields::Unnamed(vec![u8_shape()]) },
            Variant {
                ident: "Pair".to_string(),
                fields: Fields::Unnamed(vec![u8_shape(), Shape::Text]),
            },
            Variant {
                ident: "Named".to_string(),
                fields: Fields::Named(vec![field("a", u8_shape()), field("b", Shape::Text)]),
            },
        ],
    )
}

fn round_trips(shape: &Shape, instance: Instance) {
    assert!(shape.well_formed());
    assert!(shape.is_faithful());
    assert!(shape.admits(&instance));
    let json = shape.to_json(&instance);
    assert_eq!(shape.validate_json(&json), Ok(()));
    assert_eq!(shape.from_json(json), Ok(instance));
}

#[test]
fn named_struct_happy_path() {
    let shape = person();
    let json = object(vec![("first_name", string("Andrew")), ("last_name", string("Marx"))]);
    assert_eq!(shape.validate_json(&json), Ok(()));
    assert_eq!(
        shape.from_json(json),
        Ok(Instance::Struct(vec![
            Instance::Text("Andrew".to_string()),
            Instance::Optional(Some(Box::new(Instance::Text("Marx".to_string())))),
        ]))
    );
}

#[test]
fn named_struct_optional_field_may_be_absent() {
    let shape = person();
    let json = object(vec![("first_name", string("Andrew"))]);
    assert_eq!(shape.validate_json(&json), Ok(()));
    assert_eq!(
        shape.from_json(json),
        Ok(Instance::Struct(vec![
            Instance::Text("Andrew".to_string()),
            Instance::Optional(None),
        ]))
    );
}

#[test]
fn named_struct_encodes_one_member_for_each_field() {
    let shape = person();
    let instance =
        Instance::Struct(vec![Instance::Text("Andrew".to_string()), Instance::Optional(None)]);
    assert!(shape.admits(&instance));
    assert_eq!(
        shape.to_json(&instance),
        object(vec![("first_name", string("Andrew")), ("last_name", Value::Null)])
    );
}

#[test]
fn named_struct_missing_field_is_validated_as_null() {
    let shape = person();
    let json = object(vec![("last_name", string("Marx"))]);
    assert_eq!(shape.validate_json(&json), Err(inner(STRING_NAME, wrong("null", "string"))));
}

#[test]
fn named_struct_reports_the_first_field_that_fails() {
    let shape = person();
    let json = object(vec![("last_name", num(2)), ("first_name", num(1))]);
    assert_eq!(shape.validate_json(&json), Err(inner(STRING_NAME, wrong("number", "string"))));
    let json = object(vec![("first_name", string("ok")), ("last_name", num(2))]);
    assert_eq!(
        shape.validate_json(&json),
        Err(inner("core::option::Option<alloc::string::String>", wrong("number", "string")))
    );
}

#[test]
fn named_struct_ignores_other_members() {
    let shape = person();
    let json = object(vec![("first_name", string("Andrew")), ("age", num(41))]);
    assert_eq!(shape.validate_json(&json), Ok(()));
}

#[test]
fn struct_has_to_be_an_object() {
    let shape = person();
    let cases: Vec<(Value, &str)> = vec![
        (Value::Array(vec![]), "array"),
        (Value::Bool(false), "bool"),
        (Value::Null, "null"),
        (num(3), "number"),
        (string("x"), "string"),
    ];
    for (json, got) in cases {
        assert_eq!(shape.validate_json(&json), Err(wrong(got, "object")));
    }
}

#[test]
fn unit_struct_is_any_object() {
    let shape = structs::implement_unit(&"Marker".to_string());
    assert_eq!(shape, Shape::Struct("Marker".to_string(), Fields::Unit));
    assert_eq!(shape.validate_json(&object(vec![])), Ok(()));
    assert_eq!(shape.validate_json(&object(vec![("stray", num(1))])), Ok(()));
    assert_eq!(shape.validate_json(&Value::Array(vec![])), Err(wrong("array", "object")));
    assert_eq!(shape.from_json(object(vec![("stray", num(1))])), Ok(Instance::Struct(vec![])));
    assert_eq!(shape.to_json(&Instance::Struct(vec![])), object(vec![]));
    round_trips(&shape, Instance::Struct(vec![]));
}

#[test]
fn tuple_struct_is_keyed_by_index() {
    let shape = structs::implement_unnamed(&"Point".to_string(), vec![u8_shape(), Shape::Text])
        .unwrap();
    let instance = Instance::Struct(vec![Instance::Unsigned(7), Instance::Text("x".to_string())]);
    assert!(shape.admits(&instance));
    let json = shape.to_json(&instance);
    assert_eq!(json, object(vec![("0", num(7)), ("1", string("x"))]));
    assert_eq!(shape.from_json(json), Ok(instance));
    assert_eq!(
        shape.validate_json(&Value::Array(vec![num(7), string("x")])),
        Err(wrong("array", "object"))
    );
    assert_eq!(
        shape.validate_json(&object(vec![("0", num(7)), ("1", num(8))])),
        Err(inner(STRING_NAME, wrong("number", "string")))
    );
}

#[test]
fn tuple_struct_keys_are_decimal_numerals() {
    let shape = Shape::Struct("Wide".to_string(), Fields::Unnamed((0..12).map(|_| u8_shape()).collect()));
    let instance = Instance::Struct((0..12).map(|i| Instance::Unsigned(i)).collect());
    let json = shape.to_json(&instance);
    match &json {
        Value::Object(object) => {
            let keys: Vec<&str> = object.entries.iter().map(|(key, _)| key.as_str()).collect();
            assert_eq!(keys, vec!["0", "1", "2", "3", "4", "5", "6", "7", "8", "9", "10", "11"]);
        }
        _ => assert!(false),
    }
    round_trips(&shape, instance);
}

#[test]
fn enum_unit_variants() {
    let shape = example_enum();
    assert_eq!(shape.from_json(string("Value2")), Ok(Instance::Variant(1, vec![])));
    assert_eq!(shape.to_json(&Instance::Variant(0, vec![])), string("Value"));
    assert_eq!(
        shape.validate_json(&string("Other")),
        Err(JsonableError::InvalidEnumStringVariant {
            enum_type: "Example".to_string(),
            got: "Other".to_string(),
            expected: vec!["Value".to_string(), "Value2".to_string()],
        })
    );
}

#[test]
fn enum_string_has_to_name_a_unit_variant() {
    let shape = example_enum();
    assert_eq!(
        shape.validate_json(&string("One")),
        Err(JsonableError::InvalidEnumStringVariant {
            enum_type: "Example".to_string(),
            got: "One".to_string(),
            expected: vec!["Value".to_string(), "Value2".to_string()],
        })
    );
}

#[test]
fn enum_object_has_to_have_one_key() {
    let shape = example_enum();
    assert_eq!(
        shape.validate_json(&object(vec![("One", num(1)), ("Pair", num(2))])),
        Err(JsonableError::IncorrectObjectKeyCountForEnum { ty: "Example".to_string(), count: 2 })
    );
    assert_eq!(
        shape.validate_json(&object(vec![])),
        Err(JsonableError::IncorrectObjectKeyCountForEnum { ty: "Example".to_string(), count: 0 })
    );
}

#[test]
fn enum_key_has_to_name_a_variant_with_fields() {
    let shape = example_enum();
    assert_eq!(
        shape.validate_json(&object(vec![("Nope", num(1))])),
        Err(JsonableError::IncorrectKeyForEnum { ty: "Example".to_string(), key: "Nope".to_string() })
    );
    assert_eq!(
        shape.validate_json(&object(vec![("Value", num(1))])),
        Err(JsonableError::IncorrectKeyForEnum { ty: "Example".to_string(), key: "Value".to_string() })
    );
}

#[test]
fn enum_has_to_be_an_object_or_a_string() {
    let shape = example_enum();
    let cases: Vec<(Value, &str)> = vec![
        (Value::Array(vec![]), "array"),
        (Value::Bool(false), "bool"),
        (Value::Null, "null"),
        (num(3), "number"),
    ];
    for (json, got) in cases {
        assert_eq!(shape.validate_json(&json), Err(wrong(got, "object or string")));
    }
}

#[test]
fn enum_single_field_variant() {
    let shape = example_enum();
    let instance = Instance::Variant(2, vec![Instance::Unsigned(5)]);
    assert!(shape.admits(&instance));
    assert_eq!(shape.to_json(&instance), object(vec![("One", num(5))]));
    assert_eq!(shape.from_json(object(vec![("One", num(5))])), Ok(instance));
    assert_eq!(
        shape.validate_json(&object(vec![("One", string("x"))])),
        Err(inner("One", inner("u8", wrong("string", "number"))))
    );
}

#[test]
fn enum_positional_variant_keeps_the_declared_order() {
    let shape = example_enum();
    let instance =
        Instance::Variant(3, vec![Instance::Unsigned(5), Instance::Text("x".to_string())]);
    assert!(shape.admits(&instance));
    let json = shape.to_json(&instance);
    assert_eq!(json, object(vec![("Pair", Value::Array(vec![num(5), string("x")]))]));
    assert_eq!(shape.from_json(json), Ok(instance));
}

#[test]
fn enum_positional_variant_failures() {
    let shape = example_enum();
    assert_eq!(
        shape.validate_json(&object(vec![("Pair", num(5))])),
        Err(wrong("other", "array"))
    );
    assert_eq!(
        shape.validate_json(&object(vec![("Pair", Value::Array(vec![num(5)]))])),
        Err(JsonableError::IncorrectFieldCountForEnum {
            enum_type: "Example".to_string(),
            variant: "Pair".to_string(),
            count: 2,
        })
    );
    assert_eq!(
        shape.validate_json(&object(vec![("Pair", Value::Array(vec![string("x"), num(5)]))])),
        Err(JsonableError::InnerErrorsForType {
            ty: "Example".to_string(),
            errors: vec![
                inner("u8", wrong("string", "number")),
                inner(STRING_NAME, wrong("number", "string")),
            ],
        })
    );
    assert_eq!(
        shape.validate_json(&object(vec![("Pair", Value::Array(vec![num(5), num(6)]))])),
        Err(JsonableError::InnerErrorsForType {
            ty: "Example".to_string(),
            errors: vec![inner(STRING_NAME, wrong("number", "string"))],
        })
    );
}

#[test]
fn enum_named_variant() {
    let shape = example_enum();
    let instance =
        Instance::Variant(4, vec![Instance::Unsigned(5), Instance::Text("x".to_string())]);
    assert!(shape.admits(&instance));
    let json = shape.to_json(&instance);
    assert_eq!(json, object(vec![("Named", object(vec![("a", num(5)), ("b", string("x"))]))]));
    assert_eq!(shape.from_json(json), Ok(instance));
    let swapped = object(vec![("Named", object(vec![("b", string("y")), ("a", num(6))]))]);
    assert_eq!(
        shape.from_json(swapped),
        Ok(Instance::Variant(4, vec![Instance::Unsigned(6), Instance::Text("y".to_string())]))
    );
}

#[test]
fn enum_named_variant_reports_every_field_that_fails() {
    let shape = example_enum();
    let json = object(vec![("Named", object(vec![("a", string("x")), ("b", num(5))]))]);
    match shape.validate_json(&json) {
        Err(JsonableError::InnerErrorsForType { ty, errors }) => {
            assert_eq!(ty, "Example");
            assert_eq!(errors.len(), 2);
            assert_eq!(errors[0], inner("u8", wrong("string", "number")));
            assert_eq!(errors[1], inner(STRING_NAME, wrong("number", "string")));
        }
        _ => assert!(false),
    }
}

#[test]
fn enum_named_variant_failures() {
    let shape = example_enum();
    assert_eq!(
        shape.validate_json(&object(vec![("Named", num(5))])),
        Err(wrong("other", "object"))
    );
    assert_eq!(
        shape.validate_json(&object(vec![("Named", object(vec![("a", num(5))]))])),
        Err(JsonableError::IncorrectFieldCountForEnum {
            enum_type: "Example".to_string(),
            variant: "Named".to_string(),
            count: 2,
        })
    );
    assert_eq!(
        shape.validate_json(&object(vec![(
            "Named",
            object(vec![("a", num(5)), ("c", string("x"))])
        )])),
        Err(JsonableError::InnerErrorsForType {
            ty: "Example".to_string(),
            errors: vec![JsonableError::MissingKeyForEnumVariant {
                variant: "Named".to_string(),
                key: "b".to_string(),
            }],
        })
    );
}

#[test]
fn enum_takes_the_first_variant_of_a_name() {
    let shape = Shape::Enum(
        "Twice".to_string(),
        vec![
            Variant { ident: "A".to_string(), fields: Fields::Unnamed(vec![Shape::Text]) },
            Variant { ident: "A".to_string(), fields: Fields::Unnamed(vec![u8_shape()]) },
        ],
    );
    assert!(!shape.well_formed());
    assert_eq!(
        shape.from_json(object(vec![("A", string("x"))])),
        Ok(Instance::Variant(0, vec![Instance::Text("x".to_string())]))
    );
    assert_eq!(
        shape.validate_json(&object(vec![("A", num(1))])),
        Err(inner("A", inner(STRING_NAME, wrong("number", "string"))))
    );
}

#[test]
fn round_trip_of_every_kind_of_shape() {
    round_trips(&Shape::Text, Instance::Text("hello".to_string()));
    round_trips(&Shape::Number(NumberKind::I16), Instance::Signed(-300));
    round_trips(&Shape::Number(NumberKind::U64), Instance::Unsigned(u64::MAX));
    round_trips(&Shape::Optional(Box::new(u8_shape())), Instance::Optional(None));
    round_trips(
        &Shape::Optional(Box::new(u8_shape())),
        Instance::Optional(Some(Box::new(Instance::Unsigned(0)))),
    );
    round_trips(
        &Shape::Sequence(Box::new(Shape::Optional(Box::new(Shape::Text)))),
        Instance::Sequence(vec![
            Instance::Optional(None),
            Instance::Optional(Some(Box::new(Instance::Text("x".to_string())))),
        ]),
    );
    round_trips(
        &Shape::Array(Box::new(u8_shape()), 2),
        Instance::Sequence(vec![Instance::Unsigned(1), Instance::Unsigned(2)]),
    );
    round_trips(
        &Shape::HashSet(Box::new(Shape::Text)),
        Instance::Sequence(vec![Instance::Text("a".to_string()), Instance::Text("b".to_string())]),
    );
    round_trips(
        &Shape::HashMap(Box::new(person())),
        Instance::Entries(vec![(
            "boss".to_string(),
            Instance::Struct(vec![Instance::Text("A".to_string()), Instance::Optional(None)]),
        )]),
    );
    let shape = example_enum();
    round_trips(&shape, Instance::Variant(0, vec![]));
    round_trips(&shape, Instance::Variant(1, vec![]));
    round_trips(&shape, Instance::Variant(2, vec![Instance::Unsigned(9)]));
    round_trips(
        &shape,
        Instance::Variant(3, vec![Instance::Unsigned(9), Instance::Text("z".to_string())]),
    );
    round_trips(
        &shape,
        Instance::Variant(4, vec![Instance::Unsigned(9), Instance::Text("z".to_string())]),
    );
    let nested = Shape::Struct(
        "Outer".to_string(),
        Fields::Named(vec![field("choice", example_enum()), field("who", person())]),
    );
    round_trips(
        &nested,
        Instance::Struct(vec![
            Instance::Variant(3, vec![Instance::Unsigned(1), Instance::Text("q".to_string())]),
            Instance::Struct(vec![
                Instance::Text("B".to_string()),
                Instance::Optional(Some(Box::new(Instance::Text("C".to_string())))),
            ]),
        ]),
    );
}

#[test]
fn optional_of_optional_is_not_faithful() {
    let shape = Shape::Optional(Box::new(Shape::Optional(Box::new(u8_shape()))));
    assert!(shape.well_formed());
    assert!(!shape.is_faithful());
    let instance = Instance::Optional(Some(Box::new(Instance::Optional(None))));
    assert!(shape.admits(&instance));
    let json = shape.to_json(&instance);
    assert_eq!(json, Value::Null);
    assert_eq!(shape.from_json(json), Ok(Instance::Optional(None)));
}

#[test]
fn validate_and_decode_agree() {
    let shape = example_enum();
    let cases = vec![
        string("Value"),
        string("Other"),
        object(vec![("One", num(1))]),
        object(vec![("One", string("x"))]),
        object(vec![("Pair", Value::Array(vec![num(1), string("x")]))]),
        num(1),
        Value::Null,
    ];
    for json in cases {
        let first = shape.validate_json(&json);
        let second = shape.validate_json(&json);
        assert_eq!(first, second);
        let valid = first.is_ok();
        let decoded = shape.from_json(json);
        assert_eq!(valid, decoded.is_ok());
        match (first, decoded) {
            (Err(a), Err(b)) => assert_eq!(a, b),
            (Ok(()), Ok(instance)) => assert!(shape.admits(&instance)),
            _ => assert!(false),
        }
    }
}

#[test]
fn from_json_unchecked_agrees_with_from_json() {
    let shape = person();
    let json = || object(vec![("first_name", string("Andrew"))]);
    assert_eq!(shape.validate_json(&json()), Ok(()));
    assert_eq!(Ok(shape.from_json_unchecked(json())), shape.from_json(json()));
}

#[test]
fn admits_only_instances_of_the_shape() {
    assert!(!Shape::Text.admits(&Instance::Unsigned(1)));
    assert!(!u8_shape().admits(&Instance::Unsigned(256)));
    assert!(u8_shape().admits(&Instance::Signed(255)));
    assert!(!u8_shape().admits(&Instance::Signed(-1)));
    assert!(!Shape::Number(NumberKind::I8).admits(&Instance::Unsigned(128)));
    assert!(Shape::Number(NumberKind::I8).admits(&Instance::Signed(-128)));
    assert!(!Shape::Array(Box::new(u8_shape()), 2).admits(&Instance::Sequence(vec![])));
    assert!(!person().admits(&Instance::Struct(vec![Instance::Text("x".to_string())])));
    assert!(!example_enum().admits(&Instance::Variant(5, vec![])));
    assert!(!example_enum().admits(&Instance::Variant(0, vec![Instance::Unsigned(1)])));
    assert!(!example_enum().admits(&Instance::Variant(2, vec![Instance::Text("x".to_string())])));
}

#[test]
fn names_of_types() {
    assert_eq!(Shape::Text.to_name(), "alloc::string::String");
    assert_eq!(Shape::Number(NumberKind::I64).to_name(), "i64");
    assert_eq!(Shape::Optional(Box::new(u8_shape())).to_name(), "core::option::Option<u8>");
    assert_eq!(Shape::Sequence(Box::new(u8_shape())).to_name(), "alloc::vec::Vec<u8>");
    assert_eq!(Shape::Array(Box::new(u8_shape()), 4).to_name(), "[u8; 4]");
    assert_eq!(Shape::Array(Box::new(Shape::Text), 120).to_name(), "[alloc::string::String; 120]");
    assert_eq!(
        Shape::HashSet(Box::new(u8_shape())).to_name(),
        "std::collections::hash::set::HashSet<u8>"
    );
    assert_eq!(
        Shape::HashMap(Box::new(u8_shape())).to_name(),
        "std::collections::hash::map::HashMap<alloc::string::String, u8>"
    );
    assert_eq!(person().to_name(), "Person");
    assert_eq!(example_enum().to_name(), "Example");
}

#[test]
fn fixed_array_length_is_reported_before_anything_else() {
    let shape = Shape::Array(Box::new(u8_shape()), 4);
    assert_eq!(
        shape.validate_json(&Value::Array(vec![num(1), num(2), num(3)])),
        Err(JsonableError::InvalidArrayLength { got: 3, expected: 4 })
    );
    assert_eq!(
        shape.validate_json(&Value::Array(vec![string("a"), num(2), num(3)])),
        Err(JsonableError::InvalidArrayLength { got: 3, expected: 4 })
    );
    assert_eq!(
        shape.validate_json(&Value::Array(vec![string("a"), num(2), num(3), num(4)])),
        Err(JsonableError::IncompatibleEntryForType("u8".to_string()))
    );
}

#[test]
fn implement_named_wants_distinct_names() {
    let name = "Person".to_string();
    let shape = structs::implement_named(
        &name,
        vec![field("a", Shape::Text), field("b", Shape::Text)],
    );
    assert_eq!(
        shape,
        Ok(Shape::Struct(
            "Person".to_string(),
            Fields::Named(vec![field("a", Shape::Text), field("b", Shape::Text)])
        ))
    );
    assert!(shape.unwrap().well_formed());
    assert_eq!(
        structs::implement_named(&name, vec![field("a", Shape::Text), field("a", u8_shape())]),
        Err("duplicate field name".to_string())
    );
}

#[test]
fn implement_enum_checks_every_variant() {
    let name = "Example".to_string();
    let ok = enums::implement(
        &name,
        vec![
            Variant { ident: "A".to_string(), fields: Fields::Unit },
            Variant { ident: "B".to_string(), fields: Fields::Unnamed(vec![u8_shape()]) },
        ],
    );
    assert!(ok.is_ok());
    assert!(ok.unwrap().well_formed());
    assert_eq!(
        enums::implement(
            &name,
            vec![
                Variant { ident: "A".to_string(), fields: Fields::Unit },
                Variant { ident: "A".to_string(), fields: Fields::Unit },
            ]
        ),
        Err("duplicate variant name".to_string())
    );
    assert_eq!(
        enums::implement(
            &name,
            vec![Variant { ident: "A".to_string(), fields: Fields::Unnamed(vec![]) }]
        ),
        Err("variant without positional fields".to_string())
    );
    assert_eq!(
        enums::implement(
            &name,
            vec![Variant {
                ident: "A".to_string(),
                fields: Fields::Named(vec![field("x", u8_shape()), field("x", u8_shape())]),
            }]
        ),
        Err("duplicate field name".to_string())
    );
}

#[test]
fn derive_jsonable_by_kind_of_declaration() {
    let named = DeriveInput {
        ident: "Person".to_string(),
        data: Data::Struct(Fields::Named(vec![field("a", Shape::Text)])),
    };
    assert_eq!(
        derive_jsonable(named),
        Ok(Shape::Struct("Person".to_string(), Fields::Named(vec![field("a", Shape::Text)])))
    );
    let unit = DeriveInput { ident: "Marker".to_string(), data: Data::Struct(Fields::Unit) };
    assert_eq!(derive_jsonable(unit), Ok(Shape::Struct("Marker".to_string(), Fields::Unit)));
    let tuple = DeriveInput {
        ident: "Point".to_string(),
        data: Data::Struct(Fields::Unnamed(vec![u8_shape()])),
    };
    assert_eq!(
        derive_jsonable(tuple),
        Ok(Shape::Struct("Point".to_string(), Fields::Unnamed(vec![u8_shape()])))
    );
    let union = DeriveInput { ident: "Raw".to_string(), data: Data::Union };
    assert_eq!(derive_jsonable(union), Err("Jsonable does not support unions".to_string()));
    let choice = DeriveInput {
        ident: "Choice".to_string(),
        data: Data::Enum(vec![Variant { ident: "A".to_string(), fields: Fields::Unit }]),
    };
    assert_eq!(
        derive_jsonable(choice),
        Ok(Shape::Enum(
            "Choice".to_string(),
            vec![Variant { ident: "A".to_string(), fields: Fields::Unit }]
        ))
    );
}

#[test]
fn sequence_and_map_report_the_element_type() {
    let shape = Shape::Sequence(Box::new(person()));
    assert_eq!(
        shape.validate_json(&Value::Array(vec![num(1)])),
        Err(JsonableError::IncompatibleEntryForType("Person".to_string()))
    );
    assert_eq!(shape.validate_json(&Value::Null), Err(wrong("null", "array")));
    let shape = Shape::HashMap(Box::new(example_enum()));
    assert_eq!(
        shape.validate_json(&object(vec![("k", num(1))])),
        Err(JsonableError::IncompatibleEntryForType("Example".to_string()))
    );
}

#[test]
fn set_keeps_each_member_once() {
    let shape = Shape::HashSet(Box::new(Shape::Text));
    let json = Value::Array(vec![string("a"), string("b"), string("a"), string("c"), string("b")]);
    assert_eq!(
        shape.from_json(json),
        Ok(Instance::Sequence(vec![
            Instance::Text("a".to_string()),
            Instance::Text("b".to_string()),
            Instance::Text("c".to_string()),
        ]))
    );
    let twice = Instance::Sequence(vec![Instance::Unsigned(1), Instance::Signed(1)]);
    assert!(!Shape::HashSet(Box::new(u8_shape())).admits(&twice));
    assert!(Shape::Sequence(Box::new(u8_shape())).admits(&twice));
}

#[test]
fn map_keeps_the_first_entry_of_each_key() {
    let shape = Shape::HashMap(Box::new(u8_shape()));
    let json = Value::Object(Object {
        entries: vec![
            ("k".to_string(), num(1)),
            ("l".to_string(), num(2)),
            ("k".to_string(), num(3)),
        ],
    });
    assert_eq!(
        shape.from_json(json),
        Ok(Instance::Entries(vec![
            ("k".to_string(), Instance::Unsigned(1)),
            ("l".to_string(), Instance::Unsigned(2)),
        ]))
    );
    let twice = Instance::Entries(vec![
        ("k".to_string(), Instance::Unsigned(1)),
        ("k".to_string(), Instance::Unsigned(2)),
    ]);
    assert!(!shape.admits(&twice));
}

#[test]
fn instances_are_the_same_by_what_they_stand_for() {
    assert!(Instance::Unsigned(5).same(&Instance::Signed(5)));
    assert!(Instance::Signed(5).same(&Instance::Unsigned(5)));
    assert!(!Instance::Signed(-5).same(&Instance::Unsigned(5)));
    assert!(!Instance::Unsigned(u64::MAX).same(&Instance::Signed(-1)));
    assert!(Instance::Text("a".to_string()).same(&Instance::Text("a".to_string())));
    assert!(!Instance::Sequence(vec![]).same(&Instance::Struct(vec![])));
    assert!(Instance::Variant(1, vec![Instance::Optional(None)])
        .same(&Instance::Variant(1, vec![Instance::Optional(None)])));
    assert!(!Instance::Variant(1, vec![]).same(&Instance::Variant(2, vec![])));
    assert!(!Instance::Optional(None).same(&Instance::Optional(Some(Box::new(Instance::Unsigned(0))))));
    assert!(Instance::Entries(vec![("a".to_string(), Instance::Unsigned(1))])
        .same(&Instance::Entries(vec![("a".to_string(), Instance::Signed(1))])));
    assert!(!Instance::Entries(vec![("a".to_string(), Instance::Unsigned(1))])
        .same(&Instance::Entries(vec![("b".to_string(), Instance::Unsigned(1))])));
}
