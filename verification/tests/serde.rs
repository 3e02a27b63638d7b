use jsonable::{
    Field, Fields, Instance, Jsonable, JsonableError, Number, Object, Shape, Value,
};

fn convert(json: serde_json::Value) -> Value {
    match json {
        serde_json::Value::Null => Value::Null,
        serde_json::Value::Bool(b) => Value::Bool(b),
        serde_json::Value::Number(n) => Value::Number(if let Some(v) = n.as_u64() {
            Number::PosInt(v)
        } else if let Some(i) = n.as_i64() {
            Number::NegInt(i)
        } else {
            Number::Float(n.as_f64().unwrap().to_bits())
        }),
        serde_json::Value::String(s) => Value::String(s),
        serde_json::Value::Array(items) => Value::Array(items.into_iter().map(convert).collect()),
        serde_json::Value::Object(map) => {
            let mut object = Object::new();
            for (key, value) in map {
                object.insert(key, convert(value));
            }
            Value::Object(object)
        }
    }
}

fn parse(text: &str) -> Value {
    convert(serde_json::from_str(text).unwrap())
}

fn research_paper() -> Shape {
    Shape::Struct(
        "ResearchPaper".to_string(),
        Fields::Named(vec![
            Field { ident: "name".to_string(), ty: Shape::Text },
            Field { ident: "pages".to_string(), ty: Vec::<String>::describe() },
        ]),
    )
}

#[test]
fn parsed_object_is_no_vector() {
    let v = parse(
        r#"{
            "name": { "en_US": "A Research Of Papers" },
            "pages": []
        }"#,
    );
    assert_eq!(
        Vec::<String>::from_json(v),
        Err(JsonableError::IncompatibleJsonType { got: "object", expected: "array" })
    );
}

#[test]
fn parsed_array_with_a_wrong_entry() {
    let v = parse(
        r#"[
            "Why are you reading this?",
            13,
            "No, there isn't a hidden message."
        ]"#,
    );
    assert_eq!(
        Vec::<String>::from_json(v),
        Err(JsonableError::IncompatibleEntryForType("alloc::string::String".to_string()))
    );
}

#[test]
fn parsed_record_with_a_wrong_field() {
    let v = parse(
        r#"{
            "name": "Around the Riverbend: A Study of River Ecosystems",
            "pages": [
                "I don't actually know anything about river ecosystems, however",
                12,
                "and if that doesn't convince you, I don't know what will."
            ]
        }"#,
    );
    assert_eq!(
        research_paper().from_json(v),
        Err(JsonableError::InnerErrorForType {
            ty: "alloc::vec::Vec<alloc::string::String>".to_string(),
            error: Box::new(JsonableError::IncompatibleEntryForType(
                "alloc::string::String".to_string()
            )),
        })
    );
}

#[test]
fn parsed_record_decodes() {
    let v = parse(r#"{ "pages": ["one", "two"], "name": "Short" }"#);
    assert_eq!(
        research_paper().from_json(v),
        Ok(Instance::Struct(vec![
            Instance::Text("Short".to_string()),
            Instance::Sequence(vec![
                Instance::Text("one".to_string()),
                Instance::Text("two".to_string()),
            ]),
        ]))
    );
}

#[test]
fn parsed_numbers_keep_their_kind() {
    assert_eq!(parse("7"), Value::Number(Number::PosInt(7)));
    assert_eq!(parse("-7"), Value::Number(Number::NegInt(-7)));
    assert_eq!(parse("7.5"), Value::Number(Number::Float(7.5f64.to_bits())));
    assert_eq!(Vec::<i8>::from_json(parse("[1, -1, 2.9, 300]")), Ok(vec![1, -1, 2, 44]));
    assert_eq!(<[u16; 2]>::from_json(parse("[65536, -1]")), Ok([0, 65535]));
}

#[test]
fn parsed_nested_options() {
    assert_eq!(
        Vec::<Option<String>>::from_json(parse(r#"["a", null]"#)),
        Ok(vec![Some("a".to_string()), None])
    );
}
