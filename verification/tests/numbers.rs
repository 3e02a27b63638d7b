use jsonable::number::{float_to_i64, float_to_u64, pattern_of};
use jsonable::text::decimal_string;
use jsonable::{Instance, JsonableError, Number, NumberKind, Object, Shape, Value};

fn decoded(kind: NumberKind, n: Number) -> Instance {
    Shape::Number(kind).from_json(Value::Number(n)).unwrap()
}

#[test]
fn every_number_is_valid_for_every_kind() {
    let kinds = [
        NumberKind::U8,
        NumberKind::U16,
        NumberKind::U32,
        NumberKind::U64,
        NumberKind::I8,
        NumberKind::I16,
        NumberKind::I32,
        NumberKind::I64,
    ];
    let numbers =
        [Number::PosInt(u64::MAX), Number::NegInt(i64::MIN), Number::Float(1.5f64.to_bits())];
    for kind in kinds {
        for n in numbers {
            let shape = Shape::Number(kind);
            assert_eq!(shape.validate_json(&Value::Number(n)), Ok(()));
            let instance = shape.from_json(Value::Number(n)).unwrap();
            assert!(shape.admits(&instance));
        }
        assert_eq!(
            Shape::Number(kind).validate_json(&Value::String("1".to_string())),
            Err(JsonableError::IncompatibleJsonType { got: "string", expected: "number" })
        );
    }
}

#[test]
fn unsigned_kinds_keep_the_low_bits() {
    assert_eq!(decoded(NumberKind::U8, Number::PosInt(255)), Instance::Unsigned(255));
    assert_eq!(decoded(NumberKind::U8, Number::PosInt(256)), Instance::Unsigned(0));
    assert_eq!(decoded(NumberKind::U8, Number::PosInt(300)), Instance::Unsigned(300u64 as u8 as u64));
    assert_eq!(decoded(NumberKind::U16, Number::PosInt(70000)), Instance::Unsigned(70000u64 as u16 as u64));
    assert_eq!(
        decoded(NumberKind::U32, Number::PosInt(u64::MAX)),
        Instance::Unsigned(u32::MAX as u64)
    );
    assert_eq!(decoded(NumberKind::U64, Number::PosInt(u64::MAX)), Instance::Unsigned(u64::MAX));
    assert_eq!(decoded(NumberKind::U8, Number::NegInt(-1)), Instance::Unsigned(255));
    assert_eq!(decoded(NumberKind::U64, Number::NegInt(-1)), Instance::Unsigned(u64::MAX));
    assert_eq!(
        decoded(NumberKind::U16, Number::NegInt(-70000)),
        Instance::Unsigned(-70000i64 as u16 as u64)
    );
}

#[test]
fn signed_kinds_keep_the_low_bits() {
    assert_eq!(decoded(NumberKind::I8, Number::PosInt(127)), Instance::Signed(127));
    assert_eq!(decoded(NumberKind::I8, Number::PosInt(128)), Instance::Signed(-128));
    assert_eq!(decoded(NumberKind::I8, Number::PosInt(200)), Instance::Signed(200i64 as i8 as i64));
    assert_eq!(decoded(NumberKind::I8, Number::NegInt(-129)), Instance::Signed(127));
    assert_eq!(decoded(NumberKind::I16, Number::NegInt(-40000)), Instance::Signed(-40000i64 as i16 as i64));
    assert_eq!(
        decoded(NumberKind::I32, Number::PosInt(0x1_0000_0001)),
        Instance::Signed(0x1_0000_0001i64 as i32 as i64)
    );
    assert_eq!(decoded(NumberKind::I64, Number::PosInt(u64::MAX)), Instance::Signed(-1));
    assert_eq!(decoded(NumberKind::I64, Number::NegInt(i64::MIN)), Instance::Signed(i64::MIN));
}

#[test]
fn doubles_are_cut_towards_zero() {
    let f = |x: f64| Number::Float(x.to_bits());
    assert_eq!(decoded(NumberKind::U8, f(1.5)), Instance::Unsigned(1));
    assert_eq!(decoded(NumberKind::U8, f(-1.5)), Instance::Unsigned(0));
    assert_eq!(decoded(NumberKind::I8, f(-1.5)), Instance::Signed(-1));
    assert_eq!(decoded(NumberKind::U8, f(1e30)), Instance::Unsigned(255));
    assert_eq!(decoded(NumberKind::I64, f(1e30)), Instance::Signed(i64::MAX));
    assert_eq!(decoded(NumberKind::I64, f(-1e30)), Instance::Signed(i64::MIN));
    assert_eq!(decoded(NumberKind::U64, f(0.999)), Instance::Unsigned(0));
    assert_eq!(decoded(NumberKind::U32, f(4294967296.0)), Instance::Unsigned(0));
}

#[test]
fn doubles_convert_as_the_language_casts_them() {
    let samples: Vec<f64> = vec![
        0.0,
        -0.0,
        0.5,
        1.0,
        1.999,
        -1.0,
        -2.5,
        255.9,
        4503599627370496.0,
        4503599627370497.0,
        9007199254740992.0,
        9223372036854775807.0,
        9223372036854775808.0,
        18446744073709551615.0,
        18446744073709551616.0,
        -9223372036854775808.0,
        -9223372036854777856.0,
        1e300,
        -1e300,
        f64::MIN_POSITIVE,
        f64::MAX,
        f64::MIN,
        f64::INFINITY,
        f64::NEG_INFINITY,
        f64::NAN,
        5e-324,
        123456789.123,
        -123456789.123,
    ];
    for x in samples {
        assert_eq!(float_to_u64(x.to_bits()), x as u64);
        assert_eq!(float_to_i64(x.to_bits()), x as i64);
    }
}

#[test]
fn patterns_are_twos_complement() {
    assert_eq!(pattern_of(0), 0);
    assert_eq!(pattern_of(5), 5);
    assert_eq!(pattern_of(-1), u64::MAX);
    assert_eq!(pattern_of(i64::MIN), 1u64 << 63);
    assert_eq!(pattern_of(i64::MAX), i64::MAX as u64);
    assert_eq!(Number::NegInt(-2).read_unsigned(), (-2i64) as u64);
    assert_eq!(Number::PosInt(9).read_signed(), 9);
}

#[test]
fn integers_encode_by_sign() {
    assert_eq!(Number::from_signed(-1), Number::NegInt(-1));
    assert_eq!(Number::from_signed(0), Number::PosInt(0));
    assert_eq!(Number::from_signed(i64::MAX), Number::PosInt(i64::MAX as u64));
    assert_eq!(Number::from_unsigned(7), Number::PosInt(7));
    let shape = Shape::Number(NumberKind::I32);
    assert_eq!(shape.to_json(&Instance::Signed(-7)), Value::Number(Number::NegInt(-7)));
    assert_eq!(shape.to_json(&Instance::Signed(7)), Value::Number(Number::PosInt(7)));
    assert_eq!(shape.to_json(&Instance::Unsigned(7)), Value::Number(Number::PosInt(7)));
}

#[test]
fn kinds_know_their_ranges_and_names() {
    assert!(NumberKind::U8.holds_unsigned(255));
    assert!(!NumberKind::U8.holds_unsigned(256));
    assert!(NumberKind::I8.holds_signed(-128));
    assert!(!NumberKind::I8.holds_signed(-129));
    assert!(!NumberKind::I64.holds_unsigned(1u64 << 63));
    assert!(!NumberKind::U64.holds_signed(-1));
    assert!(NumberKind::I16.signed());
    assert!(!NumberKind::U16.signed());
    assert_eq!(NumberKind::U8.to_name(), "u8");
    assert_eq!(NumberKind::I64.to_name(), "i64");
    assert_eq!(NumberKind::U32.narrow_unsigned(u64::MAX), u32::MAX as u64);
    assert_eq!(NumberKind::I16.narrow_signed(0xffff), -1);
}

#[test]
fn decimal_numerals() {
    assert_eq!(decimal_string(0), "0");
    assert_eq!(decimal_string(7), "7");
    assert_eq!(decimal_string(10), "10");
    assert_eq!(decimal_string(1234567890), "1234567890");
    assert_eq!(decimal_string(usize::MAX), usize::MAX.to_string());
}

#[test]
fn object_keeps_one_member_for_each_key() {
    let mut object = Object::new();
    assert_eq!(object.len(), 0);
    object.insert("a".to_string(), Value::Null);
    object.insert("b".to_string(), Value::Bool(true));
    object.insert("a".to_string(), Value::Bool(false));
    assert_eq!(object.len(), 2);
    assert_eq!(object.get(&"a".to_string()), Some(&Value::Bool(false)));
    assert_eq!(object.get(&"b".to_string()), Some(&Value::Bool(true)));
    assert_eq!(object.get(&"c".to_string()), None);
    assert_eq!(
        object.entries,
        vec![("a".to_string(), Value::Bool(false)), ("b".to_string(), Value::Bool(true))]
    );
}

#[test]
fn object_lookup_takes_the_first_member_of_a_key() {
    let object = Object {
        entries: vec![("a".to_string(), Value::Bool(true)), ("a".to_string(), Value::Null)],
    };
    assert_eq!(object.get(&"a".to_string()), Some(&Value::Bool(true)));
    assert_eq!(object.len(), 2);
}

#[test]
fn values_name_their_kind() {
    assert_eq!(Value::Null.kind(), "null");
    assert_eq!(Value::Bool(true).kind(), "bool");
    assert_eq!(Value::Number(Number::PosInt(1)).kind(), "number");
    assert_eq!(Value::String(String::new()).kind(), "string");
    assert_eq!(Value::Array(vec![]).kind(), "array");
    assert_eq!(Value::Object(Object::new()).kind(), "object");
}
