use mongodb_influxdb::line_protocol::field_value::{BsonValue, FieldValue};

/// The text that a float is carried as: its shortest round-trip rendering.
fn float_text(value: f64) -> String {
    ryu::Buffer::new().format(value).to_string()
}

#[test]
fn from_double() {
    let bson = BsonValue::Double(float_text(42.5));

    let result = FieldValue::try_from(bson).expect("conversion error");

    assert_eq!(result, FieldValue::Float(float_text(42.5)));
}

#[test]
fn from_string() {
    let bson = BsonValue::String("astring".into());

    let result = FieldValue::try_from(bson).expect("conversion error");

    assert_eq!(result, FieldValue::String("astring".into()));
}

#[test]
fn from_boolean() {
    let bson = BsonValue::Boolean(true);

    let result = FieldValue::try_from(bson).expect("conversion error");

    assert_eq!(result, FieldValue::Boolean(true));
}

#[test]
fn from_int32() {
    let bson = BsonValue::Int32(42);

    let result = FieldValue::try_from(bson).expect("conversion error");

    assert_eq!(result, FieldValue::Integer(42));
}

#[test]
fn from_int64() {
    let bson = BsonValue::Int64(42000);

    let result = FieldValue::try_from(bson).expect("conversion error");

    assert_eq!(result, FieldValue::Integer(42000));
}

#[test]
fn from_unsupported() {
    let result = FieldValue::try_from(BsonValue::Unsupported);

    assert_eq!(result, Err("unsupported BSON type"));
}

#[test]
fn display_float() {
    let field_value = FieldValue::Float(float_text(37.42));

    assert_eq!(field_value.to_line_protocol(), "37.42");
}

#[test]
fn display_float_scientific() {
    let field_value = FieldValue::Float(float_text(0.000000000000000000000000001));

    assert_eq!(field_value.to_line_protocol(), "1e-27");
}

#[test]
fn display_integer() {
    let field_value = FieldValue::Integer(-546130);

    assert_eq!(field_value.to_line_protocol(), "-546130i");
}

#[test]
fn display_integer_extremes() {
    assert_eq!(
        FieldValue::Integer(i64::MIN).to_line_protocol(),
        "-9223372036854775808i"
    );
    assert_eq!(FieldValue::Integer(0).to_line_protocol(), "0i");
}

#[test]
fn display_uinteger() {
    let field_value = FieldValue::UInteger(549844);

    assert_eq!(field_value.to_line_protocol(), "549844u");
}

#[test]
fn display_uinteger_max() {
    assert_eq!(
        FieldValue::UInteger(u64::MAX).to_line_protocol(),
        "18446744073709551615u"
    );
}

#[test]
fn display_string() {
    let to_escape = r#"some "text" wi\th \\ escapes"#;
    let field_value = FieldValue::String(to_escape.into());

    let expected = r#""some \"text\" wi\\th \\\\ escapes""#;
    assert_eq!(field_value.to_line_protocol(), expected);
}

#[test]
fn display_string_keeps_separators() {
    let field_value = FieldValue::String("a, b=c é".into());

    assert_eq!(field_value.to_line_protocol(), "\"a, b=c é\"");
}

#[test]
fn display_true() {
    let field_value = FieldValue::Boolean(true);

    assert_eq!(field_value.to_line_protocol(), "true");
}

#[test]
fn display_false() {
    let field_value = FieldValue::Boolean(false);

    assert_eq!(field_value.to_line_protocol(), "false");
}

#[test]
fn integer_text_reads_back() {
    for i in [i64::MIN, -546130, -1, 0, 7, i64::MAX] {
        let text = FieldValue::Integer(i).to_line_protocol();
        assert!(text.ends_with('i'));
        assert_eq!(text[..text.len() - 1].parse::<i64>().unwrap(), i);
    }
    for u in [0, 549844, u64::MAX] {
        let text = FieldValue::UInteger(u).to_line_protocol();
        assert!(text.ends_with('u'));
        assert_eq!(text[..text.len() - 1].parse::<u64>().unwrap(), u);
    }
}
