use std::time::{SystemTime, UNIX_EPOCH};

use mongodb_influxdb::line_protocol::data_point::DataPoint;
use mongodb_influxdb::line_protocol::field_value::{BsonValue, FieldValue};
use mongodb_influxdb::mongodb::DataDocument;

fn float_text(value: f64) -> String {
    ryu::Buffer::new().format(value).to_string()
}

#[test]
fn create() {
    let now_secs = SystemTime::now()
        .duration_since(UNIX_EPOCH)
        .unwrap()
        .as_secs();
    let data_document = DataDocument {
        id: "anid".into(),
        val: vec![
            ("first".into(), BsonValue::Boolean(true)),
            ("second".into(), BsonValue::String("a_string".into())),
            ("third".into(), BsonValue::Double(float_text(37.5))),
            ("fourth".into(), BsonValue::Int32(42)),
        ],
        updated_since: 0,
    };
    let measurement = String::from("some_measurement");

    let data_point = DataPoint::create(data_document, measurement, now_secs);

    assert_eq!(data_point.measurement(), "some_measurement");
    assert_eq!(data_point.tag("id").unwrap(), "anid");
    assert_eq!(data_point.field("first").unwrap(), &FieldValue::Boolean(true));
    assert_eq!(
        data_point.field("second").unwrap(),
        &FieldValue::String("a_string".into())
    );
    assert_eq!(
        data_point.field("third").unwrap(),
        &FieldValue::Float(float_text(37.5))
    );
    assert_eq!(data_point.field("fourth").unwrap(), &FieldValue::Integer(42));
}

#[test]
fn create_leaves_out_unsupported_values() {
    let data_document = DataDocument {
        id: "doc".into(),
        val: vec![
            ("kept".into(), BsonValue::Int64(7)),
            ("dropped".into(), BsonValue::Unsupported),
            ("kept".into(), BsonValue::Boolean(false)),
        ],
        updated_since: 0,
    };

    let data_point = DataPoint::create(data_document, "m".into(), 3);

    assert!(data_point.field("dropped").is_none());
    assert_eq!(data_point.field("kept").unwrap(), &FieldValue::Boolean(false));
    assert_eq!(data_point.timestamp(), 3);
    assert_eq!(data_point.to_line_protocol(), "m,id=doc kept=false 3");
}

#[test]
fn display_datapoint() {
    let tags = vec![
        ("some, tagkey".into(), "a=tagvalue".into()),
        ("a=tagkey".into(), "some, tagvalue".into()),
        ("othertagkey".into(), "otherval".into()),
    ];
    let fields = vec![
        ("some, fieldkey".into(), FieldValue::Boolean(false)),
        ("a=fieldkey".into(), FieldValue::Float(float_text(42.5))),
        ("otherfieldkey".into(), FieldValue::String("val".into())),
    ];
    let data_point = DataPoint::new("a, measurement".into(), tags, fields, 8151561);

    let expected = [
        r#"a\,\ measurement,"#,
        r#"a\=tagkey=some\,\ tagvalue,othertagkey=otherval,some\,\ tagkey=a\=tagvalue "#,
        r#"a\=fieldkey=42.5,otherfieldkey="val",some\,\ fieldkey=false "#,
        "8151561",
    ]
    .concat();

    assert_eq!(data_point.to_line_protocol(), expected);
}

#[test]
fn display_datapoint_order_of_insertion_does_not_matter() {
    let first = DataPoint::new(
        "m".into(),
        vec![("b".into(), "2".into()), ("a".into(), "1".into())],
        vec![("y".into(), FieldValue::Integer(1)), ("x".into(), FieldValue::UInteger(2))],
        10,
    );
    let second = DataPoint::new(
        "m".into(),
        vec![("a".into(), "1".into()), ("b".into(), "2".into())],
        vec![("x".into(), FieldValue::UInteger(2)), ("y".into(), FieldValue::Integer(1))],
        10,
    );

    assert_eq!(first.to_line_protocol(), "m,a=1,b=2 x=2u,y=1i 10");
    assert_eq!(first.to_line_protocol(), second.to_line_protocol());
}

#[test]
fn display_datapoint_orders_keys_by_code_point() {
    let data_point = DataPoint::new(
        "m".into(),
        vec![
            ("é".into(), "1".into()),
            ("z".into(), "2".into()),
            ("Z".into(), "3".into()),
            ("za".into(), "4".into()),
        ],
        vec![],
        0,
    );

    assert_eq!(data_point.to_line_protocol(), "m,Z=3,z=2,za=4,é=1  0");
}

#[test]
fn later_pair_replaces_earlier() {
    let data_point = DataPoint::new(
        "m".into(),
        vec![("k".into(), "old".into()), ("k".into(), "new".into())],
        vec![],
        1,
    );

    assert_eq!(data_point.tag("k").unwrap(), "new");
    assert!(data_point.tag("other").is_none());
}

/// Reads text up to an unescaped stop character; a backslash stands for
/// the character after it.
fn read_token(s: &[char], stops: &[char]) -> (String, usize) {
    let mut out = String::new();
    let mut i = 0;
    while i < s.len() && !stops.contains(&s[i]) {
        if s[i] == '\\' && i + 1 < s.len() {
            out.push(s[i + 1]);
            i += 2;
        } else {
            out.push(s[i]);
            i += 1;
        }
    }
    (out, i)
}

#[test]
fn line_reads_back() {
    let data_point = DataPoint::new(
        "a, m=x".into(),
        vec![("t k".into(), "v,=".into())],
        vec![
            ("f=1".into(), FieldValue::String("say \"hi\", ok".into())),
            ("g".into(), FieldValue::Integer(-5)),
            ("h".into(), FieldValue::Float(float_text(1.5))),
        ],
        99,
    );
    let line: Vec<char> = data_point.to_line_protocol().chars().collect();

    let (measurement, n) = read_token(&line, &[',', ' ']);
    assert_eq!(measurement, "a, m=x");
    let mut rest = &line[n..];
    assert_eq!(rest[0], ',');
    let (key, n) = read_token(&rest[1..], &[',', '=', ' ']);
    assert_eq!(key, "t k");
    rest = &rest[1 + n..];
    assert_eq!(rest[0], '=');
    let (value, n) = read_token(&rest[1..], &[',', '=', ' ']);
    assert_eq!(value, "v,=");
    rest = &rest[1 + n..];
    assert_eq!(rest[0], ' ');
    let (key, n) = read_token(&rest[1..], &[',', '=', ' ']);
    assert_eq!(key, "f=1");
    rest = &rest[1 + n..];
    assert_eq!(&rest[..2], &['=', '"']);
    let (text, n) = read_token(&rest[2..], &['"']);
    assert_eq!(text, "say \"hi\", ok");
    rest = &rest[2 + n..];
    assert_eq!(rest[0], '"');
    let tail: String = rest[1..].iter().collect();
    assert_eq!(tail, ",g=-5i,h=1.5 99");
}
