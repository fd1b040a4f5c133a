use mongodb_influxdb::line_protocol::field_value::{BsonValue, FieldValue};
use mongodb_influxdb::mongodb::{is_fresh, scrape_data_points, tick_interval_millis, DataDocument};

fn doc(id: &str, updated_since: u64) -> DataDocument {
    DataDocument {
        id: id.into(),
        val: vec![("v".into(), BsonValue::Int32(1))],
        updated_since,
    }
}

#[test]
fn freshness() {
    assert!(is_fresh(&doc("a", 59_999), 60_000));
    assert!(!is_fresh(&doc("a", 60_000), 60_000));
}

#[test]
fn tick_interval() {
    assert_eq!(tick_interval_millis(60_000), 60_000);
    assert_eq!(tick_interval_millis((1u128 << 64) + 5), 5);
}

#[test]
fn scrape_keeps_fresh_documents_in_order() {
    let docs = vec![doc("one", 10), doc("old", 100), doc("two", 0)];

    let points = scrape_data_points(docs, 50, "db.coll", 1234);

    assert_eq!(points.len(), 2);
    assert_eq!(points[0].tag("id").unwrap(), "one");
    assert_eq!(points[1].tag("id").unwrap(), "two");
    assert_eq!(points[0].measurement(), "db.coll");
    assert_eq!(points[1].field("v").unwrap(), &FieldValue::Integer(1));
    assert_eq!(points[1].to_line_protocol(), "db.coll,id=two v=1i 1234");
}
