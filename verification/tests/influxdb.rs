use mongodb_influxdb::influxdb::{
    batch_line_protocol, check_status, Client, Config, WriteError,
};
use mongodb_influxdb::line_protocol::data_point::DataPoint;
use mongodb_influxdb::line_protocol::field_value::FieldValue;

fn config(url: &str, token: &str) -> Config {
    Config {
        influxdb_url: url.to_string(),
        influxdb_api_token: token.to_string(),
        influxdb_org: "someorg".to_string(),
        influxdb_bucket: "somebucket".to_string(),
    }
}

#[test]
fn success() {
    // Generated under linux, using `printf "some_line_protocol" | gzip | xxd -i`,
    // with the `OS` byte (see RFC1952, section 2.3.1) set to 255 (unknown).
    let expected_body = vec![
        0x1f, 0x8b, 0x08, 0x00, 0x00, 0x00, 0x00, 0x00, 0x00, 0xff, 0x2b, 0xce, 0xcf, 0x4d, 0x8d,
        0xcf, 0xc9, 0xcc, 0x4b, 0x8d, 0x2f, 0x28, 0xca, 0x2f, 0xc9, 0x4f, 0xce, 0xcf, 0x01, 0x00,
        0xd5, 0x03, 0x68, 0xd5, 0x12, 0x00, 0x00, 0x00,
    ];
    let client = Client::new(&config("http://127.0.0.1:1234", "sometoken"));

    let request = client.write_request("some_line_protocol").unwrap();

    assert_eq!(
        request.url,
        "http://127.0.0.1:1234/api/v2/write?bucket=somebucket&org=someorg&precision=s"
    );
    assert_eq!(request.authorization, "Token sometoken");
    assert_eq!(request.content_encoding, "gzip");
    assert_eq!(request.content_type, "text/plain; charset=utf-8");
    assert_eq!(request.body, expected_body);
    assert_eq!(check_status(204), Ok(()));
}

#[test]
fn bad_status_code() {
    let client = Client::new(&config("http://127.0.0.1:1234", "sometoken"));

    assert!(client.write_request("some_line_protocol").is_ok());
    assert_eq!(check_status(500), Err(WriteError::Status(500)));
}

#[test]
fn write_request_replaces_root_path_and_encodes_query() {
    let mut cfg = config("http://influxdb:8086/some/path", "t");
    cfg.influxdb_bucket = "my bucket&co".to_string();

    let request = Client::new(&cfg).write_request("").unwrap();

    assert_eq!(
        request.url,
        "http://influxdb:8086/api/v2/write?bucket=my+bucket%26co&org=someorg&precision=s"
    );
}

#[test]
fn write_request_invalid_url() {
    let client = Client::new(&config("not a url", "sometoken"));

    assert!(matches!(
        client.write_request("some_line_protocol"),
        Err(WriteError::InvalidUrl)
    ));
}

#[test]
fn status_codes() {
    assert_eq!(check_status(200), Ok(()));
    assert_eq!(check_status(204), Ok(()));
    assert_eq!(check_status(299), Ok(()));
    assert_eq!(check_status(199), Err(WriteError::Status(199)));
    assert_eq!(check_status(300), Err(WriteError::Status(300)));
    assert_eq!(check_status(500), Err(WriteError::Status(500)));
}

#[test]
fn batch_joins_lines() {
    let points = vec![
        DataPoint::new("a".into(), vec![], vec![("f".into(), FieldValue::Boolean(true))], 1),
        DataPoint::new("b".into(), vec![], vec![("g".into(), FieldValue::Integer(2))], 2),
    ];

    assert_eq!(batch_line_protocol(&points), "a f=true 1\nb g=2i 2");
    assert_eq!(batch_line_protocol(&vec![]), "");
}
