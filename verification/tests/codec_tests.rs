use oref_red_alert::{deserialize, serialize, Alert, Error};

fn alert(areas: &[&str], date: i64, title: &str) -> Alert {
    Alert {
        areas: areas.iter().map(|a| a.to_string()).collect(),
        date,
        title: title.to_string(),
    }
}

#[test]
fn consistent_serde() {
    let title = String::new();
    let alert = Alert {
        areas: vec![],
        date: 1337,
        title,
    };
    println!("{:?}", alert.encode());
    let new = Alert::decode(&alert.encode()).unwrap();
    assert!(alert == new);
}

#[test]
fn field_mapping_exact() {
    let a = alert(&["TestCity"], 1337, "Test");
    assert_eq!(a.encode(), "{\"data\":[\"TestCity\"],\"id\":1337,\"title\":\"Test\"}");
}

#[test]
fn round_trip_plain() {
    let a = alert(&["Area A", "Area B"], 1700000000123, "Alert title");
    assert_eq!(Alert::decode(&a.encode()).unwrap(), a);
}

#[test]
fn round_trip_negative_date() {
    let a = alert(&["X"], -12345, "before the epoch");
    assert_eq!(a.encode(), "{\"data\":[\"X\"],\"id\":-12345,\"title\":\"before the epoch\"}");
    assert_eq!(Alert::decode(&a.encode()).unwrap(), a);
}

#[test]
fn round_trip_escapes_and_unicode() {
    let a = alert(
        &["quote \" backslash \\ slash /", "control \u{01}\u{1f} tab \t"],
        0,
        "line\nbreak and \u{05d0}\u{05dc}\u{05e8}\u{05d8}",
    );
    assert_eq!(Alert::decode(&a.encode()).unwrap(), a);
}

#[test]
fn round_trip_empty_fields() {
    let a = alert(&[], i64::MIN, "");
    assert_eq!(Alert::decode(&a.encode()).unwrap(), a);
    let b = alert(&["", ""], i64::MAX, "");
    assert_eq!(Alert::decode(&b.encode()).unwrap(), b);
}

#[test]
fn control_chars_use_u_escapes() {
    let a = alert(&[], 0, "\u{01}");
    assert_eq!(a.encode(), "{\"data\":[],\"id\":0,\"title\":\"\\u0001\"}");
    let b = alert(&[], 0, "\u{08}\u{0c}\n\r\t");
    assert_eq!(b.encode(), "{\"data\":[],\"id\":0,\"title\":\"\\b\\f\\n\\r\\t\"}");
}

#[test]
fn decode_accepts_standard_escapes() {
    let a = Alert::decode("{\"data\":[\"a\\/b\"],\"id\":0,\"title\":\"\\u0041\\u05d0\"}").unwrap();
    assert_eq!(a.areas, vec!["a/b".to_string()]);
    assert_eq!(a.title, "A\u{05d0}");
}

#[test]
fn decode_rejects_bad_escapes() {
    assert_eq!(Alert::decode("{\"data\":[],\"id\":0,\"title\":\"\\x\"}"), Err(Error::Parse));
    assert_eq!(Alert::decode("{\"data\":[],\"id\":0,\"title\":\"\\ud800\"}"), Err(Error::Parse));
    assert_eq!(Alert::decode("{\"data\":[],\"id\":0,\"title\":\"\\u00g0\"}"), Err(Error::Parse));
}

#[test]
fn decode_accepts_whitespace() {
    let body = "  { \"data\" : [ \"A\" ,\n\"B\" ] , \"id\" :\t-7 , \"title\" : \"t\" }\r\n";
    let a = Alert::decode(body).unwrap();
    assert_eq!(a, alert(&["A", "B"], -7, "t"));
}

#[test]
fn date_serialize_examples() {
    assert_eq!(serialize(1337), "1337");
    assert_eq!(serialize(0), "0");
    assert_eq!(serialize(-1), "-1");
    assert_eq!(serialize(i64::MIN), "-9223372036854775808");
    assert_eq!(serialize(i64::MAX), "9223372036854775807");
}

#[test]
fn date_deserialize_examples() {
    assert_eq!(deserialize("1337"), Ok(1337));
    assert_eq!(deserialize("-9223372036854775808"), Ok(i64::MIN));
    assert_eq!(deserialize("9223372036854775807"), Ok(i64::MAX));
    assert_eq!(deserialize("0"), Ok(0));
}

#[test]
fn date_deserialize_rejects() {
    assert_eq!(deserialize(""), Err(Error::Parse));
    assert_eq!(deserialize("-"), Err(Error::Parse));
    assert_eq!(deserialize("007"), Err(Error::Parse));
    assert_eq!(deserialize("12x"), Err(Error::Parse));
    assert_eq!(deserialize(" 5"), Err(Error::Parse));
    // one past either end of the i64 range
    assert_eq!(deserialize("9223372036854775808"), Err(Error::Parse));
    assert_eq!(deserialize("-9223372036854775809"), Err(Error::Parse));
    assert_eq!(deserialize("99999999999999999999999999"), Err(Error::Parse));
}

#[test]
fn timestamp_boundary_in_document() {
    let lo = Alert::decode("{\"data\":[],\"id\":-9223372036854775808,\"title\":\"\"}").unwrap();
    assert_eq!(lo.date, i64::MIN);
    let hi = Alert::decode("{\"data\":[],\"id\":9223372036854775807,\"title\":\"\"}").unwrap();
    assert_eq!(hi.date, i64::MAX);
    assert_eq!(
        Alert::decode("{\"data\":[],\"id\":9223372036854775808,\"title\":\"\"}"),
        Err(Error::Parse)
    );
}

#[test]
fn encoding_agrees_with_serde_json() {
    let a = alert(&["Area A", "Area B"], 1700000000123, "title \n \"quoted\"");
    let v: serde_json::Value = serde_json::from_str(&a.encode()).unwrap();
    assert_eq!(v["data"][0], serde_json::Value::String("Area A".to_string()));
    assert_eq!(v["data"][1], serde_json::Value::String("Area B".to_string()));
    assert_eq!(v["id"], serde_json::Value::from(1700000000123i64));
    assert_eq!(v["title"], serde_json::Value::String("title \n \"quoted\"".to_string()));
}
