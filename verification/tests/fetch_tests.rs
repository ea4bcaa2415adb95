use oref_red_alert::{Alert, Error};

#[test]
fn empty_body_means_no_alert() {
    assert_eq!(Alert::parse_response(""), Ok(None));
}

#[test]
fn nonempty_body_is_parsed() {
    let r = Alert::parse_response("{\"data\":[\"TestCity\"],\"id\":1337,\"title\":\"Test\"}");
    let a = r.unwrap().unwrap();
    assert_eq!(a.areas, vec!["TestCity".to_string()]);
    assert_eq!(a.date, 1337);
    assert_eq!(a.title, "Test");
}

#[test]
fn malformed_payload_is_rejected() {
    assert_eq!(Alert::parse_response("{\"data\": \"not-an-array\"}"), Err(Error::Parse));
    assert_eq!(Alert::parse_response("{\"data\":[],\"title\":\"x\"}"), Err(Error::Parse));
    assert_eq!(Alert::parse_response("{\"data\":[],\"id\":true,\"title\":\"x\"}"), Err(Error::Parse));
    assert_eq!(Alert::parse_response("{\"data\":[],\"id\":1.5,\"title\":\"x\"}"), Err(Error::Parse));
    assert_eq!(Alert::parse_response("not json at all"), Err(Error::Parse));
    assert_eq!(Alert::parse_response("   "), Err(Error::Parse));
    assert_eq!(Alert::parse_response("{\"data\":[],\"id\":1,\"title\":\"x\"} extra"), Err(Error::Parse));
    assert_eq!(Alert::parse_response("{\"data\":[],\"id\":1,\"title\":\"x\""), Err(Error::Parse));
    assert_eq!(Alert::parse_response("{\"data\":[1],\"id\":1,\"title\":\"x\"}"), Err(Error::Parse));
}

#[test]
fn parse_failures_are_never_transport_errors() {
    for body in ["{", "[]", "null", "{\"id\":1}"] {
        match Alert::parse_response(body) {
            Err(Error::Parse) => {},
            other => panic!("expected a parse error, got {:?}", other),
        }
    }
}

#[test]
fn error_kinds_are_distinct() {
    assert_ne!(Error::Transport, Error::Parse);
    assert!(matches!(Error::Transport, Error::Transport));
}
