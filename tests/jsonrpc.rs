use blocknode::jsonrpc::{Error, Id, Request, Response};
use serde_json::Value;

fn params() -> Value {
    Value::Array(vec![Value::from(42), Value::from(23)])
}

#[test]
fn request() {
    let req1 = Request::new(From::from("subtract"), params(), Id::Number(1));
    assert_eq!(req1.is_notification(), false);
    let expected1: Value = serde_json::from_str(
        r#"{
            "jsonrpc": "2.0",
            "method": "subtract",
            "params": [42, 23],
            "id": 1
        }"#,
    )
    .unwrap();
    assert_eq!(Value::from(req1.jsonrpc.clone()), expected1["jsonrpc"]);
    assert_eq!(Value::from(req1.method.clone()), expected1["method"]);
    assert_eq!(req1.params.clone(), Some(expected1["params"].clone()));
    assert_eq!(req1.id, Some(Id::Number(expected1["id"].as_i64().unwrap() as i32)));

    let req2 = Request::new_notification(From::from("subtract"), params());
    assert_eq!(req2.is_notification(), true);
    let expected2: Value = serde_json::from_str(
        r#"{
            "jsonrpc": "2.0",
            "method": "subtract",
            "params": [42, 23]
        }"#,
    )
    .unwrap();
    assert_eq!(Value::from(req2.jsonrpc.clone()), expected2["jsonrpc"]);
    assert_eq!(Value::from(req2.method.clone()), expected2["method"]);
    assert_eq!(req2.params.clone(), Some(expected2["params"].clone()));
    assert!(expected2.get("id").is_none());
    assert_eq!(req2.id, None);
}

#[test]
fn response_error_flag() {
    let ok = Response { jsonrpc: "2.0".to_string(), result: Value::from(19), error: None };
    assert!(!ok.is_error());
    let failed = Response {
        jsonrpc: "2.0".to_string(),
        result: Value::Null,
        error: Some(Error { code: -32601, message: "Method not found".to_string(), data: Value::Null }),
    };
    assert!(failed.is_error());
}
