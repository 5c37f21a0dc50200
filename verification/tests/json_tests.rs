use based_scrapper::json::{Json, JsonNumber};

fn s(t: &str) -> Json {
    Json::Str(t.to_string())
}

fn obj(members: Vec<(&str, Json)>) -> Json {
    Json::Object(members.into_iter().map(|(k, v)| (k.to_string(), v)).collect())
}

#[test]
fn member_and_element_read_null_where_absent() {
    let v = obj(vec![("a", s("x")), ("list", Json::Array(vec![s("first")]))]);
    assert_eq!(v.member("a"), Some(&s("x")));
    assert_eq!(v.member("b"), None);
    assert_eq!(s("x").member("a"), None);
    let list = v.member("list").unwrap();
    assert_eq!(list.element(0), Some(&s("first")));
    assert_eq!(list.element(1), None);
    assert_eq!(v.element(0), None);
    let null = Json::Null;
    assert_eq!(v.member_or("b", &null), &Json::Null);
}

#[test]
fn typed_reads_follow_serde_json() {
    let big = Json::Number(JsonNumber::PosInt(u64::MAX));
    assert_eq!(big.as_u64(), Some(u64::MAX));
    assert_eq!(big.as_i64(), None);
    let small = Json::Number(JsonNumber::PosInt(5));
    assert_eq!(small.as_i64(), Some(5));
    let neg = Json::Number(JsonNumber::NegInt(-3));
    assert_eq!(neg.as_u64(), None);
    assert_eq!(neg.as_i64(), Some(-3));
    let float = Json::Number(JsonNumber::Float("1.5".to_string()));
    assert_eq!(float.as_u64(), None);
    assert_eq!(float.as_i64(), None);
    assert_eq!(s("t").as_str(), Some("t"));
    assert_eq!(Json::Null.as_str(), None);
    assert!(Json::Array(vec![]).as_array().is_some());
    assert!(Json::Bool(true).as_array().is_none());
}

#[test]
fn json_text_is_the_compact_serde_json_text() {
    let v = obj(vec![
        ("a", s("x\"y")),
        ("b", Json::Array(vec![
            Json::Number(JsonNumber::PosInt(1)),
            Json::Number(JsonNumber::NegInt(-2)),
            Json::Null,
            Json::Bool(true),
            Json::Bool(false),
            Json::Number(JsonNumber::Float("1.5".to_string())),
        ])),
        ("c", obj(vec![])),
    ]);
    assert_eq!(v.to_text(), "{\"a\":\"x\\\"y\",\"b\":[1,-2,null,true,false,1.5],\"c\":{}}");
    assert_eq!(s("tab\there").to_text(), "\"tab\\there\"");
    assert_eq!(Json::Array(vec![]).to_text(), "[]");
}

#[test]
fn string_text_uses_the_json_escapes() {
    assert_eq!(s("a\"b\\c").to_text(), "\"a\\\"b\\\\c\"");
    assert_eq!(s("\u{8}\u{c}\n\r").to_text(), "\"\\b\\f\\n\\r\"");
    assert_eq!(s("\u{1}\u{1f}").to_text(), "\"\\u0001\\u001f\"");
    assert_eq!(s("Brașov /é\u{7f}").to_text(), "\"Brașov /é\u{7f}\"");
}
