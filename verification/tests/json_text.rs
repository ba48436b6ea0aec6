use rust_openai_chat::chat::tools_reply;
use rust_openai_chat::json::Json;

fn s(x: &str) -> Json {
    Json::from_text(x)
}

#[test]
fn text_of_scalars() {
    assert_eq!(Json::Null.to_text(), "null");
    assert_eq!(Json::Bool(true).to_text(), "true");
    assert_eq!(Json::Bool(false).to_text(), "false");
    assert_eq!(Json::Number("0.7".to_string()).to_text(), "0.7");
    assert_eq!(s("hi").to_text(), "\"hi\"");
}

#[test]
fn text_escapes_strings() {
    assert_eq!(s("a\"b\\c").to_text(), r#""a\"b\\c""#);
    assert_eq!(s("l1\nl2\tx\r").to_text(), r#""l1\nl2\tx\r""#);
    assert_eq!(s("\u{8}\u{c}\u{1}\u{1f}").to_text(), r#""\b\f\u0001\u001f""#);
    assert_eq!(s("caf\u{e9} \u{1F600}").to_text(), "\"caf\u{e9} \u{1F600}\"");
}

#[test]
fn text_of_containers() {
    let v = Json::object2(
        "a",
        Json::array(vec![Json::Number("1".to_string()), Json::Null, s("x")]),
        "b",
        Json::object(Vec::new()),
    );
    assert_eq!(v.to_text(), r#"{"a":[1,null,"x"],"b":{}}"#);
    assert_eq!(Json::array(Vec::new()).to_text(), "[]");
}

#[test]
fn lookups() {
    let v = Json::object2("k", s("v"), "n", Json::array(vec![s("e0"), s("e1")]));
    assert_eq!(v.get_key("k").and_then(|x| x.as_str()).map(|x| x.as_str()), Some("v"));
    assert!(v.get_key("missing").is_none());
    let arr = v.get_key("n").unwrap();
    assert_eq!(arr.get_index(1).and_then(|x| x.as_str()).map(|x| x.as_str()), Some("e1"));
    assert!(arr.get_index(2).is_none());
    assert_eq!(arr.as_array().map(|a| a.len()), Some(2));
    assert!(v.as_array().is_none());
    assert!(s("x").get_key("k").is_none());
}

#[test]
fn parse_then_print() {
    let v = tools_reply(r#"{ "b": [1, 2.5, true], "a": "t\u00e9xt", "c": null }"#).ok().unwrap();
    assert_eq!(v.to_text(), "{\"a\":\"t\u{e9}xt\",\"b\":[1,2.5,true],\"c\":null}");
    let w = v.deep_clone();
    assert_eq!(w.to_text(), v.to_text());
}

#[test]
fn parse_rejects_bad_text() {
    assert!(tools_reply("{").is_err());
    assert!(tools_reply("").is_err());
}
