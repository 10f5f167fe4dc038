use coding_agent::json::{Json, JsonNumber};

fn s(t: &str) -> Json {
    Json::Str(t.to_string())
}

fn obj(fields: Vec<(&str, Json)>) -> Json {
    Json::Object(fields.into_iter().map(|(k, v)| (k.to_string(), v)).collect())
}

#[test]
fn get_finds_first_member() {
    let o = obj(vec![("a", s("x")), ("b", s("y")), ("a", s("z"))]);
    assert_eq!(o.get("a"), Some(&s("x")));
    assert_eq!(o.get("b"), Some(&s("y")));
    assert_eq!(o.get("c"), None);
    assert_eq!(s("a").get("a"), None);
}

#[test]
fn at_reads_arrays_only() {
    let a = Json::Array(vec![s("x"), Json::Null]);
    assert_eq!(a.at(0), Some(&s("x")));
    assert_eq!(a.at(1), Some(&Json::Null));
    assert_eq!(a.at(2), None);
    assert_eq!(s("x").at(0), None);
}

#[test]
fn as_u64_accepts_only_non_negative_integers() {
    assert_eq!(Json::Number(JsonNumber::PosInt(7)).as_u64(), Some(7));
    assert_eq!(Json::Number(JsonNumber::NegInt(-7)).as_u64(), None);
    assert_eq!(Json::Number(JsonNumber::Float("1.5".to_string())).as_u64(), None);
    assert_eq!(s("7").as_u64(), None);
}

#[test]
fn as_str_and_as_object() {
    assert_eq!(s("hi").as_str(), Some(&"hi".to_string()));
    assert_eq!(Json::Null.as_str(), None);
    let o = obj(vec![("k", Json::Bool(true))]);
    assert_eq!(o.as_object().map(|f| f.len()), Some(1));
    assert!(Json::Array(vec![]).as_object().is_none());
    assert_eq!(Json::Array(vec![s("a")]).as_array().map(|v| v.len()), Some(1));
}

#[test]
fn deep_clone_is_equal() {
    let o = obj(vec![
        ("a", Json::Array(vec![s("x"), Json::Number(JsonNumber::NegInt(-3))])),
        ("b", Json::Number(JsonNumber::Float("2.5".to_string()))),
    ]);
    assert_eq!(o.deep_clone(), o);
}

