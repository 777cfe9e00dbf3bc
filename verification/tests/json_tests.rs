use cnctd_server::json::JsonValue;

fn s(t: &str) -> String {
    t.to_string()
}

fn sample_object() -> JsonValue {
    JsonValue::Object(vec![
        (s("name"), JsonValue::String(s("ada"))),
        (s("age"), JsonValue::Number(s("36"))),
        (s("tags"), JsonValue::Array(vec![JsonValue::String(s("a")), JsonValue::String(s("b"))])),
    ])
}

#[test]
fn empty_object_has_no_members() {
    let v = JsonValue::empty_object();
    assert_eq!(v, JsonValue::Object(vec![]));
    assert!(v.get("x").is_none());
}

#[test]
fn get_reads_object_members() {
    let v = sample_object();
    assert_eq!(v.get("name"), Some(&JsonValue::String(s("ada"))));
    assert_eq!(v.get("age"), Some(&JsonValue::Number(s("36"))));
    assert!(v.get("missing").is_none());
    assert!(JsonValue::String(s("x")).get("name").is_none());
}

#[test]
fn insert_field_replaces_or_appends() {
    let mut v = sample_object();
    assert!(v.insert_field(s("age"), JsonValue::Number(s("37"))));
    assert_eq!(v.get("age"), Some(&JsonValue::Number(s("37"))));
    assert!(v.insert_field(s("city"), JsonValue::String(s("London"))));
    assert_eq!(v.get("city"), Some(&JsonValue::String(s("London"))));
    assert_eq!(v.get("name"), Some(&JsonValue::String(s("ada"))));
    match &v {
        JsonValue::Object(m) => {
            assert_eq!(m.len(), 4);
            assert_eq!(m[1].0, "age");
            assert_eq!(m[3].0, "city");
        }
        _ => panic!("not an object"),
    }
}

#[test]
fn insert_field_on_non_object_changes_nothing() {
    let mut v = JsonValue::Array(vec![]);
    assert!(!v.insert_field(s("k"), JsonValue::Null));
    assert_eq!(v, JsonValue::Array(vec![]));
}

#[test]
fn remove_field_removes_only_that_member() {
    let mut v = sample_object();
    assert!(v.remove_field("age"));
    assert!(v.get("age").is_none());
    assert_eq!(v.get("name"), Some(&JsonValue::String(s("ada"))));
    assert!(v.remove_field("nothing"));
    let mut n = JsonValue::Bool(true);
    assert!(!n.remove_field("age"));
    assert_eq!(n, JsonValue::Bool(true));
}

#[test]
fn text_list_of_string_array() {
    let v = sample_object();
    let tags = v.get("tags").unwrap();
    assert_eq!(tags.to_text_list(), Some(vec![s("a"), s("b")]));
    assert_eq!(JsonValue::Array(vec![JsonValue::String(s("a")), JsonValue::Null]).to_text_list(), None);
    assert_eq!(JsonValue::String(s("a")).to_text_list(), None);
    assert_eq!(JsonValue::Array(vec![]).to_text_list(), Some(vec![]));
}

#[test]
fn as_str_reads_strings_only() {
    assert_eq!(JsonValue::String(s("x")).as_str(), Some(&s("x")));
    assert_eq!(JsonValue::Number(s("1")).as_str(), None);
}

#[test]
fn duplicate_is_equal() {
    let v = sample_object();
    assert_eq!(v.duplicate(), v);
}
