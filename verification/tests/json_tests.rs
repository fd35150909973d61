use silksongtool::json::JsonNumber;
use silksongtool::json::JsonValue;

fn sample_obj() -> JsonValue {
    JsonValue::Obj(vec![
        ("alpha".to_string(), JsonValue::Bool(true)),
        ("beta".to_string(), JsonValue::Num(JsonNumber { text: "7".to_string() })),
        ("gamma".to_string(), JsonValue::Str("x".to_string())),
    ])
}

#[test]
fn lookup_finds_members() {
    let obj = sample_obj();
    assert!(matches!(obj.get(&"alpha".to_string()), Some(JsonValue::Bool(true))));
    match obj.get(&"beta".to_string()) {
        Some(JsonValue::Num(n)) => assert_eq!(n.text, "7"),
        _ => panic!("beta should be a number"),
    }
    match obj.get(&"gamma".to_string()) {
        Some(JsonValue::Str(s)) => assert_eq!(s, "x"),
        _ => panic!("gamma should be a string"),
    }
}

#[test]
fn lookup_misses_absent_members() {
    let obj = sample_obj();
    assert!(obj.get(&"delta".to_string()).is_none());
    assert!(obj.get(&"".to_string()).is_none());
}

#[test]
fn lookup_on_non_objects_is_none() {
    assert!(JsonValue::Null.get(&"alpha".to_string()).is_none());
    assert!(JsonValue::Bool(false).get(&"alpha".to_string()).is_none());
    assert!(JsonValue::Arr(vec![]).get(&"alpha".to_string()).is_none());
}

#[test]
fn lookup_takes_the_first_match() {
    let obj = JsonValue::Obj(vec![
        ("k".to_string(), JsonValue::Bool(true)),
        ("k".to_string(), JsonValue::Bool(false)),
    ]);
    assert!(matches!(obj.get(&"k".to_string()), Some(JsonValue::Bool(true))));
}
