use ruuls::pointer::lookup_field;
use ruuls::{int_equals, string_equals, Json, Status};

fn nested_data() -> Json {
    Json::Object(vec![
        (
            "a".to_string(),
            Json::Object(vec![(
                "b".to_string(),
                Json::Array(vec![
                    Json::Object(vec![("c".to_string(), Json::Int(5))]),
                    Json::Str("second".to_string()),
                ]),
            )]),
        ),
        ("we/ird".to_string(), Json::Str("escaped".to_string())),
        ("ti~lde".to_string(), Json::Int(9)),
        ("plain".to_string(), Json::Int(1)),
    ])
}

#[test]
fn paths_traverse_nested_objects_and_arrays() {
    let map = nested_data();
    assert_eq!(int_equals("a/b/0/c", 5).check_value(&map).status, Status::Met);
    assert_eq!(
        string_equals("a/b/1", "second").check_value(&map).status,
        Status::Met
    );
    // A leading slash is optional and implied.
    assert_eq!(int_equals("/a/b/0/c", 5).check_value(&map).status, Status::Met);
}

#[test]
fn unresolved_paths_are_unknown_not_errors() {
    let map = nested_data();
    // Missing key.
    assert_eq!(int_equals("a/x", 5).check_value(&map).status, Status::Unknown);
    // Index out of bounds.
    assert_eq!(int_equals("a/b/2/c", 5).check_value(&map).status, Status::Unknown);
    // An array segment that is not a canonical index: leading zero.
    assert_eq!(int_equals("a/b/00/c", 5).check_value(&map).status, Status::Unknown);
    // A signed index is not accepted.
    assert_eq!(int_equals("a/b/+0/c", 5).check_value(&map).status, Status::Unknown);
    // Descending into a scalar.
    assert_eq!(int_equals("plain/sub", 5).check_value(&map).status, Status::Unknown);
}

#[test]
fn segment_escapes_reach_keys_with_separators() {
    let map = nested_data();
    assert_eq!(
        string_equals("we~1ird", "escaped").check_value(&map).status,
        Status::Met
    );
    assert_eq!(int_equals("ti~0lde", 9).check_value(&map).status, Status::Met);
}

#[test]
fn lookup_field_returns_the_addressed_subvalue() {
    let map = nested_data();
    assert_eq!(lookup_field(&map, "a/b/0/c"), Some(&Json::Int(5)));
    assert_eq!(lookup_field(&map, "nope"), None);
    // The empty path would address the root only with an explicit pointer;
    // the implied leading slash makes it an empty segment, which is a key
    // lookup for "".
    assert_eq!(lookup_field(&map, ""), None);
}
