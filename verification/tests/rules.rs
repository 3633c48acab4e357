use ruuls::{and, at_least, bool_equals, int_equals, int_in_range, or, string_equals};
use ruuls::{Json, Status};

fn get_test_data() -> Json {
    Json::Object(vec![
        ("foo".to_string(), Json::Int(1)),
        ("bar".to_string(), Json::Str("bar".to_string())),
        ("baz".to_string(), Json::Bool(true)),
    ])
}

#[test]
fn and_rules() {
    let map = get_test_data();
    // Met & Met == Met
    let mut root = and(vec![int_equals("foo", 1), string_equals("bar", "bar")]);
    let mut res = root.check_value(&map);

    assert!(res.status == Status::Met);

    // Met & NotMet == NotMet
    root = and(vec![int_equals("foo", 2), string_equals("bar", "bar")]);
    res = root.check_value(&map);

    assert!(res.status == Status::NotMet);

    // Met & Unknown == Unknown
    root = and(vec![int_equals("quux", 2), string_equals("bar", "bar")]);
    res = root.check_value(&map);

    assert!(res.status == Status::Unknown);

    // NotMet & Unknown == NotMet
    root = and(vec![int_equals("quux", 2), string_equals("bar", "baz")]);
    res = root.check_value(&map);

    assert!(res.status == Status::NotMet);

    // Unknown & Unknown == Unknown
    root = and(vec![int_equals("quux", 2), string_equals("fizz", "bar")]);
    res = root.check_value(&map);

    assert!(res.status == Status::Unknown);
}

#[test]
fn or_rules() {
    let map = get_test_data();
    // Met | Met == Met
    let mut root = or(vec![int_equals("foo", 1), string_equals("bar", "bar")]);
    let mut res = root.check_value(&map);

    assert!(res.status == Status::Met);

    // Met | NotMet == Met
    root = or(vec![int_equals("foo", 2), string_equals("bar", "bar")]);
    res = root.check_value(&map);

    assert!(res.status == Status::Met);

    // Met | Unknown == Met
    root = or(vec![int_equals("quux", 2), string_equals("bar", "bar")]);
    res = root.check_value(&map);

    assert!(res.status == Status::Met);

    // NotMet | Unknown == Unknown
    root = or(vec![int_equals("quux", 2), string_equals("bar", "baz")]);
    res = root.check_value(&map);

    assert!(res.status == Status::Unknown);

    // Unknown | Unknown == Unknown
    root = or(vec![int_equals("quux", 2), string_equals("fizz", "bar")]);
    res = root.check_value(&map);

    assert!(res.status == Status::Unknown);
}

#[test]
fn n_of_rules() {
    let map = get_test_data();
    // 2 Met, 1 NotMet == Met
    let mut root = at_least(
        2,
        vec![
            int_equals("foo", 1),
            string_equals("bar", "bar"),
            bool_equals("baz", false),
        ],
    );
    let mut res = root.check_value(&map);

    assert!(res.status == Status::Met);

    // 1 Met, 1 NotMet, 1 Unknown == NotMet
    root = at_least(
        2,
        vec![
            int_equals("foo", 1),
            string_equals("quux", "bar"),
            bool_equals("baz", false),
        ],
    );
    res = root.check_value(&map);

    assert!(res.status == Status::NotMet);

    // 2 NotMet, 1 Unknown == NotMet
    root = at_least(
        2,
        vec![
            int_equals("foo", 2),
            string_equals("quux", "baz"),
            bool_equals("baz", false),
        ],
    );
    res = root.check_value(&map);

    assert!(res.status == Status::NotMet);
}

#[test]
fn string_equals_rule() {
    let map = get_test_data();
    let mut rule = string_equals("bar", "bar");
    let mut res = rule.check_value(&map);
    assert!(res.status == Status::Met);

    rule = string_equals("bar", "baz");
    res = rule.check_value(&map);
    assert!(res.status == Status::NotMet);
}

#[test]
fn int_equals_rule() {
    let map = get_test_data();
    let mut rule = int_equals("foo", 1);
    let mut res = rule.check_value(&map);
    assert!(res.status == Status::Met);

    rule = int_equals("foo", 2);
    res = rule.check_value(&map);
    assert!(res.status == Status::NotMet);

    // Values not convertible to int should be NotMet
    rule = int_equals("bar", 2);
    res = rule.check_value(&map);
    assert!(res.status == Status::NotMet);
}

#[test]
fn int_range_rule() {
    let map = get_test_data();
    let mut rule = int_in_range("foo", 1, 3);
    let mut res = rule.check_value(&map);
    assert!(res.status == Status::Met);

    rule = int_in_range("foo", 2, 3);
    res = rule.check_value(&map);
    assert!(res.status == Status::NotMet);

    // Values not convertible to int should be NotMet
    rule = int_in_range("bar", 1, 3);
    res = rule.check_value(&map);
    assert!(res.status == Status::NotMet);
}

#[test]
fn boolean_rule() {
    let map = get_test_data();
    let mut rule = bool_equals("baz", true);
    let mut res = rule.check_value(&map);
    assert!(res.status == Status::Met);

    rule = bool_equals("baz", false);
    res = rule.check_value(&map);
    assert!(res.status == Status::NotMet);

    // A text fact coerces: "bar" is not the token `true`, so it stands for
    // false.
    rule = bool_equals("bar", true);
    res = rule.check_value(&map);
    assert!(res.status == Status::NotMet);

    rule = bool_equals("bar", false);
    res = rule.check_value(&map);
    assert!(res.status == Status::Met);

    // The token `true` is recognized without regard to ASCII case.
    let map = Json::Object(vec![
        ("foo".to_string(), Json::Int(1)),
        ("bar".to_string(), Json::Str("bar".to_string())),
        ("baz".to_string(), Json::Bool(true)),
        ("quux".to_string(), Json::Str("tRuE".to_string())),
    ]);
    rule = bool_equals("quux", true);
    res = rule.check_value(&map);
    assert!(res.status == Status::Met);
}
