use ruuls::Status::{Met, NotMet, Unknown};
use ruuls::{and, at_least, bool_equals, int_equals, int_in_range, or, string_equals};
use ruuls::{Condition, Constraint, Json, Status};

fn scenario_data() -> Json {
    Json::Object(vec![
        ("foo".to_string(), Json::Int(1)),
        ("bar".to_string(), Json::Str("bar".to_string())),
        ("baz".to_string(), Json::Bool(true)),
    ])
}

#[test]
fn status_truth_tables() {
    // Conjunction.
    assert_eq!(Met.and(Met), Met);
    assert_eq!(Met.and(NotMet), NotMet);
    assert_eq!(NotMet.and(Met), NotMet);
    assert_eq!(NotMet.and(NotMet), NotMet);
    assert_eq!(Met.and(Unknown), Unknown);
    assert_eq!(Unknown.and(Met), Unknown);
    assert_eq!(NotMet.and(Unknown), NotMet);
    assert_eq!(Unknown.and(NotMet), NotMet);
    assert_eq!(Unknown.and(Unknown), Unknown);
    // Disjunction.
    assert_eq!(Met.or(Met), Met);
    assert_eq!(Met.or(NotMet), Met);
    assert_eq!(NotMet.or(Met), Met);
    assert_eq!(NotMet.or(NotMet), NotMet);
    assert_eq!(Met.or(Unknown), Met);
    assert_eq!(Unknown.or(Met), Met);
    assert_eq!(NotMet.or(Unknown), Unknown);
    assert_eq!(Unknown.or(NotMet), Unknown);
    assert_eq!(Unknown.or(Unknown), Unknown);
    // Negation.
    assert_eq!(Met.not(), NotMet);
    assert_eq!(NotMet.not(), Met);
    assert_eq!(Unknown.not(), Unknown);
}

#[test]
fn at_least_zero_is_always_met() {
    let map = scenario_data();
    // Both children fail, one is even unknown; a threshold of zero is met.
    let root = at_least(0, vec![int_equals("foo", 2), string_equals("quux", "x")]);
    assert_eq!(root.check_value(&map).status, Status::Met);
    // Even with no children at all.
    let root = at_least(0, vec![]);
    assert_eq!(root.check_value(&map).status, Status::Met);
}

#[test]
fn at_least_above_child_count_is_never_met() {
    let map = scenario_data();
    // All children are met, but the threshold exceeds the child count.
    let root = at_least(
        3,
        vec![int_equals("foo", 1), string_equals("bar", "bar")],
    );
    assert_eq!(root.check_value(&map).status, Status::NotMet);
    let root = at_least(1, vec![]);
    assert_eq!(root.check_value(&map).status, Status::NotMet);
}

#[test]
fn absent_field_is_unknown_for_every_operator() {
    let map = scenario_data();
    let leaves = vec![
        string_equals("missing", "x"),
        int_equals("missing", 1),
        int_in_range("missing", 1, 2),
        bool_equals("missing", true),
        Condition::Condition {
            field: "missing".to_string(),
            constraint: Constraint::LessThan(3),
        },
        Condition::Condition {
            field: "missing".to_string(),
            constraint: Constraint::StringIn(vec!["a".to_string()]),
        },
    ];
    for leaf in leaves {
        assert_eq!(leaf.check_value(&map).status, Status::Unknown);
    }
}

#[test]
fn numeric_operator_against_non_numeric_is_not_met() {
    // "bar" is a string, "baz" a boolean: no integer coercion, never Unknown.
    let map = scenario_data();
    let cases = vec![
        Constraint::IntEquals(1),
        Constraint::IntNotEquals(1),
        Constraint::IntIn(vec![1, 2]),
        Constraint::IntNotIn(vec![1, 2]),
        Constraint::IntInRange(0, 9),
        Constraint::IntNotInRange(0, 9),
        Constraint::LessThan(9),
        Constraint::LessThanInclusive(9),
        Constraint::GreaterThan(-9),
        Constraint::GreaterThanInclusive(-9),
    ];
    for constraint in cases {
        let against_string = Condition::Condition {
            field: "bar".to_string(),
            constraint: constraint.clone(),
        };
        assert_eq!(against_string.check_value(&map).status, Status::NotMet);
        let against_bool = Condition::Condition {
            field: "baz".to_string(),
            constraint,
        };
        assert_eq!(against_bool.check_value(&map).status, Status::NotMet);
    }
}

#[test]
fn bool_equals_true_matches_only_the_true_token() {
    let map = Json::Object(vec![
        ("a".to_string(), Json::Str("TRUE ".to_string())),
        ("b".to_string(), Json::Str("1".to_string())),
        ("c".to_string(), Json::Str("yes".to_string())),
        ("d".to_string(), Json::Str("true".to_string())),
        ("e".to_string(), Json::Str("TRUE".to_string())),
        ("f".to_string(), Json::Str("".to_string())),
    ]);
    assert_eq!(bool_equals("a", true).check_value(&map).status, Status::NotMet);
    assert_eq!(bool_equals("b", true).check_value(&map).status, Status::NotMet);
    assert_eq!(bool_equals("c", true).check_value(&map).status, Status::NotMet);
    assert_eq!(bool_equals("d", true).check_value(&map).status, Status::Met);
    assert_eq!(bool_equals("e", true).check_value(&map).status, Status::Met);
    assert_eq!(bool_equals("f", true).check_value(&map).status, Status::NotMet);
    // The non-token strings stand for false.
    assert_eq!(bool_equals("b", false).check_value(&map).status, Status::Met);
}

#[test]
fn nested_scenario_is_met_with_unknown_inside() {
    // facts {"name":"John Doe","fav_number":5}; the Or resolves to Met even
    // though its range leaf is Unknown (the field is absent).
    let map = Json::Object(vec![
        ("name".to_string(), Json::Str("John Doe".to_string())),
        ("fav_number".to_string(), Json::Int(5)),
    ]);
    let tree = and(vec![
        string_equals("name", "John Doe"),
        or(vec![
            int_equals("fav_number", 5),
            int_in_range("thinking_of", 5, 10),
        ]),
    ]);
    let res = tree.check_value(&map);
    assert_eq!(res.status, Status::Met);
    assert_eq!(res.name, "And");
    assert_eq!(res.children.len(), 2);
    assert_eq!(res.children[0].status, Status::Met);
    assert_eq!(res.children[1].status, Status::Met);
    assert_eq!(res.children[1].name, "Or");
    assert_eq!(res.children[1].children[1].status, Status::Unknown);
    assert_eq!(res.children[1].children[1].name, "thinking_of");
}

#[test]
fn threshold_scenario_counts_only_met_children() {
    // 1 Met, 1 Unknown, 1 NotMet against a threshold of 2.
    let map = scenario_data();
    let root = at_least(
        2,
        vec![
            int_equals("foo", 1),
            string_equals("quux", "bar"),
            bool_equals("baz", false),
        ],
    );
    let res = root.check_value(&map);
    assert_eq!(res.status, Status::NotMet);
    assert_eq!(res.name, "At least 2 of");
    assert_eq!(res.children[0].status, Status::Met);
    assert_eq!(res.children[1].status, Status::Unknown);
    assert_eq!(res.children[2].status, Status::NotMet);
}

#[test]
fn threshold_labels_render_in_decimal() {
    let map = scenario_data();
    let res = at_least(0, vec![]).check_value(&map);
    assert_eq!(res.name, "At least 0 of");
    let res = at_least(12, vec![]).check_value(&map);
    assert_eq!(res.name, "At least 12 of");
    let res = at_least(305, vec![]).check_value(&map);
    assert_eq!(res.name, "At least 305 of");
}
