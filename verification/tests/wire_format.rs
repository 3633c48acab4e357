use ruuls::{Condition, Constraint, Event, EventParams, Json, Rule};

fn sample_condition() -> Condition {
    Condition::And {
        and: vec![
            Condition::Condition {
                field: "name".to_string(),
                constraint: Constraint::StringEquals("Ann".to_string()),
            },
            Condition::Or {
                or: vec![
                    Condition::Condition {
                        field: "age".to_string(),
                        constraint: Constraint::IntInRange(18, 65),
                    },
                    Condition::Condition {
                        field: "vip".to_string(),
                        constraint: Constraint::BoolEquals(true),
                    },
                ],
            },
            Condition::AtLeast {
                should_minimum_meet: 2,
                conditions: vec![
                    Condition::Condition {
                        field: "tags".to_string(),
                        constraint: Constraint::StringIn(vec![
                            "a".to_string(),
                            "b".to_string(),
                        ]),
                    },
                    Condition::Condition {
                        field: "score".to_string(),
                        constraint: Constraint::GreaterThanInclusive(10),
                    },
                    Condition::Condition {
                        field: "rank".to_string(),
                        constraint: Constraint::IntNotIn(vec![3, 4]),
                    },
                ],
            },
        ],
    }
}

#[test]
fn condition_round_trips_through_the_wire() {
    let c = sample_condition();
    let wire = c.to_json();
    let back = Condition::from_json(&wire).expect("well-formed tree must parse");
    assert_eq!(back, c);
}

#[test]
fn every_operator_round_trips() {
    let ops = vec![
        Constraint::StringEquals("x".to_string()),
        Constraint::StringNotEquals("x".to_string()),
        Constraint::StringIn(vec!["x".to_string(), "y".to_string()]),
        Constraint::StringNotIn(vec![]),
        Constraint::IntEquals(-7),
        Constraint::IntNotEquals(0),
        Constraint::IntIn(vec![1, 2, 3]),
        Constraint::IntNotIn(vec![-1]),
        Constraint::IntInRange(-5, 5),
        Constraint::IntNotInRange(5, -5),
        Constraint::LessThan(i64::MAX),
        Constraint::LessThanInclusive(i64::MIN),
        Constraint::GreaterThan(42),
        Constraint::GreaterThanInclusive(-42),
        Constraint::BoolEquals(false),
    ];
    for constraint in ops {
        let c = Condition::Condition {
            field: "f".to_string(),
            constraint,
        };
        let back = Condition::from_json(&c.to_json()).expect("operator must parse back");
        assert_eq!(back, c);
    }
}

#[test]
fn rule_round_trips_through_the_wire() {
    let rule = Rule {
        conditions: sample_condition(),
        event: Event::PostToCallbackUrl {
            callback_url: "http://example.test/hook".to_string(),
            params: EventParams {
                ty: "alert".to_string(),
                title: "hello".to_string(),
                message: "Hi {{name}}".to_string(),
            },
        },
    };
    let back = Rule::from_json(&rule.to_json()).expect("well-formed rule must parse");
    assert_eq!(back, rule);

    let rule = Rule {
        conditions: sample_condition(),
        event: Event::Message(EventParams {
            ty: "note".to_string(),
            title: "t".to_string(),
            message: "m".to_string(),
        }),
    };
    let back = Rule::from_json(&rule.to_json()).expect("well-formed rule must parse");
    assert_eq!(back, rule);
}

#[test]
fn condition_wire_shape_is_the_documented_grammar() {
    let c = Condition::Condition {
        field: "age".to_string(),
        constraint: Constraint::IntInRange(18, 65),
    };
    let expected = Json::Object(vec![
        ("field".to_string(), Json::Str("age".to_string())),
        ("operator".to_string(), Json::Str("int_in_range".to_string())),
        (
            "value".to_string(),
            Json::Array(vec![Json::Int(18), Json::Int(65)]),
        ),
    ]);
    assert_eq!(c.to_json(), expected);
}

#[test]
fn event_wire_shape_is_the_documented_grammar() {
    let e = Event::Message(EventParams {
        ty: "note".to_string(),
        title: "t".to_string(),
        message: "m".to_string(),
    });
    let expected = Json::Object(vec![
        ("type".to_string(), Json::Str("message".to_string())),
        (
            "params".to_string(),
            Json::Object(vec![
                ("type".to_string(), Json::Str("note".to_string())),
                ("title".to_string(), Json::Str("t".to_string())),
                ("message".to_string(), Json::Str("m".to_string())),
            ]),
        ),
    ]);
    assert_eq!(e.to_json(), expected);
}

#[test]
fn malformed_documents_are_rejected() {
    // Not an object at all.
    assert!(Condition::from_json(&Json::Int(3)).is_err());
    // None of the grammar's key sets.
    assert!(Condition::from_json(&Json::Object(vec![(
        "nonsense".to_string(),
        Json::Int(1)
    )]))
    .is_err());
    // An unknown operator name.
    let bad = Json::Object(vec![
        ("field".to_string(), Json::Str("a".to_string())),
        ("operator".to_string(), Json::Str("sounds_like".to_string())),
        ("value".to_string(), Json::Str("x".to_string())),
    ]);
    assert!(Condition::from_json(&bad).is_err());
    // An operand of the wrong shape.
    let bad = Json::Object(vec![
        ("field".to_string(), Json::Str("a".to_string())),
        ("operator".to_string(), Json::Str("int_equals".to_string())),
        ("value".to_string(), Json::Str("five".to_string())),
    ]);
    assert!(Condition::from_json(&bad).is_err());
    // A negative threshold.
    let bad = Json::Object(vec![
        ("should_minimum_meet".to_string(), Json::Int(-1)),
        ("conditions".to_string(), Json::Array(vec![])),
    ]);
    assert!(Condition::from_json(&bad).is_err());
    // An event with an unknown tag.
    let bad = Json::Object(vec![
        ("type".to_string(), Json::Str("smoke_signal".to_string())),
        ("params".to_string(), Json::Object(vec![])),
    ]);
    assert!(Event::from_json(&bad).is_err());
    // A post event without its callback endpoint.
    let bad = Json::Object(vec![
        (
            "type".to_string(),
            Json::Str("post_to_callback_url".to_string()),
        ),
        (
            "params".to_string(),
            Json::Object(vec![
                ("type".to_string(), Json::Str("note".to_string())),
                ("title".to_string(), Json::Str("t".to_string())),
                ("message".to_string(), Json::Str("m".to_string())),
            ]),
        ),
    ]);
    assert!(Event::from_json(&bad).is_err());
}

#[test]
fn parsing_reads_keys_not_positions() {
    // The same leaf with its entries in another order still parses.
    let shuffled = Json::Object(vec![
        ("value".to_string(), Json::Int(5)),
        ("field".to_string(), Json::Str("foo".to_string())),
        ("operator".to_string(), Json::Str("int_equals".to_string())),
    ]);
    let parsed = Condition::from_json(&shuffled).expect("key order must not matter");
    assert_eq!(
        parsed,
        Condition::Condition {
            field: "foo".to_string(),
            constraint: Constraint::IntEquals(5),
        }
    );
}
