use ruuls::engine::{deliveries, run_rules};
use ruuls::{int_equals, string_equals};
use ruuls::{Event, EventParams, Json, Rule, Status};

fn facts() -> Json {
    Json::Object(vec![("name".to_string(), Json::Str("Ann".to_string()))])
}

fn post_rule(field_value: &str, url: &str) -> Rule {
    Rule {
        conditions: string_equals("name", field_value),
        event: Event::PostToCallbackUrl {
            callback_url: url.to_string(),
            params: EventParams {
                ty: "alert".to_string(),
                title: "greeting".to_string(),
                message: "Hi {{name}}".to_string(),
            },
        },
    }
}

#[test]
fn rule_check_renders_the_message_template() {
    let rule = post_rule("Ann", "http://example.test/hook");
    let result = rule.check_value(&facts());
    assert_eq!(result.condition_result.status, Status::Met);
    match &result.event {
        Event::PostToCallbackUrl {
            callback_url,
            params,
        } => {
            assert_eq!(callback_url, "http://example.test/hook");
            assert_eq!(params.ty, "alert");
            assert_eq!(params.title, "greeting");
            assert_eq!(params.message, "Hi Ann");
        }
        other => panic!("event variant changed: {:?}", other),
    }
}

#[test]
fn rendering_failure_keeps_the_message_unchanged() {
    // An unclosed tag does not compile as a template; the text is kept.
    let rule = Rule {
        conditions: string_equals("name", "Ann"),
        event: Event::Message(EventParams {
            ty: "note".to_string(),
            title: "t".to_string(),
            message: "Hi {{name".to_string(),
        }),
    };
    let result = rule.check_value(&facts());
    assert_eq!(result.condition_result.status, Status::Met);
    match &result.event {
        Event::Message(params) => assert_eq!(params.message, "Hi {{name"),
        other => panic!("event variant changed: {:?}", other),
    }
}

#[test]
fn run_keeps_only_satisfied_rules_in_order() {
    let rules = vec![
        post_rule("Ann", "http://example.test/first"),
        post_rule("Bob", "http://example.test/unsatisfied"),
        Rule {
            conditions: int_equals("name", 3),
            event: Event::Message(EventParams {
                ty: "note".to_string(),
                title: "t".to_string(),
                message: "m".to_string(),
            }),
        },
        post_rule("Ann", "http://example.test/second"),
    ];
    let results = run_rules(&rules, &facts());
    assert_eq!(results.len(), 2);
    assert_eq!(results[0].condition_result.status, Status::Met);
    assert_eq!(results[1].condition_result.status, Status::Met);
    match &results[0].event {
        Event::PostToCallbackUrl { callback_url, .. } => {
            assert_eq!(callback_url, "http://example.test/first")
        }
        other => panic!("event variant changed: {:?}", other),
    }
    match &results[1].event {
        Event::PostToCallbackUrl { callback_url, .. } => {
            assert_eq!(callback_url, "http://example.test/second")
        }
        other => panic!("event variant changed: {:?}", other),
    }
}

#[test]
fn satisfied_post_rule_plans_exactly_one_delivery() {
    let rules = vec![
        post_rule("Ann", "http://example.test/hook"),
        // A satisfied plain message is returned but never delivered.
        Rule {
            conditions: string_equals("name", "Ann"),
            event: Event::Message(EventParams {
                ty: "note".to_string(),
                title: "t".to_string(),
                message: "m".to_string(),
            }),
        },
        // An unsatisfied post rule is not delivered either.
        post_rule("Bob", "http://example.test/never"),
    ];
    let results = run_rules(&rules, &facts());
    assert_eq!(results.len(), 2);
    let plan = deliveries(&results);
    assert_eq!(plan.len(), 1);
    assert_eq!(plan[0].callback_url, "http://example.test/hook");
    assert_eq!(plan[0].params.title, "greeting");
    assert_eq!(plan[0].params.message, "Hi Ann");
}

#[test]
fn unsatisfied_rules_produce_no_results() {
    let rules = vec![post_rule("Bob", "http://example.test/never")];
    let results = run_rules(&rules, &facts());
    assert_eq!(results.len(), 0);
    assert_eq!(deliveries(&results).len(), 0);
}
