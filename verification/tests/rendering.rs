use ruuls::string_equals;
use ruuls::{Event, EventParams, Json, Rule, Status};

fn message_rule(message: &str) -> Rule {
    Rule {
        conditions: string_equals("name", "Ann"),
        event: Event::Message(EventParams {
            ty: "note".to_string(),
            title: "t".to_string(),
            message: message.to_string(),
        }),
    }
}

fn checked_message(message: &str, facts: &Json) -> String {
    let result = message_rule(message).check_value(facts);
    match result.event {
        Event::Message(params) => params.message,
        other => panic!("event variant changed: {:?}", other),
    }
}

fn facts_with(extra: (&str, Json)) -> Json {
    Json::Object(vec![
        ("name".to_string(), Json::Str("Ann".to_string())),
        (extra.0.to_string(), extra.1),
    ])
}

#[test]
fn bool_interpolation_renders_the_token() {
    // A boolean under an interpolation tag used to reach the renderer's
    // aborting arm; it now renders as its token.
    let facts = facts_with(("x", Json::Bool(true)));
    assert_eq!(checked_message("{{x}}", &facts), "true");
    let facts = facts_with(("x", Json::Bool(false)));
    assert_eq!(checked_message("{{x}}", &facts), "false");
}

#[test]
fn container_interpolation_is_a_failed_rendering() {
    // An array or object under an interpolation tag cannot be rendered;
    // the message is kept unchanged, and the process does not abort.
    let facts = facts_with(("x", Json::Array(vec![Json::Int(1)])));
    assert_eq!(checked_message("{{x}}", &facts), "{{x}}");
    let facts = facts_with(("x", Json::Object(vec![("y".to_string(), Json::Int(1))])));
    assert_eq!(checked_message("{{x}}", &facts), "{{x}}");
    // The root itself is an object.
    assert_eq!(checked_message("{{.}}", &facts), "{{.}}");
}

#[test]
fn section_and_partial_templates_are_not_rendered() {
    // Only plain interpolation templates are rendered; anything with
    // sections, inverted sections, partials or delimiter changes is kept
    // unchanged.
    let facts = facts_with(("x", Json::Bool(true)));
    assert_eq!(checked_message("{{#x}}hi{{/x}}", &facts), "{{#x}}hi{{/x}}");
    assert_eq!(checked_message("{{^x}}hi{{/x}}", &facts), "{{^x}}hi{{/x}}");
    assert_eq!(checked_message("a{{>p}}b", &facts), "a{{>p}}b");
    assert_eq!(checked_message("{{=<% %>=}}<%name%>", &facts), "{{=<% %>=}}<%name%>");
}

#[test]
fn dotted_paths_reach_nested_fields() {
    let facts = facts_with((
        "a",
        Json::Object(vec![("b".to_string(), Json::Str("deep".to_string()))]),
    ));
    assert_eq!(checked_message("v={{a.b}}", &facts), "v=deep");
}

#[test]
fn duplicate_keys_first_entry_wins_everywhere() {
    // The same payload value is read by the evaluator and the renderer: the
    // first entry of a duplicated key.
    let facts = Json::Object(vec![
        ("name".to_string(), Json::Str("Ann".to_string())),
        ("x".to_string(), Json::Str("first".to_string())),
        ("x".to_string(), Json::Str("second".to_string())),
    ]);
    let rule = Rule {
        conditions: string_equals("x", "first"),
        event: Event::Message(EventParams {
            ty: "note".to_string(),
            title: "t".to_string(),
            message: "{{x}}".to_string(),
        }),
    };
    let result = rule.check_value(&facts);
    assert_eq!(result.condition_result.status, Status::Met);
    match result.event {
        Event::Message(params) => assert_eq!(params.message, "first"),
        other => panic!("event variant changed: {:?}", other),
    }
}

#[test]
fn comment_tags_are_ignored() {
    let facts = facts_with(("x", Json::Int(1)));
    assert_eq!(checked_message("A{{! a note }}B", &facts), "AB");
}

#[test]
fn unescaped_tags_render_raw() {
    let facts = facts_with(("x", Json::Str("<b>".to_string())));
    assert_eq!(checked_message("{{{x}}}", &facts), "<b>");
    assert_eq!(checked_message("{{&x}}", &facts), "<b>");
    assert_eq!(checked_message("{{x}}", &facts), "&lt;b&gt;");
}

#[test]
fn numbers_render_in_decimal() {
    let facts = facts_with(("n", Json::Int(-7)));
    assert_eq!(checked_message("n={{n}}", &facts), "n=-7");
}

#[test]
fn missing_and_null_interpolations_render_empty() {
    let facts = facts_with(("z", Json::Null));
    assert_eq!(checked_message("[{{nope}}]", &facts), "[]");
    assert_eq!(checked_message("[{{z}}]", &facts), "[]");
}

#[test]
fn unsatisfied_rule_still_materializes_via_rule_check() {
    // Rule::check_value materializes its own rule whatever the verdict.
    let facts = Json::Object(vec![("name".to_string(), Json::Str("Bob".to_string()))]);
    let result = message_rule("Hi {{name}}").check_value(&facts);
    assert_eq!(result.condition_result.status, Status::NotMet);
    match result.event {
        Event::Message(params) => assert_eq!(params.message, "Hi Bob"),
        other => panic!("event variant changed: {:?}", other),
    }
}
