//! Events and their materialization.
//!
//! A rule carries an event describing the side effect to perform when the
//! rule is satisfied. Materialization renders the event's `message` field as
//! a template over the fact payload; when rendering fails the original text
//! is kept unchanged, so materialization never fails an evaluation. The
//! `type`, `title` and `callback_url` fields pass through verbatim.

use vstd::prelude::*;

use crate::condition::{eval_cond, Condition, ConditionResult};
use crate::json::{Json, JsonView};
use crate::template::{check_paths_safe, lemma_prepare_idempotent, prepare, prepare_payload, probe_template, renderable};

verus! {

/// The rendered parts of a notification.
#[derive(Debug, Clone, PartialEq)]
pub struct EventParams {
    /// Opaque passthrough kind tag.
    pub ty: String,
    /// Opaque passthrough title.
    pub title: String,
    /// The notification text; treated as a template over the fact payload.
    pub message: String,
}

/// The mathematical shape of [`EventParams`].
pub struct EventParamsView {
    pub ty: Seq<char>,
    pub title: Seq<char>,
    pub message: Seq<char>,
}

impl View for EventParams {
    type V = EventParamsView;

    open spec fn view(&self) -> EventParamsView {
        EventParamsView { ty: self.ty@, title: self.title@, message: self.message@ }
    }
}

/// The side effect to perform when a rule is satisfied.
#[derive(Debug, Clone, PartialEq)]
pub enum Event {
    /// A notification surfaced only in the returned result.
    Message(EventParams),
    /// A notification to be posted to a callback endpoint.
    PostToCallbackUrl { callback_url: String, params: EventParams },
}

/// The mathematical shape of an [`Event`].
pub enum EventView {
    Message(EventParamsView),
    PostToCallbackUrl { callback_url: Seq<char>, params: EventParamsView },
}

impl View for Event {
    type V = EventView;

    open spec fn view(&self) -> EventView {
        match self {
            Event::Message(p) => EventView::Message(p@),
            Event::PostToCallbackUrl { callback_url, params } => EventView::PostToCallbackUrl {
                callback_url: callback_url@,
                params: params@,
            },
        }
    }
}

/// A registered rule: one condition tree and the event for when it is met.
#[derive(Debug, PartialEq)]
pub struct Rule {
    pub conditions: Condition,
    pub event: Event,
}

/// The mathematical shape of a [`Rule`].
pub struct RuleView {
    pub conditions: crate::condition::CondView,
    pub event: EventView,
}

impl View for Rule {
    type V = RuleView;

    open spec fn view(&self) -> RuleView {
        RuleView { conditions: self.conditions@, event: self.event@ }
    }
}

/// The outcome of checking one rule: the annotated result tree, and the
/// materialized copy of the rule's event.
#[derive(Debug, PartialEq)]
pub struct RuleResult {
    pub condition_result: ConditionResult,
    pub event: Event,
}

/// The mathematical shape of a [`RuleResult`].
pub struct RuleResultView {
    pub condition_result: crate::condition::CondResultView,
    pub event: EventView,
}

impl View for RuleResult {
    type V = RuleResultView;

    open spec fn view(&self) -> RuleResultView {
        RuleResultView { condition_result: self.condition_result@, event: self.event@ }
    }
}

/// `e` with its message replaced by `m`.
pub open spec fn with_message(e: EventView, m: Seq<char>) -> EventView {
    match e {
        EventView::Message(p) => EventView::Message(
            EventParamsView { ty: p.ty, title: p.title, message: m },
        ),
        EventView::PostToCallbackUrl { callback_url, params } => EventView::PostToCallbackUrl {
            callback_url,
            params: EventParamsView { ty: params.ty, title: params.title, message: m },
        },
    }
}

/// `e` with its message replaced when a rendering is available, unchanged
/// otherwise.
pub open spec fn apply_rendered_spec(e: EventView, r: Option<Seq<char>>) -> EventView {
    match r {
        Some(m) => with_message(e, m),
        None => e,
    }
}

/// Two events that agree on everything except, possibly, the message text.
pub open spec fn same_but_message(a: EventView, b: EventView) -> bool {
    match (a, b) {
        (EventView::Message(p), EventView::Message(q)) => p.ty == q.ty && p.title == q.title,
        (
            EventView::PostToCallbackUrl { callback_url: u, params: p },
            EventView::PostToCallbackUrl { callback_url: v, params: q },
        ) => u == v && p.ty == q.ty && p.title == q.title,
        _ => false,
    }
}

/// The view of an optional rendered text.
pub open spec fn opt_str_view(o: Option<String>) -> Option<Seq<char>> {
    match o {
        Some(s) => Some(s@),
        None => None,
    }
}

/// Declares serde_json's document value, so that the renderer's wrappers
/// can hand one through. The value stays opaque here: the library reads
/// facts only from its own [`Json`] model.
#[verifier::external_type_specification]
#[verifier::external_body]
pub struct ExSerdeValue(serde_json::Value);

/// Relies on serde_json's value constructors: rebuilds the payload, node for
/// node, as the `serde_json::Value` the template renderer consumes. A number
/// held only as [`Json::OtherNumber`] has no faithful image and becomes
/// null.
#[verifier::external_body]
fn json_to_serde(v: &Json) -> serde_json::Value {
    match v {
        Json::Null => serde_json::Value::Null,
        Json::Bool(b) => serde_json::Value::Bool(*b),
        Json::Int(i) => serde_json::Value::from(*i),
        Json::Str(s) => serde_json::Value::String(s.clone()),
        Json::Array(xs) => serde_json::Value::Array(xs.iter().map(json_to_serde).collect()),
        Json::Object(fs) => serde_json::Value::Object(
            fs.iter().map(|p| (p.0.clone(), json_to_serde(&p.1))).collect(),
        ),
        Json::OtherNumber => serde_json::Value::Null,
    }
}

/// The text the renderer produces for a template and payload the guard
/// admits, or nothing when rendering fails. Within that regime — plain
/// interpolation tags only, so no partial files are read — the result is a
/// function of the arguments alone; nothing further is assumed of it.
pub uninterp spec fn rendered_text(template: Seq<char>, facts: JsonView) -> Option<Seq<char>>;

/// Relies on mustache::compile_str and mustache::Template::render_to_string:
/// renders `template` against `facts`; `None` when compilation or rendering
/// fails. The `requires` admits only a prepared payload — a fixed point of
/// [`prepare`], whose objects are free of duplicate keys and hold no
/// boolean — so the `serde_json::Map` rebuilt from it is collision-free and
/// the renderer looks up exactly the values the guard resolved; and only a
/// template of text, comments and interpolation tags whose paths resolve on
/// that payload to nothing, null, text or an integer. On such inputs the
/// renderer's panicking arm — an interpolation reaching a boolean, an array
/// or an object — is unreachable, and no partial files are read.
#[verifier::external_body]
fn render_template(template: &str, facts: &Json) -> (r: Option<String>)
    requires
        renderable(template@, facts@),
        facts@ == prepare(facts@),
    ensures
        opt_str_view(r) == rendered_text(template@, facts@),
{
    mustache::compile_str(template).and_then(|t| t.render_to_string(&json_to_serde(facts))).ok()
}

/// The message field of an event.
fn message_of(e: &Event) -> (r: &String)
    ensures
        r@ == match e@ {
            EventView::Message(p) => p.message,
            EventView::PostToCallbackUrl { callback_url, params } => params.message,
        },
{
    match e {
        Event::Message(p) => &p.message,
        Event::PostToCallbackUrl { callback_url, params } => &params.message,
    }
}

/// Replaces the event's message when a rendering is available; keeps the
/// event unchanged otherwise.
fn apply_rendered(e: &Event, rendered: Option<String>) -> (r: Event)
    ensures
        r@ == apply_rendered_spec(e@, opt_str_view(rendered)),
{
    match rendered {
        Some(m) => match e {
            Event::Message(p) => Event::Message(
                EventParams { ty: p.ty.clone(), title: p.title.clone(), message: m },
            ),
            Event::PostToCallbackUrl { callback_url, params } => Event::PostToCallbackUrl {
                callback_url: callback_url.clone(),
                params: EventParams {
                    ty: params.ty.clone(),
                    title: params.title.clone(),
                    message: m,
                },
            },
        },
        None => match e {
            Event::Message(p) => Event::Message(
                EventParams { ty: p.ty.clone(), title: p.title.clone(), message: p.message.clone() },
            ),
            Event::PostToCallbackUrl { callback_url, params } => Event::PostToCallbackUrl {
                callback_url: callback_url.clone(),
                params: EventParams {
                    ty: params.ty.clone(),
                    title: params.title.clone(),
                    message: params.message.clone(),
                },
            },
        },
    }
}

/// The message field of an event's view.
pub open spec fn event_message(e: EventView) -> Seq<char> {
    match e {
        EventView::Message(p) => p.message,
        EventView::PostToCallbackUrl { callback_url, params } => params.message,
    }
}

/// What materializing an event against a payload yields: when the message
/// is a template the guard admits on the prepared payload, the message is
/// replaced by whatever the renderer produced (or kept on a failed
/// rendering); otherwise the event is unchanged. Every field but the
/// message passes through verbatim either way.
pub open spec fn spec_materialize(e: EventView, facts: JsonView) -> EventView {
    let t = event_message(e);
    let p = prepare(facts);
    if renderable(t, p) {
        apply_rendered_spec(e, rendered_text(t, p))
    } else {
        e
    }
}

/// Materializing keeps everything but the message.
pub proof fn lemma_materialize_same_but_message(e: EventView, facts: JsonView)
    ensures
        same_but_message(e, spec_materialize(e, facts)),
{
    match e {
        EventView::Message(p) => {
        },
        EventView::PostToCallbackUrl { callback_url, params } => {
        },
    }
}

/// Materializes an event against a payload: the message is rendered as a
/// template over the payload whenever the guard admits the pair, and kept
/// unchanged otherwise; every other event field passes through verbatim.
pub fn materialize_event(e: &Event, info: &Json) -> (r: Event)
    ensures
        r@ == spec_materialize(e@, info@),
{
    let template = message_of(e);
    let prepared = prepare_payload(info);
    proof {
        lemma_prepare_idempotent(info@);
    }
    let rendered: Option<String> = match probe_template(template.as_str()) {
        Some(paths) => {
            if check_paths_safe(&paths, &prepared) {
                render_template(template.as_str(), &prepared)
            } else {
                None
            }
        },
        None => None,
    };
    apply_rendered(e, rendered)
}

impl Rule {
    /// Checks the rule's condition tree against a payload and materializes
    /// the rule's event: the message is rendered as a template over the
    /// payload, and kept unchanged when rendering fails; every other event
    /// field passes through verbatim.
    pub fn check_value(&self, info: &Json) -> (r: RuleResult)
        ensures
            r.condition_result@ == eval_cond(self.conditions@, info@),
            r.event@ == spec_materialize(self.event@, info@),
            same_but_message(self.event@, r.event@),
    {
        let condition_result = self.conditions.check_value(info);
        let event = materialize_event(&self.event, info);
        proof {
            lemma_materialize_same_but_message(self.event@, info@);
        }
        RuleResult { condition_result, event }
    }
}

} // verus!
