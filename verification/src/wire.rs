//! The serialization grammar for rules, over the library's own
//! [`Json`](crate::json::Json) model.
//!
//! A condition node is untagged: it is distinguished by which key set its
//! object holds — `{"and": [...]}`, `{"or": [...]}`,
//! `{"should_minimum_meet": N, "conditions": [...]}`, or
//! `{"field": ..., "operator": ..., "value": ...}`. The key sets are probed
//! in that order, and a malformed document under the probed key set is
//! rejected. An event is tagged by a `type` key with its `params` beside
//! it. A malformed document is rejected before any evaluation begins; a
//! well-formed tree serializes and re-parses to the same tree.

use vstd::prelude::*;

use crate::condition::{conds_view, eval_cond, CondView, Condition};
use crate::constraint::{Constraint, ConstraintView};
use crate::event::{spec_materialize, Event, EventParams, EventParamsView, EventView, Rule, RuleView};
use crate::json::{json_obj_view, json_seq_view, lemma_json_obj_view, lemma_json_seq_view, obj_get, obj_get_str, Json, JsonView};

verus! {

/// The wire name of a constraint's operator.
pub open spec fn constraint_op_name(c: ConstraintView) -> Seq<char> {
    match c {
        ConstraintView::StringEquals(_) => "string_equals"@,
        ConstraintView::StringNotEquals(_) => "string_not_equals"@,
        ConstraintView::StringIn(_) => "string_in"@,
        ConstraintView::StringNotIn(_) => "string_not_in"@,
        ConstraintView::IntEquals(_) => "int_equals"@,
        ConstraintView::IntNotEquals(_) => "int_not_equals"@,
        ConstraintView::IntIn(_) => "int_in"@,
        ConstraintView::IntNotIn(_) => "int_not_in"@,
        ConstraintView::IntInRange(_, _) => "int_in_range"@,
        ConstraintView::IntNotInRange(_, _) => "int_not_in_range"@,
        ConstraintView::LessThan(_) => "less_than"@,
        ConstraintView::LessThanInclusive(_) => "less_than_inclusive"@,
        ConstraintView::GreaterThan(_) => "greater_than"@,
        ConstraintView::GreaterThanInclusive(_) => "greater_than_inclusive"@,
        ConstraintView::BoolEquals(_) => "bool_equals"@,
    }
}

/// The wire shape of a constraint's operand(s).
pub open spec fn constraint_value_json(c: ConstraintView) -> JsonView {
    match c {
        ConstraintView::StringEquals(s) => JsonView::Str(s),
        ConstraintView::StringNotEquals(s) => JsonView::Str(s),
        ConstraintView::StringIn(ss) => JsonView::Array(
            ss.map_values(|s: Seq<char>| JsonView::Str(s)),
        ),
        ConstraintView::StringNotIn(ss) => JsonView::Array(
            ss.map_values(|s: Seq<char>| JsonView::Str(s)),
        ),
        ConstraintView::IntEquals(n) => JsonView::Int(n),
        ConstraintView::IntNotEquals(n) => JsonView::Int(n),
        ConstraintView::IntIn(ns) => JsonView::Array(ns.map_values(|n: int| JsonView::Int(n))),
        ConstraintView::IntNotIn(ns) => JsonView::Array(ns.map_values(|n: int| JsonView::Int(n))),
        ConstraintView::IntInRange(lo, hi) => JsonView::Array(
            seq![JsonView::Int(lo), JsonView::Int(hi)],
        ),
        ConstraintView::IntNotInRange(lo, hi) => JsonView::Array(
            seq![JsonView::Int(lo), JsonView::Int(hi)],
        ),
        ConstraintView::LessThan(n) => JsonView::Int(n),
        ConstraintView::LessThanInclusive(n) => JsonView::Int(n),
        ConstraintView::GreaterThan(n) => JsonView::Int(n),
        ConstraintView::GreaterThanInclusive(n) => JsonView::Int(n),
        ConstraintView::BoolEquals(b) => JsonView::Bool(b),
    }
}

/// The wire shape of a condition tree.
pub open spec fn cond_to_json(c: CondView) -> JsonView
    decreases c,
{
    match c {
        CondView::And { and } => JsonView::Object(
            seq![("and"@, JsonView::Array(conds_to_json(and)))],
        ),
        CondView::Or { or } => JsonView::Object(
            seq![("or"@, JsonView::Array(conds_to_json(or)))],
        ),
        CondView::AtLeast { should_minimum_meet, conditions } => JsonView::Object(
            seq![
                ("should_minimum_meet"@, JsonView::Int(should_minimum_meet)),
                ("conditions"@, JsonView::Array(conds_to_json(conditions))),
            ],
        ),
        CondView::Condition { field, constraint } => JsonView::Object(
            seq![
                ("field"@, JsonView::Str(field)),
                ("operator"@, JsonView::Str(constraint_op_name(constraint))),
                ("value"@, constraint_value_json(constraint)),
            ],
        ),
    }
}

/// The wire shapes of a sequence of condition trees, in order.
pub open spec fn conds_to_json(cs: Seq<CondView>) -> Seq<JsonView>
    decreases cs,
{
    if cs.len() == 0 {
        Seq::empty()
    } else {
        conds_to_json(cs.drop_last()).push(cond_to_json(cs.last()))
    }
}

/// The wire shape of a notification's parameters.
pub open spec fn params_to_json(p: EventParamsView) -> JsonView {
    JsonView::Object(
        seq![
            ("type"@, JsonView::Str(p.ty)),
            ("title"@, JsonView::Str(p.title)),
            ("message"@, JsonView::Str(p.message)),
        ],
    )
}

/// The wire shape of an event.
pub open spec fn event_to_json(e: EventView) -> JsonView {
    match e {
        EventView::Message(p) => JsonView::Object(
            seq![("type"@, JsonView::Str("message"@)), ("params"@, params_to_json(p))],
        ),
        EventView::PostToCallbackUrl { callback_url, params } => JsonView::Object(
            seq![
                ("type"@, JsonView::Str("post_to_callback_url"@)),
                (
                    "params"@,
                    JsonView::Object(
                        seq![
                            ("callback_url"@, JsonView::Str(callback_url)),
                            ("type"@, JsonView::Str(params.ty)),
                            ("title"@, JsonView::Str(params.title)),
                            ("message"@, JsonView::Str(params.message)),
                        ],
                    ),
                ),
            ],
        ),
    }
}

/// The wire shape of a rule.
pub open spec fn rule_to_json(r: RuleView) -> JsonView {
    JsonView::Object(
        seq![("conditions"@, cond_to_json(r.conditions)), ("event"@, event_to_json(r.event))],
    )
}

/// A hit among an object's entries is a strictly smaller value.
proof fn lemma_obj_get_decreases(fields: Seq<(Seq<char>, JsonView)>, key: Seq<char>)
    ensures
        match obj_get(fields, key) {
            Some(c) => decreases_to!(fields => c),
            None => true,
        },
    decreases fields.len(),
{
    broadcast use vstd::seq::axiom_seq_subrange_decreases;

    if fields.len() > 0 {
        if fields[0].0 == key {
            assert(decreases_to!(fields => fields[0]));
            assert(decreases_to!(fields[0] => fields[0].1));
        } else {
            lemma_obj_get_decreases(fields.skip(1), key);
            match obj_get(fields.skip(1), key) {
                Some(c) => {
                    assert(fields.skip(1).len() < fields.len());
                    assert(decreases_to!(fields => fields.skip(1)));
                },
                None => {
                },
            }
        }
    }
}

/// Whether an integer fits the wire's signed 64-bit operands.
pub open spec fn fits_i64(n: int) -> bool {
    i64::MIN <= n <= i64::MAX
}

/// The operand(s) a named operator expects, read back from the wire shape.
pub open spec fn parse_constraint(op: Seq<char>, value: JsonView) -> Option<ConstraintView> {
    if op == "string_equals"@ {
        match value {
            JsonView::Str(s) => Some(ConstraintView::StringEquals(s)),
            _ => None,
        }
    } else if op == "string_not_equals"@ {
        match value {
            JsonView::Str(s) => Some(ConstraintView::StringNotEquals(s)),
            _ => None,
        }
    } else if op == "string_in"@ {
        match value {
            JsonView::Array(xs) => match parse_str_list(xs) {
                Some(ss) => Some(ConstraintView::StringIn(ss)),
                None => None,
            },
            _ => None,
        }
    } else if op == "string_not_in"@ {
        match value {
            JsonView::Array(xs) => match parse_str_list(xs) {
                Some(ss) => Some(ConstraintView::StringNotIn(ss)),
                None => None,
            },
            _ => None,
        }
    } else if op == "int_equals"@ {
        match value {
            JsonView::Int(n) => if fits_i64(n) {
                Some(ConstraintView::IntEquals(n))
            } else {
                None
            },
            _ => None,
        }
    } else if op == "int_not_equals"@ {
        match value {
            JsonView::Int(n) => if fits_i64(n) {
                Some(ConstraintView::IntNotEquals(n))
            } else {
                None
            },
            _ => None,
        }
    } else if op == "int_in"@ {
        match value {
            JsonView::Array(xs) => match parse_int_list(xs) {
                Some(ns) => Some(ConstraintView::IntIn(ns)),
                None => None,
            },
            _ => None,
        }
    } else if op == "int_not_in"@ {
        match value {
            JsonView::Array(xs) => match parse_int_list(xs) {
                Some(ns) => Some(ConstraintView::IntNotIn(ns)),
                None => None,
            },
            _ => None,
        }
    } else if op == "int_in_range"@ {
        match parse_int_pair(value) {
            Some((lo, hi)) => Some(ConstraintView::IntInRange(lo, hi)),
            None => None,
        }
    } else if op == "int_not_in_range"@ {
        match parse_int_pair(value) {
            Some((lo, hi)) => Some(ConstraintView::IntNotInRange(lo, hi)),
            None => None,
        }
    } else if op == "less_than"@ {
        match value {
            JsonView::Int(n) => if fits_i64(n) {
                Some(ConstraintView::LessThan(n))
            } else {
                None
            },
            _ => None,
        }
    } else if op == "less_than_inclusive"@ {
        match value {
            JsonView::Int(n) => if fits_i64(n) {
                Some(ConstraintView::LessThanInclusive(n))
            } else {
                None
            },
            _ => None,
        }
    } else if op == "greater_than"@ {
        match value {
            JsonView::Int(n) => if fits_i64(n) {
                Some(ConstraintView::GreaterThan(n))
            } else {
                None
            },
            _ => None,
        }
    } else if op == "greater_than_inclusive"@ {
        match value {
            JsonView::Int(n) => if fits_i64(n) {
                Some(ConstraintView::GreaterThanInclusive(n))
            } else {
                None
            },
            _ => None,
        }
    } else if op == "bool_equals"@ {
        match value {
            JsonView::Bool(b) => Some(ConstraintView::BoolEquals(b)),
            _ => None,
        }
    } else {
        None
    }
}

/// A list of text values, read back element by element.
pub open spec fn parse_str_list(xs: Seq<JsonView>) -> Option<Seq<Seq<char>>>
    decreases xs,
{
    if xs.len() == 0 {
        Some(Seq::empty())
    } else {
        match parse_str_list(xs.drop_last()) {
            Some(ss) => match xs.last() {
                JsonView::Str(s) => Some(ss.push(s)),
                _ => None,
            },
            None => None,
        }
    }
}

/// A list of 64-bit integers, read back element by element.
pub open spec fn parse_int_list(xs: Seq<JsonView>) -> Option<Seq<int>>
    decreases xs,
{
    if xs.len() == 0 {
        Some(Seq::empty())
    } else {
        match parse_int_list(xs.drop_last()) {
            Some(ns) => match xs.last() {
                JsonView::Int(n) => if fits_i64(n) {
                    Some(ns.push(n))
                } else {
                    None
                },
                _ => None,
            },
            None => None,
        }
    }
}

/// A range operand: a two-element array of 64-bit integers.
pub open spec fn parse_int_pair(value: JsonView) -> Option<(int, int)> {
    match value {
        JsonView::Array(xs) => if xs.len() == 2 {
            match (xs[0], xs[1]) {
                (JsonView::Int(lo), JsonView::Int(hi)) => if fits_i64(lo) && fits_i64(hi) {
                    Some((lo, hi))
                } else {
                    None
                },
                _ => None,
            }
        } else {
            None
        },
        _ => None,
    }
}

/// A condition tree, read back from its wire shape.
pub open spec fn parse_cond(v: JsonView) -> Option<CondView>
    decreases v,
    via parse_cond_dec
{
    match v {
        JsonView::Object(fields) => {
            if obj_get(fields, "and"@) is Some {
                match obj_get(fields, "and"@) {
                    Some(av) => match av {
                        JsonView::Array(xs) => match parse_conds(xs) {
                            Some(cs) => Some(CondView::And { and: cs }),
                            None => None,
                        },
                        _ => None,
                    },
                    None => None,
                }
            } else if obj_get(fields, "or"@) is Some {
                match obj_get(fields, "or"@) {
                    Some(ov) => match ov {
                        JsonView::Array(xs) => match parse_conds(xs) {
                            Some(cs) => Some(CondView::Or { or: cs }),
                            None => None,
                        },
                        _ => None,
                    },
                    None => None,
                }
            } else if obj_get(fields, "should_minimum_meet"@) is Some {
                match (obj_get(fields, "should_minimum_meet"@), obj_get(fields, "conditions"@)) {
                    (Some(nv), Some(cv)) => match (nv, cv) {
                        (JsonView::Int(n), JsonView::Array(xs)) => if 0 <= n <= usize::MAX as int {
                            match parse_conds(xs) {
                                Some(cs) => Some(
                                    CondView::AtLeast {
                                        should_minimum_meet: n,
                                        conditions: cs,
                                    },
                                ),
                                None => None,
                            }
                        } else {
                            None
                        },
                        _ => None,
                    },
                    _ => None,
                }
            } else {
                match (obj_get(fields, "field"@), obj_get(fields, "operator"@), obj_get(fields, "value"@)) {
                    (Some(fv), Some(opv), Some(vv)) => match (fv, opv) {
                        (JsonView::Str(field), JsonView::Str(op)) => match parse_constraint(
                            op,
                            vv,
                        ) {
                            Some(k) => Some(CondView::Condition { field, constraint: k }),
                            None => None,
                        },
                        _ => None,
                    },
                    _ => None,
                }
            }
        },
        _ => None,
    }
}

#[via_fn]
proof fn parse_cond_dec(v: JsonView) {
    match v {
        JsonView::Object(fields) => {
            assert(decreases_to!(v => fields));
            lemma_obj_get_decreases(fields, "and"@);
            lemma_obj_get_decreases(fields, "or"@);
            lemma_obj_get_decreases(fields, "conditions"@);
            if let Some(av) = obj_get(fields, "and"@) {
                if let JsonView::Array(xs) = av {
                    assert(decreases_to!(av => xs));
                }
            }
            if let Some(ov) = obj_get(fields, "or"@) {
                if let JsonView::Array(xs) = ov {
                    assert(decreases_to!(ov => xs));
                }
            }
            if let Some(cv) = obj_get(fields, "conditions"@) {
                if let JsonView::Array(xs) = cv {
                    assert(decreases_to!(cv => xs));
                }
            }
        },
        _ => {
        },
    }
}

/// A sequence of condition trees, read back element by element.
pub open spec fn parse_conds(xs: Seq<JsonView>) -> Option<Seq<CondView>>
    decreases xs,
{
    if xs.len() == 0 {
        Some(Seq::empty())
    } else {
        match parse_conds(xs.drop_last()) {
            Some(cs) => match parse_cond(xs.last()) {
                Some(c) => Some(cs.push(c)),
                None => None,
            },
            None => None,
        }
    }
}

/// A notification's parameters, read back from an object with `type`,
/// `title` and `message` entries.
pub open spec fn parse_params(v: JsonView) -> Option<EventParamsView> {
    match v {
        JsonView::Object(fields) => match (
            obj_get(fields, "type"@),
            obj_get(fields, "title"@),
            obj_get(fields, "message"@),
        ) {
            (Some(tv), Some(iv), Some(mv)) => match (tv, iv, mv) {
                (JsonView::Str(ty), JsonView::Str(title), JsonView::Str(message)) => Some(
                    EventParamsView { ty, title, message },
                ),
                _ => None,
            },
            _ => None,
        },
        _ => None,
    }
}

/// An event, read back from its tagged wire shape.
pub open spec fn parse_event(v: JsonView) -> Option<EventView> {
    match v {
        JsonView::Object(fields) => match (obj_get(fields, "type"@), obj_get(fields, "params"@)) {
            (Some(tv), Some(pv)) => match tv {
                JsonView::Str(tag) => if tag == "message"@ {
                    match parse_params(pv) {
                        Some(p) => Some(EventView::Message(p)),
                        None => None,
                    }
                } else if tag == "post_to_callback_url"@ {
                    match pv {
                        JsonView::Object(pfields) => match obj_get(pfields, "callback_url"@) {
                            Some(uv) => match uv {
                                JsonView::Str(u) => match parse_params(pv) {
                                    Some(p) => Some(
                                        EventView::PostToCallbackUrl {
                                            callback_url: u,
                                            params: p,
                                        },
                                    ),
                                    None => None,
                                },
                                _ => None,
                            },
                            None => None,
                        },
                        _ => None,
                    }
                } else {
                    None
                },
                _ => None,
            },
            _ => None,
        },
        _ => None,
    }
}

/// Whether a condition tree's integers fit the wire's 64-bit operands, so
/// that the tree can be written out. Thresholds are unsigned machine words
/// and can exceed the signed range only on such a machine.
pub open spec fn cond_ser_ok(c: CondView) -> bool
    decreases c,
{
    match c {
        CondView::And { and } => conds_ser_ok(and),
        CondView::Or { or } => conds_ser_ok(or),
        CondView::AtLeast { should_minimum_meet, conditions } => should_minimum_meet
            <= i64::MAX as int && conds_ser_ok(conditions),
        CondView::Condition { field, constraint } => true,
    }
}

/// Element-wise [`cond_ser_ok`].
pub open spec fn conds_ser_ok(cs: Seq<CondView>) -> bool
    decreases cs,
{
    cs.len() == 0 || (conds_ser_ok(cs.drop_last()) && cond_ser_ok(cs.last()))
}

/// A malformed document: rejected before any evaluation begins.
#[derive(Debug, Clone, PartialEq, Eq)]
pub struct ParseError;

/// The wire shape of a list of text operands.
fn str_list_json(ss: &Vec<String>) -> (r: Vec<Json>)
    ensures
        json_seq_view(r@) == ss@.map_values(|s: String| s@).map_values(
            |t: Seq<char>| JsonView::Str(t),
        ),
{
    let ghost target = ss@.map_values(|s: String| s@).map_values(|t: Seq<char>| JsonView::Str(t));
    let mut r: Vec<Json> = Vec::new();
    let mut i: usize = 0;
    while i < ss.len()
        invariant
            target == ss@.map_values(|s: String| s@).map_values(|t: Seq<char>| JsonView::Str(t)),
            target.len() == ss@.len(),
            0 <= i <= ss@.len(),
            r@.len() == i,
            forall|j: int| 0 <= j < i ==> (#[trigger] r@[j])@ == target[j],
        decreases ss@.len() - i,
    {
        r.push(Json::Str(ss[i].clone()));
        i = i + 1;
    }
    proof {
        lemma_json_seq_view(r@);
        assert(json_seq_view(r@) =~= target);
    }
    r
}

/// The wire shape of a list of integer operands.
fn int_list_json(ns: &Vec<i64>) -> (r: Vec<Json>)
    ensures
        json_seq_view(r@) == ns@.map_values(|x: i64| x as int).map_values(
            |n: int| JsonView::Int(n),
        ),
{
    let ghost target = ns@.map_values(|x: i64| x as int).map_values(|n: int| JsonView::Int(n));
    let mut r: Vec<Json> = Vec::new();
    let mut i: usize = 0;
    while i < ns.len()
        invariant
            target == ns@.map_values(|x: i64| x as int).map_values(|n: int| JsonView::Int(n)),
            target.len() == ns@.len(),
            0 <= i <= ns@.len(),
            r@.len() == i,
            forall|j: int| 0 <= j < i ==> (#[trigger] r@[j])@ == target[j],
        decreases ns@.len() - i,
    {
        r.push(Json::Int(ns[i]));
        i = i + 1;
    }
    proof {
        lemma_json_seq_view(r@);
        assert(json_seq_view(r@) =~= target);
    }
    r
}

impl Constraint {
    /// The wire name of this constraint's operator.
    pub fn op_name(&self) -> (r: &'static str)
        ensures
            r@ == constraint_op_name(self@),
    {
        match self {
            Constraint::StringEquals(_) => "string_equals",
            Constraint::StringNotEquals(_) => "string_not_equals",
            Constraint::StringIn(_) => "string_in",
            Constraint::StringNotIn(_) => "string_not_in",
            Constraint::IntEquals(_) => "int_equals",
            Constraint::IntNotEquals(_) => "int_not_equals",
            Constraint::IntIn(_) => "int_in",
            Constraint::IntNotIn(_) => "int_not_in",
            Constraint::IntInRange(_, _) => "int_in_range",
            Constraint::IntNotInRange(_, _) => "int_not_in_range",
            Constraint::LessThan(_) => "less_than",
            Constraint::LessThanInclusive(_) => "less_than_inclusive",
            Constraint::GreaterThan(_) => "greater_than",
            Constraint::GreaterThanInclusive(_) => "greater_than_inclusive",
            Constraint::BoolEquals(_) => "bool_equals",
        }
    }

    /// The wire shape of this constraint's operand(s).
    pub fn value_json(&self) -> (r: Json)
        ensures
            r@ == constraint_value_json(self@),
    {
        match self {
            Constraint::StringEquals(s) => Json::Str(s.clone()),
            Constraint::StringNotEquals(s) => Json::Str(s.clone()),
            Constraint::StringIn(ss) => Json::Array(str_list_json(ss)),
            Constraint::StringNotIn(ss) => Json::Array(str_list_json(ss)),
            Constraint::IntEquals(n) => Json::Int(*n),
            Constraint::IntNotEquals(n) => Json::Int(*n),
            Constraint::IntIn(ns) => Json::Array(int_list_json(ns)),
            Constraint::IntNotIn(ns) => Json::Array(int_list_json(ns)),
            Constraint::IntInRange(lo, hi) => {
                let mut xs: Vec<Json> = Vec::new();
                xs.push(Json::Int(*lo));
                xs.push(Json::Int(*hi));
                proof {
                    lemma_json_seq_view(xs@);
                    assert(json_seq_view(xs@) =~= seq![
                        JsonView::Int(*lo as int),
                        JsonView::Int(*hi as int),
                    ]);
                }
                Json::Array(xs)
            },
            Constraint::IntNotInRange(lo, hi) => {
                let mut xs: Vec<Json> = Vec::new();
                xs.push(Json::Int(*lo));
                xs.push(Json::Int(*hi));
                proof {
                    lemma_json_seq_view(xs@);
                    assert(json_seq_view(xs@) =~= seq![
                        JsonView::Int(*lo as int),
                        JsonView::Int(*hi as int),
                    ]);
                }
                Json::Array(xs)
            },
            Constraint::LessThan(n) => Json::Int(*n),
            Constraint::LessThanInclusive(n) => Json::Int(*n),
            Constraint::GreaterThan(n) => Json::Int(*n),
            Constraint::GreaterThanInclusive(n) => Json::Int(*n),
            Constraint::BoolEquals(b) => Json::Bool(*b),
        }
    }
}

/// The wire shapes of a list of condition trees, in order.
fn conds_to_json_list(cs: &Vec<Condition>) -> (r: Vec<Json>)
    requires
        conds_ser_ok(conds_view(cs@)),
    ensures
        json_seq_view(r@) == conds_to_json(conds_view(cs@)),
    decreases cs@,
{
    let ghost cvs = conds_view(cs@);
    proof {
        crate::condition::lemma_conds_view(cs@);
    }
    let mut r: Vec<Json> = Vec::new();
    let mut i: usize = 0;
    proof {
        assert(cvs.take(0) =~= Seq::<CondView>::empty());
        assert(json_seq_view(r@) =~= conds_to_json(cvs.take(0)));
    }
    while i < cs.len()
        invariant
            cvs == conds_view(cs@),
            conds_ser_ok(cvs),
            cvs.len() == cs@.len(),
            forall|j: int| 0 <= j < cs@.len() ==> cvs[j] == #[trigger] cs@[j]@,
            0 <= i <= cs@.len(),
            r@.len() == i,
            json_seq_view(r@) == conds_to_json(cvs.take(i as int)),
        decreases cs@.len() - i,
    {
        let ghost prev = r@;
        proof {
            lemma_conds_ser_ok_take(cvs, i + 1);
            assert(cvs.take(i + 1).drop_last() =~= cvs.take(i as int));
            assert(cvs.take(i + 1).last() == cvs[i as int]);
        }
        let cj = cs[i].to_json();
        r.push(cj);
        proof {
            assert(r@.drop_last() =~= prev);
            assert(json_seq_view(r@) == json_seq_view(prev).push(cj@));
        }
        i = i + 1;
    }
    proof {
        assert(cvs.take(cs@.len() as int) =~= cvs);
    }
    r
}

/// Serializability carries over to every prefix and element.
proof fn lemma_conds_ser_ok_take(cs: Seq<CondView>, k: int)
    requires
        conds_ser_ok(cs),
        0 <= k <= cs.len(),
    ensures
        conds_ser_ok(cs.take(k)),
        k > 0 ==> cond_ser_ok(cs[k - 1]),
    decreases cs.len() - k,
{
    if k < cs.len() {
        lemma_conds_ser_ok_take(cs, k + 1);
        assert(cs.take(k + 1).drop_last() =~= cs.take(k));
        assert(cs.take(k + 1).last() == cs[k]);
    } else {
        assert(cs.take(k) =~= cs);
    }
    if k > 0 {
        assert(cs.take(k).last() == cs[k - 1]);
    }
}

impl Condition {
    /// Writes this condition tree out in its wire shape.
    pub fn to_json(&self) -> (r: Json)
        requires
            cond_ser_ok(self@),
        ensures
            r@ == cond_to_json(self@),
        decreases *self,
    {
        match self {
            Condition::And { and } => {
                let items = conds_to_json_list(and);
                let mut fields: Vec<(String, Json)> = Vec::new();
                fields.push((String::from_str("and"), Json::Array(items)));
                proof {
                    lemma_json_obj_view(fields@);
                    assert(json_obj_view(fields@) =~= cond_to_json(self@)->Object_0);
                }
                Json::Object(fields)
            },
            Condition::Or { or } => {
                let items = conds_to_json_list(or);
                let mut fields: Vec<(String, Json)> = Vec::new();
                fields.push((String::from_str("or"), Json::Array(items)));
                proof {
                    lemma_json_obj_view(fields@);
                    assert(json_obj_view(fields@) =~= cond_to_json(self@)->Object_0);
                }
                Json::Object(fields)
            },
            Condition::AtLeast { should_minimum_meet, conditions } => {
                let items = conds_to_json_list(conditions);
                let mut fields: Vec<(String, Json)> = Vec::new();
                fields.push(
                    (String::from_str("should_minimum_meet"), Json::Int(*should_minimum_meet as i64)),
                );
                fields.push((String::from_str("conditions"), Json::Array(items)));
                proof {
                    lemma_json_obj_view(fields@);
                    assert(json_obj_view(fields@) =~= cond_to_json(self@)->Object_0);
                }
                Json::Object(fields)
            },
            Condition::Condition { field, constraint } => {
                let opv = constraint.value_json();
                let mut fields: Vec<(String, Json)> = Vec::new();
                fields.push((String::from_str("field"), Json::Str(field.clone())));
                fields.push((String::from_str("operator"), Json::Str(String::from_str(constraint.op_name()))));
                fields.push((String::from_str("value"), opv));
                proof {
                    lemma_json_obj_view(fields@);
                    assert(json_obj_view(fields@) =~= cond_to_json(self@)->Object_0);
                }
                Json::Object(fields)
            },
        }
    }
}

impl Event {
    /// Writes this event out in its tagged wire shape.
    pub fn to_json(&self) -> (r: Json)
        ensures
            r@ == event_to_json(self@),
    {
        match self {
            Event::Message(p) => {
                let mut pfields: Vec<(String, Json)> = Vec::new();
                pfields.push((String::from_str("type"), Json::Str(p.ty.clone())));
                pfields.push((String::from_str("title"), Json::Str(p.title.clone())));
                pfields.push((String::from_str("message"), Json::Str(p.message.clone())));
                let mut fields: Vec<(String, Json)> = Vec::new();
                fields.push((String::from_str("type"), Json::Str(String::from_str("message"))));
                fields.push((String::from_str("params"), Json::Object(pfields)));
                proof {
                    lemma_json_obj_view(pfields@);
                    assert(json_obj_view(pfields@) =~= params_to_json(p@)->Object_0);
                    lemma_json_obj_view(fields@);
                    assert(json_obj_view(fields@).len() == 2);
                    assert(json_obj_view(fields@)[0] == ("type"@, JsonView::Str("message"@)));
                    assert(json_obj_view(fields@)[1].0 == "params"@);
                    assert(fields@[1].1@ == JsonView::Object(json_obj_view(pfields@)));
                    assert(fields@[1].1@ == params_to_json(p@));
                    assert(self@ == EventView::Message(p@));
                    assert(event_to_json(self@) == JsonView::Object(
                        seq![("type"@, JsonView::Str("message"@)), ("params"@, params_to_json(p@))],
                    ));
                    assert((event_to_json(self@)->Object_0).len() == 2);
                    assert(json_obj_view(fields@) =~~= event_to_json(self@)->Object_0);
                }
                Json::Object(fields)
            },
            Event::PostToCallbackUrl { callback_url, params } => {
                let mut pfields: Vec<(String, Json)> = Vec::new();
                pfields.push((String::from_str("callback_url"), Json::Str(callback_url.clone())));
                pfields.push((String::from_str("type"), Json::Str(params.ty.clone())));
                pfields.push((String::from_str("title"), Json::Str(params.title.clone())));
                pfields.push((String::from_str("message"), Json::Str(params.message.clone())));
                let mut fields: Vec<(String, Json)> = Vec::new();
                fields.push(
                    (String::from_str("type"), Json::Str(String::from_str("post_to_callback_url"))),
                );
                fields.push((String::from_str("params"), Json::Object(pfields)));
                proof {
                    let pv = params@;
                    let inner = JsonView::Object(
                        seq![
                            ("callback_url"@, JsonView::Str(callback_url@)),
                            ("type"@, JsonView::Str(pv.ty)),
                            ("title"@, JsonView::Str(pv.title)),
                            ("message"@, JsonView::Str(pv.message)),
                        ],
                    );
                    lemma_json_obj_view(pfields@);
                    assert(json_obj_view(pfields@) =~= inner->Object_0);
                    lemma_json_obj_view(fields@);
                    assert(json_obj_view(fields@).len() == 2);
                    assert(json_obj_view(fields@)[0] == (
                        "type"@,
                        JsonView::Str("post_to_callback_url"@),
                    ));
                    assert(json_obj_view(fields@)[1].0 == "params"@);
                    assert(fields@[1].1@ == JsonView::Object(json_obj_view(pfields@)));
                    assert(fields@[1].1@ == inner);
                    assert(self@ == (EventView::PostToCallbackUrl {
                        callback_url: callback_url@,
                        params: pv,
                    }));
                    assert(event_to_json(self@) == JsonView::Object(
                        seq![("type"@, JsonView::Str("post_to_callback_url"@)), ("params"@, inner)],
                    ));
                    assert(json_obj_view(fields@) =~= event_to_json(self@)->Object_0);
                }
                Json::Object(fields)
            },
        }
    }
}

impl Rule {
    /// Writes this rule out in its wire shape.
    pub fn to_json(&self) -> (r: Json)
        requires
            cond_ser_ok(self.conditions@),
        ensures
            r@ == rule_to_json(self@),
    {
        let cj = self.conditions.to_json();
        let ej = self.event.to_json();
        let mut fields: Vec<(String, Json)> = Vec::new();
        fields.push((String::from_str("conditions"), cj));
        fields.push((String::from_str("event"), ej));
        proof {
            lemma_json_obj_view(fields@);
            assert(json_obj_view(fields@) =~= rule_to_json(self@)->Object_0);
        }
        Json::Object(fields)
    }
}

/// A rule, read back from an object with `conditions` and `event` entries.
pub open spec fn parse_rule(v: JsonView) -> Option<RuleView> {
    match v {
        JsonView::Object(fields) => match (
            obj_get(fields, "conditions"@),
            obj_get(fields, "event"@),
        ) {
            (Some(cv), Some(ev)) => match (parse_cond(cv), parse_event(ev)) {
                (Some(c), Some(e)) => Some(RuleView { conditions: c, event: e }),
                _ => None,
            },
            _ => None,
        },
        _ => None,
    }
}

/// A failed prefix fails the whole list.
proof fn lemma_parse_conds_none(xs: Seq<JsonView>, k: int)
    requires
        0 <= k <= xs.len(),
        parse_conds(xs.take(k)) == None::<Seq<CondView>>,
    ensures
        parse_conds(xs) == None::<Seq<CondView>>,
    decreases xs.len() - k,
{
    if k < xs.len() {
        assert(xs.take(k + 1).drop_last() =~= xs.take(k));
        lemma_parse_conds_none(xs, k + 1);
    } else {
        assert(xs.take(k) =~= xs);
    }
}

/// A failed prefix fails the whole list.
proof fn lemma_parse_str_list_none(xs: Seq<JsonView>, k: int)
    requires
        0 <= k <= xs.len(),
        parse_str_list(xs.take(k)) == None::<Seq<Seq<char>>>,
    ensures
        parse_str_list(xs) == None::<Seq<Seq<char>>>,
    decreases xs.len() - k,
{
    if k < xs.len() {
        assert(xs.take(k + 1).drop_last() =~= xs.take(k));
        lemma_parse_str_list_none(xs, k + 1);
    } else {
        assert(xs.take(k) =~= xs);
    }
}

/// A failed prefix fails the whole list.
proof fn lemma_parse_int_list_none(xs: Seq<JsonView>, k: int)
    requires
        0 <= k <= xs.len(),
        parse_int_list(xs.take(k)) == None::<Seq<int>>,
    ensures
        parse_int_list(xs) == None::<Seq<int>>,
    decreases xs.len() - k,
{
    if k < xs.len() {
        assert(xs.take(k + 1).drop_last() =~= xs.take(k));
        lemma_parse_int_list_none(xs, k + 1);
    } else {
        assert(xs.take(k) =~= xs);
    }
}

/// Reads a list of text operands back.
fn str_list_from_json(xs: &Vec<Json>) -> (r: Result<Vec<String>, ParseError>)
    ensures
        match r {
            Ok(ss) => parse_str_list(json_seq_view(xs@)) == Some(
                ss@.map_values(|s: String| s@),
            ),
            Err(_) => parse_str_list(json_seq_view(xs@)) == None::<Seq<Seq<char>>>,
        },
{
    let ghost jv = json_seq_view(xs@);
    proof {
        lemma_json_seq_view(xs@);
    }
    let mut ss: Vec<String> = Vec::new();
    let mut i: usize = 0;
    proof {
        assert(jv.take(0) =~= Seq::<JsonView>::empty());
        assert(ss@.map_values(|s: String| s@) =~= Seq::<Seq<char>>::empty());
    }
    while i < xs.len()
        invariant
            jv == json_seq_view(xs@),
            jv.len() == xs@.len(),
            forall|j: int| 0 <= j < xs@.len() ==> jv[j] == #[trigger] xs@[j]@,
            0 <= i <= xs@.len(),
            ss@.len() == i,
            parse_str_list(jv.take(i as int)) == Some(ss@.map_values(|s: String| s@)),
        decreases xs@.len() - i,
    {
        let ghost prev = ss@;
        proof {
            assert(jv.take(i + 1).drop_last() =~= jv.take(i as int));
            assert(jv.take(i + 1).last() == jv[i as int]);
        }
        match &xs[i] {
            Json::Str(s) => {
                proof {
                    assert(jv[i as int] == xs@[i as int]@);
                    assert(jv[i as int] == JsonView::Str(s@));
                }
                ss.push(s.clone());
                proof {
                    assert(ss@.drop_last() =~= prev);
                    assert(ss@.map_values(|s: String| s@) =~= prev.map_values(
                        |s: String| s@,
                    ).push(s@));
                    assert(parse_str_list(jv.take(i + 1)) == Some(
                        ss@.map_values(|s: String| s@),
                    ));
                }
            },
            _ => {
                proof {
                    assert(jv[i as int] == xs@[i as int]@);
                    assert(!(jv.take(i + 1).last() is Str));
                    assert(parse_str_list(jv.take(i + 1)) == None::<Seq<Seq<char>>>);
                    lemma_parse_str_list_none(jv, i + 1);
                }
                return Err(ParseError);
            },
        }
        i = i + 1;
    }
    proof {
        assert(jv.take(xs@.len() as int) =~= jv);
    }
    Ok(ss)
}

/// Reads a list of integer operands back.
fn int_list_from_json(xs: &Vec<Json>) -> (r: Result<Vec<i64>, ParseError>)
    ensures
        match r {
            Ok(ns) => parse_int_list(json_seq_view(xs@)) == Some(
                ns@.map_values(|x: i64| x as int),
            ),
            Err(_) => parse_int_list(json_seq_view(xs@)) == None::<Seq<int>>,
        },
{
    let ghost jv = json_seq_view(xs@);
    proof {
        lemma_json_seq_view(xs@);
    }
    let mut ns: Vec<i64> = Vec::new();
    let mut i: usize = 0;
    proof {
        assert(jv.take(0) =~= Seq::<JsonView>::empty());
        assert(ns@.map_values(|x: i64| x as int) =~= Seq::<int>::empty());
    }
    while i < xs.len()
        invariant
            jv == json_seq_view(xs@),
            jv.len() == xs@.len(),
            forall|j: int| 0 <= j < xs@.len() ==> jv[j] == #[trigger] xs@[j]@,
            0 <= i <= xs@.len(),
            ns@.len() == i,
            parse_int_list(jv.take(i as int)) == Some(ns@.map_values(|x: i64| x as int)),
        decreases xs@.len() - i,
    {
        let ghost prev = ns@;
        proof {
            assert(jv.take(i + 1).drop_last() =~= jv.take(i as int));
            assert(jv.take(i + 1).last() == jv[i as int]);
        }
        match &xs[i] {
            Json::Int(n) => {
                proof {
                    assert(jv[i as int] == xs@[i as int]@);
                    assert(jv[i as int] == JsonView::Int(*n as int));
                }
                ns.push(*n);
                proof {
                    assert(ns@.drop_last() =~= prev);
                    assert(ns@.map_values(|x: i64| x as int) =~= prev.map_values(
                        |x: i64| x as int,
                    ).push(*n as int));
                    assert(parse_int_list(jv.take(i + 1)) == Some(
                        ns@.map_values(|x: i64| x as int),
                    ));
                }
            },
            _ => {
                proof {
                    assert(jv[i as int] == xs@[i as int]@);
                    assert(parse_int_list(jv.take(i + 1)) == None::<Seq<int>>);
                    lemma_parse_int_list_none(jv, i + 1);
                }
                return Err(ParseError);
            },
        }
        i = i + 1;
    }
    proof {
        assert(jv.take(xs@.len() as int) =~= jv);
    }
    Ok(ns)
}

impl Constraint {
    /// Reads a constraint back from its wire operator name and operand(s).
    pub fn from_parts(op: &str, value: &Json) -> (r: Result<Constraint, ParseError>)
        ensures
            match r {
                Ok(k) => parse_constraint(op@, value@) == Some(k@),
                Err(_) => parse_constraint(op@, value@) == None::<ConstraintView>,
            },
    {
        if crate::strutil::str_eq(op, "string_equals") {
            match value {
                Json::Str(s) => Ok(Constraint::StringEquals(s.clone())),
                _ => Err(ParseError),
            }
        } else if crate::strutil::str_eq(op, "string_not_equals") {
            match value {
                Json::Str(s) => Ok(Constraint::StringNotEquals(s.clone())),
                _ => Err(ParseError),
            }
        } else if crate::strutil::str_eq(op, "string_in") {
            match value {
                Json::Array(xs) => match str_list_from_json(xs) {
                    Ok(ss) => Ok(Constraint::StringIn(ss)),
                    Err(e) => Err(e),
                },
                _ => Err(ParseError),
            }
        } else if crate::strutil::str_eq(op, "string_not_in") {
            match value {
                Json::Array(xs) => match str_list_from_json(xs) {
                    Ok(ss) => Ok(Constraint::StringNotIn(ss)),
                    Err(e) => Err(e),
                },
                _ => Err(ParseError),
            }
        } else if crate::strutil::str_eq(op, "int_equals") {
            match value {
                Json::Int(n) => Ok(Constraint::IntEquals(*n)),
                _ => Err(ParseError),
            }
        } else if crate::strutil::str_eq(op, "int_not_equals") {
            match value {
                Json::Int(n) => Ok(Constraint::IntNotEquals(*n)),
                _ => Err(ParseError),
            }
        } else if crate::strutil::str_eq(op, "int_in") {
            match value {
                Json::Array(xs) => match int_list_from_json(xs) {
                    Ok(ns) => Ok(Constraint::IntIn(ns)),
                    Err(e) => Err(e),
                },
                _ => Err(ParseError),
            }
        } else if crate::strutil::str_eq(op, "int_not_in") {
            match value {
                Json::Array(xs) => match int_list_from_json(xs) {
                    Ok(ns) => Ok(Constraint::IntNotIn(ns)),
                    Err(e) => Err(e),
                },
                _ => Err(ParseError),
            }
        } else if crate::strutil::str_eq(op, "int_in_range") {
            match int_pair_from_json(value) {
                Ok((lo, hi)) => Ok(Constraint::IntInRange(lo, hi)),
                Err(e) => Err(e),
            }
        } else if crate::strutil::str_eq(op, "int_not_in_range") {
            match int_pair_from_json(value) {
                Ok((lo, hi)) => Ok(Constraint::IntNotInRange(lo, hi)),
                Err(e) => Err(e),
            }
        } else if crate::strutil::str_eq(op, "less_than") {
            match value {
                Json::Int(n) => Ok(Constraint::LessThan(*n)),
                _ => Err(ParseError),
            }
        } else if crate::strutil::str_eq(op, "less_than_inclusive") {
            match value {
                Json::Int(n) => Ok(Constraint::LessThanInclusive(*n)),
                _ => Err(ParseError),
            }
        } else if crate::strutil::str_eq(op, "greater_than") {
            match value {
                Json::Int(n) => Ok(Constraint::GreaterThan(*n)),
                _ => Err(ParseError),
            }
        } else if crate::strutil::str_eq(op, "greater_than_inclusive") {
            match value {
                Json::Int(n) => Ok(Constraint::GreaterThanInclusive(*n)),
                _ => Err(ParseError),
            }
        } else if crate::strutil::str_eq(op, "bool_equals") {
            match value {
                Json::Bool(b) => Ok(Constraint::BoolEquals(*b)),
                _ => Err(ParseError),
            }
        } else {
            Err(ParseError)
        }
    }
}

/// Reads a range operand back: a two-element array of integers.
fn int_pair_from_json(value: &Json) -> (r: Result<(i64, i64), ParseError>)
    ensures
        match r {
            Ok(p) => parse_int_pair(value@) == Some((p.0 as int, p.1 as int)),
            Err(_) => parse_int_pair(value@) == None::<(int, int)>,
        },
{
    match value {
        Json::Array(xs) => {
            proof {
                lemma_json_seq_view(xs@);
            }
            if xs.len() == 2 {
                match (&xs[0], &xs[1]) {
                    (Json::Int(lo), Json::Int(hi)) => Ok((*lo, *hi)),
                    _ => Err(ParseError),
                }
            } else {
                Err(ParseError)
            }
        },
        _ => Err(ParseError),
    }
}

/// Reads a list of condition trees back, element by element.
fn conds_from_json(xs: &Vec<Json>) -> (r: Result<Vec<Condition>, ParseError>)
    ensures
        match r {
            Ok(cs) => parse_conds(json_seq_view(xs@)) == Some(conds_view(cs@)),
            Err(_) => parse_conds(json_seq_view(xs@)) == None::<Seq<CondView>>,
        },
    decreases json_seq_view(xs@),
{
    let ghost jv = json_seq_view(xs@);
    proof {
        lemma_json_seq_view(xs@);
    }
    let mut cs: Vec<Condition> = Vec::new();
    let mut i: usize = 0;
    proof {
        assert(jv.take(0) =~= Seq::<JsonView>::empty());
        assert(conds_view(cs@) =~= Seq::<CondView>::empty());
    }
    while i < xs.len()
        invariant
            jv == json_seq_view(xs@),
            jv.len() == xs@.len(),
            forall|j: int| 0 <= j < xs@.len() ==> jv[j] == #[trigger] xs@[j]@,
            0 <= i <= xs@.len(),
            cs@.len() == i,
            parse_conds(jv.take(i as int)) == Some(conds_view(cs@)),
        decreases xs@.len() - i,
    {
        let ghost prev = cs@;
        proof {
            assert(jv.take(i + 1).drop_last() =~= jv.take(i as int));
            assert(jv.take(i + 1).last() == jv[i as int]);
            assert(decreases_to!(jv => jv[i as int]));
        }
        match Condition::from_json(&xs[i]) {
            Ok(c) => {
                cs.push(c);
                proof {
                    assert(cs@.drop_last() =~= prev);
                    assert(conds_view(cs@) == conds_view(prev).push(cs@.last()@));
                }
            },
            Err(e) => {
                proof {
                    lemma_parse_conds_none(jv, i + 1);
                }
                return Err(e);
            },
        }
        i = i + 1;
    }
    proof {
        assert(jv.take(xs@.len() as int) =~= jv);
    }
    Ok(cs)
}

impl Condition {
    /// Reads a condition tree back from its wire shape. The key sets are
    /// probed in the grammar's order; a document that fits none of them, or
    /// is malformed under the probed set, is rejected.
    pub fn from_json(v: &Json) -> (r: Result<Condition, ParseError>)
        ensures
            match r {
                Ok(c) => parse_cond(v@) == Some(c@),
                Err(_) => parse_cond(v@) == None::<CondView>,
            },
        decreases v@,
    {
        match v {
            Json::Object(fields) => {
                let ghost vfields = json_obj_view(fields@);
                proof {
                    assert(v@ == JsonView::Object(vfields));
                    lemma_obj_get_decreases(vfields, "and"@);
                    lemma_obj_get_decreases(vfields, "or"@);
                    lemma_obj_get_decreases(vfields, "conditions"@);
                    assert(decreases_to!(v@ => vfields));
                }
                if let Some(child) = obj_get_str(fields, "and") {
                    match child {
                        Json::Array(xs) => {
                            proof {
                                assert(child@ == JsonView::Array(json_seq_view(xs@)));
                                assert(decreases_to!(child@ => json_seq_view(xs@)));
                            }
                            match conds_from_json(xs) {
                                Ok(cs) => Ok(Condition::And { and: cs }),
                                Err(e) => Err(e),
                            }
                        },
                        _ => Err(ParseError),
                    }
                } else if let Some(child) = obj_get_str(fields, "or") {
                    match child {
                        Json::Array(xs) => {
                            proof {
                                assert(child@ == JsonView::Array(json_seq_view(xs@)));
                                assert(decreases_to!(child@ => json_seq_view(xs@)));
                            }
                            match conds_from_json(xs) {
                                Ok(cs) => Ok(Condition::Or { or: cs }),
                                Err(e) => Err(e),
                            }
                        },
                        _ => Err(ParseError),
                    }
                } else if let Some(nv) = obj_get_str(fields, "should_minimum_meet") {
                    match obj_get_str(fields, "conditions") {
                        Some(cv) => match (nv, cv) {
                            (Json::Int(n), Json::Array(xs)) => {
                                if *n < 0 {
                                    return Err(ParseError);
                                }
                                if (*n as u64) > (usize::MAX as u64) {
                                    return Err(ParseError);
                                }
                                let t = *n as usize;
                                proof {
                                    assert(cv@ == JsonView::Array(json_seq_view(xs@)));
                                    assert(decreases_to!(cv@ => json_seq_view(xs@)));
                                }
                                match conds_from_json(xs) {
                                    Ok(cs) => Ok(
                                        Condition::AtLeast {
                                            should_minimum_meet: t,
                                            conditions: cs,
                                        },
                                    ),
                                    Err(e) => Err(e),
                                }
                            },
                            _ => Err(ParseError),
                        },
                        None => Err(ParseError),
                    }
                } else {
                    let fv = obj_get_str(fields, "field");
                    let opv = obj_get_str(fields, "operator");
                    let vv = obj_get_str(fields, "value");
                    match (fv, opv, vv) {
                        (Some(f), Some(o), Some(val)) => match (f, o) {
                            (Json::Str(field), Json::Str(op)) => {
                                match Constraint::from_parts(op.as_str(), val) {
                                    Ok(k) => Ok(
                                        Condition::Condition {
                                            field: field.clone(),
                                            constraint: k,
                                        },
                                    ),
                                    Err(e) => Err(e),
                                }
                            },
                            _ => Err(ParseError),
                        },
                        _ => Err(ParseError),
                    }
                }
            },
            _ => Err(ParseError),
        }
    }
}

/// Reads a notification's parameters back.
fn params_from_json(v: &Json) -> (r: Result<EventParams, ParseError>)
    ensures
        match r {
            Ok(p) => parse_params(v@) == Some(p@),
            Err(_) => parse_params(v@) == None::<EventParamsView>,
        },
{
    match v {
        Json::Object(fields) => {
            let tv = obj_get_str(fields, "type");
            let iv = obj_get_str(fields, "title");
            let mv = obj_get_str(fields, "message");
            match (tv, iv, mv) {
                (Some(t), Some(ti), Some(m)) => match (t, ti, m) {
                    (Json::Str(a), Json::Str(b), Json::Str(c)) => Ok(
                        EventParams { ty: a.clone(), title: b.clone(), message: c.clone() },
                    ),
                    _ => Err(ParseError),
                },
                _ => Err(ParseError),
            }
        },
        _ => Err(ParseError),
    }
}

impl Event {
    /// Reads an event back from its tagged wire shape.
    pub fn from_json(v: &Json) -> (r: Result<Event, ParseError>)
        ensures
            match r {
                Ok(e) => parse_event(v@) == Some(e@),
                Err(_) => parse_event(v@) == None::<EventView>,
            },
    {
        match v {
            Json::Object(fields) => {
                let tv = obj_get_str(fields, "type");
                let pv = obj_get_str(fields, "params");
                match (tv, pv) {
                    (Some(t), Some(p)) => match t {
                        Json::Str(tag) => {
                            if crate::strutil::str_eq(tag.as_str(), "message") {
                                match params_from_json(p) {
                                    Ok(params) => Ok(Event::Message(params)),
                                    Err(e) => Err(e),
                                }
                            } else if crate::strutil::str_eq(tag.as_str(), "post_to_callback_url") {
                                match p {
                                    Json::Object(pfields) => {
                                        match obj_get_str(pfields, "callback_url") {
                                            Some(uv) => match uv {
                                                Json::Str(u) => match params_from_json(p) {
                                                    Ok(params) => Ok(
                                                        Event::PostToCallbackUrl {
                                                            callback_url: u.clone(),
                                                            params,
                                                        },
                                                    ),
                                                    Err(e) => Err(e),
                                                },
                                                _ => Err(ParseError),
                                            },
                                            None => Err(ParseError),
                                        }
                                    },
                                    _ => Err(ParseError),
                                }
                            } else {
                                Err(ParseError)
                            }
                        },
                        _ => Err(ParseError),
                    },
                    _ => Err(ParseError),
                }
            },
            _ => Err(ParseError),
        }
    }
}

impl Rule {
    /// Reads a rule back from its wire shape.
    pub fn from_json(v: &Json) -> (r: Result<Rule, ParseError>)
        ensures
            match r {
                Ok(ru) => parse_rule(v@) == Some(ru@),
                Err(_) => parse_rule(v@) == None::<RuleView>,
            },
    {
        match v {
            Json::Object(fields) => {
                let cv = obj_get_str(fields, "conditions");
                let ev = obj_get_str(fields, "event");
                match (cv, ev) {
                    (Some(c), Some(e)) => match Condition::from_json(c) {
                        Ok(conditions) => match Event::from_json(e) {
                            Ok(event) => Ok(Rule { conditions, event }),
                            Err(pe) => Err(pe),
                        },
                        Err(pe) => Err(pe),
                    },
                    _ => Err(ParseError),
                }
            },
            _ => Err(ParseError),
        }
    }
}

/// Whether a constraint's view has operands that fit the wire's 64-bit
/// integers. Every view of an executable constraint does.
pub open spec fn constraint_wf(k: ConstraintView) -> bool {
    match k {
        ConstraintView::StringEquals(_) => true,
        ConstraintView::StringNotEquals(_) => true,
        ConstraintView::StringIn(_) => true,
        ConstraintView::StringNotIn(_) => true,
        ConstraintView::IntEquals(n) => fits_i64(n),
        ConstraintView::IntNotEquals(n) => fits_i64(n),
        ConstraintView::IntIn(ns) => forall|i: int| 0 <= i < ns.len() ==> fits_i64(#[trigger] ns[i]),
        ConstraintView::IntNotIn(ns) => forall|i: int|
            0 <= i < ns.len() ==> fits_i64(#[trigger] ns[i]),
        ConstraintView::IntInRange(lo, hi) => fits_i64(lo) && fits_i64(hi),
        ConstraintView::IntNotInRange(lo, hi) => fits_i64(lo) && fits_i64(hi),
        ConstraintView::LessThan(n) => fits_i64(n),
        ConstraintView::LessThanInclusive(n) => fits_i64(n),
        ConstraintView::GreaterThan(n) => fits_i64(n),
        ConstraintView::GreaterThanInclusive(n) => fits_i64(n),
        ConstraintView::BoolEquals(_) => true,
    }
}

/// Whether a condition tree's view has integers the wire can carry back:
/// thresholds in the machine-word range and operands in the signed 64-bit
/// range. Every view of an executable condition does.
pub open spec fn cond_wf(c: CondView) -> bool
    decreases c,
{
    match c {
        CondView::And { and } => conds_wf(and),
        CondView::Or { or } => conds_wf(or),
        CondView::AtLeast { should_minimum_meet, conditions } => 0 <= should_minimum_meet
            <= usize::MAX as int && conds_wf(conditions),
        CondView::Condition { field, constraint } => constraint_wf(constraint),
    }
}

/// Element-wise [`cond_wf`].
pub open spec fn conds_wf(cs: Seq<CondView>) -> bool
    decreases cs,
{
    cs.len() == 0 || (conds_wf(cs.drop_last()) && cond_wf(cs.last()))
}

/// The view of any executable constraint is well formed.
pub proof fn lemma_constraint_view_wf(k: Constraint)
    ensures
        constraint_wf(k@),
{
    match k {
        Constraint::IntIn(ns) => {
            let m = ns@.map_values(|x: i64| x as int);
            assert forall|i: int| 0 <= i < m.len() implies fits_i64(#[trigger] m[i]) by {
                assert(m[i] == ns@[i] as int);
            }
        },
        Constraint::IntNotIn(ns) => {
            let m = ns@.map_values(|x: i64| x as int);
            assert forall|i: int| 0 <= i < m.len() implies fits_i64(#[trigger] m[i]) by {
                assert(m[i] == ns@[i] as int);
            }
        },
        _ => {
        },
    }
}

/// The view of any executable condition tree is well formed.
pub proof fn lemma_condition_view_wf(c: Condition)
    ensures
        cond_wf(c@),
    decreases c,
{
    match c {
        Condition::And { and } => {
            lemma_conditions_view_wf(and@);
        },
        Condition::Or { or } => {
            lemma_conditions_view_wf(or@);
        },
        Condition::AtLeast { should_minimum_meet, conditions } => {
            lemma_conditions_view_wf(conditions@);
        },
        Condition::Condition { field, constraint } => {
            lemma_constraint_view_wf(constraint);
        },
    }
}

/// Element-wise [`lemma_condition_view_wf`].
proof fn lemma_conditions_view_wf(cs: Seq<Condition>)
    ensures
        conds_wf(conds_view(cs)),
    decreases cs,
{
    if cs.len() > 0 {
        lemma_conditions_view_wf(cs.drop_last());
        lemma_condition_view_wf(cs.last());
        assert(conds_view(cs).drop_last() =~= conds_view(cs.drop_last()));
        assert(conds_view(cs).last() == cs.last()@);
    }
}

/// A list of text operands reads back unchanged.
proof fn lemma_str_list_round_trip(ss: Seq<Seq<char>>)
    ensures
        parse_str_list(ss.map_values(|s: Seq<char>| JsonView::Str(s))) == Some(ss),
    decreases ss.len(),
{
    let m = ss.map_values(|s: Seq<char>| JsonView::Str(s));
    if ss.len() == 0 {
        assert(m.len() == 0);
        assert(Seq::<Seq<char>>::empty() =~= ss);
    } else {
        lemma_str_list_round_trip(ss.drop_last());
        assert(m.drop_last() =~= ss.drop_last().map_values(|s: Seq<char>| JsonView::Str(s)));
        assert(m.last() == JsonView::Str(ss.last()));
        assert(ss.drop_last().push(ss.last()) =~= ss);
    }
}

/// A list of integer operands in range reads back unchanged.
proof fn lemma_int_list_round_trip(ns: Seq<int>)
    requires
        forall|i: int| 0 <= i < ns.len() ==> fits_i64(#[trigger] ns[i]),
    ensures
        parse_int_list(ns.map_values(|n: int| JsonView::Int(n))) == Some(ns),
    decreases ns.len(),
{
    let m = ns.map_values(|n: int| JsonView::Int(n));
    if ns.len() == 0 {
        assert(m.len() == 0);
        assert(Seq::<int>::empty() =~= ns);
    } else {
        assert(forall|i: int|
            0 <= i < ns.len() - 1 ==> #[trigger] ns.drop_last()[i] == ns[i]);
        lemma_int_list_round_trip(ns.drop_last());
        assert(m.drop_last() =~= ns.drop_last().map_values(|n: int| JsonView::Int(n)));
        assert(m.last() == JsonView::Int(ns.last()));
        assert(ns.last() == ns[ns.len() - 1]);
        assert(ns.drop_last().push(ns.last()) =~= ns);
    }
}

/// Round trip of one operator's wire form.
proof fn lemma_rt_string_equals(s: Seq<char>)
    ensures
        parse_constraint(constraint_op_name(ConstraintView::StringEquals(s)), constraint_value_json(ConstraintView::StringEquals(s))) == Some(
            ConstraintView::StringEquals(s),
        ),
{
    reveal_strlit("string_equals");
    assert("string_equals"@.len() == 13);
}

/// Round trip of one operator's wire form.
proof fn lemma_rt_string_not_equals(s: Seq<char>)
    ensures
        parse_constraint(constraint_op_name(ConstraintView::StringNotEquals(s)), constraint_value_json(ConstraintView::StringNotEquals(s))) == Some(
            ConstraintView::StringNotEquals(s),
        ),
{
    reveal_strlit("string_equals");
    reveal_strlit("string_not_equals");
    assert("string_equals"@.len() == 13);
    assert("string_not_equals"@.len() == 17);
}

/// Round trip of one operator's wire form.
proof fn lemma_rt_string_in(ss: Seq<Seq<char>>)
    ensures
        parse_constraint(constraint_op_name(ConstraintView::StringIn(ss)), constraint_value_json(ConstraintView::StringIn(ss))) == Some(
            ConstraintView::StringIn(ss),
        ),
{
    reveal_strlit("string_equals");
    reveal_strlit("string_not_equals");
    reveal_strlit("string_in");
    assert("string_equals"@.len() == 13);
    assert("string_not_equals"@.len() == 17);
    assert("string_in"@.len() == 9);
    lemma_str_list_round_trip(ss);
}

/// Round trip of one operator's wire form.
proof fn lemma_rt_string_not_in(ss: Seq<Seq<char>>)
    ensures
        parse_constraint(constraint_op_name(ConstraintView::StringNotIn(ss)), constraint_value_json(ConstraintView::StringNotIn(ss))) == Some(
            ConstraintView::StringNotIn(ss),
        ),
{
    reveal_strlit("string_equals");
    reveal_strlit("string_not_equals");
    reveal_strlit("string_in");
    reveal_strlit("string_not_in");
    assert("string_equals"@.len() == 13);
    assert("string_not_equals"@.len() == 17);
    assert("string_in"@.len() == 9);
    assert("string_not_in"@.len() == 13);
    assert("string_not_in"@[7] == 'n');
    assert("string_equals"@[7] == 'e');
    lemma_str_list_round_trip(ss);
}

/// Round trip of one operator's wire form.
proof fn lemma_rt_int_equals(n: int)
    requires
        fits_i64(n),
    ensures
        parse_constraint(constraint_op_name(ConstraintView::IntEquals(n)), constraint_value_json(ConstraintView::IntEquals(n))) == Some(
            ConstraintView::IntEquals(n),
        ),
{
    reveal_strlit("string_equals");
    reveal_strlit("string_not_equals");
    reveal_strlit("string_in");
    reveal_strlit("string_not_in");
    reveal_strlit("int_equals");
    assert("string_equals"@.len() == 13);
    assert("string_not_equals"@.len() == 17);
    assert("string_in"@.len() == 9);
    assert("string_not_in"@.len() == 13);
    assert("int_equals"@.len() == 10);
}

/// Round trip of one operator's wire form.
proof fn lemma_rt_int_not_equals(n: int)
    requires
        fits_i64(n),
    ensures
        parse_constraint(constraint_op_name(ConstraintView::IntNotEquals(n)), constraint_value_json(ConstraintView::IntNotEquals(n))) == Some(
            ConstraintView::IntNotEquals(n),
        ),
{
    reveal_strlit("string_equals");
    reveal_strlit("string_not_equals");
    reveal_strlit("string_in");
    reveal_strlit("string_not_in");
    reveal_strlit("int_equals");
    reveal_strlit("int_not_equals");
    assert("string_equals"@.len() == 13);
    assert("string_not_equals"@.len() == 17);
    assert("string_in"@.len() == 9);
    assert("string_not_in"@.len() == 13);
    assert("int_equals"@.len() == 10);
    assert("int_not_equals"@.len() == 14);
}

/// Round trip of one operator's wire form.
proof fn lemma_rt_int_in(ns: Seq<int>)
    requires
        forall|i: int| 0 <= i < ns.len() ==> fits_i64(#[trigger] ns[i]),
    ensures
        parse_constraint(constraint_op_name(ConstraintView::IntIn(ns)), constraint_value_json(ConstraintView::IntIn(ns))) == Some(
            ConstraintView::IntIn(ns),
        ),
{
    reveal_strlit("string_equals");
    reveal_strlit("string_not_equals");
    reveal_strlit("string_in");
    reveal_strlit("string_not_in");
    reveal_strlit("int_equals");
    reveal_strlit("int_not_equals");
    reveal_strlit("int_in");
    assert("string_equals"@.len() == 13);
    assert("string_not_equals"@.len() == 17);
    assert("string_in"@.len() == 9);
    assert("string_not_in"@.len() == 13);
    assert("int_equals"@.len() == 10);
    assert("int_not_equals"@.len() == 14);
    assert("int_in"@.len() == 6);
    lemma_int_list_round_trip(ns);
}

/// Round trip of one operator's wire form.
proof fn lemma_rt_int_not_in(ns: Seq<int>)
    requires
        forall|i: int| 0 <= i < ns.len() ==> fits_i64(#[trigger] ns[i]),
    ensures
        parse_constraint(constraint_op_name(ConstraintView::IntNotIn(ns)), constraint_value_json(ConstraintView::IntNotIn(ns))) == Some(
            ConstraintView::IntNotIn(ns),
        ),
{
    reveal_strlit("string_equals");
    reveal_strlit("string_not_equals");
    reveal_strlit("string_in");
    reveal_strlit("string_not_in");
    reveal_strlit("int_equals");
    reveal_strlit("int_not_equals");
    reveal_strlit("int_in");
    reveal_strlit("int_not_in");
    assert("string_equals"@.len() == 13);
    assert("string_not_equals"@.len() == 17);
    assert("string_in"@.len() == 9);
    assert("string_not_in"@.len() == 13);
    assert("int_equals"@.len() == 10);
    assert("int_not_equals"@.len() == 14);
    assert("int_in"@.len() == 6);
    assert("int_not_in"@.len() == 10);
    assert("int_not_in"@[4] == 'n');
    assert("int_equals"@[4] == 'e');
    lemma_int_list_round_trip(ns);
}

/// Round trip of one operator's wire form.
proof fn lemma_rt_int_in_range(lo: int, hi: int)
    requires
        fits_i64(lo) && fits_i64(hi),
    ensures
        parse_constraint(constraint_op_name(ConstraintView::IntInRange(lo, hi)), constraint_value_json(ConstraintView::IntInRange(lo, hi))) == Some(
            ConstraintView::IntInRange(lo, hi),
        ),
{
    reveal_strlit("string_equals");
    reveal_strlit("string_not_equals");
    reveal_strlit("string_in");
    reveal_strlit("string_not_in");
    reveal_strlit("int_equals");
    reveal_strlit("int_not_equals");
    reveal_strlit("int_in");
    reveal_strlit("int_not_in");
    reveal_strlit("int_in_range");
    assert("string_equals"@.len() == 13);
    assert("string_not_equals"@.len() == 17);
    assert("string_in"@.len() == 9);
    assert("string_not_in"@.len() == 13);
    assert("int_equals"@.len() == 10);
    assert("int_not_equals"@.len() == 14);
    assert("int_in"@.len() == 6);
    assert("int_not_in"@.len() == 10);
    assert("int_in_range"@.len() == 12);
    let k = ConstraintView::IntInRange(lo, hi);
    let v = constraint_value_json(k);
    assert(v->Array_0.len() == 2);
    assert(v->Array_0[0] == JsonView::Int(lo));
    assert(v->Array_0[1] == JsonView::Int(hi));
}

/// Round trip of one operator's wire form.
proof fn lemma_rt_int_not_in_range(lo: int, hi: int)
    requires
        fits_i64(lo) && fits_i64(hi),
    ensures
        parse_constraint(constraint_op_name(ConstraintView::IntNotInRange(lo, hi)), constraint_value_json(ConstraintView::IntNotInRange(lo, hi))) == Some(
            ConstraintView::IntNotInRange(lo, hi),
        ),
{
    reveal_strlit("string_equals");
    reveal_strlit("string_not_equals");
    reveal_strlit("string_in");
    reveal_strlit("string_not_in");
    reveal_strlit("int_equals");
    reveal_strlit("int_not_equals");
    reveal_strlit("int_in");
    reveal_strlit("int_not_in");
    reveal_strlit("int_in_range");
    reveal_strlit("int_not_in_range");
    assert("string_equals"@.len() == 13);
    assert("string_not_equals"@.len() == 17);
    assert("string_in"@.len() == 9);
    assert("string_not_in"@.len() == 13);
    assert("int_equals"@.len() == 10);
    assert("int_not_equals"@.len() == 14);
    assert("int_in"@.len() == 6);
    assert("int_not_in"@.len() == 10);
    assert("int_in_range"@.len() == 12);
    assert("int_not_in_range"@.len() == 16);
    let k = ConstraintView::IntNotInRange(lo, hi);
    let v = constraint_value_json(k);
    assert(v->Array_0.len() == 2);
    assert(v->Array_0[0] == JsonView::Int(lo));
    assert(v->Array_0[1] == JsonView::Int(hi));
}

/// Round trip of one operator's wire form.
proof fn lemma_rt_less_than(n: int)
    requires
        fits_i64(n),
    ensures
        parse_constraint(constraint_op_name(ConstraintView::LessThan(n)), constraint_value_json(ConstraintView::LessThan(n))) == Some(
            ConstraintView::LessThan(n),
        ),
{
    reveal_strlit("string_equals");
    reveal_strlit("string_not_equals");
    reveal_strlit("string_in");
    reveal_strlit("string_not_in");
    reveal_strlit("int_equals");
    reveal_strlit("int_not_equals");
    reveal_strlit("int_in");
    reveal_strlit("int_not_in");
    reveal_strlit("int_in_range");
    reveal_strlit("int_not_in_range");
    reveal_strlit("less_than");
    assert("string_equals"@.len() == 13);
    assert("string_not_equals"@.len() == 17);
    assert("string_in"@.len() == 9);
    assert("string_not_in"@.len() == 13);
    assert("int_equals"@.len() == 10);
    assert("int_not_equals"@.len() == 14);
    assert("int_in"@.len() == 6);
    assert("int_not_in"@.len() == 10);
    assert("int_in_range"@.len() == 12);
    assert("int_not_in_range"@.len() == 16);
    assert("less_than"@.len() == 9);
    assert("less_than"@[0] == 'l');
    assert("string_in"@[0] == 's');
}

/// Round trip of one operator's wire form.
proof fn lemma_rt_less_than_inclusive(n: int)
    requires
        fits_i64(n),
    ensures
        parse_constraint(constraint_op_name(ConstraintView::LessThanInclusive(n)), constraint_value_json(ConstraintView::LessThanInclusive(n))) == Some(
            ConstraintView::LessThanInclusive(n),
        ),
{
    reveal_strlit("string_equals");
    reveal_strlit("string_not_equals");
    reveal_strlit("string_in");
    reveal_strlit("string_not_in");
    reveal_strlit("int_equals");
    reveal_strlit("int_not_equals");
    reveal_strlit("int_in");
    reveal_strlit("int_not_in");
    reveal_strlit("int_in_range");
    reveal_strlit("int_not_in_range");
    reveal_strlit("less_than");
    reveal_strlit("less_than_inclusive");
    assert("string_equals"@.len() == 13);
    assert("string_not_equals"@.len() == 17);
    assert("string_in"@.len() == 9);
    assert("string_not_in"@.len() == 13);
    assert("int_equals"@.len() == 10);
    assert("int_not_equals"@.len() == 14);
    assert("int_in"@.len() == 6);
    assert("int_not_in"@.len() == 10);
    assert("int_in_range"@.len() == 12);
    assert("int_not_in_range"@.len() == 16);
    assert("less_than"@.len() == 9);
    assert("less_than_inclusive"@.len() == 19);
}

/// Round trip of one operator's wire form.
proof fn lemma_rt_greater_than(n: int)
    requires
        fits_i64(n),
    ensures
        parse_constraint(constraint_op_name(ConstraintView::GreaterThan(n)), constraint_value_json(ConstraintView::GreaterThan(n))) == Some(
            ConstraintView::GreaterThan(n),
        ),
{
    reveal_strlit("string_equals");
    reveal_strlit("string_not_equals");
    reveal_strlit("string_in");
    reveal_strlit("string_not_in");
    reveal_strlit("int_equals");
    reveal_strlit("int_not_equals");
    reveal_strlit("int_in");
    reveal_strlit("int_not_in");
    reveal_strlit("int_in_range");
    reveal_strlit("int_not_in_range");
    reveal_strlit("less_than");
    reveal_strlit("less_than_inclusive");
    reveal_strlit("greater_than");
    assert("string_equals"@.len() == 13);
    assert("string_not_equals"@.len() == 17);
    assert("string_in"@.len() == 9);
    assert("string_not_in"@.len() == 13);
    assert("int_equals"@.len() == 10);
    assert("int_not_equals"@.len() == 14);
    assert("int_in"@.len() == 6);
    assert("int_not_in"@.len() == 10);
    assert("int_in_range"@.len() == 12);
    assert("int_not_in_range"@.len() == 16);
    assert("less_than"@.len() == 9);
    assert("less_than_inclusive"@.len() == 19);
    assert("greater_than"@.len() == 12);
    assert("greater_than"@[0] == 'g');
    assert("int_in_range"@[0] == 'i');
}

/// Round trip of one operator's wire form.
proof fn lemma_rt_greater_than_inclusive(n: int)
    requires
        fits_i64(n),
    ensures
        parse_constraint(constraint_op_name(ConstraintView::GreaterThanInclusive(n)), constraint_value_json(ConstraintView::GreaterThanInclusive(n))) == Some(
            ConstraintView::GreaterThanInclusive(n),
        ),
{
    reveal_strlit("string_equals");
    reveal_strlit("string_not_equals");
    reveal_strlit("string_in");
    reveal_strlit("string_not_in");
    reveal_strlit("int_equals");
    reveal_strlit("int_not_equals");
    reveal_strlit("int_in");
    reveal_strlit("int_not_in");
    reveal_strlit("int_in_range");
    reveal_strlit("int_not_in_range");
    reveal_strlit("less_than");
    reveal_strlit("less_than_inclusive");
    reveal_strlit("greater_than");
    reveal_strlit("greater_than_inclusive");
    assert("string_equals"@.len() == 13);
    assert("string_not_equals"@.len() == 17);
    assert("string_in"@.len() == 9);
    assert("string_not_in"@.len() == 13);
    assert("int_equals"@.len() == 10);
    assert("int_not_equals"@.len() == 14);
    assert("int_in"@.len() == 6);
    assert("int_not_in"@.len() == 10);
    assert("int_in_range"@.len() == 12);
    assert("int_not_in_range"@.len() == 16);
    assert("less_than"@.len() == 9);
    assert("less_than_inclusive"@.len() == 19);
    assert("greater_than"@.len() == 12);
    assert("greater_than_inclusive"@.len() == 22);
}

/// Round trip of one operator's wire form.
proof fn lemma_rt_bool_equals(b: bool)
    ensures
        parse_constraint(constraint_op_name(ConstraintView::BoolEquals(b)), constraint_value_json(ConstraintView::BoolEquals(b))) == Some(
            ConstraintView::BoolEquals(b),
        ),
{
    reveal_strlit("string_equals");
    reveal_strlit("string_not_equals");
    reveal_strlit("string_in");
    reveal_strlit("string_not_in");
    reveal_strlit("int_equals");
    reveal_strlit("int_not_equals");
    reveal_strlit("int_in");
    reveal_strlit("int_not_in");
    reveal_strlit("int_in_range");
    reveal_strlit("int_not_in_range");
    reveal_strlit("less_than");
    reveal_strlit("less_than_inclusive");
    reveal_strlit("greater_than");
    reveal_strlit("greater_than_inclusive");
    reveal_strlit("bool_equals");
    assert("string_equals"@.len() == 13);
    assert("string_not_equals"@.len() == 17);
    assert("string_in"@.len() == 9);
    assert("string_not_in"@.len() == 13);
    assert("int_equals"@.len() == 10);
    assert("int_not_equals"@.len() == 14);
    assert("int_in"@.len() == 6);
    assert("int_not_in"@.len() == 10);
    assert("int_in_range"@.len() == 12);
    assert("int_not_in_range"@.len() == 16);
    assert("less_than"@.len() == 9);
    assert("less_than_inclusive"@.len() == 19);
    assert("greater_than"@.len() == 12);
    assert("greater_than_inclusive"@.len() == 22);
    assert("bool_equals"@.len() == 11);
}

/// A constraint writes out and reads back unchanged.
proof fn lemma_constraint_round_trip(k: ConstraintView)
    requires
        constraint_wf(k),
    ensures
        parse_constraint(constraint_op_name(k), constraint_value_json(k)) == Some(k),
{
    match k {
        ConstraintView::StringEquals(s) => {
            lemma_rt_string_equals(s);
        },
        ConstraintView::StringNotEquals(s) => {
            lemma_rt_string_not_equals(s);
        },
        ConstraintView::StringIn(ss) => {
            lemma_rt_string_in(ss);
        },
        ConstraintView::StringNotIn(ss) => {
            lemma_rt_string_not_in(ss);
        },
        ConstraintView::IntEquals(n) => {
            lemma_rt_int_equals(n);
        },
        ConstraintView::IntNotEquals(n) => {
            lemma_rt_int_not_equals(n);
        },
        ConstraintView::IntIn(ns) => {
            lemma_rt_int_in(ns);
        },
        ConstraintView::IntNotIn(ns) => {
            lemma_rt_int_not_in(ns);
        },
        ConstraintView::IntInRange(lo, hi) => {
            lemma_rt_int_in_range(lo, hi);
        },
        ConstraintView::IntNotInRange(lo, hi) => {
            lemma_rt_int_not_in_range(lo, hi);
        },
        ConstraintView::LessThan(n) => {
            lemma_rt_less_than(n);
        },
        ConstraintView::LessThanInclusive(n) => {
            lemma_rt_less_than_inclusive(n);
        },
        ConstraintView::GreaterThan(n) => {
            lemma_rt_greater_than(n);
        },
        ConstraintView::GreaterThanInclusive(n) => {
            lemma_rt_greater_than_inclusive(n);
        },
        ConstraintView::BoolEquals(b) => {
            lemma_rt_bool_equals(b);
        },
    }
}

/// Unfolds `obj_get` over a two-entry object.
proof fn lemma_obj_get2(e0: (Seq<char>, JsonView), e1: (Seq<char>, JsonView), key: Seq<char>)
    ensures
        obj_get(seq![e0, e1], key) == if e0.0 == key {
            Some(e0.1)
        } else if e1.0 == key {
            Some(e1.1)
        } else {
            None
        },
{
    assert(seq![e0, e1].skip(1) =~= seq![e1]);
    lemma_obj_get1(e1, key);
}

/// Unfolds `obj_get` over a three-entry object.
proof fn lemma_obj_get3(
    e0: (Seq<char>, JsonView),
    e1: (Seq<char>, JsonView),
    e2: (Seq<char>, JsonView),
    key: Seq<char>,
)
    ensures
        obj_get(seq![e0, e1, e2], key) == if e0.0 == key {
            Some(e0.1)
        } else if e1.0 == key {
            Some(e1.1)
        } else if e2.0 == key {
            Some(e2.1)
        } else {
            None
        },
{
    assert(seq![e0, e1, e2].skip(1) =~= seq![e1, e2]);
    lemma_obj_get2(e1, e2, key);
}

/// Unfolds `obj_get` over a four-entry object.
proof fn lemma_obj_get4(
    e0: (Seq<char>, JsonView),
    e1: (Seq<char>, JsonView),
    e2: (Seq<char>, JsonView),
    e3: (Seq<char>, JsonView),
    key: Seq<char>,
)
    ensures
        obj_get(seq![e0, e1, e2, e3], key) == if e0.0 == key {
            Some(e0.1)
        } else if e1.0 == key {
            Some(e1.1)
        } else if e2.0 == key {
            Some(e2.1)
        } else if e3.0 == key {
            Some(e3.1)
        } else {
            None
        },
{
    assert(seq![e0, e1, e2, e3].skip(1) =~= seq![e1, e2, e3]);
    lemma_obj_get3(e1, e2, e3, key);
}

/// Unfolds `obj_get` over a one-entry object.
proof fn lemma_obj_get1(e0: (Seq<char>, JsonView), key: Seq<char>)
    ensures
        obj_get(seq![e0], key) == if e0.0 == key {
            Some(e0.1)
        } else {
            None
        },
{
    assert(seq![e0].skip(1) =~= Seq::<(Seq<char>, JsonView)>::empty());
    assert(obj_get(Seq::<(Seq<char>, JsonView)>::empty(), key) == None::<JsonView>);
}

/// A condition tree with a well-formed view writes out and reads back
/// unchanged — so the re-parsed tree evaluates exactly as the original
/// against any payload.
pub proof fn lemma_condition_round_trip(c: CondView)
    requires
        cond_wf(c),
    ensures
        parse_cond(cond_to_json(c)) == Some(c),
    decreases c,
{
    reveal_strlit("and");
    reveal_strlit("or");
    reveal_strlit("should_minimum_meet");
    reveal_strlit("conditions");
    reveal_strlit("field");
    reveal_strlit("operator");
    reveal_strlit("value");
    assert("and"@.len() == 3);
    assert("or"@.len() == 2);
    assert("should_minimum_meet"@.len() == 19);
    assert("conditions"@.len() == 10);
    assert("field"@.len() == 5);
    assert("operator"@.len() == 8);
    assert("value"@.len() == 5);
    assert("field"@[0] == 'f');
    assert("value"@[0] == 'v');
    match c {
        CondView::And { and } => {
            let e0 = ("and"@, JsonView::Array(conds_to_json(and)));
            lemma_obj_get1(e0, "and"@);
            lemma_conds_round_trip(and);
        },
        CondView::Or { or } => {
            let e0 = ("or"@, JsonView::Array(conds_to_json(or)));
            lemma_obj_get1(e0, "and"@);
            lemma_obj_get1(e0, "or"@);
            lemma_conds_round_trip(or);
        },
        CondView::AtLeast { should_minimum_meet, conditions } => {
            let e0 = ("should_minimum_meet"@, JsonView::Int(should_minimum_meet));
            let e1 = ("conditions"@, JsonView::Array(conds_to_json(conditions)));
            lemma_obj_get2(e0, e1, "and"@);
            lemma_obj_get2(e0, e1, "or"@);
            lemma_obj_get2(e0, e1, "should_minimum_meet"@);
            lemma_obj_get2(e0, e1, "conditions"@);
            lemma_conds_round_trip(conditions);
        },
        CondView::Condition { field, constraint } => {
            let e0 = ("field"@, JsonView::Str(field));
            let e1 = ("operator"@, JsonView::Str(constraint_op_name(constraint)));
            let e2 = ("value"@, constraint_value_json(constraint));
            lemma_obj_get3(e0, e1, e2, "and"@);
            lemma_obj_get3(e0, e1, e2, "or"@);
            lemma_obj_get3(e0, e1, e2, "should_minimum_meet"@);
            lemma_obj_get3(e0, e1, e2, "field"@);
            lemma_obj_get3(e0, e1, e2, "operator"@);
            lemma_obj_get3(e0, e1, e2, "value"@);
            lemma_constraint_op_name_not_key(constraint);
            lemma_constraint_round_trip(constraint);
        },
    }
}

/// No operator name collides with the grammar's structural keys.
proof fn lemma_constraint_op_name_not_key(k: ConstraintView)
    ensures
        constraint_op_name(k) != "and"@,
        constraint_op_name(k) != "or"@,
        constraint_op_name(k) != "should_minimum_meet"@,
{
    match k {
        ConstraintView::StringEquals(_) => {
            assert(constraint_op_name(k) != "and"@ && constraint_op_name(k) != "or"@
                && constraint_op_name(k) != "should_minimum_meet"@) by {
                reveal_strlit("and");
                reveal_strlit("or");
                reveal_strlit("should_minimum_meet");
                reveal_strlit("string_equals");
                assert("and"@.len() == 3);
                assert("or"@.len() == 2);
                assert("should_minimum_meet"@.len() == 19);
                assert("string_equals"@.len() == 13);
            }
        },
        ConstraintView::StringNotEquals(_) => {
            assert(constraint_op_name(k) != "and"@ && constraint_op_name(k) != "or"@
                && constraint_op_name(k) != "should_minimum_meet"@) by {
                reveal_strlit("and");
                reveal_strlit("or");
                reveal_strlit("should_minimum_meet");
                reveal_strlit("string_not_equals");
                assert("and"@.len() == 3);
                assert("or"@.len() == 2);
                assert("should_minimum_meet"@.len() == 19);
                assert("string_not_equals"@.len() == 17);
            }
        },
        ConstraintView::StringIn(_) => {
            assert(constraint_op_name(k) != "and"@ && constraint_op_name(k) != "or"@
                && constraint_op_name(k) != "should_minimum_meet"@) by {
                reveal_strlit("and");
                reveal_strlit("or");
                reveal_strlit("should_minimum_meet");
                reveal_strlit("string_in");
                assert("and"@.len() == 3);
                assert("or"@.len() == 2);
                assert("should_minimum_meet"@.len() == 19);
                assert("string_in"@.len() == 9);
            }
        },
        ConstraintView::StringNotIn(_) => {
            assert(constraint_op_name(k) != "and"@ && constraint_op_name(k) != "or"@
                && constraint_op_name(k) != "should_minimum_meet"@) by {
                reveal_strlit("and");
                reveal_strlit("or");
                reveal_strlit("should_minimum_meet");
                reveal_strlit("string_not_in");
                assert("and"@.len() == 3);
                assert("or"@.len() == 2);
                assert("should_minimum_meet"@.len() == 19);
                assert("string_not_in"@.len() == 13);
            }
        },
        ConstraintView::IntEquals(_) => {
            assert(constraint_op_name(k) != "and"@ && constraint_op_name(k) != "or"@
                && constraint_op_name(k) != "should_minimum_meet"@) by {
                reveal_strlit("and");
                reveal_strlit("or");
                reveal_strlit("should_minimum_meet");
                reveal_strlit("int_equals");
                assert("and"@.len() == 3);
                assert("or"@.len() == 2);
                assert("should_minimum_meet"@.len() == 19);
                assert("int_equals"@.len() == 10);
            }
        },
        ConstraintView::IntNotEquals(_) => {
            assert(constraint_op_name(k) != "and"@ && constraint_op_name(k) != "or"@
                && constraint_op_name(k) != "should_minimum_meet"@) by {
                reveal_strlit("and");
                reveal_strlit("or");
                reveal_strlit("should_minimum_meet");
                reveal_strlit("int_not_equals");
                assert("and"@.len() == 3);
                assert("or"@.len() == 2);
                assert("should_minimum_meet"@.len() == 19);
                assert("int_not_equals"@.len() == 14);
            }
        },
        ConstraintView::IntIn(_) => {
            assert(constraint_op_name(k) != "and"@ && constraint_op_name(k) != "or"@
                && constraint_op_name(k) != "should_minimum_meet"@) by {
                reveal_strlit("and");
                reveal_strlit("or");
                reveal_strlit("should_minimum_meet");
                reveal_strlit("int_in");
                assert("and"@.len() == 3);
                assert("or"@.len() == 2);
                assert("should_minimum_meet"@.len() == 19);
                assert("int_in"@.len() == 6);
            }
        },
        ConstraintView::IntNotIn(_) => {
            assert(constraint_op_name(k) != "and"@ && constraint_op_name(k) != "or"@
                && constraint_op_name(k) != "should_minimum_meet"@) by {
                reveal_strlit("and");
                reveal_strlit("or");
                reveal_strlit("should_minimum_meet");
                reveal_strlit("int_not_in");
                assert("and"@.len() == 3);
                assert("or"@.len() == 2);
                assert("should_minimum_meet"@.len() == 19);
                assert("int_not_in"@.len() == 10);
            }
        },
        ConstraintView::IntInRange(_, _) => {
            assert(constraint_op_name(k) != "and"@ && constraint_op_name(k) != "or"@
                && constraint_op_name(k) != "should_minimum_meet"@) by {
                reveal_strlit("and");
                reveal_strlit("or");
                reveal_strlit("should_minimum_meet");
                reveal_strlit("int_in_range");
                assert("and"@.len() == 3);
                assert("or"@.len() == 2);
                assert("should_minimum_meet"@.len() == 19);
                assert("int_in_range"@.len() == 12);
            }
        },
        ConstraintView::IntNotInRange(_, _) => {
            assert(constraint_op_name(k) != "and"@ && constraint_op_name(k) != "or"@
                && constraint_op_name(k) != "should_minimum_meet"@) by {
                reveal_strlit("and");
                reveal_strlit("or");
                reveal_strlit("should_minimum_meet");
                reveal_strlit("int_not_in_range");
                assert("and"@.len() == 3);
                assert("or"@.len() == 2);
                assert("should_minimum_meet"@.len() == 19);
                assert("int_not_in_range"@.len() == 16);
            }
        },
        ConstraintView::LessThan(_) => {
            assert(constraint_op_name(k) != "and"@ && constraint_op_name(k) != "or"@
                && constraint_op_name(k) != "should_minimum_meet"@) by {
                reveal_strlit("and");
                reveal_strlit("or");
                reveal_strlit("should_minimum_meet");
                reveal_strlit("less_than");
                assert("and"@.len() == 3);
                assert("or"@.len() == 2);
                assert("should_minimum_meet"@.len() == 19);
                assert("less_than"@.len() == 9);
            }
        },
        ConstraintView::LessThanInclusive(_) => {
            assert(constraint_op_name(k) != "and"@ && constraint_op_name(k) != "or"@
                && constraint_op_name(k) != "should_minimum_meet"@) by {
                reveal_strlit("and");
                reveal_strlit("or");
                reveal_strlit("should_minimum_meet");
                reveal_strlit("less_than_inclusive");
                assert("and"@.len() == 3);
                assert("or"@.len() == 2);
                assert("should_minimum_meet"@.len() == 19);
                assert("less_than_inclusive"@.len() == 19);
                assert("less_than_inclusive"@[0] == 'l');
                assert("should_minimum_meet"@[0] == 's');
            }
        },
        ConstraintView::GreaterThan(_) => {
            assert(constraint_op_name(k) != "and"@ && constraint_op_name(k) != "or"@
                && constraint_op_name(k) != "should_minimum_meet"@) by {
                reveal_strlit("and");
                reveal_strlit("or");
                reveal_strlit("should_minimum_meet");
                reveal_strlit("greater_than");
                assert("and"@.len() == 3);
                assert("or"@.len() == 2);
                assert("should_minimum_meet"@.len() == 19);
                assert("greater_than"@.len() == 12);
            }
        },
        ConstraintView::GreaterThanInclusive(_) => {
            assert(constraint_op_name(k) != "and"@ && constraint_op_name(k) != "or"@
                && constraint_op_name(k) != "should_minimum_meet"@) by {
                reveal_strlit("and");
                reveal_strlit("or");
                reveal_strlit("should_minimum_meet");
                reveal_strlit("greater_than_inclusive");
                assert("and"@.len() == 3);
                assert("or"@.len() == 2);
                assert("should_minimum_meet"@.len() == 19);
                assert("greater_than_inclusive"@.len() == 22);
            }
        },
        ConstraintView::BoolEquals(_) => {
            assert(constraint_op_name(k) != "and"@ && constraint_op_name(k) != "or"@
                && constraint_op_name(k) != "should_minimum_meet"@) by {
                reveal_strlit("and");
                reveal_strlit("or");
                reveal_strlit("should_minimum_meet");
                reveal_strlit("bool_equals");
                assert("and"@.len() == 3);
                assert("or"@.len() == 2);
                assert("should_minimum_meet"@.len() == 19);
                assert("bool_equals"@.len() == 11);
            }
        },
    }
}

/// Element-wise [`lemma_condition_round_trip`].
proof fn lemma_conds_round_trip(cs: Seq<CondView>)
    requires
        conds_wf(cs),
    ensures
        parse_conds(conds_to_json(cs)) == Some(cs),
    decreases cs,
{
    let m = conds_to_json(cs);
    if cs.len() == 0 {
        assert(m.len() == 0);
        assert(Seq::<CondView>::empty() =~= cs);
    } else {
        lemma_conds_round_trip(cs.drop_last());
        lemma_condition_round_trip(cs.last());
        assert(m.drop_last() =~= conds_to_json(cs.drop_last()));
        assert(m.last() == cond_to_json(cs.last()));
        assert(cs.drop_last().push(cs.last()) =~= cs);
    }
}

/// A notification's parameters write out and read back unchanged.
proof fn lemma_params_round_trip(p: EventParamsView)
    ensures
        parse_params(params_to_json(p)) == Some(p),
{
    reveal_strlit("type");
    reveal_strlit("title");
    reveal_strlit("message");
    assert("type"@.len() == 4);
    assert("title"@.len() == 5);
    assert("message"@.len() == 7);
    let e0 = ("type"@, JsonView::Str(p.ty));
    let e1 = ("title"@, JsonView::Str(p.title));
    let e2 = ("message"@, JsonView::Str(p.message));
    lemma_obj_get3(e0, e1, e2, "type"@);
    lemma_obj_get3(e0, e1, e2, "title"@);
    lemma_obj_get3(e0, e1, e2, "message"@);
}

/// An event writes out and reads back unchanged.
pub proof fn lemma_event_round_trip(e: EventView)
    ensures
        parse_event(event_to_json(e)) == Some(e),
{
    reveal_strlit("type");
    reveal_strlit("title");
    reveal_strlit("message");
    reveal_strlit("params");
    reveal_strlit("callback_url");
    reveal_strlit("post_to_callback_url");
    assert("type"@.len() == 4);
    assert("title"@.len() == 5);
    assert("message"@.len() == 7);
    assert("params"@.len() == 6);
    assert("callback_url"@.len() == 12);
    assert("post_to_callback_url"@.len() == 20);
    match e {
        EventView::Message(p) => {
            let f0 = ("type"@, JsonView::Str("message"@));
            let f1 = ("params"@, params_to_json(p));
            lemma_obj_get2(f0, f1, "type"@);
            lemma_obj_get2(f0, f1, "params"@);
            lemma_params_round_trip(p);
        },
        EventView::PostToCallbackUrl { callback_url, params } => {
            let p0 = ("callback_url"@, JsonView::Str(callback_url));
            let p1 = ("type"@, JsonView::Str(params.ty));
            let p2 = ("title"@, JsonView::Str(params.title));
            let p3 = ("message"@, JsonView::Str(params.message));
            let f0 = ("type"@, JsonView::Str("post_to_callback_url"@));
            let f1 = ("params"@, JsonView::Object(seq![p0, p1, p2, p3]));
            lemma_obj_get2(f0, f1, "type"@);
            lemma_obj_get2(f0, f1, "params"@);
            lemma_obj_get4(p0, p1, p2, p3, "callback_url"@);
            lemma_obj_get4(p0, p1, p2, p3, "type"@);
            lemma_obj_get4(p0, p1, p2, p3, "title"@);
            lemma_obj_get4(p0, p1, p2, p3, "message"@);
        },
    }
}

/// A rule with a well-formed condition view writes out and reads back
/// unchanged — the re-parsed rule evaluates exactly as the original against
/// any payload.
pub proof fn lemma_rule_round_trip(r: RuleView)
    requires
        cond_wf(r.conditions),
    ensures
        parse_rule(rule_to_json(r)) == Some(r),
{
    reveal_strlit("conditions");
    reveal_strlit("event");
    assert("conditions"@.len() == 10);
    assert("event"@.len() == 5);
    let e0 = ("conditions"@, cond_to_json(r.conditions));
    let e1 = ("event"@, event_to_json(r.event));
    lemma_obj_get2(e0, e1, "conditions"@);
    lemma_obj_get2(e0, e1, "event"@);
    lemma_condition_round_trip(r.conditions);
    lemma_event_round_trip(r.event);
}

/// Every executable condition tree writes out and reads back unchanged.
pub proof fn lemma_condition_round_trip_exec(c: Condition)
    ensures
        parse_cond(cond_to_json(c@)) == Some(c@),
{
    lemma_condition_view_wf(c);
    lemma_condition_round_trip(c@);
}

/// Every executable rule writes out and reads back unchanged.
pub proof fn lemma_rule_round_trip_exec(r: Rule)
    ensures
        parse_rule(rule_to_json(r@)) == Some(r@),
{
    lemma_condition_view_wf(r.conditions);
    lemma_rule_round_trip(r@);
}

/// A rule read back from its own wire image is the same rule, so against
/// every payload it checks to the same condition-result tree and the same
/// materialized event.
pub proof fn lemma_round_trip_preserves_checking(r: RuleView, r2: RuleView, facts: JsonView)
    requires
        cond_wf(r.conditions),
        parse_rule(rule_to_json(r)) == Some(r2),
    ensures
        eval_cond(r2.conditions, facts) == eval_cond(r.conditions, facts),
        spec_materialize(r2.event, facts) == spec_materialize(r.event, facts),
{
    lemma_rule_round_trip(r);
}

} // verus!
