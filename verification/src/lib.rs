//! A small rules engine: a tree of conditions is evaluated against a payload
//! of facts, with each node needing one or more requirements to be `Met`.
//!
//! A tree of conditions is constructed with the functions at the crate root,
//! and then checked with [`Condition::check_value`] against a payload of
//! facts — a `field: value` mapping handed to each leaf of the tree. The
//! status of every node is `Met`, `NotMet`, or `Unknown` when the tested
//! field is not present in the payload.

pub mod condition;
pub mod constraint;
pub mod engine;
pub mod event;
pub mod json;
pub mod pointer;
pub mod status;
pub mod strutil;
pub mod template;
pub mod wire;

pub use crate::condition::{CondView, Condition, ConditionResult};
pub use crate::constraint::{Constraint, ConstraintView};
pub use crate::engine::Delivery;
pub use crate::event::{Event, EventParams, Rule, RuleResult};
pub use crate::json::Json;
pub use crate::status::Status;
pub use crate::wire::ParseError;

use vstd::prelude::*;

use crate::condition::conds_view;

verus! {

/// Creates a condition where all child conditions must be `Met`.
///
/// * If any is `NotMet`, the result is `NotMet`.
/// * If the results hold only `Met` and `Unknown`, the result is `Unknown`.
/// * The result is `Met` only when every child is `Met`.
pub fn and(children: Vec<Condition>) -> (r: Condition)
    ensures
        r@ == (CondView::And { and: conds_view(children@) }),
{
    Condition::And { and: children }
}

/// Creates a condition where some child condition must be `Met`.
///
/// * If any is `Met`, the result is `Met`.
/// * If the results hold only `NotMet` and `Unknown`, the result is `Unknown`.
/// * The result is `NotMet` only when every child is `NotMet`.
pub fn or(children: Vec<Condition>) -> (r: Condition)
    ensures
        r@ == (CondView::Or { or: conds_view(children@) }),
{
    Condition::Or { or: children }
}

/// Creates a condition where at least `should_minimum_meet` child conditions
/// must be `Met`.
///
/// * If `should_minimum_meet` or more are `Met`, the result is `Met`,
///   otherwise `NotMet` — never `Unknown`.
pub fn at_least(should_minimum_meet: usize, conditions: Vec<Condition>) -> (r: Condition)
    ensures
        r@ == (CondView::AtLeast {
            should_minimum_meet: should_minimum_meet as int,
            conditions: conds_view(conditions@),
        }),
{
    Condition::AtLeast { should_minimum_meet, conditions }
}

/// Creates a leaf for text comparison, exact and case-sensitive.
pub fn string_equals(field: &str, val: &str) -> (r: Condition)
    ensures
        r@ == (CondView::Condition {
            field: field@,
            constraint: ConstraintView::StringEquals(val@),
        }),
{
    Condition::Condition { field: field.to_owned(), constraint: Constraint::StringEquals(val.to_owned()) }
}

/// Creates a leaf for integer comparison.
///
/// If the checked value is not an integer, the result is `NotMet`.
pub fn int_equals(field: &str, val: i64) -> (r: Condition)
    ensures
        r@ == (CondView::Condition {
            field: field@,
            constraint: ConstraintView::IntEquals(val as int),
        }),
{
    Condition::Condition { field: field.to_owned(), constraint: Constraint::IntEquals(val) }
}

/// Creates a leaf for integer range comparison over the interval
/// `[start, end]`, inclusive at both ends.
///
/// If the checked value is not an integer, the result is `NotMet`.
pub fn int_in_range(field: &str, start: i64, end: i64) -> (r: Condition)
    ensures
        r@ == (CondView::Condition {
            field: field@,
            constraint: ConstraintView::IntInRange(start as int, end as int),
        }),
{
    Condition::Condition {
        field: field.to_owned(),
        constraint: Constraint::IntInRange(start, end),
    }
}

/// Creates a leaf for boolean comparison.
///
/// A boolean fact is compared directly. A text fact is coerced first: only
/// the token `true`, compared without regard to ASCII case, stands for
/// `true`; every other text stands for `false`.
pub fn bool_equals(field: &str, val: bool) -> (r: Condition)
    ensures
        r@ == (CondView::Condition {
            field: field@,
            constraint: ConstraintView::BoolEquals(val),
        }),
{
    Condition::Condition { field: field.to_owned(), constraint: Constraint::BoolEquals(val) }
}

} // verus!
