//! The three-valued status algebra.
//!
//! A rule check yields one of three verdicts. `NotMet` dominates conjunction,
//! `Met` dominates disjunction, and `Unknown` (missing information) is
//! absorbed only by a dominating operand.

use vstd::prelude::*;

verus! {

/// The status of a rule check.
#[derive(Debug, Eq, PartialEq, Copy, Clone, Structural)]
pub enum Status {
    /// The rule was satisfied.
    Met,
    /// The rule was not satisfied.
    NotMet,
    /// There was not enough information to evaluate the rule.
    Unknown,
}

/// Conjunction: `Met` only when both operands are `Met`; `NotMet` as soon as
/// either operand is `NotMet`; `Unknown` otherwise.
pub open spec fn spec_and(a: Status, b: Status) -> Status {
    match (a, b) {
        (Status::Met, Status::Met) => Status::Met,
        (Status::NotMet, _) => Status::NotMet,
        (_, Status::NotMet) => Status::NotMet,
        _ => Status::Unknown,
    }
}

/// Disjunction: `NotMet` only when both operands are `NotMet`; `Met` as soon
/// as either operand is `Met`; `Unknown` otherwise.
pub open spec fn spec_or(a: Status, b: Status) -> Status {
    match (a, b) {
        (Status::NotMet, Status::NotMet) => Status::NotMet,
        (Status::Met, _) => Status::Met,
        (_, Status::Met) => Status::Met,
        _ => Status::Unknown,
    }
}

/// Negation: swaps `Met` and `NotMet`; `Unknown` stays `Unknown`.
pub open spec fn spec_not(a: Status) -> Status {
    match a {
        Status::Met => Status::NotMet,
        Status::NotMet => Status::Met,
        Status::Unknown => Status::Unknown,
    }
}

impl Status {
    /// Conjunction of two statuses.
    pub fn and(self, rhs: Status) -> (r: Status)
        ensures
            r == spec_and(self, rhs),
    {
        match (self, rhs) {
            (Status::Met, Status::Met) => Status::Met,
            (Status::NotMet, _) => Status::NotMet,
            (_, Status::NotMet) => Status::NotMet,
            _ => Status::Unknown,
        }
    }

    /// Disjunction of two statuses.
    pub fn or(self, rhs: Status) -> (r: Status)
        ensures
            r == spec_or(self, rhs),
    {
        match (self, rhs) {
            (Status::NotMet, Status::NotMet) => Status::NotMet,
            (Status::Met, _) => Status::Met,
            (_, Status::Met) => Status::Met,
            _ => Status::Unknown,
        }
    }

    /// Negation of a status.
    pub fn not(self) -> (r: Status)
        ensures
            r == spec_not(self),
    {
        match self {
            Status::Met => Status::NotMet,
            Status::NotMet => Status::Met,
            Status::Unknown => Status::Unknown,
        }
    }
}

/// Conjunction is commutative.
pub proof fn lemma_and_commutative(a: Status, b: Status)
    ensures
        spec_and(a, b) == spec_and(b, a),
{
}

/// Conjunction is associative.
pub proof fn lemma_and_associative(a: Status, b: Status, c: Status)
    ensures
        spec_and(spec_and(a, b), c) == spec_and(a, spec_and(b, c)),
{
}

/// Disjunction is commutative.
pub proof fn lemma_or_commutative(a: Status, b: Status)
    ensures
        spec_or(a, b) == spec_or(b, a),
{
}

/// Disjunction is associative.
pub proof fn lemma_or_associative(a: Status, b: Status, c: Status)
    ensures
        spec_or(spec_or(a, b), c) == spec_or(a, spec_or(b, c)),
{
}

/// Negation is an involution.
pub proof fn lemma_not_involutive(a: Status)
    ensures
        spec_not(spec_not(a)) == a,
{
}

} // verus!
