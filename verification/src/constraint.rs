//! The constraint matcher: one leaf-level comparison operator checked
//! against one typed fact value.
//!
//! A fact whose runtime type does not fit the operator — for instance an
//! integer operator against text — is a failed comparison, `NotMet`, never
//! `Unknown`: missing information is signalled by the evaluator when the
//! field is absent, not here.

use vstd::prelude::*;

use crate::json::{Json, JsonView};
use crate::status::Status;
use crate::strutil::{is_true_token, str_eq, str_is_true_token};

verus! {

/// A leaf-level comparison operator with its operand(s).
///
/// String comparisons are exact, with no normalization. Integer operands are
/// signed 64-bit; `IntInRange`/`IntNotInRange` are inclusive on both ends and
/// an inverted range is evaluated literally. `BoolEquals` checks a boolean
/// fact directly and coerces a text fact: exactly the token `true` up to
/// ASCII case stands for true, every other text for false.
#[derive(Debug, Clone, PartialEq)]
pub enum Constraint {
    StringEquals(String),
    StringNotEquals(String),
    StringIn(Vec<String>),
    StringNotIn(Vec<String>),
    IntEquals(i64),
    IntNotEquals(i64),
    IntIn(Vec<i64>),
    IntNotIn(Vec<i64>),
    IntInRange(i64, i64),
    IntNotInRange(i64, i64),
    LessThan(i64),
    LessThanInclusive(i64),
    GreaterThan(i64),
    GreaterThanInclusive(i64),
    BoolEquals(bool),
}

/// The mathematical shape of a [`Constraint`].
pub enum ConstraintView {
    StringEquals(Seq<char>),
    StringNotEquals(Seq<char>),
    StringIn(Seq<Seq<char>>),
    StringNotIn(Seq<Seq<char>>),
    IntEquals(int),
    IntNotEquals(int),
    IntIn(Seq<int>),
    IntNotIn(Seq<int>),
    IntInRange(int, int),
    IntNotInRange(int, int),
    LessThan(int),
    LessThanInclusive(int),
    GreaterThan(int),
    GreaterThanInclusive(int),
    BoolEquals(bool),
}

impl View for Constraint {
    type V = ConstraintView;

    open spec fn view(&self) -> ConstraintView {
        match self {
            Constraint::StringEquals(s) => ConstraintView::StringEquals(s@),
            Constraint::StringNotEquals(s) => ConstraintView::StringNotEquals(s@),
            Constraint::StringIn(ss) => ConstraintView::StringIn(
                ss@.map_values(|s: String| s@),
            ),
            Constraint::StringNotIn(ss) => ConstraintView::StringNotIn(
                ss@.map_values(|s: String| s@),
            ),
            Constraint::IntEquals(n) => ConstraintView::IntEquals(*n as int),
            Constraint::IntNotEquals(n) => ConstraintView::IntNotEquals(*n as int),
            Constraint::IntIn(ns) => ConstraintView::IntIn(ns@.map_values(|x: i64| x as int)),
            Constraint::IntNotIn(ns) => ConstraintView::IntNotIn(
                ns@.map_values(|x: i64| x as int),
            ),
            Constraint::IntInRange(lo, hi) => ConstraintView::IntInRange(*lo as int, *hi as int),
            Constraint::IntNotInRange(lo, hi) => ConstraintView::IntNotInRange(
                *lo as int,
                *hi as int,
            ),
            Constraint::LessThan(n) => ConstraintView::LessThan(*n as int),
            Constraint::LessThanInclusive(n) => ConstraintView::LessThanInclusive(*n as int),
            Constraint::GreaterThan(n) => ConstraintView::GreaterThan(*n as int),
            Constraint::GreaterThanInclusive(n) => ConstraintView::GreaterThanInclusive(
                *n as int,
            ),
            Constraint::BoolEquals(b) => ConstraintView::BoolEquals(*b),
        }
    }
}

/// `Met` when `cond` holds, `NotMet` otherwise.
pub open spec fn met_when(cond: bool) -> Status {
    if cond {
        Status::Met
    } else {
        Status::NotMet
    }
}

/// What the matcher returns for a constraint against a typed fact value.
pub open spec fn spec_check(c: ConstraintView, v: JsonView) -> Status {
    match c {
        ConstraintView::StringEquals(s) => match v {
            JsonView::Str(t) => met_when(t == s),
            _ => Status::NotMet,
        },
        ConstraintView::StringNotEquals(s) => match v {
            JsonView::Str(t) => met_when(t != s),
            _ => Status::NotMet,
        },
        ConstraintView::StringIn(ss) => match v {
            JsonView::Str(t) => met_when(ss.contains(t)),
            _ => Status::NotMet,
        },
        ConstraintView::StringNotIn(ss) => match v {
            JsonView::Str(t) => met_when(!ss.contains(t)),
            _ => Status::NotMet,
        },
        ConstraintView::IntEquals(n) => match v {
            JsonView::Int(x) => met_when(x == n),
            _ => Status::NotMet,
        },
        ConstraintView::IntNotEquals(n) => match v {
            JsonView::Int(x) => met_when(x != n),
            _ => Status::NotMet,
        },
        ConstraintView::IntIn(ns) => match v {
            JsonView::Int(x) => met_when(ns.contains(x)),
            _ => Status::NotMet,
        },
        ConstraintView::IntNotIn(ns) => match v {
            JsonView::Int(x) => met_when(!ns.contains(x)),
            _ => Status::NotMet,
        },
        ConstraintView::IntInRange(lo, hi) => match v {
            JsonView::Int(x) => met_when(lo <= x && x <= hi),
            _ => Status::NotMet,
        },
        ConstraintView::IntNotInRange(lo, hi) => match v {
            JsonView::Int(x) => met_when(!(lo <= x && x <= hi)),
            _ => Status::NotMet,
        },
        ConstraintView::LessThan(n) => match v {
            JsonView::Int(x) => met_when(x < n),
            _ => Status::NotMet,
        },
        ConstraintView::LessThanInclusive(n) => match v {
            JsonView::Int(x) => met_when(x <= n),
            _ => Status::NotMet,
        },
        ConstraintView::GreaterThan(n) => match v {
            JsonView::Int(x) => met_when(x > n),
            _ => Status::NotMet,
        },
        ConstraintView::GreaterThanInclusive(n) => match v {
            JsonView::Int(x) => met_when(x >= n),
            _ => Status::NotMet,
        },
        ConstraintView::BoolEquals(b) => match v {
            JsonView::Bool(x) => met_when(x == b),
            JsonView::Str(t) => met_when(is_true_token(t) == b),
            _ => Status::NotMet,
        },
    }
}

/// Whether any element of `ss` equals `t`.
fn str_vec_contains(ss: &Vec<String>, t: &str) -> (r: bool)
    ensures
        r == ss@.map_values(|s: String| s@).contains(t@),
{
    let ghost view = ss@.map_values(|s: String| s@);
    let mut i: usize = 0;
    while i < ss.len()
        invariant
            view == ss@.map_values(|s: String| s@),
            view.len() == ss@.len(),
            0 <= i <= ss@.len(),
            forall|j: int| 0 <= j < i ==> #[trigger] view[j] != t@,
        decreases ss@.len() - i,
    {
        if str_eq(ss[i].as_str(), t) {
            proof {
                assert(view[i as int] == t@);
            }
            return true;
        }
        i = i + 1;
    }
    proof {
        assert(forall|j: int| 0 <= j < view.len() ==> #[trigger] view[j] != t@);
    }
    false
}

/// Whether any element of `ns` equals `x`.
fn int_vec_contains(ns: &Vec<i64>, x: i64) -> (r: bool)
    ensures
        r == ns@.map_values(|y: i64| y as int).contains(x as int),
{
    let ghost view = ns@.map_values(|y: i64| y as int);
    let mut i: usize = 0;
    while i < ns.len()
        invariant
            view == ns@.map_values(|y: i64| y as int),
            view.len() == ns@.len(),
            0 <= i <= ns@.len(),
            forall|j: int| 0 <= j < i ==> #[trigger] view[j] != x as int,
        decreases ns@.len() - i,
    {
        if ns[i] == x {
            proof {
                assert(view[i as int] == x as int);
            }
            return true;
        }
        i = i + 1;
    }
    proof {
        assert(forall|j: int| 0 <= j < view.len() ==> #[trigger] view[j] != x as int);
    }
    false
}

impl Constraint {
    /// Checks this constraint against one typed fact value.
    pub fn check_value(&self, v: &Json) -> (r: Status)
        ensures
            r == spec_check(self@, v@),
    {
        match self {
            Constraint::StringEquals(s) => match v {
                Json::Str(t) => if str_eq(t.as_str(), s.as_str()) {
                    Status::Met
                } else {
                    Status::NotMet
                },
                _ => Status::NotMet,
            },
            Constraint::StringNotEquals(s) => match v {
                Json::Str(t) => if !str_eq(t.as_str(), s.as_str()) {
                    Status::Met
                } else {
                    Status::NotMet
                },
                _ => Status::NotMet,
            },
            Constraint::StringIn(ss) => match v {
                Json::Str(t) => if str_vec_contains(ss, t.as_str()) {
                    Status::Met
                } else {
                    Status::NotMet
                },
                _ => Status::NotMet,
            },
            Constraint::StringNotIn(ss) => match v {
                Json::Str(t) => if !str_vec_contains(ss, t.as_str()) {
                    Status::Met
                } else {
                    Status::NotMet
                },
                _ => Status::NotMet,
            },
            Constraint::IntEquals(n) => match v {
                Json::Int(x) => if *x == *n {
                    Status::Met
                } else {
                    Status::NotMet
                },
                _ => Status::NotMet,
            },
            Constraint::IntNotEquals(n) => match v {
                Json::Int(x) => if *x != *n {
                    Status::Met
                } else {
                    Status::NotMet
                },
                _ => Status::NotMet,
            },
            Constraint::IntIn(ns) => match v {
                Json::Int(x) => if int_vec_contains(ns, *x) {
                    Status::Met
                } else {
                    Status::NotMet
                },
                _ => Status::NotMet,
            },
            Constraint::IntNotIn(ns) => match v {
                Json::Int(x) => if !int_vec_contains(ns, *x) {
                    Status::Met
                } else {
                    Status::NotMet
                },
                _ => Status::NotMet,
            },
            Constraint::IntInRange(lo, hi) => match v {
                Json::Int(x) => if *lo <= *x && *x <= *hi {
                    Status::Met
                } else {
                    Status::NotMet
                },
                _ => Status::NotMet,
            },
            Constraint::IntNotInRange(lo, hi) => match v {
                Json::Int(x) => if !(*lo <= *x && *x <= *hi) {
                    Status::Met
                } else {
                    Status::NotMet
                },
                _ => Status::NotMet,
            },
            Constraint::LessThan(n) => match v {
                Json::Int(x) => if *x < *n {
                    Status::Met
                } else {
                    Status::NotMet
                },
                _ => Status::NotMet,
            },
            Constraint::LessThanInclusive(n) => match v {
                Json::Int(x) => if *x <= *n {
                    Status::Met
                } else {
                    Status::NotMet
                },
                _ => Status::NotMet,
            },
            Constraint::GreaterThan(n) => match v {
                Json::Int(x) => if *x > *n {
                    Status::Met
                } else {
                    Status::NotMet
                },
                _ => Status::NotMet,
            },
            Constraint::GreaterThanInclusive(n) => match v {
                Json::Int(x) => if *x >= *n {
                    Status::Met
                } else {
                    Status::NotMet
                },
                _ => Status::NotMet,
            },
            Constraint::BoolEquals(b) => match v {
                Json::Bool(x) => if *x == *b {
                    Status::Met
                } else {
                    Status::NotMet
                },
                Json::Str(t) => if str_is_true_token(t.as_str()) == *b {
                    Status::Met
                } else {
                    Status::NotMet
                },
                _ => Status::NotMet,
            },
        }
    }
}

/// Whether a constraint demands a numeric fact.
pub open spec fn is_numeric_constraint(c: ConstraintView) -> bool {
    match c {
        ConstraintView::IntEquals(_) => true,
        ConstraintView::IntNotEquals(_) => true,
        ConstraintView::IntIn(_) => true,
        ConstraintView::IntNotIn(_) => true,
        ConstraintView::IntInRange(_, _) => true,
        ConstraintView::IntNotInRange(_, _) => true,
        ConstraintView::LessThan(_) => true,
        ConstraintView::LessThanInclusive(_) => true,
        ConstraintView::GreaterThan(_) => true,
        ConstraintView::GreaterThanInclusive(_) => true,
        _ => false,
    }
}

/// A numeric operator against a fact that does not coerce to an integer is a
/// failed comparison — `NotMet`, never `Unknown`.
pub proof fn lemma_numeric_on_non_int(c: ConstraintView, v: JsonView)
    requires
        is_numeric_constraint(c),
        !(v is Int),
    ensures
        spec_check(c, v) == Status::NotMet,
{
}

/// `BoolEquals(b)` against a text fact coerces the text: exactly the token
/// `true` up to ASCII case stands for true, every other text for false.
pub proof fn lemma_bool_equals_on_string(b: bool, t: Seq<char>)
    ensures
        spec_check(ConstraintView::BoolEquals(b), JsonView::Str(t)) == met_when(
            is_true_token(t) == b,
        ),
{
}

} // verus!
