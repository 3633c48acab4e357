//! The condition evaluator: a tree of conditions checked depth-first against
//! a fact payload, producing a result tree of the same shape.
//!
//! Aggregation nodes evaluate **all** their children — there is no
//! short-circuit — so the full result tree is always populated. `And` and
//! `Or` fold their children's statuses with the three-valued operators;
//! `AtLeast` counts children that are exactly `Met` and never yields
//! `Unknown`. A leaf resolves its field path; an absent path yields
//! `Unknown`, a present one is handed to the constraint matcher.

use vstd::prelude::*;

use crate::constraint::{met_when, spec_check, Constraint, ConstraintView};
use crate::json::{Json, JsonView};
use crate::pointer::{lookup_field, normalize_path, spec_lookup_pointer};
use crate::status::{spec_and, spec_or, Status};
use crate::strutil::dec_digits;

verus! {

/// A node of the condition tree.
#[derive(Debug, PartialEq)]
pub enum Condition {
    /// Met only when every child is met.
    And { and: Vec<Condition> },
    /// Met as soon as one child is met.
    Or { or: Vec<Condition> },
    /// Met when at least `should_minimum_meet` children are met.
    AtLeast { should_minimum_meet: usize, conditions: Vec<Condition> },
    /// A leaf: one field path tested by one constraint.
    Condition { field: String, constraint: Constraint },
}

/// The mathematical shape of a [`Condition`].
pub enum CondView {
    And { and: Seq<CondView> },
    Or { or: Seq<CondView> },
    AtLeast { should_minimum_meet: int, conditions: Seq<CondView> },
    Condition { field: Seq<char>, constraint: ConstraintView },
}

/// View of a sequence of conditions, element by element.
pub open spec fn conds_view(cs: Seq<Condition>) -> Seq<CondView>
    decreases cs,
{
    if cs.len() == 0 {
        Seq::empty()
    } else {
        conds_view(cs.drop_last()).push(cs.last()@)
    }
}

impl View for Condition {
    type V = CondView;

    open spec fn view(&self) -> CondView
        decreases self,
    {
        match self {
            Condition::And { and } => CondView::And { and: conds_view(and@) },
            Condition::Or { or } => CondView::Or { or: conds_view(or@) },
            Condition::AtLeast { should_minimum_meet, conditions } => CondView::AtLeast {
                should_minimum_meet: *should_minimum_meet as int,
                conditions: conds_view(conditions@),
            },
            Condition::Condition { field, constraint } => CondView::Condition {
                field: field@,
                constraint: constraint@,
            },
        }
    }
}

/// The view of a condition sequence keeps its length and maps each element.
pub proof fn lemma_conds_view(cs: Seq<Condition>)
    ensures
        conds_view(cs).len() == cs.len(),
        forall|i: int| 0 <= i < cs.len() ==> conds_view(cs)[i] == #[trigger] cs[i]@,
    decreases cs,
{
    if cs.len() > 0 {
        lemma_conds_view(cs.drop_last());
        assert(conds_view(cs) == conds_view(cs.drop_last()).push(cs.last()@));
        assert forall|i: int| 0 <= i < cs.len() implies conds_view(cs)[i] == #[trigger] cs[i]@ by {
            if i < cs.len() - 1 {
                assert(cs.drop_last()[i] == cs[i]);
            } else {
                assert(cs.last() == cs[i]);
            }
        }
    }
}

/// One node of the result tree: the verdict for the matching condition node,
/// under a human-readable label.
#[derive(Debug, PartialEq)]
pub struct ConditionResult {
    /// Human-readable description of the node: a leaf's field path, or the
    /// synthesized label of an aggregation node.
    pub name: String,
    /// The verdict at this node.
    pub status: Status,
    /// Verdicts of the node's children, in the children's order.
    pub children: Vec<ConditionResult>,
}

/// The mathematical shape of a [`ConditionResult`].
pub struct CondResultView {
    pub name: Seq<char>,
    pub status: Status,
    pub children: Seq<CondResultView>,
}

/// View of a sequence of results, element by element.
pub open spec fn results_view(rs: Seq<ConditionResult>) -> Seq<CondResultView>
    decreases rs,
{
    if rs.len() == 0 {
        Seq::empty()
    } else {
        results_view(rs.drop_last()).push(rs.last()@)
    }
}

impl View for ConditionResult {
    type V = CondResultView;

    open spec fn view(&self) -> CondResultView
        decreases self,
    {
        CondResultView {
            name: self.name@,
            status: self.status,
            children: results_view(self.children@),
        }
    }
}

/// The view of a result sequence keeps its length and maps each element.
pub proof fn lemma_results_view(rs: Seq<ConditionResult>)
    ensures
        results_view(rs).len() == rs.len(),
        forall|i: int| 0 <= i < rs.len() ==> results_view(rs)[i] == #[trigger] rs[i]@,
    decreases rs,
{
    if rs.len() > 0 {
        lemma_results_view(rs.drop_last());
        assert(results_view(rs) == results_view(rs.drop_last()).push(rs.last()@));
        assert forall|i: int| 0 <= i < rs.len() implies results_view(rs)[i]
            == #[trigger] rs[i]@ by {
            if i < rs.len() - 1 {
                assert(rs.drop_last()[i] == rs[i]);
            } else {
                assert(rs.last() == rs[i]);
            }
        }
    }
}

/// The statuses of a sequence of results, in order.
pub open spec fn statuses(rs: Seq<CondResultView>) -> Seq<Status> {
    rs.map_values(|r: CondResultView| r.status)
}

/// Left fold of conjunction over a sequence of statuses, from `Met`.
pub open spec fn and_fold(ss: Seq<Status>) -> Status
    decreases ss,
{
    if ss.len() == 0 {
        Status::Met
    } else {
        spec_and(and_fold(ss.drop_last()), ss.last())
    }
}

/// Left fold of disjunction over a sequence of statuses, from `NotMet`.
pub open spec fn or_fold(ss: Seq<Status>) -> Status
    decreases ss,
{
    if ss.len() == 0 {
        Status::NotMet
    } else {
        spec_or(or_fold(ss.drop_last()), ss.last())
    }
}

/// How many statuses are exactly `Met`.
pub open spec fn count_met(ss: Seq<Status>) -> nat
    decreases ss,
{
    if ss.len() == 0 {
        0
    } else {
        count_met(ss.drop_last()) + if ss.last() == Status::Met {
            1nat
        } else {
            0nat
        }
    }
}

/// The label of a threshold node.
pub open spec fn at_least_name(n: int) -> Seq<char> {
    "At least "@ + dec_digits(n as nat) + " of"@
}

/// The verdict and result tree for a condition checked against a payload.
pub open spec fn eval_cond(c: CondView, facts: JsonView) -> CondResultView
    decreases c,
{
    match c {
        CondView::And { and } => {
            let ch = eval_conds(and, facts);
            CondResultView { name: "And"@, status: and_fold(statuses(ch)), children: ch }
        },
        CondView::Or { or } => {
            let ch = eval_conds(or, facts);
            CondResultView { name: "Or"@, status: or_fold(statuses(ch)), children: ch }
        },
        CondView::AtLeast { should_minimum_meet, conditions } => {
            let ch = eval_conds(conditions, facts);
            CondResultView {
                name: at_least_name(should_minimum_meet),
                status: met_when(count_met(statuses(ch)) >= should_minimum_meet),
                children: ch,
            }
        },
        CondView::Condition { field, constraint } => CondResultView {
            name: field,
            status: match spec_lookup_pointer(facts, normalize_path(field)) {
                Some(v) => spec_check(constraint, v),
                None => Status::Unknown,
            },
            children: Seq::empty(),
        },
    }
}

/// The result trees for a sequence of conditions, in order.
pub open spec fn eval_conds(cs: Seq<CondView>, facts: JsonView) -> Seq<CondResultView>
    decreases cs,
{
    if cs.len() == 0 {
        Seq::empty()
    } else {
        eval_conds(cs.drop_last(), facts).push(eval_cond(cs.last(), facts))
    }
}

/// Evaluation yields one result per condition, in the conditions' order.
pub proof fn lemma_eval_conds(cs: Seq<CondView>, facts: JsonView)
    ensures
        eval_conds(cs, facts).len() == cs.len(),
        forall|i: int|
            0 <= i < cs.len() ==> eval_conds(cs, facts)[i] == eval_cond(#[trigger] cs[i], facts),
    decreases cs,
{
    if cs.len() > 0 {
        lemma_eval_conds(cs.drop_last(), facts);
        assert forall|i: int| 0 <= i < cs.len() implies eval_conds(cs, facts)[i] == eval_cond(
            #[trigger] cs[i],
            facts,
        ) by {
            if i < cs.len() - 1 {
                assert(cs.drop_last()[i] == cs[i]);
            } else {
                assert(cs.last() == cs[i]);
            }
        }
    }
}

/// Checks a sequence of conditions in order against one payload.
fn check_list(cs: &Vec<Condition>, facts: &Json) -> (r: Vec<ConditionResult>)
    ensures
        results_view(r@) == eval_conds(conds_view(cs@), facts@),
    decreases cs@,
{
    let ghost cvs = conds_view(cs@);
    proof {
        lemma_conds_view(cs@);
    }
    let mut r: Vec<ConditionResult> = Vec::new();
    let mut i: usize = 0;
    proof {
        assert(cvs.take(0) =~= Seq::<CondView>::empty());
    }
    while i < cs.len()
        invariant
            cvs == conds_view(cs@),
            cvs.len() == cs@.len(),
            forall|j: int| 0 <= j < cs@.len() ==> cvs[j] == #[trigger] cs@[j]@,
            0 <= i <= cs@.len(),
            r@.len() == i,
            results_view(r@) == eval_conds(cvs.take(i as int), facts@),
        decreases cs@.len() - i,
    {
        let ghost prev = r@;
        let cr = cs[i].check_value(facts);
        r.push(cr);
        proof {
            assert(r@.drop_last() =~= prev);
            assert(results_view(r@) == results_view(prev).push(cr@));
            assert(cvs.take(i + 1).drop_last() =~= cvs.take(i as int));
            assert(cvs.take(i + 1).last() == cvs[i as int]);
        }
        i = i + 1;
    }
    proof {
        assert(cvs.take(cs@.len() as int) =~= cvs);
    }
    r
}

impl Condition {
    /// Starting at this node, recursively checks any child nodes depth-first
    /// and aggregates the results.
    pub fn check_value(&self, facts: &Json) -> (r: ConditionResult)
        ensures
            r@ == eval_cond(self@, facts@),
        decreases *self,
    {
        match self {
            Condition::And { and } => {
                let children = check_list(and, facts);
                let ghost ch = eval_conds(conds_view(and@), facts@);
                let ghost ss = statuses(ch);
                proof {
                    lemma_results_view(children@);
                    assert(ss.take(0) =~= Seq::<Status>::empty());
                }
                let mut status = Status::Met;
                let mut i: usize = 0;
                while i < children.len()
                    invariant
                        results_view(children@) == ch,
                        ss == statuses(ch),
                        ss.len() == ch.len(),
                        ch.len() == children@.len(),
                        forall|j: int|
                            0 <= j < children@.len() ==> results_view(children@)[j]
                                == #[trigger] children@[j]@,
                        0 <= i <= children@.len(),
                        status == and_fold(ss.take(i as int)),
                    decreases children@.len() - i,
                {
                    status = status.and(children[i].status);
                    proof {
                        assert(ss.take(i + 1).drop_last() =~= ss.take(i as int));
                        assert(ss.take(i + 1).last() == ss[i as int]);
                        assert(ss[i as int] == ch[i as int].status);
                        assert(ch[i as int] == children@[i as int]@);
                    }
                    i = i + 1;
                }
                proof {
                    assert(ss.take(children@.len() as int) =~= ss);
                }
                ConditionResult { name: String::from_str("And"), status, children }
            },
            Condition::Or { or } => {
                let children = check_list(or, facts);
                let ghost ch = eval_conds(conds_view(or@), facts@);
                let ghost ss = statuses(ch);
                proof {
                    lemma_results_view(children@);
                    assert(ss.take(0) =~= Seq::<Status>::empty());
                }
                let mut status = Status::NotMet;
                let mut i: usize = 0;
                while i < children.len()
                    invariant
                        results_view(children@) == ch,
                        ss == statuses(ch),
                        ss.len() == ch.len(),
                        ch.len() == children@.len(),
                        forall|j: int|
                            0 <= j < children@.len() ==> results_view(children@)[j]
                                == #[trigger] children@[j]@,
                        0 <= i <= children@.len(),
                        status == or_fold(ss.take(i as int)),
                    decreases children@.len() - i,
                {
                    status = status.or(children[i].status);
                    proof {
                        assert(ss.take(i + 1).drop_last() =~= ss.take(i as int));
                        assert(ss.take(i + 1).last() == ss[i as int]);
                        assert(ss[i as int] == ch[i as int].status);
                        assert(ch[i as int] == children@[i as int]@);
                    }
                    i = i + 1;
                }
                proof {
                    assert(ss.take(children@.len() as int) =~= ss);
                }
                ConditionResult { name: String::from_str("Or"), status, children }
            },
            Condition::AtLeast { should_minimum_meet, conditions } => {
                let children = check_list(conditions, facts);
                let ghost ch = eval_conds(conds_view(conditions@), facts@);
                let ghost ss = statuses(ch);
                proof {
                    lemma_results_view(children@);
                    assert(ss.take(0) =~= Seq::<Status>::empty());
                }
                let mut met_count: usize = 0;
                let mut i: usize = 0;
                while i < children.len()
                    invariant
                        results_view(children@) == ch,
                        ss == statuses(ch),
                        ss.len() == ch.len(),
                        ch.len() == children@.len(),
                        forall|j: int|
                            0 <= j < children@.len() ==> results_view(children@)[j]
                                == #[trigger] children@[j]@,
                        0 <= i <= children@.len(),
                        met_count <= i,
                        met_count == count_met(ss.take(i as int)),
                    decreases children@.len() - i,
                {
                    proof {
                        assert(ss.take(i + 1).drop_last() =~= ss.take(i as int));
                        assert(ss.take(i + 1).last() == ss[i as int]);
                        assert(ss[i as int] == ch[i as int].status);
                        assert(ch[i as int] == children@[i as int]@);
                    }
                    if children[i].status == Status::Met {
                        met_count = met_count + 1;
                    }
                    i = i + 1;
                }
                proof {
                    assert(ss.take(children@.len() as int) =~= ss);
                }
                let status = if met_count >= *should_minimum_meet {
                    Status::Met
                } else {
                    Status::NotMet
                };
                let digits = crate::strutil::usize_to_string(*should_minimum_meet);
                let mut name = String::from_str("At least ");
                name.append(digits.as_str());
                name.append(" of");
                proof {
                    assert(name@ == at_least_name(*should_minimum_meet as int));
                }
                ConditionResult { name, status, children }
            },
            Condition::Condition { field, constraint } => {
                let status = match lookup_field(facts, field.as_str()) {
                    Some(v) => constraint.check_value(v),
                    None => Status::Unknown,
                };
                let r = ConditionResult { name: field.clone(), status, children: Vec::new() };
                proof {
                    assert(results_view(r.children@) =~= Seq::<CondResultView>::empty());
                }
                r
            },
        }
    }
}

/// What a conjunction fold yields depends only on which statuses occur, not
/// on their order: `NotMet` as soon as one occurs, `Met` only when all are
/// `Met`, `Unknown` otherwise.
pub proof fn lemma_and_fold_characterized(ss: Seq<Status>)
    ensures
        and_fold(ss) == (if exists|i: int| 0 <= i < ss.len() && ss[i] == Status::NotMet {
            Status::NotMet
        } else if forall|i: int| 0 <= i < ss.len() ==> ss[i] == Status::Met {
            Status::Met
        } else {
            Status::Unknown
        }),
    decreases ss,
{
    if ss.len() > 0 {
        lemma_and_fold_characterized(ss.drop_last());
        let rest = ss.drop_last();
        assert(forall|i: int| 0 <= i < rest.len() ==> rest[i] == ss[i]);
        assert(ss.last() == ss[ss.len() - 1]);
        if exists|i: int| 0 <= i < rest.len() && rest[i] == Status::NotMet {
            let i = choose|i: int| 0 <= i < rest.len() && rest[i] == Status::NotMet;
            assert(ss[i] == Status::NotMet);
        }
    }
}

/// What a disjunction fold yields depends only on which statuses occur, not
/// on their order: `Met` as soon as one occurs, `NotMet` only when all are
/// `NotMet`, `Unknown` otherwise.
pub proof fn lemma_or_fold_characterized(ss: Seq<Status>)
    ensures
        or_fold(ss) == (if exists|i: int| 0 <= i < ss.len() && ss[i] == Status::Met {
            Status::Met
        } else if forall|i: int| 0 <= i < ss.len() ==> ss[i] == Status::NotMet {
            Status::NotMet
        } else {
            Status::Unknown
        }),
    decreases ss,
{
    if ss.len() > 0 {
        lemma_or_fold_characterized(ss.drop_last());
        let rest = ss.drop_last();
        assert(forall|i: int| 0 <= i < rest.len() ==> rest[i] == ss[i]);
        assert(ss.last() == ss[ss.len() - 1]);
        if exists|i: int| 0 <= i < rest.len() && rest[i] == Status::Met {
            let i = choose|i: int| 0 <= i < rest.len() && rest[i] == Status::Met;
            assert(ss[i] == Status::Met);
        }
    }
}

/// A threshold node never resolves to `Unknown`: children blocked by missing
/// information count as not met, unlike under `And`/`Or`, which propagate
/// `Unknown`.
pub proof fn lemma_at_least_never_unknown(n: int, cs: Seq<CondView>, facts: JsonView)
    ensures
        eval_cond(CondView::AtLeast { should_minimum_meet: n, conditions: cs }, facts).status
            != Status::Unknown,
{
}

/// A threshold of zero is met whatever the children's statuses are.
pub proof fn lemma_at_least_zero(cs: Seq<CondView>, facts: JsonView)
    ensures
        eval_cond(CondView::AtLeast { should_minimum_meet: 0, conditions: cs }, facts).status
            == Status::Met,
{
}

/// Counting met children never exceeds the number of children.
pub proof fn lemma_count_met_bound(ss: Seq<Status>)
    ensures
        count_met(ss) <= ss.len(),
    decreases ss,
{
    if ss.len() > 0 {
        lemma_count_met_bound(ss.drop_last());
    }
}

/// A threshold above the number of children can never be met.
pub proof fn lemma_at_least_over_count(n: int, cs: Seq<CondView>, facts: JsonView)
    requires
        n > cs.len(),
    ensures
        eval_cond(CondView::AtLeast { should_minimum_meet: n, conditions: cs }, facts).status
            == Status::NotMet,
{
    lemma_eval_conds(cs, facts);
    lemma_count_met_bound(statuses(eval_conds(cs, facts)));
}

/// A leaf whose field is absent from the payload is `Unknown`, whatever its
/// constraint.
pub proof fn lemma_leaf_absent(field: Seq<char>, c: ConstraintView, facts: JsonView)
    requires
        spec_lookup_pointer(facts, normalize_path(field)) == None::<JsonView>,
    ensures
        eval_cond(CondView::Condition { field, constraint: c }, facts).status == Status::Unknown,
{
}

/// A result tree mirrors its condition tree: one result node per condition
/// node, children matched in order.
pub open spec fn mirrors(c: CondView, r: CondResultView) -> bool
    decreases c,
{
    match c {
        CondView::And { and } => mirrors_all(and, r.children),
        CondView::Or { or } => mirrors_all(or, r.children),
        CondView::AtLeast { should_minimum_meet, conditions } => mirrors_all(
            conditions,
            r.children,
        ),
        CondView::Condition { field, constraint } => r.children.len() == 0,
    }
}

/// Element-wise [`mirrors`] over two sequences of the same length.
pub open spec fn mirrors_all(cs: Seq<CondView>, rs: Seq<CondResultView>) -> bool
    decreases cs,
{
    &&& cs.len() == rs.len()
    &&& (cs.len() > 0 ==> mirrors(cs.last(), rs.last()) && mirrors_all(
        cs.drop_last(),
        rs.drop_last(),
    ))
}

/// Evaluation always returns a result tree isomorphic to the condition tree.
pub proof fn lemma_eval_mirrors(c: CondView, facts: JsonView)
    ensures
        mirrors(c, eval_cond(c, facts)),
    decreases c,
{
    match c {
        CondView::And { and } => {
            lemma_eval_mirrors_all(and, facts);
        },
        CondView::Or { or } => {
            lemma_eval_mirrors_all(or, facts);
        },
        CondView::AtLeast { should_minimum_meet, conditions } => {
            lemma_eval_mirrors_all(conditions, facts);
        },
        CondView::Condition { field, constraint } => {
        },
    }
}

/// Element-wise form of [`lemma_eval_mirrors`].
pub proof fn lemma_eval_mirrors_all(cs: Seq<CondView>, facts: JsonView)
    ensures
        mirrors_all(cs, eval_conds(cs, facts)),
    decreases cs,
{
    if cs.len() > 0 {
        lemma_eval_mirrors(cs.last(), facts);
        lemma_eval_mirrors_all(cs.drop_last(), facts);
        assert(eval_conds(cs, facts).drop_last() =~= eval_conds(cs.drop_last(), facts));
    }
}

} // verus!
