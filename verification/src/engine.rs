//! The decision core of the dispatch engine.
//!
//! A batch of registered rules is checked against one payload; the returned
//! list holds exactly the satisfied rules — those whose top-level condition
//! is `Met` — each with its annotated result tree and materialized event, in
//! registration order. Issuing the deliveries themselves is outside work: a
//! surrounding driver performs one HTTP POST per planned delivery and fails
//! the whole run on the first failure.

use vstd::prelude::*;

use crate::condition::eval_cond;
use crate::event::{materialize_event, spec_materialize, Event, EventParams, EventParamsView, EventView, Rule, RuleResult, RuleResultView, RuleView};
use crate::json::{Json, JsonView};
use crate::status::Status;

verus! {

/// View of a sequence of rules, element by element.
pub open spec fn rules_view(rs: Seq<Rule>) -> Seq<RuleView>
    decreases rs,
{
    if rs.len() == 0 {
        Seq::empty()
    } else {
        rules_view(rs.drop_last()).push(rs.last()@)
    }
}

/// The view of a rule sequence keeps its length and maps each element.
pub proof fn lemma_rules_view(rs: Seq<Rule>)
    ensures
        rules_view(rs).len() == rs.len(),
        forall|i: int| 0 <= i < rs.len() ==> rules_view(rs)[i] == #[trigger] rs[i]@,
    decreases rs,
{
    if rs.len() > 0 {
        lemma_rules_view(rs.drop_last());
        assert forall|i: int| 0 <= i < rs.len() implies rules_view(rs)[i] == #[trigger] rs[i]@ by {
            if i < rs.len() - 1 {
                assert(rs.drop_last()[i] == rs[i]);
            } else {
                assert(rs.last() == rs[i]);
            }
        }
    }
}

/// Whether a rule's top-level condition is satisfied by the payload.
pub open spec fn rule_satisfied(ru: RuleView, facts: JsonView) -> bool {
    eval_cond(ru.conditions, facts).status == Status::Met
}

/// The subsequence of satisfied rules, in registration order.
pub open spec fn satisfied_rules(rules: Seq<RuleView>, facts: JsonView) -> Seq<RuleView>
    decreases rules,
{
    if rules.len() == 0 {
        Seq::empty()
    } else {
        let rest = satisfied_rules(rules.drop_last(), facts);
        if rule_satisfied(rules.last(), facts) {
            rest.push(rules.last())
        } else {
            rest
        }
    }
}

/// Whether `out` is a correct run outcome for `rules` against `facts`: one
/// result per satisfied rule, in order, carrying that rule's evaluated
/// result tree and its materialized event — the message rendered over the
/// payload where the renderer's guard admits it, everything else verbatim.
pub open spec fn run_matches(rules: Seq<RuleView>, facts: JsonView, out: Seq<RuleResultView>) -> bool {
    let kept = satisfied_rules(rules, facts);
    &&& out.len() == kept.len()
    &&& forall|k: int|
        0 <= k < kept.len() ==> (#[trigger] out[k]).condition_result == eval_cond(
            kept[k].conditions,
            facts,
        ) && out[k].event == spec_materialize(kept[k].event, facts)
}

/// View of a sequence of rule results, element by element.
pub open spec fn rule_results_view(rs: Seq<RuleResult>) -> Seq<RuleResultView>
    decreases rs,
{
    if rs.len() == 0 {
        Seq::empty()
    } else {
        rule_results_view(rs.drop_last()).push(rs.last()@)
    }
}

/// Checks every registered rule against one payload and keeps the satisfied
/// ones, in registration order. Only a satisfied rule's event is
/// materialized: rules whose condition is not `Met` never reach the
/// renderer.
pub fn run_rules(rules: &Vec<Rule>, facts: &Json) -> (r: Vec<RuleResult>)
    ensures
        run_matches(rules_view(rules@), facts@, rule_results_view(r@)),
{
    let ghost rvs = rules_view(rules@);
    proof {
        lemma_rules_view(rules@);
    }
    let mut r: Vec<RuleResult> = Vec::new();
    let mut i: usize = 0;
    proof {
        assert(rvs.take(0) =~= Seq::<RuleView>::empty());
    }
    while i < rules.len()
        invariant
            rvs == rules_view(rules@),
            rvs.len() == rules@.len(),
            forall|j: int| 0 <= j < rules@.len() ==> rvs[j] == #[trigger] rules@[j]@,
            0 <= i <= rules@.len(),
            run_matches(rvs.take(i as int), facts@, rule_results_view(r@)),
        decreases rules@.len() - i,
    {
        let ghost prev = r@;
        let ghost kept_prev = satisfied_rules(rvs.take(i as int), facts@);
        let cr = rules[i].conditions.check_value(facts);
        proof {
            assert(rvs.take(i + 1).drop_last() =~= rvs.take(i as int));
            assert(rvs.take(i + 1).last() == rvs[i as int]);
            assert(rvs[i as int] == rules@[i as int]@);
        }
        if cr.status == Status::Met {
            let event = materialize_event(&rules[i].event, facts);
            let rr = RuleResult { condition_result: cr, event };
            r.push(rr);
            proof {
                assert(r@.drop_last() =~= prev);
                let out_new = rule_results_view(r@);
                let kept_new = satisfied_rules(rvs.take(i + 1), facts@);
                assert(out_new == rule_results_view(prev).push(rr@));
                assert(rule_satisfied(rvs[i as int], facts@));
                assert(kept_new == kept_prev.push(rvs[i as int]));
                assert forall|k: int| 0 <= k < kept_new.len() implies (#[trigger] out_new[k]).condition_result
                    == eval_cond(kept_new[k].conditions, facts@) && out_new[k].event
                    == spec_materialize(kept_new[k].event, facts@) by {
                    if k < kept_new.len() - 1 {
                        assert(out_new[k] == rule_results_view(prev)[k]);
                        assert(kept_new[k] == kept_prev[k]);
                    } else {
                        assert(out_new[k] == rr@);
                        assert(kept_new[k] == rvs[i as int]);
                    }
                }
            }
        } else {
            proof {
                assert(!rule_satisfied(rvs[i as int], facts@));
                assert(satisfied_rules(rvs.take(i + 1), facts@) == kept_prev);
            }
        }
        i = i + 1;
    }
    proof {
        assert(rvs.take(rules@.len() as int) =~= rvs);
    }
    r
}

/// One planned delivery: the endpoint and the notification body to post.
#[derive(Debug, Clone, PartialEq)]
pub struct Delivery {
    /// Where to post.
    pub callback_url: String,
    /// What to post: the materialized notification parameters.
    pub params: EventParams,
}

/// The mathematical shape of a [`Delivery`].
pub struct DeliveryView {
    pub callback_url: Seq<char>,
    pub params: EventParamsView,
}

impl View for Delivery {
    type V = DeliveryView;

    open spec fn view(&self) -> DeliveryView {
        DeliveryView { callback_url: self.callback_url@, params: self.params@ }
    }
}

/// View of a sequence of deliveries, element by element.
pub open spec fn deliveries_view(ds: Seq<Delivery>) -> Seq<DeliveryView>
    decreases ds,
{
    if ds.len() == 0 {
        Seq::empty()
    } else {
        deliveries_view(ds.drop_last()).push(ds.last()@)
    }
}

/// The deliveries a batch of results calls for: one per result whose event
/// posts to a callback endpoint, in order. Plain message events are not
/// delivered anywhere.
pub open spec fn deliveries_of(rs: Seq<RuleResultView>) -> Seq<DeliveryView>
    decreases rs,
{
    if rs.len() == 0 {
        Seq::empty()
    } else {
        let rest = deliveries_of(rs.drop_last());
        match rs.last().event {
            EventView::PostToCallbackUrl { callback_url, params } => rest.push(
                DeliveryView { callback_url, params },
            ),
            _ => rest,
        }
    }
}

/// Plans the deliveries for a batch of rule results.
pub fn deliveries(results: &Vec<RuleResult>) -> (r: Vec<Delivery>)
    ensures
        deliveries_view(r@) == deliveries_of(rule_results_view(results@)),
{
    let ghost rvs = rule_results_view(results@);
    let mut r: Vec<Delivery> = Vec::new();
    let mut i: usize = 0;
    proof {
        assert(rvs.take(0) =~= Seq::<RuleResultView>::empty());
        lemma_rule_results_view(results@);
    }
    while i < results.len()
        invariant
            rvs == rule_results_view(results@),
            rvs.len() == results@.len(),
            forall|j: int| 0 <= j < results@.len() ==> rvs[j] == #[trigger] results@[j]@,
            0 <= i <= results@.len(),
            deliveries_view(r@) == deliveries_of(rvs.take(i as int)),
        decreases results@.len() - i,
    {
        let ghost prev = r@;
        proof {
            assert(rvs.take(i + 1).drop_last() =~= rvs.take(i as int));
            assert(rvs.take(i + 1).last() == rvs[i as int]);
            assert(rvs[i as int] == results@[i as int]@);
        }
        match &results[i].event {
            Event::PostToCallbackUrl { callback_url, params } => {
                let d = Delivery {
                    callback_url: callback_url.clone(),
                    params: EventParams {
                        ty: params.ty.clone(),
                        title: params.title.clone(),
                        message: params.message.clone(),
                    },
                };
                r.push(d);
                proof {
                    assert(r@.drop_last() =~= prev);
                    assert(deliveries_view(r@) == deliveries_view(prev).push(d@));
                }
            },
            _ => {
            },
        }
        i = i + 1;
    }
    proof {
        assert(rvs.take(results@.len() as int) =~= rvs);
    }
    r
}

/// The view of a rule-result sequence keeps its length and maps each
/// element.
pub proof fn lemma_rule_results_view(rs: Seq<RuleResult>)
    ensures
        rule_results_view(rs).len() == rs.len(),
        forall|i: int| 0 <= i < rs.len() ==> rule_results_view(rs)[i] == #[trigger] rs[i]@,
    decreases rs,
{
    if rs.len() > 0 {
        lemma_rule_results_view(rs.drop_last());
        assert forall|i: int| 0 <= i < rs.len() implies rule_results_view(rs)[i]
            == #[trigger] rs[i]@ by {
            if i < rs.len() - 1 {
                assert(rs.drop_last()[i] == rs[i]);
            } else {
                assert(rs.last() == rs[i]);
            }
        }
    }
}

} // verus!
