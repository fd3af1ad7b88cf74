//! Graphs whose nodes answer every question in one way only. Such a graph
//! is a function from a node and a question to the answer, and what the
//! resolver returns on it is a function too.

use crate::probe::{Ask, Probe};
use crate::resolve::{
    answers_by, ends_with, follows, hits_at, may_answer, resolves_to, settled, steps_to, stops_at,
    walks_to,
};
use vstd::prelude::*;

verus! {

/// `lookup` answers as `model` says: whatever it returns for a question to
/// a node is what `model` holds for them.
pub open spec fn describes<V, K, F: Fn(&V, &Probe<'_, K>) -> Option<V>>(
    lookup: F,
    model: spec_fn(V, Ask<K>) -> Option<V>,
) -> bool {
    forall|node: V, probe: Probe<'_, K>, reply: Option<V>| #[trigger]
        lookup.ensures((&node, &probe), reply) ==> reply == model(node, probe@)
}

/// The graph answers as `model` says: whatever it can reply to a question
/// to a node is what `model` holds for them.
pub open spec fn agrees<V, K>(
    answers: spec_fn(V, Ask<K>, Option<V>) -> bool,
    model: spec_fn(V, Ask<K>) -> Option<V>,
) -> bool {
    forall|node: V, ask: Ask<K>, reply: Option<V>| #[trigger]
        answers(node, ask, reply) ==> reply == model(node, ask)
}

/// The answer to the first probe of `plan` that `node` answers, and nothing
/// if it answers none.
pub open spec fn first_hit<V, K>(
    model: spec_fn(V, Ask<K>) -> Option<V>,
    node: V,
    plan: Seq<Ask<K>>,
) -> Option<V>
    decreases plan.len(),
{
    if plan.len() == 0 {
        None
    } else if model(node, plan.first()) is Some {
        model(node, plan.first())
    } else {
        first_hit(model, node, plan.drop_first())
    }
}

/// The node that the plans lead to from `node`, one step for each plan, and
/// nothing if a step fails.
pub open spec fn walk<V, K>(
    model: spec_fn(V, Ask<K>) -> Option<V>,
    node: V,
    plans: Seq<Seq<Ask<K>>>,
) -> Option<V>
    decreases plans.len(),
{
    if plans.len() == 0 {
        Some(node)
    } else {
        match first_hit(model, node, plans.first()) {
            Some(next) => walk(model, next, plans.drop_first()),
            None => None,
        }
    }
}

/// The value of the resolution from `root` along `plans`: the node that the
/// plans lead to, and the fallback if a step fails.
pub open spec fn resolution<V, K>(
    model: spec_fn(V, Ask<K>) -> Option<V>,
    root: V,
    plans: Seq<Seq<Ask<K>>>,
    fallback: Option<V>,
) -> Option<V> {
    settled(walk(model, root, plans), fallback)
}

proof fn lemma_hit_determined<V, K>(
    answers: spec_fn(V, Ask<K>, Option<V>) -> bool,
    model: spec_fn(V, Ask<K>) -> Option<V>,
    node: V,
    plan: Seq<Ask<K>>,
    at: int,
    next: V,
)
    requires
        agrees(answers, model),
        hits_at(answers, node, plan, at, next),
    ensures
        first_hit(model, node, plan) == Some(next),
    decreases plan.len(),
{
    if at == 0 {
        assert(answers(node, plan[0], Some(next)));
    } else {
        assert(answers(node, plan[0], None::<V>));
        let rest = plan.drop_first();
        assert forall|j: int| 0 <= j < at - 1 implies answers(node, #[trigger] rest[j],
            None::<V>,
        ) by {
            assert(rest[j] == plan[j + 1]);
        }
        assert(rest[at - 1] == plan[at]);
        lemma_hit_determined(answers, model, node, rest, at - 1, next);
    }
}

/// On a graph that answers in one way only, a step leads to one node only.
pub proof fn lemma_step_determined<V, K>(
    answers: spec_fn(V, Ask<K>, Option<V>) -> bool,
    model: spec_fn(V, Ask<K>) -> Option<V>,
    node: V,
    plan: Seq<Ask<K>>,
    next: V,
)
    requires
        agrees(answers, model),
        steps_to(answers, node, plan, next),
    ensures
        first_hit(model, node, plan) == Some(next),
{
    let at = choose|at: int| hits_at(answers, node, plan, at, next);
    lemma_hit_determined(answers, model, node, plan, at, next);
}

/// On a graph that answers in one way only, a step that can fail does fail.
pub proof fn lemma_stop_determined<V, K>(
    answers: spec_fn(V, Ask<K>, Option<V>) -> bool,
    model: spec_fn(V, Ask<K>) -> Option<V>,
    node: V,
    plan: Seq<Ask<K>>,
)
    requires
        agrees(answers, model),
        stops_at(answers, node, plan),
    ensures
        first_hit(model, node, plan) is None,
    decreases plan.len(),
{
    if plan.len() > 0 {
        assert(answers(node, plan[0], None::<V>));
        let rest = plan.drop_first();
        assert forall|j: int| 0 <= j < rest.len() implies answers(node, #[trigger] rest[j],
            None::<V>,
        ) by {
            assert(rest[j] == plan[j + 1]);
        }
        lemma_stop_determined(answers, model, node, rest);
    }
}

proof fn lemma_trail_determined<V, K>(
    answers: spec_fn(V, Ask<K>, Option<V>) -> bool,
    model: spec_fn(V, Ask<K>) -> Option<V>,
    root: V,
    plans: Seq<Seq<Ask<K>>>,
    trail: Seq<V>,
    end: Option<V>,
)
    requires
        agrees(answers, model),
        follows(answers, root, plans, trail),
        ends_with(answers, plans, trail, end),
    ensures
        end == walk(model, root, plans),
    decreases plans.len(),
{
    if plans.len() == 0 {
    } else if trail.len() == 1 {
        lemma_stop_determined(answers, model, root, plans[0]);
    } else {
        assert(steps_to(answers, trail[0], plans[0], trail[1]));
        lemma_step_determined(answers, model, root, plans[0], trail[1]);
        let rest = plans.drop_first();
        let tail = trail.drop_first();
        assert forall|i: int| 0 <= i < tail.len() - 1 implies steps_to(
            answers,
            tail[i],
            #[trigger] rest[i],
            tail[i + 1],
        ) by {
            assert(steps_to(answers, trail[i + 1], plans[i + 1], trail[i + 2]));
        }
        assert(tail.last() == trail.last());
        if end is None {
            assert(rest[tail.len() - 1] == plans[trail.len() - 1]);
        }
        lemma_trail_determined(answers, model, trail[1], rest, tail, end);
    }
}

/// On a graph that answers in one way only, the walk has one end only: the
/// one that `walk` gives.
pub proof fn lemma_walk_determined<V, K>(
    answers: spec_fn(V, Ask<K>, Option<V>) -> bool,
    model: spec_fn(V, Ask<K>) -> Option<V>,
    root: V,
    plans: Seq<Seq<Ask<K>>>,
    end: Option<V>,
)
    requires
        agrees(answers, model),
        walks_to(answers, root, plans, end),
    ensures
        end == walk(model, root, plans),
{
    let trail = choose|trail: Seq<V>| #[trigger]
        follows(answers, root, plans, trail) && ends_with(answers, plans, trail, end);
    lemma_trail_determined(answers, model, root, plans, trail, end);
}

/// On a graph that answers in one way only, the resolution has one value
/// only: the one that `resolution` gives.
pub proof fn lemma_resolution_determined<V, K>(
    answers: spec_fn(V, Ask<K>, Option<V>) -> bool,
    model: spec_fn(V, Ask<K>) -> Option<V>,
    root: V,
    plans: Seq<Seq<Ask<K>>>,
    fallback: Option<V>,
    value: Option<V>,
)
    requires
        agrees(answers, model),
        resolves_to(answers, root, plans, fallback, value),
    ensures
        value == resolution(model, root, plans, fallback),
{
    let end = choose|end: Option<V>| #[trigger]
        walks_to(answers, root, plans, end) && value == settled(end, fallback);
    lemma_walk_determined(answers, model, root, plans, end);
}

/// What a resolution can give is what `resolution` gives, on every graph
/// that answers as it does.
pub proof fn lemma_resolves_as_modelled<V, K>(
    answers: spec_fn(V, Ask<K>, Option<V>) -> bool,
    root: V,
    plans: Seq<Seq<Ask<K>>>,
    fallback: Option<V>,
    value: Option<V>,
)
    requires
        resolves_to(answers, root, plans, fallback, value),
    ensures
        forall|model: spec_fn(V, Ask<K>) -> Option<V>| #[trigger]
            agrees(answers, model) ==> value == resolution(model, root, plans, fallback),
{
    assert forall|model: spec_fn(V, Ask<K>) -> Option<V>| #[trigger]
        agrees(answers, model) implies value == resolution(model, root, plans, fallback) by {
        lemma_resolution_determined(answers, model, root, plans, fallback, value);
    }
}

/// A lookup that answers as `model` says gives a graph that does.
pub proof fn lemma_described_agrees<V, K, F: Fn(&V, &Probe<'_, K>) -> Option<V>>(
    lookup: F,
    model: spec_fn(V, Ask<K>) -> Option<V>,
)
    requires
        describes(lookup, model),
    ensures
        agrees(answers_by(lookup), model),
{
    assert forall|node: V, ask: Ask<K>, reply: Option<V>| #[trigger]
        answers_by(lookup)(node, ask, reply) implies reply == model(node, ask) by {
        assert(may_answer(lookup, node, ask, reply));
    }
}

/// What a resolution by a lookup can give is what `resolution` gives, on
/// every graph that the lookup answers as.
pub proof fn lemma_resolves_as_described<V, K, F: Fn(&V, &Probe<'_, K>) -> Option<V>>(
    lookup: F,
    root: V,
    plans: Seq<Seq<Ask<K>>>,
    fallback: Option<V>,
    value: Option<V>,
)
    requires
        resolves_to(answers_by(lookup), root, plans, fallback, value),
    ensures
        forall|model: spec_fn(V, Ask<K>) -> Option<V>| #[trigger]
            describes(lookup, model) ==> value == resolution(model, root, plans, fallback),
{
    assert forall|model: spec_fn(V, Ask<K>) -> Option<V>| #[trigger]
        describes(lookup, model) implies value == resolution(model, root, plans, fallback) by {
        lemma_described_agrees(lookup, model);
        lemma_resolution_determined(answers_by(lookup), model, root, plans, fallback, value);
    }
}

} // verus!
