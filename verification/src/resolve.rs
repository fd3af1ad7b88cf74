//! The resolver: it follows a path through a graph of nodes, one key at a
//! time, from the root. What a node holds is learned only by asking it, so
//! the caller hands in the lookup that asks. The contracts say which
//! questions lead to the result, whatever the lookup answers.

use crate::model::{describes, lemma_resolves_as_described, resolution};
use crate::probe::{asks, key_plans, key_probes, path_plans, segment_probes, Ask, Key, Probe};
use crate::text::{segments, split_path, texts};
use vstd::prelude::*;

verus! {

/// `reply` is an answer that `lookup` can give when `node` is asked `ask`.
pub open spec fn may_answer<V, K, F: Fn(&V, &Probe<'_, K>) -> Option<V>>(
    lookup: F,
    node: V,
    ask: Ask<K>,
    reply: Option<V>,
) -> bool {
    exists|probe: Probe<'_, K>| probe@ == ask && #[trigger] lookup.ensures((&node, &probe), reply)
}

/// The answers that `lookup` can give, as a relation between a node, a
/// question and a reply. A graph is known to the resolver as such a
/// relation, and as nothing else.
pub open spec fn answers_by<V, K, F: Fn(&V, &Probe<'_, K>) -> Option<V>>(lookup: F) -> spec_fn(
    V,
    Ask<K>,
    Option<V>,
) -> bool {
    |node: V, ask: Ask<K>, reply: Option<V>| may_answer(lookup, node, ask, reply)
}

/// `lookup` may be asked `ask` at `node`.
pub open spec fn accepts<V, K, F: Fn(&V, &Probe<'_, K>) -> Option<V>>(
    lookup: F,
    node: V,
    ask: Ask<K>,
) -> bool {
    forall|probe: Probe<'_, K>| probe@ == ask ==> #[trigger] lookup.requires((&node, &probe))
}

/// `lookup` may be asked every question at every node.
pub open spec fn answers_all<V, K, F: Fn(&V, &Probe<'_, K>) -> Option<V>>(lookup: F) -> bool {
    forall|node: V, probe: Probe<'_, K>| #[trigger] lookup.requires((&node, &probe))
}

/// The first `count` probes of `plan` can all go unanswered at `node`.
pub open spec fn misses<V, K>(
    answers: spec_fn(V, Ask<K>, Option<V>) -> bool,
    node: V,
    plan: Seq<Ask<K>>,
    count: int,
) -> bool {
    forall|j: int| 0 <= j < count ==> answers(node, #[trigger] plan[j], None::<V>)
}

/// The probe at position `at` of `plan` can lead from `node` to `next`,
/// after all the probes before it went unanswered.
pub open spec fn hits_at<V, K>(
    answers: spec_fn(V, Ask<K>, Option<V>) -> bool,
    node: V,
    plan: Seq<Ask<K>>,
    at: int,
    next: V,
) -> bool {
    &&& 0 <= at < plan.len()
    &&& misses(answers, node, plan, at)
    &&& answers(node, plan[at], Some(next))
}

/// `lookup` may be asked every probe of `plan` that a step at `node` can
/// come to: the first one, and each one whose forerunners can all go
/// unanswered.
pub open spec fn step_allowed<V, K, F: Fn(&V, &Probe<'_, K>) -> Option<V>>(
    lookup: F,
    node: V,
    plan: Seq<Ask<K>>,
) -> bool {
    forall|at: int|
        0 <= at < plan.len() && misses(answers_by(lookup), node, plan, at) ==> accepts(
            lookup,
            node,
            #[trigger] plan[at],
        )
}

/// One step: `plan` can lead from `node` to `next`.
pub open spec fn steps_to<V, K>(
    answers: spec_fn(V, Ask<K>, Option<V>) -> bool,
    node: V,
    plan: Seq<Ask<K>>,
    next: V,
) -> bool {
    exists|at: int| hits_at(answers, node, plan, at, next)
}

/// A failed step: every probe of `plan` can go unanswered at `node`.
pub open spec fn stops_at<V, K>(
    answers: spec_fn(V, Ask<K>, Option<V>) -> bool,
    node: V,
    plan: Seq<Ask<K>>,
) -> bool {
    misses(answers, node, plan, plan.len() as int)
}

/// `trail` is a way into the graph along `plans`: it starts at `root`, and
/// each of its nodes is reached from the one before by the plan of that
/// position.
pub open spec fn follows<V, K>(
    answers: spec_fn(V, Ask<K>, Option<V>) -> bool,
    root: V,
    plans: Seq<Seq<Ask<K>>>,
    trail: Seq<V>,
) -> bool {
    &&& 1 <= trail.len() <= plans.len() + 1
    &&& trail[0] == root
    &&& forall|i: int|
        0 <= i < trail.len() - 1 ==> steps_to(answers, trail[i], #[trigger] plans[i], trail[i + 1])
}

/// `lookup` may be asked whatever the walk from `root` along `plans` can
/// come to ask. Nothing is demanded for a key behind a step that must fail,
/// nor for a probe behind one that must be answered.
pub open spec fn walk_allowed<V, K, F: Fn(&V, &Probe<'_, K>) -> Option<V>>(
    lookup: F,
    root: V,
    plans: Seq<Seq<Ask<K>>>,
) -> bool {
    forall|trail: Seq<V>| #[trigger]
        follows(answers_by(lookup), root, plans, trail) && trail.len() <= plans.len()
            ==> step_allowed(lookup, trail.last(), plans[trail.len() - 1])
}

/// A lookup that may be asked anything may be asked whatever a walk comes
/// to ask.
pub proof fn lemma_answers_all_allows<V, K, F: Fn(&V, &Probe<'_, K>) -> Option<V>>(
    lookup: F,
    root: V,
    plans: Seq<Seq<Ask<K>>>,
)
    requires
        answers_all(lookup),
    ensures
        walk_allowed(lookup, root, plans),
{
}

/// `trail` ends the walk along `plans` with `end`: either it has taken
/// every step and `end` is its last node, or the step behind its last node
/// fails and `end` is nothing.
pub open spec fn ends_with<V, K>(
    answers: spec_fn(V, Ask<K>, Option<V>) -> bool,
    plans: Seq<Seq<Ask<K>>>,
    trail: Seq<V>,
    end: Option<V>,
) -> bool {
    match end {
        Some(node) => trail.len() == plans.len() + 1 && trail.last() == node,
        None => trail.len() <= plans.len() && stops_at(
            answers,
            trail.last(),
            plans[trail.len() - 1],
        ),
    }
}

/// The walk from `root` along `plans` can end with `end`: the node behind
/// the last step, or nothing where a step fails. No step behind a failed
/// one is part of it.
pub open spec fn walks_to<V, K>(
    answers: spec_fn(V, Ask<K>, Option<V>) -> bool,
    root: V,
    plans: Seq<Seq<Ask<K>>>,
    end: Option<V>,
) -> bool {
    exists|trail: Seq<V>| #[trigger]
        follows(answers, root, plans, trail) && ends_with(answers, plans, trail, end)
}

/// The value of a resolution: the node that was found, and the fallback
/// where none was.
pub open spec fn settled<V>(found: Option<V>, fallback: Option<V>) -> Option<V> {
    match found {
        Some(node) => Some(node),
        None => fallback,
    }
}

/// The resolution from `root` along `plans` can have the value `value`.
pub open spec fn resolves_to<V, K>(
    answers: spec_fn(V, Ask<K>, Option<V>) -> bool,
    root: V,
    plans: Seq<Seq<Ask<K>>>,
    fallback: Option<V>,
    value: Option<V>,
) -> bool {
    exists|end: Option<V>| #[trigger]
        walks_to(answers, root, plans, end) && value == settled(end, fallback)
}

/// Without a plan the resolution has the root as its value, whatever the
/// fallback.
pub proof fn lemma_no_plan_resolves_to_root<V, K>(
    answers: spec_fn(V, Ask<K>, Option<V>) -> bool,
    root: V,
    fallback: Option<V>,
)
    ensures
        resolves_to(answers, root, Seq::<Seq<Ask<K>>>::empty(), fallback, Some(root)),
{
    let plans = Seq::<Seq<Ask<K>>>::empty();
    let end = Some(root);
    assert(follows(answers, root, plans, seq![root]));
    assert(ends_with(answers, plans, seq![root], end));
    assert(walks_to(answers, root, plans, end) && end == settled(end, fallback));
}

/// A way into the graph goes on by one step: with the node that the next
/// plan leads to behind it, it is a way along the plans still.
pub proof fn lemma_trail_grows<V, K>(
    answers: spec_fn(V, Ask<K>, Option<V>) -> bool,
    root: V,
    plans: Seq<Seq<Ask<K>>>,
    trail: Seq<V>,
    next: V,
)
    requires
        follows(answers, root, plans, trail),
        trail.len() <= plans.len(),
        steps_to(answers, trail.last(), plans[trail.len() - 1], next),
    ensures
        follows(answers, root, plans, trail.push(next)),
{
    let longer = trail.push(next);
    assert forall|j: int| 0 <= j < longer.len() - 1 implies steps_to(
        answers,
        longer[j],
        #[trigger] plans[j],
        longer[j + 1],
    ) by {
        if j < trail.len() - 1 {
            assert(longer[j] == trail[j] && longer[j + 1] == trail[j + 1]);
        }
    }
}

/// `wide` holds wherever `narrow` does.
pub open spec fn within<V, K>(
    narrow: spec_fn(V, Ask<K>, Option<V>) -> bool,
    wide: spec_fn(V, Ask<K>, Option<V>) -> bool,
) -> bool {
    forall|node: V, ask: Ask<K>, reply: Option<V>| #[trigger]
        narrow(node, ask, reply) ==> wide(node, ask, reply)
}

/// What a resolution can give on a graph, it can give on every graph that
/// can answer all that the first can.
pub proof fn lemma_resolves_within<V, K>(
    narrow: spec_fn(V, Ask<K>, Option<V>) -> bool,
    wide: spec_fn(V, Ask<K>, Option<V>) -> bool,
    root: V,
    plans: Seq<Seq<Ask<K>>>,
    fallback: Option<V>,
    value: Option<V>,
)
    requires
        within(narrow, wide),
        resolves_to(narrow, root, plans, fallback, value),
    ensures
        resolves_to(wide, root, plans, fallback, value),
{
    let end = choose|end: Option<V>| #[trigger]
        walks_to(narrow, root, plans, end) && value == settled(end, fallback);
    let trail = choose|trail: Seq<V>| #[trigger]
        follows(narrow, root, plans, trail) && ends_with(narrow, plans, trail, end);
    assert forall|i: int| 0 <= i < trail.len() - 1 implies steps_to(
        wide,
        trail[i],
        #[trigger] plans[i],
        trail[i + 1],
    ) by {
        let node = trail[i];
        let next = trail[i + 1];
        let plan = plans[i];
        assert(steps_to(narrow, node, plan, next));
        let at = choose|at: int| hits_at(narrow, node, plan, at, next);
        assert(hits_at(wide, node, plan, at, next));
    }
    assert(follows(wide, root, plans, trail));
    assert(ends_with(wide, plans, trail, end));
    assert(walks_to(wide, root, plans, end) && value == settled(end, fallback));
}

/// The plans that a call follows: those of the key sequence if it is not
/// empty, else those of the path string if there is one, else none.
pub open spec fn chosen_plans<K>(keys: Seq<Key<K>>, path: Option<Seq<char>>, sep: Seq<char>) -> Seq<
    Seq<Ask<K>>,
> {
    if keys.len() > 0 {
        key_plans(keys)
    } else {
        match path {
            Some(text) => path_plans(text, sep),
            None => Seq::empty(),
        }
    }
}

/// The value of a resolution: the node that was found, and the fallback
/// where none was.
pub fn settle<V>(found: Option<V>, fallback: Option<V>) -> (value: Option<V>)
    ensures
        value == settled(found, fallback),
{
    match found {
        Some(node) => Some(node),
        None => fallback,
    }
}

/// Asks `node` the probes in order and gives the first answer. It asks
/// nothing behind the probe that was answered.
pub fn first_found<V, K, F: Fn(&V, &Probe<'_, K>) -> Option<V>>(
    node: &V,
    probes: &Vec<Probe<'_, K>>,
    lookup: &F,
) -> (next: Option<V>)
    requires
        step_allowed(*lookup, *node, asks(probes@)),
    ensures
        match next {
            Some(found) => steps_to(answers_by(*lookup), *node, asks(probes@), found),
            None => stops_at(answers_by(*lookup), *node, asks(probes@)),
        },
{
    let mut i: usize = 0;
    while i < probes.len()
        invariant
            i <= probes.len(),
            step_allowed(*lookup, *node, asks(probes@)),
            misses(answers_by(*lookup), *node, asks(probes@), i as int),
        decreases probes.len() - i,
    {
        assert(accepts(*lookup, *node, asks(probes@)[i as int]));
        let reply = lookup(node, &probes[i]);
        assert(may_answer(*lookup, *node, asks(probes@)[i as int], reply));
        match reply {
            Some(found) => {
                assert(hits_at(answers_by(*lookup), *node, asks(probes@), i as int, found));
                return Some(found);
            },
            None => {},
        }
        i += 1;
    }
    None
}

/// Follows the segments of `path` from `root`. The empty path leads to the
/// root itself. The result is nothing where a segment leads nowhere; the
/// segments behind that one are not looked at.
pub fn follow_path<V, K, F: Fn(&V, &Probe<'_, K>) -> Option<V>>(
    root: V,
    path: &str,
    sep: &str,
    lookup: &F,
) -> (end: Option<V>)
    requires
        walk_allowed(*lookup, root, path_plans::<K>(path@, sep@)),
    ensures
        walks_to(answers_by(*lookup), root, path_plans::<K>(path@, sep@), end),
        path@.len() == 0 ==> end == Some(root),
{
    let ghost plans = path_plans::<K>(path@, sep@);
    let ghost mut trail = seq![root];
    if path.unicode_len() == 0 {
        assert(follows(answers_by(*lookup), root, plans, trail));
        return Some(root);
    }
    let segs = split_path(path, sep);
    let mut node = root;
    let mut i: usize = 0;
    while i < segs.len()
        invariant
            i <= segs.len(),
            walk_allowed(*lookup, root, plans),
            path@.len() > 0,
            texts(segs@) == segments(path@, sep@),
            plans == path_plans::<K>(path@, sep@),
            follows(answers_by(*lookup), root, plans, trail),
            trail.len() == i + 1,
            trail.last() == node,
        decreases segs.len() - i,
    {
        assert(texts(segs@)[i as int] == segs@[i as int]@);
        let probes = segment_probes::<K>(segs[i]);
        assert(asks(probes@) == plans[i as int]);
        assert(step_allowed(*lookup, trail.last(), plans[trail.len() - 1]));
        match first_found(&node, &probes, lookup) {
            Some(next) => {
                proof {
                    lemma_trail_grows(answers_by(*lookup), root, plans, trail, next);
                    trail = trail.push(next);
                }
                node = next;
            },
            None => {
                assert(ends_with(answers_by(*lookup), plans, trail, None::<V>));
                return None;
            },
        }
        i += 1;
    }
    assert(ends_with(answers_by(*lookup), plans, trail, Some(node)));
    Some(node)
}

/// Follows the keys from `root`, each used as it is given. No key leads to
/// the root itself. The result is nothing where a key leads nowhere; the
/// keys behind that one are not looked at.
pub fn follow_keys<V, K, F: Fn(&V, &Probe<'_, K>) -> Option<V>>(
    root: V,
    keys: &Vec<Key<K>>,
    lookup: &F,
) -> (end: Option<V>)
    requires
        walk_allowed(*lookup, root, key_plans(keys@)),
    ensures
        walks_to(answers_by(*lookup), root, key_plans(keys@), end),
        keys@.len() == 0 ==> end == Some(root),
{
    let ghost plans = key_plans(keys@);
    let ghost mut trail = seq![root];
    let mut node = root;
    let mut i: usize = 0;
    while i < keys.len()
        invariant
            i <= keys.len(),
            walk_allowed(*lookup, root, plans),
            plans == key_plans(keys@),
            follows(answers_by(*lookup), root, plans, trail),
            trail.len() == i + 1,
            trail.last() == node,
        decreases keys.len() - i,
    {
        let probes = key_probes(&keys[i]);
        assert(asks(probes@) == plans[i as int]);
        assert(step_allowed(*lookup, trail.last(), plans[trail.len() - 1]));
        match first_found(&node, &probes, lookup) {
            Some(next) => {
                proof {
                    lemma_trail_grows(answers_by(*lookup), root, plans, trail, next);
                    trail = trail.push(next);
                }
                node = next;
            },
            None => {
                assert(ends_with(answers_by(*lookup), plans, trail, None::<V>));
                return None;
            },
        }
        i += 1;
    }
    assert(ends_with(answers_by(*lookup), plans, trail, Some(node)));
    Some(node)
}

/// Resolves a path string: the node that the segments of `path` lead to
/// from `root`, and `fallback` where a segment leads nowhere. The empty
/// path resolves to the root, whatever the fallback.
pub fn resolve_path<V, K, F: Fn(&V, &Probe<'_, K>) -> Option<V>>(
    root: V,
    path: &str,
    sep: &str,
    fallback: Option<V>,
    lookup: &F,
) -> (value: Option<V>)
    requires
        walk_allowed(*lookup, root, path_plans::<K>(path@, sep@)),
    ensures
        resolves_to(answers_by(*lookup), root, path_plans::<K>(path@, sep@), fallback, value),
        path@.len() == 0 ==> value == Some(root),
        forall|model: spec_fn(V, Ask<K>) -> Option<V>| #[trigger]
            describes(*lookup, model) ==> value == resolution(
                model,
                root,
                path_plans::<K>(path@, sep@),
                fallback,
            ),
{
    let end = follow_path(root, path, sep, lookup);
    let value = settle(end, fallback);
    proof {
        let plans = path_plans::<K>(path@, sep@);
        assert(walks_to(answers_by(*lookup), root, plans, end) && value == settled(end, fallback));
        lemma_resolves_as_described(*lookup, root, plans, fallback, value);
    }
    value
}

/// Resolves a key sequence: the node that the keys lead to from `root`, and
/// `fallback` where a key leads nowhere. No key resolves to the root,
/// whatever the fallback.
pub fn resolve_keys<V, K, F: Fn(&V, &Probe<'_, K>) -> Option<V>>(
    root: V,
    keys: &Vec<Key<K>>,
    fallback: Option<V>,
    lookup: &F,
) -> (value: Option<V>)
    requires
        walk_allowed(*lookup, root, key_plans(keys@)),
    ensures
        resolves_to(answers_by(*lookup), root, key_plans(keys@), fallback, value),
        keys@.len() == 0 ==> value == Some(root),
        forall|model: spec_fn(V, Ask<K>) -> Option<V>| #[trigger]
            describes(*lookup, model) ==> value == resolution(
                model,
                root,
                key_plans(keys@),
                fallback,
            ),
{
    let end = follow_keys(root, keys, lookup);
    let value = settle(end, fallback);
    proof {
        let plans = key_plans(keys@);
        assert(walks_to(answers_by(*lookup), root, plans, end) && value == settled(end, fallback));
        lemma_resolves_as_described(*lookup, root, plans, fallback, value);
    }
    value
}

/// The characters of the path string of a call, if it has one.
pub open spec fn path_text(path: Option<&str>) -> Option<Seq<char>> {
    match path {
        Some(text) => Some(text@),
        None => None,
    }
}

/// Resolves by the key sequence if it is not empty, and the path string is
/// then ignored; else by the path string if there is one; else to the root.
pub fn resolve<V, K, F: Fn(&V, &Probe<'_, K>) -> Option<V>>(
    root: V,
    keys: &Vec<Key<K>>,
    path: Option<&str>,
    sep: &str,
    fallback: Option<V>,
    lookup: &F,
) -> (value: Option<V>)
    requires
        walk_allowed(*lookup, root, chosen_plans(keys@, path_text(path), sep@)),
    ensures
        resolves_to(answers_by(*lookup), root, chosen_plans(keys@, path_text(path), sep@), fallback, value),
        chosen_plans(keys@, path_text(path), sep@).len() == 0 ==> value == Some(root),
        forall|model: spec_fn(V, Ask<K>) -> Option<V>| #[trigger]
            describes(*lookup, model) ==> value == resolution(
                model,
                root,
                chosen_plans(keys@, path_text(path), sep@),
                fallback,
            ),
{
    if keys.len() > 0 {
        resolve_keys(root, keys, fallback, lookup)
    } else {
        match path {
            Some(text) => resolve_path(root, text, sep, fallback, lookup),
            None => {
                proof {
                    let plans = Seq::<Seq<Ask<K>>>::empty();
                    let end = Some(root);
                    lemma_no_plan_resolves_to_root(answers_by(*lookup), root, fallback);
                    lemma_resolves_as_described(*lookup, root, plans, fallback, end);
                }
                Some(root)
            },
        }
    }
}

} // verus!
