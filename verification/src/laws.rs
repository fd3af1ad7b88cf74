//! What holds of every resolution on a graph that answers in one way only.

use crate::model::{agrees, first_hit, lemma_resolution_determined, resolution, walk};
use crate::probe::{key_plan, key_plans, path_plans, segment_plan, Ask, Key};
use crate::resolve::{chosen_plans, resolves_to};
use crate::text::{index_of, segments};
use vstd::prelude::*;

verus! {

/// The segments of a path string: none for the empty path, else those that
/// the separator cuts it into.
pub open spec fn path_segments(path: Seq<char>, sep: Seq<char>) -> Seq<Seq<char>> {
    if path.len() == 0 {
        Seq::empty()
    } else {
        segments(path, sep)
    }
}

/// The plan that takes a label by the letter only: the item under it, then
/// the member of that name.
pub open spec fn literal_plan<K>(label: Seq<char>) -> Seq<Ask<K>> {
    seq![Ask::ItemByLabel(label), Ask::MemberByLabel(label)]
}

/// The literal plans of a row of labels.
pub open spec fn literal_plans<K>(labels: Seq<Seq<char>>) -> Seq<Seq<Ask<K>>> {
    Seq::new(labels.len(), |i: int| literal_plan(labels[i]))
}

/// The key `key` is the text `label`: every node holds under the key, as
/// an item and as a member, what it holds under the label.
pub open spec fn spells<V, K>(
    model: spec_fn(V, Ask<K>) -> Option<V>,
    key: K,
    label: Seq<char>,
) -> bool {
    forall|node: V|
        {
            &&& #[trigger] model(node, Ask::ItemByKey(key)) == model(node, Ask::ItemByLabel(label))
            &&& #[trigger] model(node, Ask::MemberByKey(key)) == model(
                node,
                Ask::MemberByLabel(label),
            )
        }
}

/// The keys are the labels, one by one, each a text key.
pub open spec fn spell_all<V, K>(
    model: spec_fn(V, Ask<K>) -> Option<V>,
    keys: Seq<Key<K>>,
    labels: Seq<Seq<char>>,
) -> bool {
    &&& keys.len() == labels.len()
    &&& forall|i: int|
        0 <= i < keys.len() ==> match #[trigger] keys[i] {
            Key::Text(key) => spells(model, key, labels[i]),
            Key::Other(_) => false,
        }
}

/// A plan of one probe gives that probe's answer.
pub proof fn lemma_first_hit_of_one<V, K>(
    model: spec_fn(V, Ask<K>) -> Option<V>,
    node: V,
    a: Ask<K>,
)
    ensures
        first_hit(model, node, seq![a]) == model(node, a),
{
    reveal_with_fuel(first_hit, 2);
    assert(seq![a].first() == a);
    assert(seq![a].drop_first().len() == 0);
}

/// A plan of two probes gives the first one's answer, and the second one's
/// where the first has none.
pub proof fn lemma_first_hit_of_two<V, K>(
    model: spec_fn(V, Ask<K>) -> Option<V>,
    node: V,
    a: Ask<K>,
    b: Ask<K>,
)
    ensures
        first_hit(model, node, seq![a, b]) == (if model(node, a) is Some {
            model(node, a)
        } else {
            model(node, b)
        }),
{
    assert(seq![a, b].first() == a);
    assert(seq![a, b].drop_first() =~= seq![b]);
    lemma_first_hit_of_one(model, node, b);
}

/// A plan of three probes gives the answer of the first of them that has
/// one.
pub proof fn lemma_first_hit_of_three<V, K>(
    model: spec_fn(V, Ask<K>) -> Option<V>,
    node: V,
    a: Ask<K>,
    b: Ask<K>,
    c: Ask<K>,
)
    ensures
        first_hit(model, node, seq![a, b, c]) == (if model(node, a) is Some {
            model(node, a)
        } else if model(node, b) is Some {
            model(node, b)
        } else {
            model(node, c)
        }),
{
    assert(seq![a, b, c].first() == a);
    assert(seq![a, b, c].drop_first() =~= seq![b, c]);
    lemma_first_hit_of_two(model, node, b, c);
}

/// A walk along `plans` is the walk along their first `k`, and from its end
/// the walk along the rest.
pub proof fn lemma_walk_in_two<V, K>(
    model: spec_fn(V, Ask<K>) -> Option<V>,
    root: V,
    plans: Seq<Seq<Ask<K>>>,
    k: int,
)
    requires
        0 <= k <= plans.len(),
    ensures
        walk(model, root, plans) == (match walk(model, root, plans.take(k)) {
            Some(node) => walk(model, node, plans.skip(k)),
            None => None,
        }),
    decreases k,
{
    if k == 0 {
        assert(plans.skip(0) =~= plans);
    } else {
        assert(plans.take(k).first() == plans.first());
        match first_hit(model, root, plans.first()) {
            Some(next) => {
                lemma_walk_in_two(model, next, plans.drop_first(), k - 1);
                assert(plans.take(k).drop_first() =~= plans.drop_first().take(k - 1));
                assert(plans.drop_first().skip(k - 1) =~= plans.skip(k));
            },
            None => {},
        }
    }
}

/// The empty path and the empty key sequence resolve to the root, whatever
/// the fallback.
pub proof fn law_empty_path_is_root<V, K>(
    model: spec_fn(V, Ask<K>) -> Option<V>,
    root: V,
    sep: Seq<char>,
    fallback: Option<V>,
)
    ensures
        resolution(model, root, path_plans::<K>(Seq::empty(), sep), fallback) == Some(root),
        resolution(model, root, key_plans::<K>(Seq::empty()), fallback) == Some(root),
        resolution(model, root, chosen_plans::<K>(Seq::empty(), None, sep), fallback) == Some(
            root,
        ),
{
}

/// The step for a segment of a path string: the item under the segment as
/// a label wins; then the member of that name; only where the node holds
/// neither, and the segment spells a position, the item at that position.
pub proof fn law_literal_before_position<V, K>(
    model: spec_fn(V, Ask<K>) -> Option<V>,
    node: V,
    segment: Seq<char>,
)
    ensures
        first_hit(model, node, segment_plan(segment)) == (if model(
            node,
            Ask::ItemByLabel(segment),
        ) is Some {
            model(node, Ask::ItemByLabel(segment))
        } else if model(node, Ask::MemberByLabel(segment)) is Some {
            model(node, Ask::MemberByLabel(segment))
        } else {
            match index_of(segment) {
                Some(position) => model(node, Ask::ItemAt(position)),
                None => None,
            }
        }),
{
    let item = Ask::<K>::ItemByLabel(segment);
    let member = Ask::<K>::MemberByLabel(segment);
    match index_of(segment) {
        Some(position) => {
            assert(segment_plan::<K>(segment) =~= seq![item, member, Ask::ItemAt(position)]);
            lemma_first_hit_of_three(model, node, item, member, Ask::ItemAt(position));
        },
        None => {
            assert(segment_plan::<K>(segment) =~= seq![item, member]);
            lemma_first_hit_of_two(model, node, item, member);
        },
    }
}

/// The step for a key of a key sequence: the item under the key; for a text
/// key, where the node holds no such item, the member that the key names;
/// nothing else.
pub proof fn law_key_step<V, K>(model: spec_fn(V, Ask<K>) -> Option<V>, node: V, key: Key<K>)
    ensures
        first_hit(model, node, key_plan(key)) == (match key {
            Key::Text(k) => if model(node, Ask::ItemByKey(k)) is Some {
                model(node, Ask::ItemByKey(k))
            } else {
                model(node, Ask::MemberByKey(k))
            },
            Key::Other(k) => model(node, Ask::ItemByKey(k)),
        }),
{
    match key {
        Key::Text(k) => {
            lemma_first_hit_of_two(model, node, Ask::ItemByKey(k), Ask::MemberByKey(k));
        },
        Key::Other(k) => {
            lemma_first_hit_of_one(model, node, Ask::ItemByKey(k));
        },
    }
}

/// Where the first `k` plans lead to a node at which the next step fails,
/// the resolution is the fallback: nothing, if none was given.
pub proof fn law_failed_step_gives_fallback<V, K>(
    model: spec_fn(V, Ask<K>) -> Option<V>,
    root: V,
    plans: Seq<Seq<Ask<K>>>,
    fallback: Option<V>,
    k: int,
    node: V,
)
    requires
        0 <= k < plans.len(),
        walk(model, root, plans.take(k)) == Some(node),
        first_hit(model, node, plans[k]) is None,
    ensures
        walk(model, root, plans) is None,
        resolution(model, root, plans, fallback) == fallback,
        resolution(model, root, plans, None) is None,
{
    lemma_walk_in_two(model, root, plans, k);
    assert(plans.skip(k).first() == plans[k]);
}

/// Nothing behind a failed step counts: two rows of plans that agree up to
/// a step that fails resolve alike, whatever stands behind that step.
pub proof fn law_failed_step_ends_the_walk<V, K>(
    model: spec_fn(V, Ask<K>) -> Option<V>,
    root: V,
    plans: Seq<Seq<Ask<K>>>,
    other: Seq<Seq<Ask<K>>>,
    fallback: Option<V>,
    k: int,
    node: V,
)
    requires
        0 <= k < plans.len(),
        k < other.len(),
        other.take(k + 1) == plans.take(k + 1),
        walk(model, root, plans.take(k)) == Some(node),
        first_hit(model, node, plans[k]) is None,
    ensures
        resolution(model, root, other, fallback) == fallback,
        resolution(model, root, other, fallback) == resolution(model, root, plans, fallback),
{
    assert(other.take(k) =~= other.take(k + 1).take(k));
    assert(plans.take(k) =~= plans.take(k + 1).take(k));
    assert(other[k] == other.take(k + 1)[k]);
    assert(plans[k] == plans.take(k + 1)[k]);
    law_failed_step_gives_fallback(model, root, plans, fallback, k, node);
    law_failed_step_gives_fallback(model, root, other, fallback, k, node);
}

/// Two rows of plans lead to the same node where, step by step, the second
/// finds whatever the first finds, and the first finds its way to the end.
pub proof fn lemma_walks_agree<V, K>(
    model: spec_fn(V, Ask<K>) -> Option<V>,
    root: V,
    first: Seq<Seq<Ask<K>>>,
    second: Seq<Seq<Ask<K>>>,
)
    requires
        first.len() == second.len(),
        forall|i: int, node: V|
            0 <= i < first.len() && (#[trigger] first_hit(model, node, first[i])) is Some
                ==> first_hit(model, node, second[i]) == first_hit(model, node, first[i]),
        walk(model, root, first) is Some,
    ensures
        walk(model, root, second) == walk(model, root, first),
    decreases first.len(),
{
    if first.len() > 0 {
        let next = first_hit(model, root, first[0])->0;
        assert(first_hit(model, root, second[0]) == Some(next));
        let a = first.drop_first();
        let b = second.drop_first();
        assert forall|i: int, node: V|
            0 <= i < a.len() && (#[trigger] first_hit(model, node, a[i])) is Some implies first_hit(
            model,
            node,
            b[i],
        ) == first_hit(model, node, a[i]) by {
            assert(a[i] == first[i + 1] && b[i] == second[i + 1]);
        }
        lemma_walks_agree(model, next, a, b);
    }
}

/// A path that leads to a node through items and members alone resolves to
/// that node, and so does the key sequence of its segments, one text key
/// for each: the path string and the keys are two ways to say one thing.
pub proof fn law_path_and_keys_agree<V, K>(
    model: spec_fn(V, Ask<K>) -> Option<V>,
    root: V,
    path: Seq<char>,
    sep: Seq<char>,
    keys: Seq<Key<K>>,
    fallback: Option<V>,
    found: V,
)
    requires
        spell_all(model, keys, path_segments(path, sep)),
        walk(model, root, literal_plans::<K>(path_segments(path, sep))) == Some(found),
    ensures
        resolution(model, root, path_plans::<K>(path, sep), fallback) == Some(found),
        resolution(model, root, key_plans(keys), fallback) == Some(found),
{
    let labels = path_segments(path, sep);
    let literal = literal_plans::<K>(labels);
    let by_path = path_plans::<K>(path, sep);
    let by_keys = key_plans(keys);
    assert forall|i: int, node: V|
        0 <= i < literal.len() && (#[trigger] first_hit(model, node, literal[i])) is Some implies {
        &&& first_hit(model, node, by_path[i]) == first_hit(model, node, literal[i])
        &&& first_hit(model, node, by_keys[i]) == first_hit(model, node, literal[i])
    } by {
        lemma_first_hit_of_two(
            model,
            node,
            Ask::ItemByLabel(labels[i]),
            Ask::MemberByLabel(labels[i]),
        );
        law_literal_before_position(model, node, labels[i]);
        law_key_step(model, node, keys[i]);
        match keys[i] {
            Key::Text(k) => {
                assert(spells(model, k, labels[i]));
                assert(model(node, Ask::ItemByKey(k)) == model(node, Ask::ItemByLabel(labels[i])));
                assert(model(node, Ask::MemberByKey(k)) == model(
                    node,
                    Ask::MemberByLabel(labels[i]),
                ));
            },
            Key::Other(_) => {},
        }
    }
    lemma_walks_agree(model, root, literal, by_path);
    lemma_walks_agree(model, root, literal, by_keys);
}

/// A key sequence that is not empty decides alone: the path string given
/// beside it changes nothing.
pub proof fn law_keys_come_before_path<V, K>(
    model: spec_fn(V, Ask<K>) -> Option<V>,
    root: V,
    keys: Seq<Key<K>>,
    path: Option<Seq<char>>,
    sep: Seq<char>,
    fallback: Option<V>,
)
    requires
        keys.len() > 0,
    ensures
        resolution(model, root, chosen_plans(keys, path, sep), fallback) == resolution(
            model,
            root,
            key_plans(keys),
            fallback,
        ),
{
}

/// The same for whatever a call can return, on a graph that answers in
/// one way only: where the path leads to a node through items and members
/// alone, a call with the path and no key, and a call with the keys of its
/// segments and no path, both return that node, whatever the fallback.
pub proof fn law_path_call_and_key_call_agree<V, K>(
    answers: spec_fn(V, Ask<K>, Option<V>) -> bool,
    model: spec_fn(V, Ask<K>) -> Option<V>,
    root: V,
    path: Seq<char>,
    sep: Seq<char>,
    keys: Seq<Key<K>>,
    fallback: Option<V>,
    found: V,
    by_path: Option<V>,
    by_keys: Option<V>,
)
    requires
        agrees(answers, model),
        spell_all(model, keys, path_segments(path, sep)),
        walk(model, root, literal_plans::<K>(path_segments(path, sep))) == Some(found),
        resolves_to(
            answers,
            root,
            chosen_plans(Seq::<Key<K>>::empty(), Some(path), sep),
            fallback,
            by_path,
        ),
        resolves_to(answers, root, chosen_plans(keys, None, sep), fallback, by_keys),
    ensures
        by_path == Some(found),
        by_keys == Some(found),
{
    law_path_and_keys_agree(model, root, path, sep, keys, fallback, found);
    lemma_resolution_determined(
        answers,
        model,
        root,
        chosen_plans(Seq::<Key<K>>::empty(), Some(path), sep),
        fallback,
        by_path,
    );
    lemma_resolution_determined(
        answers,
        model,
        root,
        chosen_plans(keys, None, sep),
        fallback,
        by_keys,
    );
    if keys.len() == 0 {
        assert(key_plans(keys) =~= Seq::<Seq<Ask<K>>>::empty());
    }
}

} // verus!
