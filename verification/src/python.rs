//! The resolver on Python objects. A node is any object; an item is what
//! subscripting gives, a member is an attribute. What an object answers is
//! for Python to decide, and may differ from one call to the next, so
//! nothing is claimed of the answers themselves: the contracts say which
//! call into Python a question is, and what is made of its outcome.
//!
//! The calls that ask an object are handed in by the caller, as function
//! values. Such a call runs code of the object's own, which may raise any
//! error, and pyo3 turns one error, its panic exception, into a panic of
//! the calling thread. Whoever makes the calls answers for that; the
//! functions here return whenever the calls handed to them do.

use crate::laws::{law_path_call_and_key_call_agree, literal_plans, path_segments, spell_all};
use crate::model::{agrees, lemma_resolves_as_modelled, resolution, walk};
use crate::probe::{key_plans, path_plans, Ask, Key, Probe};
use crate::resolve::{
    answers_by, chosen_plans, lemma_no_plan_resolves_to_root, lemma_resolves_within, resolve_keys,
    resolve_path, resolves_to, within,
};
use pyo3::types::{PyAny, PyString, PyTuple};
use pyo3::{Bound, PyErr};
use vstd::prelude::*;

verus! {

/// `pyo3::Bound`: a Python object, held while the interpreter lock is.
#[verifier::external_type_specification]
#[verifier::external_body]
#[verifier::reject_recursive_types(T)]
pub struct ExBound<'py, T>(Bound<'py, T>);

/// `pyo3::types::PyAny`: any Python object.
#[verifier::external_type_specification]
#[verifier::external_body]
pub struct ExPyAny(PyAny);

/// `pyo3::types::PyString`: a Python string.
#[verifier::external_type_specification]
#[verifier::external_body]
pub struct ExPyString(PyString);

/// `pyo3::types::PyTuple`: a Python tuple.
#[verifier::external_type_specification]
#[verifier::external_body]
pub struct ExPyTuple(PyTuple);

/// `pyo3::PyErr`: an error that Python raised.
#[verifier::external_type_specification]
#[verifier::external_body]
pub struct ExPyErr(PyErr);

/// The characters of a Python string, and nothing for a string that is no
/// valid Unicode text (one that holds a lone surrogate).
pub uninterp spec fn text_in(path: Bound<'_, PyString>) -> Option<Seq<char>>;

/// The items of a Python tuple, in order.
pub uninterp spec fn items_in(args: Bound<'_, PyTuple>) -> Seq<Bound<'_, PyAny>>;

/// Whether a Python object is a string: an instance of `str` or of a
/// subclass of it.
pub uninterp spec fn is_text(key: Bound<'_, PyAny>) -> bool;

/// Why a call could not be carried out.
pub enum DigError {
    /// The path is a string that cannot be read as text.
    UnreadablePath(PyErr),
}

/// `PyAnyMethods::downcast` to `PyString`: the object as a string. It
/// succeeds on the instances of `str` and of its subclasses, and on no
/// other object.
#[verifier::external_body]
fn as_text<'a, 'py>(key: &'a Bound<'py, PyAny>) -> (text: Option<&'a Bound<'py, PyString>>)
    ensures
        text is Some <==> is_text(*key),
{
    pyo3::types::PyAnyMethods::downcast::<PyString>(key).ok()
}

/// `PyStringMethods::to_cow`: the text of a Python string. It fails, with
/// Python's encoding error, on a string that is no valid Unicode text, and
/// on no other.
#[verifier::external_body]
fn text_of(path: &Bound<'_, PyString>) -> (text: Result<String, PyErr>)
    ensures
        match text {
            Ok(s) => text_in(*path) == Some(s@),
            Err(_) => text_in(*path) is None,
        },
{
    match pyo3::types::PyStringMethods::to_cow(path) {
        Ok(text) => Ok(text.into_owned()),
        Err(e) => Err(e),
    }
}

/// `PyTupleMethods::is_empty`: whether the tuple has no item.
#[verifier::external_body]
fn no_keys(args: &Bound<'_, PyTuple>) -> (none: bool)
    ensures
        none == (items_in(*args).len() == 0),
{
    pyo3::types::PyTupleMethods::is_empty(args)
}

/// `PyTupleMethods::iter`: the items of the tuple, in order.
#[verifier::external_body]
fn keys_of<'py>(args: &Bound<'py, PyTuple>) -> (items: Vec<Bound<'py, PyAny>>)
    ensures
        items@ == items_in(*args),
{
    pyo3::types::PyTupleMethods::iter(args).collect()
}

/// The calls into Python that a lookup is made of. Each takes the node
/// first.
pub struct Calls<I, M, P, K, N> {
    /// The item under a label: `node[label]`, with the label as a string.
    pub item_by_label: I,
    /// The member that a label names: `getattr(node, label)`.
    pub member_by_label: M,
    /// The item at a position: `node[position]`, with the position as an
    /// integer.
    pub item_at: P,
    /// The item under a key: `node[key]`, with the key as it is.
    pub item_by_key: K,
    /// The member that a string names: `getattr(node, name)`.
    pub member_by_name: N,
}

/// Every call may be made on every node, with every label, position, key
/// or name.
pub open spec fn all_accepted<'py, I, M, P, K, N>(calls: Calls<I, M, P, K, N>) -> bool where
    I: Fn(&Bound<'py, PyAny>, &str) -> Result<Bound<'py, PyAny>, PyErr>,
    M: Fn(&Bound<'py, PyAny>, &str) -> Result<Bound<'py, PyAny>, PyErr>,
    P: Fn(&Bound<'py, PyAny>, usize) -> Result<Bound<'py, PyAny>, PyErr>,
    K: Fn(&Bound<'py, PyAny>, &Bound<'py, PyAny>) -> Result<Bound<'py, PyAny>, PyErr>,
    N: Fn(&Bound<'py, PyAny>, &Bound<'py, PyString>) -> Result<Bound<'py, PyAny>, PyErr>,
 {
    &&& forall|node: &Bound<'py, PyAny>, label: &str| #[trigger]
        call_requires(calls.item_by_label, (node, label))
    &&& forall|node: &Bound<'py, PyAny>, label: &str| #[trigger]
        call_requires(calls.member_by_label, (node, label))
    &&& forall|node: &Bound<'py, PyAny>, position: usize| #[trigger]
        call_requires(calls.item_at, (node, position))
    &&& forall|node: &Bound<'py, PyAny>, key: &Bound<'py, PyAny>| #[trigger]
        call_requires(calls.item_by_key, (node, key))
    &&& forall|node: &Bound<'py, PyAny>, name: &Bound<'py, PyString>| #[trigger]
        call_requires(calls.member_by_name, (node, name))
}

/// Whether `probe` asks for the member that a key names, and the key is no
/// string.
pub open spec fn names_no_member(probe: Probe<'_, Bound<'_, PyAny>>) -> bool {
    match probe {
        Probe::MemberByKey(key) => !is_text(*key),
        _ => false,
    }
}

/// What a call into Python comes to as an answer: the object that it gave,
/// and no answer where Python raised an error, whatever the error.
pub open spec fn answer_of(outcome: Result<Bound<'_, PyAny>, PyErr>) -> Option<Bound<'_, PyAny>> {
    match outcome {
        Ok(found) => Some(found),
        Err(_) => None,
    }
}

/// Takes what a call into Python gave as the answer to a probe. Only what
/// a call returned comes here.
pub fn answer<'py>(outcome: Result<Bound<'py, PyAny>, PyErr>) -> (reply: Option<
    Bound<'py, PyAny>,
>)
    ensures
        reply == answer_of(outcome),
{
    match outcome {
        Ok(found) => Some(found),
        Err(_) => None,
    }
}

/// `name` is `key` as a string: what the downcast of `key` to a string
/// gives.
pub closed spec fn as_name<'py>(key: &Bound<'py, PyAny>, name: &Bound<'py, PyString>) -> bool {
    call_ensures(as_text, (key,), Some(name))
}

/// `reply` is an answer that Python can give to `probe` at `node`, by the
/// call that the probe names, on the node and on what the probe holds:
/// - an item by a label is asked for by `item_by_label`;
/// - a member by a label by `member_by_label`;
/// - an item at a position by `item_at`;
/// - an item by a key by `item_by_key`, with the key as it is;
/// - a member by a key by `member_by_name`, with the key as a string, and
///   not at all where the key is no string: the reply is then nothing.
/// What the call gives is taken as `answer_of` says.
pub open spec fn asked_of_python<'py, I, M, P, K, N>(
    calls: Calls<I, M, P, K, N>,
    node: &Bound<'py, PyAny>,
    probe: Probe<'_, Bound<'py, PyAny>>,
    reply: Option<Bound<'py, PyAny>>,
) -> bool where
    I: Fn(&Bound<'py, PyAny>, &str) -> Result<Bound<'py, PyAny>, PyErr>,
    M: Fn(&Bound<'py, PyAny>, &str) -> Result<Bound<'py, PyAny>, PyErr>,
    P: Fn(&Bound<'py, PyAny>, usize) -> Result<Bound<'py, PyAny>, PyErr>,
    K: Fn(&Bound<'py, PyAny>, &Bound<'py, PyAny>) -> Result<Bound<'py, PyAny>, PyErr>,
    N: Fn(&Bound<'py, PyAny>, &Bound<'py, PyString>) -> Result<Bound<'py, PyAny>, PyErr>,
 {
    match probe {
        Probe::ItemByLabel(label) => exists|outcome: Result<Bound<'py, PyAny>, PyErr>| #[trigger]
            call_ensures(calls.item_by_label, (node, label), outcome) && reply == answer_of(
                outcome,
            ),
        Probe::MemberByLabel(label) => exists|outcome: Result<Bound<'py, PyAny>, PyErr>| #[trigger]
            call_ensures(calls.member_by_label, (node, label), outcome) && reply == answer_of(
                outcome,
            ),
        Probe::ItemAt(position) => exists|outcome: Result<Bound<'py, PyAny>, PyErr>| #[trigger]
            call_ensures(calls.item_at, (node, position), outcome) && reply == answer_of(outcome),
        Probe::ItemByKey(key) => exists|outcome: Result<Bound<'py, PyAny>, PyErr>| #[trigger]
            call_ensures(calls.item_by_key, (node, key), outcome) && reply == answer_of(outcome),
        Probe::MemberByKey(key) => if is_text(*key) {
            exists|name: &Bound<'py, PyString>, outcome: Result<Bound<'py, PyAny>, PyErr>|
                as_name(key, name) && #[trigger] call_ensures(
                    calls.member_by_name,
                    (node, name),
                    outcome,
                ) && reply == answer_of(outcome)
        } else {
            reply is None
        },
    }
}

/// The answers that Python can give through `calls`, as a relation between
/// a node, a question and a reply.
pub open spec fn answers_by_python<'py, I, M, P, K, N>(calls: Calls<I, M, P, K, N>) -> spec_fn(
    Bound<'py, PyAny>,
    Ask<Bound<'py, PyAny>>,
    Option<Bound<'py, PyAny>>,
) -> bool where
    I: Fn(&Bound<'py, PyAny>, &str) -> Result<Bound<'py, PyAny>, PyErr>,
    M: Fn(&Bound<'py, PyAny>, &str) -> Result<Bound<'py, PyAny>, PyErr>,
    P: Fn(&Bound<'py, PyAny>, usize) -> Result<Bound<'py, PyAny>, PyErr>,
    K: Fn(&Bound<'py, PyAny>, &Bound<'py, PyAny>) -> Result<Bound<'py, PyAny>, PyErr>,
    N: Fn(&Bound<'py, PyAny>, &Bound<'py, PyString>) -> Result<Bound<'py, PyAny>, PyErr>,
 {
    |node: Bound<'py, PyAny>, ask: Ask<Bound<'py, PyAny>>, reply: Option<Bound<'py, PyAny>>|
        exists|probe: Probe<'_, Bound<'py, PyAny>>|
            probe@ == ask && #[trigger] asked_of_python(calls, &node, probe, reply)
}

/// Asks a Python object one question, by the one call that the probe
/// names, on the node and on the probe's label, position or key as they
/// are. An error that the call returns counts as no answer. A key that is
/// no string names no member: no call is made for one.
pub fn lookup<'py, I, M, P, K, N>(
    node: &Bound<'py, PyAny>,
    probe: &Probe<'_, Bound<'py, PyAny>>,
    calls: &Calls<I, M, P, K, N>,
) -> (reply: Option<Bound<'py, PyAny>>) where
    I: Fn(&Bound<'py, PyAny>, &str) -> Result<Bound<'py, PyAny>, PyErr>,
    M: Fn(&Bound<'py, PyAny>, &str) -> Result<Bound<'py, PyAny>, PyErr>,
    P: Fn(&Bound<'py, PyAny>, usize) -> Result<Bound<'py, PyAny>, PyErr>,
    K: Fn(&Bound<'py, PyAny>, &Bound<'py, PyAny>) -> Result<Bound<'py, PyAny>, PyErr>,
    N: Fn(&Bound<'py, PyAny>, &Bound<'py, PyString>) -> Result<Bound<'py, PyAny>, PyErr>,

    requires
        all_accepted(*calls),
    ensures
        asked_of_python(*calls, node, *probe, reply),
        names_no_member(*probe) ==> reply is None,
{
    match probe {
        Probe::ItemByLabel(label) => answer((calls.item_by_label)(node, label)),
        Probe::MemberByLabel(label) => answer((calls.member_by_label)(node, label)),
        Probe::ItemAt(position) => answer((calls.item_at)(node, *position)),
        Probe::ItemByKey(key) => answer((calls.item_by_key)(node, key)),
        Probe::MemberByKey(key) => match as_text(key) {
            Some(name) => answer((calls.member_by_name)(node, name)),
            None => None,
        },
    }
}

/// A key argument as a key: a text key if it is a Python string, else a key
/// of another kind.
pub open spec fn as_key(item: Bound<'_, PyAny>) -> Key<Bound<'_, PyAny>> {
    if is_text(item) {
        Key::Text(item)
    } else {
        Key::Other(item)
    }
}

/// The key arguments as keys, one by one.
pub open spec fn as_keys(items: Seq<Bound<'_, PyAny>>) -> Seq<Key<Bound<'_, PyAny>>> {
    Seq::new(items.len(), |i: int| as_key(items[i]))
}

/// A key argument as a key.
pub fn key_of<'py>(item: Bound<'py, PyAny>) -> (key: Key<Bound<'py, PyAny>>)
    ensures
        key == as_key(item),
{
    let text = as_text(&item).is_some();
    if text {
        Key::Text(item)
    } else {
        Key::Other(item)
    }
}

/// What a resolution gives by a lookup that asks Python through `calls`,
/// it gives on the graph that Python answers as through them; and on every
/// graph that answers in one way only and as Python does, it is what
/// `resolution` gives.
pub proof fn lemma_resolves_by_python<'py, F, I, M, P, K, N>(
    ask: F,
    calls: Calls<I, M, P, K, N>,
    root: Bound<'py, PyAny>,
    plans: Seq<Seq<Ask<Bound<'py, PyAny>>>>,
    fallback: Option<Bound<'py, PyAny>>,
    value: Option<Bound<'py, PyAny>>,
) where
    F: Fn(&Bound<'py, PyAny>, &Probe<'_, Bound<'py, PyAny>>) -> Option<Bound<'py, PyAny>>,
    I: Fn(&Bound<'py, PyAny>, &str) -> Result<Bound<'py, PyAny>, PyErr>,
    M: Fn(&Bound<'py, PyAny>, &str) -> Result<Bound<'py, PyAny>, PyErr>,
    P: Fn(&Bound<'py, PyAny>, usize) -> Result<Bound<'py, PyAny>, PyErr>,
    K: Fn(&Bound<'py, PyAny>, &Bound<'py, PyAny>) -> Result<Bound<'py, PyAny>, PyErr>,
    N: Fn(&Bound<'py, PyAny>, &Bound<'py, PyString>) -> Result<Bound<'py, PyAny>, PyErr>,

    requires
        forall|node: &Bound<'py, PyAny>,
            probe: &Probe<'_, Bound<'py, PyAny>>,
            reply: Option<Bound<'py, PyAny>>,
        | #[trigger]
            call_ensures(ask, (node, probe), reply) ==> asked_of_python(
                calls,
                node,
                *probe,
                reply,
            ),
        resolves_to(answers_by(ask), root, plans, fallback, value),
    ensures
        resolves_to(answers_by_python(calls), root, plans, fallback, value),
        forall|model: spec_fn(Bound<'py, PyAny>, Ask<Bound<'py, PyAny>>) -> Option<
            Bound<'py, PyAny>,
        >| #[trigger]
            agrees(answers_by_python(calls), model) ==> value == resolution(
                model,
                root,
                plans,
                fallback,
            ),
{
    assert(within(answers_by(ask), answers_by_python(calls))) by {
        assert forall|
            node: Bound<'py, PyAny>,
            a: Ask<Bound<'py, PyAny>>,
            reply: Option<Bound<'py, PyAny>>,
        | #[trigger] answers_by(ask)(node, a, reply) implies answers_by_python(calls)(
            node,
            a,
            reply,
        ) by {
            let probe = choose|probe: Probe<'_, Bound<'py, PyAny>>|
                probe@ == a && #[trigger] ask.ensures((&node, &probe), reply);
            assert(asked_of_python(calls, &node, probe, reply));
        }
    }
    lemma_resolves_within(
        answers_by(ask),
        answers_by_python(calls),
        root,
        plans,
        fallback,
        value,
    );
    lemma_resolves_as_modelled(answers_by_python(calls), root, plans, fallback, value);
}

/// Resolves the key arguments `args` from `obj`, each used as it is, by
/// asking Python through `calls`.
pub fn dig_args<'py, I, M, P, K, N>(
    obj: Bound<'py, PyAny>,
    args: &Bound<'py, PyTuple>,
    default_value: Option<Bound<'py, PyAny>>,
    calls: &Calls<I, M, P, K, N>,
) -> (value: Result<Option<Bound<'py, PyAny>>, DigError>) where
    I: Fn(&Bound<'py, PyAny>, &str) -> Result<Bound<'py, PyAny>, PyErr>,
    M: Fn(&Bound<'py, PyAny>, &str) -> Result<Bound<'py, PyAny>, PyErr>,
    P: Fn(&Bound<'py, PyAny>, usize) -> Result<Bound<'py, PyAny>, PyErr>,
    K: Fn(&Bound<'py, PyAny>, &Bound<'py, PyAny>) -> Result<Bound<'py, PyAny>, PyErr>,
    N: Fn(&Bound<'py, PyAny>, &Bound<'py, PyString>) -> Result<Bound<'py, PyAny>, PyErr>,

    requires
        all_accepted(*calls),
    ensures
        value is Ok,
        items_in(*args).len() == 0 ==> value->Ok_0 == Some(obj),
        resolves_to(
            answers_by_python(*calls),
            obj,
            key_plans(as_keys(items_in(*args))),
            default_value,
            value->Ok_0,
        ),
        forall|model: spec_fn(Bound<'py, PyAny>, Ask<Bound<'py, PyAny>>) -> Option<
            Bound<'py, PyAny>,
        >| #[trigger]
            agrees(answers_by_python(*calls), model) ==> value->Ok_0 == resolution(
                model,
                obj,
                key_plans(as_keys(items_in(*args))),
                default_value,
            ),
{
    let items = keys_of(args);
    let mut keys: Vec<Key<Bound<'py, PyAny>>> = Vec::new();
    for item in it: items
        invariant
            keys@.len() == it.index(),
            forall|i: int| 0 <= i < keys@.len() ==> #[trigger] keys@[i] == as_key(it.seq()[i]),
    {
        keys.push(key_of(item));
    }
    assert(keys@ =~= as_keys(items_in(*args)));
    let ask = |node: &Bound<'py, PyAny>, probe: &Probe<'_, Bound<'py, PyAny>>| -> (reply: Option<
        Bound<'py, PyAny>,
    >)
        ensures
            asked_of_python(*calls, node, *probe, reply),
        { lookup(node, probe, calls) };
    let value = resolve_keys(obj, &keys, default_value, &ask);
    proof {
        lemma_resolves_by_python(ask, *calls, obj, key_plans(keys@), default_value, value);
    }
    Ok(value)
}

/// Resolves the path string `path` from `obj`, cut at `sep`, by asking
/// Python through `calls`. The call is refused where the path cannot be
/// read as text, and only there.
pub fn dig_path<'py, I, M, P, K, N>(
    obj: Bound<'py, PyAny>,
    path: &Bound<'py, PyString>,
    sep: &str,
    default_value: Option<Bound<'py, PyAny>>,
    calls: &Calls<I, M, P, K, N>,
) -> (value: Result<Option<Bound<'py, PyAny>>, DigError>) where
    I: Fn(&Bound<'py, PyAny>, &str) -> Result<Bound<'py, PyAny>, PyErr>,
    M: Fn(&Bound<'py, PyAny>, &str) -> Result<Bound<'py, PyAny>, PyErr>,
    P: Fn(&Bound<'py, PyAny>, usize) -> Result<Bound<'py, PyAny>, PyErr>,
    K: Fn(&Bound<'py, PyAny>, &Bound<'py, PyAny>) -> Result<Bound<'py, PyAny>, PyErr>,
    N: Fn(&Bound<'py, PyAny>, &Bound<'py, PyString>) -> Result<Bound<'py, PyAny>, PyErr>,

    requires
        all_accepted(*calls),
    ensures
        value is Ok <==> text_in(*path) is Some,
        value is Ok ==> resolves_to(
            answers_by_python(*calls),
            obj,
            path_plans(text_in(*path)->0, sep@),
            default_value,
            value->Ok_0,
        ),
        value is Ok && text_in(*path)->0.len() == 0 ==> value->Ok_0 == Some(obj),
        forall|model: spec_fn(Bound<'py, PyAny>, Ask<Bound<'py, PyAny>>) -> Option<
            Bound<'py, PyAny>,
        >| #[trigger]
            agrees(answers_by_python(*calls), model) && value is Ok ==> value->Ok_0 == resolution(
                model,
                obj,
                path_plans(text_in(*path)->0, sep@),
                default_value,
            ),
{
    match text_of(path) {
        Ok(text) => {
            let ask = |node: &Bound<'py, PyAny>, probe: &Probe<'_, Bound<'py, PyAny>>| -> (reply:
                Option<Bound<'py, PyAny>>)
                ensures
                    asked_of_python(*calls, node, *probe, reply),
                { lookup(node, probe, calls) };
            let value = resolve_path(obj, text.as_str(), sep, default_value, &ask);
            proof {
                lemma_resolves_by_python(
                    ask,
                    *calls,
                    obj,
                    path_plans(text@, sep@),
                    default_value,
                    value,
                );
            }
            Ok(value)
        },
        Err(e) => Err(DigError::UnreadablePath(e)),
    }
}

/// The text of the path of a call, where it has a path that is text.
pub open spec fn given_text(path: Option<&Bound<'_, PyString>>) -> Option<Seq<char>> {
    match path {
        Some(text) => text_in(*text),
        None => None,
    }
}

/// Resolves from `obj` by the key arguments if there are any, and the path
/// is then not even read; else by the path if one is given; else to `obj`
/// itself. The call is refused only where the path is needed and cannot be
/// read as text.
pub fn dig<'py, I, M, P, K, N>(
    obj: Bound<'py, PyAny>,
    args: &Bound<'py, PyTuple>,
    path: Option<&Bound<'py, PyString>>,
    default_value: Option<Bound<'py, PyAny>>,
    sep: &str,
    calls: &Calls<I, M, P, K, N>,
) -> (value: Result<Option<Bound<'py, PyAny>>, DigError>) where
    I: Fn(&Bound<'py, PyAny>, &str) -> Result<Bound<'py, PyAny>, PyErr>,
    M: Fn(&Bound<'py, PyAny>, &str) -> Result<Bound<'py, PyAny>, PyErr>,
    P: Fn(&Bound<'py, PyAny>, usize) -> Result<Bound<'py, PyAny>, PyErr>,
    K: Fn(&Bound<'py, PyAny>, &Bound<'py, PyAny>) -> Result<Bound<'py, PyAny>, PyErr>,
    N: Fn(&Bound<'py, PyAny>, &Bound<'py, PyString>) -> Result<Bound<'py, PyAny>, PyErr>,

    requires
        all_accepted(*calls),
    ensures
        value is Err <==> items_in(*args).len() == 0 && path is Some && given_text(path) is None,
        value is Ok ==> resolves_to(
            answers_by_python(*calls),
            obj,
            chosen_plans(as_keys(items_in(*args)), given_text(path), sep@),
            default_value,
            value->Ok_0,
        ),
        value is Ok && chosen_plans(as_keys(items_in(*args)), given_text(path), sep@).len() == 0
            ==> value->Ok_0 == Some(obj),
        forall|model: spec_fn(Bound<'py, PyAny>, Ask<Bound<'py, PyAny>>) -> Option<
            Bound<'py, PyAny>,
        >| #[trigger]
            agrees(answers_by_python(*calls), model) && value is Ok ==> value->Ok_0 == resolution(
                model,
                obj,
                chosen_plans(as_keys(items_in(*args)), given_text(path), sep@),
                default_value,
            ),
{
    if !no_keys(args) {
        dig_args(obj, args, default_value, calls)
    } else {
        match path {
            Some(text) => dig_path(obj, text, sep, default_value, calls),
            None => {
                proof {
                    let plans = Seq::<Seq<Ask<Bound<'py, PyAny>>>>::empty();
                    lemma_no_plan_resolves_to_root(
                        answers_by_python(*calls),
                        obj,
                        default_value,
                    );
                    lemma_resolves_as_modelled(
                        answers_by_python(*calls),
                        obj,
                        plans,
                        default_value,
                        Some(obj),
                    );
                }
                Ok(Some(obj))
            },
        }
    }
}

/// A path and the key arguments of its segments are two ways to say one
/// thing to `dig`. Let Python answer in one way only, as `model` says; let
/// the path lead from `obj` to a node through items and members alone; and
/// let each key argument be a string that is the segment of its place.
/// Then what `dig` returns for the path and no key argument, and what it
/// returns for the key arguments and no path, is that node, whatever the
/// default.
pub proof fn law_dig_by_path_and_by_keys_agree<'py, I, M, P, K, N>(
    calls: Calls<I, M, P, K, N>,
    model: spec_fn(Bound<'py, PyAny>, Ask<Bound<'py, PyAny>>) -> Option<Bound<'py, PyAny>>,
    obj: Bound<'py, PyAny>,
    text: Seq<char>,
    sep: Seq<char>,
    items: Seq<Bound<'py, PyAny>>,
    default_value: Option<Bound<'py, PyAny>>,
    found: Bound<'py, PyAny>,
    by_path: Option<Bound<'py, PyAny>>,
    by_keys: Option<Bound<'py, PyAny>>,
) where
    I: Fn(&Bound<'py, PyAny>, &str) -> Result<Bound<'py, PyAny>, PyErr>,
    M: Fn(&Bound<'py, PyAny>, &str) -> Result<Bound<'py, PyAny>, PyErr>,
    P: Fn(&Bound<'py, PyAny>, usize) -> Result<Bound<'py, PyAny>, PyErr>,
    K: Fn(&Bound<'py, PyAny>, &Bound<'py, PyAny>) -> Result<Bound<'py, PyAny>, PyErr>,
    N: Fn(&Bound<'py, PyAny>, &Bound<'py, PyString>) -> Result<Bound<'py, PyAny>, PyErr>,

    requires
        agrees(answers_by_python(calls), model),
        spell_all(model, as_keys(items), path_segments(text, sep)),
        walk(model, obj, literal_plans(path_segments(text, sep))) == Some(found),
        resolves_to(
            answers_by_python(calls),
            obj,
            chosen_plans(as_keys(Seq::empty()), Some(text), sep),
            default_value,
            by_path,
        ),
        resolves_to(
            answers_by_python(calls),
            obj,
            chosen_plans(as_keys(items), None, sep),
            default_value,
            by_keys,
        ),
    ensures
        by_path == Some(found),
        by_keys == Some(found),
{
    assert(as_keys(Seq::<Bound<'py, PyAny>>::empty()) =~= Seq::<Key<Bound<'py, PyAny>>>::empty());
    law_path_call_and_key_call_agree(
        answers_by_python(calls),
        model,
        obj,
        text,
        sep,
        as_keys(items),
        default_value,
        found,
        by_path,
        by_keys,
    );
}

} // verus!
