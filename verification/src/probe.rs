//! Probes: the single questions that a node of the graph can be asked, and
//! the plans that say which probes a key stands for, and in which order.

use crate::text::{index_of, parse_index, segments};
use vstd::prelude::*;

verus! {

/// One question to a node. A node answers with the child that it holds
/// under the probe, or with nothing.
pub enum Probe<'a, K> {
    /// The item that the node holds under a text label.
    ItemByLabel(&'a str),
    /// The member of the node that a text label names.
    MemberByLabel(&'a str),
    /// The item at an integer position.
    ItemAt(usize),
    /// The item under a key of the caller's own kind.
    ItemByKey(&'a K),
    /// The member that a key of the caller's own kind names.
    MemberByKey(&'a K),
}

/// What a probe asks, with text taken by its characters.
pub ghost enum Ask<K> {
    ItemByLabel(Seq<char>),
    MemberByLabel(Seq<char>),
    ItemAt(usize),
    ItemByKey(K),
    MemberByKey(K),
}

impl<'a, K> View for Probe<'a, K> {
    type V = Ask<K>;

    open spec fn view(&self) -> Ask<K> {
        match *self {
            Probe::ItemByLabel(label) => Ask::ItemByLabel(label@),
            Probe::MemberByLabel(label) => Ask::MemberByLabel(label@),
            Probe::ItemAt(position) => Ask::ItemAt(position),
            Probe::ItemByKey(key) => Ask::ItemByKey(*key),
            Probe::MemberByKey(key) => Ask::MemberByKey(*key),
        }
    }
}

/// A key of a key sequence, used as it is given.
pub enum Key<K> {
    /// A key that is text: it may be the key of an item or the name of a
    /// member.
    Text(K),
    /// Any other key: it can only be the key of an item.
    Other(K),
}

/// What a list of probes asks, in order.
pub open spec fn asks<K>(probes: Seq<Probe<'_, K>>) -> Seq<Ask<K>> {
    Seq::new(probes.len(), |i: int| probes[i]@)
}

/// The plan for a segment of a path string: the item under the segment as
/// a label, then the member of that name, then, if the segment spells a
/// position, the item at that position.
pub open spec fn segment_plan<K>(segment: Seq<char>) -> Seq<Ask<K>> {
    let literal = seq![Ask::ItemByLabel(segment), Ask::MemberByLabel(segment)];
    match index_of(segment) {
        Some(position) => literal.push(Ask::ItemAt(position)),
        None => literal,
    }
}

/// The plan for a key of a key sequence: the item under the key, then, for
/// a key that is text, the member that it names.
pub open spec fn key_plan<K>(key: Key<K>) -> Seq<Ask<K>> {
    match key {
        Key::Text(k) => seq![Ask::ItemByKey(k), Ask::MemberByKey(k)],
        Key::Other(k) => seq![Ask::ItemByKey(k)],
    }
}

/// The plans of a path string, one for each segment. The empty path has no
/// segment.
pub open spec fn path_plans<K>(path: Seq<char>, sep: Seq<char>) -> Seq<Seq<Ask<K>>> {
    if path.len() == 0 {
        Seq::empty()
    } else {
        let cut = segments(path, sep);
        Seq::new(cut.len(), |i: int| segment_plan(cut[i]))
    }
}

/// The plans of a key sequence, one for each key.
pub open spec fn key_plans<K>(keys: Seq<Key<K>>) -> Seq<Seq<Ask<K>>> {
    Seq::new(keys.len(), |i: int| key_plan(keys[i]))
}

/// The probes for a segment of a path string.
pub fn segment_probes<'a, K>(segment: &'a str) -> (probes: Vec<Probe<'a, K>>)
    ensures
        asks(probes@) == segment_plan::<K>(segment@),
{
    let mut probes: Vec<Probe<'a, K>> = Vec::new();
    probes.push(Probe::ItemByLabel(segment));
    probes.push(Probe::MemberByLabel(segment));
    match parse_index(segment) {
        Some(position) => {
            probes.push(Probe::ItemAt(position));
        },
        None => {},
    }
    assert(asks(probes@) =~= segment_plan::<K>(segment@));
    probes
}

/// The probes for a key of a key sequence.
pub fn key_probes<'a, K>(key: &'a Key<K>) -> (probes: Vec<Probe<'a, K>>)
    ensures
        asks(probes@) == key_plan(*key),
{
    let mut probes: Vec<Probe<'a, K>> = Vec::new();
    match key {
        Key::Text(k) => {
            probes.push(Probe::ItemByKey(k));
            probes.push(Probe::MemberByKey(k));
        },
        Key::Other(k) => {
            probes.push(Probe::ItemByKey(k));
        },
    }
    assert(asks(probes@) =~= key_plan(*key));
    probes
}

} // verus!
