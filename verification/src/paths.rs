//! Locations in a document, and how edits act on the node at a location.
use vstd::prelude::*;
use crate::edit::{EditView, apply_edit, first_with_key, lemma_first_with_key, at_key, every_value, every_item};
use crate::node::Yaml;

verus! {

/// One step down a document.
pub enum Step {
    /// To the value of the first entry of a mapping with this key.
    Key(Seq<char>),
    /// To the value of the entry at this position of a mapping.
    Entry(int),
    /// To the item at this position of a sequence.
    Item(int),
}

/// The node one step below `y`, if there is one.
pub open spec fn step(y: Yaml, s: Step) -> Option<Yaml> {
    match s {
        Step::Key(k) => match y {
            Yaml::Mapping(es, _) => match first_with_key(es, k) {
                Some(i) => Some(es[i].1.1),
                None => None,
            },
            _ => None,
        },
        Step::Entry(j) => match y {
            Yaml::Mapping(es, _) => if 0 <= j < es.len() {
                Some(es[j].1.1)
            } else {
                None
            },
            _ => None,
        },
        Step::Item(j) => match y {
            Yaml::Sequence(items, _) => if 0 <= j < items.len() {
                Some(items[j])
            } else {
                None
            },
            _ => None,
        },
    }
}

/// The node found by following `path` from `y`, if there is one.
pub open spec fn value_at(y: Yaml, path: Seq<Step>) -> Option<Yaml>
    decreases path.len(),
{
    if path.len() == 0 {
        Some(y)
    } else {
        match step(y, path[0]) {
            Some(z) => value_at(z, path.drop_first()),
            None => None,
        }
    }
}

/// `o` with `e` applied to the node it holds.
pub open spec fn applied(e: EditView, o: Option<Yaml>) -> Option<Yaml> {
    match o {
        Some(z) => Some(apply_edit(e, z)),
        None => None,
    }
}

/// Following a path that starts with one step.
pub proof fn lemma_value_at_cons(y: Yaml, s: Step, p: Seq<Step>)
    ensures
        value_at(y, seq![s] + p) == match step(y, s) {
            Some(z) => value_at(z, p),
            None => None,
        },
{
    assert((seq![s] + p).drop_first() =~= p);
    assert((seq![s] + p)[0] == s);
}

/// Editing under a key edits what that key leads to.
pub proof fn lemma_step_child(k: Seq<char>, e: EditView, y: Yaml)
    ensures
        step(apply_edit(at_key(k, e), y), Step::Key(k)) == applied(e, step(y, Step::Key(k))),
{
    if let Yaml::Mapping(es, _) = y {
        lemma_first_with_key(es, k);
        if let Some(i) = first_with_key(es, k) {
            let es1 = es.update(i, (es[i].0, (es[i].1.0, apply_edit(e, es[i].1.1))));
            crate::laws::lemma_first_with_key_same_keys(es, es1, k);
        }
    }
}

/// Editing under one key leaves what another key leads to.
pub proof fn lemma_step_other_child(k1: Seq<char>, e: EditView, k2: Seq<char>, y: Yaml)
    requires
        k1 != k2,
    ensures
        step(apply_edit(at_key(k1, e), y), Step::Key(k2)) == step(y, Step::Key(k2)),
{
    if let Yaml::Mapping(es, _) = y {
        lemma_first_with_key(es, k1);
        lemma_first_with_key(es, k2);
        if let Some(i) = first_with_key(es, k1) {
            let es1 = es.update(i, (es[i].0, (es[i].1.0, apply_edit(e, es[i].1.1))));
            crate::laws::lemma_first_with_key_same_keys(es, es1, k2);
            if let Some(j) = first_with_key(es, k2) {
                assert(i != j);
            }
        }
    }
}

/// Editing every value edits the value of each entry.
pub proof fn lemma_step_each_value(e: EditView, y: Yaml, j: int)
    ensures
        step(apply_edit(every_value(e), y), Step::Entry(j)) == applied(e, step(y, Step::Entry(j))),
{
}

/// Editing every item edits each item.
pub proof fn lemma_step_each_item(e: EditView, y: Yaml, j: int)
    ensures
        step(apply_edit(every_item(e), y), Step::Item(j)) == applied(e, step(y, Step::Item(j))),
{
}

/// Following a path below a key through an edit under that key.
pub proof fn lemma_value_at_child(k: Seq<char>, e: EditView, y: Yaml, p: Seq<Step>)
    ensures
        value_at(apply_edit(at_key(k, e), y), seq![Step::Key(k)] + p) == match step(y, Step::Key(k)) {
            Some(z) => value_at(apply_edit(e, z), p),
            None => None,
        },
{
    lemma_step_child(k, e, y);
    lemma_value_at_cons(apply_edit(at_key(k, e), y), Step::Key(k), p);
}

/// Following a path below another key is not affected by an edit under a key.
pub proof fn lemma_value_at_other_child(k1: Seq<char>, e: EditView, k2: Seq<char>, y: Yaml, p: Seq<Step>)
    requires
        k1 != k2,
    ensures
        value_at(apply_edit(at_key(k1, e), y), seq![Step::Key(k2)] + p) == value_at(
            y,
            seq![Step::Key(k2)] + p,
        ),
{
    lemma_step_other_child(k1, e, k2, y);
    lemma_value_at_cons(apply_edit(at_key(k1, e), y), Step::Key(k2), p);
    lemma_value_at_cons(y, Step::Key(k2), p);
}

/// Following a path below an entry through an edit of every value.
pub proof fn lemma_value_at_each_value(e: EditView, y: Yaml, j: int, p: Seq<Step>)
    ensures
        value_at(apply_edit(every_value(e), y), seq![Step::Entry(j)] + p) == match step(y, Step::Entry(j)) {
            Some(z) => value_at(apply_edit(e, z), p),
            None => None,
        },
{
    lemma_step_each_value(e, y, j);
    lemma_value_at_cons(apply_edit(every_value(e), y), Step::Entry(j), p);
}

/// Following a path below an item through an edit of every item.
pub proof fn lemma_value_at_each_item(e: EditView, y: Yaml, j: int, p: Seq<Step>)
    ensures
        value_at(apply_edit(every_item(e), y), seq![Step::Item(j)] + p) == match step(y, Step::Item(j)) {
            Some(z) => value_at(apply_edit(e, z), p),
            None => None,
        },
{
    lemma_step_each_item(e, y, j);
    lemma_value_at_cons(apply_edit(every_item(e), y), Step::Item(j), p);
}

} // verus!
