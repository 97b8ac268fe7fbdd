//! Edits of a document: the steps by which the sorters rearrange a workflow.
use vstd::prelude::*;
use crate::node::{
    Entry, EntryView, Node, Yaml, entries_view, lemma_entries_view, nodes_view, lemma_nodes_view,
};
use crate::order::{KeyOrder, KeyOrderView};
use crate::sort::{all_scalars, sort_by_key, sort_entries, sort_items, sort_scalar_items};

verus! {

/// An edit of a document node. Every edit leaves a node that it does not apply
/// to (a scalar where a mapping is expected, say) as it is.
pub enum Edit {
    /// Sort the entries of a mapping by their keys.
    SortKeys(KeyOrder),
    /// Sort a sequence whose items are all scalars alphabetically by their text.
    SortItems,
    /// Apply an edit to the value of the first entry of a mapping with this key.
    Child(String, Box<Edit>),
    /// Apply an edit to the value of every entry of a mapping.
    EachValue(Box<Edit>),
    /// Apply an edit to every item of a sequence.
    EachItem(Box<Edit>),
    /// Apply the first edit, then the second.
    Then(Box<Edit>, Box<Edit>),
}

/// Abstract value of an [`Edit`].
pub enum EditView {
    SortKeys(KeyOrderView),
    SortItems,
    Child(Seq<char>, Box<EditView>),
    EachValue(Box<EditView>),
    EachItem(Box<EditView>),
    Then(Box<EditView>, Box<EditView>),
}

impl Edit {
    pub open spec fn view_edit(&self) -> EditView
        decreases self,
    {
        match self {
            Edit::SortKeys(o) => EditView::SortKeys(o@),
            Edit::SortItems => EditView::SortItems,
            Edit::Child(k, e) => EditView::Child(k@, Box::new(e.view_edit())),
            Edit::EachValue(e) => EditView::EachValue(Box::new(e.view_edit())),
            Edit::EachItem(e) => EditView::EachItem(Box::new(e.view_edit())),
            Edit::Then(a, b) => EditView::Then(Box::new(a.view_edit()), Box::new(b.view_edit())),
        }
    }
}

impl View for Edit {
    type V = EditView;

    open spec fn view(&self) -> EditView {
        self.view_edit()
    }
}

/// Index of the first entry with key `k`, if there is one.
pub open spec fn first_with_key(es: Seq<EntryView>, k: Seq<char>) -> Option<int>
    decreases es.len(),
{
    if es.len() == 0 {
        None
    } else if es[0].0 == k {
        Some(0)
    } else {
        match first_with_key(es.drop_first(), k) {
            Some(i) => Some(i + 1),
            None => None,
        }
    }
}

/// The result of applying edit `e` to a node with abstract value `y`.
pub open spec fn apply_edit(e: EditView, y: Yaml) -> Yaml
    decreases e,
{
    match e {
        EditView::SortKeys(o) => match y {
            Yaml::Mapping(es, st) => Yaml::Mapping(sort_by_key(o, es), st),
            _ => y,
        },
        EditView::SortItems => match y {
            Yaml::Sequence(items, st) => if all_scalars(items) {
                Yaml::Sequence(sort_items(items), st)
            } else {
                y
            },
            _ => y,
        },
        EditView::Child(k, inner) => match y {
            Yaml::Mapping(es, st) => match first_with_key(es, k) {
                Some(i) => Yaml::Mapping(
                    es.update(i, (es[i].0, (es[i].1.0, apply_edit(*inner, es[i].1.1)))),
                    st,
                ),
                None => y,
            },
            _ => y,
        },
        EditView::EachValue(inner) => match y {
            Yaml::Mapping(es, st) => Yaml::Mapping(
                es.map_values(|p: EntryView| (p.0, (p.1.0, apply_edit(*inner, p.1.1)))),
                st,
            ),
            _ => y,
        },
        EditView::EachItem(inner) => match y {
            Yaml::Sequence(items, st) => Yaml::Sequence(
                items.map_values(|c: Yaml| apply_edit(*inner, c)),
                st,
            ),
            _ => y,
        },
        EditView::Then(a, b) => apply_edit(*b, apply_edit(*a, y)),
    }
}

/// The first entry with a key is the first position holding that key.
pub proof fn lemma_first_with_key(es: Seq<EntryView>, k: Seq<char>)
    ensures
        match first_with_key(es, k) {
            Some(i) => 0 <= i < es.len() && es[i].0 == k && forall|j: int|
                0 <= j < i ==> #[trigger] es[j].0 != k,
            None => forall|j: int| 0 <= j < es.len() ==> #[trigger] es[j].0 != k,
        },
    decreases es.len(),
{
    if es.len() > 0 && es[0].0 != k {
        lemma_first_with_key(es.drop_first(), k);
        match first_with_key(es.drop_first(), k) {
            Some(i) => {
                assert forall|j: int| 0 <= j < i + 1 implies #[trigger] es[j].0 != k by {
                    if j > 0 {
                        assert(es[j] == es.drop_first()[j - 1]);
                    }
                }
            },
            None => {
                assert forall|j: int| 0 <= j < es.len() implies #[trigger] es[j].0 != k by {
                    if j > 0 {
                        assert(es[j] == es.drop_first()[j - 1]);
                    }
                }
            },
        }
    }
}

/// Whether every node is a scalar.
fn all_scalar_nodes(items: &Vec<Node>) -> (r: bool)
    ensures
        r == all_scalars(nodes_view(items@)),
{
    proof {
        lemma_nodes_view(items@);
    }
    let mut i: usize = 0;
    while i < items.len()
        invariant
            i <= items@.len(),
            nodes_view(items@).len() == items@.len(),
            forall|j: int| 0 <= j < items@.len() ==> #[trigger] nodes_view(items@)[j] == items@[j].view_node(),
            forall|j: int| 0 <= j < i ==> #[trigger] nodes_view(items@)[j] is Scalar,
        decreases items.len() - i,
    {
        match &items[i] {
            Node::Scalar(..) => {},
            _ => {
                assert(!(nodes_view(items@)[i as int] is Scalar));
                return false;
            },
        }
        i = i + 1;
    }
    true
}

/// Position of the first entry with key `k`, if there is one.
fn find_key(es: &Vec<Entry>, k: &String) -> (r: Option<usize>)
    ensures
        r is Some <==> first_with_key(entries_view(es@), k@) is Some,
        r matches Some(i) ==> first_with_key(entries_view(es@), k@) == Some(i as int),
{
    let ghost ev = entries_view(es@);
    proof {
        lemma_entries_view(es@);
        lemma_first_with_key(ev, k@);
    }
    let mut i: usize = 0;
    while i < es.len()
        invariant
            i <= es@.len(),
            ev == entries_view(es@),
            ev.len() == es@.len(),
            forall|j: int| 0 <= j < es@.len() ==> #[trigger] ev[j] == es@[j].view_entry(),
            forall|j: int| 0 <= j < i ==> #[trigger] ev[j].0 != k@,
        decreases es.len() - i,
    {
        if es[i].key == *k {
            assert(ev[i as int].0 == k@);
            proof {
                lemma_first_with_key(ev, k@);
            }
            return Some(i);
        }
        assert(ev[i as int].0 != k@);
        i = i + 1;
    }
    proof {
        lemma_first_with_key(ev, k@);
    }
    None
}

/// Applies edit `e` to node `n`.
pub fn apply(e: &Edit, n: Node) -> (r: Node)
    ensures
        r@ == apply_edit(e@, n@),
    decreases e, 0nat,
{
    match e {
        Edit::SortKeys(o) => match n {
            Node::Mapping(es, st) => Node::Mapping(sort_entries(o, es), st),
            other => other,
        },
        Edit::SortItems => match n {
            Node::Sequence(items, st) => {
                if all_scalar_nodes(&items) {
                    Node::Sequence(sort_scalar_items(items), st)
                } else {
                    Node::Sequence(items, st)
                }
            },
            other => other,
        },
        Edit::Child(k, inner) => match n {
            Node::Mapping(es, st) => {
                let mut es = es;
                match find_key(&es, k) {
                    Some(i) => {
                        let ghost old_es = es@;
                        proof {
                            lemma_entries_view(old_es);
                            lemma_first_with_key(entries_view(old_es), k@);
                        }
                        let ent = es.remove(i);
                        let v = apply(&**inner, ent.value);
                        es.insert(i, Entry { key: ent.key, key_style: ent.key_style, value: v });
                        proof {
                            lemma_entries_view(es@);
                            let ev = entries_view(old_es);
                            assert(entries_view(es@) =~= ev.update(
                                i as int,
                                (ev[i as int].0, (ev[i as int].1.0, apply_edit((**inner)@, ev[i as int].1.1))),
                            ));
                        }
                        Node::Mapping(es, st)
                    },
                    None => Node::Mapping(es, st),
                }
            },
            other => other,
        },
        Edit::EachValue(inner) => match n {
            Node::Mapping(es, st) => {
                let ghost ev = entries_view(es@);
                let out = apply_each_value(&**inner, es);
                proof {
                    let iv = (**inner)@;
                    let y2 = apply_edit(e@, n@);
                    assert(y2->Mapping_0 =~= ev.map_values(
                        |p: EntryView| (p.0, (p.1.0, apply_edit(iv, p.1.1))),
                    ));
                    assert(entries_view(out@) =~= y2->Mapping_0);
                }
                Node::Mapping(out, st)
            },
            other => other,
        },
        Edit::EachItem(inner) => match n {
            Node::Sequence(items, st) => {
                let ghost nv = nodes_view(items@);
                let out = apply_each_item(&**inner, items);
                proof {
                    let iv = (**inner)@;
                    let y2 = apply_edit(e@, n@);
                    assert(y2->Sequence_0 =~= nv.map_values(|c: Yaml| apply_edit(iv, c)));
                    assert(nodes_view(out@) =~= y2->Sequence_0);
                }
                Node::Sequence(out, st)
            },
            other => other,
        },
        Edit::Then(a, b) => {
            let m = apply(&**a, n);
            apply(&**b, m)
        },
    }
}

/// Applies edit `e` to the value of every entry.
fn apply_each_value(e: &Edit, es: Vec<Entry>) -> (r: Vec<Entry>)
    ensures
        entries_view(r@) == entries_view(es@).map_values(
            |p: EntryView| (p.0, (p.1.0, apply_edit(e@, p.1.1))),
        ),
    decreases e, 1nat,
{
    let ghost ev = entries_view(es@);
    let ghost f = |p: EntryView| (p.0, (p.1.0, apply_edit(e@, p.1.1)));
    let mut rest = es;
    let mut out: Vec<Entry> = Vec::new();
    let ghost mut i: int = 0;
    proof {
        lemma_entries_view(rest@);
        lemma_entries_view(out@);
        assert(entries_view(out@) =~= ev.map_values(f).take(0));
    }
    while rest.len() > 0
        invariant
            0 <= i <= ev.len(),
            ev.len() == i + rest@.len(),
            forall|j: int| 0 <= j < rest@.len() ==> #[trigger] rest@[j].view_entry() == ev[i + j],
            entries_view(out@) == ev.map_values(f).take(i),
            f == (|p: EntryView| (p.0, (p.1.0, apply_edit(e@, p.1.1)))),
        decreases rest.len(),
    {
        let ghost old_rest = rest@;
        let ent = rest.remove(0);
        proof {
            assert(old_rest[0].view_entry() == ev[i]);
            assert forall|j: int| 0 <= j < rest@.len() implies #[trigger] rest@[j].view_entry() == ev[i + 1 + j] by {
                assert(rest@[j] == old_rest[j + 1]);
            }
            lemma_entries_view(out@);
        }
        let v = apply(e, ent.value);
        out.push(Entry { key: ent.key, key_style: ent.key_style, value: v });
        proof {
            lemma_entries_view(out@);
            assert(entries_view(out@) =~= ev.map_values(f).take(i + 1));
            i = i + 1;
        }
    }
    assert(ev.map_values(f).take(i) =~= ev.map_values(f));
    out
}

/// Applies edit `e` to every item.
fn apply_each_item(e: &Edit, items: Vec<Node>) -> (r: Vec<Node>)
    ensures
        nodes_view(r@) == nodes_view(items@).map_values(|c: Yaml| apply_edit(e@, c)),
    decreases e, 1nat,
{
    let ghost iv = nodes_view(items@);
    let ghost f = |c: Yaml| apply_edit(e@, c);
    let mut rest = items;
    let mut out: Vec<Node> = Vec::new();
    let ghost mut i: int = 0;
    proof {
        lemma_nodes_view(rest@);
        lemma_nodes_view(out@);
        assert(nodes_view(out@) =~= iv.map_values(f).take(0));
    }
    while rest.len() > 0
        invariant
            0 <= i <= iv.len(),
            iv.len() == i + rest@.len(),
            forall|j: int| 0 <= j < rest@.len() ==> #[trigger] rest@[j].view_node() == iv[i + j],
            nodes_view(out@) == iv.map_values(f).take(i),
            f == (|c: Yaml| apply_edit(e@, c)),
        decreases rest.len(),
    {
        let ghost old_rest = rest@;
        let n = rest.remove(0);
        proof {
            assert(old_rest[0].view_node() == iv[i]);
            assert forall|j: int| 0 <= j < rest@.len() implies #[trigger] rest@[j].view_node() == iv[i + 1 + j] by {
                assert(rest@[j] == old_rest[j + 1]);
            }
            lemma_nodes_view(out@);
        }
        let v = apply(e, n);
        out.push(v);
        proof {
            lemma_nodes_view(out@);
            assert(nodes_view(out@) =~= iv.map_values(f).take(i + 1));
            i = i + 1;
        }
    }
    assert(iv.map_values(f).take(i) =~= iv.map_values(f));
    out
}

/// Edit the value under `key`.
pub open spec fn at_key(key: Seq<char>, e: EditView) -> EditView {
    EditView::Child(key, Box::new(e))
}

/// Edit every value of a mapping.
pub open spec fn every_value(e: EditView) -> EditView {
    EditView::EachValue(Box::new(e))
}

/// Edit every item of a sequence.
pub open spec fn every_item(e: EditView) -> EditView {
    EditView::EachItem(Box::new(e))
}

/// One edit, then another.
pub open spec fn both(a: EditView, b: EditView) -> EditView {
    EditView::Then(Box::new(a), Box::new(b))
}

/// An edit of the value under `key`.
pub fn child(key: &str, e: Edit) -> (r: Edit)
    ensures
        r@ == at_key(key@, e@),
{
    Edit::Child(key.to_owned(), Box::new(e))
}

/// An edit of every value of a mapping.
pub fn each_value(e: Edit) -> (r: Edit)
    ensures
        r@ == every_value(e@),
{
    Edit::EachValue(Box::new(e))
}

/// An edit of every item of a sequence.
pub fn each_item(e: Edit) -> (r: Edit)
    ensures
        r@ == every_item(e@),
{
    Edit::EachItem(Box::new(e))
}

/// Edit `a`, then edit `b`.
pub fn then(a: Edit, b: Edit) -> (r: Edit)
    ensures
        r@ == both(a@, b@),
{
    Edit::Then(Box::new(a), Box::new(b))
}

} // verus!
