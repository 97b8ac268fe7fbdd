//! What a document holds regardless of order: its scalars, each with the keys
//! that lead to it.
use vstd::prelude::*;
use vstd::multiset::Multiset;
use crate::edit::{EditView, apply_edit, first_with_key, lemma_first_with_key};
use crate::node::{EntryView, Yaml};
use crate::sort::{sort_by_key, law_sort_by_key, keyed_items, all_scalars, sort_items};
use crate::order::KeyOrderView;

verus! {

broadcast use {vstd::multiset::group_multiset_axioms, vstd::seq_lib::group_to_multiset_ensures};

/// The scalars of `y`, each recorded as the keys leading to it from the node
/// `y` (found under `path`) followed by its text. Sequence positions are not
/// recorded, so reordering a mapping or a sequence does not change the leaves.
pub open spec fn leaves(path: Seq<Seq<char>>, y: Yaml) -> Multiset<Seq<Seq<char>>>
    decreases y,
{
    match y {
        Yaml::Scalar(t, _) => Multiset::singleton(path.push(t)),
        Yaml::Sequence(items, _) => items_leaves(path, items),
        Yaml::Mapping(es, _) => entries_leaves(path, es),
    }
}

/// The leaves of the items of a sequence found under `path`.
pub open spec fn items_leaves(path: Seq<Seq<char>>, s: Seq<Yaml>) -> Multiset<Seq<Seq<char>>>
    decreases s,
{
    if s.len() == 0 {
        Multiset::empty()
    } else {
        items_leaves(path, s.drop_last()).add(leaves(path, s.last()))
    }
}

/// The leaves of the entries of a mapping found under `path`.
pub open spec fn entries_leaves(path: Seq<Seq<char>>, s: Seq<EntryView>) -> Multiset<
    Seq<Seq<char>>,
>
    decreases s,
{
    if s.len() == 0 {
        Multiset::empty()
    } else {
        entries_leaves(path, s.drop_last()).add(leaves(path.push(s.last().0), s.last().1.1))
    }
}

/// Sum of the multisets that `f` gives for the elements of `s`.
pub open spec fn sum_of<A, B>(s: Seq<A>, f: spec_fn(A) -> Multiset<B>) -> Multiset<B>
    decreases s.len(),
{
    if s.len() == 0 {
        Multiset::empty()
    } else {
        sum_of(s.drop_last(), f).add(f(s.last()))
    }
}

/// Sums agree when the summands agree position by position.
pub proof fn lemma_sum_of_pointwise<A, B, C>(
    s1: Seq<A>,
    f: spec_fn(A) -> Multiset<C>,
    s2: Seq<B>,
    g: spec_fn(B) -> Multiset<C>,
)
    requires
        s1.len() == s2.len(),
        forall|i: int| 0 <= i < s1.len() ==> f(#[trigger] s1[i]) == g(s2[i]),
    ensures
        sum_of(s1, f) == sum_of(s2, g),
    decreases s1.len(),
{
    if s1.len() > 0 {
        assert forall|i: int| 0 <= i < s1.drop_last().len() implies f(#[trigger] s1.drop_last()[i])
            == g(s2.drop_last()[i]) by {
            assert(s1.drop_last()[i] == s1[i]);
            assert(f(s1[i]) == g(s2[i]));
        }
        lemma_sum_of_pointwise(s1.drop_last(), f, s2.drop_last(), g);
        assert(f(s1[s1.len() - 1]) == g(s2[s2.len() - 1]));
    }
}

/// Removing an element takes its summand out of the sum.
pub proof fn lemma_sum_of_remove<A, B>(s: Seq<A>, f: spec_fn(A) -> Multiset<B>, j: int)
    requires
        0 <= j < s.len(),
    ensures
        sum_of(s, f) == sum_of(s.remove(j), f).add(f(s[j])),
    decreases s.len(),
{
    if j < s.len() - 1 {
        let d = s.drop_last();
        lemma_sum_of_remove(d, f, j);
        assert(s.remove(j).drop_last() =~= d.remove(j));
        assert(s.remove(j).last() == s.last());
        assert(d[j] == s[j]);
        assert(sum_of(s, f) =~= sum_of(s.remove(j), f).add(f(s[j])));
    } else {
        assert(s.remove(j) =~= s.drop_last());
    }
}

/// Sums over sequences holding the same elements agree.
pub proof fn lemma_sum_of_permutation<A, B>(s1: Seq<A>, s2: Seq<A>, f: spec_fn(A) -> Multiset<B>)
    requires
        s1.to_multiset() == s2.to_multiset(),
    ensures
        sum_of(s1, f) == sum_of(s2, f),
    decreases s1.len(),
{
    if s1.len() == 0 {
        assert(s1.to_multiset().len() == 0);
        assert(s2.to_multiset().len() == s2.len());
        assert(s2.len() == 0);
    } else {
        let x = s1.last();
        let d = s1.drop_last();
        assert(s1 =~= d.push(x));
        assert(s2.to_multiset().count(x) > 0);
        assert(s2.contains(x));
        let j = choose|j: int| 0 <= j < s2.len() && s2[j] == x;
        assert(s2.remove(j).to_multiset() =~= d.to_multiset());
        lemma_sum_of_permutation(d, s2.remove(j), f);
        lemma_sum_of_remove(s2, f, j);
    }
}

/// The leaves of a sequence's items, as a sum.
pub proof fn lemma_items_leaves_sum(path: Seq<Seq<char>>, s: Seq<Yaml>)
    ensures
        items_leaves(path, s) == sum_of(s, |y: Yaml| leaves(path, y)),
    decreases s.len(),
{
    if s.len() > 0 {
        lemma_items_leaves_sum(path, s.drop_last());
    }
}

/// The leaves of a mapping's entries, as a sum.
pub proof fn lemma_entries_leaves_sum(path: Seq<Seq<char>>, s: Seq<EntryView>)
    ensures
        entries_leaves(path, s) == sum_of(s, |e: EntryView| leaves(path.push(e.0), e.1.1)),
    decreases s.len(),
{
    if s.len() > 0 {
        lemma_entries_leaves_sum(path, s.drop_last());
    }
}

/// No edit adds, removes or changes a scalar or the keys that lead to it:
/// edits only reorder entries and items.
pub proof fn law_edit_keeps_leaves(e: EditView, path: Seq<Seq<char>>, y: Yaml)
    ensures
        leaves(path, apply_edit(e, y)) == leaves(path, y),
    decreases e,
{
    match e {
        EditView::SortKeys(o) => {
            if let Yaml::Mapping(es, _) = y {
                let f = |x: EntryView| leaves(path.push(x.0), x.1.1);
                law_sort_by_key(o, es);
                lemma_entries_leaves_sum(path, es);
                lemma_entries_leaves_sum(path, sort_by_key(o, es));
                lemma_sum_of_permutation(sort_by_key(o, es), es, f);
            }
        },
        EditView::SortItems => {
            if let Yaml::Sequence(items, _) = y {
                if all_scalars(items) {
                    let a = KeyOrderView::Alphabetical;
                    let ks = keyed_items(items);
                    let srt = sort_by_key(a, ks);
                    let f = |y: Yaml| leaves(path, y);
                    let g = |p: (Seq<char>, Yaml)| leaves(path, p.1);
                    law_sort_by_key(a, ks);
                    lemma_items_leaves_sum(path, items);
                    lemma_items_leaves_sum(path, sort_items(items));
                    lemma_sum_of_pointwise(sort_items(items), f, srt, g);
                    lemma_sum_of_permutation(srt, ks, g);
                    lemma_sum_of_pointwise(ks, g, items, f);
                }
            }
        },
        EditView::Child(k, inner) => {
            if let Yaml::Mapping(es, _) = y {
                lemma_first_with_key(es, k);
                if let Some(i) = first_with_key(es, k) {
                    let f = |x: EntryView| leaves(path.push(x.0), x.1.1);
                    let es1 = es.update(i, (es[i].0, (es[i].1.0, apply_edit(*inner, es[i].1.1))));
                    law_edit_keeps_leaves(*inner, path.push(es[i].0), es[i].1.1);
                    lemma_entries_leaves_sum(path, es);
                    lemma_entries_leaves_sum(path, es1);
                    assert forall|j: int| 0 <= j < es1.len() implies f(#[trigger] es1[j]) == f(es[j]) by {
                        if j == i {
                            assert(f(es1[j]) == leaves(path.push(es[i].0), apply_edit(*inner, es[i].1.1)));
                        }
                    }
                    lemma_sum_of_pointwise(es1, f, es, f);
                    assert(apply_edit(e, y)->Mapping_0 == es1);
                }
            }
        },
        EditView::EachValue(inner) => {
            if let Yaml::Mapping(es, _) = y {
                let f = |x: EntryView| leaves(path.push(x.0), x.1.1);
                let g = |p: EntryView| (p.0, (p.1.0, apply_edit(*inner, p.1.1)));
                let es1 = es.map_values(g);
                assert(apply_edit(e, y)->Mapping_0 =~= es1);
                lemma_entries_leaves_sum(path, es);
                lemma_entries_leaves_sum(path, es1);
                assert forall|j: int| 0 <= j < es1.len() implies f(#[trigger] es1[j]) == f(es[j]) by {
                    law_edit_keeps_leaves(*inner, path.push(es[j].0), es[j].1.1);
                }
                lemma_sum_of_pointwise(es1, f, es, f);
            }
        },
        EditView::EachItem(inner) => {
            if let Yaml::Sequence(items, _) = y {
                let f = |c: Yaml| leaves(path, c);
                let it1 = items.map_values(|c: Yaml| apply_edit(*inner, c));
                assert(apply_edit(e, y)->Sequence_0 =~= it1);
                lemma_items_leaves_sum(path, items);
                lemma_items_leaves_sum(path, it1);
                assert forall|j: int| 0 <= j < it1.len() implies f(#[trigger] it1[j]) == f(items[j]) by {
                    law_edit_keeps_leaves(*inner, path, items[j]);
                }
                lemma_sum_of_pointwise(it1, f, items, f);
            }
        },
        EditView::Then(a, b) => {
            law_edit_keeps_leaves(*a, path, y);
            law_edit_keeps_leaves(*b, path, apply_edit(*a, y));
        },
    }
}

} // verus!
