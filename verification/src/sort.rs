//! Stable sorting of keyed sequences by a key order.
use vstd::prelude::*;
use crate::order::{KeyOrder, KeyOrderView, key_lt, key_less, lemma_key_order_strict_total};
use crate::node::{Entry, EntryView, Node, Style, Yaml, entries_view, lemma_entries_view, nodes_view, lemma_nodes_view};

verus! {

broadcast use vstd::seq_lib::group_to_multiset_ensures;

/// `s` is arranged so that no element's key comes before the key of an element
/// in front of it.
pub open spec fn sorted_by_key<A>(o: KeyOrderView, s: Seq<(Seq<char>, A)>) -> bool {
    forall|i: int, j: int| 0 <= i < j < s.len() ==> !key_lt(o, #[trigger] s[j].0, #[trigger] s[i].0)
}

/// Predicate selecting the elements whose key is `k`.
pub open spec fn has_key<A>(k: Seq<char>) -> spec_fn((Seq<char>, A)) -> bool {
    |e: (Seq<char>, A)| e.0 == k
}

/// The elements of `s` whose key is `k`, in their order in `s`.
pub open spec fn with_key<A>(s: Seq<(Seq<char>, A)>, k: Seq<char>) -> Seq<(Seq<char>, A)> {
    s.filter(has_key(k))
}

/// `s` with `x` placed after every element whose key does not come after `x`'s key.
pub open spec fn insert_sorted<A>(o: KeyOrderView, s: Seq<(Seq<char>, A)>, x: (Seq<char>, A)) -> Seq<
    (Seq<char>, A),
>
    decreases s.len(),
{
    if s.len() == 0 {
        seq![x]
    } else if key_lt(o, x.0, s.last().0) {
        insert_sorted(o, s.drop_last(), x).push(s.last())
    } else {
        s.push(x)
    }
}

/// The stable sort of `s` by key order `o`.
pub open spec fn sort_by_key<A>(o: KeyOrderView, s: Seq<(Seq<char>, A)>) -> Seq<(Seq<char>, A)>
    decreases s.len(),
{
    if s.len() == 0 {
        s
    } else {
        insert_sorted(o, sort_by_key(o, s.drop_last()), s.last())
    }
}

/// Filtering a pushed sequence by key.
pub proof fn lemma_with_key_push<A>(s: Seq<(Seq<char>, A)>, x: (Seq<char>, A), k: Seq<char>)
    ensures
        with_key(s.push(x), k) == if x.0 == k {
            with_key(s, k).push(x)
        } else {
            with_key(s, k)
        },
{
    reveal(Seq::filter);
    assert(s.push(x).drop_last() =~= s);
}

/// Inserting at a position where everything behind is strictly greater.
pub proof fn lemma_insert_sorted_position<A>(
    o: KeyOrderView,
    s: Seq<(Seq<char>, A)>,
    x: (Seq<char>, A),
    p: int,
)
    requires
        0 <= p <= s.len(),
        forall|j: int| p <= j < s.len() ==> key_lt(o, x.0, #[trigger] s[j].0),
        p > 0 ==> !key_lt(o, x.0, s[p - 1].0),
    ensures
        insert_sorted(o, s, x) == s.insert(p, x),
    decreases s.len(),
{
    if s.len() == 0 {
        assert(s.insert(p, x) =~= seq![x]);
    } else if p == s.len() {
        assert(s.insert(p, x) =~= s.push(x));
    } else {
        assert(key_lt(o, x.0, s[s.len() - 1].0));
        let d = s.drop_last();
        assert forall|j: int| p <= j < d.len() implies key_lt(o, x.0, #[trigger] d[j].0) by {
            assert(d[j] == s[j]);
        }
        lemma_insert_sorted_position(o, d, x, p);
        assert(d.insert(p, x).push(s.last()) =~= s.insert(p, x));
    }
}

/// What insertion keeps: length, elements, and per-key order.
pub proof fn lemma_insert_sorted_content<A>(
    o: KeyOrderView,
    s: Seq<(Seq<char>, A)>,
    x: (Seq<char>, A),
)
    ensures
        insert_sorted(o, s, x).len() == s.len() + 1,
        insert_sorted(o, s, x).to_multiset() == s.to_multiset().insert(x),
        forall|k: Seq<char>|
            #[trigger] with_key(insert_sorted(o, s, x), k) == if x.0 == k {
                with_key(s, k).push(x)
            } else {
                with_key(s, k)
            },
    decreases s.len(),
{
    if s.len() == 0 {
        assert(seq![x] =~= s.push(x));
        assert forall|k: Seq<char>|
            #[trigger] with_key(insert_sorted(o, s, x), k) == if x.0 == k {
                with_key(s, k).push(x)
            } else {
                with_key(s, k)
            } by {
            lemma_with_key_push(s, x, k);
        }
    } else if key_lt(o, x.0, s.last().0) {
        let d = s.drop_last();
        let l = s.last();
        lemma_insert_sorted_content(o, d, x);
        assert(d.push(l) =~= s);
        lemma_key_order_strict_total(o, x.0, l.0, l.0);
        assert forall|k: Seq<char>|
            #[trigger] with_key(insert_sorted(o, s, x), k) == if x.0 == k {
                with_key(s, k).push(x)
            } else {
                with_key(s, k)
            } by {
            lemma_with_key_push(insert_sorted(o, d, x), l, k);
            lemma_with_key_push(d, l, k);
            assert(with_key(insert_sorted(o, d, x), k) == if x.0 == k {
                with_key(d, k).push(x)
            } else {
                with_key(d, k)
            });
        }
        assert(insert_sorted(o, s, x).to_multiset() =~= s.to_multiset().insert(x));
    } else {
        assert forall|k: Seq<char>|
            #[trigger] with_key(insert_sorted(o, s, x), k) == if x.0 == k {
                with_key(s, k).push(x)
            } else {
                with_key(s, k)
            } by {
            lemma_with_key_push(s, x, k);
        }
    }
}

/// Insertion into a sorted sequence gives a sorted sequence.
pub proof fn lemma_insert_sorted_sorted<A>(
    o: KeyOrderView,
    s: Seq<(Seq<char>, A)>,
    x: (Seq<char>, A),
)
    requires
        sorted_by_key(o, s),
    ensures
        sorted_by_key(o, insert_sorted(o, s, x)),
    decreases s.len(),
{
    if s.len() == 0 {
    } else if key_lt(o, x.0, s.last().0) {
        let d = s.drop_last();
        let l = s.last();
        lemma_insert_sorted_sorted(o, d, x);
        lemma_insert_sorted_content(o, d, x);
        let t = insert_sorted(o, d, x);
        assert forall|i: int| 0 <= i < t.len() implies !key_lt(o, l.0, #[trigger] t[i].0) by {
            assert(t.to_multiset().count(t[i]) > 0);
            if t[i] == x {
                lemma_key_order_strict_total(o, x.0, l.0, l.0);
            } else {
                assert(d.to_multiset().count(t[i]) > 0);
                assert(d.contains(t[i]));
                let j = choose|j: int| 0 <= j < d.len() && d[j] == t[i];
                assert(s[j] == d[j]);
                assert(s[s.len() - 1] == l);
            }
        }
        let u = t.push(l);
        assert forall|i: int, j: int| 0 <= i < j < u.len() implies !key_lt(o, #[trigger] u[j].0, #[trigger] u[i].0) by {
            if j < t.len() {
                assert(u[i] == t[i] && u[j] == t[j]);
            } else {
                assert(u[i] == t[i]);
            }
        }
    } else {
        let l = s.last();
        let u = s.push(x);
        assert forall|i: int, j: int| 0 <= i < j < u.len() implies !key_lt(o, #[trigger] u[j].0, #[trigger] u[i].0) by {
            if j < s.len() {
                assert(u[i] == s[i] && u[j] == s[j]);
            } else {
                assert(u[i] == s[i]);
                if i < s.len() - 1 {
                    assert(!key_lt(o, s[s.len() - 1].0, s[i].0));
                }
                lemma_key_order_strict_total(o, x.0, l.0, s[i].0);
                lemma_key_order_strict_total(o, x.0, s[i].0, l.0);
                lemma_key_order_strict_total(o, l.0, s[i].0, x.0);
                lemma_key_order_strict_total(o, s[i].0, x.0, l.0);
                lemma_key_order_strict_total(o, s[i].0, l.0, x.0);
                lemma_key_order_strict_total(o, l.0, x.0, s[i].0);
            }
        }
    }
}

/// The stable sort is sorted, keeps every element, and keeps the relative
/// order of elements that share a key.
pub proof fn law_sort_by_key<A>(o: KeyOrderView, s: Seq<(Seq<char>, A)>)
    ensures
        sorted_by_key(o, sort_by_key(o, s)),
        sort_by_key(o, s).len() == s.len(),
        sort_by_key(o, s).to_multiset() == s.to_multiset(),
        forall|k: Seq<char>| #[trigger] with_key(sort_by_key(o, s), k) == with_key(s, k),
    decreases s.len(),
{
    if s.len() > 0 {
        let d = s.drop_last();
        let l = s.last();
        law_sort_by_key(o, d);
        lemma_insert_sorted_sorted(o, sort_by_key(o, d), l);
        lemma_insert_sorted_content(o, sort_by_key(o, d), l);
        assert(d.push(l) =~= s);
        assert forall|k: Seq<char>| #[trigger] with_key(sort_by_key(o, s), k) == with_key(s, k) by {
            lemma_with_key_push(d, l, k);
        }
    }
}

/// Sorting a sequence that is already sorted leaves it as it is.
pub proof fn law_sort_sorted_unchanged<A>(o: KeyOrderView, s: Seq<(Seq<char>, A)>)
    requires
        sorted_by_key(o, s),
    ensures
        sort_by_key(o, s) == s,
    decreases s.len(),
{
    if s.len() > 0 {
        let d = s.drop_last();
        assert forall|i: int, j: int| 0 <= i < j < d.len() implies !key_lt(o, #[trigger] d[j].0, #[trigger] d[i].0) by {
            assert(d[i] == s[i] && d[j] == s[j]);
        }
        law_sort_sorted_unchanged(o, d);
        if d.len() > 0 {
            assert(!key_lt(o, s[s.len() - 1].0, s[s.len() - 2].0));
        }
        assert(d.push(s.last()) =~= s);
    }
}

/// Inserting into a sequence whose elements were changed, keeping their keys,
/// is inserting and then changing the elements.
pub proof fn lemma_insert_sorted_map<A, B>(
    o: KeyOrderView,
    s: Seq<(Seq<char>, A)>,
    x: (Seq<char>, A),
    g: spec_fn((Seq<char>, A)) -> (Seq<char>, B),
)
    requires
        forall|p: (Seq<char>, A)| #[trigger] g(p).0 == p.0,
    ensures
        insert_sorted(o, s.map_values(g), g(x)) == insert_sorted(o, s, x).map_values(g),
    decreases s.len(),
{
    if s.len() == 0 {
        assert(seq![g(x)] =~= seq![x].map_values(g));
    } else {
        assert(s.map_values(g).drop_last() =~= s.drop_last().map_values(g));
        assert(s.map_values(g).last() == g(s.last()));
        if key_lt(o, x.0, s.last().0) {
            lemma_insert_sorted_map(o, s.drop_last(), x, g);
            assert(insert_sorted(o, s.drop_last(), x).push(s.last()).map_values(g) =~= insert_sorted(
                o,
                s.drop_last(),
                x,
            ).map_values(g).push(g(s.last())));
        } else {
            assert(s.push(x).map_values(g) =~= s.map_values(g).push(g(x)));
        }
    }
}

/// Sorting a sequence whose elements were changed, keeping their keys, is
/// sorting and then changing the elements.
pub proof fn lemma_sort_by_key_map<A, B>(
    o: KeyOrderView,
    s: Seq<(Seq<char>, A)>,
    g: spec_fn((Seq<char>, A)) -> (Seq<char>, B),
)
    requires
        forall|p: (Seq<char>, A)| #[trigger] g(p).0 == p.0,
    ensures
        sort_by_key(o, s.map_values(g)) == sort_by_key(o, s).map_values(g),
    decreases s.len(),
{
    if s.len() > 0 {
        assert(s.map_values(g).drop_last() =~= s.drop_last().map_values(g));
        lemma_sort_by_key_map(o, s.drop_last(), g);
        lemma_insert_sorted_map(o, sort_by_key(o, s.drop_last()), s.last(), g);
    } else {
        assert(s.map_values(g) =~= Seq::<(Seq<char>, B)>::empty());
    }
}

/// Stably sorts mapping entries by key: the result is sorted by `o`, holds the
/// same entries, and entries that share a key keep their relative order.
pub fn sort_entries(o: &KeyOrder, entries: Vec<Entry>) -> (r: Vec<Entry>)
    ensures
        entries_view(r@) == sort_by_key(o@, entries_view(entries@)),
        sorted_by_key(o@, entries_view(r@)),
        entries_view(r@).to_multiset() == entries_view(entries@).to_multiset(),
        forall|k: Seq<char>|
            #[trigger] with_key(entries_view(r@), k) == with_key(entries_view(entries@), k),
{
    let ghost all = entries_view(entries@);
    let mut rest = entries;
    let mut out: Vec<Entry> = Vec::new();
    let ghost mut i: int = 0;
    proof {
        lemma_entries_view(rest@);
        assert(entries_view(out@) =~= Seq::<EntryView>::empty());
        assert(all.take(0) =~= Seq::<EntryView>::empty());
        assert(entries_view(rest@) =~= all.skip(0));
    }
    while rest.len() > 0
        invariant
            0 <= i <= all.len(),
            entries_view(out@) == sort_by_key(o@, all.take(i)),
            entries_view(rest@) == all.skip(i),
        decreases rest.len(),
    {
        proof {
            lemma_entries_view(rest@);
            lemma_entries_view(out@);
        }
        let ghost old_rest = rest@;
        let x = rest.remove(0);
        let ghost xv = x.view_entry();
        proof {
            lemma_entries_view(rest@);
            lemma_entries_view(old_rest);
            assert(entries_view(old_rest)[0] == all.skip(i)[0]);
            assert(xv == all[i]);
            assert forall|j: int| 0 <= j < rest@.len() implies #[trigger] entries_view(rest@)[j]
                == all.skip(i + 1)[j] by {
                assert(rest@[j] == old_rest[j + 1]);
                assert(entries_view(old_rest)[j + 1] == all.skip(i)[j + 1]);
            }
            assert(entries_view(rest@) =~= all.skip(i + 1));
            assert(all.take(i + 1).drop_last() =~= all.take(i));
            assert(all.take(i + 1).last() == xv);
        }
        let mut p = out.len();
        while p > 0 && key_less(o, &x.key, &out[p - 1].key)
            invariant
                p <= out@.len(),
                forall|j: int| p <= j < out@.len() ==> key_lt(o@, x.key@, #[trigger] out@[j].key@),
            decreases p,
        {
            p = p - 1;
        }
        proof {
            let ov = entries_view(out@);
            assert forall|j: int| p <= j < ov.len() implies key_lt(o@, xv.0, #[trigger] ov[j].0) by {
                assert(ov[j].0 == out@[j].key@);
            }
            if p > 0 {
                assert(ov[p - 1].0 == out@[p - 1].key@);
            }
            lemma_insert_sorted_position(o@, ov, xv, p as int);
        }
        out.insert(p, x);
        proof {
            lemma_entries_view(out@);
            assert(entries_view(out@) =~= sort_by_key(o@, all.take(i)).insert(p as int, xv));
            i = i + 1;
        }
    }
    proof {
        assert(all.take(i) =~= all);
        law_sort_by_key(o@, all);
    }
    out
}

/// Text of a scalar; other nodes have none.
pub open spec fn scalar_text(y: Yaml) -> Seq<char> {
    match y {
        Yaml::Scalar(t, _) => t,
        _ => Seq::empty(),
    }
}

/// Every item is a scalar.
pub open spec fn all_scalars(items: Seq<Yaml>) -> bool {
    forall|i: int| 0 <= i < items.len() ==> #[trigger] items[i] is Scalar
}

/// Each item paired with its text as key.
pub open spec fn keyed_items(items: Seq<Yaml>) -> Seq<(Seq<char>, Yaml)> {
    items.map_values(|y: Yaml| (scalar_text(y), y))
}

/// Items stably sorted alphabetically by their text.
pub open spec fn sort_items(items: Seq<Yaml>) -> Seq<Yaml> {
    sort_by_key(KeyOrderView::Alphabetical, keyed_items(items)).map_values(
        |e: (Seq<char>, Yaml)| e.1,
    )
}

/// An item paired with its text, as a mapping entry without key style.
pub open spec fn as_entry(p: (Seq<char>, Yaml)) -> EntryView {
    (p.0, (Style::Any, p.1))
}

/// Stably sorts sequence items alphabetically by their text.
pub fn sort_scalar_items(items: Vec<Node>) -> (r: Vec<Node>)
    ensures
        nodes_view(r@) == sort_items(nodes_view(items@)),
{
    let ghost iv = nodes_view(items@);
    let ghost h = |p: (Seq<char>, Yaml)| as_entry(p);
    let mut rest = items;
    let mut keyed: Vec<Entry> = Vec::new();
    proof {
        lemma_nodes_view(rest@);
        lemma_entries_view(keyed@);
        assert(entries_view(keyed@) =~= keyed_items(iv).map_values(h).take(0));
    }
    let ghost mut i: int = 0;
    while rest.len() > 0
        invariant
            0 <= i <= iv.len(),
            iv.len() == i + rest@.len(),
            forall|j: int| 0 <= j < rest@.len() ==> #[trigger] rest@[j].view_node() == iv[i + j],
            entries_view(keyed@) == keyed_items(iv).map_values(h).take(i),
            h == (|p: (Seq<char>, Yaml)| as_entry(p)),
        decreases rest.len(),
    {
        let ghost old_rest = rest@;
        let n = rest.remove(0);
        let key = match &n {
            Node::Scalar(t, _) => t.clone(),
            _ => String::new(),
        };
        assert(key@ == scalar_text(n.view_node()));
        proof {
            lemma_entries_view(keyed@);
            assert(old_rest[0].view_node() == iv[i]);
            assert forall|j: int| 0 <= j < rest@.len() implies #[trigger] rest@[j].view_node() == iv[i + 1 + j] by {
                assert(rest@[j] == old_rest[j + 1]);
            }
        }
        keyed.push(Entry { key, key_style: Style::Any, value: n });
        proof {
            lemma_entries_view(keyed@);
            assert(entries_view(keyed@) =~= keyed_items(iv).map_values(h).take(i + 1));
            i = i + 1;
        }
    }
    proof {
        assert(keyed_items(iv).map_values(h).take(i) =~= keyed_items(iv).map_values(h));
        lemma_sort_by_key_map(KeyOrderView::Alphabetical, keyed_items(iv), h);
    }
    let sorted = sort_entries(&KeyOrder::Alphabetical, keyed);
    let ghost sv = entries_view(sorted@);
    let ghost pick = |e: EntryView| e.1.1;
    let mut out: Vec<Node> = Vec::new();
    let mut rest2 = sorted;
    let ghost mut m: int = 0;
    proof {
        lemma_entries_view(rest2@);
        lemma_nodes_view(out@);
        assert(nodes_view(out@) =~= sv.map_values(pick).take(0));
    }
    while rest2.len() > 0
        invariant
            0 <= m <= sv.len(),
            sv.len() == m + rest2@.len(),
            forall|j: int| 0 <= j < rest2@.len() ==> #[trigger] rest2@[j].value.view_node() == sv[m + j].1.1,
            nodes_view(out@) == sv.map_values(pick).take(m),
            pick == (|e: EntryView| e.1.1),
        decreases rest2.len(),
    {
        let ghost old_rest = rest2@;
        let e = rest2.remove(0);
        proof {
            lemma_nodes_view(out@);
            assert(old_rest[0].value.view_node() == sv[m].1.1);
            assert forall|j: int| 0 <= j < rest2@.len() implies #[trigger] rest2@[j].value.view_node() == sv[m + 1 + j].1.1 by {
                assert(rest2@[j] == old_rest[j + 1]);
            }
        }
        out.push(e.value);
        proof {
            lemma_nodes_view(out@);
            assert(nodes_view(out@) =~= sv.map_values(pick).take(m + 1));
            m = m + 1;
        }
    }
    assert(sv.map_values(pick).take(m) =~= sv.map_values(pick));
    assert(sv.map_values(pick) =~= sort_items(iv));
    out
}

} // verus!
