//! Laws of the sorters: what holds of every document they are run on.
use vstd::prelude::*;
use crate::edit::{EditView, apply_edit, first_with_key, lemma_first_with_key, at_key, every_value, every_item, both};
use crate::node::{EntryView, Yaml};
use crate::structure_transformers::concurrency_sorter::{concurrency_plan, concurrency_order};
use crate::structure_transformers::defaults_sorter::defaults_plan;
use crate::structure_transformers::env_sorter::{env_plan, env_sort, job_env_plan};
use crate::structure_transformers::needs_sorter::needs_plan;
use crate::structure_transformers::on_sorter::on_plan;
use crate::structure_transformers::permissions_sorter::permissions_plan;
use crate::structure_transformers::with_sorter::with_plan;
use crate::structure_transformers::workflow_run_sorter::workflow_run_plan;
use crate::order::KeyOrderView;
use crate::sort::{
    sort_by_key, law_sort_by_key, law_sort_sorted_unchanged, lemma_sort_by_key_map,
    all_scalars, keyed_items, sort_items, scalar_text,
};

verus! {

broadcast use vstd::seq_lib::group_to_multiset_ensures;

/// Applying `e` twice does what applying it once does, on every node.
pub open spec fn idempotent(e: EditView) -> bool {
    forall|y: Yaml| #[trigger] apply_edit(e, apply_edit(e, y)) == apply_edit(e, y)
}

/// Applying `a` then `b` does what applying `b` then `a` does, on every node.
pub open spec fn commute(a: EditView, b: EditView) -> bool {
    forall|y: Yaml| #[trigger] apply_edit(a, apply_edit(b, y)) == apply_edit(b, apply_edit(a, y))
}

/// Sorting keys twice sorts them once.
pub proof fn lemma_sort_keys_idempotent(o: KeyOrderView)
    ensures
        idempotent(EditView::SortKeys(o)),
{
    assert forall|y: Yaml| #[trigger] apply_edit(EditView::SortKeys(o), apply_edit(EditView::SortKeys(o), y))
        == apply_edit(EditView::SortKeys(o), y) by {
        if let Yaml::Mapping(es, _) = y {
            law_sort_by_key(o, es);
            law_sort_sorted_unchanged(o, sort_by_key(o, es));
        }
    }
}

/// Every element of a sorted sequence is an element of the sequence sorted.
pub proof fn lemma_sort_by_key_members<A>(o: KeyOrderView, s: Seq<(Seq<char>, A)>)
    ensures
        forall|i: int| 0 <= i < sort_by_key(o, s).len() ==> s.contains(#[trigger] sort_by_key(o, s)[i]),
{
    law_sort_by_key(o, s);
    assert forall|i: int| 0 <= i < sort_by_key(o, s).len() implies s.contains(#[trigger] sort_by_key(o, s)[i]) by {
        let t = sort_by_key(o, s);
        assert(t.to_multiset().count(t[i]) > 0);
    }
}

/// Sorting a sequence of scalars twice sorts it once.
pub proof fn lemma_sort_items_idempotent()
    ensures
        idempotent(EditView::SortItems),
{
    assert forall|y: Yaml| #[trigger] apply_edit(EditView::SortItems, apply_edit(EditView::SortItems, y))
        == apply_edit(EditView::SortItems, y) by {
        if let Yaml::Sequence(items, _) = y {
            if all_scalars(items) {
                let a = KeyOrderView::Alphabetical;
                let ks = keyed_items(items);
                let srt = sort_by_key(a, ks);
                law_sort_by_key(a, ks);
                lemma_sort_by_key_members(a, ks);
                let out = sort_items(items);
                assert forall|i: int| 0 <= i < srt.len() implies #[trigger] srt[i] == (
                    scalar_text(srt[i].1),
                    srt[i].1,
                ) && srt[i].1 is Scalar by {
                    assert(ks.contains(srt[i]));
                    let j = choose|j: int| 0 <= j < ks.len() && ks[j] == srt[i];
                    assert(items[j] is Scalar);
                }
                assert(all_scalars(out));
                assert(keyed_items(out) =~= srt);
                law_sort_sorted_unchanged(a, srt);
            }
        }
    }
}

/// The first entry with a key depends on the keys alone.
pub proof fn lemma_first_with_key_same_keys(
    s1: Seq<EntryView>,
    s2: Seq<EntryView>,
    k: Seq<char>,
)
    requires
        s1.len() == s2.len(),
        forall|j: int| 0 <= j < s1.len() ==> #[trigger] s1[j].0 == s2[j].0,
    ensures
        first_with_key(s1, k) == first_with_key(s2, k),
    decreases s1.len(),
{
    if s1.len() > 0 {
        assert forall|j: int| 0 <= j < s1.drop_first().len() implies #[trigger] s1.drop_first()[j].0
            == s2.drop_first()[j].0 by {
            assert(s1[j + 1].0 == s2[j + 1].0);
        }
        lemma_first_with_key_same_keys(s1.drop_first(), s2.drop_first(), k);
    }
}

/// Editing the value under a key twice, with an idempotent edit, edits it once.
pub proof fn lemma_child_idempotent(k: Seq<char>, e: EditView)
    requires
        idempotent(e),
    ensures
        idempotent(at_key(k, e)),
{
    let c = at_key(k, e);
    assert forall|y: Yaml| #[trigger] apply_edit(c, apply_edit(c, y)) == apply_edit(c, y) by {
        if let Yaml::Mapping(es, _) = y {
            lemma_first_with_key(es, k);
            if let Some(i) = first_with_key(es, k) {
                let es1 = es.update(i, (es[i].0, (es[i].1.0, apply_edit(e, es[i].1.1))));
                lemma_first_with_key_same_keys(es, es1, k);
                assert(apply_edit(e, apply_edit(e, es[i].1.1)) == apply_edit(e, es[i].1.1));
                assert(es1.update(i, (es1[i].0, (es1[i].1.0, apply_edit(e, es1[i].1.1)))) =~= es1);
            }
        }
    }
}

/// Editing every value twice, with an idempotent edit, edits every value once.
pub proof fn lemma_each_value_idempotent(e: EditView)
    requires
        idempotent(e),
    ensures
        idempotent(every_value(e)),
{
    let c = every_value(e);
    assert forall|y: Yaml| #[trigger] apply_edit(c, apply_edit(c, y)) == apply_edit(c, y) by {
        if let Yaml::Mapping(es, _) = y {
            let g = |p: EntryView| (p.0, (p.1.0, apply_edit(e, p.1.1)));
            let es1 = es.map_values(g);
            assert(apply_edit(c, y)->Mapping_0 =~= es1);
            assert(apply_edit(c, apply_edit(c, y))->Mapping_0 =~= es1.map_values(g));
            assert forall|i: int| 0 <= i < es.len() implies #[trigger] es1.map_values(g)[i] == es1[i] by {
                assert(apply_edit(e, apply_edit(e, es[i].1.1)) == apply_edit(e, es[i].1.1));
            }
            assert(es1.map_values(g) =~= es1);
        }
    }
}

/// Editing every item twice, with an idempotent edit, edits every item once.
pub proof fn lemma_each_item_idempotent(e: EditView)
    requires
        idempotent(e),
    ensures
        idempotent(every_item(e)),
{
    let c = every_item(e);
    assert forall|y: Yaml| #[trigger] apply_edit(c, apply_edit(c, y)) == apply_edit(c, y) by {
        if let Yaml::Sequence(items, _) = y {
            let g = |x: Yaml| apply_edit(e, x);
            let it1 = items.map_values(g);
            assert(apply_edit(c, y)->Sequence_0 =~= it1);
            assert(apply_edit(c, apply_edit(c, y))->Sequence_0 =~= it1.map_values(g));
            assert forall|i: int| 0 <= i < items.len() implies #[trigger] it1.map_values(g)[i] == it1[i] by {
                assert(apply_edit(e, apply_edit(e, items[i])) == apply_edit(e, items[i]));
            }
            assert(it1.map_values(g) =~= it1);
        }
    }
}

/// Two idempotent edits that commute make an idempotent sequence.
pub proof fn lemma_both_idempotent(a: EditView, b: EditView)
    requires
        idempotent(a),
        idempotent(b),
        commute(a, b),
    ensures
        idempotent(both(a, b)),
{
    let c = both(a, b);
    assert forall|y: Yaml| #[trigger] apply_edit(c, apply_edit(c, y)) == apply_edit(c, y) by {
        let ay = apply_edit(a, y);
        assert(apply_edit(a, apply_edit(b, ay)) == apply_edit(b, apply_edit(a, ay)));
        assert(apply_edit(a, ay) == ay);
        assert(apply_edit(b, apply_edit(b, ay)) == apply_edit(b, ay));
    }
}

/// Edits of the values under two different keys do not interfere.
pub proof fn lemma_children_commute(k1: Seq<char>, e1: EditView, k2: Seq<char>, e2: EditView)
    requires
        k1 != k2,
    ensures
        commute(at_key(k1, e1), at_key(k2, e2)),
{
    let a = at_key(k1, e1);
    let b = at_key(k2, e2);
    assert forall|y: Yaml| #[trigger] apply_edit(a, apply_edit(b, y)) == apply_edit(b, apply_edit(a, y)) by {
        if let Yaml::Mapping(es, _) = y {
            lemma_first_with_key(es, k1);
            lemma_first_with_key(es, k2);
            let ea = match first_with_key(es, k1) {
                Some(i) => es.update(i, (es[i].0, (es[i].1.0, apply_edit(e1, es[i].1.1)))),
                None => es,
            };
            let eb = match first_with_key(es, k2) {
                Some(j) => es.update(j, (es[j].0, (es[j].1.0, apply_edit(e2, es[j].1.1)))),
                None => es,
            };
            assert(apply_edit(a, y)->Mapping_0 == ea);
            assert(apply_edit(b, y)->Mapping_0 == eb);
            lemma_first_with_key_same_keys(es, ea, k2);
            lemma_first_with_key_same_keys(es, eb, k1);
            match (first_with_key(es, k1), first_with_key(es, k2)) {
                (Some(i), Some(j)) => {
                    assert(i != j);
                    assert(eb.update(i, (eb[i].0, (eb[i].1.0, apply_edit(e1, eb[i].1.1)))) =~= ea.update(
                        j,
                        (ea[j].0, (ea[j].1.0, apply_edit(e2, ea[j].1.1))),
                    ));
                },
                _ => {},
            }
        }
    }
}

/// Commuting is symmetric.
pub proof fn lemma_commute_symmetric(a: EditView, b: EditView)
    requires
        commute(a, b),
    ensures
        commute(b, a),
{
    assert forall|y: Yaml| #[trigger] apply_edit(b, apply_edit(a, y)) == apply_edit(a, apply_edit(b, y)) by {
        assert(apply_edit(a, apply_edit(b, y)) == apply_edit(b, apply_edit(a, y)));
    }
}

/// An edit that commutes with each of two edits commutes with the pair.
pub proof fn lemma_commute_both(c: EditView, a: EditView, b: EditView)
    requires
        commute(c, a),
        commute(c, b),
    ensures
        commute(c, both(a, b)),
{
    assert forall|y: Yaml| #[trigger] apply_edit(c, apply_edit(both(a, b), y)) == apply_edit(
        both(a, b),
        apply_edit(c, y),
    ) by {
        let ay = apply_edit(a, y);
        assert(apply_edit(c, apply_edit(b, ay)) == apply_edit(b, apply_edit(c, ay)));
        assert(apply_edit(c, apply_edit(a, y)) == apply_edit(a, apply_edit(c, y)));
    }
}

/// Sorting the keys of a mapping and editing each of its values do not interfere.
pub proof fn lemma_sort_keys_commutes_each_value(o: KeyOrderView, e: EditView)
    ensures
        commute(EditView::SortKeys(o), every_value(e)),
{
    let a = EditView::SortKeys(o);
    let b = every_value(e);
    assert forall|y: Yaml| #[trigger] apply_edit(a, apply_edit(b, y)) == apply_edit(b, apply_edit(a, y)) by {
        if let Yaml::Mapping(es, _) = y {
            let g = |p: EntryView| (p.0, (p.1.0, apply_edit(e, p.1.1)));
            assert(apply_edit(b, y)->Mapping_0 =~= es.map_values(g));
            lemma_sort_by_key_map(o, es, g);
            assert(apply_edit(b, apply_edit(a, y))->Mapping_0 =~= sort_by_key(o, es).map_values(g));
        }
    }
}

/// Sorting a sequence's items does not interfere with edits of mappings.
pub proof fn lemma_sort_items_commutes(e: EditView)
    requires
        e is SortKeys || e is EachValue,
    ensures
        commute(EditView::SortItems, e),
{
    let a = EditView::SortItems;
    assert forall|y: Yaml| #[trigger] apply_edit(a, apply_edit(e, y)) == apply_edit(e, apply_edit(a, y)) by {
        match y {
            Yaml::Mapping(..) => {
                assert(apply_edit(e, y) is Mapping);
            },
            _ => {},
        }
    }
}

/// Running the concurrency sorter on its own output changes nothing.
pub proof fn law_concurrency_sorter_idempotent(doc: Yaml)
    ensures
        apply_edit(concurrency_plan(), apply_edit(concurrency_plan(), doc)) == apply_edit(
            concurrency_plan(),
            doc,
        ),
{
    let sort = EditView::SortKeys(concurrency_order());
    let top = at_key("concurrency"@, sort);
    let jobs = at_key("jobs"@, every_value(at_key("concurrency"@, sort)));
    lemma_sort_keys_idempotent(concurrency_order());
    lemma_child_idempotent("concurrency"@, sort);
    lemma_each_value_idempotent(at_key("concurrency"@, sort));
    lemma_child_idempotent("jobs"@, every_value(at_key("concurrency"@, sort)));
    reveal_strlit("concurrency");
    reveal_strlit("jobs");
    assert("concurrency"@.len() != "jobs"@.len());
    lemma_children_commute("concurrency"@, sort, "jobs"@, every_value(at_key("concurrency"@, sort)));
    lemma_both_idempotent(top, jobs);
}

/// Running the defaults sorter on its own output changes nothing.
pub proof fn law_defaults_sorter_idempotent(doc: Yaml)
    ensures
        apply_edit(defaults_plan(), apply_edit(defaults_plan(), doc)) == apply_edit(defaults_plan(), doc),
{
    let sort_run = at_key("run"@, EditView::SortKeys(KeyOrderView::Alphabetical));
    let sort = at_key("defaults"@, sort_run);
    lemma_sort_keys_idempotent(KeyOrderView::Alphabetical);
    lemma_child_idempotent("run"@, EditView::SortKeys(KeyOrderView::Alphabetical));
    lemma_child_idempotent("defaults"@, sort_run);
    lemma_each_value_idempotent(sort);
    lemma_child_idempotent("jobs"@, every_value(sort));
    reveal_strlit("defaults");
    reveal_strlit("jobs");
    assert("defaults"@.len() != "jobs"@.len());
    lemma_children_commute("defaults"@, sort_run, "jobs"@, every_value(sort));
    lemma_both_idempotent(sort, at_key("jobs"@, every_value(sort)));
}

/// Running the permissions sorter on its own output changes nothing.
pub proof fn law_permissions_sorter_idempotent(doc: Yaml)
    ensures
        apply_edit(permissions_plan(), apply_edit(permissions_plan(), doc)) == apply_edit(
            permissions_plan(),
            doc,
        ),
{
    let by_name = EditView::SortKeys(KeyOrderView::Alphabetical);
    let sort = at_key("permissions"@, by_name);
    lemma_sort_keys_idempotent(KeyOrderView::Alphabetical);
    lemma_child_idempotent("permissions"@, by_name);
    lemma_each_value_idempotent(sort);
    lemma_child_idempotent("jobs"@, every_value(sort));
    reveal_strlit("permissions");
    reveal_strlit("jobs");
    assert("permissions"@.len() != "jobs"@.len());
    lemma_children_commute("permissions"@, by_name, "jobs"@, every_value(sort));
    lemma_both_idempotent(sort, at_key("jobs"@, every_value(sort)));
}

/// Running the env sorter on its own output changes nothing.
pub proof fn law_env_sorter_idempotent(doc: Yaml)
    ensures
        apply_edit(env_plan(), apply_edit(env_plan(), doc)) == apply_edit(env_plan(), doc),
{
    let by_name = EditView::SortKeys(KeyOrderView::Alphabetical);
    reveal_strlit("env");
    reveal_strlit("jobs");
    reveal_strlit("container");
    reveal_strlit("steps");
    assert("env"@.len() != "jobs"@.len());
    assert("env"@.len() != "container"@.len());
    assert("env"@.len() != "steps"@.len());
    assert("container"@.len() != "steps"@.len());
    lemma_sort_keys_idempotent(KeyOrderView::Alphabetical);
    lemma_child_idempotent("env"@, by_name);
    let in_container = at_key("container"@, env_sort());
    lemma_child_idempotent("container"@, env_sort());
    lemma_children_commute("env"@, by_name, "container"@, env_sort());
    lemma_both_idempotent(env_sort(), in_container);
    let in_steps = at_key("steps"@, every_item(env_sort()));
    lemma_each_item_idempotent(env_sort());
    lemma_child_idempotent("steps"@, every_item(env_sort()));
    lemma_children_commute("steps"@, every_item(env_sort()), "env"@, by_name);
    lemma_children_commute("steps"@, every_item(env_sort()), "container"@, env_sort());
    lemma_commute_both(in_steps, env_sort(), in_container);
    lemma_commute_symmetric(in_steps, both(env_sort(), in_container));
    lemma_both_idempotent(both(env_sort(), in_container), in_steps);
    let in_services = at_key("services"@, every_value(env_sort()));
    reveal_strlit("services");
    assert("services"@.len() != "env"@.len());
    assert("services"@.len() != "container"@.len());
    assert("services"@.len() != "steps"@.len());
    lemma_each_value_idempotent(env_sort());
    lemma_child_idempotent("services"@, every_value(env_sort()));
    lemma_children_commute("services"@, every_value(env_sort()), "env"@, by_name);
    lemma_children_commute("services"@, every_value(env_sort()), "container"@, env_sort());
    lemma_children_commute("services"@, every_value(env_sort()), "steps"@, every_item(env_sort()));
    lemma_commute_both(in_services, env_sort(), in_container);
    lemma_commute_both(in_services, both(env_sort(), in_container), in_steps);
    lemma_commute_symmetric(in_services, both(both(env_sort(), in_container), in_steps));
    lemma_both_idempotent(both(both(env_sort(), in_container), in_steps), in_services);
    lemma_each_value_idempotent(job_env_plan());
    lemma_child_idempotent("jobs"@, every_value(job_env_plan()));
    lemma_children_commute("env"@, by_name, "jobs"@, every_value(job_env_plan()));
    lemma_both_idempotent(env_sort(), at_key("jobs"@, every_value(job_env_plan())));
}

/// Running the needs sorter on its own output changes nothing.
pub proof fn law_needs_sorter_idempotent(doc: Yaml)
    ensures
        apply_edit(needs_plan(), apply_edit(needs_plan(), doc)) == apply_edit(needs_plan(), doc),
{
    lemma_sort_items_idempotent();
    lemma_child_idempotent("needs"@, EditView::SortItems);
    lemma_each_value_idempotent(at_key("needs"@, EditView::SortItems));
    lemma_child_idempotent("jobs"@, every_value(at_key("needs"@, EditView::SortItems)));
}

/// Running the on sorter on its own output changes nothing.
pub proof fn law_on_sorter_idempotent(doc: Yaml)
    ensures
        apply_edit(on_plan(), apply_edit(on_plan(), doc)) == apply_edit(on_plan(), doc),
{
    let by_name = EditView::SortKeys(KeyOrderView::Alphabetical);
    let mapping = both(by_name, every_value(by_name));
    lemma_sort_keys_idempotent(KeyOrderView::Alphabetical);
    lemma_each_value_idempotent(by_name);
    lemma_sort_keys_commutes_each_value(KeyOrderView::Alphabetical, by_name);
    lemma_both_idempotent(by_name, every_value(by_name));
    lemma_sort_items_idempotent();
    lemma_sort_items_commutes(by_name);
    lemma_sort_items_commutes(every_value(by_name));
    lemma_commute_both(EditView::SortItems, by_name, every_value(by_name));
    lemma_both_idempotent(EditView::SortItems, mapping);
    lemma_child_idempotent("on"@, both(EditView::SortItems, mapping));
}

/// Running the with sorter on its own output changes nothing.
pub proof fn law_with_sorter_idempotent(doc: Yaml)
    ensures
        apply_edit(with_plan(), apply_edit(with_plan(), doc)) == apply_edit(with_plan(), doc),
{
    let sort = EditView::SortKeys(KeyOrderView::StepInputs);
    lemma_sort_keys_idempotent(KeyOrderView::StepInputs);
    lemma_child_idempotent("with"@, sort);
    lemma_each_item_idempotent(at_key("with"@, sort));
    lemma_child_idempotent("steps"@, every_item(at_key("with"@, sort)));
    lemma_each_value_idempotent(at_key("steps"@, every_item(at_key("with"@, sort))));
    lemma_child_idempotent("jobs"@, every_value(at_key("steps"@, every_item(at_key("with"@, sort)))));
}

/// Running the workflow_run sorter on its own output changes nothing.
pub proof fn law_workflow_run_sorter_idempotent(doc: Yaml)
    ensures
        apply_edit(workflow_run_plan(), apply_edit(workflow_run_plan(), doc)) == apply_edit(
            workflow_run_plan(),
            doc,
        ),
{
    let by_name = EditView::SortKeys(KeyOrderView::Alphabetical);
    lemma_sort_keys_idempotent(KeyOrderView::Alphabetical);
    lemma_sort_items_idempotent();
    lemma_each_value_idempotent(EditView::SortItems);
    lemma_sort_keys_commutes_each_value(KeyOrderView::Alphabetical, EditView::SortItems);
    lemma_both_idempotent(by_name, every_value(EditView::SortItems));
    lemma_child_idempotent("workflow_run"@, both(by_name, every_value(EditView::SortItems)));
    lemma_child_idempotent(
        "on"@,
        at_key("workflow_run"@, both(by_name, every_value(EditView::SortItems))),
    );
}

} // verus!
