//! Where the sorters sort: for each sorter, what the result holds at each
//! location it is responsible for, whatever the names of jobs, events or steps.
use vstd::prelude::*;
use crate::edit::{EditView, apply_edit, at_key, every_value, every_item};
use crate::node::{EntryView, Style, Yaml};
use crate::order::KeyOrderView;
use crate::paths::{
    Step, step, value_at, lemma_value_at_cons, lemma_step_child, lemma_step_other_child,
    lemma_step_each_value, lemma_step_each_item, lemma_value_at_child, lemma_value_at_other_child,
    lemma_value_at_each_value, lemma_value_at_each_item,
};
use crate::sort::{
    sort_by_key, sorted_by_key, law_sort_by_key, all_scalars, sort_items, keyed_items, scalar_text,
};
use crate::structure_transformers::concurrency_sorter::concurrency_plan;
use crate::structure_transformers::defaults_sorter::defaults_plan;
use crate::structure_transformers::env_sorter::{env_plan, env_sort, job_env_plan};
use crate::structure_transformers::permissions_sorter::permissions_plan;
use crate::structure_transformers::needs_sorter::needs_plan;
use crate::structure_transformers::on_sorter::on_plan;
use crate::structure_transformers::with_sorter::with_plan;
use crate::structure_transformers::workflow_run_sorter::workflow_run_plan;
use crate::text::lex_lt;

verus! {

/// Location of the `with` inputs of step `s` of the job at position `j`.
pub open spec fn with_path(j: int, s: int) -> Seq<Step> {
    seq![Step::Key("jobs"@), Step::Entry(j), Step::Key("steps"@), Step::Item(s), Step::Key("with"@)]
}

/// The `with` inputs of every step of every job, whatever the job is called,
/// come out sorted in step input order (`entrypoint`, `args`, then the rest
/// alphabetically), holding the same inputs, with its style kept.
pub proof fn law_with_sorter_sorts_every_step(
    doc: Yaml,
    j: int,
    s: int,
    ws: Seq<EntryView>,
    st: Style,
)
    requires
        value_at(doc, with_path(j, s)) == Some(Yaml::Mapping(ws, st)),
    ensures
        value_at(apply_edit(with_plan(), doc), with_path(j, s)) == Some(
            Yaml::Mapping(sort_by_key(KeyOrderView::StepInputs, ws), st),
        ),
        sorted_by_key(KeyOrderView::StepInputs, sort_by_key(KeyOrderView::StepInputs, ws)),
        sort_by_key(KeyOrderView::StepInputs, ws).to_multiset() == ws.to_multiset(),
{
    let sort = EditView::SortKeys(KeyOrderView::StepInputs);
    let aw = at_key("with"@, sort);
    let ei = every_item(aw);
    let ast = at_key("steps"@, ei);
    let ev = every_value(ast);
    let r = apply_edit(with_plan(), doc);
    let p = with_path(j, s);
    let p4 = seq![Step::Key("with"@)];
    let p3 = seq![Step::Item(s)] + p4;
    let p2 = seq![Step::Key("steps"@)] + p3;
    let p1 = seq![Step::Entry(j)] + p2;
    assert(p =~= seq![Step::Key("jobs"@)] + p1);
    // the document side
    lemma_value_at_cons(doc, Step::Key("jobs"@), p1);
    let jobs = step(doc, Step::Key("jobs"@))->Some_0;
    lemma_value_at_cons(jobs, Step::Entry(j), p2);
    let job = step(jobs, Step::Entry(j))->Some_0;
    lemma_value_at_cons(job, Step::Key("steps"@), p3);
    let steps = step(job, Step::Key("steps"@))->Some_0;
    lemma_value_at_cons(steps, Step::Item(s), p4);
    let st_node = step(steps, Step::Item(s))->Some_0;
    assert(p4 =~= seq![Step::Key("with"@)] + Seq::<Step>::empty());
    lemma_value_at_cons(st_node, Step::Key("with"@), Seq::<Step>::empty());
    let w = step(st_node, Step::Key("with"@))->Some_0;
    assert(w == Yaml::Mapping(ws, st));
    // the result side
    lemma_step_child("jobs"@, ev, doc);
    lemma_value_at_cons(r, Step::Key("jobs"@), p1);
    lemma_step_each_value(ast, jobs, j);
    lemma_value_at_cons(apply_edit(ev, jobs), Step::Entry(j), p2);
    lemma_step_child("steps"@, ei, job);
    lemma_value_at_cons(apply_edit(ast, job), Step::Key("steps"@), p3);
    lemma_step_each_item(aw, steps, s);
    lemma_value_at_cons(apply_edit(ei, steps), Step::Item(s), p4);
    lemma_step_child("with"@, sort, st_node);
    lemma_value_at_cons(apply_edit(aw, st_node), Step::Key("with"@), Seq::<Step>::empty());
    law_sort_by_key(KeyOrderView::StepInputs, ws);
}

/// The order of keys in a `concurrency` mapping: `group`, then
/// `cancel-in-progress`, then the rest alphabetically.
pub open spec fn group_first() -> KeyOrderView {
    KeyOrderView::Listed(seq!["group"@, "cancel-in-progress"@])
}

/// The top-level `concurrency` mapping comes out sorted `group`,
/// `cancel-in-progress`, then the rest alphabetically, holding the same entries.
pub proof fn law_concurrency_sorter_sorts_top_level(doc: Yaml, cs: Seq<EntryView>, st: Style)
    requires
        value_at(doc, seq![Step::Key("concurrency"@)]) == Some(Yaml::Mapping(cs, st)),
    ensures
        value_at(apply_edit(concurrency_plan(), doc), seq![Step::Key("concurrency"@)]) == Some(
            Yaml::Mapping(sort_by_key(group_first(), cs), st),
        ),
        sorted_by_key(group_first(), sort_by_key(group_first(), cs)),
        sort_by_key(group_first(), cs).to_multiset() == cs.to_multiset(),
{
    let sort = EditView::SortKeys(group_first());
    let top = at_key("concurrency"@, sort);
    let ev = every_value(at_key("concurrency"@, sort));
    let y1 = apply_edit(top, doc);
    reveal_strlit("concurrency");
    reveal_strlit("jobs");
    assert("concurrency"@.len() != "jobs"@.len());
    let e = Seq::<Step>::empty();
    assert(seq![Step::Key("concurrency"@)] =~= seq![Step::Key("concurrency"@)] + e);
    lemma_value_at_cons(doc, Step::Key("concurrency"@), e);
    lemma_step_child("concurrency"@, sort, doc);
    lemma_step_other_child("jobs"@, ev, "concurrency"@, y1);
    lemma_value_at_cons(apply_edit(concurrency_plan(), doc), Step::Key("concurrency"@), e);
    law_sort_by_key(group_first(), cs);
}

/// Location of the `concurrency` mapping of the job at position `j`.
pub open spec fn job_concurrency_path(j: int) -> Seq<Step> {
    seq![Step::Key("jobs"@), Step::Entry(j), Step::Key("concurrency"@)]
}

/// The `concurrency` mapping of every job, whatever the job is called, comes
/// out sorted `group`, `cancel-in-progress`, then the rest alphabetically.
pub proof fn law_concurrency_sorter_sorts_every_job(doc: Yaml, j: int, cs: Seq<EntryView>, st: Style)
    requires
        value_at(doc, job_concurrency_path(j)) == Some(Yaml::Mapping(cs, st)),
    ensures
        value_at(apply_edit(concurrency_plan(), doc), job_concurrency_path(j)) == Some(
            Yaml::Mapping(sort_by_key(group_first(), cs), st),
        ),
        sorted_by_key(group_first(), sort_by_key(group_first(), cs)),
        sort_by_key(group_first(), cs).to_multiset() == cs.to_multiset(),
{
    let sort = EditView::SortKeys(group_first());
    let top = at_key("concurrency"@, sort);
    let ac = at_key("concurrency"@, sort);
    let ev = every_value(ac);
    let y1 = apply_edit(top, doc);
    let r = apply_edit(concurrency_plan(), doc);
    reveal_strlit("concurrency");
    reveal_strlit("jobs");
    assert("concurrency"@.len() != "jobs"@.len());
    let e = Seq::<Step>::empty();
    let p2 = seq![Step::Key("concurrency"@)] + e;
    let p1 = seq![Step::Entry(j)] + p2;
    assert(job_concurrency_path(j) =~= seq![Step::Key("jobs"@)] + p1);
    lemma_value_at_cons(doc, Step::Key("jobs"@), p1);
    let jobs = step(doc, Step::Key("jobs"@))->Some_0;
    lemma_value_at_cons(jobs, Step::Entry(j), p2);
    let job = step(jobs, Step::Entry(j))->Some_0;
    lemma_value_at_cons(job, Step::Key("concurrency"@), e);
    lemma_step_other_child("concurrency"@, sort, "jobs"@, doc);
    lemma_step_child("jobs"@, ev, y1);
    lemma_value_at_cons(r, Step::Key("jobs"@), p1);
    lemma_step_each_value(ac, jobs, j);
    lemma_value_at_cons(apply_edit(ev, jobs), Step::Entry(j), p2);
    lemma_step_child("concurrency"@, sort, job);
    lemma_value_at_cons(apply_edit(ac, job), Step::Key("concurrency"@), e);
    law_sort_by_key(group_first(), cs);
}

/// A sorted sequence of scalars keeps its length and items and is in
/// alphabetical order of the items' full text.
pub proof fn law_sort_items_alphabetical(items: Seq<Yaml>)
    requires
        all_scalars(items),
    ensures
        sort_items(items).len() == items.len(),
        forall|i: int| 0 <= i < items.len() ==> items.contains(#[trigger] sort_items(items)[i]),
        forall|i: int, j: int|
            0 <= i < j < items.len() ==> match (#[trigger] sort_items(items)[i], #[trigger] sort_items(items)[j]) {
                (Yaml::Scalar(a, _), Yaml::Scalar(b, _)) => !lex_lt(b, a),
                _ => false,
            },
{
    let a = KeyOrderView::Alphabetical;
    let ks = keyed_items(items);
    let srt = sort_by_key(a, ks);
    law_sort_by_key(a, ks);
    crate::laws::lemma_sort_by_key_members(a, ks);
    assert forall|i: int| 0 <= i < srt.len() implies #[trigger] srt[i] == (
        scalar_text(srt[i].1),
        srt[i].1,
    ) && srt[i].1 is Scalar && items.contains(srt[i].1) by {
        assert(ks.contains(srt[i]));
        let m = choose|m: int| 0 <= m < ks.len() && ks[m] == srt[i];
        assert(items[m] is Scalar);
        assert(items[m] == srt[i].1);
    }
    assert forall|i: int, j: int| 0 <= i < j < items.len() implies match (
        #[trigger] sort_items(items)[i],
        #[trigger] sort_items(items)[j],
    ) {
        (Yaml::Scalar(a, _), Yaml::Scalar(b, _)) => !lex_lt(b, a),
        _ => false,
    } by {
        assert(sort_items(items)[i] == srt[i].1);
        assert(sort_items(items)[j] == srt[j].1);
        assert(!crate::order::key_lt(a, srt[j].0, srt[i].0));
    }
}

/// Location of the `needs` of the job at position `j`.
pub open spec fn needs_path(j: int) -> Seq<Step> {
    seq![Step::Key("jobs"@), Step::Entry(j), Step::Key("needs"@)]
}

/// The `needs` list of every job, whatever the job is called, comes out in
/// alphabetical order of its items (see [`law_sort_items_alphabetical`]).
pub proof fn law_needs_sorter_sorts_every_job(doc: Yaml, j: int, items: Seq<Yaml>, st: Style)
    requires
        value_at(doc, needs_path(j)) == Some(Yaml::Sequence(items, st)),
        all_scalars(items),
    ensures
        value_at(apply_edit(needs_plan(), doc), needs_path(j)) == Some(
            Yaml::Sequence(sort_items(items), st),
        ),
{
    let an = at_key("needs"@, EditView::SortItems);
    let ev = every_value(an);
    let r = apply_edit(needs_plan(), doc);
    let e = Seq::<Step>::empty();
    let p2 = seq![Step::Key("needs"@)] + e;
    let p1 = seq![Step::Entry(j)] + p2;
    assert(needs_path(j) =~= seq![Step::Key("jobs"@)] + p1);
    lemma_value_at_cons(doc, Step::Key("jobs"@), p1);
    let jobs = step(doc, Step::Key("jobs"@))->Some_0;
    lemma_value_at_cons(jobs, Step::Entry(j), p2);
    let job = step(jobs, Step::Entry(j))->Some_0;
    lemma_value_at_cons(job, Step::Key("needs"@), e);
    lemma_step_child("jobs"@, ev, doc);
    lemma_value_at_cons(r, Step::Key("jobs"@), p1);
    lemma_step_each_value(an, jobs, j);
    lemma_value_at_cons(apply_edit(ev, jobs), Step::Entry(j), p2);
    lemma_step_child("needs"@, EditView::SortItems, job);
    lemma_value_at_cons(apply_edit(an, job), Step::Key("needs"@), e);
}

/// A node with the keys of its mapping, if it is one, sorted alphabetically;
/// any other node as it is.
pub open spec fn keys_sorted(y: Yaml) -> Yaml {
    match y {
        Yaml::Mapping(vs, vst) => Yaml::Mapping(sort_by_key(KeyOrderView::Alphabetical, vs), vst),
        _ => y,
    }
}

/// Under an `on` mapping, the events come out sorted by name, and each event
/// is one of the input's events with its own keys sorted: nothing below an
/// event's keys (such as a `branches` or `paths` list) is changed or reordered.
pub proof fn law_on_sorter_keeps_event_settings(doc: Yaml, es: Seq<EntryView>, st: Style)
    requires
        value_at(doc, seq![Step::Key("on"@)]) == Some(Yaml::Mapping(es, st)),
    ensures
        match value_at(apply_edit(on_plan(), doc), seq![Step::Key("on"@)]) {
            Some(Yaml::Mapping(res, st2)) => {
                &&& st2 == st
                &&& res.len() == es.len()
                &&& sorted_by_key(KeyOrderView::Alphabetical, res)
                &&& forall|i: int|
                    0 <= i < res.len() ==> exists|m: int|
                        0 <= m < es.len() && #[trigger] res[i].0 == es[m].0 && res[i].1.0 == es[m].1.0
                            && res[i].1.1 == keys_sorted(es[m].1.1)
            },
            _ => false,
        },
{
    let a = KeyOrderView::Alphabetical;
    let by_name = EditView::SortKeys(a);
    let inner = crate::edit::both(EditView::SortItems, crate::edit::both(by_name, every_value(by_name)));
    let e = Seq::<Step>::empty();
    assert(seq![Step::Key("on"@)] =~= seq![Step::Key("on"@)] + e);
    lemma_value_at_cons(doc, Step::Key("on"@), e);
    let r = apply_edit(on_plan(), doc);
    lemma_step_child("on"@, inner, doc);
    lemma_value_at_cons(r, Step::Key("on"@), e);
    let on = Yaml::Mapping(es, st);
    let srt = sort_by_key(a, es);
    law_sort_by_key(a, es);
    crate::laws::lemma_sort_by_key_members(a, es);
    let g = |p: EntryView| (p.0, (p.1.0, apply_edit(by_name, p.1.1)));
    let res = srt.map_values(g);
    assert(apply_edit(EditView::SortItems, on) == on);
    assert(apply_edit(by_name, on) == Yaml::Mapping(srt, st));
    let y3 = apply_edit(every_value(by_name), Yaml::Mapping(srt, st));
    assert(y3->Mapping_0 =~= res);
    let mid = crate::edit::both(by_name, every_value(by_name));
    assert(apply_edit(inner, on) == apply_edit(mid, apply_edit(EditView::SortItems, on)));
    assert(apply_edit(mid, on) == apply_edit(every_value(by_name), apply_edit(by_name, on)));
    assert(apply_edit(inner, on) == y3);
    assert forall|i: int| 0 <= i < res.len() implies exists|m: int|
        0 <= m < es.len() && #[trigger] res[i].0 == es[m].0 && res[i].1.0 == es[m].1.0 && res[i].1.1
            == keys_sorted(es[m].1.1) by {
        assert(es.contains(srt[i]));
        let m = choose|m: int| 0 <= m < es.len() && es[m] == srt[i];
        assert(res[i].0 == es[m].0);
    }
    assert forall|i: int, j: int| 0 <= i < j < res.len() implies !crate::order::key_lt(
        a,
        #[trigger] res[j].0,
        #[trigger] res[i].0,
    ) by {
        assert(res[i].0 == srt[i].0 && res[j].0 == srt[j].0);
    }
}

/// Location of the node under `key` in the job at position `j`.
pub open spec fn job_key_path(j: int, key: Seq<char>) -> Seq<Step> {
    seq![Step::Key("jobs"@), Step::Entry(j), Step::Key(key)]
}

/// The top-level `permissions` mapping comes out with its keys in
/// alphabetical order, holding the same entries.
pub proof fn law_permissions_sorter_sorts_top_level(doc: Yaml, ps: Seq<EntryView>, st: Style)
    requires
        value_at(doc, seq![Step::Key("permissions"@)]) == Some(Yaml::Mapping(ps, st)),
    ensures
        value_at(apply_edit(permissions_plan(), doc), seq![Step::Key("permissions"@)]) == Some(
            Yaml::Mapping(sort_by_key(KeyOrderView::Alphabetical, ps), st),
        ),
        sorted_by_key(KeyOrderView::Alphabetical, sort_by_key(KeyOrderView::Alphabetical, ps)),
        sort_by_key(KeyOrderView::Alphabetical, ps).to_multiset() == ps.to_multiset(),
{
    let sortk = EditView::SortKeys(KeyOrderView::Alphabetical);
    let sort = at_key("permissions"@, sortk);
    let y1 = apply_edit(sort, doc);
    reveal_strlit("permissions");
    reveal_strlit("jobs");
    assert("permissions"@.len() != "jobs"@.len());
    let e = Seq::<Step>::empty();
    assert(seq![Step::Key("permissions"@)] =~= seq![Step::Key("permissions"@)] + e);
    lemma_value_at_cons(doc, Step::Key("permissions"@), e);
    lemma_value_at_child("permissions"@, sortk, doc, e);
    lemma_value_at_other_child("jobs"@, every_value(sort), "permissions"@, y1, e);
    law_sort_by_key(KeyOrderView::Alphabetical, ps);
}

/// The `permissions` mapping of every job, whatever the job is called, comes
/// out with its keys in alphabetical order, holding the same entries.
pub proof fn law_permissions_sorter_sorts_every_job(doc: Yaml, j: int, ps: Seq<EntryView>, st: Style)
    requires
        value_at(doc, job_key_path(j, "permissions"@)) == Some(Yaml::Mapping(ps, st)),
    ensures
        value_at(apply_edit(permissions_plan(), doc), job_key_path(j, "permissions"@)) == Some(
            Yaml::Mapping(sort_by_key(KeyOrderView::Alphabetical, ps), st),
        ),
        sorted_by_key(KeyOrderView::Alphabetical, sort_by_key(KeyOrderView::Alphabetical, ps)),
        sort_by_key(KeyOrderView::Alphabetical, ps).to_multiset() == ps.to_multiset(),
{
    let sortk = EditView::SortKeys(KeyOrderView::Alphabetical);
    let sort = at_key("permissions"@, sortk);
    let ev = every_value(sort);
    let y1 = apply_edit(sort, doc);
    reveal_strlit("permissions");
    reveal_strlit("jobs");
    assert("permissions"@.len() != "jobs"@.len());
    let e = Seq::<Step>::empty();
    let p2 = seq![Step::Key("permissions"@)] + e;
    let p1 = seq![Step::Entry(j)] + p2;
    assert(job_key_path(j, "permissions"@) =~= seq![Step::Key("jobs"@)] + p1);
    lemma_value_at_cons(doc, Step::Key("jobs"@), p1);
    let jobs = step(doc, Step::Key("jobs"@))->Some_0;
    lemma_value_at_cons(jobs, Step::Entry(j), p2);
    let job = step(jobs, Step::Entry(j))->Some_0;
    lemma_value_at_cons(job, Step::Key("permissions"@), e);
    lemma_step_other_child("permissions"@, sortk, "jobs"@, doc);
    lemma_value_at_child("jobs"@, ev, y1, p1);
    lemma_value_at_each_value(sort, jobs, j, p2);
    lemma_value_at_child("permissions"@, sortk, job, e);
    law_sort_by_key(KeyOrderView::Alphabetical, ps);
}

/// Location of the `defaults.run` mapping of the job at position `j`.
pub open spec fn job_defaults_run_path(j: int) -> Seq<Step> {
    seq![Step::Key("jobs"@), Step::Entry(j), Step::Key("defaults"@), Step::Key("run"@)]
}

/// The top-level `defaults.run` mapping comes out with its keys in
/// alphabetical order, holding the same entries.
pub proof fn law_defaults_sorter_sorts_top_level(doc: Yaml, rs: Seq<EntryView>, st: Style)
    requires
        value_at(doc, seq![Step::Key("defaults"@), Step::Key("run"@)]) == Some(Yaml::Mapping(rs, st)),
    ensures
        value_at(apply_edit(defaults_plan(), doc), seq![Step::Key("defaults"@), Step::Key("run"@)])
            == Some(Yaml::Mapping(sort_by_key(KeyOrderView::Alphabetical, rs), st)),
        sorted_by_key(KeyOrderView::Alphabetical, sort_by_key(KeyOrderView::Alphabetical, rs)),
        sort_by_key(KeyOrderView::Alphabetical, rs).to_multiset() == rs.to_multiset(),
{
    let sortk = EditView::SortKeys(KeyOrderView::Alphabetical);
    let run = at_key("run"@, sortk);
    let sort = at_key("defaults"@, run);
    let y1 = apply_edit(sort, doc);
    reveal_strlit("defaults");
    reveal_strlit("jobs");
    assert("defaults"@.len() != "jobs"@.len());
    let e = Seq::<Step>::empty();
    let p1 = seq![Step::Key("run"@)] + e;
    assert(seq![Step::Key("defaults"@), Step::Key("run"@)] =~= seq![Step::Key("defaults"@)] + p1);
    lemma_value_at_cons(doc, Step::Key("defaults"@), p1);
    let d = step(doc, Step::Key("defaults"@))->Some_0;
    lemma_value_at_cons(d, Step::Key("run"@), e);
    lemma_value_at_child("defaults"@, run, doc, p1);
    lemma_value_at_child("run"@, sortk, d, e);
    lemma_value_at_other_child("jobs"@, every_value(sort), "defaults"@, y1, p1);
    law_sort_by_key(KeyOrderView::Alphabetical, rs);
}

/// The `defaults.run` mapping of every job, whatever the job is called, comes
/// out with its keys in alphabetical order, holding the same entries.
pub proof fn law_defaults_sorter_sorts_every_job(doc: Yaml, j: int, rs: Seq<EntryView>, st: Style)
    requires
        value_at(doc, job_defaults_run_path(j)) == Some(Yaml::Mapping(rs, st)),
    ensures
        value_at(apply_edit(defaults_plan(), doc), job_defaults_run_path(j)) == Some(
            Yaml::Mapping(sort_by_key(KeyOrderView::Alphabetical, rs), st),
        ),
        sorted_by_key(KeyOrderView::Alphabetical, sort_by_key(KeyOrderView::Alphabetical, rs)),
        sort_by_key(KeyOrderView::Alphabetical, rs).to_multiset() == rs.to_multiset(),
{
    let sortk = EditView::SortKeys(KeyOrderView::Alphabetical);
    let run = at_key("run"@, sortk);
    let sort = at_key("defaults"@, run);
    let ev = every_value(sort);
    let y1 = apply_edit(sort, doc);
    reveal_strlit("defaults");
    reveal_strlit("jobs");
    assert("defaults"@.len() != "jobs"@.len());
    let e = Seq::<Step>::empty();
    let p3 = seq![Step::Key("run"@)] + e;
    let p2 = seq![Step::Key("defaults"@)] + p3;
    let p1 = seq![Step::Entry(j)] + p2;
    assert(job_defaults_run_path(j) =~= seq![Step::Key("jobs"@)] + p1);
    lemma_value_at_cons(doc, Step::Key("jobs"@), p1);
    let jobs = step(doc, Step::Key("jobs"@))->Some_0;
    lemma_value_at_cons(jobs, Step::Entry(j), p2);
    let job = step(jobs, Step::Entry(j))->Some_0;
    lemma_value_at_cons(job, Step::Key("defaults"@), p3);
    let d = step(job, Step::Key("defaults"@))->Some_0;
    lemma_value_at_cons(d, Step::Key("run"@), e);
    lemma_step_other_child("defaults"@, run, "jobs"@, doc);
    lemma_value_at_child("jobs"@, ev, y1, p1);
    lemma_value_at_each_value(sort, jobs, j, p2);
    lemma_value_at_child("defaults"@, run, job, p3);
    lemma_value_at_child("run"@, sortk, d, e);
    law_sort_by_key(KeyOrderView::Alphabetical, rs);
}

/// Following a path into the job at position `j`, in a document and in what
/// the env sorter makes of it.
proof fn lemma_env_plan_job(doc: Yaml, j: int, p: Seq<Step>)
    ensures
        value_at(apply_edit(env_plan(), doc), seq![Step::Key("jobs"@), Step::Entry(j)] + p) == match step(
            doc,
            Step::Key("jobs"@),
        ) {
            Some(js) => match step(js, Step::Entry(j)) {
                Some(job) => value_at(apply_edit(job_env_plan(), job), p),
                None => None,
            },
            None => None,
        },
        value_at(doc, seq![Step::Key("jobs"@), Step::Entry(j)] + p) == match step(doc, Step::Key("jobs"@)) {
            Some(js) => match step(js, Step::Entry(j)) {
                Some(job) => value_at(job, p),
                None => None,
            },
            None => None,
        },
{
    let sortk = EditView::SortKeys(KeyOrderView::Alphabetical);
    reveal_strlit("env");
    reveal_strlit("jobs");
    assert("env"@.len() != "jobs"@.len());
    let p1 = seq![Step::Entry(j)] + p;
    assert(seq![Step::Key("jobs"@), Step::Entry(j)] + p =~= seq![Step::Key("jobs"@)] + p1);
    lemma_value_at_cons(doc, Step::Key("jobs"@), p1);
    if let Some(js) = step(doc, Step::Key("jobs"@)) {
        lemma_value_at_cons(js, Step::Entry(j), p);
        lemma_value_at_each_value(job_env_plan(), js, j, p);
    }
    let y1 = apply_edit(env_sort(), doc);
    lemma_step_other_child("env"@, sortk, "jobs"@, doc);
    lemma_value_at_child("jobs"@, every_value(job_env_plan()), y1, p1);
}

/// The edits the env sorter makes in a job, one after the other.
proof fn lemma_job_env_plan_layers(job: Yaml)
    ensures
        apply_edit(job_env_plan(), job) == apply_edit(
            at_key("services"@, every_value(env_sort())),
            apply_edit(
                at_key("steps"@, every_item(env_sort())),
                apply_edit(at_key("container"@, env_sort()), apply_edit(env_sort(), job)),
            ),
        ),
{
    let es = env_sort();
    let a = crate::edit::both(es, at_key("container"@, es));
    let b = crate::edit::both(a, at_key("steps"@, every_item(es)));
    assert(apply_edit(a, job) == apply_edit(at_key("container"@, es), apply_edit(es, job)));
    assert(apply_edit(b, job) == apply_edit(at_key("steps"@, every_item(es)), apply_edit(a, job)));
}

/// The top-level `env` mapping comes out with its variables in alphabetical
/// order, holding the same entries.
pub proof fn law_env_sorter_sorts_top_level(doc: Yaml, vs: Seq<EntryView>, st: Style)
    requires
        value_at(doc, seq![Step::Key("env"@)]) == Some(Yaml::Mapping(vs, st)),
    ensures
        value_at(apply_edit(env_plan(), doc), seq![Step::Key("env"@)]) == Some(
            Yaml::Mapping(sort_by_key(KeyOrderView::Alphabetical, vs), st),
        ),
        sorted_by_key(KeyOrderView::Alphabetical, sort_by_key(KeyOrderView::Alphabetical, vs)),
        sort_by_key(KeyOrderView::Alphabetical, vs).to_multiset() == vs.to_multiset(),
{
    let sortk = EditView::SortKeys(KeyOrderView::Alphabetical);
    reveal_strlit("env");
    reveal_strlit("jobs");
    assert("env"@.len() != "jobs"@.len());
    let e = Seq::<Step>::empty();
    assert(seq![Step::Key("env"@)] =~= seq![Step::Key("env"@)] + e);
    lemma_value_at_cons(doc, Step::Key("env"@), e);
    lemma_value_at_child("env"@, sortk, doc, e);
    let y1 = apply_edit(env_sort(), doc);
    lemma_value_at_other_child("jobs"@, every_value(job_env_plan()), "env"@, y1, e);
    law_sort_by_key(KeyOrderView::Alphabetical, vs);
}

/// The `env` mapping of every job, whatever the job is called, comes out with
/// its variables in alphabetical order, holding the same entries.
pub proof fn law_env_sorter_sorts_every_job(doc: Yaml, j: int, vs: Seq<EntryView>, st: Style)
    requires
        value_at(doc, job_key_path(j, "env"@)) == Some(Yaml::Mapping(vs, st)),
    ensures
        value_at(apply_edit(env_plan(), doc), job_key_path(j, "env"@)) == Some(
            Yaml::Mapping(sort_by_key(KeyOrderView::Alphabetical, vs), st),
        ),
{
    let sortk = EditView::SortKeys(KeyOrderView::Alphabetical);
    let es = env_sort();
    reveal_strlit("env");
    reveal_strlit("container");
    reveal_strlit("steps");
    reveal_strlit("services");
    assert("env"@.len() == 3 && "container"@.len() == 9 && "steps"@.len() == 5 && "services"@.len() == 8);
    let e = Seq::<Step>::empty();
    let p = seq![Step::Key("env"@)] + e;
    assert(job_key_path(j, "env"@) =~= seq![Step::Key("jobs"@), Step::Entry(j)] + p);
    lemma_env_plan_job(doc, j, p);
    let job = step(step(doc, Step::Key("jobs"@))->Some_0, Step::Entry(j))->Some_0;
    lemma_value_at_cons(job, Step::Key("env"@), e);
    let z1 = apply_edit(es, job);
    let z2 = apply_edit(at_key("container"@, es), z1);
    let z3 = apply_edit(at_key("steps"@, every_item(es)), z2);
    lemma_job_env_plan_layers(job);
    lemma_value_at_other_child("services"@, every_value(es), "env"@, z3, e);
    lemma_value_at_other_child("steps"@, every_item(es), "env"@, z2, e);
    lemma_value_at_other_child("container"@, es, "env"@, z1, e);
    lemma_value_at_child("env"@, sortk, job, e);
}

/// Location of the `env` of the container of the job at position `j`.
pub open spec fn container_env_path(j: int) -> Seq<Step> {
    seq![Step::Key("jobs"@), Step::Entry(j), Step::Key("container"@), Step::Key("env"@)]
}

/// The `env` mapping of every job's container comes out with its variables in
/// alphabetical order, holding the same entries.
pub proof fn law_env_sorter_sorts_every_container(doc: Yaml, j: int, vs: Seq<EntryView>, st: Style)
    requires
        value_at(doc, container_env_path(j)) == Some(Yaml::Mapping(vs, st)),
    ensures
        value_at(apply_edit(env_plan(), doc), container_env_path(j)) == Some(
            Yaml::Mapping(sort_by_key(KeyOrderView::Alphabetical, vs), st),
        ),
{
    let sortk = EditView::SortKeys(KeyOrderView::Alphabetical);
    let es = env_sort();
    reveal_strlit("env");
    reveal_strlit("container");
    reveal_strlit("steps");
    reveal_strlit("services");
    assert("env"@.len() == 3 && "container"@.len() == 9 && "steps"@.len() == 5 && "services"@.len() == 8);
    let e = Seq::<Step>::empty();
    let q = seq![Step::Key("env"@)] + e;
    let p = seq![Step::Key("container"@)] + q;
    assert(container_env_path(j) =~= seq![Step::Key("jobs"@), Step::Entry(j)] + p);
    lemma_env_plan_job(doc, j, p);
    let job = step(step(doc, Step::Key("jobs"@))->Some_0, Step::Entry(j))->Some_0;
    lemma_value_at_cons(job, Step::Key("container"@), q);
    let c = step(job, Step::Key("container"@))->Some_0;
    lemma_value_at_cons(c, Step::Key("env"@), e);
    let z1 = apply_edit(es, job);
    let z2 = apply_edit(at_key("container"@, es), z1);
    let z3 = apply_edit(at_key("steps"@, every_item(es)), z2);
    lemma_job_env_plan_layers(job);
    lemma_value_at_other_child("services"@, every_value(es), "container"@, z3, q);
    lemma_value_at_other_child("steps"@, every_item(es), "container"@, z2, q);
    lemma_value_at_child("container"@, es, z1, q);
    lemma_step_other_child("env"@, sortk, "container"@, job);
    lemma_value_at_child("env"@, sortk, c, e);
}

/// Location of the `env` of step `s` of the job at position `j`.
pub open spec fn step_env_path(j: int, s: int) -> Seq<Step> {
    seq![Step::Key("jobs"@), Step::Entry(j), Step::Key("steps"@), Step::Item(s), Step::Key("env"@)]
}

/// The `env` mapping of every step of every job comes out with its variables
/// in alphabetical order, holding the same entries.
pub proof fn law_env_sorter_sorts_every_step(doc: Yaml, j: int, s: int, vs: Seq<EntryView>, st: Style)
    requires
        value_at(doc, step_env_path(j, s)) == Some(Yaml::Mapping(vs, st)),
    ensures
        value_at(apply_edit(env_plan(), doc), step_env_path(j, s)) == Some(
            Yaml::Mapping(sort_by_key(KeyOrderView::Alphabetical, vs), st),
        ),
{
    let sortk = EditView::SortKeys(KeyOrderView::Alphabetical);
    let es = env_sort();
    reveal_strlit("env");
    reveal_strlit("container");
    reveal_strlit("steps");
    reveal_strlit("services");
    assert("env"@.len() == 3 && "container"@.len() == 9 && "steps"@.len() == 5 && "services"@.len() == 8);
    let e = Seq::<Step>::empty();
    let q2 = seq![Step::Key("env"@)] + e;
    let q = seq![Step::Item(s)] + q2;
    let p = seq![Step::Key("steps"@)] + q;
    assert(step_env_path(j, s) =~= seq![Step::Key("jobs"@), Step::Entry(j)] + p);
    lemma_env_plan_job(doc, j, p);
    let job = step(step(doc, Step::Key("jobs"@))->Some_0, Step::Entry(j))->Some_0;
    lemma_value_at_cons(job, Step::Key("steps"@), q);
    let ss = step(job, Step::Key("steps"@))->Some_0;
    lemma_value_at_cons(ss, Step::Item(s), q2);
    let sn = step(ss, Step::Item(s))->Some_0;
    lemma_value_at_cons(sn, Step::Key("env"@), e);
    let z1 = apply_edit(es, job);
    let z2 = apply_edit(at_key("container"@, es), z1);
    let z3 = apply_edit(at_key("steps"@, every_item(es)), z2);
    lemma_job_env_plan_layers(job);
    lemma_value_at_other_child("services"@, every_value(es), "steps"@, z3, q);
    lemma_value_at_child("steps"@, every_item(es), z2, q);
    lemma_step_other_child("container"@, es, "steps"@, z1);
    lemma_step_other_child("env"@, sortk, "steps"@, job);
    lemma_value_at_each_item(es, ss, s, q2);
    lemma_value_at_child("env"@, sortk, sn, e);
}

/// Location of the `env` of the service at position `k` of the job at
/// position `j`.
pub open spec fn service_env_path(j: int, k: int) -> Seq<Step> {
    seq![Step::Key("jobs"@), Step::Entry(j), Step::Key("services"@), Step::Entry(k), Step::Key("env"@)]
}

/// The `env` mapping of every service of every job, whatever the service is
/// called, comes out with its variables in alphabetical order, holding the
/// same entries.
pub proof fn law_env_sorter_sorts_every_service(doc: Yaml, j: int, k: int, vs: Seq<EntryView>, st: Style)
    requires
        value_at(doc, service_env_path(j, k)) == Some(Yaml::Mapping(vs, st)),
    ensures
        value_at(apply_edit(env_plan(), doc), service_env_path(j, k)) == Some(
            Yaml::Mapping(sort_by_key(KeyOrderView::Alphabetical, vs), st),
        ),
{
    let sortk = EditView::SortKeys(KeyOrderView::Alphabetical);
    let es = env_sort();
    reveal_strlit("env");
    reveal_strlit("container");
    reveal_strlit("steps");
    reveal_strlit("services");
    assert("env"@.len() == 3 && "container"@.len() == 9 && "steps"@.len() == 5 && "services"@.len() == 8);
    let e = Seq::<Step>::empty();
    let q2 = seq![Step::Key("env"@)] + e;
    let q = seq![Step::Entry(k)] + q2;
    let p = seq![Step::Key("services"@)] + q;
    assert(service_env_path(j, k) =~= seq![Step::Key("jobs"@), Step::Entry(j)] + p);
    lemma_env_plan_job(doc, j, p);
    let job = step(step(doc, Step::Key("jobs"@))->Some_0, Step::Entry(j))->Some_0;
    lemma_value_at_cons(job, Step::Key("services"@), q);
    let sv = step(job, Step::Key("services"@))->Some_0;
    lemma_value_at_cons(sv, Step::Entry(k), q2);
    let sn = step(sv, Step::Entry(k))->Some_0;
    lemma_value_at_cons(sn, Step::Key("env"@), e);
    let z1 = apply_edit(es, job);
    let z2 = apply_edit(at_key("container"@, es), z1);
    let z3 = apply_edit(at_key("steps"@, every_item(es)), z2);
    lemma_job_env_plan_layers(job);
    lemma_value_at_child("services"@, every_value(es), z3, q);
    lemma_step_other_child("steps"@, every_item(es), "services"@, z2);
    lemma_step_other_child("container"@, es, "services"@, z1);
    lemma_step_other_child("env"@, sortk, "services"@, job);
    lemma_value_at_each_value(es, sv, k, q2);
    lemma_value_at_child("env"@, sortk, sn, e);
}

/// When `on` is a list of event names, it comes out in alphabetical order of
/// the names (see [`law_sort_items_alphabetical`]), with its style kept.
pub proof fn law_on_sorter_sorts_event_list(doc: Yaml, items: Seq<Yaml>, st: Style)
    requires
        value_at(doc, seq![Step::Key("on"@)]) == Some(Yaml::Sequence(items, st)),
        all_scalars(items),
    ensures
        value_at(apply_edit(on_plan(), doc), seq![Step::Key("on"@)]) == Some(
            Yaml::Sequence(sort_items(items), st),
        ),
{
    let by_name = EditView::SortKeys(KeyOrderView::Alphabetical);
    let mid = crate::edit::both(by_name, every_value(by_name));
    let inner = crate::edit::both(EditView::SortItems, mid);
    let e = Seq::<Step>::empty();
    assert(seq![Step::Key("on"@)] =~= seq![Step::Key("on"@)] + e);
    lemma_value_at_cons(doc, Step::Key("on"@), e);
    lemma_value_at_child("on"@, inner, doc, e);
    let y = Yaml::Sequence(sort_items(items), st);
    assert(apply_edit(EditView::SortItems, Yaml::Sequence(items, st)) == y);
    assert(apply_edit(mid, y) == apply_edit(every_value(by_name), apply_edit(by_name, y)));
}

/// A node with the items of its sequence, if it is a sequence of scalars,
/// in alphabetical order; any other node as it is.
pub open spec fn items_sorted(y: Yaml) -> Yaml {
    match y {
        Yaml::Sequence(items, st) => if all_scalars(items) {
            Yaml::Sequence(sort_items(items), st)
        } else {
            y
        },
        _ => y,
    }
}

/// The `on.workflow_run` mapping comes out sorted by key, and each of its
/// entries is one of the input's entries with its list of names (workflows,
/// types, branches) in alphabetical order.
pub proof fn law_workflow_run_sorter_sorts_keys_and_lists(doc: Yaml, ws: Seq<EntryView>, st: Style)
    requires
        value_at(doc, seq![Step::Key("on"@), Step::Key("workflow_run"@)]) == Some(Yaml::Mapping(ws, st)),
    ensures
        match value_at(apply_edit(workflow_run_plan(), doc), seq![Step::Key("on"@), Step::Key("workflow_run"@)]) {
            Some(Yaml::Mapping(res, st2)) => {
                &&& st2 == st
                &&& res.len() == ws.len()
                &&& sorted_by_key(KeyOrderView::Alphabetical, res)
                &&& forall|i: int|
                    0 <= i < res.len() ==> exists|m: int|
                        0 <= m < ws.len() && #[trigger] res[i].0 == ws[m].0 && res[i].1.0 == ws[m].1.0
                            && res[i].1.1 == items_sorted(ws[m].1.1)
            },
            _ => false,
        },
{
    let a = KeyOrderView::Alphabetical;
    let by_name = EditView::SortKeys(a);
    let inner = crate::edit::both(by_name, every_value(EditView::SortItems));
    let wr = at_key("workflow_run"@, inner);
    let e = Seq::<Step>::empty();
    let p1 = seq![Step::Key("workflow_run"@)] + e;
    assert(seq![Step::Key("on"@), Step::Key("workflow_run"@)] =~= seq![Step::Key("on"@)] + p1);
    lemma_value_at_cons(doc, Step::Key("on"@), p1);
    let on = step(doc, Step::Key("on"@))->Some_0;
    lemma_value_at_cons(on, Step::Key("workflow_run"@), e);
    lemma_value_at_child("on"@, wr, doc, p1);
    lemma_value_at_child("workflow_run"@, inner, on, e);
    let w = Yaml::Mapping(ws, st);
    let srt = sort_by_key(a, ws);
    law_sort_by_key(a, ws);
    crate::laws::lemma_sort_by_key_members(a, ws);
    let g = |p: EntryView| (p.0, (p.1.0, apply_edit(EditView::SortItems, p.1.1)));
    let res = srt.map_values(g);
    assert(apply_edit(by_name, w) == Yaml::Mapping(srt, st));
    let y2 = apply_edit(every_value(EditView::SortItems), Yaml::Mapping(srt, st));
    assert(y2->Mapping_0 =~= res);
    assert(apply_edit(inner, w) == y2);
    assert forall|i: int| 0 <= i < res.len() implies exists|m: int|
        0 <= m < ws.len() && #[trigger] res[i].0 == ws[m].0 && res[i].1.0 == ws[m].1.0 && res[i].1.1
            == items_sorted(ws[m].1.1) by {
        assert(ws.contains(srt[i]));
        let m = choose|m: int| 0 <= m < ws.len() && ws[m] == srt[i];
        assert(res[i].0 == ws[m].0);
    }
    assert forall|i: int, j: int| 0 <= i < j < res.len() implies !crate::order::key_lt(
        a,
        #[trigger] res[j].0,
        #[trigger] res[i].0,
    ) by {
        assert(res[i].0 == srt[i].0 && res[j].0 == srt[j].0);
    }
}

} // verus!
