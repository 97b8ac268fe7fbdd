//! Sorts keys under every `concurrency` mapping into idiomatic order.
use vstd::prelude::*;
use crate::edit::{Edit, EditView, apply, apply_edit, at_key, both, child, each_value, every_value, then};
use crate::node::Node;
use crate::order::{KeyOrder, KeyOrderView, listed_order};

verus! {

/// Sorts keys under `concurrency` into idiomatic order.
pub struct ConcurrencySorter;

/// Canonical key order within a `concurrency` mapping.
pub const CONCURRENCY_ORDERING: [&'static str; 2] = ["group", "cancel-in-progress"];

/// Canonical key order within a `concurrency` mapping.
pub open spec fn concurrency_order() -> KeyOrderView {
    KeyOrderView::Listed(seq!["group"@, "cancel-in-progress"@])
}

/// The top-level `concurrency` mapping and that of every job, each sorted
/// into the canonical order.
pub open spec fn concurrency_plan() -> EditView {
    let sort = EditView::SortKeys(concurrency_order());
    both(at_key("concurrency"@, sort), at_key("jobs"@, every_value(at_key("concurrency"@, sort))))
}

/// Canonical key order within a `concurrency` mapping.
pub fn concurrency_ordering() -> (r: KeyOrder)
    ensures
        r@ == concurrency_order(),
{
    let r = listed_order(&CONCURRENCY_ORDERING);
    assert(CONCURRENCY_ORDERING@.map_values(|s: &str| s@) =~= seq!["group"@, "cancel-in-progress"@]);
    r
}

impl ConcurrencySorter {
    /// The edit this sorter performs.
    pub fn plan(&self) -> (r: Edit)
        ensures
            r@ == concurrency_plan(),
    {
        then(
            child("concurrency", Edit::SortKeys(concurrency_ordering())),
            child("jobs", each_value(child("concurrency", Edit::SortKeys(concurrency_ordering())))),
        )
    }

    /// Sorts the keys of the top-level `concurrency` mapping and of every job's
    /// `concurrency` mapping: `group`, then `cancel-in-progress`, then the rest
    /// alphabetically.
    pub fn process(&self, doc: Node) -> (r: Node)
        ensures
            r@ == apply_edit(concurrency_plan(), doc@),
    {
        apply(&self.plan(), doc)
    }

    pub fn name(&self) -> (r: &'static str)
        ensures
            r@ == "concurrency-sorter"@,
    {
        "concurrency-sorter"
    }

    pub fn description(&self) -> (r: &'static str)
        ensures
            r@ == "Sort keys under 'concurrency'"@,
    {
        "Sort keys under 'concurrency'"
    }
}

} // verus!
