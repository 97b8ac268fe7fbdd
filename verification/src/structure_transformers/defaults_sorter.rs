//! Sorts top-level and job-specific `defaults` mappings alphabetically.
use vstd::prelude::*;
use crate::edit::{Edit, EditView, apply, apply_edit, at_key, both, child, each_value, every_value, then};
use crate::node::Node;
use crate::order::{KeyOrder, KeyOrderView};

verus! {

/// Sorts top-level and job-specific `defaults` mappings alphabetically.
pub struct DefaultsSorter;

/// `defaults/run` at the top level and in every job, sorted alphabetically.
pub open spec fn defaults_plan() -> EditView {
    let sort = at_key("defaults"@, at_key("run"@, EditView::SortKeys(KeyOrderView::Alphabetical)));
    both(sort, at_key("jobs"@, every_value(sort)))
}

impl DefaultsSorter {
    /// The edit this sorter performs.
    pub fn plan(&self) -> (r: Edit)
        ensures
            r@ == defaults_plan(),
    {
        then(
            child("defaults", child("run", Edit::SortKeys(KeyOrder::Alphabetical))),
            child(
                "jobs",
                each_value(child("defaults", child("run", Edit::SortKeys(KeyOrder::Alphabetical)))),
            ),
        )
    }

    /// Sorts the keys of `defaults/run`, at the top level and in every job,
    /// alphabetically.
    pub fn process(&self, doc: Node) -> (r: Node)
        ensures
            r@ == apply_edit(defaults_plan(), doc@),
    {
        apply(&self.plan(), doc)
    }

    pub fn name(&self) -> (r: &'static str)
        ensures
            r@ == "defaults-sorter"@,
    {
        "defaults-sorter"
    }

    pub fn description(&self) -> (r: &'static str)
        ensures
            r@ == "Sort top-level and job specific 'defaults' into alphabetical order"@,
    {
        "Sort top-level and job specific 'defaults' into alphabetical order"
    }
}

} // verus!
