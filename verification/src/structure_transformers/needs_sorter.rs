//! Sorts `needs` entries alphabetically within each job.
use vstd::prelude::*;
use crate::edit::{Edit, EditView, apply, apply_edit, at_key, child, each_value, every_value};
use crate::node::Node;

verus! {

/// Sorts `needs` entries alphabetically within each job.
pub struct NeedsSorter;

/// Every job's `needs` sequence, sorted alphabetically.
pub open spec fn needs_plan() -> EditView {
    at_key("jobs"@, every_value(at_key("needs"@, EditView::SortItems)))
}

impl NeedsSorter {
    /// The edit this sorter performs.
    pub fn plan(&self) -> (r: Edit)
        ensures
            r@ == needs_plan(),
    {
        child("jobs", each_value(child("needs", Edit::SortItems)))
    }

    /// Sorts every job's `needs` sequence alphabetically; a single `needs`
    /// scalar is left as it is.
    pub fn process(&self, doc: Node) -> (r: Node)
        ensures
            r@ == apply_edit(needs_plan(), doc@),
    {
        apply(&self.plan(), doc)
    }

    pub fn name(&self) -> (r: &'static str)
        ensures
            r@ == "needs-sorter"@,
    {
        "needs-sorter"
    }

    pub fn description(&self) -> (r: &'static str)
        ensures
            r@ == "Sort 'needs' entries into alphabetical order"@,
    {
        "Sort 'needs' entries into alphabetical order"
    }
}

} // verus!
