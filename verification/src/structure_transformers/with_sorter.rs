//! Sorts `with` entries in each step into idiomatic order.
use vstd::prelude::*;
use crate::edit::{
    Edit, EditView, apply, apply_edit, at_key, child, each_item, each_value, every_item, every_value,
};
use crate::node::Node;
use crate::order::{KeyOrder, KeyOrderView};

verus! {

/// Sorts `with` entries in each step: `entrypoint`, then `args`, then the rest
/// alphabetically.
pub struct WithSorter;

/// The `with` mapping of every step of every job, in step input order.
pub open spec fn with_plan() -> EditView {
    at_key(
        "jobs"@,
        every_value(
            at_key("steps"@, every_item(at_key("with"@, EditView::SortKeys(KeyOrderView::StepInputs)))),
        ),
    )
}

impl WithSorter {
    /// The edit this sorter performs.
    pub fn plan(&self) -> (r: Edit)
        ensures
            r@ == with_plan(),
    {
        child(
            "jobs",
            each_value(child("steps", each_item(child("with", Edit::SortKeys(KeyOrder::StepInputs))))),
        )
    }

    /// Sorts the `with` mapping of every step of every job: `entrypoint` first,
    /// then `args`, then every other input alphabetically.
    pub fn process(&self, doc: Node) -> (r: Node)
        ensures
            r@ == apply_edit(with_plan(), doc@),
    {
        apply(&self.plan(), doc)
    }

    pub fn name(&self) -> (r: &'static str)
        ensures
            r@ == "with-sorter"@,
    {
        "with-sorter"
    }

    pub fn description(&self) -> (r: &'static str)
        ensures
            r@ == "Sort 'with' entries in a step in an idiomatic way"@,
    {
        "Sort 'with' entries in a step in an idiomatic way"
    }
}

} // verus!
