//! Sorts `workflow_run` keys and their children alphabetically.
use vstd::prelude::*;
use crate::edit::{Edit, EditView, apply, apply_edit, at_key, both, child, each_value, every_value, then};
use crate::node::Node;
use crate::order::{KeyOrder, KeyOrderView};

verus! {

/// Sorts `workflow_run` keys and their children alphabetically.
pub struct WorkflowRunSorter;

/// `on/workflow_run` sorted by key, and each of its filter lists sorted.
pub open spec fn workflow_run_plan() -> EditView {
    at_key(
        "on"@,
        at_key(
            "workflow_run"@,
            both(EditView::SortKeys(KeyOrderView::Alphabetical), every_value(EditView::SortItems)),
        ),
    )
}

impl WorkflowRunSorter {
    /// The edit this sorter performs.
    pub fn plan(&self) -> (r: Edit)
        ensures
            r@ == workflow_run_plan(),
    {
        child(
            "on",
            child(
                "workflow_run",
                then(Edit::SortKeys(KeyOrder::Alphabetical), each_value(Edit::SortItems)),
            ),
        )
    }

    /// Sorts the keys of `on/workflow_run` alphabetically, and each of its
    /// sequences (`branches`, `types`, `workflows`, ...) alphabetically.
    pub fn process(&self, doc: Node) -> (r: Node)
        ensures
            r@ == apply_edit(workflow_run_plan(), doc@),
    {
        apply(&self.plan(), doc)
    }

    pub fn name(&self) -> (r: &'static str)
        ensures
            r@ == "workflow-run-sorter"@,
    {
        "workflow-run-sorter"
    }

    pub fn description(&self) -> (r: &'static str)
        ensures
            r@ == "Sort 'workflow_run' keys and their children alphabetically"@,
    {
        "Sort 'workflow_run' keys and their children alphabetically"
    }
}

} // verus!
