//! Sorts entries in every `env` mapping alphabetically.
use vstd::prelude::*;
use crate::edit::{
    Edit, EditView, apply, apply_edit, at_key, both, child, each_item, each_value, every_item,
    every_value, then,
};
use crate::node::Node;
use crate::order::{KeyOrder, KeyOrderView};

verus! {

/// Sorts entries in every `env` mapping alphabetically.
pub struct EnvSorter;

/// Sorting of an `env` mapping found under a node.
pub open spec fn env_sort() -> EditView {
    at_key("env"@, EditView::SortKeys(KeyOrderView::Alphabetical))
}

/// The `env` of a job, of its container, of each of its steps, and of each of
/// its service containers.
pub open spec fn job_env_plan() -> EditView {
    both(
        both(
            both(env_sort(), at_key("container"@, env_sort())),
            at_key("steps"@, every_item(env_sort())),
        ),
        at_key("services"@, every_value(env_sort())),
    )
}

/// Every `env` mapping of a workflow, sorted alphabetically.
pub open spec fn env_plan() -> EditView {
    both(env_sort(), at_key("jobs"@, every_value(job_env_plan())))
}

/// Sorting of an `env` mapping found under a node.
fn env_sort_edit() -> (r: Edit)
    ensures
        r@ == env_sort(),
{
    child("env", Edit::SortKeys(KeyOrder::Alphabetical))
}

impl EnvSorter {
    /// The edit this sorter performs.
    pub fn plan(&self) -> (r: Edit)
        ensures
            r@ == env_plan(),
    {
        let job = then(
            then(
                then(env_sort_edit(), child("container", env_sort_edit())),
                child("steps", each_item(env_sort_edit())),
            ),
            child("services", each_value(env_sort_edit())),
        );
        then(env_sort_edit(), child("jobs", each_value(job)))
    }

    /// Sorts alphabetically every `env` mapping of a workflow: the top-level
    /// one and, in every job, the job's `env`, its container's `env`, each
    /// step's `env` and each service container's `env`.
    pub fn process(&self, doc: Node) -> (r: Node)
        ensures
            r@ == apply_edit(env_plan(), doc@),
    {
        apply(&self.plan(), doc)
    }

    pub fn name(&self) -> (r: &'static str)
        ensures
            r@ == "env-sorter"@,
    {
        "env-sorter"
    }

    pub fn description(&self) -> (r: &'static str)
        ensures
            r@ == "Sort entries in every 'env' mapping"@,
    {
        "Sort entries in every 'env' mapping"
    }
}

} // verus!
