//! Sorts `permissions` mappings at top-level and job-level.
use vstd::prelude::*;
use crate::edit::{Edit, EditView, apply, apply_edit, at_key, both, child, each_value, every_value, then};
use crate::node::Node;
use crate::order::{KeyOrder, KeyOrderView};

verus! {

/// Sorts `permissions` at top-level and job-level alphabetically.
pub struct PermissionsSorter;

/// The top-level `permissions` and every job's, sorted alphabetically.
pub open spec fn permissions_plan() -> EditView {
    let sort = at_key("permissions"@, EditView::SortKeys(KeyOrderView::Alphabetical));
    both(sort, at_key("jobs"@, every_value(sort)))
}

impl PermissionsSorter {
    /// The edit this sorter performs.
    pub fn plan(&self) -> (r: Edit)
        ensures
            r@ == permissions_plan(),
    {
        then(
            child("permissions", Edit::SortKeys(KeyOrder::Alphabetical)),
            child("jobs", each_value(child("permissions", Edit::SortKeys(KeyOrder::Alphabetical)))),
        )
    }

    /// Sorts the keys of the top-level `permissions` mapping and of every
    /// job's alphabetically; a scalar such as `read-all` stays.
    pub fn process(&self, doc: Node) -> (r: Node)
        ensures
            r@ == apply_edit(permissions_plan(), doc@),
    {
        apply(&self.plan(), doc)
    }

    pub fn name(&self) -> (r: &'static str)
        ensures
            r@ == "permissions-sorter"@,
    {
        "permissions-sorter"
    }

    pub fn description(&self) -> (r: &'static str)
        ensures
            r@ == "Sort 'permissions' at top-level and job-level"@,
    {
        "Sort 'permissions' at top-level and job-level"
    }
}

} // verus!
