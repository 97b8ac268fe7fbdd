//! Sorts all `on` trigger entries, appropriate to their underlying YAML type.
use vstd::prelude::*;
use crate::edit::{Edit, EditView, apply, apply_edit, at_key, both, child, each_value, every_value, then};
use crate::node::Node;
use crate::order::{KeyOrder, KeyOrderView};

verus! {

/// Sorts all `on` trigger entries, appropriate to their underlying YAML type.
pub struct OnSorter;

/// A sequence of events under `on` sorted alphabetically; a mapping of events
/// sorted by event name, and the keys of each event's settings sorted too.
pub open spec fn on_plan() -> EditView {
    let by_name = EditView::SortKeys(KeyOrderView::Alphabetical);
    at_key("on"@, both(EditView::SortItems, both(by_name, every_value(by_name))))
}

impl OnSorter {
    /// The edit this sorter performs.
    pub fn plan(&self) -> (r: Edit)
        ensures
            r@ == on_plan(),
    {
        child(
            "on",
            then(
                Edit::SortItems,
                then(
                    Edit::SortKeys(KeyOrder::Alphabetical),
                    each_value(Edit::SortKeys(KeyOrder::Alphabetical)),
                ),
            ),
        )
    }

    /// Sorts `on`: a sequence of event names alphabetically; a mapping by event
    /// name and then each event's own keys alphabetically; a scalar stays.
    pub fn process(&self, doc: Node) -> (r: Node)
        ensures
            r@ == apply_edit(on_plan(), doc@),
    {
        apply(&self.plan(), doc)
    }

    pub fn name(&self) -> (r: &'static str)
        ensures
            r@ == "on-sorter"@,
    {
        "on-sorter"
    }

    pub fn description(&self) -> (r: &'static str)
        ensures
            r@ == "Sort all 'on' entries, appropriate to their underlying type"@,
    {
        "Sort all 'on' entries, appropriate to their underlying type"
    }
}

} // verus!
