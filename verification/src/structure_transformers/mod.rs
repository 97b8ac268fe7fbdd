//! Sorters that rearrange the structure of a workflow document.
pub mod concurrency_sorter;
pub mod defaults_sorter;
pub mod env_sorter;
pub mod needs_sorter;
pub mod on_sorter;
pub mod permissions_sorter;
pub mod with_sorter;
pub mod workflow_run_sorter;
