//! Canonical key orderings and event lists for workflow formatting.
use vstd::prelude::*;

verus! {

/// Canonical order for top-level GitHub Actions workflow keys.
pub const TOP_LEVEL_KEY_ORDERING: [&'static str; 8] = [
    "name",
    "run-name",
    "on",
    "permissions",
    "concurrency",
    "env",
    "defaults",
    "jobs",
];

/// Canonical order for keys within a `workflow_dispatch` or `workflow_call` input block.
pub const INPUT_ORDER: [&'static str; 5] = ["description", "type", "required", "default", "options"];

/// Canonical order for keys within a `workflow_call` output block.
pub const OUTPUT_ORDER: [&'static str; 2] = ["description", "value"];

/// Canonical order for keys within a `workflow_call` secret block.
pub const SECRET_ORDER: [&'static str; 2] = ["description", "required"];

/// Top-level section keys present under `workflow_call` or `workflow_dispatch`.
pub const WORKFLOW_KEYS: [&'static str; 3] = ["inputs", "outputs", "secrets"];

/// Exhaustive list of GitHub Actions event types used to build filter paths.
pub const EVENT_TYPES: [&'static str; 34] = [
    "branch_protection_rule",
    "check_run",
    "check_suite",
    "create",
    "delete",
    "deployment",
    "deployment_status",
    "discussion",
    "discussion_comment",
    "fork",
    "gollum",
    "image_version",
    "issue_comment",
    "issues",
    "label",
    "merge_group",
    "milestone",
    "page_build",
    "public",
    "pull_request",
    "pull_request_comment",
    "pull_request_review",
    "pull_request_review_comment",
    "pull_request_target",
    "push",
    "registry_package",
    "release",
    "repository_dispatch",
    "schedule",
    "status",
    "watch",
    "workflow_call",
    "workflow_dispatch",
    "workflow_run",
];

} // verus!
