use ghafmt::node::{Entry, Node, Style};
use ghafmt::structure_transformers::concurrency_sorter::ConcurrencySorter;
use ghafmt::structure_transformers::defaults_sorter::DefaultsSorter;
use ghafmt::structure_transformers::env_sorter::EnvSorter;
use ghafmt::structure_transformers::needs_sorter::NeedsSorter;
use ghafmt::structure_transformers::on_sorter::OnSorter;
use ghafmt::structure_transformers::permissions_sorter::PermissionsSorter;
use ghafmt::structure_transformers::with_sorter::WithSorter;
use ghafmt::structure_transformers::workflow_run_sorter::WorkflowRunSorter;

fn s(text: &str) -> Node {
    Node::Scalar(text.to_string(), Style::Plain)
}

fn quoted(text: &str) -> Node {
    Node::Scalar(text.to_string(), Style::SingleQuoted)
}

fn seq(items: Vec<Node>) -> Node {
    Node::Sequence(items, Style::Block)
}

fn map(entries: Vec<(&str, Node)>) -> Node {
    Node::Mapping(
        entries
            .into_iter()
            .map(|(k, v)| Entry { key: k.to_string(), key_style: Style::Plain, value: v })
            .collect(),
        Style::Block,
    )
}

fn scalars(items: &[&str]) -> Node {
    seq(items.iter().map(|t| s(t)).collect())
}

fn quoted_scalars(items: &[&str]) -> Node {
    seq(items.iter().map(|t| quoted(t)).collect())
}

fn flow_scalars(items: &[&str]) -> Node {
    Node::Sequence(items.iter().map(|t| s(t)).collect(), Style::Flow)
}

fn render(n: &Node) -> String {
    match n {
        Node::Scalar(t, st) => format!("{t:?}<{st:?}>"),
        Node::Sequence(items, st) => {
            let parts: Vec<String> = items.iter().map(render).collect();
            format!("[{}]<{st:?}>", parts.join(", "))
        }
        Node::Mapping(entries, st) => {
            let parts: Vec<String> = entries
                .iter()
                .map(|e| format!("{:?}<{:?}>: {}", e.key, e.key_style, render(&e.value)))
                .collect();
            format!("{{{}}}<{st:?}>", parts.join(", "))
        }
    }
}

fn check(result: Node, expected: Node) {
    assert_eq!(render(&result), render(&expected));
}

// concurrency-sorter

#[test]
fn test_concurrency_sorter_no_concurrency_key_present() {
    let doc = map(vec![("a", s("b")), ("b", s("c")), ("d", s("z")), ("jobs", map(vec![]))]);
    let expected = map(vec![("a", s("b")), ("b", s("c")), ("d", s("z")), ("jobs", map(vec![]))]);
    check(ConcurrencySorter.process(doc), expected);
}

#[test]
fn test_concurrency_sorter_concurrency_present() {
    let doc = map(vec![
        ("a", s("b")),
        ("concurrency", map(vec![("cancel-in-progress", s("true")), ("group", s("foo"))])),
        ("b", s("c")),
    ]);
    let expected = map(vec![
        ("a", s("b")),
        ("concurrency", map(vec![("group", s("foo")), ("cancel-in-progress", s("true"))])),
        ("b", s("c")),
    ]);
    check(ConcurrencySorter.process(doc), expected);
}

#[test]
fn test_concurrency_sorter_job_concurrency_present() {
    let doc = map(vec![(
        "jobs",
        map(vec![
            ("bar", s("a")),
            ("baz", s("b")),
            (
                "foo",
                map(vec![(
                    "concurrency",
                    map(vec![("cancel-in-progress", s("true")), ("group", s("foo"))]),
                )]),
            ),
        ]),
    )]);
    let expected = map(vec![(
        "jobs",
        map(vec![
            ("bar", s("a")),
            ("baz", s("b")),
            (
                "foo",
                map(vec![(
                    "concurrency",
                    map(vec![("group", s("foo")), ("cancel-in-progress", s("true"))]),
                )]),
            ),
        ]),
    )]);
    check(ConcurrencySorter.process(doc), expected);
}

#[test]
fn test_concurrency_sorter_unlisted_keys_follow_alphabetically() {
    let doc = map(vec![(
        "concurrency",
        map(vec![
            ("zeta", s("1")),
            ("cancel-in-progress", s("true")),
            ("alpha", s("2")),
            ("group", s("g")),
        ]),
    )]);
    let expected = map(vec![(
        "concurrency",
        map(vec![
            ("group", s("g")),
            ("cancel-in-progress", s("true")),
            ("alpha", s("2")),
            ("zeta", s("1")),
        ]),
    )]);
    check(ConcurrencySorter.process(doc), expected);
}

#[test]
fn test_concurrency_sorter_names() {
    assert_eq!(ConcurrencySorter.name(), "concurrency-sorter");
    assert_eq!(ConcurrencySorter.description(), "Sort keys under 'concurrency'");
}

// defaults-sorter

fn run_defaults(pairs: Vec<(&str, Node)>) -> Node {
    map(vec![("run", map(pairs))])
}

#[test]
fn test_defaults_sorter_no_defaults() {
    let doc = map(vec![("jobs", map(vec![("build", map(vec![("runs-on", s("ubuntu-latest"))]))]))]);
    let expected =
        map(vec![("jobs", map(vec![("build", map(vec![("runs-on", s("ubuntu-latest"))]))]))]);
    check(DefaultsSorter.process(doc), expected);
}

#[test]
fn test_defaults_sorter_top_level_defaults_run_sorted() {
    let doc = map(vec![(
        "defaults",
        run_defaults(vec![("working-directory", s("src")), ("shell", s("bash"))]),
    )]);
    let expected = map(vec![(
        "defaults",
        run_defaults(vec![("shell", s("bash")), ("working-directory", s("src"))]),
    )]);
    check(DefaultsSorter.process(doc), expected);
}

#[test]
fn test_defaults_sorter_job_level_defaults_run_sorted() {
    let doc = map(vec![(
        "jobs",
        map(vec![(
            "build",
            map(vec![(
                "defaults",
                run_defaults(vec![("working-directory", s("src")), ("shell", s("bash"))]),
            )]),
        )]),
    )]);
    let expected = map(vec![(
        "jobs",
        map(vec![(
            "build",
            map(vec![(
                "defaults",
                run_defaults(vec![("shell", s("bash")), ("working-directory", s("src"))]),
            )]),
        )]),
    )]);
    check(DefaultsSorter.process(doc), expected);
}

#[test]
fn test_defaults_sorter_both_levels_sorted() {
    let job = |wd: &str, sh: &str| {
        map(vec![("defaults", run_defaults(vec![("working-directory", s(wd)), ("shell", s(sh))]))])
    };
    let sorted_job = |wd: &str, sh: &str| {
        map(vec![("defaults", run_defaults(vec![("shell", s(sh)), ("working-directory", s(wd))]))])
    };
    let doc = map(vec![
        ("defaults", run_defaults(vec![("working-directory", s("root")), ("shell", s("zsh"))])),
        ("jobs", map(vec![("build", job("src", "bash")), ("deploy", job("deploy", "sh"))])),
    ]);
    let expected = map(vec![
        ("defaults", run_defaults(vec![("shell", s("zsh")), ("working-directory", s("root"))])),
        (
            "jobs",
            map(vec![("build", sorted_job("src", "bash")), ("deploy", sorted_job("deploy", "sh"))]),
        ),
    ]);
    check(DefaultsSorter.process(doc), expected);
}

#[test]
fn test_defaults_sorter_names() {
    assert_eq!(DefaultsSorter.name(), "defaults-sorter");
    assert_eq!(
        DefaultsSorter.description(),
        "Sort top-level and job specific 'defaults' into alphabetical order"
    );
}

// env-sorter

#[test]
fn test_env_sorter_no_env_keys() {
    let doc = map(vec![
        ("on", s("push")),
        ("jobs", map(vec![("build", map(vec![("runs-on", s("ubuntu-latest"))]))])),
    ]);
    let expected = map(vec![
        ("on", s("push")),
        ("jobs", map(vec![("build", map(vec![("runs-on", s("ubuntu-latest"))]))])),
    ]);
    check(EnvSorter.process(doc), expected);
}

#[test]
fn test_env_sorter_top_level_env_sorted() {
    let doc =
        map(vec![("env", map(vec![("ZEBRA", s("z")), ("ALPHA", s("a")), ("MIDDLE", s("m"))]))]);
    let expected =
        map(vec![("env", map(vec![("ALPHA", s("a")), ("MIDDLE", s("m")), ("ZEBRA", s("z"))]))]);
    check(EnvSorter.process(doc), expected);
}

#[test]
fn test_env_sorter_job_level_env_sorted() {
    let doc = map(vec![(
        "jobs",
        map(vec![(
            "build",
            map(vec![(
                "env",
                map(vec![("NODE_ENV", s("production")), ("CI", s("true")), ("DEBUG", s("false"))]),
            )]),
        )]),
    )]);
    let expected = map(vec![(
        "jobs",
        map(vec![(
            "build",
            map(vec![(
                "env",
                map(vec![("CI", s("true")), ("DEBUG", s("false")), ("NODE_ENV", s("production"))]),
            )]),
        )]),
    )]);
    check(EnvSorter.process(doc), expected);
}

#[test]
fn test_env_sorter_step_level_env_sorted() {
    let doc = map(vec![(
        "jobs",
        map(vec![(
            "build",
            map(vec![(
                "steps",
                seq(vec![map(vec![
                    ("name", s("Test")),
                    ("env", map(vec![("Z_VAR", s("z")), ("A_VAR", s("a"))])),
                ])]),
            )]),
        )]),
    )]);
    let expected = map(vec![(
        "jobs",
        map(vec![(
            "build",
            map(vec![(
                "steps",
                seq(vec![map(vec![
                    ("name", s("Test")),
                    ("env", map(vec![("A_VAR", s("a")), ("Z_VAR", s("z"))])),
                ])]),
            )]),
        )]),
    )]);
    check(EnvSorter.process(doc), expected);
}

#[test]
fn test_env_sorter_container_env_sorted() {
    let doc = map(vec![(
        "jobs",
        map(vec![(
            "build",
            map(vec![(
                "container",
                map(vec![(
                    "env",
                    map(vec![
                        ("POSTGRES_DB", s("test")),
                        ("NODE_ENV", s("test")),
                        ("CI", s("true")),
                    ]),
                )]),
            )]),
        )]),
    )]);
    let expected = map(vec![(
        "jobs",
        map(vec![(
            "build",
            map(vec![(
                "container",
                map(vec![(
                    "env",
                    map(vec![
                        ("CI", s("true")),
                        ("NODE_ENV", s("test")),
                        ("POSTGRES_DB", s("test")),
                    ]),
                )]),
            )]),
        )]),
    )]);
    check(EnvSorter.process(doc), expected);
}

#[test]
fn test_env_sorter_all_levels_sorted() {
    let doc = map(vec![
        ("env", map(vec![("Z_TOP", s("z")), ("A_TOP", s("a"))])),
        (
            "jobs",
            map(vec![(
                "build",
                map(vec![
                    ("env", map(vec![("Z_JOB", s("z")), ("A_JOB", s("a"))])),
                    ("container", map(vec![("env", map(vec![("Z_CTR", s("z")), ("A_CTR", s("a"))]))])),
                    (
                        "steps",
                        seq(vec![map(vec![
                            ("name", s("Step 1")),
                            ("env", map(vec![("Z_STEP", s("z")), ("A_STEP", s("a"))])),
                        ])]),
                    ),
                ]),
            )]),
        ),
    ]);
    let expected = map(vec![
        ("env", map(vec![("A_TOP", s("a")), ("Z_TOP", s("z"))])),
        (
            "jobs",
            map(vec![(
                "build",
                map(vec![
                    ("env", map(vec![("A_JOB", s("a")), ("Z_JOB", s("z"))])),
                    ("container", map(vec![("env", map(vec![("A_CTR", s("a")), ("Z_CTR", s("z"))]))])),
                    (
                        "steps",
                        seq(vec![map(vec![
                            ("name", s("Step 1")),
                            ("env", map(vec![("A_STEP", s("a")), ("Z_STEP", s("z"))])),
                        ])]),
                    ),
                ]),
            )]),
        ),
    ]);
    check(EnvSorter.process(doc), expected);
}

#[test]
fn test_env_sorter_multiple_jobs_and_steps() {
    let doc = map(vec![(
        "jobs",
        map(vec![
            (
                "build",
                map(vec![(
                    "steps",
                    seq(vec![
                        map(vec![("name", s("S1")), ("env", map(vec![("Z", s("z")), ("A", s("a"))]))]),
                        map(vec![("name", s("S2")), ("env", map(vec![("Y", s("y")), ("B", s("b"))]))]),
                    ]),
                )]),
            ),
            ("deploy", map(vec![("env", map(vec![("STAGE", s("prod")), ("ENV", s("deploy"))]))])),
        ]),
    )]);
    let expected = map(vec![(
        "jobs",
        map(vec![
            (
                "build",
                map(vec![(
                    "steps",
                    seq(vec![
                        map(vec![("name", s("S1")), ("env", map(vec![("A", s("a")), ("Z", s("z"))]))]),
                        map(vec![("name", s("S2")), ("env", map(vec![("B", s("b")), ("Y", s("y"))]))]),
                    ]),
                )]),
            ),
            ("deploy", map(vec![("env", map(vec![("ENV", s("deploy")), ("STAGE", s("prod"))]))])),
        ]),
    )]);
    check(EnvSorter.process(doc), expected);
}

#[test]
fn test_env_sorter_names() {
    assert_eq!(EnvSorter.name(), "env-sorter");
    assert_eq!(EnvSorter.description(), "Sort entries in every 'env' mapping");
}

// needs-sorter

fn needs_doc(jobs: Vec<(&str, Node)>) -> Node {
    map(vec![("jobs", map(jobs))])
}

#[test]
fn test_needs_sorter_no_needs() {
    let doc = needs_doc(vec![("build", map(vec![("runs-on", s("ubuntu-latest"))]))]);
    let expected = needs_doc(vec![("build", map(vec![("runs-on", s("ubuntu-latest"))]))]);
    check(NeedsSorter.process(doc), expected);
}

#[test]
fn test_needs_sorter_scalar_needs_unchanged() {
    let doc = needs_doc(vec![("deploy", map(vec![("needs", s("build"))]))]);
    let expected = needs_doc(vec![("deploy", map(vec![("needs", s("build"))]))]);
    check(NeedsSorter.process(doc), expected);
}

#[test]
fn test_needs_sorter_flow_sequence_sorted() {
    let doc = needs_doc(vec![("deploy", map(vec![("needs", flow_scalars(&["test", "lint", "build"]))]))]);
    let expected =
        needs_doc(vec![("deploy", map(vec![("needs", flow_scalars(&["build", "lint", "test"]))]))]);
    check(NeedsSorter.process(doc), expected);
}

#[test]
fn test_needs_sorter_already_sorted() {
    let doc = needs_doc(vec![("deploy", map(vec![("needs", flow_scalars(&["a", "b", "c"]))]))]);
    let expected = needs_doc(vec![("deploy", map(vec![("needs", flow_scalars(&["a", "b", "c"]))]))]);
    check(NeedsSorter.process(doc), expected);
}

#[test]
fn test_needs_sorter_multiple_jobs() {
    let doc = needs_doc(vec![
        ("build", map(vec![("runs-on", s("ubuntu-latest"))])),
        ("test", map(vec![("needs", flow_scalars(&["build"]))])),
        ("deploy", map(vec![("needs", flow_scalars(&["test", "lint", "build"]))])),
    ]);
    let expected = needs_doc(vec![
        ("build", map(vec![("runs-on", s("ubuntu-latest"))])),
        ("test", map(vec![("needs", flow_scalars(&["build"]))])),
        ("deploy", map(vec![("needs", flow_scalars(&["build", "lint", "test"]))])),
    ]);
    check(NeedsSorter.process(doc), expected);
}

#[test]
fn test_needs_sorter_block_sequence_sorted() {
    let doc = needs_doc(vec![("deploy", map(vec![("needs", scalars(&["test", "build", "lint"]))]))]);
    let expected =
        needs_doc(vec![("deploy", map(vec![("needs", scalars(&["build", "lint", "test"]))]))]);
    check(NeedsSorter.process(doc), expected);
}

#[test]
fn test_needs_sorter_sequence_with_mapping_item_unchanged() {
    let items = || seq(vec![s("test"), map(vec![("x", s("y"))]), s("build")]);
    let doc = needs_doc(vec![("deploy", map(vec![("needs", items())]))]);
    let expected = needs_doc(vec![("deploy", map(vec![("needs", items())]))]);
    check(NeedsSorter.process(doc), expected);
}

#[test]
fn test_needs_sorter_names() {
    assert_eq!(NeedsSorter.name(), "needs-sorter");
    assert_eq!(NeedsSorter.description(), "Sort 'needs' entries into alphabetical order");
}

// on-sorter

#[test]
fn test_on_sorter_no_on_key() {
    let doc = map(vec![("jobs", map(vec![("build", map(vec![("runs-on", s("ubuntu-latest"))]))]))]);
    let expected =
        map(vec![("jobs", map(vec![("build", map(vec![("runs-on", s("ubuntu-latest"))]))]))]);
    check(OnSorter.process(doc), expected);
}

#[test]
fn test_on_sorter_scalar_on() {
    check(OnSorter.process(map(vec![("on", s("push"))])), map(vec![("on", s("push"))]));
}

#[test]
fn test_on_sorter_sequence_sorted() {
    let doc = map(vec![("on", scalars(&["workflow_dispatch", "push", "pull_request"]))]);
    let expected = map(vec![("on", scalars(&["pull_request", "push", "workflow_dispatch"]))]);
    check(OnSorter.process(doc), expected);
}

#[test]
fn test_on_sorter_sequence_already_sorted() {
    let doc = map(vec![("on", scalars(&["pull_request", "push", "workflow_dispatch"]))]);
    let expected = map(vec![("on", scalars(&["pull_request", "push", "workflow_dispatch"]))]);
    check(OnSorter.process(doc), expected);
}

#[test]
fn test_on_sorter_mapping_triggers_sorted() {
    let dispatch = || {
        map(vec![(
            "inputs",
            map(vec![(
                "debug",
                map(vec![("description", s("Enable debug logging")), ("type", s("boolean"))]),
            )]),
        )])
    };
    let doc = map(vec![(
        "on",
        map(vec![
            ("workflow_dispatch", dispatch()),
            ("push", map(vec![("branches", scalars(&["main"]))])),
            ("pull_request", map(vec![("branches", scalars(&["main"]))])),
        ]),
    )]);
    let expected = map(vec![(
        "on",
        map(vec![
            ("pull_request", map(vec![("branches", scalars(&["main"]))])),
            ("push", map(vec![("branches", scalars(&["main"]))])),
            ("workflow_dispatch", dispatch()),
        ]),
    )]);
    check(OnSorter.process(doc), expected);
}

#[test]
fn test_on_sorter_mapping_trigger_subkeys_sorted() {
    let doc = map(vec![(
        "on",
        map(vec![(
            "push",
            map(vec![
                ("tags", quoted_scalars(&["v*"])),
                ("paths", quoted_scalars(&["src/**"])),
                ("branches", scalars(&["main"])),
            ]),
        )]),
    )]);
    let expected = map(vec![(
        "on",
        map(vec![(
            "push",
            map(vec![
                ("branches", scalars(&["main"])),
                ("paths", quoted_scalars(&["src/**"])),
                ("tags", quoted_scalars(&["v*"])),
            ]),
        )]),
    )]);
    check(OnSorter.process(doc), expected);
}

#[test]
fn test_on_sorter_mapping_both_levels_sorted() {
    let doc = map(vec![(
        "on",
        map(vec![
            ("push", map(vec![("tags", quoted_scalars(&["v*"])), ("branches", scalars(&["main"]))])),
            (
                "pull_request",
                map(vec![("paths", quoted_scalars(&["src/**"])), ("branches", scalars(&["main"]))]),
            ),
        ]),
    )]);
    let expected = map(vec![(
        "on",
        map(vec![
            (
                "pull_request",
                map(vec![("branches", scalars(&["main"])), ("paths", quoted_scalars(&["src/**"]))]),
            ),
            ("push", map(vec![("branches", scalars(&["main"])), ("tags", quoted_scalars(&["v*"]))])),
        ]),
    )]);
    check(OnSorter.process(doc), expected);
}

#[test]
fn test_on_sorter_mapping_already_sorted() {
    let on = || {
        map(vec![(
            "on",
            map(vec![
                ("pull_request", map(vec![("branches", scalars(&["main"]))])),
                ("push", map(vec![("branches", scalars(&["main"])), ("tags", quoted_scalars(&["v*"]))])),
            ]),
        )])
    };
    check(OnSorter.process(on()), on());
}

#[test]
fn test_on_sorter_names() {
    assert_eq!(OnSorter.name(), "on-sorter");
    assert_eq!(OnSorter.description(), "Sort all 'on' entries, appropriate to their underlying type");
}

// permissions-sorter

#[test]
fn test_permissions_sorter_no_permissions() {
    let doc = map(vec![("jobs", map(vec![("build", map(vec![("runs-on", s("ubuntu-latest"))]))]))]);
    let expected =
        map(vec![("jobs", map(vec![("build", map(vec![("runs-on", s("ubuntu-latest"))]))]))]);
    check(PermissionsSorter.process(doc), expected);
}

#[test]
fn test_permissions_sorter_top_level_permissions_sorted() {
    let doc = map(vec![(
        "permissions",
        map(vec![
            ("statuses", s("write")),
            ("contents", s("read")),
            ("id-token", s("write")),
            ("actions", s("read")),
        ]),
    )]);
    let expected = map(vec![(
        "permissions",
        map(vec![
            ("actions", s("read")),
            ("contents", s("read")),
            ("id-token", s("write")),
            ("statuses", s("write")),
        ]),
    )]);
    check(PermissionsSorter.process(doc), expected);
}

#[test]
fn test_permissions_sorter_job_level_permissions_sorted() {
    let doc = map(vec![(
        "jobs",
        map(vec![(
            "deploy",
            map(vec![("permissions", map(vec![("id-token", s("write")), ("contents", s("read"))]))]),
        )]),
    )]);
    let expected = map(vec![(
        "jobs",
        map(vec![(
            "deploy",
            map(vec![("permissions", map(vec![("contents", s("read")), ("id-token", s("write"))]))]),
        )]),
    )]);
    check(PermissionsSorter.process(doc), expected);
}

#[test]
fn test_permissions_sorter_both_levels_sorted() {
    let doc = map(vec![
        ("permissions", map(vec![("pull-requests", s("write")), ("contents", s("read"))])),
        (
            "jobs",
            map(vec![(
                "deploy",
                map(vec![(
                    "permissions",
                    map(vec![("id-token", s("write")), ("contents", s("read"))]),
                )]),
            )]),
        ),
    ]);
    let expected = map(vec![
        ("permissions", map(vec![("contents", s("read")), ("pull-requests", s("write"))])),
        (
            "jobs",
            map(vec![(
                "deploy",
                map(vec![(
                    "permissions",
                    map(vec![("contents", s("read")), ("id-token", s("write"))]),
                )]),
            )]),
        ),
    ]);
    check(PermissionsSorter.process(doc), expected);
}

#[test]
fn test_permissions_sorter_already_sorted() {
    let doc = || map(vec![("permissions", map(vec![("actions", s("read")), ("contents", s("read"))]))]);
    check(PermissionsSorter.process(doc()), doc());
}

#[test]
fn test_permissions_sorter_scalar_permissions_unchanged() {
    let doc = || map(vec![("permissions", s("read-all"))]);
    check(PermissionsSorter.process(doc()), doc());
}

#[test]
fn test_permissions_sorter_names() {
    assert_eq!(PermissionsSorter.name(), "permissions-sorter");
    assert_eq!(PermissionsSorter.description(), "Sort 'permissions' at top-level and job-level");
}

// with-sorter

fn with_doc(step: Node) -> Node {
    map(vec![("jobs", map(vec![("build", map(vec![("steps", seq(vec![step]))]))]))])
}

#[test]
fn test_with_sorter_no_with() {
    let doc = with_doc(map(vec![("run", s("echo hi"))]));
    let expected = with_doc(map(vec![("run", s("echo hi"))]));
    check(WithSorter.process(doc), expected);
}

#[test]
fn test_with_sorter_entrypoint_args_and_extras_sorted() {
    let doc = with_doc(map(vec![
        ("uses", s("docker://alpine:3")),
        (
            "with",
            map(vec![
                ("args", s("--verbose")),
                ("config", s("/etc/app.conf")),
                ("entrypoint", s("/bin/sh")),
                ("debug", s("true")),
            ]),
        ),
    ]));
    let expected = with_doc(map(vec![
        ("uses", s("docker://alpine:3")),
        (
            "with",
            map(vec![
                ("entrypoint", s("/bin/sh")),
                ("args", s("--verbose")),
                ("config", s("/etc/app.conf")),
                ("debug", s("true")),
            ]),
        ),
    ]));
    check(WithSorter.process(doc), expected);
}

#[test]
fn test_with_sorter_entrypoint_with_extras() {
    let doc = with_doc(map(vec![
        ("uses", s("docker://python:3")),
        (
            "with",
            map(vec![
                ("verbose", s("true")),
                ("entrypoint", s("/usr/local/bin/python")),
                ("script", s("main.py")),
            ]),
        ),
    ]));
    let expected = with_doc(map(vec![
        ("uses", s("docker://python:3")),
        (
            "with",
            map(vec![
                ("entrypoint", s("/usr/local/bin/python")),
                ("script", s("main.py")),
                ("verbose", s("true")),
            ]),
        ),
    ]));
    check(WithSorter.process(doc), expected);
}

#[test]
fn test_with_sorter_args_with_extras() {
    let doc = with_doc(map(vec![
        ("uses", s("docker://ruby:3")),
        ("with", map(vec![("timeout", quoted("30")), ("args", s("--strict")), ("retries", quoted("3"))])),
    ]));
    let expected = with_doc(map(vec![
        ("uses", s("docker://ruby:3")),
        ("with", map(vec![("args", s("--strict")), ("retries", quoted("3")), ("timeout", quoted("30"))])),
    ]));
    check(WithSorter.process(doc), expected);
}

#[test]
fn test_with_sorter_extras_only_alphabetical() {
    let doc = with_doc(map(vec![
        ("uses", s("actions/checkout@v4")),
        ("with", map(vec![("fetch-depth", s("0")), ("clean", s("true"))])),
    ]));
    let expected = with_doc(map(vec![
        ("uses", s("actions/checkout@v4")),
        ("with", map(vec![("clean", s("true")), ("fetch-depth", s("0"))])),
    ]));
    check(WithSorter.process(doc), expected);
}

#[test]
fn test_with_sorter_already_sorted() {
    let doc = || {
        with_doc(map(vec![
            ("uses", s("docker://alpine:3")),
            (
                "with",
                map(vec![
                    ("entrypoint", s("/bin/sh")),
                    ("args", s("--verbose")),
                    ("config", s("/etc/app.conf")),
                ]),
            ),
        ]))
    };
    check(WithSorter.process(doc()), doc());
}

#[test]
fn test_with_sorter_names() {
    assert_eq!(WithSorter.name(), "with-sorter");
    assert_eq!(WithSorter.description(), "Sort 'with' entries in a step in an idiomatic way");
}

// workflow-run-sorter

#[test]
fn test_workflow_run_sorter_no_workflow_run() {
    check(WorkflowRunSorter.process(map(vec![("on", s("push"))])), map(vec![("on", s("push"))]));
}

#[test]
fn test_workflow_run_sorter_mapping_keys_sorted() {
    let doc = map(vec![(
        "on",
        map(vec![(
            "workflow_run",
            map(vec![
                ("workflows", scalars(&["Deploy"])),
                ("types", scalars(&["completed"])),
                ("branches", scalars(&["main"])),
            ]),
        )]),
    )]);
    let expected = map(vec![(
        "on",
        map(vec![(
            "workflow_run",
            map(vec![
                ("branches", scalars(&["main"])),
                ("types", scalars(&["completed"])),
                ("workflows", scalars(&["Deploy"])),
            ]),
        )]),
    )]);
    check(WorkflowRunSorter.process(doc), expected);
}

#[test]
fn test_workflow_run_sorter_sequence_values_sorted() {
    let doc = map(vec![(
        "on",
        map(vec![("workflow_run", map(vec![("workflows", scalars(&["Deploy", "Build", "Test"]))]))]),
    )]);
    let expected = map(vec![(
        "on",
        map(vec![("workflow_run", map(vec![("workflows", scalars(&["Build", "Deploy", "Test"]))]))]),
    )]);
    check(WorkflowRunSorter.process(doc), expected);
}

#[test]
fn test_workflow_run_sorter_both_sorted() {
    let doc = map(vec![(
        "on",
        map(vec![(
            "workflow_run",
            map(vec![
                ("workflows", scalars(&["Deploy", "Build", "Test"])),
                ("types", scalars(&["completed", "requested"])),
                ("branches", scalars(&["main", "develop"])),
            ]),
        )]),
    )]);
    let expected = map(vec![(
        "on",
        map(vec![(
            "workflow_run",
            map(vec![
                ("branches", scalars(&["develop", "main"])),
                ("types", scalars(&["completed", "requested"])),
                ("workflows", scalars(&["Build", "Deploy", "Test"])),
            ]),
        )]),
    )]);
    check(WorkflowRunSorter.process(doc), expected);
}

#[test]
fn test_workflow_run_sorter_already_sorted() {
    let doc = || {
        map(vec![(
            "on",
            map(vec![(
                "workflow_run",
                map(vec![("branches", scalars(&["develop"])), ("workflows", scalars(&["Build"]))]),
            )]),
        )])
    };
    check(WorkflowRunSorter.process(doc()), doc());
}

#[test]
fn test_workflow_run_sorter_names() {
    assert_eq!(WorkflowRunSorter.name(), "workflow-run-sorter");
    assert_eq!(
        WorkflowRunSorter.description(),
        "Sort 'workflow_run' keys and their children alphabetically"
    );
}

#[test]
fn test_env_sorter_service_env_sorted() {
    let doc = map(vec![(
        "jobs",
        map(vec![(
            "build",
            map(vec![(
                "services",
                map(vec![
                    ("db", map(vec![("env", map(vec![("Z", s("z")), ("A", s("a"))]))])),
                    ("cache", map(vec![("image", s("redis"))])),
                ]),
            )]),
        )]),
    )]);
    let expected = map(vec![(
        "jobs",
        map(vec![(
            "build",
            map(vec![(
                "services",
                map(vec![
                    ("db", map(vec![("env", map(vec![("A", s("a")), ("Z", s("z"))]))])),
                    ("cache", map(vec![("image", s("redis"))])),
                ]),
            )]),
        )]),
    )]);
    check(EnvSorter.process(doc), expected);
}
