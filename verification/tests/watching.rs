use don::coverage::{
    desired_watches, is_covered, note_registered, one_by_one, reconcile_watches, RecursiveMode,
    WatchAction,
};
use don::globs::{build_watch_ignore_overrides, fault_of, matches_glob, matches_ignore, WatchIgnore};
use don::names::NameMap;
use don::paths::{glob_base_dir, resolve_pattern, Components};
use don::walk::{DirEntry, DirWalk, EntryKind, FileWalk};
use don::watch::{
    build_graph_command_name, initial_watch_strategy_label, preferred_watcher_label,
    update_requests, watch_item_kind_label, watch_state_label, watcher_label, Backend, CycleEvent,
    EventKind, RunnerCommand, WatchItemKind, WatchManager, WatchState, WatchUpdate, WatchedItem,
    WORKSPACE_GRAPH_ITEM_NAME,
};
use don::watch_setup::{
    plan_watches, Debounce, Preset, ServiceWatch, TaskWatch, WatchConfig, WatchError,
};

fn strings(list: &[&str]) -> Vec<String> {
    list.iter().map(|text| text.to_string()).collect()
}

fn no_ignores() -> WatchIgnore {
    build_watch_ignore_overrides("/", &Vec::new(), &mut Vec::new())
}

fn manager_with(name: &str, item: WatchedItem) -> WatchManager {
    let mut items = NameMap::new();
    items.insert(name.to_string(), item);
    WatchManager {
        items,
        registered_dirs: NameMap::new(),
        notify_error_count: 0,
        runner_event_lag_count: 0,
        last_notify_error: None,
        global_ignore: Vec::new(),
        overrides: no_ignores(),
    }
}

fn item(state: WatchState, debounce: u64, kind: WatchItemKind, pattern: &str) -> WatchedItem {
    WatchedItem {
        state,
        debounce_duration: debounce,
        debounce_deadline: None,
        stale: false,
        kind,
        patterns: vec![pattern.to_string()],
        ignore_patterns: vec![],
        last_error: None,
    }
}

fn state_of(manager: &WatchManager, name: &str) -> WatchState {
    manager.items.get(name).unwrap().state
}

fn is_stale(manager: &WatchManager, name: &str) -> bool {
    manager.items.get(name).unwrap().stale
}

fn change(manager: &mut WatchManager, path: &str, now: u64) -> Vec<RunnerCommand> {
    let paths = manager.relevant_paths(EventKind::Modify, &strings(&[path]));
    manager.process_changed_paths(&paths, now)
}

fn rebuilt(name: &str) -> CycleEvent {
    CycleEvent::RebuildComplete { name: name.to_string(), success: true }
}

fn table(entries: &[(&str, RecursiveMode)]) -> NameMap<RecursiveMode> {
    let mut map = NameMap::new();
    for (path, mode) in entries {
        map.insert(path.to_string(), *mode);
    }
    map
}

fn service(name: &str) -> ServiceWatch {
    ServiceWatch {
        name: name.to_string(),
        reload: true,
        watch: Vec::new(),
        ignore: Vec::new(),
        dir: "/ws".to_string(),
        debounce: Debounce::Default,
        preset: Preset::Other,
        bazel_watch: false,
        turbo_watch: false,
    }
}

fn task(name: &str) -> TaskWatch {
    TaskWatch {
        name: name.to_string(),
        watch: Vec::new(),
        ignore: Vec::new(),
        dir: "/ws".to_string(),
        bazel_watch: false,
        turbo_watch: false,
    }
}

/// The directories of a tree, given by the directories in it.
fn walk(root: &str, dirs: &[&str], ignore: &WatchIgnore) -> Vec<String> {
    let mut walk = DirWalk::start(root);
    while let Some(dir) = walk.next() {
        walk.take_in(&listing(&dir, dirs, &[]), ignore);
    }
    walk.found
}

fn listing(dir: &str, dirs: &[&str], files: &[&str]) -> Vec<DirEntry> {
    let inside = |path: &&&str| path.strip_prefix(dir).is_some_and(|rest| {
        rest.starts_with('/') && !rest[1..].contains('/')
    });
    let mut out: Vec<DirEntry> = dirs
        .iter()
        .filter(inside)
        .map(|path| DirEntry { path: path.to_string(), kind: EntryKind::Directory })
        .collect();
    out.extend(files.iter().filter(inside).map(|path| DirEntry {
        path: path.to_string(),
        kind: EntryKind::File,
    }));
    out
}

#[test]
fn test_glob_base_dir() {
    struct Case {
        pattern: &'static str,
        expected: &'static str,
    }

    let cases = vec![
        Case { pattern: "src/**/*.rs", expected: "src" },
        Case { pattern: "*.txt", expected: "." },
        Case { pattern: "a/b/c/*.log", expected: "a/b/c" },
        Case { pattern: "a/b/*/d.txt", expected: "a/b" },
        Case { pattern: "exact/path/file.txt", expected: "exact/path" },
        Case { pattern: "src/[abc]/*.rs", expected: "src" },
        Case { pattern: "Makefile", expected: "." },
    ];

    for case in cases {
        let result = glob_base_dir(case.pattern);
        assert_eq!(
            result,
            case.expected,
            "glob_base_dir({:?}) = {:?}, expected {:?}",
            case.pattern,
            result,
            case.expected
        );
    }
}

#[test]
fn test_is_covered() {
    struct Case {
        name: &'static str,
        path: &'static str,
        mode: RecursiveMode,
        existing: Vec<(&'static str, RecursiveMode)>,
        expected: bool,
    }

    let cases = vec![
        Case {
            name: "recursive ancestor covers recursive",
            path: "/a/b/c",
            mode: RecursiveMode::Recursive,
            existing: vec![("/a", RecursiveMode::Recursive)],
            expected: true,
        },
        Case {
            name: "recursive ancestor covers non-recursive",
            path: "/a/b/c",
            mode: RecursiveMode::NonRecursive,
            existing: vec![("/a", RecursiveMode::Recursive)],
            expected: true,
        },
        Case {
            name: "non-recursive ancestor does NOT cover recursive",
            path: "/a/b",
            mode: RecursiveMode::Recursive,
            existing: vec![("/a", RecursiveMode::NonRecursive)],
            expected: false,
        },
        Case {
            name: "non-recursive ancestor does NOT cover recursive at same path",
            path: "/a",
            mode: RecursiveMode::Recursive,
            existing: vec![("/a", RecursiveMode::NonRecursive)],
            expected: false,
        },
        Case {
            name: "exact same path non-recursive covers non-recursive",
            path: "/a",
            mode: RecursiveMode::NonRecursive,
            existing: vec![("/a", RecursiveMode::NonRecursive)],
            expected: true,
        },
        Case {
            name: "empty existing never covers",
            path: "/a",
            mode: RecursiveMode::Recursive,
            existing: vec![],
            expected: false,
        },
        Case {
            name: "sibling does not cover",
            path: "/a/b",
            mode: RecursiveMode::Recursive,
            existing: vec![("/a/c", RecursiveMode::Recursive)],
            expected: false,
        },
    ];

    for case in cases {
        assert_eq!(
            is_covered(case.path, case.mode, &table(&case.existing)),
            case.expected,
            "case: {}",
            case.name,
        );
    }
}

#[test]
fn test_reconcile_watches() {
    struct Case {
        name: &'static str,
        desired: Vec<(&'static str, RecursiveMode)>,
        registered: Vec<(&'static str, RecursiveMode)>,
        expected: Vec<(&'static str, RecursiveMode, bool)>,
    }

    let deep = RecursiveMode::Recursive;
    let shallow = RecursiveMode::NonRecursive;
    let cases = vec![
        Case {
            name: "fresh recursive root",
            desired: vec![("/a", deep)],
            registered: vec![],
            expected: vec![("/a", deep, false)],
        },
        Case {
            name: "recursive ancestor covers later descendants in batch",
            desired: vec![("/a/b", deep), ("/a", deep)],
            registered: vec![],
            expected: vec![("/a", deep, false)],
        },
        Case {
            name: "recursive ancestor prunes multiple earlier sibling requests",
            desired: vec![
                ("/a/prisma/models", deep),
                ("/a/redo/kafka/topics/src", deep),
                ("/a", deep),
            ],
            registered: vec![],
            expected: vec![("/a", deep, false)],
        },
        Case {
            name: "spine non-recursive plus recursive clean child",
            desired: vec![("/a", shallow), ("/a/clean", deep)],
            registered: vec![],
            expected: vec![("/a", shallow, false), ("/a/clean", deep, false)],
        },
        Case {
            name: "already covered by recursive ancestor is skipped",
            desired: vec![("/a/b", deep)],
            registered: vec![("/a", deep)],
            expected: vec![],
        },
        Case {
            name: "upgrade existing non-recursive to recursive replaces it",
            desired: vec![("/a", deep)],
            registered: vec![("/a", shallow)],
            expected: vec![("/a", deep, true)],
        },
        Case {
            name: "exact non-recursive already registered is skipped",
            desired: vec![("/a", shallow)],
            registered: vec![("/a", shallow)],
            expected: vec![],
        },
        Case {
            name: "non-recursive request under recursive ancestor is skipped",
            desired: vec![("/a/b", shallow)],
            registered: vec![("/a", deep)],
            expected: vec![],
        },
    ];

    for case in cases {
        let desired: Vec<(String, RecursiveMode)> =
            case.desired.iter().map(|(p, m)| (p.to_string(), *m)).collect();
        let got = reconcile_watches(&desired, &table(&case.registered));
        let got: Vec<(&str, RecursiveMode, bool)> =
            got.iter().map(|action| (action.dir.as_str(), action.mode, action.replace)).collect();
        assert_eq!(got, case.expected, "case: {}", case.name);
    }
}

#[test]
fn test_desired_watches() {
    let root = "/root";
    let dirs = [
        "/root/clean",
        "/root/clean/sub",
        "/root/pkg",
        "/root/pkg/node_modules",
        "/root/pkg/node_modules/dep",
        "/root/pkg/src",
    ];
    let mut warnings = Vec::new();
    let overrides =
        build_watch_ignore_overrides(root, &strings(&["**/node_modules/**"]), &mut warnings);
    assert!(warnings.is_empty(), "unexpected warnings: {warnings:?}");

    let walked = walk(root, &dirs, &overrides);
    let mut got = desired_watches(root, false, &walked);
    got.sort_by(|a, b| a.0.cmp(&b.0));
    let expected: Vec<(String, RecursiveMode)> =
        ["/root", "/root/clean", "/root/clean/sub", "/root/pkg", "/root/pkg/src"]
            .iter()
            .map(|path| (path.to_string(), RecursiveMode::NonRecursive))
            .collect();

    assert_eq!(got, expected);
    assert!(
        !got.iter().any(|(p, _)| p.contains("node_modules")),
        "node_modules should be pruned: {got:?}"
    );
}

#[test]
fn test_desired_watches_prunes_nested_ignored_dir_created_anywhere() {
    let root = "/root";
    let dirs = [
        "/root/a",
        "/root/a/b",
        "/root/a/b/node_modules",
        "/root/a/b/node_modules/dep",
        "/root/a/b/keep",
    ];
    let mut warnings = Vec::new();
    let overrides =
        build_watch_ignore_overrides(root, &strings(&["**/node_modules/**"]), &mut warnings);

    let mut got = desired_watches(root, false, &walk(root, &dirs, &overrides));
    got.sort_by(|a, b| a.0.cmp(&b.0));
    let expected: Vec<(String, RecursiveMode)> =
        ["/root", "/root/a", "/root/a/b", "/root/a/b/keep"]
            .iter()
            .map(|path| (path.to_string(), RecursiveMode::NonRecursive))
            .collect();
    assert_eq!(got, expected);
}

#[test]
fn test_desired_watches_macos_single_recursive() {
    let root = "/root";
    let got = desired_watches(root, true, &strings(&["/root", "/root/pkg", "/root/pkg/src"]));
    assert_eq!(got, vec![(root.to_string(), RecursiveMode::Recursive)]);
}

#[test]
fn test_initial_watch_batch_prunes_recursive_descendants() {
    let mut registered: NameMap<RecursiveMode> = NameMap::new();
    let desired = vec![
        ("/root/prisma/models".to_string(), RecursiveMode::Recursive),
        ("/root/redo/kafka/topics/src".to_string(), RecursiveMode::Recursive),
        ("/root".to_string(), RecursiveMode::Recursive),
    ];
    let actions = reconcile_watches(&desired, &registered);
    note_registered(&mut registered, &actions, actions.len());

    assert_eq!(registered.len(), 1);
    assert_eq!(registered.get("/root"), Some(&RecursiveMode::Recursive));
}

#[test]
fn test_build_watch_ignore_overrides_reports_invalid_glob() {
    let mut warnings = Vec::new();
    let _ = build_watch_ignore_overrides("/ws", &strings(&["good/**", "bad["]), &mut warnings);
    assert_eq!(warnings.len(), 1, "warnings: {warnings:?}");
    assert!(warnings[0].contains("bad["), "warnings: {warnings:?}");
}

#[test]
fn white_space_at_the_end_of_an_ignore_pattern_does_not_count() {
    let mut warnings = Vec::new();
    let ignore = build_watch_ignore_overrides("/ws", &strings(&["target \t", "#kept"]), &mut warnings);
    assert!(warnings.is_empty(), "warnings: {warnings:?}");
    assert!(ignore.is_ignored("/ws/target", true));
    assert!(ignore.is_ignored("/ws/#kept", true));
    assert!(!ignore.is_ignored("/ws/src", true));
}

#[test]
fn ignore_patterns_are_read_from_a_root_without_its_leading_dot() {
    let mut warnings = Vec::new();
    let ignore = build_watch_ignore_overrides("./ws", &strings(&["/target"]), &mut warnings);
    assert!(ignore.is_ignored("ws/target", true));
    assert!(!ignore.is_ignored("ws/src/target", true));
}

#[test]
fn test_build_tool_watch_opt_outs_skip_workspace_graph_watch() {
    struct Case {
        name: &'static str,
        reload: bool,
        bazel_watch: bool,
        expect_watches: bool,
    }

    let cases = vec![
        Case {
            name: "bazel watch false",
            reload: true,
            bazel_watch: false,
            expect_watches: false,
        },
        Case {
            name: "bazel reload false",
            reload: false,
            bazel_watch: true,
            expect_watches: false,
        },
        Case {
            name: "bazel default watches workspace graph",
            reload: true,
            bazel_watch: true,
            expect_watches: true,
        },
    ];

    for case in cases {
        let config = WatchConfig {
            watch_ignore: Vec::new(),
            services: vec![ServiceWatch {
                reload: case.reload,
                bazel_watch: case.bazel_watch,
                ..service("api")
            }],
            tasks: Vec::new(),
        };
        let plan = plan_watches("/ws", &config).unwrap();
        assert!(plan.warnings.is_empty(), "case: {}", case.name);
        assert_eq!(plan.watches_workspace, case.expect_watches, "case: {}", case.name);
        assert_eq!(
            plan.manager.has_watches(),
            case.expect_watches,
            "case: {}",
            case.name,
        );
    }
}

#[test]
fn test_glob_pattern_matches_files_in_watched_dirs() {
    struct Case {
        name: &'static str,
        pattern: &'static str,
        path: &'static str,
        expected: bool,
    }

    let cases = vec![
        Case {
            name: "** matches nested file",
            pattern: "/app/src/**/*.rs",
            path: "/app/src/foo/bar.rs",
            expected: true,
        },
        Case {
            name: "** matches deeply nested",
            pattern: "/app/src/**/*.rs",
            path: "/app/src/a/b/c.rs",
            expected: true,
        },
        Case {
            name: "** matches file directly in src",
            pattern: "/app/src/**/*.rs",
            path: "/app/src/main.rs",
            expected: true,
        },
        Case {
            name: "literal file matches",
            pattern: "/app/Cargo.toml",
            path: "/app/Cargo.toml",
            expected: true,
        },
        Case {
            name: "literal file does not match other",
            pattern: "/app/Cargo.toml",
            path: "/app/Cargo.lock",
            expected: false,
        },
        Case {
            name: "single star matches one path component",
            pattern: "/app/src/*.rs",
            path: "/app/src/main.rs",
            expected: true,
        },
        Case {
            name: "single star does not cross path components",
            pattern: "/app/src/*.rs",
            path: "/app/src/nested/main.rs",
            expected: false,
        },
        Case {
            name: "matching is case sensitive",
            pattern: "/app/src/*.rs",
            path: "/app/src/main.RS",
            expected: false,
        },
        Case {
            name: "does not match outside dir",
            pattern: "/app/src/**/*.rs",
            path: "/other/src/main.rs",
            expected: false,
        },
        Case {
            name: "/** matches nested file",
            pattern: "/app/services/api/**",
            path: "/app/services/api/src/main.py",
            expected: true,
        },
        Case {
            name: "/** matches direct child",
            pattern: "/app/services/api/**",
            path: "/app/services/api/main.py",
            expected: true,
        },
        Case {
            name: "/** does not match sibling dir",
            pattern: "/app/services/api/**",
            path: "/app/services/web/main.py",
            expected: false,
        },
    ];

    for case in cases {
        assert_eq!(
            matches_glob(case.pattern, case.path),
            case.expected,
            "case: {} — pattern {:?} vs path {:?}",
            case.name,
            case.pattern,
            case.path,
        );
    }
}

#[test]
fn test_state_machine_debounce_coalesces_events() {
    let mut manager = manager_with(
        "api",
        item(WatchState::Idle, 200, WatchItemKind::Service, "src/**/*.rs"),
    );

    let mut now = 0;
    for _ in 0..10 {
        assert!(change(&mut manager, "src/main.rs", now).is_empty());
        now += 10;
    }

    assert_eq!(state_of(&manager, "api"), WatchState::Debouncing);

    now += 200;
    let commands = manager.fire_debounce_timers(now);
    assert_eq!(state_of(&manager, "api"), WatchState::Rebuilding);

    assert_eq!(commands.len(), 1);
    assert!(matches!(&commands[0], RunnerCommand::Rebuild { name } if name == "api"));

    assert!(manager.handle_runner_event(&rebuilt("api")).is_empty());
    assert_eq!(state_of(&manager, "api"), WatchState::Idle);
}

#[test]
fn test_events_after_debounce_trigger_new_cycle() {
    let mut manager = manager_with(
        "api",
        item(WatchState::Idle, 200, WatchItemKind::Service, "src/**/*.rs"),
    );

    change(&mut manager, "src/lib.rs", 0);
    assert_eq!(manager.fire_debounce_timers(200).len(), 1);

    manager.handle_runner_event(&rebuilt("api"));
    assert_eq!(state_of(&manager, "api"), WatchState::Idle);

    change(&mut manager, "src/lib.rs", 200);
    assert_eq!(state_of(&manager, "api"), WatchState::Debouncing);

    let commands = manager.fire_debounce_timers(400);
    assert!(matches!(&commands[0], RunnerCommand::Rebuild { name } if name == "api"));
}

#[test]
fn test_custom_debounce_duration() {
    let mut manager = manager_with(
        "api",
        item(WatchState::Idle, 500, WatchItemKind::Service, "src/**/*.rs"),
    );

    change(&mut manager, "src/main.rs", 0);

    assert!(manager.fire_debounce_timers(200).is_empty());
    assert_eq!(state_of(&manager, "api"), WatchState::Debouncing);

    assert_eq!(manager.fire_debounce_timers(500).len(), 1);
    assert_eq!(state_of(&manager, "api"), WatchState::Rebuilding);
}

#[test]
fn test_change_during_build_triggers_second_rebuild() {
    let mut manager = manager_with(
        "api",
        item(WatchState::Rebuilding, 200, WatchItemKind::Service, "src/**/*.rs"),
    );

    let commands = change(&mut manager, "src/main.rs", 0);
    assert!(is_stale(&manager, "api"));
    assert_eq!(state_of(&manager, "api"), WatchState::Rebuilding);
    assert!(matches!(&commands[0], RunnerCommand::RebuildStale { name } if name == "api"));

    let commands = manager.handle_runner_event(&rebuilt("api"));
    assert_eq!(state_of(&manager, "api"), WatchState::Rebuilding);
    assert!(!is_stale(&manager, "api"));
    assert!(matches!(&commands[0], RunnerCommand::Rebuild { name } if name == "api"));
}

#[test]
fn test_multiple_events_during_build_one_followup() {
    let mut manager = manager_with(
        "api",
        item(WatchState::Rebuilding, 200, WatchItemKind::Service, "src/**/*.rs"),
    );

    let mut stale_count = 0;
    for _ in 0..5 {
        for command in change(&mut manager, "src/main.rs", 0) {
            if matches!(command, RunnerCommand::RebuildStale { ref name } if name == "api") {
                stale_count += 1;
            }
        }
    }
    assert!(is_stale(&manager, "api"));
    assert_eq!(stale_count, 5);

    let commands = manager.handle_runner_event(&rebuilt("api"));
    assert_eq!(commands.len(), 1);
    assert!(matches!(&commands[0], RunnerCommand::Rebuild { name } if name == "api"));
}

#[test]
fn test_state_machine_full_cycle() {
    let mut manager = manager_with(
        "api",
        item(WatchState::Idle, 200, WatchItemKind::Service, "src/**/*.rs"),
    );

    assert_eq!(state_of(&manager, "api"), WatchState::Idle);
    change(&mut manager, "src/main.rs", 0);
    assert_eq!(state_of(&manager, "api"), WatchState::Debouncing);

    assert_eq!(manager.fire_debounce_timers(200).len(), 1);
    assert_eq!(state_of(&manager, "api"), WatchState::Rebuilding);

    let commands = change(&mut manager, "src/main.rs", 200);
    assert!(is_stale(&manager, "api"));
    assert_eq!(state_of(&manager, "api"), WatchState::Rebuilding);
    assert!(matches!(&commands[0], RunnerCommand::RebuildStale { name } if name == "api"));

    assert_eq!(manager.handle_runner_event(&rebuilt("api")).len(), 1);
    assert_eq!(state_of(&manager, "api"), WatchState::Rebuilding);
    assert!(!is_stale(&manager, "api"));

    assert!(manager.handle_runner_event(&rebuilt("api")).is_empty());
    assert_eq!(state_of(&manager, "api"), WatchState::Idle);
}

#[test]
fn test_build_graph_kind_sends_build_graph_changed() {
    let mut manager = manager_with(
        "api__graph",
        item(WatchState::Idle, 200, WatchItemKind::BuildGraph, "**/BUILD.bazel"),
    );

    change(&mut manager, "services/api/BUILD.bazel", 0);
    assert_eq!(state_of(&manager, "api__graph"), WatchState::Debouncing);

    let commands = manager.fire_debounce_timers(200);

    assert_eq!(state_of(&manager, "api__graph"), WatchState::Idle);
    assert!(
        matches!(&commands[0], RunnerCommand::BuildGraphChanged { name } if name == "api"),
        "expected BuildGraphChanged for 'api', got different command"
    );
}

#[test]
fn test_build_graph_kind_no_rebuild_cycle() {
    let mut manager = manager_with(
        "web__graph",
        item(WatchState::Idle, 200, WatchItemKind::BuildGraph, "**/package.json"),
    );

    change(&mut manager, "apps/web/package.json", 0);
    manager.fire_debounce_timers(200);

    assert_eq!(state_of(&manager, "web__graph"), WatchState::Idle);
    assert!(!is_stale(&manager, "web__graph"));
}

#[test]
fn test_workspace_build_graph_kind_preserves_workspace_sentinel() {
    let mut manager = manager_with(
        WORKSPACE_GRAPH_ITEM_NAME,
        item(WatchState::Idle, 200, WatchItemKind::BuildGraph, "**/MODULE.bazel"),
    );

    change(&mut manager, "MODULE.bazel", 0);
    let commands = manager.fire_debounce_timers(200);

    assert!(
        matches!(
            &commands[0],
            RunnerCommand::BuildGraphChanged { name } if name == WORKSPACE_GRAPH_ITEM_NAME
        ),
        "expected BuildGraphChanged for workspace sentinel, got different command"
    );
}

#[test]
fn test_watch_refresh_during_stale_rebuild_keeps_follow_up_cycle() {
    let config = WatchConfig {
        watch_ignore: Vec::new(),
        services: vec![ServiceWatch { watch: strings(&["src/**/*.rs"]), ..service("api") }],
        tasks: Vec::new(),
    };
    let mut manager = plan_watches("/ws", &config).unwrap().manager;
    let watch_update = WatchUpdate {
        name: "api".to_string(),
        kind: WatchItemKind::Service,
        patterns: strings(&["src/**"]),
        ignore_patterns: Vec::new(),
        base_dir: "/ws".to_string(),
    };

    change(&mut manager, "/ws/src/main.rs", 0);
    let debounce_deadline = manager.items.get("api").unwrap().debounce_deadline;
    manager.apply_watch_update(&watch_update);
    assert_eq!(state_of(&manager, "api"), WatchState::Debouncing);
    assert_eq!(manager.items.get("api").unwrap().debounce_deadline, debounce_deadline);
    let commands = manager.fire_debounce_timers(200);
    assert!(matches!(&commands[0], RunnerCommand::Rebuild { name } if name == "api"));

    let commands = change(&mut manager, "/ws/src/schema.txt", 200);
    assert!(matches!(&commands[0], RunnerCommand::RebuildStale { name } if name == "api"));

    manager.apply_watch_update(&watch_update);
    assert_eq!(state_of(&manager, "api"), WatchState::Rebuilding);
    assert!(is_stale(&manager, "api"));

    let commands = manager.handle_runner_event(&rebuilt("api"));
    assert_eq!(commands.len(), 1);
    assert!(matches!(&commands[0], RunnerCommand::Rebuild { name } if name == "api"));
    assert_eq!(state_of(&manager, "api"), WatchState::Rebuilding);
    assert!(!is_stale(&manager, "api"));

    assert!(manager.handle_runner_event(&rebuilt("api")).is_empty());
    assert_eq!(state_of(&manager, "api"), WatchState::Idle);
}

#[test]
fn a_task_is_run_again_once_it_changed_while_it_ran() {
    let mut manager =
        manager_with("seed", item(WatchState::Rebuilding, 200, WatchItemKind::Task, "db/*.sql"));
    assert!(change(&mut manager, "db/a.sql", 5).is_empty(), "a task is not told it is stale");
    let done = CycleEvent::TaskRerunComplete { name: "seed".to_string(), success: false };
    let commands = manager.handle_runner_event(&done);
    assert!(matches!(&commands[0], RunnerCommand::TaskRerun { name } if name == "seed"));
    assert!(manager.handle_runner_event(&done).is_empty());
    assert!(manager.handle_runner_event(&CycleEvent::Other).is_empty());
    assert!(manager.handle_runner_event(&rebuilt("nobody")).is_empty());
}

#[test]
fn the_soonest_wait_decides_when_to_look_again() {
    let mut manager =
        manager_with("api", item(WatchState::Idle, 300, WatchItemKind::Service, "a/*"));
    manager.items.insert(
        "web".to_string(),
        item(WatchState::Idle, 100, WatchItemKind::Service, "b/*"),
    );
    assert_eq!(manager.nearest_debounce_deadline(), None);
    change(&mut manager, "a/x", 10);
    assert_eq!(manager.nearest_debounce_deadline(), Some(310));
    change(&mut manager, "b/x", 20);
    assert_eq!(manager.nearest_debounce_deadline(), Some(120));
    manager.fire_debounce_timers(120);
    assert_eq!(manager.nearest_debounce_deadline(), Some(310));
}

#[test]
fn what_is_ignored_concerns_nobody() {
    let mut ignored = item(WatchState::Idle, 200, WatchItemKind::Service, "src/**");
    ignored.ignore_patterns = strings(&["src/gen/**"]);
    let mut manager = manager_with("api", ignored);
    manager.global_ignore = strings(&["**/*.tmp"]);
    change(&mut manager, "src/gen/a.rs", 0);
    assert_eq!(state_of(&manager, "api"), WatchState::Idle);
    assert!(manager
        .relevant_paths(EventKind::Modify, &strings(&["src/a.tmp"]))
        .is_empty());
    assert!(manager.relevant_paths(EventKind::Other, &strings(&["src/a.rs"])).is_empty());
    assert_eq!(
        manager.relevant_paths(EventKind::Create, &strings(&["src/a.tmp", "src/a.rs"])),
        strings(&["src/a.rs"])
    );
    assert!(matches_ignore("src/gen/**", "src/gen/a.rs"));
}

#[test]
fn a_new_directory_is_registered_unless_it_is_ignored_or_watched() {
    let mut manager =
        manager_with("api", item(WatchState::Idle, 200, WatchItemKind::Service, "src/**"));
    manager.overrides =
        build_watch_ignore_overrides("/ws", &strings(&["**/node_modules/**"]), &mut Vec::new());
    manager.registered_dirs = table(&[("/ws/seen", RecursiveMode::NonRecursive)]);
    assert!(manager.wants_directory("/ws/new", true));
    assert!(!manager.wants_directory("/ws/new", false), "a file is not registered");
    assert!(!manager.wants_directory("/ws/seen", true));
    assert!(!manager.wants_directory("/ws/seen/", true), "the same directory, written otherwise");
    assert!(!manager.wants_directory("/ws/app/node_modules", true));
}

#[test]
fn a_setup_takes_presets_and_says_what_is_wrong() {
    let config = WatchConfig {
        watch_ignore: strings(&["target/**"]),
        services: vec![
            ServiceWatch { preset: Preset::Rust, ..service("api") },
            ServiceWatch { preset: Preset::Go, dir: "/ws/go".into(), ..service("web") },
            ServiceWatch { preset: Preset::Other, ..service("db") },
            ServiceWatch { watch: strings(&["a/**", "b[", "c.txt"]), ..service("odd") },
        ],
        tasks: vec![TaskWatch {
            watch: strings(&["sql/*.sql"]),
            ignore: strings(&["sql/***"]),
            turbo_watch: true,
            ..task("seed")
        }],
    };
    let plan = plan_watches("/ws", &config).unwrap();
    let items = &plan.manager.items;
    assert_eq!(
        items.get("api").unwrap().patterns,
        strings(&["/ws/src/**/*.rs", "/ws/Cargo.toml", "/ws/Cargo.lock"])
    );
    assert_eq!(
        items.get("web").unwrap().patterns,
        strings(&["/ws/go/**/*.go", "/ws/go/go.mod", "/ws/go/go.sum"])
    );
    assert!(items.get("db").is_none(), "nothing says what to watch");
    assert_eq!(items.get("odd").unwrap().patterns, strings(&["/ws/a/**", "/ws/c.txt"]));
    assert_eq!(
        items.get(WORKSPACE_GRAPH_ITEM_NAME).unwrap().patterns,
        strings(&["/ws/turbo.json", "/ws/turbo.jsonc", "/ws/pnpm-workspace.yaml"])
    );
    assert_eq!(plan.manager.global_ignore, strings(&["/ws/target/**", "/ws/target"]));
    assert_eq!(
        plan.roots,
        strings(&["/ws/src", "/ws", "/ws", "/ws/go", "/ws/go", "/ws/go", "/ws/a", "/ws", "/ws/sql"])
    );
    assert_eq!(plan.warnings.len(), 2);
    assert!(plan.warnings[0].starts_with("odd: invalid watch pattern 'b[': "));
    assert!(plan.warnings[1].starts_with("seed: invalid ignore pattern 'sql/***': "));
}

#[test]
fn a_wait_that_is_no_duration_stops_the_setup() {
    let bad = |reload: bool| WatchConfig {
        watch_ignore: Vec::new(),
        services: vec![ServiceWatch {
            reload,
            watch: strings(&["src/**"]),
            debounce: Debounce::Invalid("'soon' has no unit".into()),
            ..service("api")
        }],
        tasks: Vec::new(),
    };
    let error = plan_watches("/ws", &bad(true)).err().unwrap();
    assert!(matches!(error, WatchError::Duration(_)));
    assert_eq!(error.message(), "invalid debounce duration: 'soon' has no unit");
    assert!(plan_watches("/ws", &bad(false)).is_ok(), "nobody waits for what is not watched");

    let patient = WatchConfig {
        watch_ignore: Vec::new(),
        services: vec![ServiceWatch {
            watch: strings(&["src/**"]),
            debounce: Debounce::After(900),
            ..service("api")
        }],
        tasks: Vec::new(),
    };
    let plan = plan_watches("/ws", &patient).unwrap();
    assert_eq!(plan.manager.items.get("api").unwrap().debounce_duration, 900);
}

#[test]
fn errors_say_what_went_wrong() {
    assert_eq!(WatchError::Notify("full".into()).message(), "notify error: full");
    assert_eq!(
        WatchError::Io("/ws/a".into(), "denied".into()).message(),
        "failed to create watch directory /ws/a: denied"
    );
    let mut manager =
        manager_with("api", item(WatchState::Idle, 200, WatchItemKind::Service, "src/**"));
    assert_eq!(manager.record_notify_error("overflow"), "watch: notify backend error: overflow");
    assert_eq!(
        manager.record_lag(3),
        "watch: broadcast lag — missed 3 runner events; restart don if edits stop triggering rebuilds"
    );
    manager.record_item_error("api", "no room");
    manager.record_item_error("nobody", "no room");
    let snapshot = manager.snapshot();
    assert_eq!(snapshot.notify_error_count, 1);
    assert_eq!(snapshot.last_notify_error.as_deref(), Some("overflow"));
    assert_eq!(snapshot.runner_event_lag_count, 3);
    assert_eq!(snapshot.items.get("api").unwrap().last_error.as_deref(), Some("no room"));
}

#[test]
fn a_snapshot_lists_what_the_workspace_ignores_once() {
    let mut watched = item(WatchState::Idle, 200, WatchItemKind::Task, "src/**");
    watched.ignore_patterns = strings(&["own/**", "/ws/target/**"]);
    let mut manager = manager_with("seed", watched);
    manager.global_ignore = strings(&["/ws/target/**"]);
    manager.registered_dirs = table(&[("/ws", RecursiveMode::NonRecursive)]);
    let snapshot = manager.snapshot();
    let seed = snapshot.items.get("seed").unwrap();
    assert_eq!((seed.kind, seed.state, seed.debounce_ms), ("task", "idle", 200));
    assert_eq!(seed.ignore_patterns, strings(&["own/**"]));
    assert_eq!(snapshot.global_ignore, strings(&["/ws/target/**"]));
    assert_eq!(snapshot.registered_dirs, vec![("/ws".to_string(), "non-recursive")]);
}

#[test]
fn an_update_asks_for_the_directories_it_needs() {
    let mut update = WatchUpdate {
        name: "api__graph".to_string(),
        kind: WatchItemKind::BuildGraph,
        patterns: strings(&["pkg/BUILD", "bad["]),
        ignore_patterns: Vec::new(),
        base_dir: "/ws".to_string(),
    };
    let requests = update_requests(&update);
    assert_eq!(requests.len(), 1);
    assert_eq!((requests[0].dir.as_str(), requests[0].subtree), ("/ws/pkg", false));
    update.kind = WatchItemKind::Service;
    assert!(update_requests(&update)[0].subtree);

    let mut manager =
        manager_with("api", item(WatchState::Idle, 200, WatchItemKind::Service, "src/**"));
    manager.apply_watch_update(&update);
    assert_eq!(manager.items.get("api__graph").unwrap().patterns, strings(&["/ws/pkg/BUILD"]));
}

#[test]
fn files_of_a_new_tree_are_replayed_without_the_ignored_ones() {
    let ignore = build_watch_ignore_overrides(
        "/ws",
        &strings(&["**/node_modules/**", "*.tmp"]),
        &mut Vec::new(),
    );
    let dirs = ["/ws/new/a", "/ws/new/node_modules"];
    let files = ["/ws/new/x.rs", "/ws/new/y.tmp", "/ws/new/a/z.rs", "/ws/new/node_modules/q.js"];
    let mut walk = FileWalk::start(listing("/ws/new", &dirs, &files));
    while let Some(dir) = walk.next(&ignore) {
        walk.take_in(listing(&dir, &dirs, &files));
    }
    assert_eq!(walk.found, strings(&["/ws/new/a/z.rs", "/ws/new/x.rs"]));
}

#[test]
fn a_watch_that_takes_anothers_place_is_done_on_its_own() {
    let action = |replace: bool| WatchAction {
        dir: "/a".to_string(),
        mode: RecursiveMode::Recursive,
        replace,
    };
    assert!(!one_by_one(&vec![action(false), action(false)]));
    assert!(one_by_one(&vec![action(false), action(true)]));

    let mut registered = table(&[("/a", RecursiveMode::NonRecursive)]);
    let desired = vec![
        ("/a".to_string(), RecursiveMode::Recursive),
        ("/b".to_string(), RecursiveMode::NonRecursive),
    ];
    let actions = reconcile_watches(&desired, &registered);
    assert!(one_by_one(&actions));
    note_registered(&mut registered, &actions, 1);
    assert_eq!(registered.get("/a"), Some(&RecursiveMode::Recursive));
    assert_eq!(registered.get("/b"), None, "what was not done is not noted");
    note_registered(&mut registered, &actions, actions.len());
    assert!(reconcile_watches(&desired, &registered).is_empty(), "nothing is done twice");
}

#[test]
fn paths_with_the_same_parts_are_the_same_path() {
    let same = |a: &str, b: &str| Components::of(a).same_as(&Components::of(b));
    assert!(same("/a//b/./c/", "/a/b/c"));
    assert!(!same("./a/b", "a/b"));
    assert!(!same("a/../b", "b"));
    assert_eq!(Components::of("/a//b/./c/").text(), "/a/b/c");
    assert_eq!(Components::of("/").text(), "/");
    assert_eq!(resolve_pattern("/ws", "src/**"), "/ws/src/**");
    assert_eq!(resolve_pattern("/ws/", "src"), "/ws/src");
    assert_eq!(resolve_pattern("/ws", "/abs/*"), "/abs/*");
    assert_eq!(glob_base_dir("/*.rs"), "/");
    assert_eq!(glob_base_dir("/etc"), "/");
}

#[test]
fn labels_name_what_they_stand_for() {
    assert_eq!(watch_state_label(WatchState::Debouncing), "debouncing");
    assert_eq!(watch_item_kind_label(WatchItemKind::BuildGraph), "build_graph");
    assert_eq!(watcher_label(None), "not-initialized");
    assert_eq!(watcher_label(Some(Backend::Poll)), "poll");
    assert_eq!(preferred_watcher_label(false), "native-with-poll-fallback");
    assert_eq!(initial_watch_strategy_label(true), "recursive-root");
    assert_eq!(build_graph_command_name("api__graph"), "api");
    assert_eq!(build_graph_command_name("api"), "api");
    assert!(fault_of("a/**b").is_some());
    assert!(fault_of("a/**/b").is_none());
}

#[test]
fn a_watched_directory_is_known_however_it_is_written() {
    let shallow = RecursiveMode::NonRecursive;
    let deep = RecursiveMode::Recursive;
    let mut registered = table(&[("a//b", shallow)]);
    assert!(is_covered("a/b", shallow, &registered));
    assert!(is_covered("a/./b/", shallow, &registered));
    assert!(!is_covered("a/b", deep, &registered));
    let actions = reconcile_watches(&vec![("a/b".to_string(), deep)], &registered);
    assert_eq!(actions.len(), 1);
    assert!(actions[0].replace);
    note_registered(&mut registered, &actions, 1);
    assert_eq!(registered.len(), 1, "it keeps the writing it is known by");
    assert_eq!(registered.get("a//b"), Some(&deep));
}
