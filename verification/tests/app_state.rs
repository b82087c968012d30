use don::app::{App, AppInit, OverlayItem, TaskStatusItem, ViewMode};
use don::client::{
    ProcessStatus, ServiceRuntime, ServiceState, StateSnapshot, TaskRunInfo, TaskState,
};
use don::counts::StatusCounts;
use don::names::{NameMap, NameSet};

fn services(entries: &[(&str, ServiceState)]) -> NameMap<ServiceState> {
    let mut map = NameMap::new();
    for (name, state) in entries {
        map.insert(name.to_string(), *state);
    }
    map
}

fn tasks(entries: &[(&str, TaskState)]) -> NameMap<TaskState> {
    let mut map = NameMap::new();
    for (name, state) in entries {
        map.insert(name.to_string(), *state);
    }
    map
}

fn names(list: &[&str]) -> Vec<String> {
    list.iter().map(|name| name.to_string()).collect()
}

fn app_with_names(service_names: Vec<String>, task_names: Vec<String>) -> App {
    app_with_names_and_auto_filter(service_names, task_names, NameSet::new())
}

fn app_with_names_and_auto_filter(
    service_names: Vec<String>,
    task_names: Vec<String>,
    auto_filter_on_failure_names: NameSet,
) -> App {
    App::new(AppInit {
        service_names,
        task_names,
        build_tool_names: vec![],
        task_configs: NameMap::new(),
        task_last_runs: NameMap::new(),
        hidden_names: NameSet::new(),
        auto_filter_on_failure_names,
        cli_log_filter: None,
    })
}

fn apply_service(app: &mut App, name: &str, state: ServiceState, pid: Option<i32>) -> bool {
    app.apply_service_runtime(name.to_string(), state, pid, Vec::new())
}

fn apply_task(app: &mut App, name: &str, state: TaskState) -> bool {
    app.apply_task_state(name.to_string(), state, None, Vec::new())
}

fn snapshot_service(name: &str, state: ServiceState, pid: Option<i32>) -> ProcessStatus {
    ProcessStatus::Service {
        runtime: pid.map(|pid| ServiceRuntime { pid: Some(pid) }),
        name: name.to_string(),
        state,
        failed_dependencies: Vec::new(),
    }
}

fn service_order(app: &App) -> Vec<String> {
    app.service_items().into_iter().map(|item| item.name).collect()
}

#[test]
fn resync_from_replaces_drifted_state() {
    struct Case {
        name: &'static str,
        before: Vec<(&'static str, ServiceState, Option<i32>)>,
        snapshot: Vec<ProcessStatus>,
        want_states: Vec<(&'static str, ServiceState)>,
        want_pids: Vec<(&'static str, Option<i32>)>,
        want_counts_ready: usize,
    }

    let cases = vec![
        Case {
            name: "a dropped transition is picked up",
            before: vec![("api", ServiceState::Starting, Some(42))],
            snapshot: vec![snapshot_service("api", ServiceState::Ready, Some(42))],
            want_states: vec![("api", ServiceState::Ready)],
            want_pids: vec![("api", Some(42))],
            want_counts_ready: 1,
        },
        Case {
            name: "a pid we never saw an event for arrives with the snapshot",
            before: vec![("api", ServiceState::Ready, None)],
            snapshot: vec![snapshot_service("api", ServiceState::Ready, Some(42))],
            want_states: vec![("api", ServiceState::Ready)],
            want_pids: vec![("api", Some(42))],
            want_counts_ready: 1,
        },
        Case {
            name: "the snapshot's pid replaces a stale one",
            before: vec![("api", ServiceState::Ready, Some(42))],
            snapshot: vec![snapshot_service("api", ServiceState::Ready, Some(99))],
            want_states: vec![("api", ServiceState::Ready)],
            want_pids: vec![("api", Some(99))],
            want_counts_ready: 1,
        },
        Case {
            name: "no runtime in the snapshot clears the pid",
            before: vec![("api", ServiceState::Ready, Some(42))],
            snapshot: vec![snapshot_service("api", ServiceState::Ready, None)],
            want_states: vec![("api", ServiceState::Ready)],
            want_pids: vec![("api", None)],
            want_counts_ready: 1,
        },
        Case {
            name: "several items resync independently",
            before: vec![
                ("api", ServiceState::Ready, Some(1)),
                ("web", ServiceState::Starting, Some(2)),
            ],
            snapshot: vec![
                snapshot_service("api", ServiceState::Ready, Some(1)),
                snapshot_service("web", ServiceState::Failed, None),
            ],
            want_states: vec![("api", ServiceState::Ready), ("web", ServiceState::Failed)],
            want_pids: vec![("api", Some(1)), ("web", None)],
            want_counts_ready: 1,
        },
    ];

    for case in cases {
        let known: Vec<String> = case.before.iter().map(|(n, ..)| n.to_string()).collect();
        let mut app = app_with_names(known, vec![]);
        for (name, state, pid) in &case.before {
            apply_service(&mut app, name, *state, *pid);
        }

        app.resync_from(&StateSnapshot { processes: case.snapshot, startup_complete: true });

        for (name, want) in case.want_states {
            assert_eq!(
                app.services_state.get(name),
                Some(&want),
                "{}: state of {name}",
                case.name
            );
        }
        for (name, want) in case.want_pids {
            assert_eq!(
                app.service_pids.get(name).copied().flatten(),
                want,
                "{}: pid of {name}",
                case.name
            );
        }
        assert_eq!(
            app.counts.services_ready, case.want_counts_ready,
            "{}: counts recomputed",
            case.name
        );
    }
}

#[test]
fn resync_does_not_fire_the_auto_filter_on_already_failed_items() {
    let mut app = app_with_names_and_auto_filter(
        vec!["api".to_string()],
        vec![],
        NameSet::of(&names(&["api"])),
    );
    let before = app.filter.copy();

    app.resync_from(&StateSnapshot {
        processes: vec![ProcessStatus::Service {
            runtime: None,
            name: "api".to_string(),
            state: ServiceState::Failed,
            failed_dependencies: Vec::new(),
        }],
        startup_complete: true,
    });

    assert_eq!(app.services_state.get("api"), Some(&ServiceState::Failed));
    assert_eq!(
        format!("{:?}", app.filter),
        format!("{before:?}"),
        "resync must not touch the filter"
    );
}

#[test]
fn from_state_counts_ready_failed_and_pending_run() {
    struct Case {
        name: &'static str,
        services: Vec<(&'static str, ServiceState)>,
        tasks: Vec<(&'static str, TaskState)>,
        want: StatusCounts,
    }

    let cases = vec![
        Case {
            name: "empty",
            services: vec![],
            tasks: vec![],
            want: StatusCounts::default(),
        },
        Case {
            name: "all services ready, no tasks",
            services: vec![("api", ServiceState::Ready), ("worker", ServiceState::Ready)],
            tasks: vec![],
            want: StatusCounts {
                services_total: 2,
                services_ready: 2,
                services_failed: 0,
                services_unhealthy: 0,
                services_active: 0,
                tasks_running: 0,
                tasks_pending_run: 0,
                tasks_failed: 0,
            },
        },
        Case {
            name: "mixed states — lazy excluded from total",
            services: vec![
                ("api", ServiceState::Ready),
                ("db", ServiceState::Failed),
                ("queue", ServiceState::Starting),
                ("cache", ServiceState::Lazy),
            ],
            tasks: vec![
                ("migrate", TaskState::PendingRun),
                ("seed", TaskState::Completed),
                ("backup", TaskState::PendingRun),
                ("build", TaskState::Running),
                ("lint", TaskState::Failed),
            ],
            want: StatusCounts {
                services_total: 3,
                services_ready: 1,
                services_failed: 1,
                services_unhealthy: 0,
                services_active: 1,
                tasks_running: 1,
                tasks_pending_run: 2,
                tasks_failed: 1,
            },
        },
        Case {
            name: "running service counts as active",
            services: vec![("svc", ServiceState::Running)],
            tasks: vec![],
            want: StatusCounts {
                services_total: 1,
                services_ready: 0,
                services_failed: 0,
                services_unhealthy: 0,
                services_active: 1,
                tasks_running: 0,
                tasks_pending_run: 0,
                tasks_failed: 0,
            },
        },
    ];

    for case in cases {
        let got = StatusCounts::from_state(&services(&case.services), &tasks(&case.tasks));
        assert_eq!(got, case.want, "case: {}", case.name);
    }
}

#[test]
fn is_working_table() {
    struct Case {
        name: &'static str,
        counts: StatusCounts,
        want: bool,
    }
    let cases = vec![
        Case {
            name: "all idle",
            counts: StatusCounts::default(),
            want: false,
        },
        Case {
            name: "service transitioning",
            counts: StatusCounts { services_active: 1, ..Default::default() },
            want: true,
        },
        Case {
            name: "task running",
            counts: StatusCounts { tasks_running: 1, ..Default::default() },
            want: true,
        },
        Case {
            name: "pending-run tasks don't count — waiting on user",
            counts: StatusCounts { tasks_pending_run: 3, ..Default::default() },
            want: false,
        },
        Case {
            name: "failed service doesn't count",
            counts: StatusCounts {
                services_total: 1,
                services_failed: 1,
                ..Default::default()
            },
            want: false,
        },
    ];
    for case in cases {
        assert_eq!(case.counts.is_working(), case.want, "case: {}", case.name);
    }
}

#[test]
fn apply_state_refreshes_counts() {
    let mut app = app_with_names(names(&["api", "db"]), vec![]);
    assert_eq!(app.counts.services_ready, 0);
    apply_service(&mut app, "api", ServiceState::Ready, None);
    assert_eq!(app.counts.services_ready, 1);
    apply_service(&mut app, "db", ServiceState::Ready, None);
    assert_eq!(app.counts.services_ready, 2);
    apply_service(&mut app, "db", ServiceState::Stopping, None);
    assert_eq!(app.counts.services_ready, 1);
    assert_eq!(app.counts.services_active, 1);
    apply_service(&mut app, "api", ServiceState::Failed, None);
    assert_eq!(app.counts.services_ready, 0);
    assert_eq!(app.counts.services_failed, 1);
}

#[test]
fn failed_service_is_added_to_log_filter_when_configured() {
    let mut app = app_with_names_and_auto_filter(
        names(&["api", "db"]),
        vec![],
        NameSet::of(&names(&["db"])),
    );
    app.filter.enter_edit();
    app.filter.select_only_highlighted();
    app.filter.toggle_highlighted();

    assert!(!app.should_render_log("db", false));
    let changed = apply_service(&mut app, "db", ServiceState::Failed, None);

    assert!(changed);
    assert!(app.should_render_log("db", false));
    assert!(!app.should_render_log("api", false));
}

#[test]
fn dependency_failed_service_does_not_auto_filter() {
    let mut app = app_with_names_and_auto_filter(
        names(&["api"]),
        vec![],
        NameSet::of(&names(&["api"])),
    );
    app.filter.enter_edit();
    app.filter.toggle_highlighted();

    let changed = apply_service(&mut app, "api", ServiceState::DependencyFailed, None);

    assert!(!changed);
    assert!(!app.should_render_log("api", false));
}

#[test]
fn failed_task_is_added_to_log_filter_when_configured() {
    let mut app = app_with_names_and_auto_filter(
        vec![],
        names(&["build", "lint"]),
        NameSet::of(&names(&["lint"])),
    );
    app.filter.enter_edit();
    app.filter.toggle_highlighted();

    let changed = apply_task(&mut app, "lint", TaskState::Failed);

    assert!(changed);
    assert!(app.should_render_log("lint", false));
    assert!(!app.should_render_log("build", false));
}

#[test]
fn service_items_prioritize_service_states_and_exclude_tasks() {
    struct Case {
        name: &'static str,
        services: Vec<(&'static str, ServiceState)>,
        tasks: Vec<(&'static str, TaskState)>,
        want: Vec<&'static str>,
    }

    let cases = vec![Case {
        name: "mixed services and tasks",
        services: vec![
            ("svc-ready", ServiceState::Ready),
            ("svc-building", ServiceState::Building),
            ("svc-running", ServiceState::Running),
            ("svc-stopped", ServiceState::Stopped),
            ("svc-lazy", ServiceState::Lazy),
            ("svc-failed", ServiceState::Failed),
            ("svc-dep", ServiceState::DependencyFailed),
            ("svc-stopping", ServiceState::Stopping),
        ],
        tasks: vec![
            ("task-skipped", TaskState::Skipped),
            ("task-completed", TaskState::Completed),
            ("task-building", TaskState::Building),
            ("task-pending-run", TaskState::PendingRun),
            ("task-failed", TaskState::Failed),
            ("task-dep", TaskState::DependencyFailed),
        ],
        want: vec![
            "svc-failed",
            "svc-dep",
            "svc-building",
            "svc-running",
            "svc-ready",
            "svc-stopping",
            "svc-stopped",
            "svc-lazy",
        ],
    }];

    for case in cases {
        let service_names = case.services.iter().map(|(name, _)| name.to_string()).collect();
        let task_names = case.tasks.iter().map(|(name, _)| name.to_string()).collect();
        let mut app = app_with_names(service_names, task_names);
        for (name, state) in case.services {
            apply_service(&mut app, name, state, None);
        }
        for (name, state) in case.tasks {
            apply_task(&mut app, name, state);
        }

        let items = app.service_items();
        let got: Vec<&str> = items.iter().map(OverlayItem::name).collect();
        assert_eq!(got, case.want, "case: {}", case.name);
    }
}

#[test]
fn service_items_include_service_pid() {
    let mut app = app_with_names(names(&["api"]), vec![]);

    apply_service(&mut app, "api", ServiceState::Running, Some(12_345));

    let items = app.service_items();
    assert_eq!(items.len(), 1);
    assert_eq!(items[0].name(), "api");
    assert_eq!(items[0].pid, Some(12_345));
}

#[test]
fn shutdown_mode_bypasses_filter_for_all_logs() {
    let mut app = app_with_names(names(&["api", "worker"]), vec![]);
    app.filter.enter_edit();
    app.filter.push_query_char('a');
    app.filter.select_only_highlighted();

    assert!(app.should_render_log("api", false));
    assert!(app.should_render_log("api", true));
    assert!(!app.should_render_log("worker", false));
    assert!(!app.should_render_log("worker", true));

    app.begin_shutdown();

    assert!(app.should_render_log("api", false));
    assert!(app.should_render_log("api", true));
    assert!(app.should_render_log("worker", false));
    assert!(app.should_render_log("worker", true));
}

#[test]
fn begin_shutdown_returns_to_normal_view() {
    let mut app = app_with_names(names(&["api"]), vec![]);
    app.view_mode = ViewMode::Services;
    app.services_table.query = "api".into();
    app.services_table.filtering = true;

    app.begin_shutdown();

    assert!(app.shutdown_started);
    assert_eq!(app.view_mode, ViewMode::Normal);
    assert!(app.services_table.query.is_empty());
    assert!(!app.services_table.filtering);
}

#[test]
fn task_items_prioritize_actionable_states_and_include_metadata() {
    let mut app = app_with_names(
        vec![],
        names(&["completed", "failed", "pending-run", "running"]),
    );
    apply_task(&mut app, "completed", TaskState::Completed);
    apply_task(&mut app, "failed", TaskState::Failed);
    apply_task(&mut app, "pending-run", TaskState::PendingRun);
    apply_task(&mut app, "running", TaskState::Running);
    app.tasks_last_run.insert(
        "completed".into(),
        TaskRunInfo {
            finished_at_unix_secs: 1,
            duration_ms: Some(42),
            success: true,
            exit_code: Some(0),
            message: None,
        },
    );

    let items = app.task_items();
    let got: Vec<&str> = items.iter().map(TaskStatusItem::name).collect();

    assert_eq!(got, vec!["failed", "pending-run", "running", "completed"]);
    assert_eq!(items[3].last_run.as_ref().unwrap().duration_ms, Some(42));
}

#[test]
fn a_table_holds_the_order_it_opened_with() {
    let mut app = app_with_names(names(&["alpha", "beta", "gamma"]), Vec::new());
    apply_service(&mut app, "alpha", ServiceState::Ready, Some(1));
    apply_service(&mut app, "beta", ServiceState::Failed, None);
    apply_service(&mut app, "gamma", ServiceState::Ready, Some(3));

    let opened = service_order(&app);
    assert_eq!(opened, vec!["beta", "alpha", "gamma"], "state sort on open");

    app.freeze_services_order();

    apply_service(&mut app, "beta", ServiceState::Ready, Some(2));
    apply_service(&mut app, "alpha", ServiceState::Stopped, None);
    let after = service_order(&app);
    assert_eq!(after, opened, "rows hold still once the view is open");

    apply_service(&mut app, "delta", ServiceState::Failed, None);
    let with_newcomer = service_order(&app);
    assert_eq!(with_newcomer, vec!["beta", "alpha", "gamma", "delta"]);

    app.freeze_services_order();
    let reopened = service_order(&app);
    assert_eq!(reopened[0], "delta", "reopening surfaces the failure again");
}

#[test]
fn resyncing_twice_from_one_snapshot_changes_nothing_more() {
    let mut app = app_with_names(names(&["api"]), vec![]);
    let snapshot = StateSnapshot {
        processes: vec![snapshot_service("api", ServiceState::Unhealthy, Some(7))],
        startup_complete: false,
    };
    app.resync_from(&snapshot);
    let counts = app.counts;
    let order = service_order(&app);
    app.resync_from(&snapshot);
    assert_eq!(app.counts, counts);
    assert_eq!(service_order(&app), order);
    assert_eq!(app.service_pids.get("api"), Some(&Some(7)));
    assert_eq!(app.counts.services_unhealthy, 1);
}

#[test]
fn swapping_the_record_twice_gives_the_pane_back() {
    let mut app = app_with_names(names(&["api"]), vec![]);
    app.log_total_rows = 12;
    app.log_rows_above = 3;
    app.swap_log_view();
    assert!(app.debug_view);
    assert_eq!((app.log_total_rows, app.log_rows_above), (0, 0));
    app.swap_log_view();
    assert!(!app.debug_view);
    assert_eq!((app.log_total_rows, app.log_rows_above), (12, 3));
}

#[test]
fn widening_gives_back_what_narrowing_took() {
    let mut app = app_with_names(names(&["api", "web", "db"]), vec![]);
    assert!(app.narrow_log_to("api"));
    assert_eq!(app.narrowed_to(), Some("api".to_string()));
    assert!(app.narrow_log_to("web"));
    assert_eq!(app.narrowed_to(), Some("web".to_string()));
    assert!(!app.should_render_log("api", false));
    assert!(app.widen_log_from_narrow());
    assert_eq!(app.narrowed_to(), None);
    for name in ["api", "web", "db"] {
        assert!(app.should_render_log(name, false), "{name}");
    }
    assert!(!app.widen_log_from_narrow(), "there is nothing left to widen");
    assert!(!app.narrow_log_to("nobody"), "a name nobody has hides nothing");
}

#[test]
fn a_version_is_announced_only_when_it_is_newer() {
    let mut app = app_with_names(vec![], vec![]);
    app.set_update_check("0.4.1".into(), Some("0.4.2".into()));
    assert_eq!(app.update_badge.as_ref().unwrap().latest_version, "0.4.2");
    app.set_update_check("0.4.2".into(), None);
    assert!(app.update_badge.is_none());
}
