use don::app::{App, AppInit, TaskStatusItem, UpdateBadge, ViewMode};
use don::bar::{normal_bar_line, shutdown_bar_line, update_badge_line};
use don::client::{ServiceState, TaskRunInfo, TaskState};
use don::config::ParamKind;
use don::counts::StatusCounts;
use don::filter::FilterState;
use don::form::{CandidateState, Field, FormState};
use don::form_view::{field_render_rows, form_footer, form_lines};
use don::labels::{
    dependency_failed_label, format_relative_unix_secs, format_task_duration, format_task_result,
    service_state_label, task_state_label,
};
use don::log_store::LogStore;
use don::logs::{RowSource, Scroll};
use don::names::{NameMap, NameSet};
use don::output::{FormattedLogLine, LogId};
use don::panes::{Panel, PaneSide, Rect};
use don::screen::{
    failure_summary_max_scroll, failure_text, highlight_selected, lay_out, log_pane_width,
    log_text_area, painted_rows, prepare_frame, scroll_badge,
};
use don::selection::{Point, Selection};
use don::style::{Color, Line, Span, Style, BOLD, REVERSED};
use don::tables::{
    filter_list, log_pane_title, service_selected_hint, services_table_view, table_title,
    task_selected_hint, task_table_layout, task_table_row, tasks_table_view, ColumnWidth,
    SERVICES_PID_MIN_WIDTH,
};
use ratatui::backend::TestBackend;
use ratatui::widgets::{Block, Borders, Paragraph, Wrap};

fn app_with(services: &[&str], tasks: &[&str]) -> App {
    App::new(AppInit {
        service_names: services.iter().map(|name| name.to_string()).collect(),
        task_names: tasks.iter().map(|name| name.to_string()).collect(),
        build_tool_names: Vec::new(),
        task_configs: NameMap::new(),
        task_last_runs: NameMap::new(),
        hidden_names: NameSet::new(),
        auto_filter_on_failure_names: NameSet::new(),
        cli_log_filter: None,
    })
}

fn screen_text(terminal: &ratatui::Terminal<TestBackend>) -> String {
    terminal.backend().buffer().content.iter().map(|cell| cell.symbol()).collect()
}

fn store_of_thirty() -> LogStore {
    let mut store = LogStore::with_capacity(100);
    store.reflow(58);
    for id in 0..30u64 {
        store.push(
            LogId(id),
            FormattedLogLine {
                name: "api".to_string(),
                is_lifecycle: false,
                is_verbose: false,
                prefix: b"api \xe2\x94\x82 ".to_vec(),
                bytes: format!("line {id}").into_bytes(),
            },
        );
    }
    store
}

#[test]
fn a_table_title_offers_the_way_out_of_a_narrow() {
    let mut app = App::new(AppInit {
        service_names: vec!["api".to_string(), "web".to_string()],
        task_names: Vec::new(),
        build_tool_names: Vec::new(),
        task_configs: NameMap::new(),
        task_last_runs: NameMap::new(),
        hidden_names: NameSet::new(),
        auto_filter_on_failure_names: NameSet::new(),
        cli_log_filter: None,
    });
    assert_eq!(
        table_title(&app, "services", "[enter] start/stop"),
        " services — [enter] start/stop  [l] logs "
    );

    assert!(app.narrow_log_to("api"));
    let narrowed = table_title(&app, "services", "[enter] start/stop");
    assert_eq!(narrowed, " services — [esc] all logs  [enter] start/stop ");
    assert!(
        narrowed.find("[esc]").unwrap() < narrowed.find("[enter]").unwrap(),
        "the way out leads, so a truncated title still carries it: {narrowed}"
    );

    assert!(app.widen_log_from_narrow());
    assert_eq!(
        table_title(&app, "services", "[enter] start/stop"),
        " services — [enter] start/stop  [l] logs ",
        "and back again"
    );
}

#[test]
fn the_log_pane_title_says_when_it_is_narrowed() {
    struct Case {
        name: &'static str,
        narrow_to: Option<&'static str>,
        debug_view: bool,
        want: &'static str,
    }

    for case in [
        Case {
            name: "showing everything",
            narrow_to: None,
            debug_view: false,
            want: " logs ",
        },
        Case {
            name: "narrowed to one process",
            narrow_to: Some("api"),
            debug_view: false,
            want: " logs — api  [esc] all ",
        },
        Case {
            name: "don's own log is never the narrowed one",
            narrow_to: Some("api"),
            debug_view: true,
            want: " don's log ",
        },
    ] {
        let mut app = App::new(AppInit {
            service_names: vec!["api".to_string(), "web".to_string()],
            task_names: Vec::new(),
            build_tool_names: Vec::new(),
            task_configs: NameMap::new(),
            task_last_runs: NameMap::new(),
            hidden_names: NameSet::new(),
            auto_filter_on_failure_names: NameSet::new(),
            cli_log_filter: None,
        });
        if let Some(name) = case.narrow_to {
            assert!(app.narrow_log_to(name), "{}: narrowing", case.name);
        }
        app.debug_view = case.debug_view;
        assert_eq!(log_pane_title(&app), case.want, "{}", case.name);
    }
}


fn line_text(line: Line) -> String {
    line.text()
}

#[test]
fn a_failure_that_is_still_running_says_which_check_failed() {
    struct Case {
        name: &'static str,
        state: ServiceState,
        live: bool,
        want: &'static str,
    }

    let cases = [
        Case {
            name: "the process is gone, so it simply failed",
            state: ServiceState::Failed,
            live: false,
            want: "failed",
        },
        Case {
            name: "on_failure = notify leaves it running",
            state: ServiceState::Failed,
            live: true,
            want: "ready check failed",
        },
        Case {
            name: "unhealthy is unaffected by liveness",
            state: ServiceState::Unhealthy,
            live: true,
            want: "unhealthy",
        },
        Case {
            name: "and so is everything else",
            state: ServiceState::Ready,
            live: true,
            want: "ready",
        },
    ];

    for case in cases {
        assert_eq!(
            service_state_label(case.state, case.live, &Vec::new()),
            case.want,
            "{}",
            case.name
        );
    }
}

#[test]
fn dependency_failed_label_names_blocking_dependencies() {
    struct Case {
        name: &'static str,
        dependencies: Vec<String>,
        want: &'static str,
    }

    let cases = vec![
        Case {
            name: "unknown dependency remains backward compatible",
            dependencies: Vec::new(),
            want: "dep failed",
        },
        Case {
            name: "one dependency",
            dependencies: vec!["db".to_string()],
            want: "dep failed: db",
        },
        Case {
            name: "multiple dependencies",
            dependencies: vec!["db".to_string(), "cache".to_string()],
            want: "dep failed: db, cache",
        },
    ];

    for case in cases {
        assert_eq!(
            dependency_failed_label(&case.dependencies),
            case.want,
            "case: {}",
            case.name
        );
    }
}

#[test]
fn shutdown_bar_hides_interactive_controls() {
    let text = line_text(shutdown_bar_line(&StatusCounts::default(), 0));
    assert!(text.contains("shutting down"));
    assert!(!text.contains("[/] logs"));
    assert!(!text.contains("[t] tasks"));
    assert!(!text.contains("[s] services"));
}

#[test]
fn normal_bar_marks_tasks_shortcut_when_tasks_are_pending() {
    let line = normal_bar_line(
        &StatusCounts {
            tasks_pending_run: 2,
            ..Default::default()
        },
        &FilterState::new(Vec::new(), &NameSet::new(), None),
        0,
        0,
        0,
        false,
        false,
        false,
    );
    let star = line
        .spans
        .iter()
        .find(|span| span.content == "*")
        .expect("pending-task marker missing");

    assert_eq!(star.style.fg, Some(Color::LightYellow));
    assert_eq!(star.style.add_modifier & BOLD, BOLD);

    let hotkey = line
        .spans
        .iter()
        .find(|span| span.content == "  [t] tasks")
        .expect("tasks hotkey missing");
    assert_eq!(hotkey.style.fg, Some(Color::Yellow));

    let text = line_text(line);
    assert!(text.contains("[t] tasks*"));
    assert!(!text.contains("tasks pending"));
}

#[test]
fn normal_bar_leaves_tasks_shortcut_unmarked_without_pending_tasks() {
    let line = normal_bar_line(
        &StatusCounts::default(),
        &FilterState::new(Vec::new(), &NameSet::new(), None),
        0,
        0,
        0,
        false,
        false,
        false,
    );

    let hotkey = line
        .spans
        .iter()
        .find(|span| span.content == "  [t] tasks")
        .expect("tasks hotkey missing");
    assert_eq!(hotkey.style.fg, Some(Color::DarkGray));

    let text = line_text(line);
    assert!(text.contains("[t] tasks"));
    assert!(!text.contains("[t] tasks*"));
}

#[test]
fn normal_bar_shows_reset_hint_when_filter_is_active() {
    let mut filter = FilterState::new(
        vec!["api".to_string(), "worker".to_string()],
        &NameSet::new(),
        None,
    );
    filter.enter_edit();
    filter.push_query_char('a');
    filter.select_only_highlighted();

    let text = line_text(normal_bar_line(
        &StatusCounts::default(),
        &filter,
        0,
        1,
        2,
        false,
        false,
        false,
    ));

    assert!(text.contains("[f] filter (1/2)  [R] reset"));
}

#[test]
fn normal_bar_marks_failed_count_with_info_shortcut() {
    struct Case {
        name: &'static str,
        counts: StatusCounts,
        want: &'static str,
        reject: &'static str,
    }

    let cases = vec![
        Case {
            name: "service failure details available",
            counts: StatusCounts {
                services_total: 2,
                services_failed: 2,
                ..Default::default()
            },
            want: "2 failed [i]",
            reject: "2 failed  [i]",
        },
        Case {
            name: "task-only failure details available",
            counts: StatusCounts {
                tasks_failed: 1,
                ..Default::default()
            },
            want: "1 task failed [i]",
            reject: "1 tasks failed",
        },
    ];

    for case in cases {
        let text = line_text(normal_bar_line(
            &case.counts,
            &FilterState::new(Vec::new(), &NameSet::new(), None),
            0,
            0,
            2,
            false,
            true,
            false,
        ));

        assert!(text.contains(case.want), "case: {}", case.name);
        assert!(!text.contains(case.reject), "case: {}", case.name);
    }
}

#[test]
fn update_badge_shows_current_and_latest_versions() {
    let text = line_text(update_badge_line(&UpdateBadge {
        current_version: "0.4.1".to_string(),
        latest_version: "0.4.2".to_string(),
    }));

    assert!(text.contains("upgrade available 0.4.1->0.4.2"));
}

#[test]
fn focused_field_uses_available_space_for_candidates() {
    let field = Field {
        name: "index".into(),
        prompt: "index".into(),
        required: false,
        kind: ParamKind::Text,
        value: String::new(),
        static_choices: vec![
            "c0".into(),
            "c1".into(),
            "c2".into(),
            "c3".into(),
            "c4".into(),
            "c5".into(),
            "c6".into(),
        ],
        has_dynamic_completions: false,
        candidates: CandidateState::Static(vec![
            "c0".into(),
            "c1".into(),
            "c2".into(),
            "c3".into(),
            "c4".into(),
            "c5".into(),
            "c6".into(),
        ]),
        candidate_highlight: 0,
        error: None,
        int_min: None,
        int_max: None,
    };

    let rows = field_render_rows(&field, true, 8);
    let texts: Vec<String> = rows.into_iter().map(line_text).collect();

    assert_eq!(texts.len(), 8);
    assert!(texts.iter().any(|t| t.contains("c0")));
    assert!(texts.iter().any(|t| t.contains("c6")));
}

#[test]
fn task_table_row_shows_last_run_result_and_duration() {
    let item = TaskStatusItem {
        name: "lint".to_string(),
        state: TaskState::Completed,
        failed_dependencies: Vec::new(),
        last_run: Some(TaskRunInfo {
            finished_at_unix_secs: 0,
            duration_ms: Some(1_250),
            success: true,
            exit_code: Some(0),
            message: None,
        }),
        has_params: false,
    };

    let layout = task_table_layout(120);
    let row = task_table_row(&item, &NameMap::new(), &layout.columns, 7);
    let cells: Vec<String> = row.spans.into_iter().map(|span| span.content).collect();
    assert_eq!(cells, vec!["lint", "completed", "7s ago", "ok", "1.2s"]);

    assert_eq!(format_task_result(&item.last_run), "ok");
    assert_eq!(
        format_task_duration(item.last_run.as_ref().and_then(|run| run.duration_ms)),
        "1.2s"
    );
}

#[test]
fn scroll_badge_only_shows_when_rows_are_below() {
    struct Case {
        name: &'static str,
        scroll: Scroll,
        want_badge: bool,
    }

    let cases = [
        Case {
            name: "following: no badge",
            scroll: Scroll::Follow,
            want_badge: false,
        },
        Case {
            name: "pinned at the tail: nothing below, no badge",
            scroll: Scroll::At { id: LogId(29), row: 0 },
            want_badge: false,
        },
        Case {
            name: "held above the tail: badge with a real count",
            scroll: Scroll::At { id: LogId(0), row: 0 },
            want_badge: true,
        },
    ];

    for case in cases {
        let mut app = app_with(&["api"], &[]);
        app.log_scroll = case.scroll;
        let store = store_of_thirty();
        let view = lay_out(&mut app, &store, Rect::new(0, 0, 60, 12)).unwrap();
        let area = Rect::new(1, 1, 58, 7);
        assert_eq!(app.log_pane_height, 7);
        assert_eq!(app.log_pane_origin, (1, 1));
        let badge = scroll_badge(&view, area);
        assert_eq!(badge.is_some(), case.want_badge, "{}", case.name);
        if let Some((label, at)) = badge {
            assert_eq!(label, " ↑ scrolled — 23 row(s) below · [end] follow ");
            assert!(label.contains("scrolled"));
            let width = label.chars().count() as u16;
            assert_eq!(at, Rect::new(59 - width, 7, width, 1));
        }
    }
}

#[test]
fn services_pid_column_hides_below_the_width_threshold() {
    struct Case {
        width: u16,
        want_pid: bool,
    }

    let cases = [
        Case {
            width: 48,
            want_pid: false,
        },
        Case {
            width: SERVICES_PID_MIN_WIDTH,
            want_pid: true,
        },
        Case {
            width: 90,
            want_pid: true,
        },
    ];

    for case in cases {
        let mut app = app_with(&["api"], &[]);
        app.apply_service_runtime("api".to_string(), ServiceState::Ready, Some(4242), Vec::new());
        app.view_mode = ViewMode::Services;

        let view = services_table_view(&app, &NameMap::new(), case.width);
        let mut text = view.header.join(" ");
        for row in view.rows {
            text.push_str(&row.text());
        }

        assert_eq!(text.contains("PID"), case.want_pid, "width {}: PID header", case.width);
        assert_eq!(text.contains("4242"), case.want_pid, "width {}: the pid itself", case.width);
        assert!(
            text.contains("api") && text.contains("ready"),
            "width {}: name and state always present",
            case.width
        );
    }
}

#[test]
fn task_state_column_stays_visible_across_terminal_widths() {
    struct Case {
        width: u16,
        want_headers: &'static [&'static str],
        reject_headers: &'static [&'static str],
        want_state: &'static str,
    }

    let cases = vec![
        Case {
            width: 50,
            want_headers: &["NAME", "STATE"],
            reject_headers: &["LAST RUN", "RESULT", "DURATION"],
            want_state: "dep failed:",
        },
        Case {
            width: 60,
            want_headers: &["NAME", "STATE"],
            reject_headers: &["LAST RUN", "RESULT", "DURATION"],
            want_state: "configure-kafka-topics",
        },
        Case {
            width: 80,
            want_headers: &["NAME", "STATE", "RESULT"],
            reject_headers: &["LAST RUN", "DURATION"],
            want_state: "configure-kafka-topics",
        },
    ];

    for case in cases {
        let rendered = rendered_task_table(case.width);
        for header in case.want_headers {
            assert!(
                rendered.contains(header),
                "width {} should show {header}: {rendered}",
                case.width
            );
        }
        for header in case.reject_headers {
            assert!(
                !rendered.contains(header),
                "width {} should hide {header}: {rendered}",
                case.width
            );
        }
        assert!(
            rendered.contains(case.want_state),
            "width {} should preserve task state detail: {rendered}",
            case.width
        );
    }
}

fn rendered_task_table(width: u16) -> String {
    let mut app = app_with(&[], &["configure-everything"]);
    app.apply_task_state(
        "configure-everything".to_string(),
        TaskState::DependencyFailed,
        None,
        vec!["configure-kafka-topics".to_string()],
    );
    app.view_mode = ViewMode::Tasks;

    let view = tasks_table_view(&app, &NameMap::new(), width, 0);
    let widths: Vec<ratatui::layout::Constraint> = view
        .widths
        .iter()
        .map(|width| match width {
            ColumnWidth::Percentage(share) => ratatui::layout::Constraint::Percentage(*share),
            ColumnWidth::Min(least) => ratatui::layout::Constraint::Min(*least),
            ColumnWidth::Length(length) => ratatui::layout::Constraint::Length(*length),
        })
        .collect();
    let rows: Vec<ratatui::widgets::Row> = view
        .rows
        .iter()
        .map(|row| ratatui::widgets::Row::new(row.spans.iter().map(|cell| cell.content.clone())))
        .collect();
    let header = ratatui::widgets::Row::new(view.header.clone());
    let table = ratatui::widgets::Table::new(rows, widths)
        .header(header)
        .block(Block::default().borders(Borders::ALL));
    let mut terminal = ratatui::Terminal::new(TestBackend::new(width, 8)).unwrap();
    terminal.draw(|frame| frame.render_widget(table, frame.area())).unwrap();
    screen_text(&terminal)
}

#[test]
fn failure_summary_wraps_instead_of_truncating_root_causes() {
    let mut app = app_with(&["api"], &[]);
    app.apply_service_runtime(
        "api".to_string(),
        ServiceState::DependencyFailed,
        None,
        vec![
            "configure-kafka-topics".to_string(),
            "configure-mongo-collections".to_string(),
        ],
    );
    app.open_failure_summary();

    let store = LogStore::with_capacity(0);
    lay_out(&mut app, &store, Rect::new(0, 0, 45, 12));
    let text = failure_text(&app);
    let paragraph = Paragraph::new(text)
        .wrap(Wrap { trim: false })
        .block(Block::default().borders(Borders::ALL));
    let mut terminal = ratatui::Terminal::new(TestBackend::new(45, 12)).unwrap();
    terminal.draw(|frame| frame.render_widget(paragraph, frame.area())).unwrap();
    let rendered = screen_text(&terminal);

    assert!(rendered.contains("configure-kafka-topics"));
    assert!(rendered.contains("configure-mongo-collections"));
}

#[test]
fn a_summary_scrolls_as_far_as_it_is_longer_than_the_screen() {
    let mut app = app_with(&["api"], &[]);
    app.apply_service_runtime(
        "api".to_string(),
        ServiceState::DependencyFailed,
        None,
        vec!["a-dependency-with-a-long-name".to_string(), "another-long-dependency".to_string()],
    );
    let roomy = failure_summary_max_scroll(Rect::new(0, 0, 80, 20), &app);
    let tight = failure_summary_max_scroll(Rect::new(0, 0, 12, 4), &app);
    assert_eq!(roomy, 0);
    assert!(tight > 0, "wrapped at ten columns it takes more than two rows");
    assert_eq!(failure_summary_max_scroll(Rect::new(0, 0, 2, 2), &app), 0);
    assert_eq!(failure_summary_max_scroll(Rect::new(0, 0, u16::MAX, 20), &app), 0);

    app.open_failure_summary();
    app.scroll_failure_summary_to_bottom();
    let store = LogStore::with_capacity(0);
    lay_out(&mut app, &store, Rect::new(0, 0, 12, 4));
    assert_eq!(app.failure_summary_scroll, tight, "the bottom is where the text ends");
}

#[test]
fn a_frame_measures_the_log_for_the_room_it_has() {
    let mut app = app_with(&["api"], &[]);
    let mut store = LogStore::with_capacity(10);
    let area = Rect::new(0, 0, 100, 30);
    assert!(prepare_frame(&mut app, &mut store, area), "the first frame paints everything");
    assert!(!prepare_frame(&mut app, &mut store, area), "the second only what moved");
    app.repaint_requested = true;
    assert!(prepare_frame(&mut app, &mut store, area), "unless it is asked for");
    app.view_mode = ViewMode::Services;
    assert!(prepare_frame(&mut app, &mut store, area), "or a panel opened");

    assert_eq!(log_text_area(area, app.panel, false), Rect::new(1, 1, 98, 25));
    assert_eq!(log_pane_width(area, app.panel, false), 98);
    let panel = Panel { side: PaneSide::Right, extent: 40 };
    assert_eq!(log_pane_width(area, panel, true), 57, "the divider takes a column");
    assert_eq!(log_pane_width(Rect::new(0, 0, 1, 1), panel, false), 1);
}

#[test]
fn only_the_selected_cells_of_a_row_are_reversed() {
    let line = Line {
        spans: vec![
            Span::styled("api | ".to_string(), Style::new()),
            Span::styled("hello".to_string(), Style::new().fg(Color::Red)),
        ],
    };
    let source = RowSource { id: LogId(4), offset: 0, indent: 6 };
    let mut selection = Selection::default();
    selection.begin(Point { id: LogId(4), offset: 1 });
    selection.extend(Point { id: LogId(4), offset: 3 });
    let lit = highlight_selected(&line, &selection, source);
    assert_eq!(lit.text(), "api | hello", "no text changes");
    let parts: Vec<(&str, bool)> = lit
        .spans
        .iter()
        .map(|span| (span.content.as_str(), span.style.add_modifier & REVERSED == REVERSED))
        .collect();
    assert_eq!(
        parts,
        vec![("api | ", false), ("h", false), ("el", true), ("lo", false)]
    );
    assert!(lit.spans[1..].iter().all(|span| span.style.fg == Some(Color::Red)));

    let mut app = app_with(&["api"], &[]);
    let store = store_of_thirty();
    let view = lay_out(&mut app, &store, Rect::new(0, 0, 60, 12)).unwrap();
    let rows = painted_rows(&view, &Selection::default());
    assert_eq!(rows.len(), view.rows.len());
    assert_eq!(rows[0].text(), view.rows[0].text());
}

#[test]
fn the_hint_on_a_failure_goes_by_its_process() {
    let mut app = app_with(&["api"], &[]);
    app.view_mode = ViewMode::Services;
    for state in [ServiceState::Failed, ServiceState::DependencyFailed] {
        app.apply_service_runtime("api".to_string(), state, None, Vec::new());
        assert_eq!(service_selected_hint(&app), Some("enter start api".to_string()));
        let view = services_table_view(&app, &NameMap::new(), 80);
        assert_eq!(view.hint.as_deref(), Some("enter start api"));
        app.apply_service_runtime("api".to_string(), state, Some(7), Vec::new());
        assert_eq!(service_selected_hint(&app), Some("enter stop api".to_string()));
    }
}

#[test]
fn the_hint_says_what_enter_would_do() {
    let mut app = app_with(&["api"], &["migrate"]);
    app.view_mode = ViewMode::Services;
    app.apply_service_runtime("api".to_string(), ServiceState::Stopped, None, Vec::new());
    assert_eq!(service_selected_hint(&app), Some("enter start api".to_string()));
    app.apply_service_runtime("api".to_string(), ServiceState::Ready, Some(1), Vec::new());
    assert_eq!(service_selected_hint(&app), Some("enter stop api".to_string()));
    app.apply_service_runtime("api".to_string(), ServiceState::Building, None, Vec::new());
    assert_eq!(service_selected_hint(&app), Some("transitioning".to_string()));
    assert_eq!(task_selected_hint(&app), Some("enter run migrate".to_string()));
    app.apply_task_state("migrate".to_string(), TaskState::Running, None, Vec::new());
    assert_eq!(task_selected_hint(&app), Some("transitioning".to_string()));
    assert_eq!(service_selected_hint(&app_with(&[], &[])), None);
}

#[test]
fn the_filter_list_ticks_what_is_shown() {
    let mut app = app_with(&["api", "web"], &[]);
    app.narrow_log_to("api");
    let (rows, selected) = filter_list(&app.filter, &NameMap::new());
    let text: Vec<String> = rows.iter().map(|row| row.text()).collect();
    assert_eq!(text, vec!["[ ] all", "[x] api", "[ ] don", "[ ] web"]);
    assert_eq!(selected, Some(0));
}

#[test]
fn times_and_durations_are_said_shortly() {
    assert_eq!(format_relative_unix_secs(106, 100), "in the future");
    assert_eq!(format_relative_unix_secs(105, 100), "just now");
    assert_eq!(format_relative_unix_secs(41, 100), "59s ago");
    assert_eq!(format_relative_unix_secs(0, 3599), "59m ago");
    assert_eq!(format_relative_unix_secs(0, 86_399), "23h ago");
    assert_eq!(format_relative_unix_secs(0, 86_400), "1d ago");
    assert_eq!(format_task_duration(None), "-");
    assert_eq!(format_task_duration(Some(999)), "999ms");
    assert_eq!(format_task_duration(Some(2_000)), "2s");
    assert_eq!(format_task_duration(Some(1_999)), "1.9s");
    assert_eq!(task_state_label(TaskState::PendingRun, &Vec::new()), "pending run");
}

#[test]
fn a_long_list_of_candidates_leaves_every_field_its_row() {
    let field = |name: &str, choices: usize| Field {
        name: name.into(),
        prompt: name.into(),
        required: false,
        kind: ParamKind::Text,
        value: String::new(),
        static_choices: Vec::new(),
        has_dynamic_completions: false,
        candidates: CandidateState::Static((0..choices).map(|i| format!("c{i}")).collect()),
        candidate_highlight: 0,
        error: None,
        int_min: None,
        int_max: None,
    };
    let form = FormState {
        task: "seed".into(),
        fields: vec![field("a", 9), field("b", 0), field("c", 0)],
        focus: 0,
        request_counter: 0,
        in_flight: NameMap::new(),
        submit_error: None,
    };
    let text: Vec<String> = form_lines(&form, 6).iter().map(|line| line.text()).collect();
    assert_eq!(
        text,
        vec!["▶ a: ▎", "    c0", "    c1", "    c2", "  b: ", "  c: "]
    );
    assert_eq!(form_footer(&form).text(), "↑/↓ selects candidate · enter/→ accepts");
    let refused = FormState { submit_error: Some("a is required".into()), ..form };
    assert_eq!(form_footer(&refused).text(), "⚠ a is required");
}

#[test]
fn a_summary_with_an_endless_word_is_measured_on_any_screen() {
    let mut app = app_with(&["api"], &[]);
    let cluster = format!("a{}", "\u{ff9e}".repeat(21_999));
    let blocker = cluster.repeat(4);
    app.apply_service_runtime(
        "api".to_string(),
        ServiceState::DependencyFailed,
        None,
        vec![blocker],
    );
    let wide = failure_summary_max_scroll(Rect::new(0, 0, 32_769, 3), &app);
    assert_eq!(wide, failure_summary_max_scroll(Rect::new(0, 0, 16_386, 3), &app));
    assert_eq!(wide, failure_summary_max_scroll(Rect::new(0, 0, u16::MAX, 3), &app));
}
