use don::app::{App, AppInit, ViewMode};
use don::attach::{AttachView, WindowRect};
use don::client::{RunnerEvent, ServiceState, TaskState};
use don::commands::{highlighted_service_hard_restart_command, overlay_toggle_command};
use don::config::Task;
use don::dispatch::handle_key;
use don::effects::ControlAction;
use don::input::TuiMode;
use don::keys::{KeyCode, KeyEvent, MouseEvent, MouseEventKind};
use don::log_store::LogStore;
use don::logs::{PendingScroll, RowSource, Scroll};
use don::names::{NameMap, NameSet};
use don::normal_input::handle_normal_key;
use don::output::LogId;
use don::panels::open_services_panel;
use don::panes::{Focus, PaneSide, Rect};
use don::pointer::{handle_mouse, scroll_log, select_message};
use don::session::apply_runner_event;

fn app_with_interactive_task(name: &str, interactive: bool) -> App {
    let mut task_configs = NameMap::new();
    task_configs.insert(name.to_string(), Task { interactive, params: Vec::new() });
    App::new(AppInit {
        service_names: Vec::new(),
        task_names: vec![name.to_string()],
        build_tool_names: Vec::new(),
        task_configs,
        task_last_runs: NameMap::new(),
        hidden_names: NameSet::new(),
        auto_filter_on_failure_names: NameSet::new(),
        cli_log_filter: None,
    })
}

fn app_with_service_state(state: ServiceState) -> App {
    let mut app = App::new(AppInit {
        service_names: vec!["api".to_string()],
        task_names: vec!["migrate".to_string()],
        build_tool_names: Vec::new(),
        task_configs: NameMap::new(),
        task_last_runs: NameMap::new(),
        hidden_names: NameSet::new(),
        auto_filter_on_failure_names: NameSet::new(),
        cli_log_filter: None,
    });
    app.apply_service_runtime("api".to_string(), state, None, Vec::new());
    app
}

#[test]
fn a_layout_change_or_ctrl_l_asks_for_a_full_repaint() {

    struct Case {
        name: &'static str,
        key: KeyEvent,
        want_repaint: bool,
        want_filter_open: bool,
    }

    let cases = [
        Case {
            name: "ctrl+l asks for a repaint",
            key: KeyEvent::with_control(KeyCode::Char('l')),
            want_repaint: true,
            want_filter_open: false,
        },
        Case {
            name: "plain l is not a repaint",
            key: KeyEvent::plain(KeyCode::Char('l')),
            want_repaint: false,
            want_filter_open: false,
        },
        Case {
            name: "f opens the filter",
            key: KeyEvent::plain(KeyCode::Char('f')),
            want_repaint: false,
            want_filter_open: true,
        },
    ];

    for case in cases {
        let mut app = app_with_service_state(ServiceState::Ready);
        let store = LogStore::with_capacity(10);
        handle_normal_key(
            case.key,
            &mut app,
            &store,
        );
        assert_eq!(
            app.repaint_requested, case.want_repaint,
            "{}: repaint requested",
            case.name
        );
        assert_eq!(
            app.view_mode == ViewMode::Filter,
            case.want_filter_open,
            "{}: filter opened",
            case.name
        );
    }
}

#[test]
fn triple_click_takes_the_whole_wrapped_message() {

    let sources = [
        RowSource {
            id: LogId(1),
            offset: 0,
            indent: 6,
        },
        RowSource {
            id: LogId(2),
            offset: 0,
            indent: 6,
        },
        RowSource {
            id: LogId(2),
            offset: 14,
            indent: 6,
        },
        RowSource {
            id: LogId(2),
            offset: 28,
            indent: 6,
        },
        RowSource {
            id: LogId(3),
            offset: 0,
            indent: 6,
        },
    ];

    for (click, want) in [(0usize, 1u64), (1, 2), (2, 2), (3, 2), (4, 3)] {
        let mut app = app_with_service_state(ServiceState::Ready);
        app.log_pane_origin = (0, 0);
        app.log_row_sources = sources.to_vec();

        select_message(&mut app, u16::try_from(click).unwrap());

        let (start, end) = app.log_selection.span().expect("a selection");
        assert_eq!(start.id, LogId(want), "clicking row {click}");
        assert_eq!(end.id, LogId(want), "clicking row {click}");
        assert_eq!(start.offset, 0, "from the start of the message");
        assert_eq!(end.offset, usize::MAX, "to the end of it");
    }
}

#[test]
fn ctrl_arrows_resize_the_split_and_bursts_stack() {
    struct Case {
        name: &'static str,
        side: PaneSide,
        start_extent: u16,
        keys: &'static [KeyCode],
        want_extent: u16,
    }

    let cases = [
        Case {
            name: "right dock: left grows the panel",
            side: PaneSide::Right,
            start_extent: 40,
            keys: &[KeyCode::Left],
            want_extent: 44,
        },
        Case {
            name: "right dock: right shrinks it",
            side: PaneSide::Right,
            start_extent: 40,
            keys: &[KeyCode::Right],
            want_extent: 36,
        },
        Case {
            name: "a burst of presses stacks, one step each",
            side: PaneSide::Right,
            start_extent: 40,
            keys: &[KeyCode::Left, KeyCode::Left, KeyCode::Left, KeyCode::Left],
            want_extent: 56,
        },
        Case {
            name: "bottom dock: up grows the panel",
            side: PaneSide::Bottom,
            start_extent: 8,
            keys: &[KeyCode::Up],
            want_extent: 10,
        },
        Case {
            name: "bottom dock: down shrinks it",
            side: PaneSide::Bottom,
            start_extent: 8,
            keys: &[KeyCode::Down],
            want_extent: 6,
        },
    ];

    for case in cases {
        let mut app = app_with_service_state(ServiceState::Ready);
        app.view_mode = ViewMode::Services;
        app.panel.side = case.side;
        app.panel.extent = case.start_extent;
        let store = LogStore::with_capacity(10);

        for key in case.keys {
            handle_key(
                KeyEvent::with_control(*key),
                &mut app,
                &store,
                TuiMode::InProcess,
            );
        }

        assert_eq!(app.panel.extent, case.want_extent, "{}", case.name);
    }
}

#[test]
fn panel_width_follows_the_terminal_until_customized() {

    struct Case {
        name: &'static str,
        terminal_width: u16,
        customized: bool,
        prior_extent: u16,
        want_extent: u16,
    }

    let cases = [
        Case {
            name: "narrow terminal keeps the floor",
            terminal_width: 120,
            customized: false,
            prior_extent: 48,
            want_extent: 48,
        },
        Case {
            name: "wide terminal grows the panel",
            terminal_width: 200,
            customized: false,
            prior_extent: 48,
            want_extent: 80,
        },
        Case {
            name: "very wide caps at twice the old fixed width",
            terminal_width: 300,
            customized: false,
            prior_extent: 48,
            want_extent: 96,
        },
        Case {
            name: "a hand-sized panel is left alone",
            terminal_width: 300,
            customized: true,
            prior_extent: 30,
            want_extent: 30,
        },
    ];

    for case in cases {
        let mut app = app_with_service_state(ServiceState::Ready);
        app.panel_extent_customized = case.customized;
        app.panel.extent = case.prior_extent;
        app.panes.bar = Rect::new(0, 21, case.terminal_width, 3);

        open_services_panel(&mut app);

        assert_eq!(app.panel.extent, case.want_extent, "{}", case.name);
    }
}

#[test]
fn selection_works_beside_an_open_panel() {

    struct Case {
        name: &'static str,
        view_mode: ViewMode,
        want_selection: bool,
    }

    let cases = [
        Case {
            name: "plain log",
            view_mode: ViewMode::Normal,
            want_selection: true,
        },
        Case {
            name: "services panel open",
            view_mode: ViewMode::Services,
            want_selection: true,
        },
        Case {
            name: "filter panel open",
            view_mode: ViewMode::Filter,
            want_selection: true,
        },
        Case {
            name: "full-screen failure summary: no log on screen",
            view_mode: ViewMode::Failures,
            want_selection: false,
        },
    ];

    for case in cases {
        let mut app = app_with_service_state(ServiceState::Ready);
        app.view_mode = case.view_mode;
        app.panes.logs = Rect::new(0, 0, 60, 20);
        app.panes.status = Some(Rect::new(60, 0, 40, 20));
        app.log_pane_origin = (0, 0);
        app.log_row_sources = (0..20u64)
            .map(|row| RowSource {
                id: LogId(row),
                offset: 0,
                indent: 0,
            })
            .collect();

        let mouse = |kind: MouseEventKind, column: u16| MouseEvent {
            kind,
            column,
            row: 5,
        };
        let store = LogStore::with_capacity(4);
        handle_mouse(
            mouse(MouseEventKind::DownLeft, 10),
            0,
            &mut app,
            &store,
        );
        handle_mouse(
            mouse(MouseEventKind::DragLeft, 30),
            0,
            &mut app,
            &store,
        );
        handle_mouse(
            mouse(MouseEventKind::UpLeft, 30),
            0,
            &mut app,
            &store,
        );

        assert_eq!(
            app.log_selection.span().is_some(),
            case.want_selection,
            "{}",
            case.name
        );
    }
}

#[test]
fn enter_on_a_failure_starts_it_unless_something_is_still_running() {
    struct Case {
        name: &'static str,
        state: ServiceState,
        pid: Option<i32>,
        want_start: bool,
    }

    let cases = [
        Case {
            name: "stranded by a dependency, never started",
            state: ServiceState::DependencyFailed,
            pid: None,
            want_start: true,
        },
        Case {
            name: "crashed, nothing left running",
            state: ServiceState::Failed,
            pid: None,
            want_start: true,
        },
        Case {
            name: "ready check failed under notify, process still alive",
            state: ServiceState::Failed,
            pid: Some(4242),
            want_start: false,
        },
        Case {
            name: "ready, so enter stops it",
            state: ServiceState::Ready,
            pid: Some(4242),
            want_start: false,
        },
    ];

    for case in cases {
        let mut app = app_with_service_state(ServiceState::Pending);
        app.apply_service_runtime("api".to_string(), case.state, case.pid, Vec::new());
        app.view_mode = ViewMode::Services;

        let command = overlay_toggle_command(&app)
            .unwrap_or_else(|| panic!("{}: enter should do something here", case.name));
        assert_eq!(
            matches!(command.action, ControlAction::Start),
            case.want_start,
            "{}: got {:?}",
            case.name,
            command.action
        );
    }
}

#[test]
fn acting_on_a_row_keeps_the_panel_open() {
    struct Case {
        name: &'static str,
        mode: ViewMode,
        key: KeyCode,
    }

    let cases = [
        Case {
            name: "running a task",
            mode: ViewMode::Tasks,
            key: KeyCode::Enter,
        },
        Case {
            name: "starting or stopping a service",
            mode: ViewMode::Services,
            key: KeyCode::Enter,
        },
        Case {
            name: "restarting a service",
            mode: ViewMode::Services,
            key: KeyCode::Char('r'),
        },
    ];

    for case in cases {
        let mut app = app_with_service_state(ServiceState::Ready);
        app.apply_task_state(
            "migrate".to_string(),
            TaskState::Pending,
            None,
            Vec::new(),
        );
        app.view_mode = case.mode;
        app.focus = Focus::Panel;
        let store = LogStore::with_capacity(10);

        handle_key(
            KeyEvent::plain(case.key),
            &mut app,
            &store,
            TuiMode::InProcess,
        );

        assert_eq!(app.view_mode, case.mode, "{}: panel stays open", case.name);
        assert_eq!(
            app.focus,
            Focus::Panel,
            "{}: and keeps the keys",
            case.name
        );
    }
}


#[test]
fn an_interactive_task_opens_and_closes_its_own_window() {
    struct Case {
        name: &'static str,
        finished: TaskState,
        want_dismiss: bool,
    }

    let cases = [
        Case {
            name: "success takes the window with it",
            finished: TaskState::Completed,
            want_dismiss: true,
        },
        Case {
            name: "failure keeps it up to be read",
            finished: TaskState::Failed,
            want_dismiss: false,
        },
    ];

    for case in cases {
        let mut app = app_with_interactive_task("conf-init", true);
        app.apply_task_state(
            "conf-init".to_string(),
            TaskState::Running,
            None,
            Vec::new(),
        );
        assert_eq!(
            app.bridge_request.as_deref(),
            Some("conf-init"),
            "{}: the window is asked for",
            case.name
        );
        assert!(app.attach_opened_automatically, "{}", case.name);

        let name = app.bridge_request.take().unwrap();
        app.attach = Some(AttachView {
            name,
            window: WindowRect::centred_in(Rect::new(0, 0, 80, 24)),
            grid: None,
            ended: false,
        });

        app.apply_task_state("conf-init".to_string(), case.finished, None, Vec::new());
        assert_eq!(
            app.attach_dismiss_requested, case.want_dismiss,
            "{}: dismissed?",
            case.name
        );
    }
}

#[test]
fn nothing_else_opens_a_window_by_itself() {
    let mut plain = app_with_interactive_task("build", false);
    plain.apply_task_state(
        "build".to_string(),
        TaskState::Running,
        None,
        Vec::new(),
    );
    assert!(
        plain.bridge_request.is_none(),
        "an ordinary task opens nothing"
    );

    let mut busy = app_with_interactive_task("conf-init", true);
    busy.attach = Some(AttachView {
        name: "something-else".to_string(),
        window: WindowRect::centred_in(Rect::new(0, 0, 80, 24)),
        grid: None,
        ended: false,
    });
    busy.apply_task_state(
        "conf-init".to_string(),
        TaskState::Running,
        None,
        Vec::new(),
    );
    assert!(
        busy.bridge_request.is_none(),
        "an open window is not stolen"
    );

    let mut again = app_with_interactive_task("conf-init", true);
    again.apply_task_state(
        "conf-init".to_string(),
        TaskState::Running,
        None,
        Vec::new(),
    );
    again.bridge_request = None;
    again.apply_task_state(
        "conf-init".to_string(),
        TaskState::Running,
        None,
        Vec::new(),
    );
    assert!(
        again.bridge_request.is_none(),
        "only the transition into running opens one"
    );
}

#[test]
fn blank_marks_are_keyed_cheaply_and_do_not_outlive_their_lines() {
    let mut app = app_with_service_state(ServiceState::Ready);

    let before = app.log_filter_fingerprint();
    app.mark_blank_after(LogId(7));
    let after_one = app.log_filter_fingerprint();
    assert_ne!(before, after_one, "a new mark re-keys the index");
    app.mark_blank_after(LogId(7));
    assert_ne!(
        after_one,
        app.log_filter_fingerprint(),
        "and so does a second blank on the same line"
    );
    assert_eq!(
        app.blank_after.count(LogId(7)),
        2,
        "counted, not a set"
    );

    app.mark_blank_after(LogId(20));
    let keyed = app.log_filter_fingerprint();
    app.prune_blank_marks(Some(LogId(20)));
    assert_eq!(
        app.blank_after.ids(),
        vec![LogId(20)],
        "marks older than the store's oldest line are dropped"
    );
    assert_eq!(
        app.log_filter_fingerprint(),
        keyed,
        "dropping a mark on a line that is gone re-keys nothing"
    );

    app.prune_blank_marks(None);
    assert!(app.blank_after.is_empty());
}

#[test]
fn swapping_the_record_takes_the_screen_state_with_it() {
    let mut app = app_with_service_state(ServiceState::Ready);
    app.log_row_sources = vec![RowSource {
        id: LogId(3),
        offset: 0,
        indent: 0,
    }];
    app.log_visible_rows = vec!["api | hello".to_string()];
    app.mark_blank_after(LogId(3));

    app.swap_log_view();
    assert!(app.debug_view, "the other record is in front");
    assert!(
        app.blank_after.is_empty(),
        "the other record has its own marks"
    );
    assert!(app.log_row_sources.is_empty(), "and its own screen");
    assert!(app.log_visible_rows.is_empty());

    app.swap_log_view();
    assert!(!app.debug_view);
    assert_eq!(
        app.blank_after.count(LogId(3)),
        1,
        "coming back finds the marks where they were left"
    );
}

#[test]
fn the_filter_and_a_row_s_log_have_their_own_keys() {
    struct Case {
        name: &'static str,
        from: ViewMode,
        key: KeyCode,
        want_mode: ViewMode,
        want_narrowed: bool,
    }

    let cases = [
        Case {
            name: "f reaches the filter from the services table",
            from: ViewMode::Services,
            key: KeyCode::Char('f'),
            want_mode: ViewMode::Filter,
            want_narrowed: false,
        },
        Case {
            name: "and from the tasks table",
            from: ViewMode::Tasks,
            key: KeyCode::Char('f'),
            want_mode: ViewMode::Filter,
            want_narrowed: false,
        },
        Case {
            name: "and is its own toggle",
            from: ViewMode::Filter,
            key: KeyCode::Char('f'),
            want_mode: ViewMode::Normal,
            want_narrowed: false,
        },
        Case {
            name: "l narrows the log to the highlighted service",
            from: ViewMode::Services,
            key: KeyCode::Char('l'),
            want_mode: ViewMode::Services,
            want_narrowed: true,
        },
        Case {
            name: "and to the highlighted task",
            from: ViewMode::Tasks,
            key: KeyCode::Char('l'),
            want_mode: ViewMode::Tasks,
            want_narrowed: true,
        },
    ];

    for case in cases {
        let mut app = app_with_service_state(ServiceState::Ready);
        app.apply_task_state(
            "migrate".to_string(),
            TaskState::Pending,
            None,
            Vec::new(),
        );
        app.view_mode = case.from;
        app.focus = Focus::Panel;
        let store = LogStore::with_capacity(10);

        handle_key(
            KeyEvent::plain(case.key),
            &mut app,
            &store,
            TuiMode::InProcess,
        );

        assert_eq!(app.view_mode, case.want_mode, "{}", case.name);
        assert_eq!(
            app.filter_narrowed_from.is_some(),
            case.want_narrowed,
            "{}: narrowed?",
            case.name
        );
    }
}

#[test]
fn panel_keys_toggle_and_route_focus() {
    struct Case {
        name: &'static str,
        keys: &'static [KeyCode],
        want_mode: ViewMode,
        want_focus: Focus,
    }

    let cases = [
        Case {
            name: "opening a panel focuses it",
            keys: &[KeyCode::Char('s')],
            want_mode: ViewMode::Services,
            want_focus: Focus::Panel,
        },
        Case {
            name: "the same key closes it again",
            keys: &[KeyCode::Char('t'), KeyCode::Char('t')],
            want_mode: ViewMode::Normal,
            want_focus: Focus::Logs,
        },
        Case {
            name: "tab hands the keys to the log and back",
            keys: &[KeyCode::Char('s'), KeyCode::Tab, KeyCode::Tab],
            want_mode: ViewMode::Services,
            want_focus: Focus::Panel,
        },
        Case {
            name: "with the log focused, a panel key switches panels",
            keys: &[KeyCode::Char('s'), KeyCode::Tab, KeyCode::Char('t')],
            want_mode: ViewMode::Tasks,
            want_focus: Focus::Panel,
        },
        Case {
            name: "esc from the panel side closes it",
            keys: &[KeyCode::Char('s'), KeyCode::Esc],
            want_mode: ViewMode::Normal,
            want_focus: Focus::Logs,
        },
        Case {
            name: "esc from the log side closes it too",
            keys: &[KeyCode::Char('s'), KeyCode::Tab, KeyCode::Esc],
            want_mode: ViewMode::Normal,
            want_focus: Focus::Logs,
        },
    ];

    for case in cases {
        let mut app = app_with_service_state(ServiceState::Ready);
        let store = LogStore::with_capacity(10);
        for key in case.keys {
            handle_key(
                KeyEvent::plain(*key),
                &mut app,
                &store,
                TuiMode::InProcess,
            );
        }
        assert_eq!(app.view_mode, case.want_mode, "{}: mode", case.name);
        assert_eq!(app.focus, case.want_focus, "{}: focus", case.name);
    }
}

#[test]
fn enter_marks_the_last_visible_line() {

    struct Case {
        name: &'static str,
        scroll: Scroll,
        rows_above: usize,
        total_rows: usize,
        visible: &'static [u64],
        want_mark: Option<u64>,
        want_follow: bool,
    }

    let cases = [
        Case {
            name: "following: blank goes after the bottom visible row",
            scroll: Scroll::Follow,
            rows_above: 80,
            total_rows: 100,
            visible: &[7, 9, 12],
            want_mark: Some(12),
            want_follow: true,
        },
        Case {
            name: "pinned at the tail still adds the blank, then follows",
            scroll: Scroll::At {
                id: LogId(7),
                row: 0,
            },
            rows_above: 80,
            total_rows: 100,
            visible: &[7, 9, 12],
            want_mark: Some(12),
            want_follow: true,
        },
        Case {
            name: "held above the tail, Enter is the way back down",
            scroll: Scroll::At {
                id: LogId(3),
                row: 0,
            },
            rows_above: 10,
            total_rows: 100,
            visible: &[3, 4, 5],
            want_mark: None,
            want_follow: true,
        },
        Case {
            name: "an empty pane has nothing to mark",
            scroll: Scroll::Follow,
            rows_above: 0,
            total_rows: 0,
            visible: &[],
            want_mark: None,
            want_follow: true,
        },
    ];

    for case in cases {
        let mut app = app_with_service_state(ServiceState::Ready);
        app.log_scroll = case.scroll;
        app.log_rows_above = case.rows_above;
        app.log_total_rows = case.total_rows;
        app.log_pane_height = 20;
        app.log_row_sources = case
            .visible
            .iter()
            .map(|id| RowSource {
                id: LogId(*id),
                offset: 0,
                indent: 0,
            })
            .collect();
        let store = LogStore::with_capacity(10);

        handle_normal_key(
            KeyEvent::plain(KeyCode::Enter),
            &mut app,
            &store,
        );

        match case.want_mark {
            Some(id) => assert_eq!(
                app.blank_after.count(LogId(id)),
                1,
                "{}: the mark",
                case.name
            ),
            None => assert!(
                app.blank_after.is_empty(),
                "{}: nothing should be marked",
                case.name
            ),
        }
        assert_eq!(
            app.log_scroll == Scroll::Follow,
            case.want_follow,
            "{}: following afterwards",
            case.name
        );
    }
}

#[test]
fn vim_keys_record_the_same_intent_as_the_arrows() {

    struct Case {
        name: &'static str,
        keys: &'static [char],
        want: PendingScroll,
        want_follow: bool,
    }

    let cases = [
        Case {
            name: "k is up one row",
            keys: &['k'],
            want: PendingScroll {
                rows: -1,
                ..PendingScroll::default()
            },
            want_follow: false,
        },
        Case {
            name: "j is down one row",
            keys: &['j'],
            want: PendingScroll {
                rows: 1,
                ..PendingScroll::default()
            },
            want_follow: false,
        },
        Case {
            name: "gg jumps to the top",
            keys: &['g', 'g'],
            want: PendingScroll {
                to_top: true,
                ..PendingScroll::default()
            },
            want_follow: false,
        },
        Case {
            name: "a broken chord is just the second key",
            keys: &['g', 'j'],
            want: PendingScroll {
                rows: 1,
                ..PendingScroll::default()
            },
            want_follow: false,
        },
        Case {
            name: "G returns to the tail",
            keys: &['G'],
            want: PendingScroll::default(),
            want_follow: true,
        },
    ];

    for case in cases {
        let mut app = app_with_service_state(ServiceState::Ready);
        app.log_scroll = Scroll::At {
            id: LogId(3),
            row: 0,
        };
        let store = LogStore::with_capacity(10);
        for key in case.keys {
            handle_normal_key(
                KeyEvent::plain(KeyCode::Char(*key)),
                &mut app,
                &store,
            );
        }
        assert_eq!(app.pending_scroll, case.want, "{}: intent", case.name);
        assert_eq!(
            app.log_scroll == Scroll::Follow,
            case.want_follow,
            "{}: following",
            case.name
        );
    }
}

#[test]
fn a_burst_of_scrolls_accumulates_and_resolves_once() {

    struct Case {
        name: &'static str,
        burst: &'static [isize],
        want: PendingScroll,
    }

    let cases = [
        Case {
            name: "one notch",
            burst: &[-3],
            want: PendingScroll {
                rows: -3,
                ..PendingScroll::default()
            },
        },
        Case {
            name: "ten notches are ten notches, not one",
            burst: &[-3, -3, -3, -3, -3, -3, -3, -3, -3, -3],
            want: PendingScroll {
                rows: -30,
                ..PendingScroll::default()
            },
        },
        Case {
            name: "back and forth nets out",
            burst: &[-3, -3, 3],
            want: PendingScroll {
                rows: -3,
                ..PendingScroll::default()
            },
        },
    ];

    for case in cases {
        let mut app = app_with_service_state(ServiceState::Ready);
        for delta in case.burst {
            scroll_log(&mut app, *delta, 0, false);
        }
        assert_eq!(app.pending_scroll, case.want, "{}", case.name);
    }
}

#[test]
fn dependency_failure_events_refresh_tui_detail() {
    struct Case {
        name: &'static str,
        state: ServiceState,
        dependencies: Vec<String>,
        want: Vec<String>,
    }
    let cases = vec![
        Case {
            name: "initial root cause",
            state: ServiceState::DependencyFailed,
            dependencies: vec!["db".to_string()],
            want: vec!["db".to_string()],
        },
        Case {
            name: "changed root cause without state change",
            state: ServiceState::DependencyFailed,
            dependencies: vec!["cache".to_string()],
            want: vec!["cache".to_string()],
        },
        Case {
            name: "recovery clears detail",
            state: ServiceState::Pending,
            dependencies: Vec::new(),
            want: Vec::new(),
        },
    ];

    let mut app = app_with_service_state(ServiceState::Pending);
    for case in cases {
        apply_runner_event(
            RunnerEvent::ServiceStateChanged {
                name: "api".to_string(),
                state: case.state,
                pid: None,
                failed_dependencies: case.dependencies,
            },
            &mut app,
        );
        let item = app
            .service_items()
            .into_iter()
            .find(|item| item.name() == "api")
            .unwrap();
        assert_eq!(item.failed_dependencies, case.want, "case: {}", case.name);
    }
}

#[test]
fn overlay_uppercase_r_hard_restarts_highlighted_service() {
    let app = app_with_service_state(ServiceState::Ready);
    let Some(command) = highlighted_service_hard_restart_command(&app) else {
        panic!("expected hard restart command");
    };
    assert_eq!(command.action, ControlAction::HardRestart);
    assert_eq!(command.name, "api");
}
