use don::app::{App, AppInit, ViewMode};
use don::attach::{AttachView, Grid, WindowRect};
use don::client::{EventStreamItem, ProcessStatus, RunnerEvent, ServiceState, StateSnapshot};
use don::effects::Effect;
use don::filter::FilterRow;
use don::input::TuiMode;
use don::keys::{AppEvent, AttachEvent, KeyCode, KeyEvent, MouseEvent, MouseEventKind};
use don::log_store::LogStore;
use don::names::{NameMap, NameSet};
use don::output::{FormattedLogLine, LogId, MergedEvent};
use don::panes::Rect;
use don::session::{
    dispatch_event, drains_input, is_shutdown_start_line, note_attach_failed, note_attached, note_grid,
    push_merged_event, says_shutdown, settle_attach, take_batch, take_runner_item, tick,
    AttachInput, FrameGate, LogStores, TuiError,
};

const SCREEN: Rect = Rect { x: 0, y: 0, width: 100, height: 50 };

fn app() -> App {
    App::new(AppInit {
        service_names: vec!["api".to_string(), "web".to_string()],
        task_names: vec!["seed".to_string()],
        build_tool_names: Vec::new(),
        task_configs: NameMap::new(),
        task_last_runs: NameMap::new(),
        hidden_names: NameSet::new(),
        auto_filter_on_failure_names: NameSet::new(),
        cli_log_filter: None,
    })
}

fn stores() -> LogStores {
    LogStores { output: LogStore::with_capacity(10), debug: LogStore::with_capacity(10) }
}

fn line(name: &str, verbose: bool, bytes: &[u8]) -> FormattedLogLine {
    FormattedLogLine {
        name: name.to_string(),
        is_lifecycle: name == "don",
        is_verbose: verbose,
        prefix: Vec::new(),
        bytes: bytes.to_vec(),
    }
}

fn window(name: &str) -> AttachView {
    AttachView {
        name: name.to_string(),
        window: WindowRect { x: 10, y: 5, width: 80, height: 40 },
        grid: None,
        ended: false,
    }
}

fn send(app: &mut App, event: AppEvent, live: bool, routed: AttachInput) -> Vec<Effect> {
    dispatch_event(event, app, &stores(), live, routed, SCREEN, TuiMode::Remote)
}

fn lists(app: &App, wanted: &str) -> bool {
    app.filter.rows().iter().any(|row| matches!(row, FilterRow::Name(name) if name == wanted))
}

fn any_key() -> AppEvent {
    AppEvent::Key(KeyEvent::plain(KeyCode::Char('s')))
}

#[test]
fn dropped_lines_leave_a_notice_where_they_are_missing() {
    let mut batch = Vec::new();
    push_merged_event(&mut batch, MergedEvent::Line(LogId(3), line("api", false, b"up")));
    push_merged_event(&mut batch, MergedEvent::Dropped { count: 41, resumed_at: LogId(45) });
    assert_eq!(batch.len(), 2);
    assert_eq!(batch[0].0, LogId(3));
    assert_eq!(batch[1].0, LogId(45));
    assert_eq!(batch[1].1.name, "don");
    assert!(batch[1].1.is_lifecycle && !batch[1].1.is_verbose);
    assert_eq!(
        String::from_utf8(batch[1].1.bytes.clone()).unwrap(),
        "41 log line(s) dropped — history did not reach back far enough"
    );
}

#[test]
fn only_don_announces_its_shutdown() {
    assert!(says_shutdown("don: shutting down gracefully ..."));
    assert!(!says_shutdown("shutting down"));
    assert!(is_shutdown_start_line(&line("don", false, b"\xffshutting down gracefully")));
    assert!(!is_shutdown_start_line(&line("api", false, b"shutting down gracefully")));
    assert!(!is_shutdown_start_line(&line("don", false, b"shutting down gracefull\xff")));
}

#[test]
fn a_batch_is_filed_by_record_and_an_announcement_begins_shutdown() {
    let mut app = app();
    let mut stores = stores();
    app.set_view_mode(ViewMode::Services);
    take_batch(
        &mut app,
        &mut stores,
        vec![
            (LogId(1), line("api", false, b"one")),
            (LogId(2), line("don", true, b"two")),
        ],
    );
    assert_eq!((stores.output.len(), stores.debug.len()), (1, 1));
    assert!(!app.shutdown_started);
    take_batch(
        &mut app,
        &mut stores,
        vec![(LogId(3), line("don", false, b"shutting down gracefully"))],
    );
    assert!(app.shutdown_started);
    assert_eq!(app.view_mode, ViewMode::Normal);
    assert_eq!(stores.output.len(), 2);
    assert_eq!(stores.active(false).len(), 2);
    assert_eq!(stores.active_mut(true).len(), 1);
}

#[test]
fn the_runners_stream_moves_states_and_asks_again_after_a_lag() {
    let mut app = app();
    let started = EventStreamItem::Event(RunnerEvent::ServiceStateChanged {
        name: "api".to_string(),
        state: ServiceState::Lazy,
        pid: None,
        failed_dependencies: Vec::new(),
    });
    assert!(take_runner_item(Some(started), &mut app).is_empty());
    assert_eq!(app.services_state.get("api"), Some(&ServiceState::Lazy));
    assert!(!lists(&app, "api"), "not started yet");

    let snapshot = StateSnapshot {
        processes: vec![ProcessStatus::Service {
            name: "api".to_string(),
            state: ServiceState::Ready,
            failed_dependencies: Vec::new(),
            runtime: None,
        }],
        startup_complete: true,
    };
    take_runner_item(Some(EventStreamItem::Snapshot(snapshot)), &mut app);
    assert_eq!(app.services_state.get("api"), Some(&ServiceState::Ready));
    assert!(lists(&app, "api"));

    let lag = take_runner_item(Some(EventStreamItem::Lagged(9)), &mut app);
    assert!(matches!(lag[..], [Effect::Resync]));
    assert!(take_runner_item(None, &mut app).is_empty());
    take_runner_item(Some(EventStreamItem::Event(RunnerEvent::ShutdownStarted)), &mut app);
    assert!(app.shutdown_started);
}

#[test]
fn a_tick_turns_the_spinner_and_ends_an_old_note() {
    let mut app = app();
    app.copy_notice = Some(("copied 2 lines".to_string(), 1000));
    let frame = app.spinner_frame;
    tick(&mut app, 5000);
    assert_eq!(app.spinner_frame, frame + 1);
    assert!(app.copy_notice.is_some(), "it stays for four seconds");
    tick(&mut app, 5001);
    assert!(app.copy_notice.is_none());
    app.spinner_frame = usize::MAX;
    tick(&mut app, 5001);
    assert_eq!(app.spinner_frame, 0);
}

#[test]
fn a_frame_waits_for_the_one_before_it() {
    let mut frames = FrameGate::new();
    assert!(frames.is_due(), "the first frame is due at once");
    frames.drawn();
    frames.touch();
    assert!(!frames.is_due(), "one is still being written");
    frames.written();
    assert!(frames.is_due());
    frames.drawn();
    frames.written();
    assert!(!frames.is_due(), "nothing changed");
    frames.written();
    assert_eq!(frames.in_flight, 0);
}

#[test]
fn keys_belong_to_a_live_window() {
    let mut app = app();
    app.attach = Some(window("seed"));
    let sent = send(&mut app, any_key(), true, AttachInput::Forward(b"s".to_vec()));
    assert!(matches!(&sent[..], [Effect::Forward(bytes)] if bytes == b"s"));
    assert_eq!(app.view_mode, ViewMode::Normal, "the key did not reach what is behind");

    assert!(send(&mut app, any_key(), true, AttachInput::Ignored).is_empty());
    let left = send(&mut app, any_key(), true, AttachInput::Detach);
    assert!(matches!(left[..], [Effect::EndSession]));
    assert!(app.attach.is_none());
}

#[test]
fn any_key_dismisses_a_window_whose_process_is_gone() {
    let mut app = app();
    app.attach = Some(window("seed"));
    let over = send(&mut app, AppEvent::Attach(AttachEvent::Ended), true, AttachInput::Ignored);
    assert!(matches!(over[..], [Effect::EndSession]));
    assert!(app.attach.as_ref().unwrap().ended, "what it said last stays up");
    assert!(send(&mut app, any_key(), false, AttachInput::Ignored).is_empty());
    assert!(app.attach.is_none());
    send(&mut app, any_key(), false, AttachInput::Ignored);
    assert_eq!(app.view_mode, ViewMode::Services, "the next key is the interface's");
}

#[test]
fn output_is_read_and_a_late_word_of_a_session_is_ignored() {
    let mut app = app();
    app.attach = Some(window("seed"));
    let output = || AppEvent::Attach(AttachEvent::Output);
    assert!(matches!(send(&mut app, output(), true, AttachInput::Ignored)[..], [Effect::ReadGrid]));
    assert!(send(&mut app, output(), false, AttachInput::Ignored).is_empty());
    note_grid(
        &mut app,
        Some(Grid { cols: 1, rows: 1, cells: Vec::new(), cursor: (0, 0), cursor_visible: true }),
    );
    assert!(app.attach.unwrap().grid.is_some());
}

#[test]
fn a_click_on_a_window_goes_nowhere() {
    let mut app = app();
    app.attach = Some(window("seed"));
    let click = |column: u16, row: u16| {
        AppEvent::Mouse(MouseEvent { kind: MouseEventKind::ScrollUp, column, row }, 0)
    };
    send(&mut app, click(50, 20), true, AttachInput::Ignored);
    assert_eq!(app.pending_scroll.rows, 0);
    send(&mut app, click(2, 2), true, AttachInput::Ignored);
    assert_ne!(app.pending_scroll.rows, 0, "beside the window it is the log's");
}

#[test]
fn a_window_follows_the_screen_it_is_on() {
    let mut app = app();
    app.attach = Some(window("seed"));
    assert!(send(&mut app, AppEvent::Resize, true, AttachInput::Ignored).is_empty());
    let small = Rect { x: 0, y: 0, width: 40, height: 20 };
    let asked = dispatch_event(
        AppEvent::Resize,
        &mut app,
        &stores(),
        true,
        AttachInput::Ignored,
        small,
        TuiMode::Remote,
    );
    assert!(matches!(asked[..], [Effect::ResizeProcess { cols: 38, rows: 18 }]));
    let fitted = app.attach.as_ref().unwrap().window;
    assert_eq!(fitted, WindowRect { x: 0, y: 0, width: 40, height: 20 });
    assert_eq!(fitted.fitted(small), fitted, "fitting again changes nothing");
    assert_eq!(fitted.grid_size(), (38, 18));
    assert_eq!(fitted.to_rect(), small);
}

#[test]
fn what_asks_for_a_window_gets_one_in_the_middle() {
    let mut app = app();
    assert!(drains_input(&app));
    app.bridge_request = Some("seed".to_string());
    assert!(!drains_input(&app), "the window opens before the next key");
    let asked = settle_attach(&mut app, false, SCREEN);
    assert_eq!(app.bridge_request, None);
    match &asked[..] {
        [Effect::StartSession { name, window, cols, rows }] => {
            assert_eq!(name, "seed");
            assert_eq!(*window, WindowRect { x: 10, y: 5, width: 80, height: 40 });
            assert_eq!((*cols, *rows), (78, 38));
            note_attached(&mut app, name.clone(), *window);
        }
        other => panic!("asked for {other:?}"),
    }
    app.attach_dismiss_requested = true;
    assert!(matches!(settle_attach(&mut app, true, SCREEN)[..], [Effect::EndSession]));
    assert!(app.attach.is_none() && !app.attach_dismiss_requested);
    assert!(settle_attach(&mut app, false, SCREEN).is_empty());
    app.exit_requested = true;
    assert!(!drains_input(&app));
}

#[test]
fn a_window_that_cannot_open_says_so() {
    let mut app = app();
    app.attach_opened_automatically = true;
    assert_eq!(
        note_attach_failed(&mut app, "seed", "not running"),
        "attach 'seed' failed: not running"
    );
    assert!(!app.attach_opened_automatically);
    assert_eq!(TuiError::Io("gone".to_string()).message(), "terminal io error: gone");
}
