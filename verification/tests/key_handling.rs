use don::app::{App, AppInit, ViewMode};
use don::client::{CompletionError, ServiceState, TaskState};
use don::commands::{
    dispatch, dispatch_run_task, highlighted_service_item, highlighted_service_restart_command,
    highlighted_task_item, open_form_for_task, service_total, task_total, try_submit_form,
};
use don::config::{Completions, ParamKind, ParamValidate, Task, TaskParam};
use don::dispatch::{handle_app_event, handle_key};
use don::effects::{ControlAction, Effect};
use don::form::CandidateState;
use don::form_input::handle_form_key;
use don::input::{
    handle_failure_summary_key, handle_filter_key, handle_services_key, handle_tasks_key, TuiMode,
};
use don::keys::{AppEvent, KeyCode, KeyEvent};
use don::log_store::LogStore;
use don::names::{NameMap, NameSet};
use don::panels::{
    fit_panel_to_terminal, nudge_panel, open_filter_panel, open_services_panel, open_tasks_panel,
    over_panel, panel_step, return_to_logs,
};
use don::panes::{extent_from_drag, inner, layout, Focus, PaneSide, Panel, Rect};
use don::pointer::click_count;

fn param(name: &str, kind: ParamKind) -> TaskParam {
    TaskParam {
        name: name.to_string(),
        prompt: None,
        required: false,
        default: None,
        kind,
        choices: Vec::new(),
        completions: None,
        validate: None,
    }
}

fn app_with_params(params: Vec<TaskParam>) -> App {
    let mut task_configs = NameMap::new();
    task_configs.insert("seed".to_string(), Task { interactive: false, params });
    let mut app = App::new(AppInit {
        service_names: vec!["api".to_string(), "web".to_string()],
        task_names: vec!["seed".to_string()],
        build_tool_names: Vec::new(),
        task_configs,
        task_last_runs: NameMap::new(),
        hidden_names: NameSet::new(),
        auto_filter_on_failure_names: NameSet::new(),
        cli_log_filter: None,
    });
    app.apply_service_runtime("api".to_string(), ServiceState::Ready, Some(7), Vec::new());
    app.apply_service_runtime("web".to_string(), ServiceState::Stopped, None, Vec::new());
    app.apply_task_state("seed".to_string(), TaskState::PendingRun, None, Vec::new());
    app
}

fn press(code: KeyCode) -> KeyEvent {
    KeyEvent::plain(code)
}

fn letter(c: char) -> KeyEvent {
    KeyEvent::plain(KeyCode::Char(c))
}

fn type_into(app: &mut App, text: &str) {
    for c in text.chars() {
        assert!(handle_form_key(letter(c), app).is_empty());
    }
}

fn value(app: &App, at: usize) -> String {
    app.form.as_ref().unwrap().fields[at].value.clone()
}

#[test]
fn a_number_takes_digits_and_a_sign_and_steps_within_its_bounds() {
    let mut count = param("count", ParamKind::Int);
    count.validate = Some(ParamValidate { min: Some(-2), max: Some(12) });
    let mut app = app_with_params(vec![count]);
    assert!(open_form_for_task(&mut app, "seed").is_empty());
    type_into(&mut app, "-1x-2 ");
    assert_eq!(value(&app, 0), "-12");
    handle_form_key(press(KeyCode::Backspace), &mut app);
    assert_eq!(value(&app, 0), "-1");
    handle_form_key(press(KeyCode::Down), &mut app);
    handle_form_key(press(KeyCode::Down), &mut app);
    assert_eq!(value(&app, 0), "-2", "no further than the lower bound");
}

#[test]
fn a_form_submits_from_its_last_field() {
    let mut app = app_with_params(vec![
        param("name", ParamKind::Text),
        param("force", ParamKind::Bool),
    ]);
    open_form_for_task(&mut app, "seed");
    assert_eq!(app.view_mode, ViewMode::Form);
    type_into(&mut app, "ab");
    assert!(handle_form_key(press(KeyCode::Enter), &mut app).is_empty());
    assert_eq!(app.form.as_ref().unwrap().focus, 1);
    type_into(&mut app, " ");
    let sent = handle_form_key(KeyEvent::with_control(KeyCode::Enter), &mut app);
    match &sent[..] {
        [Effect::RunTask { name, params }] => {
            assert_eq!(name, "seed");
            assert_eq!(params.get("name").map(|s| s.as_str()), Some("ab"));
            assert_eq!(params.get("force").map(|s| s.as_str()), Some("true"));
        }
        other => panic!("sent {other:?}"),
    }
    assert!(app.form.is_none());
}

#[test]
fn a_required_answer_is_asked_for() {
    let mut name = param("name", ParamKind::Text);
    name.required = true;
    let mut app = app_with_params(vec![name]);
    open_form_for_task(&mut app, "seed");
    assert!(try_submit_form(&mut app).is_empty());
    assert!(app.form.as_ref().unwrap().submit_error.is_some(), "it says what is missing");
    handle_form_key(press(KeyCode::Esc), &mut app);
    assert!(app.form.is_none());
    assert_eq!((app.view_mode, app.focus), (ViewMode::Tasks, Focus::Panel));
}

#[test]
fn candidates_are_fetched_on_opening_and_only_the_last_reply_counts() {
    let mut name = param("name", ParamKind::Text);
    name.completions = Some(Completions { cmd: "ls".to_string(), args: Vec::new() });
    let mut app = app_with_params(vec![name]);
    let store = LogStore::with_capacity(4);
    let asked = open_form_for_task(&mut app, "seed");
    let first = match &asked[..] {
        [Effect::ResolveCompletions { task, param, force_refresh: false, request_id, .. }] => {
            assert_eq!((task.as_str(), param.as_str()), ("seed", "name"));
            *request_id
        }
        other => panic!("asked {other:?}"),
    };
    let again = handle_form_key(press(KeyCode::Tab), &mut app);
    let second = match &again[..] {
        [Effect::ResolveCompletions { force_refresh: true, request_id, .. }] => *request_id,
        other => panic!("asked {other:?}"),
    };
    assert_ne!(first, second);
    let reply = |request_id: u64, names: &[&str]| AppEvent::CompletionsReady {
        param: "name".to_string(),
        request_id,
        result: Ok(names.iter().map(|n| n.to_string()).collect()),
    };
    handle_app_event(reply(first, &["old"]), &mut app, &store, TuiMode::Remote);
    assert!(matches!(app.form.as_ref().unwrap().fields[0].candidates, CandidateState::Loading));
    handle_app_event(reply(second, &["one", "two"]), &mut app, &store, TuiMode::Remote);
    assert_eq!(app.form.as_ref().unwrap().fields[0].candidates.list(), ["one", "two"]);
    let failed = AppEvent::CompletionsReady {
        param: "name".to_string(),
        request_id: second,
        result: Err(CompletionError { message: "no such file".to_string(), log_path: None }),
    };
    handle_app_event(failed, &mut app, &store, TuiMode::Remote);
}

#[test]
fn a_service_is_started_or_stopped_by_its_row() {
    let mut app = app_with_params(Vec::new());
    open_services_panel(&mut app);
    assert_eq!((service_total(&app), task_total(&app)), (2, 1));
    let item = highlighted_service_item(&app).unwrap();
    assert_eq!(item.name(), "api");
    let stop = handle_services_key(press(KeyCode::Enter), &mut app);
    assert!(matches!(&stop[..], [Effect::Control(c)]
        if c.name == "api" && c.action == ControlAction::Stop));
    let again = highlighted_service_restart_command(&app).unwrap();
    assert_eq!((again.name.as_str(), again.action), ("api", ControlAction::Restart));
    assert_eq!(again.action.label(), "restart");
    panel_step(&mut app, 1);
    assert_eq!(highlighted_service_item(&app).unwrap().name(), "web");
    let start = handle_services_key(press(KeyCode::Enter), &mut app);
    assert!(matches!(&start[..], [Effect::Control(c)]
        if c.name == "web" && c.action == ControlAction::Start));
    assert!(dispatch(None).is_empty());
}

#[test]
fn a_task_without_parameters_runs_at_once() {
    let mut app = app_with_params(Vec::new());
    open_tasks_panel(&mut app);
    assert_eq!(highlighted_task_item(&app).unwrap().name(), "seed");
    assert!(highlighted_task_item(&app).unwrap().runnable());
    let run = handle_tasks_key(press(KeyCode::Enter), &mut app);
    assert!(matches!(&run[..], [Effect::RunTask { name, params }]
        if name == "seed" && params.len() == 0));
    app.apply_task_state("seed".to_string(), TaskState::Running, None, Vec::new());
    assert!(handle_tasks_key(press(KeyCode::Enter), &mut app).is_empty(), "it is running");
    handle_tasks_key(letter('a'), &mut app);
    assert_eq!(app.bridge_request.as_deref(), Some("seed"));
    assert!(matches!(&dispatch_run_task("seed".to_string())[..], [Effect::RunTask { .. }]));
}

#[test]
fn the_filter_applies_as_it_is_changed() {
    let mut app = app_with_params(Vec::new());
    open_filter_panel(&mut app);
    handle_filter_key(letter('/'), &mut app);
    handle_filter_key(letter('w'), &mut app);
    handle_filter_key(letter('e'), &mut app);
    handle_filter_key(press(KeyCode::Enter), &mut app);
    assert_eq!(app.filter.active_names(), ["web"]);
    assert_eq!(app.view_mode, ViewMode::Normal, "one match closes the panel");
    open_filter_panel(&mut app);
    handle_filter_key(letter('R'), &mut app);
    handle_filter_key(press(KeyCode::Esc), &mut app);
    assert!(!app.filter.is_active());
}

#[test]
fn the_summary_of_failures_scrolls_and_closes() {
    let mut app = app_with_params(Vec::new());
    assert!(!app.has_failure_summary());
    app.apply_service_runtime(
        "web".to_string(),
        ServiceState::DependencyFailed,
        None,
        vec!["api".to_string()],
    );
    assert!(app.has_failure_summary());
    assert_eq!(app.failure_summary_items().len(), 1);
    app.open_failure_summary();
    handle_failure_summary_key(press(KeyCode::PageDown), &mut app);
    handle_failure_summary_key(letter('k'), &mut app);
    assert_eq!(app.failure_summary_scroll, 9);
    app.sync_failure_summary_scroll(4);
    assert_eq!(app.failure_summary_scroll, 4);
    handle_failure_summary_key(letter('G'), &mut app);
    app.sync_failure_summary_scroll(4);
    assert_eq!(app.failure_summary_scroll, 4);
    handle_failure_summary_key(letter('g'), &mut app);
    assert_eq!(app.failure_summary_scroll, 0);
    handle_failure_summary_key(letter('q'), &mut app);
    assert_eq!(app.view_mode, ViewMode::Normal);
}

#[test]
fn control_c_asks_first_and_forces_next() {
    let store = LogStore::with_capacity(4);
    let quit = KeyEvent::with_control(KeyCode::Char('c'));
    let mut app = app_with_params(Vec::new());
    let first = handle_key(quit, &mut app, &store, TuiMode::Remote);
    assert!(matches!(first[..], [Effect::Shutdown { force: false }]));
    app.begin_shutdown();
    let second = handle_key(quit, &mut app, &store, TuiMode::Remote);
    assert!(matches!(second[..], [Effect::Shutdown { force: true }]));
    assert!(handle_key(letter('s'), &mut app, &store, TuiMode::Remote).is_empty());
    assert_eq!(app.view_mode, ViewMode::Normal, "no panel opens while shutting down");
}

#[test]
fn a_panel_letter_opens_and_closes_its_panel() {
    let store = LogStore::with_capacity(4);
    let mut app = app_with_params(Vec::new());
    for (key, mode) in [('s', ViewMode::Services), ('t', ViewMode::Tasks)] {
        handle_key(letter(key), &mut app, &store, TuiMode::Remote);
        assert_eq!(app.view_mode, mode);
        assert!(app.panel_open());
        handle_key(letter(key), &mut app, &store, TuiMode::Remote);
        assert_eq!(app.view_mode, ViewMode::Normal);
    }
    open_services_panel(&mut app);
    return_to_logs(&mut app);
    assert_eq!((app.view_mode, app.focus), (ViewMode::Normal, Focus::Logs));
}

#[test]
fn the_panes_fill_the_screen_and_answer_to_clicks() {
    let area = Rect { x: 0, y: 0, width: 120, height: 40 };
    let panel = Panel { side: PaneSide::Right, extent: 48 };
    let panes = layout(area, 1, panel, true);
    let status = panes.status.unwrap();
    assert_eq!(status.width, 48);
    assert_eq!(panes.logs.x + panes.logs.width, status.x - 1, "a column divides them");
    assert_eq!(panes.bar, Rect { x: 0, y: 39, width: 120, height: 1 });
    assert_eq!(panes.hit(2, 2), Some(Focus::Logs));
    assert_eq!(panes.hit(status.x + 1, 2), Some(Focus::Panel));
    assert!(panes.on_divider(status.x - 1, 2));
    assert_eq!(extent_from_drag(area, PaneSide::Right, 80, 2), 39);
    assert_eq!(inner(status), Rect { x: status.x + 1, y: 1, width: 46, height: 37 });
}

#[test]
fn nudges_add_up_whatever_is_on_screen() {
    let mut app = app_with_params(Vec::new());
    open_services_panel(&mut app);
    app.panes = layout(Rect { x: 0, y: 0, width: 120, height: 40 }, 1, app.panel, true);
    let before = app.panel.extent;
    nudge_panel(&mut app, 4);
    nudge_panel(&mut app, -1);
    assert_eq!(app.panel.extent, before + 3);
    assert!(app.panel_extent_customized);
    let status = app.panes.status.unwrap();
    assert!(over_panel(&app, status.x, status.y));
    assert!(!over_panel(&app, 0, 0));
    fit_panel_to_terminal(&mut app);
    assert_eq!(app.panel.extent, before + 3, "what the reader chose stays");
}

#[test]
fn the_two_modes_differ_in_two_keys() {
    let store = LogStore::with_capacity(4);
    let control = |c: char| KeyEvent::with_control(KeyCode::Char(c));
    let mut shared = app_with_params(Vec::new());
    let mut attached = app_with_params(Vec::new());
    let sent = handle_key(control('c'), &mut shared, &store, TuiMode::InProcess);
    assert!(matches!(sent[..], [Effect::Shutdown { force: false }, Effect::Interrupt]));
    handle_key(control('d'), &mut shared, &store, TuiMode::InProcess);
    handle_key(control('d'), &mut attached, &store, TuiMode::Remote);
    assert!(!shared.exit_requested && attached.exit_requested);
    for key in [control('v'), control('l'), letter('s')] {
        handle_key(key, &mut shared, &store, TuiMode::InProcess);
        handle_key(key, &mut attached, &store, TuiMode::Remote);
    }
    assert_eq!(shared.view_mode, attached.view_mode);
    assert_eq!(shared.debug_view, attached.debug_view);
    assert_eq!(shared.repaint_requested, attached.repaint_requested);
}

#[test]
fn clicks_in_one_place_count_to_three_and_start_over() {
    let mut app = app_with_params(Vec::new());
    let counts: Vec<u8> =
        [0, 100, 200, 300].iter().map(|at| click_count(&mut app, 4, 4, *at)).collect();
    assert_eq!(counts, [1, 2, 3, 1]);
    assert_eq!(click_count(&mut app, 4, 4, 800), 1, "too long after the last one");
    assert_eq!(click_count(&mut app, 9, 4, 900), 1, "somewhere else");
}

#[test]
fn narrowing_twice_still_widens_to_the_first_selection() {
    let mut app = app_with_params(Vec::new());
    let before = app.filter.active_names();
    assert!(app.narrow_log_to("api"));
    assert_eq!(app.narrowed_to().as_deref(), Some("api"));
    assert!(app.narrow_log_to("web"));
    assert!(!app.narrow_log_to("web"), "it is narrowed to that already");
    assert!(app.widen_log_from_narrow());
    assert_eq!(app.filter.active_names(), before);
    assert!(!app.widen_log_from_narrow());
}
