//! Which handler an event goes to.
use crate::app::{App, ViewMode};
use crate::client::{CompletionError, ProcessStatus, StateSnapshot};
use crate::counts::counts_all;
use crate::effects::{effects, no_effects, nothing, Effect, EffectView};
use crate::filter::FilterFocus;
use crate::form::{field_named, CandidateState, Field, FormState};
use crate::form_input::{form_key_acts, handle_form_key};
use crate::input::{
    failure_key_acts, filter_key_acts, handle_failure_summary_key, handle_filter_key,
    handle_services_key, handle_tasks_key, services_key_acts, tasks_key_acts, TuiMode,
};
use crate::keys::{AppEvent, KeyCode, KeyEvent};
use crate::log_store::{LogStore, StoredLogLine};
use crate::logs::PendingScroll;
use crate::normal_input::{handle_normal_key, log_key_acts};
use crate::panels::{
    at_logs, nudge_panel, nudged_panel, open_filter_panel, open_services_panel, open_tasks_panel,
    opens_filter, opens_services, opens_tasks, return_to_logs, RESIZE_STEP_COLUMNS,
    RESIZE_STEP_ROWS,
};
use crate::panes::{Focus, PaneSide};
use crate::pointer::{handle_mouse, mouse_acts};
use crate::status_table::after_table_key;
use vstd::prelude::*;

verus! {

/// What Ctrl+C asks for: a shutdown, forced the second time, and where the
/// runner shares the process an interrupt with it.
pub open spec fn shutdown_effects(app: App, mode: TuiMode) -> Seq<EffectView> {
    let ask = EffectView::Shutdown { force: app.shutdown_started };
    match mode {
        TuiMode::InProcess => seq![ask, EffectView::Interrupt],
        TuiMode::Remote => seq![ask],
    }
}

fn ask_shutdown(app: &App, mode: TuiMode) -> (r: Vec<Effect>)
    ensures
        effects(r@) == shutdown_effects(*app, mode),
{
    let mut out: Vec<Effect> = Vec::new();
    out.push(Effect::Shutdown { force: app.shutdown_started });
    match mode {
        TuiMode::InProcess => out.push(Effect::Interrupt),
        TuiMode::Remote => {},
    }
    assert(effects(out@) =~= shutdown_effects(*app, mode));
    out
}

/// How far Control and an arrow move the divider: in the arrow's own
/// direction, along the axis the panel is docked on.
pub open spec fn nudge_of(code: KeyCode, side: PaneSide) -> Option<int> {
    match (code, side) {
        (KeyCode::Left, PaneSide::Right) => Some(RESIZE_STEP_COLUMNS as int),
        (KeyCode::Right, PaneSide::Right) => Some(-RESIZE_STEP_COLUMNS),
        (KeyCode::Up, PaneSide::Bottom) => Some(RESIZE_STEP_ROWS as int),
        (KeyCode::Down, PaneSide::Bottom) => Some(-RESIZE_STEP_ROWS),
        _ => None,
    }
}

fn nudge_for(code: KeyCode, side: PaneSide) -> (r: Option<i16>)
    ensures
        match r {
            Some(delta) => nudge_of(code, side) == Some(delta as int),
            None => nudge_of(code, side) is None,
        },
{
    match (code, side) {
        (KeyCode::Left, PaneSide::Right) => Some(RESIZE_STEP_COLUMNS),
        (KeyCode::Right, PaneSide::Right) => Some(-RESIZE_STEP_COLUMNS),
        (KeyCode::Up, PaneSide::Bottom) => Some(RESIZE_STEP_ROWS),
        (KeyCode::Down, PaneSide::Bottom) => Some(-RESIZE_STEP_ROWS),
        _ => None,
    }
}

/// Whether `new` is `old` with the other record in front.
pub open spec fn swaps(old: App, new: App) -> bool {
    &&& new == old.swapped(new.log_visible_rows, new.log_row_sources)
    &&& new.log_visible_rows@.len() == 0
    &&& new.log_row_sources@.len() == 0
}

/// Whether `new` is `old` after a key with Control.
#[verifier::opaque]
pub open spec fn control_key_acts(
    old: App,
    new: App,
    code: KeyCode,
    mode: TuiMode,
    fx: Seq<EffectView>,
) -> bool {
    match code {
        KeyCode::Char(c) => if c == 'c' {
            new == old && fx == shutdown_effects(old, mode)
        } else {
            &&& fx == no_effects()
            &&& if c == 'd' && mode == TuiMode::Remote {
                new == (App { exit_requested: true, ..old })
            } else if c == 'l' {
                new == (App { repaint_requested: true, ..old })
            } else if c == 'v' || c == 'V' {
                swaps(old, new)
            } else {
                new == old
            }
        },
        KeyCode::Enter => if old.view_mode == ViewMode::Form && !old.shutdown_started {
            form_key_acts(old, new, (KeyEvent { code, control: true }), fx)
        } else {
            new == old && fx == no_effects()
        },
        _ => {
            &&& fx == no_effects()
            &&& match nudge_of(code, old.panel.side) {
                Some(delta) => if old.shows_panel() {
                    new == nudged_panel(old, delta)
                } else {
                    new == old
                },
                None => new == old,
            }
        },
    }
}

fn control_key(code: KeyCode, app: &mut App, mode: TuiMode) -> (r: Vec<Effect>)
    ensures
        control_key_acts(*old(app), *final(app), code, mode, effects(r@)),
{
    reveal(control_key_acts);
    match code {
        KeyCode::Char(c) => {
            if c == 'c' {
                return ask_shutdown(app, mode);
            }
            if c == 'd' && mode == TuiMode::Remote {
                app.exit_requested = true;
            } else if c == 'l' {
                app.repaint_requested = true;
            } else if c == 'v' || c == 'V' {
                app.swap_log_view();
            }
            nothing()
        },
        KeyCode::Enter => {
            if app.view_mode == ViewMode::Form && !app.shutdown_started {
                handle_form_key(KeyEvent { code, control: true }, app)
            } else {
                nothing()
            }
        },
        _ => {
            if app.panel_open() {
                if let Some(delta) = nudge_for(code, app.panel.side) {
                    nudge_panel(app, delta);
                }
            }
            nothing()
        },
    }
}

/// Whether letters go into a query.
pub open spec fn is_typing(app: App) -> bool {
    match app.view_mode {
        ViewMode::Filter => app.filter@.focus == FilterFocus::Query,
        ViewMode::Services => app.services_table@.filtering,
        ViewMode::Tasks => app.tasks_table@.filtering,
        _ => false,
    }
}

fn typing(app: &App) -> (r: bool)
    ensures
        r == is_typing(*app),
{
    match app.view_mode {
        ViewMode::Filter => app.filter.query_editing(),
        ViewMode::Services => app.services_table.filtering,
        ViewMode::Tasks => app.tasks_table.filtering,
        _ => false,
    }
}

/// Whether a key manages the panels.
pub open spec fn is_panel_key(code: KeyCode) -> bool {
    match code {
        KeyCode::Tab => true,
        KeyCode::Char(c) => c == 's' || c == 't' || c == 'f',
        _ => false,
    }
}

/// Whether `new` is `old` after a key that manages panels: Tab hands the keys
/// to the other side, a panel's own letter closes it, another's switches.
#[verifier::opaque]
pub open spec fn panel_key_acts(old: App, new: App, code: KeyCode) -> bool {
    match code {
        KeyCode::Tab => new == (App {
            focus: match old.focus {
                Focus::Logs => Focus::Panel,
                Focus::Panel => Focus::Logs,
            },
            ..old
        }),
        KeyCode::Char(c) => if c == 's' {
            if old.view_mode == ViewMode::Services {
                new == at_logs(old)
            } else {
                opens_services(old, new)
            }
        } else if c == 't' {
            if old.view_mode == ViewMode::Tasks {
                new == at_logs(old)
            } else {
                opens_tasks(old, new)
            }
        } else if c == 'f' {
            if old.view_mode == ViewMode::Filter {
                new == at_logs(old)
            } else {
                opens_filter(old, new)
            }
        } else {
            new == old
        },
        _ => new == old,
    }
}

fn panel_key(code: KeyCode, app: &mut App) -> (r: bool)
    ensures
        r == is_panel_key(code),
        r ==> panel_key_acts(*old(app), *final(app), code),
        !r ==> *final(app) == *old(app),
{
    reveal(panel_key_acts);
    match code {
        KeyCode::Tab => {
            app.focus = match app.focus {
                Focus::Logs => Focus::Panel,
                Focus::Panel => Focus::Logs,
            };
            true
        },
        KeyCode::Char(c) => {
            if c == 's' {
                if app.view_mode == ViewMode::Services {
                    return_to_logs(app);
                } else {
                    open_services_panel(app);
                }
                true
            } else if c == 't' {
                if app.view_mode == ViewMode::Tasks {
                    return_to_logs(app);
                } else {
                    open_tasks_panel(app);
                }
                true
            } else if c == 'f' {
                if app.view_mode == ViewMode::Filter {
                    return_to_logs(app);
                } else {
                    open_filter_panel(app);
                }
                true
            } else {
                false
            }
        },
        _ => false,
    }
}

/// Whether `new` is `old` after a key given to the view that has the screen.
#[verifier::opaque]
pub open spec fn view_key_acts(
    old: App,
    new: App,
    key: KeyEvent,
    entries: Seq<StoredLogLine>,
    fx: Seq<EffectView>,
) -> bool {
    match old.view_mode {
        ViewMode::Normal => log_key_acts(old, new, key, entries, fx),
        ViewMode::Filter => filter_key_acts(old, new, key.code) && fx == no_effects(),
        ViewMode::Tasks => tasks_key_acts(old, new, key.code, fx),
        ViewMode::Services => services_key_acts(old, new, key.code, fx),
        ViewMode::Failures => failure_key_acts(old, new, key.code) && fx == no_effects(),
        ViewMode::Form => form_key_acts(old, new, key, fx),
    }
}

fn view_key(key: KeyEvent, app: &mut App, store: &LogStore) -> (r: Vec<Effect>)
    ensures
        view_key_acts(*old(app), *final(app), key, store@, effects(r@)),
{
    reveal(view_key_acts);
    match app.view_mode {
        ViewMode::Normal => handle_normal_key(key, app, store),
        ViewMode::Filter => {
            handle_filter_key(key, app);
            nothing()
        },
        ViewMode::Tasks => handle_tasks_key(key, app),
        ViewMode::Services => handle_services_key(key, app),
        ViewMode::Failures => {
            handle_failure_summary_key(key, app);
            nothing()
        },
        ViewMode::Form => handle_form_key(key, app),
    }
}

/// Whether `new` is `old` after a key.
pub open spec fn key_acts(
    old: App,
    new: App,
    key: KeyEvent,
    mode: TuiMode,
    entries: Seq<StoredLogLine>,
    fx: Seq<EffectView>,
) -> bool {
    if key.control {
        control_key_acts(old, new, key.code, mode, fx)
    } else if old.shutdown_started {
        new == old && fx == no_effects()
    } else if old.shows_panel() && !is_typing(old) && is_panel_key(key.code) {
        panel_key_acts(old, new, key.code) && fx == no_effects()
    } else if old.shows_panel() && old.focus == Focus::Logs {
        log_key_acts(old, new, key, entries, fx)
    } else {
        view_key_acts(old, new, key, entries, fx)
    }
}

/// Acts on a key.
pub fn handle_key(key: KeyEvent, app: &mut App, store: &LogStore, mode: TuiMode) -> (r: Vec<Effect>)
    ensures
        key_acts(*old(app), *final(app), key, mode, store@, effects(r@)),
{
    if key.control {
        return control_key(key.code, app, mode);
    }
    if app.shutdown_started {
        return nothing();
    }
    if app.panel_open() && !typing(app) {
        if panel_key(key.code, app) {
            return nothing();
        }
    }
    if app.panel_open() && app.focus == Focus::Logs {
        return handle_normal_key(key, app, store);
    }
    view_key(key, app, store)
}

/// During shutdown no key without Control does anything.
pub proof fn shutdown_takes_the_keys(
    old: App,
    new: App,
    key: KeyEvent,
    mode: TuiMode,
    entries: Seq<StoredLogLine>,
    fx: Seq<EffectView>,
)
    requires
        old.shutdown_started,
        !key.control,
        key_acts(old, new, key, mode, entries, fx),
    ensures
        new == old,
        fx == no_effects(),
{
}

/// Sharing a process with the runner and being attached to it differ in two
/// keys: Ctrl+C and Ctrl+D.
pub proof fn the_modes_differ_in_two_keys(
    old: App,
    new: App,
    key: KeyEvent,
    entries: Seq<StoredLogLine>,
    fx: Seq<EffectView>,
)
    requires
        !(key.control && (key.code == KeyCode::Char('c') || key.code == KeyCode::Char('d'))),
    ensures
        key_acts(old, new, key, TuiMode::InProcess, entries, fx) <==> key_acts(
            old,
            new,
            key,
            TuiMode::Remote,
            entries,
            fx,
        ),
{
    reveal(control_key_acts);
}

/// A panel's own letter closes what it opened: the plain log is back, and has
/// the keys.
#[verifier::spinoff_prover]
#[verifier::rlimit(80)]
pub proof fn a_panel_letter_is_a_toggle(
    old: App,
    opened: App,
    closed: App,
    c: char,
    mode: TuiMode,
    entries: Seq<StoredLogLine>,
    first: Seq<EffectView>,
    second: Seq<EffectView>,
)
    requires
        c == 's' || c == 't' || c == 'f',
        old.view_mode == ViewMode::Normal,
        !old.shutdown_started,
        key_acts(
            old,
            opened,
            (KeyEvent { code: KeyCode::Char(c), control: false }),
            mode,
            entries,
            first,
        ),
        key_acts(
            opened,
            closed,
            (KeyEvent { code: KeyCode::Char(c), control: false }),
            mode,
            entries,
            second,
        ),
    ensures
        closed.view_mode == ViewMode::Normal,
        closed.focus == Focus::Logs,
        closed == at_logs(opened),
{
    let opens = if c == 's' {
        ViewMode::Services
    } else if c == 't' {
        ViewMode::Tasks
    } else {
        ViewMode::Filter
    };
    assert(opened.view_mode == opens && !opened.shutdown_started && !is_typing(opened)) by {
        reveal(view_key_acts);
        reveal(crate::normal_input::log_letter_acts);
    }
    assert(panel_key_acts(opened, closed, KeyCode::Char(c)));
    assert(closed == at_logs(opened)) by {
        reveal(panel_key_acts);
    }
}

/// Whether `new` is `old` after an event that is not an attach session's.
#[verifier::opaque]
pub open spec fn event_acts(
    old: App,
    new: App,
    event: AppEvent,
    mode: TuiMode,
    entries: Seq<StoredLogLine>,
    fx: Seq<EffectView>,
) -> bool {
    match event {
        AppEvent::Resize => new == old && fx == no_effects(),
        AppEvent::Key(key) => key_acts(old, new, key, mode, entries, fx),
        AppEvent::Mouse(mouse, at) => mouse_acts(old, new, entries, mouse, at) && fx
            == no_effects(),
        AppEvent::Attach(_) => new == old && fx == no_effects(),
        AppEvent::CompletionsReady { param, request_id, result } => completes(
            old,
            new,
            param@,
            request_id,
            result,
        ) && fx == no_effects(),
        AppEvent::StateResync { processes, .. } => resyncs(old, new, processes@) && fx
            == no_effects(),
    }
}

/// Whether `new` is `old` after a form got the reply to a request.
pub open spec fn completes(
    old: App,
    new: App,
    param: Seq<char>,
    request_id: u64,
    result: Result<Vec<String>, CompletionError>,
) -> bool {
    match old.form {
        None => new == old,
        Some(form) => {
            &&& new == (App { form: new.form, ..old })
            &&& match new.form {
                None => false,
                Some(after) => {
                    let current = form.in_flight@.contains_key(param) && form.in_flight@[param]
                        == request_id;
                    &&& !current ==> after == form
                    &&& current ==> {
                        &&& after == (FormState {
                            fields: after.fields,
                            in_flight: after.in_flight,
                            ..form
                        })
                        &&& after.in_flight@ == form.in_flight@.remove(param)
                        &&& after.fields@ == (match field_named(form.fields@, param) {
                            None => form.fields@,
                            Some(i) => form.fields@.update(
                                i,
                                Field {
                                    candidates: match result {
                                        Ok(values) => CandidateState::Loaded(values),
                                        Err(e) => CandidateState::Failed {
                                            message: e.message,
                                            log_path: e.log_path,
                                        },
                                    },
                                    candidate_highlight: 0,
                                    ..form.fields@[i]
                                },
                            ),
                        })
                    }
                },
            }
        },
    }
}

/// Whether `new` is `old` after a fresh snapshot.
pub open spec fn resyncs(
    old: App,
    new: App,
    processes: Seq<ProcessStatus>,
) -> bool {
    &&& new == (App {
        services_state: new.services_state,
        service_pids: new.service_pids,
        tasks_state: new.tasks_state,
        failed_dependencies: new.failed_dependencies,
        tasks_last_run: new.tasks_last_run,
        counts: new.counts,
        ..old
    })
    &&& new.records() == old.records().absorbing_all(processes)
    &&& counts_all(new.counts, new.services_state@, new.tasks_state@)
}

/// Acts on an event that is not an attach session's.
pub fn handle_app_event(event: AppEvent, app: &mut App, store: &LogStore, mode: TuiMode) -> (r: Vec<
    Effect,
>)
    ensures
        event_acts(*old(app), *final(app), event, mode, store@, effects(r@)),
{
    reveal(event_acts);
    match event {
        AppEvent::Resize => nothing(),
        AppEvent::Key(key) => handle_key(key, app, store, mode),
        AppEvent::Mouse(mouse, at) => {
            handle_mouse(mouse, at, app, store);
            nothing()
        },
        AppEvent::Attach(_) => nothing(),
        AppEvent::CompletionsReady { param, request_id, result } => {
            match &mut app.form {
                Some(form) => form.apply_completions(param.as_str(), request_id, result),
                None => {},
            }
            nothing()
        },
        AppEvent::StateResync { processes, startup_complete } => {
            let snapshot = StateSnapshot { processes, startup_complete };
            app.resync_from(&snapshot);
            nothing()
        },
    }
}

/// With Ctrl, `c` asks the runner to shut down, and to do it at once where it is
/// already shutting down; in the runner's own process the process is interrupted
/// too. `d` leaves an interface that was attached, `l` draws the screen anew and
/// `v` changes to the other log and back.
#[verifier::spinoff_prover]
#[verifier::rlimit(60)]
pub proof fn the_control_keys_do_what_they_stand_for(
    old: App,
    new: App,
    code: KeyCode,
    mode: TuiMode,
    entries: Seq<StoredLogLine>,
    fx: Seq<EffectView>,
)
    requires
        key_acts(old, new, (KeyEvent { code, control: true }), mode, entries, fx),
    ensures
        code == KeyCode::Char('c') ==> {
            &&& fx.len() > 0
            &&& fx[0] == (EffectView::Shutdown { force: old.shutdown_started })
            &&& mode == TuiMode::InProcess ==> fx.len() == 2 && fx[1] is Interrupt
            &&& mode == TuiMode::Remote ==> fx.len() == 1
            &&& new == old
        },
        code == KeyCode::Char('d') ==> {
            &&& mode == TuiMode::Remote ==> new.exit_requested
            &&& mode == TuiMode::InProcess ==> new == old
            &&& fx.len() == 0
        },
        code == KeyCode::Char('l') ==> new.repaint_requested && fx.len() == 0,
        code == KeyCode::Char('v') || code == KeyCode::Char('V') ==> {
            &&& new.debug_view == !old.debug_view
            &&& new.log_selection.anchor is None
            &&& new.pending_scroll == (PendingScroll {
                rows: 0,
                pages: 0,
                to_top: false,
                pin: false,
            })
            &&& new.log_scroll == old.stashed_view.scroll
            &&& new.stashed_view.scroll == old.log_scroll
            &&& new.view_index == old.stashed_view.index
            &&& new.stashed_view.index == old.view_index
            &&& fx.len() == 0
        },
        code != KeyCode::Char('d') ==> new.exit_requested == old.exit_requested || code
            == KeyCode::Enter,
{
    reveal(control_key_acts);
}

/// With Ctrl, the arrows move the edge of an open panel the way they point: at
/// the right of the log Left widens it and Right narrows it by four columns, and
/// below the log Up and Down do so by two rows. Where no panel is open they do
/// nothing.
#[verifier::spinoff_prover]
#[verifier::rlimit(60)]
pub proof fn the_arrows_move_the_panels_edge(
    old: App,
    new: App,
    code: KeyCode,
    mode: TuiMode,
    entries: Seq<StoredLogLine>,
    fx: Seq<EffectView>,
)
    requires
        key_acts(old, new, (KeyEvent { code, control: true }), mode, entries, fx),
        5 <= old.panel.extent <= 60000,
        code == KeyCode::Left || code == KeyCode::Right || code == KeyCode::Up || code
            == KeyCode::Down,
    ensures
        fx.len() == 0,
        !old.shows_panel() ==> new == old,
        new.panel.side == old.panel.side,
        old.shows_panel() && old.panel.side == PaneSide::Right ==> {
            &&& code == KeyCode::Left ==> new.panel.extent == old.panel.extent + 4
            &&& code == KeyCode::Right ==> new.panel.extent == old.panel.extent - 4
            &&& code == KeyCode::Up || code == KeyCode::Down ==> new.panel.extent
                == old.panel.extent
        },
        old.shows_panel() && old.panel.side == PaneSide::Bottom ==> {
            &&& code == KeyCode::Up ==> new.panel.extent == old.panel.extent + 2
            &&& code == KeyCode::Down ==> new.panel.extent == old.panel.extent - 2
            &&& code == KeyCode::Left || code == KeyCode::Right ==> new.panel.extent
                == old.panel.extent
        },
{
    reveal(control_key_acts);
}

/// While a panel is open and nothing is typed into it, Tab takes the keys to the
/// other pane, and a panel's own letter closes it while another panel's letter
/// goes over to that one.
#[verifier::spinoff_prover]
#[verifier::rlimit(80)]
pub proof fn an_open_panel_answers_the_panel_keys(
    old: App,
    new: App,
    code: KeyCode,
    mode: TuiMode,
    entries: Seq<StoredLogLine>,
    fx: Seq<EffectView>,
)
    requires
        key_acts(old, new, (KeyEvent { code, control: false }), mode, entries, fx),
        !old.shutdown_started,
        old.view_mode == ViewMode::Filter && old.filter@.focus == FilterFocus::List
            || old.view_mode == ViewMode::Services && !old.services_table@.filtering || old.view_mode
            == ViewMode::Tasks && !old.tasks_table@.filtering,
        code == KeyCode::Tab || code == KeyCode::Char('s') || code == KeyCode::Char('t') || code
            == KeyCode::Char('f'),
    ensures
        fx.len() == 0,
        code == KeyCode::Tab ==> new.view_mode == old.view_mode && new.focus != old.focus,
        code == KeyCode::Char('s') ==> new.view_mode == (if old.view_mode == ViewMode::Services {
            ViewMode::Normal
        } else {
            ViewMode::Services
        }),
        code == KeyCode::Char('t') ==> new.view_mode == (if old.view_mode == ViewMode::Tasks {
            ViewMode::Normal
        } else {
            ViewMode::Tasks
        }),
        code == KeyCode::Char('f') ==> new.view_mode == (if old.view_mode == ViewMode::Filter {
            ViewMode::Normal
        } else {
            ViewMode::Filter
        }),
{
    reveal(panel_key_acts);
}

/// What is typed into a panel's filter stays there: its letters open and close
/// nothing.
#[verifier::spinoff_prover]
#[verifier::rlimit(80)]
pub proof fn typing_opens_nothing(
    old: App,
    new: App,
    c: char,
    mode: TuiMode,
    entries: Seq<StoredLogLine>,
    fx: Seq<EffectView>,
)
    requires
        key_acts(
            old,
            new,
            (KeyEvent { code: KeyCode::Char(c), control: false }),
            mode,
            entries,
            fx,
        ),
        !old.shutdown_started,
        old.view_mode == ViewMode::Filter && old.filter@.focus == FilterFocus::Query
            || old.view_mode == ViewMode::Services && old.services_table@.filtering || old.view_mode
            == ViewMode::Tasks && old.tasks_table@.filtering,
        old.focus == Focus::Panel,
        old.filter_narrowed_from is None,
    ensures
        new.view_mode == old.view_mode,
        new.focus == old.focus,
        fx.len() == 0,
        old.view_mode == ViewMode::Filter ==> new.filter@.query == old.filter@.query.push(c),
        old.view_mode == ViewMode::Services ==> new.services_table@.query
            == old.services_table@.query.push(c),
        old.view_mode == ViewMode::Tasks ==> new.tasks_table@.query == old.tasks_table@.query.push(
            c,
        ),
{
    reveal(view_key_acts);
    reveal(after_table_key);
}

/// The keys go to the log while it has the focus, and to the view that is open
/// otherwise.
#[verifier::spinoff_prover]
#[verifier::rlimit(60)]
pub proof fn the_keys_go_where_the_focus_is(
    old: App,
    new: App,
    key: KeyEvent,
    mode: TuiMode,
    entries: Seq<StoredLogLine>,
    fx: Seq<EffectView>,
)
    requires
        key_acts(old, new, key, mode, entries, fx),
        !key.control,
        !old.shutdown_started,
    ensures
        old.view_mode == ViewMode::Normal ==> log_key_acts(old, new, key, entries, fx),
        old.shows_panel() && old.focus == Focus::Logs && (is_typing(old) || (key.code
            != KeyCode::Tab && key.code != KeyCode::Char('s') && key.code != KeyCode::Char('t')
            && key.code != KeyCode::Char('f'))) ==> log_key_acts(old, new, key, entries, fx),
        old.view_mode == ViewMode::Failures ==> failure_key_acts(old, new, key.code) && fx.len()
            == 0,
        old.view_mode == ViewMode::Form ==> form_key_acts(old, new, key, fx),
        old.shows_panel() && old.focus == Focus::Panel && (key.code == KeyCode::Up || key.code
            == KeyCode::Down || key.code == KeyCode::Enter || key.code == KeyCode::Esc) ==> {
            &&& old.view_mode == ViewMode::Filter ==> filter_key_acts(old, new, key.code)
            &&& old.view_mode == ViewMode::Services ==> services_key_acts(old, new, key.code, fx)
            &&& old.view_mode == ViewMode::Tasks ==> tasks_key_acts(old, new, key.code, fx)
        },
{
    reveal(view_key_acts);
}

/// A reply about a parameter's candidates is taken by the form that waits for
/// it: what came is offered, or why nothing came is told. A reply that nobody
/// waits for changes nothing.
#[verifier::spinoff_prover]
pub proof fn a_reply_is_taken_by_the_form_that_waits(
    old: App,
    new: App,
    param: Seq<char>,
    request_id: u64,
    result: Result<Vec<String>, CompletionError>,
    i: int,
)
    requires
        completes(old, new, param, request_id, result),
        old.form is Some,
        field_named(old.form->0.fields@, param) == Some(i),
        0 <= i < old.form->0.fields@.len(),
    ensures
        old.form->0.awaits(param, request_id) ==> (new.form matches Some(after) && {
            &&& !after.awaits(param, request_id)
            &&& after.fields@.len() == old.form->0.fields@.len()
            &&& after.fields@[i].value == old.form->0.fields@[i].value
            &&& after.fields@[i].candidate_highlight == 0
            &&& result matches Ok(values) ==> after.fields@[i].candidates
                == CandidateState::Loaded(values)
            &&& result matches Err(error) ==> after.fields@[i].candidates is Failed
        }),
        !old.form->0.awaits(param, request_id) ==> new.form == old.form,
        new.view_mode == old.view_mode,
{
}

/// Every event goes to what handles it: a key to the keys, the mouse to the
/// mouse, a reply to the form that asked, and a fresh snapshot into what is
/// known. A resize changes nothing by itself.
#[verifier::spinoff_prover]
pub proof fn an_event_goes_to_what_handles_it(
    old: App,
    new: App,
    event: AppEvent,
    mode: TuiMode,
    entries: Seq<StoredLogLine>,
    fx: Seq<EffectView>,
)
    requires
        event_acts(old, new, event, mode, entries, fx),
    ensures
        event matches AppEvent::Key(key) ==> key_acts(old, new, key, mode, entries, fx),
        event matches AppEvent::Mouse(mouse, at) ==> mouse_acts(old, new, entries, mouse, at)
            && fx.len() == 0,
        event matches AppEvent::CompletionsReady { param, request_id, result } ==> completes(
            old,
            new,
            param@,
            request_id,
            result,
        ) && fx.len() == 0,
        event matches AppEvent::StateResync { processes, startup_complete } ==> new.records()
            == old.records().absorbing_all(processes@) && counts_all(
            new.counts,
            new.services_state@,
            new.tasks_state@,
        ) && new.filter == old.filter && fx.len() == 0,
        event is Resize ==> new == old && fx.len() == 0,
{
    reveal(event_acts);
}

} // verus!
