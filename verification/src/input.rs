//! The keys of the views: the summary of failures, the filter, and the tables of
//! services and tasks.
use crate::app::{
    can_run, describes_task, members, narrowed, selecting, services_rows, tasks_rows, widened, App,
    TaskStatusItem, ViewMode,
};
use crate::client::{ServiceState, TaskState};
use crate::commands::{
    after_task_run, asking, control_effects, dispatch, dispatch_run_task, dynamic_params,
    hard_restart_asked, having_asked_all,
    highlighted_service, highlighted_service_hard_restart_command, highlighted_service_item,
    highlighted_service_restart_command, highlighted_task, highlighted_task_item, is_new_form,
    open_form_for_task, opens_form, overlay_toggle_command, requests_for_all, restart_asked,
    service_total, task_total, toggle_asked, Asking,
};
use crate::config::text_of;
use crate::effects::{effects, no_effects, nothing, ControlAction, Effect, EffectView};
use crate::filter::{shown_names, toggled, FilterFocus, FilterState, FilterView, RowView};
use crate::form::{a_field_is_found_by_its_name, Field};
use crate::keys::{KeyCode, KeyEvent};
use crate::panels::{at_logs, filter_down, filter_up, return_to_logs};
use crate::panes::Focus;
use crate::status_table::{after_table_key, StatusTableKeyOutcome};
use vstd::prelude::*;

verus! {

/// Whether the interface shares a process with the runner or attached to it
/// over a socket.
#[derive(Debug, Clone, Copy, PartialEq, Eq, Structural)]
pub enum TuiMode {
    /// Ctrl+C also interrupts the process, so that a second press still
    /// forces; Ctrl+D has nothing to detach from.
    InProcess,
    /// Ctrl+C only asks the runner; Ctrl+D leaves it running.
    Remote,
}

/// Whether `new` is `old` after a key of the summary of failures.
pub open spec fn failure_key_acts(old: App, new: App, code: KeyCode) -> bool {
    match code {
        KeyCode::Esc => new == (App { failure_summary_scroll: 0, ..at_logs(old) }),
        KeyCode::Up => scrolls_summary(old, new, -1),
        KeyCode::Down => scrolls_summary(old, new, 1),
        KeyCode::PageUp => scrolls_summary(old, new, -10),
        KeyCode::PageDown => scrolls_summary(old, new, 10),
        KeyCode::Home => new == (App { failure_summary_scroll: 0, ..old }),
        KeyCode::End => new == (App { failure_summary_scroll: usize::MAX, ..old }),
        KeyCode::Char(c) => if c == 'q' || c == 'i' {
            new == (App { failure_summary_scroll: 0, ..at_logs(old) })
        } else if c == 'k' {
            scrolls_summary(old, new, -1)
        } else if c == 'j' {
            scrolls_summary(old, new, 1)
        } else if c == 'g' {
            new == (App { failure_summary_scroll: 0, ..old })
        } else if c == 'G' {
            new == (App { failure_summary_scroll: usize::MAX, ..old })
        } else {
            new == old
        },
        _ => new == old,
    }
}

/// Whether `new` is `old` with the summary of failures scrolled.
pub open spec fn scrolls_summary(old: App, new: App, delta: int) -> bool {
    &&& new == (App { failure_summary_scroll: new.failure_summary_scroll, ..old })
    &&& new.failure_summary_scroll as int == crate::app::scrolled_by(
        old.failure_summary_scroll as int,
        delta,
    )
}

/// A key of the summary of failures.
pub fn handle_failure_summary_key(key: KeyEvent, app: &mut App)
    ensures
        failure_key_acts(*old(app), *final(app), key.code),
{
    match key.code {
        KeyCode::Esc => {
            return_to_logs(app);
            app.failure_summary_scroll = 0;
        },
        KeyCode::Up => app.scroll_failure_summary_by(-1),
        KeyCode::Down => app.scroll_failure_summary_by(1),
        KeyCode::PageUp => app.scroll_failure_summary_by(-10),
        KeyCode::PageDown => app.scroll_failure_summary_by(10),
        KeyCode::Home => app.scroll_failure_summary_to_top(),
        KeyCode::End => app.scroll_failure_summary_to_bottom(),
        KeyCode::Char(c) => {
            if c == 'q' || c == 'i' {
                return_to_logs(app);
                app.failure_summary_scroll = 0;
            } else if c == 'k' {
                app.scroll_failure_summary_by(-1);
            } else if c == 'j' {
                app.scroll_failure_summary_by(1);
            } else if c == 'g' {
                app.scroll_failure_summary_to_top();
            } else if c == 'G' {
                app.scroll_failure_summary_to_bottom();
            }
        },
        _ => {},
    }
}

/// The filter after a key typed into its query, and whether the panel closes.
pub open spec fn after_query_key(filter: FilterView, code: KeyCode) -> (FilterView, bool) {
    match code {
        KeyCode::Enter => (
            FilterView {
                active: if filter.query.len() == 0 {
                    filter.names.to_set()
                } else {
                    shown_names(filter.rows())
                },
                focus: FilterFocus::List,
                ..filter
            },
            filter.query.len() > 0 && filter.rows().len() == 1,
        ),
        KeyCode::Tab => (FilterView { focus: FilterFocus::List, ..filter }, false),
        KeyCode::Backspace => (
            if filter.query.len() == 0 {
                filter
            } else {
                (FilterView { query: filter.query.drop_last(), ..filter }).clamped()
            },
            false,
        ),
        KeyCode::Char(c) => (
            (FilterView { query: filter.query.push(c), ..filter }).clamped(),
            false,
        ),
        KeyCode::Esc => (
            FilterView {
                query: Seq::empty(),
                focus: FilterFocus::List,
                highlight: 0,
                ..filter
            },
            false,
        ),
        _ => (filter, false),
    }
}

/// The filter after a key of its list, and whether the panel closes.
pub open spec fn after_list_key(filter: FilterView, code: KeyCode) -> (FilterView, bool) {
    match code {
        KeyCode::Enter | KeyCode::Esc => (filter, true),
        KeyCode::Up => (filter_up(filter), false),
        KeyCode::Down => (filter_down(filter), false),
        KeyCode::Char(c) => if c == 'R' {
            (FilterView { active: filter.defaults, ..filter }, false)
        } else if c == ' ' {
            (FilterView { active: toggled(filter), ..filter }, false)
        } else if c == 'o' {
            (
                FilterView {
                    active: match filter.highlighted() {
                        Some(RowView::Name(name)) => set![name],
                        Some(RowView::All) => filter.names.to_set(),
                        None => Set::empty(),
                    },
                    ..filter
                },
                false,
            )
        } else if c == '/' {
            (FilterView { focus: FilterFocus::Query, ..filter }, false)
        } else if c == 'k' {
            (filter_up(filter), false)
        } else if c == 'j' {
            (filter_down(filter), false)
        } else {
            (filter, false)
        },
        _ => (filter, false),
    }
}

/// Whether `new` is `old` after a key of the filter panel. Every change
/// applies at once, so closing neither commits nor reverts anything.
pub open spec fn filter_key_acts(old: App, new: App, code: KeyCode) -> bool {
    let (filter, closes) = if old.filter@.focus == FilterFocus::Query {
        after_query_key(old.filter@, code)
    } else {
        after_list_key(old.filter@, code)
    };
    &&& new.filter@ == filter
    &&& if closes {
        new == at_logs(App { filter: new.filter, ..old })
    } else {
        new == (App { filter: new.filter, ..old })
    }
}

fn filter_key(code: KeyCode, filter: &mut FilterState) -> (r: bool)
    ensures
        (final(filter)@, r) == (if old(filter)@.focus == FilterFocus::Query {
            after_query_key(old(filter)@, code)
        } else {
            after_list_key(old(filter)@, code)
        }),
{
    if filter.query_editing() {
        match code {
            KeyCode::Enter => {
                let close_after_apply = filter.query_has_single_match();
                filter.apply_query();
                filter.end_query_edit();
                return close_after_apply;
            },
            KeyCode::Tab => filter.end_query_edit(),
            KeyCode::Backspace => filter.pop_query_char(),
            KeyCode::Char(c) => filter.push_query_char(c),
            KeyCode::Esc => filter.clear_query(),
            _ => {},
        }
        return false;
    }
    match code {
        KeyCode::Enter | KeyCode::Esc => {
            return true;
        },
        KeyCode::Up => filter.highlight_prev(),
        KeyCode::Down => filter.highlight_next(),
        KeyCode::Char(c) => {
            if c == 'R' {
                let _changed = filter.reset_to_defaults();
            } else if c == ' ' {
                filter.toggle_highlighted();
            } else if c == 'o' {
                filter.select_only_highlighted();
            } else if c == '/' {
                filter.begin_query_edit();
            } else if c == 'k' {
                filter.highlight_prev();
            } else if c == 'j' {
                filter.highlight_next();
            }
        },
        _ => {},
    }
    false
}

/// A key of the filter panel.
pub fn handle_filter_key(key: KeyEvent, app: &mut App)
    ensures
        filter_key_acts(*old(app), *final(app), key.code),
{
    if filter_key(key.code, &mut app.filter) {
        return_to_logs(app);
    }
}

/// Whether `new` is `old` with the log narrowed to one process, if it can be.
pub open spec fn narrows(old: App, new: App, name: Seq<char>) -> bool {
    &&& new == (App {
        filter: new.filter,
        filter_narrowed_from: new.filter_narrowed_from,
        ..old
    })
    &&& (new.filter@, members(new.filter_narrowed_from)) == narrowed(
        old.filter@,
        members(old.filter_narrowed_from),
        name,
    )
}

/// Whether `new` is `old` with the log wide again.
pub open spec fn widens(old: App, new: App) -> bool {
    &&& new == (App { filter: new.filter, filter_narrowed_from: None, ..old })
    &&& new.filter@ == widened(old.filter@, members(old.filter_narrowed_from)).0
}

/// Whether `new` is `old` with a window asked for on a process.
pub open spec fn bridges(old: App, new: App, name: Seq<char>) -> bool {
    &&& new == (App { bridge_request: new.bridge_request, ..old })
    &&& text_of(new.bridge_request) == Some(name)
}

/// Whether `new` is `old` after a key of a task's row.
#[verifier::opaque]
pub open spec fn task_row_key_acts(
    old: App,
    new: App,
    code: KeyCode,
    fx: Seq<EffectView>,
) -> bool {
    match highlighted_task(old) {
        None => new == old && fx == no_effects(),
        Some(name) => match code {
            KeyCode::Enter => if !can_run(old.tasks_state@[name]) {
                new == old && fx == no_effects()
            } else if old.task_configs@.contains_key(name) && old.task_configs@[name].params@.len()
                > 0 {
                opens_form(old, new, name, fx)
            } else {
                &&& new == (App { filter: new.filter, ..old })
                &&& new.filter@ == selecting(old.filter@, name)
                &&& fx == seq![
                    EffectView::RunTask { name, params: Map::<Seq<char>, Seq<char>>::empty() },
                ]
            },
            KeyCode::Char(c) => if c == 'l' {
                narrows(old, new, name) && fx == no_effects()
            } else if c == 'a' {
                bridges(old, new, name) && fx == no_effects()
            } else {
                new == old && fx == no_effects()
            },
            _ => new == old && fx == no_effects(),
        },
    }
}

fn run_row(item: TaskStatusItem, app: &mut App) -> (r: Vec<Effect>)
    requires
        highlighted_task(*old(app)) == Some(item.name@),
        describes_task(*old(app), item),
    ensures
        task_row_key_acts(*old(app), *final(app), KeyCode::Enter, effects(r@)),
{
    reveal(task_row_key_acts);
    if !item.runnable() {
        return nothing();
    }
    if item.has_params {
        open_form_for_task(app, item.name.as_str())
    } else {
        after_task_run(item.name.as_str(), app);
        dispatch_run_task(item.name)
    }
}

fn task_row_key(key: KeyEvent, app: &mut App) -> (r: Vec<Effect>)
    ensures
        task_row_key_acts(*old(app), *final(app), key.code, effects(r@)),
{
    reveal(task_row_key_acts);
    let item = match highlighted_task_item(app) {
        Some(item) => item,
        None => {
            return nothing();
        },
    };
    match key.code {
        KeyCode::Enter => run_row(item, app),
        KeyCode::Char(c) => {
            if c == 'l' {
                let _changed = app.narrow_log_to(item.name.as_str());
            } else if c == 'a' {
                app.bridge_request = Some(item.name);
            }
            nothing()
        },
        _ => nothing(),
    }
}

/// Whether `new` is `old` after a key of the tasks panel. Esc first undoes a
/// narrowing; then the table has its keys, then the row.
pub open spec fn tasks_key_acts(
    old: App,
    new: App,
    code: KeyCode,
    fx: Seq<EffectView>,
) -> bool {
    if code == KeyCode::Esc && old.filter_narrowed_from is Some {
        widens(old, new) && fx == no_effects()
    } else {
        let (table, outcome) = after_table_key(
            old.tasks_table@,
            code,
            tasks_rows(old).len() as int,
        );
        match outcome {
            StatusTableKeyOutcome::Redraw => {
                &&& new == (App { tasks_table: new.tasks_table, ..old })
                &&& new.tasks_table@ == table
                &&& fx == no_effects()
            },
            StatusTableKeyOutcome::Close => new == at_logs(old) && fx == no_effects(),
            StatusTableKeyOutcome::Ignored => task_row_key_acts(old, new, code, fx),
        }
    }
}

fn tasks_table_key(key: KeyEvent, app: &mut App) -> (r: StatusTableKeyOutcome)
    ensures
        *final(app) == (App { tasks_table: final(app).tasks_table, ..*old(app) }),
        (final(app).tasks_table@, r) == after_table_key(
            old(app).tasks_table@,
            key.code,
            tasks_rows(*old(app)).len() as int,
        ),
        r != StatusTableKeyOutcome::Redraw ==> *final(app) == *old(app),
{
    let total: usize = task_total(app);
    app.tasks_table.handle_key(key, total)
}

/// A key of the tasks panel.
pub fn handle_tasks_key(key: KeyEvent, app: &mut App) -> (r: Vec<Effect>)
    ensures
        tasks_key_acts(*old(app), *final(app), key.code, effects(r@)),
{
    if key.code == KeyCode::Esc && app.filter_narrowed_from.is_some() {
        let _changed = app.widen_log_from_narrow();
        return nothing();
    }
    match tasks_table_key(key, app) {
        StatusTableKeyOutcome::Redraw => nothing(),
        StatusTableKeyOutcome::Close => {
            return_to_logs(app);
            nothing()
        },
        StatusTableKeyOutcome::Ignored => task_row_key(key, app),
    }
}

/// Whether `new` is `old` after a key of a service's row.
#[verifier::opaque]
pub open spec fn service_row_key_acts(
    old: App,
    new: App,
    code: KeyCode,
    fx: Seq<EffectView>,
) -> bool {
    match code {
        KeyCode::Enter => new == old && fx == control_effects(toggle_asked(old)),
        KeyCode::Char(c) => if c == 'r' {
            new == old && fx == control_effects(restart_asked(old))
        } else if c == 'R' {
            new == old && fx == control_effects(hard_restart_asked(old))
        } else if c == 'l' {
            fx == no_effects() && match highlighted_service(old) {
                Some(name) => narrows(old, new, name),
                None => new == old,
            }
        } else if c == 'a' {
            fx == no_effects() && match highlighted_service(old) {
                Some(name) => bridges(old, new, name),
                None => new == old,
            }
        } else {
            new == old && fx == no_effects()
        },
        _ => new == old && fx == no_effects(),
    }
}

fn service_row_key(key: KeyEvent, app: &mut App) -> (r: Vec<Effect>)
    ensures
        service_row_key_acts(*old(app), *final(app), key.code, effects(r@)),
{
    reveal(service_row_key_acts);
    match key.code {
        KeyCode::Enter => dispatch(overlay_toggle_command(app)),
        KeyCode::Char(c) => {
            if c == 'r' {
                dispatch(highlighted_service_restart_command(app))
            } else if c == 'R' {
                dispatch(highlighted_service_hard_restart_command(app))
            } else if c == 'l' {
                if let Some(item) = highlighted_service_item(app) {
                    let _changed = app.narrow_log_to(item.name.as_str());
                }
                nothing()
            } else if c == 'a' {
                if let Some(item) = highlighted_service_item(app) {
                    app.bridge_request = Some(item.name);
                }
                nothing()
            } else {
                nothing()
            }
        },
        _ => nothing(),
    }
}

/// Whether `new` is `old` after a key of the services panel.
pub open spec fn services_key_acts(
    old: App,
    new: App,
    code: KeyCode,
    fx: Seq<EffectView>,
) -> bool {
    if code == KeyCode::Esc && old.filter_narrowed_from is Some {
        widens(old, new) && fx == no_effects()
    } else {
        let (table, outcome) = after_table_key(
            old.services_table@,
            code,
            services_rows(old).len() as int,
        );
        match outcome {
            StatusTableKeyOutcome::Redraw => {
                &&& new == (App { services_table: new.services_table, ..old })
                &&& new.services_table@ == table
                &&& fx == no_effects()
            },
            StatusTableKeyOutcome::Close => new == at_logs(old) && fx == no_effects(),
            StatusTableKeyOutcome::Ignored => service_row_key_acts(old, new, code, fx),
        }
    }
}

fn services_table_key(key: KeyEvent, app: &mut App) -> (r: StatusTableKeyOutcome)
    ensures
        *final(app) == (App { services_table: final(app).services_table, ..*old(app) }),
        (final(app).services_table@, r) == after_table_key(
            old(app).services_table@,
            key.code,
            services_rows(*old(app)).len() as int,
        ),
        r != StatusTableKeyOutcome::Redraw ==> *final(app) == *old(app),
{
    let total: usize = service_total(app);
    app.services_table.handle_key(key, total)
}

/// A key of the services panel.
pub fn handle_services_key(key: KeyEvent, app: &mut App) -> (r: Vec<Effect>)
    ensures
        services_key_acts(*old(app), *final(app), key.code, effects(r@)),
{
    if key.code == KeyCode::Esc && app.filter_narrowed_from.is_some() {
        let _changed = app.widen_log_from_narrow();
        return nothing();
    }
    match services_table_key(key, app) {
        StatusTableKeyOutcome::Redraw => nothing(),
        StatusTableKeyOutcome::Close => {
            return_to_logs(app);
            nothing()
        },
        StatusTableKeyOutcome::Ignored => service_row_key(key, app),
    }
}

/// In the summary of failures Up and `k` go a line up and Down and `j` a line
/// down, the page keys ten lines, and Home, End, `g` and `G` to the ends. `q`,
/// `i` and Escape leave it for the log.
pub proof fn the_failure_summary_scrolls_and_closes(old: App, new: App, code: KeyCode)
    requires
        failure_key_acts(old, new, code),
        10 <= old.failure_summary_scroll <= usize::MAX - 10,
    ensures
        ({
            let before = old.failure_summary_scroll;
            let after = new.failure_summary_scroll;
            let leaves = code == KeyCode::Esc || code == KeyCode::Char('q') || code
                == KeyCode::Char('i');
            &&& code == KeyCode::Up || code == KeyCode::Char('k') ==> after == before - 1
            &&& code == KeyCode::Down || code == KeyCode::Char('j') ==> after == before + 1
            &&& code == KeyCode::PageUp ==> after == before - 10
            &&& code == KeyCode::PageDown ==> after == before + 10
            &&& code == KeyCode::Home || code == KeyCode::Char('g') ==> after == 0
            &&& code == KeyCode::End || code == KeyCode::Char('G') ==> after == usize::MAX
            &&& leaves ==> new.view_mode == ViewMode::Normal && new.focus == Focus::Logs && after
                == 0
            &&& !leaves ==> new.view_mode == old.view_mode && new.focus == old.focus
        }),
{
}

/// In the list of the filter Space turns the highlighted name on or off, `o`
/// leaves only it, `R` goes back to what is shown by default, and `/` starts a
/// query; Enter and Escape close the panel and change nothing.
pub proof fn the_filter_list_answers_its_keys(
    old: App,
    new: App,
    code: KeyCode,
    name: Seq<char>,
)
    requires
        filter_key_acts(old, new, code),
        old.filter@.focus == FilterFocus::List,
        old.filter@.highlighted() == Some(RowView::Name(name)),
    ensures
        ({
            let before = old.filter@;
            let after = new.filter@;
            let closes = code == KeyCode::Enter || code == KeyCode::Esc;
            &&& code == KeyCode::Char(' ') ==> {
                &&& after.active.contains(name) <==> !before.active.contains(name)
                &&& forall|other: Seq<char>|
                    other != name ==> (#[trigger] after.active.contains(other)
                        <==> before.active.contains(other))
            }
            &&& code == KeyCode::Char('o') ==> forall|other: Seq<char>| #[trigger]
                after.active.contains(other) <==> other == name
            &&& code == KeyCode::Char('R') ==> after.active == before.defaults
            &&& code == KeyCode::Char('/') ==> after.focus == FilterFocus::Query && after.active
                == before.active
            &&& closes ==> new.view_mode == ViewMode::Normal && new.focus == Focus::Logs && after
                == before
            &&& !closes ==> new.view_mode == old.view_mode && new.focus == old.focus
            &&& code != KeyCode::Char(' ') && code != KeyCode::Char('o') && code != KeyCode::Char(
                'R',
            ) ==> after.active == before.active
            &&& after.query == before.query
            &&& after.defaults == before.defaults
            &&& after.names == before.names
        }),
{
}

/// While a query is typed letters go into it and Backspace takes the last one
/// back; Tab goes to the list, Escape throws the query away, and Enter shows
/// exactly what the query found, or everything where there is no query.
pub proof fn a_query_is_typed_and_taken(old: App, new: App, code: KeyCode)
    requires
        filter_key_acts(old, new, code),
        old.filter@.focus == FilterFocus::Query,
    ensures
        ({
            let before = old.filter@;
            let after = new.filter@;
            &&& code is Char ==> after.query == before.query.push(code->Char_0) && after.focus
                == FilterFocus::Query
            &&& code == KeyCode::Backspace && before.query.len() > 0 ==> after.query
                == before.query.drop_last() && after.focus == FilterFocus::Query
            &&& code == KeyCode::Tab ==> after.focus == FilterFocus::List && after.query
                == before.query
            &&& code == KeyCode::Esc ==> after.query.len() == 0 && after.focus == FilterFocus::List
            &&& code == KeyCode::Enter ==> {
                &&& after.focus == FilterFocus::List
                &&& before.query.len() == 0 ==> forall|name: Seq<char>| #[trigger]
                    after.active.contains(name) <==> before.names.contains(name)
                &&& before.query.len() > 0 ==> forall|name: Seq<char>| #[trigger]
                    after.active.contains(name) <==> before.rows().contains(RowView::Name(name))
            }
            &&& code != KeyCode::Enter ==> after.active == before.active && new.view_mode
                == old.view_mode
            &&& code == KeyCode::Enter && before.query.len() > 0 && before.rows().len() == 1
                ==> new.view_mode == ViewMode::Normal
            &&& code == KeyCode::Enter && before.rows().len() != 1 ==> new.view_mode
                == old.view_mode
        }),
{
}

/// In the tasks table Enter runs the highlighted task, or opens its form where
/// it takes parameters, and does nothing while the task is under way; `l` shows
/// its lines alone and `a` attaches to it.
#[verifier::spinoff_prover]
#[verifier::rlimit(60)]
pub proof fn the_tasks_table_acts_on_its_row(
    old: App,
    new: App,
    code: KeyCode,
    fx: Seq<EffectView>,
    name: Seq<char>,
)
    requires
        tasks_key_acts(old, new, code, fx),
        !old.tasks_table@.filtering,
        0 <= old.tasks_table@.highlight < tasks_rows(old).len(),
        tasks_rows(old)[old.tasks_table@.highlight] == name,
        code == KeyCode::Enter || code == KeyCode::Char('l') || code == KeyCode::Char('a'),
    ensures
        ({
            let state = old.tasks_state@[name];
            let under_way = state == TaskState::Running || state == TaskState::Building;
            let asks = old.task_configs@.contains_key(name)
                && old.task_configs@[name].params@.len() > 0;
            &&& code == KeyCode::Enter && under_way ==> new == old && fx.len() == 0
            &&& code == KeyCode::Enter && !under_way && !asks ==> {
                &&& fx.len() == 1
                &&& fx[0] matches EffectView::RunTask { name: run, params } && run == name
                    && params.len() == 0
                &&& old.filter@.names.contains(name) ==> new.filter@.active.contains(name)
                &&& new.view_mode == old.view_mode
            }
            &&& code == KeyCode::Enter && !under_way && asks ==> {
                &&& new.view_mode == ViewMode::Form
                &&& new.form matches Some(form) && form.task@ == name && form.fields@.len()
                    == old.task_configs@[name].params@.len() && form.focus == 0
            }
            &&& code == KeyCode::Char('l') ==> fx.len() == 0 && (old.filter@.names.contains(name)
                ==> forall|other: Seq<char>| #[trigger]
                new.filter@.active.contains(other) <==> other == name)
            &&& code == KeyCode::Char('a') ==> fx.len() == 0 && (
            new.bridge_request matches Some(asked) && asked@ == name) && new.filter == old.filter
        }),
{
    reveal(after_table_key);
    reveal(task_row_key_acts);
    assert(Map::<Seq<char>, Seq<char>>::empty().len() == 0);
    if code == KeyCode::Enter && can_run(old.tasks_state@[name])
        && old.task_configs@.contains_key(name) && old.task_configs@[name].params@.len() > 0 {
        let form = new.form->0;
        let fields = choose|fields: Seq<Field>|
            {
                let fresh = Asking { fields, counter: 0, in_flight: Map::empty() };
                &&& #[trigger] is_new_form(form, fields, name, old.task_configs@[name])
                &&& asking(form) == having_asked_all(fresh, dynamic_params(fields))
                &&& fx == requests_for_all(fresh, name, dynamic_params(fields))
            };
        let fresh = Asking { fields, counter: 0, in_flight: Map::empty() };
        lemma_asked_fields(fresh, dynamic_params(fields));
    }
}

proof fn lemma_asked_fields(a: Asking, params: Seq<Seq<char>>)
    ensures
        having_asked_all(a, params).fields.len() == a.fields.len(),
    decreases params.len(),
{
    if params.len() > 0 {
        lemma_asked_fields(a, params.drop_last());
        a_field_is_found_by_its_name(having_asked_all(a, params.drop_last()).fields, params.last());
    }
}

/// In the services table Enter starts or stops the highlighted service, `r`
/// restarts it and `R` restarts it from scratch, `l` shows its lines alone and
/// `a` attaches to it.
#[verifier::spinoff_prover]
#[verifier::rlimit(60)]
pub proof fn the_services_table_acts_on_its_row(
    old: App,
    new: App,
    code: KeyCode,
    fx: Seq<EffectView>,
    name: Seq<char>,
)
    requires
        services_key_acts(old, new, code, fx),
        !old.services_table@.filtering,
        0 <= old.services_table@.highlight < services_rows(old).len(),
        services_rows(old)[old.services_table@.highlight] == name,
        code == KeyCode::Enter || code == KeyCode::Char('r') || code == KeyCode::Char('R') || code
            == KeyCode::Char('l') || code == KeyCode::Char('a'),
    ensures
        ({
            let state = old.services_state@[name];
            let up = state == ServiceState::Ready || state == ServiceState::Running || state
                == ServiceState::Unhealthy;
            let down = state == ServiceState::Stopped || state == ServiceState::Lazy;
            let moving = state == ServiceState::Pending || state == ServiceState::Building || state
                == ServiceState::Starting || state == ServiceState::Stopping;
            &&& code == KeyCode::Enter && up ==> fx == seq![
                EffectView::Control { name, action: ControlAction::Stop },
            ]
            &&& code == KeyCode::Enter && down ==> fx == seq![
                EffectView::Control { name, action: ControlAction::Start },
            ]
            &&& code == KeyCode::Char('r') && (up || state == ServiceState::Stopped || state
                == ServiceState::Failed || state == ServiceState::DependencyFailed) ==> fx == seq![
                EffectView::Control { name, action: ControlAction::Restart },
            ]
            &&& code == KeyCode::Char('r') && (moving || state == ServiceState::Lazy) ==> fx.len()
                == 0
            &&& code == KeyCode::Char('R') && !moving ==> fx == seq![
                EffectView::Control { name, action: ControlAction::HardRestart },
            ]
            &&& moving ==> fx.len() == 0
            &&& code == KeyCode::Enter || code == KeyCode::Char('r') || code == KeyCode::Char('R')
                ==> new == old
            &&& code == KeyCode::Char('l') ==> fx.len() == 0 && (old.filter@.names.contains(name)
                ==> forall|other: Seq<char>| #[trigger]
                new.filter@.active.contains(other) <==> other == name)
            &&& code == KeyCode::Char('a') ==> fx.len() == 0 && (
            new.bridge_request matches Some(asked) && asked@ == name) && new.filter == old.filter
        }),
{
    reveal(after_table_key);
    reveal(service_row_key_acts);
}

/// Escape in a table first gives back the lines that showing one name alone put
/// away, and only then closes the table.
#[verifier::spinoff_prover]
pub proof fn escape_widens_before_it_closes(
    old: App,
    new: App,
    fx: Seq<EffectView>,
)
    requires
        tasks_key_acts(old, new, KeyCode::Esc, fx) && !old.tasks_table@.filtering
            || services_key_acts(old, new, KeyCode::Esc, fx) && !old.services_table@.filtering,
    ensures
        fx.len() == 0,
        old.filter_narrowed_from matches Some(first) ==> {
            &&& new.filter@.active == first@
            &&& new.filter_narrowed_from is None
            &&& new.view_mode == old.view_mode
        },
        old.filter_narrowed_from is None ==> new.view_mode == ViewMode::Normal && new.focus
            == Focus::Logs && new.filter == old.filter,
{
    reveal(after_table_key);
}

/// However the query changes, the highlight stays on a row that is there.
pub proof fn the_highlight_stays_on_a_row(old: App, new: App, code: KeyCode)
    requires
        filter_key_acts(old, new, code),
        old.filter@.focus == FilterFocus::Query,
        code is Char || code == KeyCode::Backspace && old.filter@.query.len() > 0,
        old.filter@.highlight >= 0,
    ensures
        new.filter@.highlight == old.filter@.highlight || new.filter@.highlight == 0,
        new.filter@.highlight < new.filter@.rows().len() || new.filter@.highlight == 0,
        old.filter@.highlight < new.filter@.rows().len() ==> new.filter@.highlight
            == old.filter@.highlight,
{
    let before = old.filter@;
    let query = if code is Char {
        before.query.push(code->Char_0)
    } else {
        before.query.drop_last()
    };
    let typed = FilterView { query, ..before };
    assert(new.filter@ == typed.clamped());
    assert(typed.clamped().rows() == typed.rows());
}

} // verus!
