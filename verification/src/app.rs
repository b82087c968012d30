//! The state of the interface: what is on screen, what the runner has said,
//! and what the reader has asked for.
//!
//! One loop changes it, so there is nothing shared and nothing to lock. Each
//! method says what becomes of every field it touches; the rest stay.
use crate::attach::AttachView;
use crate::client::{ProcessStatus, ServiceState, StateSnapshot, TaskRunInfo, TaskState};
use crate::config::{text_of, Task};
use crate::counts::{counts_all, StatusCounts};
use crate::failures::{
    anything_failed, blockers, blockers_of, collect, culprits, has_failures, summarizes,
    FailureSummaryItem,
};
use crate::filter::{
    asked_for, bytes_of_number, filter_writes, number_bytes, numbers_are_written_apart, FilterFocus,
    FilterState, FilterView,
};
use crate::form::FormState;
use crate::fuzzy::{fuzzy_matches, matches_query};
use crate::logs::{PendingScroll, RowSource, Scroll};
use crate::marks::{blank_rows, BlankMarks};
use crate::names::{copy_names, lemma_take_set, strictly_sorted, views, NameMap, NameSet};
use crate::output::{LogId, LIFECYCLE_EVENT_NAME};
use crate::panes::{Focus, PaneSide, Panel, Panes, DEFAULT_COLUMNS};
use crate::rows::{
    a_table_is_unique, find_place, in_rank_order, is_table, place_in, place_row, row_names, RankedRow,
};
use crate::selection::Selection;
use crate::status_table::{StatusTableState, TableView};
use crate::text::{same, text_before};
use crate::view_index::ViewIndex;
use std::collections::hash_map::DefaultHasher;
use std::hash::Hasher;
use vstd::prelude::*;
use vstd::std_specs::hash::DefaultHasherAdditionalSpecFns;

verus! {

/// What is on screen besides the log, and so what keys mean.
#[derive(Debug, Clone, Copy, PartialEq, Eq, Structural)]
pub enum ViewMode {
    /// The log and the status bar.
    Normal,
    /// The filter panel.
    Filter,
    /// The tasks panel.
    Tasks,
    /// The services panel.
    Services,
    /// The summary of failures, over the whole screen.
    Failures,
    /// The form for a task's parameters, over the whole screen.
    Form,
}

/// A row of the services table.
#[derive(Debug)]
pub struct OverlayItem {
    pub name: String,
    pub state: ServiceState,
    pub pid: Option<i32>,
    pub failed_dependencies: Vec<String>,
}

/// A row of the tasks table.
#[derive(Debug)]
pub struct TaskStatusItem {
    pub name: String,
    pub state: TaskState,
    pub failed_dependencies: Vec<String>,
    pub last_run: Option<TaskRunInfo>,
    pub has_params: bool,
}

/// A newer version is out.
#[derive(Debug)]
pub struct UpdateBadge {
    pub current_version: String,
    pub latest_version: String,
}

/// Whether a task in a state can be run.
pub open spec fn can_run(state: TaskState) -> bool {
    state != TaskState::Running && state != TaskState::Building
}

/// How urgent a task's state is; less is more urgent.
pub open spec fn task_bucket(state: TaskState) -> int {
    match state {
        TaskState::Failed => 0,
        TaskState::DependencyFailed => 1,
        TaskState::PendingRun => 2,
        TaskState::Running | TaskState::Building => 3,
        TaskState::Pending => 4,
        TaskState::Completed => 5,
        TaskState::Skipped => 6,
    }
}

/// How urgent a service's state is; less is more urgent. A blocked service
/// comes below the culprit.
pub open spec fn service_bucket(state: ServiceState) -> int {
    match state {
        ServiceState::Failed | ServiceState::Unhealthy => 0,
        ServiceState::DependencyFailed => 1,
        ServiceState::Pending | ServiceState::Building | ServiceState::Starting => 2,
        ServiceState::Running => 3,
        ServiceState::Ready => 4,
        ServiceState::Stopping => 5,
        ServiceState::Stopped => 6,
        ServiceState::Lazy => 7,
    }
}

impl TaskStatusItem {
    /// The task's name.
    pub fn name(&self) -> (r: &str)
        ensures
            r@ == self.name@,
    {
        self.name.as_str()
    }

    /// Whether it can be run now.
    pub fn runnable(&self) -> (r: bool)
        ensures
            r == can_run(self.state),
    {
        self.state != TaskState::Running && self.state != TaskState::Building
    }

    /// How urgent its state is.
    pub fn sort_bucket(&self) -> (r: u8)
        ensures
            r as int == task_bucket(self.state),
    {
        bucket_of_task(self.state)
    }
}

fn bucket_of_task(state: TaskState) -> (r: u8)
    ensures
        r as int == task_bucket(state),
{
    match state {
        TaskState::Failed => 0,
        TaskState::DependencyFailed => 1,
        TaskState::PendingRun => 2,
        TaskState::Running | TaskState::Building => 3,
        TaskState::Pending => 4,
        TaskState::Completed => 5,
        TaskState::Skipped => 6,
    }
}

impl OverlayItem {
    /// The service's name.
    pub fn name(&self) -> (r: &str)
        ensures
            r@ == self.name@,
    {
        self.name.as_str()
    }

    /// How urgent its state is.
    pub fn sort_bucket(&self) -> (r: u8)
        ensures
            r as int == service_bucket(self.state),
    {
        bucket_of_service(self.state)
    }
}

fn bucket_of_service(state: ServiceState) -> (r: u8)
    ensures
        r as int == service_bucket(state),
{
    match state {
        ServiceState::Failed | ServiceState::Unhealthy => 0,
        ServiceState::DependencyFailed => 1,
        ServiceState::Pending | ServiceState::Building | ServiceState::Starting => 2,
        ServiceState::Running => 3,
        ServiceState::Ready => 4,
        ServiceState::Stopping => 5,
        ServiceState::Stopped => 6,
        ServiceState::Lazy => 7,
    }
}

/// The half of a log pane's state that is put away while the other record is
/// in front.
pub struct StashedView {
    pub index: ViewIndex,
    pub scroll: Scroll,
    pub rows_above: usize,
    pub total_rows: usize,
    pub blank_after: BlankMarks,
    pub blank_epoch: u64,
}

/// The state of the interface.
pub struct App {
    /// Leave, without shutting anything down.
    pub exit_requested: bool,
    /// Open a window on this process.
    pub bridge_request: Option<String>,
    /// Whether the window on screen opened by itself. Only such a one closes
    /// by itself.
    pub attach_opened_automatically: bool,
    /// Close the window.
    pub attach_dismiss_requested: bool,
    pub attach: Option<AttachView>,
    pub counts: StatusCounts,
    pub view_mode: ViewMode,
    /// While shutting down every line is shown and no key acts.
    pub shutdown_started: bool,
    pub filter: FilterState,
    pub spinner_frame: usize,
    pub services_state: NameMap<ServiceState>,
    pub service_pids: NameMap<Option<i32>>,
    pub tasks_state: NameMap<TaskState>,
    pub failed_dependencies: NameMap<Vec<String>>,
    pub tasks_last_run: NameMap<TaskRunInfo>,
    pub update_badge: Option<UpdateBadge>,
    pub services_table: StatusTableState,
    pub tasks_table: StatusTableState,
    pub failure_summary_scroll: usize,
    pub task_configs: NameMap<Task>,
    /// Names that join the filter's selection when they fail.
    pub auto_filter_on_failure_names: NameSet,
    pub form: Option<FormState>,
    /// The selection that narrowing replaced, so that it can be put back.
    pub filter_narrowed_from: Option<NameSet>,
    /// Where the panes were drawn last.
    pub panes: Panes,
    pub panel: Panel,
    /// Whether the reader has sized the panel.
    pub panel_extent_customized: bool,
    /// The layout last painted.
    pub painted_layout: Option<(Panel, bool)>,
    pub repaint_requested: bool,
    pub focus: Focus,
    pub dragging_divider: bool,
    /// A first `g` was pressed.
    pub pending_g: bool,
    /// The rows of each table as it opened.
    pub services_order: Vec<String>,
    pub tasks_order: Vec<String>,
    pub view_index: ViewIndex,
    pub log_scroll: Scroll,
    pub log_selection: Selection,
    /// What the last copy did, and when it was said, in milliseconds.
    pub copy_notice: Option<(String, u64)>,
    /// The column, row and time of the last click, and how many have landed
    /// there in a row.
    pub last_click: Option<(u16, u16, u64, u8)>,
    /// Whether a selection stopped following.
    pub follow_paused_for_selection: bool,
    /// The text of the rows drawn last, and the line each belongs to.
    pub log_visible_rows: Vec<String>,
    pub log_row_sources: Vec<RowSource>,
    pub log_pane_origin: (u16, u16),
    /// What was asked of the log's scroll since the last frame.
    pub pending_scroll: PendingScroll,
    /// The blank rows asked for after lines.
    pub blank_after: BlankMarks,
    /// Changes whenever a blank row is added.
    pub blank_epoch: u64,
    /// Whether don's own record is in front.
    pub debug_view: bool,
    pub stashed_view: StashedView,
    /// Geometry of the last frame.
    pub log_rows_above: usize,
    pub log_total_rows: usize,
    pub log_pane_height: u16,
}

/// What the interface starts from.
pub struct AppInit {
    pub service_names: Vec<String>,
    pub task_names: Vec<String>,
    pub build_tool_names: Vec<String>,
    pub task_configs: NameMap<Task>,
    pub task_last_runs: NameMap<TaskRunInfo>,
    pub hidden_names: NameSet,
    pub auto_filter_on_failure_names: NameSet,
    pub cli_log_filter: Option<NameSet>,
}

/// The map that gives every name of a list the same value.
pub open spec fn all_at<V>(names: Seq<Seq<char>>, value: V) -> Map<Seq<char>, V> {
    Map::new(|n: Seq<char>| names.contains(n), |n: Seq<char>| value)
}

proof fn lemma_all_at_step<V>(names: Seq<Seq<char>>, value: V, i: int)
    requires
        0 <= i < names.len(),
    ensures
        all_at(names.take(i + 1), value) == all_at(names.take(i), value).insert(names[i], value),
{
    lemma_take_set(names, i);
    let a = all_at(names.take(i + 1), value);
    let b = all_at(names.take(i), value).insert(names[i], value);
    assert forall|n: Seq<char>| #[trigger] a.dom().contains(n) == b.dom().contains(n) by {
        assert(names.take(i + 1).to_set().contains(n) == names.take(i).to_set().insert(
            names[i],
        ).contains(n));
    }
    assert(a =~= b);
}

fn at_service_state(names: &Vec<String>, state: ServiceState) -> (r: NameMap<ServiceState>)
    ensures
        r@ == all_at(views(names@), state),
{
    let mut out: NameMap<ServiceState> = NameMap::new();
    let ghost all = views(names@);
    let mut i: usize = 0;
    assert(all_at(all.take(0), state) =~= Map::<Seq<char>, ServiceState>::empty());
    while i < names.len()
        invariant
            i <= names@.len(),
            all == views(names@),
            out@ == all_at(all.take(i as int), state),
        decreases names@.len() - i,
    {
        proof {
            lemma_all_at_step(all, state, i as int);
        }
        out.insert(names[i].clone(), state);
        i += 1;
    }
    assert(all.take(names@.len() as int) =~= all);
    out
}

fn without_pids(names: &Vec<String>) -> (r: NameMap<Option<i32>>)
    ensures
        r@ == all_at(views(names@), None::<i32>),
{
    let mut out: NameMap<Option<i32>> = NameMap::new();
    let ghost all = views(names@);
    let mut i: usize = 0;
    assert(all_at(all.take(0), None::<i32>) =~= Map::<Seq<char>, Option<i32>>::empty());
    while i < names.len()
        invariant
            i <= names@.len(),
            all == views(names@),
            out@ == all_at(all.take(i as int), None::<i32>),
        decreases names@.len() - i,
    {
        proof {
            lemma_all_at_step(all, None::<i32>, i as int);
        }
        out.insert(names[i].clone(), None);
        i += 1;
    }
    assert(all.take(names@.len() as int) =~= all);
    out
}

fn at_task_state(names: &Vec<String>, state: TaskState) -> (r: NameMap<TaskState>)
    ensures
        r@ == all_at(views(names@), state),
{
    let mut out: NameMap<TaskState> = NameMap::new();
    let ghost all = views(names@);
    let mut i: usize = 0;
    assert(all_at(all.take(0), state) =~= Map::<Seq<char>, TaskState>::empty());
    while i < names.len()
        invariant
            i <= names@.len(),
            all == views(names@),
            out@ == all_at(all.take(i as int), state),
        decreases names@.len() - i,
    {
        proof {
            lemma_all_at_step(all, state, i as int);
        }
        out.insert(names[i].clone(), state);
        i += 1;
    }
    assert(all.take(names@.len() as int) =~= all);
    out
}

fn extend_names(list: &mut Vec<String>, more: &Vec<String>)
    ensures
        views(final(list)@) == views(old(list)@) + views(more@),
{
    let ghost before = list@;
    let mut i: usize = 0;
    assert(views(list@) =~= views(before) + views(more@).take(0));
    while i < more.len()
        invariant
            i <= more@.len(),
            views(list@) == views(before) + views(more@).take(i as int),
        decreases more@.len() - i,
    {
        let ghost so_far = list@;
        list.push(more[i].clone());
        proof {
            assert(views(list@) =~= views(so_far).push(more@[i as int]@));
            assert(views(more@).take(i + 1) =~= views(more@).take(i as int).push(more@[i as int]@));
            assert(views(list@) =~= views(before) + views(more@).take(i + 1));
        }
        i += 1;
    }
    assert(views(more@).take(more@.len() as int) =~= views(more@));
}

/// Every name the filter knows at the start: services, tasks, build tools and
/// don itself.
pub open spec fn filterable(init: AppInit) -> Seq<Seq<char>> {
    (views(init.service_names@) + views(init.task_names@) + views(init.build_tool_names@)).push(
        LIFECYCLE_EVENT_NAME@,
    )
}

/// The names of a map that match a query.
pub open spec fn matching_names<V>(m: Map<Seq<char>, V>, query: Seq<char>) -> Set<Seq<char>> {
    Set::new(|n: Seq<char>| m.contains_key(n) && matches_query(query, n))
}

/// How urgent each service is.
pub open spec fn service_buckets(m: Map<Seq<char>, ServiceState>) -> Map<Seq<char>, int> {
    Map::new(|n: Seq<char>| m.contains_key(n), |n: Seq<char>| service_bucket(m[n]))
}

/// How urgent each task is.
pub open spec fn task_buckets(m: Map<Seq<char>, TaskState>) -> Map<Seq<char>, int> {
    Map::new(|n: Seq<char>| m.contains_key(n), |n: Seq<char>| task_bucket(m[n]))
}

/// Whether names are the rows of the services table.
pub open spec fn is_services_table(app: App, names: Seq<Seq<char>>) -> bool {
    is_table(
        names,
        matching_names(app.services_state@, app.services_table@.query),
        views(app.services_order@),
        service_buckets(app.services_state@),
    )
}

/// Whether names are the rows of the tasks table.
pub open spec fn is_tasks_table(app: App, names: Seq<Seq<char>>) -> bool {
    is_table(
        names,
        matching_names(app.tasks_state@, app.tasks_table@.query),
        views(app.tasks_order@),
        task_buckets(app.tasks_state@),
    )
}

/// The rows of the services table.
#[verifier::opaque]
pub open spec fn services_rows(app: App) -> Seq<Seq<char>> {
    choose|names: Seq<Seq<char>>| is_services_table(app, names)
}

/// The rows of the tasks table.
#[verifier::opaque]
pub open spec fn tasks_rows(app: App) -> Seq<Seq<char>> {
    choose|names: Seq<Seq<char>>| is_tasks_table(app, names)
}

/// The services table has one list of rows.
pub proof fn lemma_services_rows(app: App, names: Seq<Seq<char>>)
    requires
        is_services_table(app, names),
    ensures
        services_rows(app) == names,
{
    reveal(services_rows);
    a_table_is_unique(
        services_rows(app),
        names,
        matching_names(app.services_state@, app.services_table@.query),
        views(app.services_order@),
        service_buckets(app.services_state@),
    );
}

/// The tasks table has one list of rows.
pub proof fn lemma_tasks_rows(app: App, names: Seq<Seq<char>>)
    requires
        is_tasks_table(app, names),
    ensures
        tasks_rows(app) == names,
{
    reveal(tasks_rows);
    a_table_is_unique(
        tasks_rows(app),
        names,
        matching_names(app.tasks_state@, app.tasks_table@.query),
        views(app.tasks_order@),
        task_buckets(app.tasks_state@),
    );
}

/// The names of service rows.
pub open spec fn service_names(items: Seq<OverlayItem>) -> Seq<Seq<char>> {
    Seq::new(items.len(), |i: int| items[i].name@)
}

/// The names of task rows.
pub open spec fn task_names(items: Seq<TaskStatusItem>) -> Seq<Seq<char>> {
    Seq::new(items.len(), |i: int| items[i].name@)
}

/// Whether a row says what is known of its service.
pub open spec fn describes_service(app: App, item: OverlayItem) -> bool {
    &&& item.state == app.services_state@[item.name@]
    &&& item.pid == (if app.service_pids@.contains_key(item.name@) {
        app.service_pids@[item.name@]
    } else {
        None
    })
    &&& views(item.failed_dependencies@) == blockers(app.failed_dependencies@, item.name@)
}

/// Whether a row says what is known of its task.
pub open spec fn describes_task(app: App, item: TaskStatusItem) -> bool {
    &&& item.state == app.tasks_state@[item.name@]
    &&& views(item.failed_dependencies@) == blockers(app.failed_dependencies@, item.name@)
    &&& item.last_run == (if app.tasks_last_run@.contains_key(item.name@) {
        Some(app.tasks_last_run@[item.name@])
    } else {
        None
    })
    &&& item.has_params == (app.task_configs@.contains_key(item.name@)
        && app.task_configs@[item.name@].params@.len() > 0)
}

/// The map from names to lists, by what the lists hold.
pub open spec fn lists(m: Map<Seq<char>, Vec<String>>) -> Map<Seq<char>, Seq<Seq<char>>> {
    m.map_values(|v: Vec<String>| views(v@))
}

/// The blockers on record after a report: an empty list clears them.
pub open spec fn with_blockers(
    m: Map<Seq<char>, Seq<Seq<char>>>,
    name: Seq<char>,
    blockers: Seq<Seq<char>>,
) -> Map<Seq<char>, Seq<Seq<char>>> {
    if blockers.len() == 0 {
        m.remove(name)
    } else {
        m.insert(name, blockers)
    }
}

/// What the interface believes of the processes.
#[verifier::ext_equal]
pub struct Records {
    pub services: Map<Seq<char>, ServiceState>,
    pub pids: Map<Seq<char>, Option<i32>>,
    pub tasks: Map<Seq<char>, TaskState>,
    pub blockers: Map<Seq<char>, Seq<Seq<char>>>,
    pub last_runs: Map<Seq<char>, TaskRunInfo>,
}

impl Records {
    /// What is believed after reading one process of a snapshot.
    pub open spec fn absorbing(self, status: ProcessStatus) -> Records {
        match status {
            ProcessStatus::Service { name, state, failed_dependencies, runtime } => Records {
                services: self.services.insert(name@, state),
                pids: self.pids.insert(
                    name@,
                    match runtime {
                        Some(rt) => rt.pid,
                        None => None,
                    },
                ),
                blockers: with_blockers(self.blockers, name@, views(failed_dependencies@)),
                ..self
            },
            ProcessStatus::Task { name, state, failed_dependencies, last_run } => Records {
                tasks: self.tasks.insert(name@, state),
                blockers: with_blockers(self.blockers, name@, views(failed_dependencies@)),
                last_runs: match last_run {
                    Some(run) => self.last_runs.insert(name@, run),
                    None => self.last_runs,
                },
                ..self
            },
        }
    }

    /// What is believed after reading a snapshot.
    pub open spec fn absorbing_all(self, statuses: Seq<ProcessStatus>) -> Records
        decreases statuses.len(),
    {
        if statuses.len() == 0 {
            self
        } else {
            self.absorbing_all(statuses.drop_last()).absorbing(statuses.last())
        }
    }
}

/// The members of an optional set.
pub open spec fn members(s: Option<NameSet>) -> Option<Set<Seq<char>>> {
    match s {
        Some(s) => Some(s@),
        None => None,
    }
}

/// The filter and its restore point after narrowing to one name. Only the
/// first narrowing records a restore point.
pub open spec fn narrowed(
    filter: FilterView,
    from: Option<Set<Seq<char>>>,
    name: Seq<char>,
) -> (FilterView, Option<Set<Seq<char>>>) {
    if filter.names.contains(name) && filter.active != set![name] {
        (
            FilterView { active: set![name], ..filter },
            Some(
                match from {
                    Some(first) => first,
                    None => filter.active,
                },
            ),
        )
    } else {
        (filter, from)
    }
}

/// The filter and its restore point after widening again.
pub open spec fn widened(filter: FilterView, from: Option<Set<Seq<char>>>) -> (
    FilterView,
    Option<Set<Seq<char>>>,
) {
    match from {
        Some(first) => (FilterView { active: first, ..filter }, None),
        None => (filter, None),
    }
}

/// The filter after a name joined its selection.
pub open spec fn selecting(filter: FilterView, name: Seq<char>) -> FilterView {
    if filter.names.contains(name) {
        FilterView { active: filter.active.insert(name), ..filter }
    } else {
        filter
    }
}

/// Whether a service in a state has a terminal.
pub open spec fn has_terminal(state: ServiceState) -> bool {
    state == ServiceState::Starting || state == ServiceState::Running || state
        == ServiceState::Ready || state == ServiceState::Unhealthy
}

/// A window after its process may have gone.
pub open spec fn after_departure(
    attach: Option<AttachView>,
    name: Seq<char>,
    gone: bool,
) -> Option<AttachView> {
    match attach {
        Some(view) => if gone && view.name@ == name {
            Some(AttachView { ended: true, ..view })
        } else {
            attach
        },
        None => None,
    }
}

/// Whether a task's new state opens a window on it: it waits for a human, it
/// has just started, and no window is open or asked for.
pub open spec fn opens_window(app: App, name: Seq<char>, state: TaskState) -> bool {
    &&& state == TaskState::Running
    &&& !(app.tasks_state@.contains_key(name) && app.tasks_state@[name] == TaskState::Running)
    &&& asks_for_window(app, name)
}

/// Whether a task that starts gets a window.
pub open spec fn asks_for_window(app: App, name: Seq<char>) -> bool {
    &&& app.attach is None
    &&& app.bridge_request is None
    &&& app.task_configs@.contains_key(name)
    &&& app.task_configs@[name].interactive
}

/// Whether a task's new state closes the window that opened itself for it. A
/// failure keeps it: its last screen is the reason.
pub open spec fn closes_window(app: App, name: Seq<char>, state: TaskState) -> bool {
    &&& can_run(state)
    &&& state != TaskState::Failed
    &&& app.attach_opened_automatically
    &&& match app.attach {
        Some(view) => view.name@ == name,
        None => false,
    }
}

impl App {
    /// What is believed of the processes.
    pub open spec fn records(self) -> Records {
        Records {
            services: self.services_state@,
            pids: self.service_pids@,
            tasks: self.tasks_state@,
            blockers: lists(self.failed_dependencies@),
            last_runs: self.tasks_last_run@,
        }
    }

    /// The state before anything has happened.
    pub open spec fn starts_from(self, init: AppInit) -> bool {
        &&& !self.exit_requested
        &&& self.bridge_request is None
        &&& !self.attach_opened_automatically
        &&& !self.attach_dismiss_requested
        &&& self.attach is None
        &&& counts_all(self.counts, self.services_state@, self.tasks_state@)
        &&& self.view_mode == ViewMode::Normal
        &&& !self.shutdown_started
        &&& strictly_sorted(self.filter@.names)
        &&& self.filter@.names.to_set() == filterable(init).to_set()
        &&& self.filter@.hidden == Set::<Seq<char>>::empty()
        &&& self.filter@.active == (match init.cli_log_filter {
            Some(allow) => asked_for(filterable(init).to_set(), allow@),
            None => filterable(init).to_set().difference(init.hidden_names@),
        })
        &&& self.filter@.defaults == self.filter@.active
        &&& self.filter@.query.len() == 0
        &&& self.filter@.focus == FilterFocus::List
        &&& self.filter@.highlight == 0
        &&& self.spinner_frame == 0
        &&& self.services_state@ == all_at(views(init.service_names@), ServiceState::Pending)
        &&& self.service_pids@ == all_at(views(init.service_names@), None::<i32>)
        &&& self.tasks_state@ == all_at(views(init.task_names@), TaskState::Pending)
        &&& self.failed_dependencies@ == Map::<Seq<char>, Vec<String>>::empty()
        &&& self.tasks_last_run == init.task_last_runs
        &&& self.update_badge is None
        &&& self.services_table@ == TableView::fresh()
        &&& self.tasks_table@ == TableView::fresh()
        &&& self.failure_summary_scroll == 0
        &&& self.task_configs == init.task_configs
        &&& self.auto_filter_on_failure_names == init.auto_filter_on_failure_names
        &&& self.form is None
        &&& self.filter_narrowed_from is None
        &&& self.panes == Panes::nothing()
        &&& self.panel == (Panel { side: PaneSide::Right, extent: DEFAULT_COLUMNS })
        &&& !self.panel_extent_customized
        &&& self.painted_layout is None
        &&& !self.repaint_requested
        &&& self.focus == Focus::Logs
        &&& !self.dragging_divider
        &&& !self.pending_g
        &&& self.services_order@.len() == 0
        &&& self.tasks_order@.len() == 0
        &&& self.view_index@.len() == 0
        &&& self.view_index.built_for() is None
        &&& self.log_scroll == Scroll::Follow
        &&& self.log_selection == Selection::none()
        &&& self.copy_notice is None
        &&& self.last_click is None
        &&& !self.follow_paused_for_selection
        &&& self.log_visible_rows@.len() == 0
        &&& self.log_row_sources@.len() == 0
        &&& self.log_pane_origin == (0u16, 0u16)
        &&& self.pending_scroll == PendingScroll::nothing()
        &&& self.blank_after@ == Map::<LogId, u16>::empty()
        &&& self.blank_epoch == 0
        &&& !self.debug_view
        &&& self.stashed_view.index@.len() == 0
        &&& self.stashed_view.index.built_for() is None
        &&& self.stashed_view.scroll == Scroll::Follow
        &&& self.stashed_view.rows_above == 0
        &&& self.stashed_view.total_rows == 0
        &&& self.stashed_view.blank_after@ == Map::<LogId, u16>::empty()
        &&& self.stashed_view.blank_epoch == 0
        &&& self.log_rows_above == 0
        &&& self.log_total_rows == 0
        &&& self.log_pane_height == 0
    }

    /// The interface as it starts: every service and task pending, following
    /// the log, no panel open.
    pub fn new(init: AppInit) -> (r: App)
        ensures
            r.starts_from(init),
    {
        let services_state = at_service_state(&init.service_names, ServiceState::Pending);
        let service_pids = without_pids(&init.service_names);
        let tasks_state = at_task_state(&init.task_names, TaskState::Pending);
        let mut all_filter_names = copy_names(&init.service_names);
        extend_names(&mut all_filter_names, &init.task_names);
        extend_names(&mut all_filter_names, &init.build_tool_names);
        let ghost so_far = all_filter_names@;
        all_filter_names.push(LIFECYCLE_EVENT_NAME.to_owned());
        assert(views(all_filter_names@) =~= filterable(init));
        let counts = StatusCounts::from_state(&services_state, &tasks_state);
        let filter = FilterState::new(
            all_filter_names,
            &init.hidden_names,
            init.cli_log_filter.as_ref(),
        );
        App {
            exit_requested: false,
            bridge_request: None,
            attach_opened_automatically: false,
            attach_dismiss_requested: false,
            attach: None,
            counts,
            view_mode: ViewMode::Normal,
            shutdown_started: false,
            filter,
            spinner_frame: 0,
            services_state,
            service_pids,
            tasks_state,
            failed_dependencies: NameMap::new(),
            tasks_last_run: init.task_last_runs,
            update_badge: None,
            services_table: StatusTableState::default(),
            tasks_table: StatusTableState::default(),
            failure_summary_scroll: 0,
            task_configs: init.task_configs,
            auto_filter_on_failure_names: init.auto_filter_on_failure_names,
            form: None,
            filter_narrowed_from: None,
            panes: Panes::empty(),
            panel: Panel::default(),
            panel_extent_customized: false,
            painted_layout: None,
            repaint_requested: false,
            focus: Focus::Logs,
            dragging_divider: false,
            pending_g: false,
            services_order: Vec::new(),
            tasks_order: Vec::new(),
            view_index: ViewIndex::new(),
            log_scroll: Scroll::Follow,
            log_selection: Selection::default(),
            copy_notice: None,
            last_click: None,
            follow_paused_for_selection: false,
            log_visible_rows: Vec::new(),
            log_row_sources: Vec::new(),
            log_pane_origin: (0, 0),
            pending_scroll: PendingScroll::default(),
            blank_after: BlankMarks::new(),
            blank_epoch: 0,
            debug_view: false,
            stashed_view: StashedView {
                index: ViewIndex::new(),
                scroll: Scroll::Follow,
                rows_above: 0,
                total_rows: 0,
                blank_after: BlankMarks::new(),
                blank_epoch: 0,
            },
            log_rows_above: 0,
            log_total_rows: 0,
            log_pane_height: 0,
        }
    }

    /// Shutdown has begun: back to the plain log, every table and form closed.
    pub fn begin_shutdown(&mut self)
        ensures
            *final(self) == (App {
                shutdown_started: true,
                view_mode: ViewMode::Normal,
                services_table: final(self).services_table,
                tasks_table: final(self).tasks_table,
                failure_summary_scroll: 0,
                form: None,
                ..*old(self)
            }),
            final(self).services_table@ == TableView::fresh(),
            final(self).tasks_table@ == TableView::fresh(),
    {
        self.shutdown_started = true;
        self.set_view_mode(ViewMode::Normal);
        self.services_table.reset();
        self.tasks_table.reset();
        self.failure_summary_scroll = 0;
        self.form = None;
    }

    /// The result of asking whether a newer version is out.
    pub fn set_update_check(&mut self, current_version: String, latest_version: Option<String>)
        ensures
            *final(self) == (App {
                update_badge: match latest_version {
                    Some(latest_version) => Some(
                        UpdateBadge { current_version, latest_version },
                    ),
                    None => None,
                },
                ..*old(self)
            }),
    {
        self.update_badge = match latest_version {
            Some(latest_version) => Some(UpdateBadge { current_version, latest_version }),
            None => None,
        };
    }

    /// Whether the side panel is on screen.
    pub open spec fn shows_panel(self) -> bool {
        self.view_mode == ViewMode::Services || self.view_mode == ViewMode::Tasks || self.view_mode
            == ViewMode::Filter
    }

    /// Whether the side panel is on screen. The summary of failures and the
    /// form take the whole screen: they ask for a decision.
    pub fn panel_open(&self) -> (r: bool)
        ensures
            r == self.shows_panel(),
    {
        self.view_mode == ViewMode::Services || self.view_mode == ViewMode::Tasks || self.view_mode
            == ViewMode::Filter
    }

    /// The state with the other record in front.
    pub open spec fn swapped(self, rows: Vec<String>, sources: Vec<RowSource>) -> App {
        App {
            view_index: self.stashed_view.index,
            log_scroll: self.stashed_view.scroll,
            log_rows_above: self.stashed_view.rows_above,
            log_total_rows: self.stashed_view.total_rows,
            blank_after: self.stashed_view.blank_after,
            blank_epoch: self.stashed_view.blank_epoch,
            stashed_view: StashedView {
                index: self.view_index,
                scroll: self.log_scroll,
                rows_above: self.log_rows_above,
                total_rows: self.log_total_rows,
                blank_after: self.blank_after,
                blank_epoch: self.blank_epoch,
            },
            log_visible_rows: rows,
            log_row_sources: sources,
            log_selection: Selection::none(),
            follow_paused_for_selection: false,
            pending_scroll: PendingScroll::nothing(),
            debug_view: !self.debug_view,
            ..self
        }
    }

    /// Brings the other record to the front and puts this one away as it is.
    /// What described the rows on screen is dropped: those rows are gone.
    pub fn swap_log_view(&mut self)
        ensures
            *final(self) == old(self).swapped(
                final(self).log_visible_rows,
                final(self).log_row_sources,
            ),
            final(self).log_visible_rows@.len() == 0,
            final(self).log_row_sources@.len() == 0,
    {
        std::mem::swap(&mut self.view_index, &mut self.stashed_view.index);
        std::mem::swap(&mut self.log_scroll, &mut self.stashed_view.scroll);
        std::mem::swap(&mut self.log_rows_above, &mut self.stashed_view.rows_above);
        std::mem::swap(&mut self.log_total_rows, &mut self.stashed_view.total_rows);
        std::mem::swap(&mut self.blank_after, &mut self.stashed_view.blank_after);
        std::mem::swap(&mut self.blank_epoch, &mut self.stashed_view.blank_epoch);
        self.log_visible_rows.clear();
        self.log_row_sources.clear();
        self.log_selection.clear();
        self.follow_paused_for_selection = false;
        self.pending_scroll = PendingScroll::default();
        self.debug_view = !self.debug_view;
    }

    /// What is written into the hasher that keys the row index.
    pub open spec fn fingerprint_writes(self) -> Seq<Seq<u8>> {
        seq![seq![if self.shutdown_started { 1u8 } else { 0u8 }]] + filter_writes(
            self.filter@.active,
        ) + seq![number_bytes(self.blank_epoch)]
    }

    /// A fingerprint of everything that decides which lines are shown and how
    /// tall they are.
    pub fn log_filter_fingerprint(&self) -> (r: u64)
        ensures
            r == DefaultHasher::spec_finish(self.fingerprint_writes()),
    {
        let mut hasher = DefaultHasher::new();
        let mut flag: Vec<u8> = Vec::new();
        flag.push(
            if self.shutdown_started {
                1
            } else {
                0
            },
        );
        hasher.write(flag.as_slice());
        self.filter.fingerprint(&mut hasher);
        let epoch = bytes_of_number(self.blank_epoch);
        hasher.write(epoch.as_slice());
        proof {
            assert(flag@ =~= seq![if self.shutdown_started { 1u8 } else { 0u8 }]);
            assert(hasher@ =~= self.fingerprint_writes());
        }
        hasher.finish()
    }

    /// One more blank row after a line.
    pub fn mark_blank_after(&mut self, id: LogId)
        ensures
            *final(self) == (App {
                blank_after: final(self).blank_after,
                blank_epoch: final(self).blank_epoch,
                ..*old(self)
            }),
            final(self).blank_epoch as int == (old(self).blank_epoch + 1)
                % 0x1_0000_0000_0000_0000,
            final(self).blank_after@ == with_mark(old(self).blank_after@, id),
    {
        self.blank_after.mark(id);
        self.blank_epoch = self.blank_epoch.wrapping_add(1);
    }

    /// Forgets marks on lines the store no longer holds. The epoch stays: such
    /// a mark was already contributing nothing.
    pub fn prune_blank_marks(&mut self, oldest: Option<LogId>)
        ensures
            *final(self) == (App { blank_after: final(self).blank_after, ..*old(self) }),
            final(self).blank_after@ == (match oldest {
                Some(oldest) => old(self).blank_after@.restrict(
                    Set::new(|id: LogId| id.0 >= oldest.0),
                ),
                None => Map::<LogId, u16>::empty(),
            }),
    {
        self.blank_after.prune(oldest);
    }

    /// Shows only one process in the log, remembering what to go back to. Says
    /// whether anything changed.
    pub fn narrow_log_to(&mut self, name: &str) -> (r: bool)
        ensures
            r == (old(self).filter@.names.contains(name@) && old(self).filter@.active
                != set![name@]),
            *final(self) == (App {
                filter: final(self).filter,
                filter_narrowed_from: final(self).filter_narrowed_from,
                ..*old(self)
            }),
            (final(self).filter@, members(final(self).filter_narrowed_from)) == narrowed(
                old(self).filter@,
                members(old(self).filter_narrowed_from),
                name@,
            ),
    {
        match self.filter.narrow_to(name) {
            Some(previous) => {
                if self.filter_narrowed_from.is_none() {
                    self.filter_narrowed_from = Some(previous);
                }
                true
            },
            None => false,
        }
    }

    /// Puts back the selection that narrowing replaced. Says whether there was
    /// one.
    pub fn widen_log_from_narrow(&mut self) -> (r: bool)
        ensures
            r == (old(self).filter_narrowed_from is Some),
            *final(self) == (App {
                filter: final(self).filter,
                filter_narrowed_from: None,
                ..*old(self)
            }),
            final(self).filter@ == widened(
                old(self).filter@,
                members(old(self).filter_narrowed_from),
            ).0,
    {
        match self.filter_narrowed_from.take() {
            Some(previous) => {
                self.filter.restore(previous);
                true
            },
            None => false,
        }
    }

    /// The one process the log is narrowed to.
    pub open spec fn narrowed_name(self) -> Option<Seq<char>> {
        if self.filter_narrowed_from is Some && self.filter@.active.len() == 1 {
            Some(self.filter@.active.choose())
        } else {
            None
        }
    }

    /// The one process the log is narrowed to, if it is.
    pub fn narrowed_to(&self) -> (r: Option<String>)
        ensures
            text_of(r) == self.narrowed_name(),
    {
        if self.filter_narrowed_from.is_none() {
            return None;
        }
        let names = self.filter.active_names();
        proof {
            crate::names::lemma_sorted_distinct(views(names@));
            views(names@).unique_seq_to_set();
        }
        if names.len() != 1 {
            return None;
        }
        proof {
            let only = self.filter@.active.choose();
            assert(self.filter@.active.len() != 0);
            vstd::set::axiom_set_choose_len(self.filter@.active);
            assert(views(names@).contains(only));
            assert(views(names@)[0] == only);
        }
        Some(names[0].clone())
    }

    /// Whether the pane shows a line.
    pub open spec fn renders(self, name: Seq<char>) -> bool {
        self.shutdown_started || self.filter@.lets(name)
    }

    /// Whether the pane shows a line. During shutdown it shows every one: the
    /// reader wants to see everything being torn down.
    pub fn should_render_log(&self, name: &str, _is_lifecycle: bool) -> (r: bool)
        ensures
            r == self.renders(name@),
    {
        if self.shutdown_started {
            return true;
        }
        self.filter.passes(name)
    }

    /// Where a name stands in a captured order.
    pub fn ordered_position(order: &Vec<String>, name: &str) -> (r: Option<usize>)
        ensures
            match r {
                Some(at) => place_in(views(order@), name@) == Some(at as int),
                None => place_in(views(order@), name@) is None,
            },
    {
        find_place(order, name)
    }

    /// The rows of the services table.
    pub fn service_items(&self) -> (r: Vec<OverlayItem>)
        ensures
            service_names(r@) == services_rows(*self),
            is_services_table(*self, service_names(r@)),
            r@.len() == service_names(r@).len(),
            forall|i: int| 0 <= i < r@.len() ==> describes_service(*self, #[trigger] r@[i]),
    {
        let n: usize = self.services_state.len();
        let mut rows: Vec<RankedRow> = Vec::new();
        let ghost names = self.services_state.order();
        let ghost wanted = matching_names(self.services_state@, self.services_table@.query);
        let ghost order = views(self.services_order@);
        let ghost buckets = service_buckets(self.services_state@);
        let mut i: usize = 0;
        proof {
            assert(names.take(0) =~= Seq::<Seq<char>>::empty());
            assert(row_names(rows@) =~= Seq::<Seq<char>>::empty());
            assert(row_names(rows@).to_set() =~= wanted.intersect(names.take(0).to_set()));
        }
        while i < n
            invariant
                i <= n,
                n == names.len(),
                names == self.services_state.order(),
                names.no_duplicates(),
                names.to_set() == self.services_state@.dom(),
                wanted == matching_names(self.services_state@, self.services_table@.query),
                order == views(self.services_order@),
                buckets == service_buckets(self.services_state@),
                forall|j: int|
                    0 <= j < rows@.len() ==> crate::rows::knows_rank(
                        #[trigger] rows@[j],
                        order,
                        buckets,
                    ),
                in_rank_order(row_names(rows@), order, buckets),
                row_names(rows@).to_set() == wanted.intersect(names.take(i as int).to_set()),
            decreases n - i,
        {
            let name = self.services_state.key_at(i);
            let state = *self.services_state.value_at(i);
            proof {
                lemma_take_set(names, i as int);
                assert(!names.take(i as int).contains(name@)) by {
                    if names.take(i as int).contains(name@) {
                        let j = names.take(i as int).index_of(name@);
                        assert(names[j] == names[i as int]);
                    }
                }
            }
            if fuzzy_matches(self.services_table.query.as_str(), name.as_str()) {
                let row = RankedRow {
                    name: name.clone(),
                    place: App::ordered_position(&self.services_order, name.as_str()),
                    bucket: bucket_of_service(state),
                };
                proof {
                    if row_names(rows@).contains(name@) {
                        assert(row_names(rows@).to_set().contains(name@));
                        assert(names.take(i as int).to_set().contains(name@));
                    }
                }
                place_row(&mut rows, row, Ghost(order), Ghost(buckets));
            }
            proof {
                assert(row_names(rows@).to_set() =~= wanted.intersect(
                    names.take(i + 1).to_set(),
                ));
            }
            i += 1;
        }
        proof {
            assert(names.take(n as int) =~= names);
            assert(wanted.intersect(names.to_set()) =~= wanted);
        }
        let mut items: Vec<OverlayItem> = Vec::new();
        let mut k: usize = 0;
        while k < rows.len()
            invariant
                k <= rows@.len(),
                items@.len() == k,
                row_names(rows@).to_set() == matching_names(
                    self.services_state@,
                    self.services_table@.query,
                ),
                forall|j: int| 0 <= j < k ==> (#[trigger] items@[j]).name@ == rows@[j].name@,
                forall|j: int| 0 <= j < k ==> describes_service(*self, #[trigger] items@[j]),
            decreases rows@.len() - k,
        {
            let name = rows[k].name.as_str();
            proof {
                assert(row_names(rows@)[k as int] == name@);
                assert(row_names(rows@).to_set().contains(name@));
            }
            match self.services_state.get(name) {
                Some(state) => {
                    let pid = match self.service_pids.get(name) {
                        Some(pid) => *pid,
                        None => None,
                    };
                    items.push(
                        OverlayItem {
                            name: name.to_owned(),
                            state: *state,
                            pid,
                            failed_dependencies: blockers_of(&self.failed_dependencies, name),
                        },
                    );
                },
                None => {},
            }
            k += 1;
        }
        proof {
            assert(service_names(items@) =~= row_names(rows@));
            lemma_services_rows(*self, service_names(items@));
        }
        items
    }

    /// The rows of the tasks table.
    pub fn task_items(&self) -> (r: Vec<TaskStatusItem>)
        ensures
            task_names(r@) == tasks_rows(*self),
            is_tasks_table(*self, task_names(r@)),
            r@.len() == task_names(r@).len(),
            forall|i: int| 0 <= i < r@.len() ==> describes_task(*self, #[trigger] r@[i]),
    {
        let n: usize = self.tasks_state.len();
        let mut rows: Vec<RankedRow> = Vec::new();
        let ghost names = self.tasks_state.order();
        let ghost wanted = matching_names(self.tasks_state@, self.tasks_table@.query);
        let ghost order = views(self.tasks_order@);
        let ghost buckets = task_buckets(self.tasks_state@);
        let mut i: usize = 0;
        proof {
            assert(names.take(0) =~= Seq::<Seq<char>>::empty());
            assert(row_names(rows@) =~= Seq::<Seq<char>>::empty());
            assert(row_names(rows@).to_set() =~= wanted.intersect(names.take(0).to_set()));
        }
        while i < n
            invariant
                i <= n,
                n == names.len(),
                names == self.tasks_state.order(),
                names.no_duplicates(),
                names.to_set() == self.tasks_state@.dom(),
                wanted == matching_names(self.tasks_state@, self.tasks_table@.query),
                order == views(self.tasks_order@),
                buckets == task_buckets(self.tasks_state@),
                forall|j: int|
                    0 <= j < rows@.len() ==> crate::rows::knows_rank(
                        #[trigger] rows@[j],
                        order,
                        buckets,
                    ),
                in_rank_order(row_names(rows@), order, buckets),
                row_names(rows@).to_set() == wanted.intersect(names.take(i as int).to_set()),
            decreases n - i,
        {
            let name = self.tasks_state.key_at(i);
            let state = *self.tasks_state.value_at(i);
            proof {
                lemma_take_set(names, i as int);
                assert(!names.take(i as int).contains(name@)) by {
                    if names.take(i as int).contains(name@) {
                        let j = names.take(i as int).index_of(name@);
                        assert(names[j] == names[i as int]);
                    }
                }
            }
            if fuzzy_matches(self.tasks_table.query.as_str(), name.as_str()) {
                let row = RankedRow {
                    name: name.clone(),
                    place: App::ordered_position(&self.tasks_order, name.as_str()),
                    bucket: bucket_of_task(state),
                };
                proof {
                    if row_names(rows@).contains(name@) {
                        assert(row_names(rows@).to_set().contains(name@));
                        assert(names.take(i as int).to_set().contains(name@));
                    }
                }
                place_row(&mut rows, row, Ghost(order), Ghost(buckets));
            }
            proof {
                assert(row_names(rows@).to_set() =~= wanted.intersect(
                    names.take(i + 1).to_set(),
                ));
            }
            i += 1;
        }
        proof {
            assert(names.take(n as int) =~= names);
            assert(wanted.intersect(names.to_set()) =~= wanted);
        }
        let mut items: Vec<TaskStatusItem> = Vec::new();
        let mut k: usize = 0;
        while k < rows.len()
            invariant
                k <= rows@.len(),
                items@.len() == k,
                row_names(rows@).to_set() == matching_names(
                    self.tasks_state@,
                    self.tasks_table@.query,
                ),
                forall|j: int| 0 <= j < k ==> (#[trigger] items@[j]).name@ == rows@[j].name@,
                forall|j: int| 0 <= j < k ==> describes_task(*self, #[trigger] items@[j]),
            decreases rows@.len() - k,
        {
            let name = rows[k].name.as_str();
            proof {
                assert(row_names(rows@)[k as int] == name@);
                assert(row_names(rows@).to_set().contains(name@));
            }
            match self.tasks_state.get(name) {
                Some(state) => {
                    let last_run = match self.tasks_last_run.get(name) {
                        Some(run) => Some(run.copy()),
                        None => None,
                    };
                    let has_params = match self.task_configs.get(name) {
                        Some(task) => task.params.len() > 0,
                        None => false,
                    };
                    items.push(
                        TaskStatusItem {
                            name: name.to_owned(),
                            state: *state,
                            failed_dependencies: blockers_of(&self.failed_dependencies, name),
                            last_run,
                            has_params,
                        },
                    );
                },
                None => {},
            }
            k += 1;
        }
        proof {
            assert(task_names(items@) =~= row_names(rows@));
            lemma_tasks_rows(*self, task_names(items@));
        }
        items
    }

    /// Captures the order the services table holds from now on: sorted by
    /// state.
    pub fn freeze_services_order(&mut self)
        ensures
            *final(self) == (App { services_order: final(self).services_order, ..*old(self) }),
            is_table(
                views(final(self).services_order@),
                matching_names(old(self).services_state@, old(self).services_table@.query),
                Seq::empty(),
                service_buckets(old(self).services_state@),
            ),
    {
        self.services_order.clear();
        let items = self.service_items();
        let mut names: Vec<String> = Vec::new();
        let mut i: usize = 0;
        while i < items.len()
            invariant
                i <= items@.len(),
                names@.len() == i,
                forall|j: int| 0 <= j < i ==> (#[trigger] names@[j])@ == items@[j].name@,
            decreases items@.len() - i,
        {
            names.push(items[i].name.clone());
            i += 1;
        }
        proof {
            assert(views(names@) =~= service_names(items@));
            assert(views(self.services_order@) =~= Seq::<Seq<char>>::empty());
        }
        self.services_order = names;
    }

    /// Captures the order the tasks table holds from now on: sorted by state.
    pub fn freeze_tasks_order(&mut self)
        ensures
            *final(self) == (App { tasks_order: final(self).tasks_order, ..*old(self) }),
            is_table(
                views(final(self).tasks_order@),
                matching_names(old(self).tasks_state@, old(self).tasks_table@.query),
                Seq::empty(),
                task_buckets(old(self).tasks_state@),
            ),
    {
        self.tasks_order.clear();
        let items = self.task_items();
        let mut names: Vec<String> = Vec::new();
        let mut i: usize = 0;
        while i < items.len()
            invariant
                i <= items@.len(),
                names@.len() == i,
                forall|j: int| 0 <= j < i ==> (#[trigger] names@[j])@ == items@[j].name@,
            decreases items@.len() - i,
        {
            names.push(items[i].name.clone());
            i += 1;
        }
        proof {
            assert(views(names@) =~= task_names(items@));
            assert(views(self.tasks_order@) =~= Seq::<Seq<char>>::empty());
        }
        self.tasks_order = names;
    }

    /// Whether there is a failure to summarize.
    pub fn has_failure_summary(&self) -> (r: bool)
        ensures
            r == anything_failed(self.services_state@, self.tasks_state@),
    {
        has_failures(&self.services_state, &self.tasks_state)
    }

    /// The summary of failures.
    pub fn failure_summary_items(&self) -> (r: Vec<FailureSummaryItem>)
        ensures
            summarizes(
                culprits(r@),
                self.services_state@,
                self.tasks_state@,
                self.failed_dependencies@,
            ),
    {
        collect(&self.services_state, &self.tasks_state, &self.failed_dependencies)
    }

    /// Opens the summary of failures at its top.
    pub fn open_failure_summary(&mut self)
        ensures
            *final(self) == (App {
                failure_summary_scroll: 0,
                view_mode: ViewMode::Failures,
                ..*old(self)
            }),
    {
        self.failure_summary_scroll = 0;
        self.set_view_mode(ViewMode::Failures);
    }

    /// Changes what is on screen.
    pub fn set_view_mode(&mut self, mode: ViewMode)
        ensures
            *final(self) == (App { view_mode: mode, ..*old(self) }),
    {
        self.view_mode = mode;
    }

    /// Scrolls the summary of failures by some rows.
    pub fn scroll_failure_summary_by(&mut self, delta: isize)
        ensures
            *final(self) == (App {
                failure_summary_scroll: final(self).failure_summary_scroll,
                ..*old(self)
            }),
            final(self).failure_summary_scroll as int == scrolled_by(
                old(self).failure_summary_scroll as int,
                delta as int,
            ),
    {
        let moved: i128 = self.failure_summary_scroll as i128 + delta as i128;
        self.failure_summary_scroll = if moved < 0 {
            0
        } else if moved > usize::MAX as i128 {
            usize::MAX
        } else {
            moved as usize
        };
    }

    /// Scrolls the summary of failures to its top.
    pub fn scroll_failure_summary_to_top(&mut self)
        ensures
            *final(self) == (App { failure_summary_scroll: 0, ..*old(self) }),
    {
        self.failure_summary_scroll = 0;
    }

    /// Scrolls the summary of failures past its end; drawing brings it back.
    pub fn scroll_failure_summary_to_bottom(&mut self)
        ensures
            *final(self) == (App { failure_summary_scroll: usize::MAX, ..*old(self) }),
    {
        self.failure_summary_scroll = usize::MAX;
    }

    /// Keeps the scroll of the summary of failures within what there is.
    pub fn sync_failure_summary_scroll(&mut self, max_scroll: usize)
        ensures
            *final(self) == (App {
                failure_summary_scroll: if old(self).failure_summary_scroll < max_scroll {
                    old(self).failure_summary_scroll
                } else {
                    max_scroll
                },
                ..*old(self)
            }),
    {
        if self.failure_summary_scroll >= max_scroll {
            self.failure_summary_scroll = max_scroll;
        }
    }

    /// The runner says a service is in a state. Says whether the filter's
    /// selection grew.
    pub fn apply_service_runtime(
        &mut self,
        name: String,
        state: ServiceState,
        pid: Option<i32>,
        failed_dependencies: Vec<String>,
    ) -> (r: bool)
        ensures
            *final(self) == (App {
                filter: final(self).filter,
                services_state: final(self).services_state,
                service_pids: final(self).service_pids,
                attach: after_departure(old(self).attach, name@, !has_terminal(state)),
                failed_dependencies: final(self).failed_dependencies,
                counts: final(self).counts,
                ..*old(self)
            }),
            ({
                let fires = state == ServiceState::Failed
                    && old(self).auto_filter_on_failure_names@.contains(name@);
                &&& final(self).filter@ == (if fires {
                    selecting(old(self).filter@, name@)
                } else {
                    old(self).filter@
                })
                &&& r == (fires && old(self).filter@.names.contains(name@)
                    && !old(self).filter@.active.contains(name@))
            }),
            final(self).services_state@ == old(self).services_state@.insert(name@, state),
            final(self).service_pids@ == old(self).service_pids@.insert(name@, pid),
            lists(final(self).failed_dependencies@) == with_blockers(
                lists(old(self).failed_dependencies@),
                name@,
                views(failed_dependencies@),
            ),
            counts_all(final(self).counts, final(self).services_state@, final(self).tasks_state@),
    {
        let filter_changed = state == ServiceState::Failed
            && self.auto_filter_on_failure_names.contains(name.as_str())
            && self.filter.select_name(name.as_str());
        self.services_state.insert(name.clone(), state);
        self.service_pids.insert(name.clone(), pid);
        let lives = state == ServiceState::Starting || state == ServiceState::Running || state
            == ServiceState::Ready || state == ServiceState::Unhealthy;
        if !lives {
            self.note_attached_process_gone(name.as_str());
        }
        self.apply_failed_dependencies(name, failed_dependencies);
        self.counts = StatusCounts::from_state(&self.services_state, &self.tasks_state);
        filter_changed
    }

    /// A task that waits for a human has started: its window opens by itself,
    /// unless one is open or asked for.
    pub fn note_interactive_task_started(&mut self, name: &str)
        ensures
            *final(self) == (App {
                bridge_request: final(self).bridge_request,
                attach_opened_automatically: if asks_for_window(*old(self), name@) {
                    true
                } else {
                    old(self).attach_opened_automatically
                },
                ..*old(self)
            }),
            text_of(final(self).bridge_request) == (if asks_for_window(*old(self), name@) {
                Some(name@)
            } else {
                text_of(old(self).bridge_request)
            }),
            !asks_for_window(*old(self), name@) ==> *final(self) == *old(self),
    {
        if self.attach.is_some() || self.bridge_request.is_some() {
            return;
        }
        let interactive = match self.task_configs.get(name) {
            Some(task) => task.interactive,
            None => false,
        };
        if !interactive {
            return;
        }
        self.bridge_request = Some(name.to_owned());
        self.attach_opened_automatically = true;
    }

    /// A task has stopped running. If its window opened itself and the task
    /// did not fail, the window goes with it.
    pub fn note_auto_attached_task_finished(&mut self, name: &str, state: TaskState)
        ensures
            *final(self) == (App {
                attach_dismiss_requested: old(self).attach_dismiss_requested || (state
                    != TaskState::Failed && old(self).attach_opened_automatically
                    && match old(self).attach {
                    Some(view) => view.name@ == name@,
                    None => false,
                }),
                ..*old(self)
            }),
    {
        if !self.attach_opened_automatically || state == TaskState::Failed {
            return;
        }
        let mine = match &self.attach {
            Some(view) => same(view.name.as_str(), name),
            None => false,
        };
        if mine {
            self.attach_dismiss_requested = true;
        }
    }

    /// The process in the window, if it is this one, is gone. The window stays.
    pub fn note_attached_process_gone(&mut self, name: &str)
        ensures
            *final(self) == (App {
                attach: after_departure(old(self).attach, name@, true),
                ..*old(self)
            }),
    {
        match &mut self.attach {
            Some(view) => {
                if same(view.name.as_str(), name) {
                    view.ended = true;
                }
            },
            None => {},
        }
    }

    fn note_task_state(&mut self, name: &str, state: TaskState)
        ensures
            *final(self) == (App {
                tasks_state: final(self).tasks_state,
                bridge_request: final(self).bridge_request,
                attach_opened_automatically: old(self).attach_opened_automatically
                    || opens_window(*old(self), name@, state),
                attach_dismiss_requested: old(self).attach_dismiss_requested || closes_window(
                    *old(self),
                    name@,
                    state,
                ),
                attach: after_departure(old(self).attach, name@, can_run(state)),
                ..*old(self)
            }),
            final(self).tasks_state@ == old(self).tasks_state@.insert(name@, state),
            text_of(final(self).bridge_request) == (if opens_window(*old(self), name@, state) {
                Some(name@)
            } else {
                text_of(old(self).bridge_request)
            }),
            !opens_window(*old(self), name@, state) ==> final(self).bridge_request
                == old(self).bridge_request,
    {
        let was_running = match self.tasks_state.get(name) {
            Some(was) => *was == TaskState::Running,
            None => false,
        };
        self.tasks_state.insert(name.to_owned(), state);
        if state == TaskState::Running && !was_running {
            self.note_interactive_task_started(name);
        }
        if state != TaskState::Running && state != TaskState::Building {
            self.note_attached_process_gone(name);
            self.note_auto_attached_task_finished(name, state);
        }
    }

    fn note_task_details(
        &mut self,
        name: String,
        last_run: Option<TaskRunInfo>,
        failed_dependencies: Vec<String>,
    )
        ensures
            *final(self) == (App {
                failed_dependencies: final(self).failed_dependencies,
                tasks_last_run: final(self).tasks_last_run,
                counts: final(self).counts,
                ..*old(self)
            }),
            lists(final(self).failed_dependencies@) == with_blockers(
                lists(old(self).failed_dependencies@),
                name@,
                views(failed_dependencies@),
            ),
            final(self).tasks_last_run@ == (match last_run {
                Some(run) => old(self).tasks_last_run@.insert(name@, run),
                None => old(self).tasks_last_run@,
            }),
            counts_all(final(self).counts, final(self).services_state@, final(self).tasks_state@),
    {
        self.apply_failed_dependencies(name.clone(), failed_dependencies);
        if let Some(run) = last_run {
            self.tasks_last_run.insert(name, run);
        }
        self.counts = StatusCounts::from_state(&self.services_state, &self.tasks_state);
    }

    /// The runner says a task is in a state. Says whether the filter's
    /// selection grew.
    pub fn apply_task_state(
        &mut self,
        name: String,
        state: TaskState,
        last_run: Option<TaskRunInfo>,
        failed_dependencies: Vec<String>,
    ) -> (r: bool)
        ensures
            *final(self) == (App {
                filter: final(self).filter,
                tasks_state: final(self).tasks_state,
                bridge_request: final(self).bridge_request,
                attach_opened_automatically: old(self).attach_opened_automatically
                    || opens_window(*old(self), name@, state),
                attach_dismiss_requested: old(self).attach_dismiss_requested || closes_window(
                    *old(self),
                    name@,
                    state,
                ),
                attach: after_departure(old(self).attach, name@, can_run(state)),
                failed_dependencies: final(self).failed_dependencies,
                tasks_last_run: final(self).tasks_last_run,
                counts: final(self).counts,
                ..*old(self)
            }),
            ({
                let fires = state == TaskState::Failed
                    && old(self).auto_filter_on_failure_names@.contains(name@);
                &&& final(self).filter@ == (if fires {
                    selecting(old(self).filter@, name@)
                } else {
                    old(self).filter@
                })
                &&& r == (fires && old(self).filter@.names.contains(name@)
                    && !old(self).filter@.active.contains(name@))
            }),
            final(self).tasks_state@ == old(self).tasks_state@.insert(name@, state),
            text_of(final(self).bridge_request) == (if opens_window(*old(self), name@, state) {
                Some(name@)
            } else {
                text_of(old(self).bridge_request)
            }),
            !opens_window(*old(self), name@, state) ==> final(self).bridge_request
                == old(self).bridge_request,
            lists(final(self).failed_dependencies@) == with_blockers(
                lists(old(self).failed_dependencies@),
                name@,
                views(failed_dependencies@),
            ),
            final(self).tasks_last_run@ == (match last_run {
                Some(run) => old(self).tasks_last_run@.insert(name@, run),
                None => old(self).tasks_last_run@,
            }),
            counts_all(final(self).counts, final(self).services_state@, final(self).tasks_state@),
    {
        let filter_changed = state == TaskState::Failed
            && self.auto_filter_on_failure_names.contains(name.as_str())
            && self.filter.select_name(name.as_str());
        self.note_task_state(name.as_str(), state);
        self.note_task_details(name, last_run, failed_dependencies);
        filter_changed
    }

    fn absorb(&mut self, status: &ProcessStatus)
        ensures
            *final(self) == (App {
                services_state: final(self).services_state,
                service_pids: final(self).service_pids,
                tasks_state: final(self).tasks_state,
                failed_dependencies: final(self).failed_dependencies,
                tasks_last_run: final(self).tasks_last_run,
                ..*old(self)
            }),
            final(self).records() == old(self).records().absorbing(*status),
    {
        match status {
            ProcessStatus::Service { name, state, failed_dependencies, runtime } => {
                let pid = match runtime {
                    Some(rt) => rt.pid,
                    None => None,
                };
                self.service_pids.insert(name.clone(), pid);
                self.services_state.insert(name.clone(), *state);
                self.apply_failed_dependencies(name.clone(), copy_names(failed_dependencies));
            },
            ProcessStatus::Task { name, state, failed_dependencies, last_run } => {
                self.tasks_state.insert(name.clone(), *state);
                self.apply_failed_dependencies(name.clone(), copy_names(failed_dependencies));
                if let Some(run) = last_run {
                    self.tasks_last_run.insert(name.clone(), run.copy());
                }
            },
        }
    }

    /// Takes every process's state from a snapshot, because events were
    /// dropped and what was believed may be wrong. Nothing else changes, the
    /// filter least of all: a snapshot of a failure is not a failure.
    pub fn resync_from(&mut self, snapshot: &StateSnapshot)
        ensures
            *final(self) == (App {
                services_state: final(self).services_state,
                service_pids: final(self).service_pids,
                tasks_state: final(self).tasks_state,
                failed_dependencies: final(self).failed_dependencies,
                tasks_last_run: final(self).tasks_last_run,
                counts: final(self).counts,
                ..*old(self)
            }),
            final(self).records() == old(self).records().absorbing_all(snapshot.processes@),
            counts_all(final(self).counts, final(self).services_state@, final(self).tasks_state@),
    {
        let mut i: usize = 0;
        let ghost all = snapshot.processes@;
        let ghost start = *self;
        assert(all.take(0) =~= Seq::<ProcessStatus>::empty());
        while i < snapshot.processes.len()
            invariant
                i <= snapshot.processes@.len(),
                all == snapshot.processes@,
                *self == (App {
                    services_state: self.services_state,
                    service_pids: self.service_pids,
                    tasks_state: self.tasks_state,
                    failed_dependencies: self.failed_dependencies,
                    tasks_last_run: self.tasks_last_run,
                    ..start
                }),
                self.records() == start.records().absorbing_all(all.take(i as int)),
            decreases snapshot.processes@.len() - i,
        {
            proof {
                assert(all.take(i + 1).drop_last() =~= all.take(i as int));
                assert(all.take(i + 1).last() == all[i as int]);
            }
            self.absorb(&snapshot.processes[i]);
            i += 1;
        }
        assert(all.take(all.len() as int) =~= all);
        self.counts = StatusCounts::from_state(&self.services_state, &self.tasks_state);
    }

    /// Puts on record what a process waits for; nothing clears the record.
    pub fn apply_failed_dependencies(&mut self, name: String, dependencies: Vec<String>)
        ensures
            *final(self) == (App {
                failed_dependencies: final(self).failed_dependencies,
                ..*old(self)
            }),
            lists(final(self).failed_dependencies@) == with_blockers(
                lists(old(self).failed_dependencies@),
                name@,
                views(dependencies@),
            ),
    {
        let ghost before = self.failed_dependencies@;
        let ghost key = name@;
        let ghost list = views(dependencies@);
        assert(list.len() == dependencies@.len());
        if dependencies.len() == 0 {
            self.failed_dependencies.remove(name.as_str());
            assert(lists(self.failed_dependencies@) =~= lists(before).remove(key));
        } else {
            self.failed_dependencies.insert(name, dependencies);
            assert(lists(self.failed_dependencies@) =~= lists(before).insert(key, list));
        }
    }
}

/// The marks after one more blank row.
pub open spec fn with_mark(marks: Map<LogId, u16>, id: LogId) -> Map<LogId, u16> {
    marks.insert(
        id,
        (if blank_rows(marks, id) == u16::MAX {
            u16::MAX as int
        } else {
            blank_rows(marks, id) + 1
        }) as u16,
    )
}

/// A row moved by some rows, kept within what a row number can be.
pub open spec fn scrolled_by(at: int, delta: int) -> int {
    if at + delta < 0 {
        0
    } else if at + delta > usize::MAX {
        usize::MAX as int
    } else {
        at + delta
    }
}

/// Bringing the other record to the front twice puts everything of the log
/// pane back that a switch does not drop: the index, the scroll, the geometry
/// and the blank rows of both records.
pub proof fn swapping_twice_restores_the_pane(
    app: App,
    rows: Vec<String>,
    sources: Vec<RowSource>,
    rows_again: Vec<String>,
    sources_again: Vec<RowSource>,
)
    ensures
        ({
            let back = app.swapped(rows, sources).swapped(rows_again, sources_again);
            back == (App {
                log_visible_rows: rows_again,
                log_row_sources: sources_again,
                log_selection: Selection::none(),
                follow_paused_for_selection: false,
                pending_scroll: PendingScroll::nothing(),
                ..app
            })
        }),
{
}

/// Narrowing to one process and then to another still widens to the selection
/// there was before either.
pub proof fn widening_undoes_every_narrowing(filter: FilterView, a: Seq<char>, b: Seq<char>)
    ensures
        ({
            let (once, from) = narrowed(filter, None, a);
            let (twice, still_from) = narrowed(once, from, b);
            widened(twice, still_from).0 == filter
        }),
{
    let (once, from) = narrowed(filter, None, a);
    let (twice, still_from) = narrowed(once, from, b);
    assert(widened(twice, still_from).0 =~= filter);
}

/// The name of a process in a snapshot.
pub open spec fn status_name(status: ProcessStatus) -> Seq<char> {
    match status {
        ProcessStatus::Service { name, .. } => name@,
        ProcessStatus::Task { name, .. } => name@,
    }
}

/// A resync ends drift: afterwards the state, the process id and the blockers
/// of every process in the snapshot are the snapshot's, whatever was believed
/// before.
pub proof fn a_resync_ends_drift(before: Records, statuses: Seq<ProcessStatus>, i: int)
    requires
        0 <= i < statuses.len(),
        forall|a: int, b: int|
            0 <= a < b < statuses.len() ==> status_name(#[trigger] statuses[a]) != status_name(
                #[trigger] statuses[b],
            ),
    ensures
        ({
            let after = before.absorbing_all(statuses);
            match statuses[i] {
                ProcessStatus::Service { name, state, failed_dependencies, runtime } => {
                    &&& after.services.contains_key(name@) && after.services[name@] == state
                    &&& after.pids.contains_key(name@) && after.pids[name@] == (match runtime {
                        Some(rt) => rt.pid,
                        None => None,
                    })
                    &&& if failed_dependencies@.len() == 0 {
                        !after.blockers.contains_key(name@)
                    } else {
                        after.blockers.contains_key(name@) && after.blockers[name@] == views(
                            failed_dependencies@,
                        )
                    }
                },
                ProcessStatus::Task { name, state, failed_dependencies, last_run } => {
                    &&& after.tasks.contains_key(name@) && after.tasks[name@] == state
                    &&& last_run matches Some(run) ==> after.last_runs.contains_key(name@)
                        && after.last_runs[name@] == run
                    &&& if failed_dependencies@.len() == 0 {
                        !after.blockers.contains_key(name@)
                    } else {
                        after.blockers.contains_key(name@) && after.blockers[name@] == views(
                            failed_dependencies@,
                        )
                    }
                },
            }
        }),
    decreases statuses.len(),
{
    let last = statuses.len() - 1;
    if i < last {
        assert(statuses.drop_last()[i] == statuses[i]);
        assert(status_name(statuses[i]) != status_name(statuses[last]));
        a_resync_ends_drift(before, statuses.drop_last(), i);
    }
}

/// Forgetting marks on lines that are gone leaves the row index's key alone.
pub proof fn pruning_marks_rekeys_nothing(app: App, kept: BlankMarks)
    ensures
        (App { blank_after: kept, ..app }).fingerprint_writes() == app.fingerprint_writes(),
{
}

/// In a table that was just opened, what failed stands first and what needs
/// nothing last: services that failed or are unhealthy, then those that wait for
/// a failed one, those coming up, running, ready, stopping, stopped, and last
/// those not yet wanted. Within a group they go by their names.
pub proof fn services_stand_by_urgency(
    services: Map<Seq<char>, ServiceState>,
    query: Seq<char>,
    names: Seq<Seq<char>>,
    i: int,
    j: int,
)
    requires
        is_table(names, matching_names(services, query), Seq::empty(), service_buckets(services)),
        0 <= i < j < names.len(),
    ensures
        ({
            let a = services[names[i]];
            let b = services[names[j]];
            &&& services.contains_key(names[i]) && services.contains_key(names[j])
            &&& b == ServiceState::Failed || b == ServiceState::Unhealthy ==> a
                == ServiceState::Failed || a == ServiceState::Unhealthy
            &&& b == ServiceState::DependencyFailed ==> a == ServiceState::Failed || a
                == ServiceState::Unhealthy || a == ServiceState::DependencyFailed
            &&& b == ServiceState::Running ==> a != ServiceState::Ready && a
                != ServiceState::Stopping && a != ServiceState::Stopped && a != ServiceState::Lazy
            &&& b == ServiceState::Ready ==> a != ServiceState::Stopping && a
                != ServiceState::Stopped && a != ServiceState::Lazy
            &&& b == ServiceState::Stopping ==> a != ServiceState::Stopped && a
                != ServiceState::Lazy
            &&& b == ServiceState::Stopped ==> a != ServiceState::Lazy
            &&& b == ServiceState::Pending || b == ServiceState::Building || b
                == ServiceState::Starting ==> a != ServiceState::Running && a
                != ServiceState::Ready && a != ServiceState::Stopping && a
                != ServiceState::Stopped && a != ServiceState::Lazy
            &&& a == b ==> text_before(names[i], names[j])
        }),
{
    assert(names.to_set().contains(names[i]));
    assert(names.to_set().contains(names[j]));
    assert(place_in(Seq::<Seq<char>>::empty(), names[i]) is None);
    assert(place_in(Seq::<Seq<char>>::empty(), names[j]) is None);
}

/// In a table that was just opened tasks that failed stand first, then those
/// that wait for a failed one, those waiting to be run, those under way, those
/// to come, those done, and last those skipped. Within a group they go by their
/// names.
pub proof fn tasks_stand_by_urgency(
    tasks: Map<Seq<char>, TaskState>,
    query: Seq<char>,
    names: Seq<Seq<char>>,
    i: int,
    j: int,
)
    requires
        is_table(names, matching_names(tasks, query), Seq::empty(), task_buckets(tasks)),
        0 <= i < j < names.len(),
    ensures
        ({
            let a = tasks[names[i]];
            let b = tasks[names[j]];
            &&& tasks.contains_key(names[i]) && tasks.contains_key(names[j])
            &&& b == TaskState::Failed ==> a == TaskState::Failed
            &&& b == TaskState::DependencyFailed ==> a == TaskState::Failed || a
                == TaskState::DependencyFailed
            &&& b == TaskState::PendingRun ==> a == TaskState::Failed || a
                == TaskState::DependencyFailed || a == TaskState::PendingRun
            &&& b == TaskState::Running || b == TaskState::Building ==> a != TaskState::Pending && a
                != TaskState::Completed && a != TaskState::Skipped
            &&& b == TaskState::Pending ==> a != TaskState::Completed && a != TaskState::Skipped
            &&& b == TaskState::Completed ==> a != TaskState::Skipped
            &&& a == b ==> text_before(names[i], names[j])
        }),
{
    assert(names.to_set().contains(names[i]));
    assert(names.to_set().contains(names[j]));
    assert(place_in(Seq::<Seq<char>>::empty(), names[i]) is None);
    assert(place_in(Seq::<Seq<char>>::empty(), names[j]) is None);
}

/// A table lists exactly what is known under a name that the query finds.
pub proof fn a_table_lists_what_the_query_finds(app: App, names: Seq<Seq<char>>, name: Seq<char>)
    ensures
        is_services_table(app, names) ==> (names.contains(name)
            <==> app.services_state@.contains_key(name) && matches_query(
            app.services_table@.query,
            name,
        )),
        is_tasks_table(app, names) ==> (names.contains(name) <==> app.tasks_state@.contains_key(
            name,
        ) && matches_query(app.tasks_table@.query, name)),
{
    assert(names.to_set().contains(name) <==> names.contains(name));
}

/// To begin with the newest lines of the log are followed with nothing else
/// open, every service and task is yet to come, and every name is shown that is
/// not hidden by the configuration, or exactly those that were asked for beside
/// the runner's own lines.
pub proof fn it_begins_with_the_log(app: App, init: AppInit, name: Seq<char>)
    requires
        app.starts_from(init),
    ensures
        ({
            let known = views(init.service_names@).contains(name) || views(
                init.task_names@,
            ).contains(name) || views(init.build_tool_names@).contains(name) || name
                == LIFECYCLE_EVENT_NAME@;
            &&& app.view_mode == ViewMode::Normal && app.focus == Focus::Logs
            &&& app.log_scroll == Scroll::Follow && !app.debug_view && !app.shutdown_started
            &&& app.filter@.names.contains(name) <==> known
            &&& init.cli_log_filter is None ==> (app.filter@.active.contains(name) <==> known
                && !init.hidden_names@.contains(name))
            &&& init.cli_log_filter matches Some(allow) ==> (app.filter@.active.contains(name)
                <==> known && (allow@.contains(name) || name == LIFECYCLE_EVENT_NAME@))
            &&& app.filter@.defaults.contains(name) <==> app.filter@.active.contains(name)
            &&& views(init.service_names@).contains(name) ==> app.services_state@.contains_key(name)
                && app.services_state@[name] == ServiceState::Pending
            &&& views(init.task_names@).contains(name) ==> app.tasks_state@.contains_key(name)
                && app.tasks_state@[name] == TaskState::Pending
        }),
{
    let all = filterable(init);
    lemma_filterable(init, name);
    assert(app.filter@.names.contains(name) <==> app.filter@.names.to_set().contains(name));
    assert(all.contains(name) <==> all.to_set().contains(name));
}

proof fn lemma_filterable(init: AppInit, name: Seq<char>)
    ensures
        filterable(init).contains(name) <==> views(init.service_names@).contains(name) || views(
            init.task_names@,
        ).contains(name) || views(init.build_tool_names@).contains(name) || name
            == LIFECYCLE_EVENT_NAME@,
{
    let a = views(init.service_names@);
    let b = views(init.task_names@);
    let c = views(init.build_tool_names@);
    let all = filterable(init);
    if a.contains(name) {
        let i = choose|i: int| 0 <= i < a.len() && a[i] == name;
        assert(all[i] == name);
    }
    if b.contains(name) {
        let i = choose|i: int| 0 <= i < b.len() && b[i] == name;
        assert(all[a.len() + i] == name);
    }
    if c.contains(name) {
        let i = choose|i: int| 0 <= i < c.len() && c[i] == name;
        assert(all[a.len() + b.len() + i] == name);
    }
    if name == LIFECYCLE_EVENT_NAME@ {
        assert(all.last() == name);
    }
    if all.contains(name) {
        let i = choose|i: int| 0 <= i < all.len() && all[i] == name;
        if i < a.len() {
            assert(a[i] == name);
        } else if i < a.len() + b.len() {
            assert(b[i - a.len()] == name);
        } else if i < a.len() + b.len() + c.len() {
            assert(c[i - a.len() - b.len()] == name);
        }
    }
}

/// A line is shown when its name is, and so is a line without a name; once
/// shutdown began every line is.
pub proof fn a_line_is_shown_when_its_name_is(app: App, name: Seq<char>)
    ensures
        app.shutdown_started ==> app.renders(name),
        !app.shutdown_started && name.len() > 0 ==> (app.renders(name)
            <==> app.filter@.active.contains(name)),
        name.len() == 0 ==> app.renders(name),
{
}

/// Showing one name alone shows it and nothing else, and remembers what was
/// shown before the first time; widening shows that again.
pub proof fn narrowing_shows_one_name(
    filter: FilterView,
    from: Option<Set<Seq<char>>>,
    name: Seq<char>,
    other: Seq<char>,
)
    requires
        filter.names.contains(name),
    ensures
        narrowed(filter, from, name).0.active.contains(other) <==> other == name,
        filter.active != set![name] && from is None ==> narrowed(filter, from, name).1 == Some(
            filter.active,
        ),
        from is Some ==> narrowed(filter, from, name).1 == from,
        from matches Some(first) ==> widened(filter, from).0.active == first && widened(
            filter,
            from,
        ).1 is None,
        from is None ==> widened(filter, from).0 == filter,
        !filter.names.contains(other) ==> narrowed(filter, from, other) == (filter, from),
{
}

/// Selecting a name lets its lines be shown and hides nobody's.
pub proof fn selecting_only_adds(filter: FilterView, name: Seq<char>, other: Seq<char>)
    ensures
        filter.names.contains(name) ==> selecting(filter, name).active.contains(name),
        other != name ==> (selecting(filter, name).active.contains(other)
            <==> filter.active.contains(other)),
        !filter.names.contains(name) ==> selecting(filter, name) == filter,
{
}

/// A window onto a process opens by itself when an interactive task begins to
/// run and no other window is open or on its way; it closes by itself when that
/// task is done, but stays for the user to read where the task failed or the
/// user opened it.
pub proof fn a_window_opens_for_an_interactive_task(app: App, name: Seq<char>, state: TaskState)
    ensures
        opens_window(app, name, state) ==> {
            &&& state == TaskState::Running
            &&& app.task_configs@.contains_key(name) && app.task_configs@[name].interactive
            &&& app.attach is None && app.bridge_request is None
        },
        state == TaskState::Running && app.task_configs@.contains_key(name)
            && app.task_configs@[name].interactive && app.attach is None && app.bridge_request is None
            && !app.tasks_state@.contains_key(name) ==> opens_window(app, name, state),
        app.tasks_state@.contains_key(name) && app.tasks_state@[name] == TaskState::Running
            ==> !opens_window(app, name, state),
        state == TaskState::Failed || state == TaskState::Running || state == TaskState::Building
            ==> !closes_window(app, name, state),
        !app.attach_opened_automatically ==> !closes_window(app, name, state),
        state == TaskState::Completed && app.attach_opened_automatically && (
        app.attach matches Some(view) && view.name@ == name) ==> closes_window(app, name, state),
{
}

/// A window's process has ended when what it looks at is gone, and only then.
pub proof fn a_window_ends_with_its_process(view: AttachView, name: Seq<char>, gone: bool)
    ensures
        after_departure(None, name, gone) is None,
        after_departure(Some(view), name, gone) is Some,
        gone && view.name@ == name ==> after_departure(Some(view), name, gone)->0.ended,
        !gone || view.name@ != name ==> after_departure(Some(view), name, gone) == Some(view),
        after_departure(Some(view), name, gone)->0.window == view.window,
        after_departure(Some(view), name, gone)->0.name == view.name,
{
}

/// Only what is up, or coming up, has a terminal to look at.
pub proof fn what_runs_has_a_terminal(state: ServiceState)
    ensures
        has_terminal(state) <==> !(state == ServiceState::Pending || state
            == ServiceState::Building || state == ServiceState::Stopping || state
            == ServiceState::Stopped || state == ServiceState::Failed || state
            == ServiceState::DependencyFailed || state == ServiceState::Lazy),
{
}

/// A mark adds one blank row under its line and none under any other.
pub proof fn a_mark_adds_one_row(marks: Map<LogId, u16>, id: LogId, other: LogId)
    ensures
        blank_rows(marks, id) < u16::MAX ==> blank_rows(with_mark(marks, id), id) == blank_rows(
            marks,
            id,
        ) + 1,
        other != id ==> blank_rows(with_mark(marks, id), other) == blank_rows(marks, other),
{
}

/// A row of a table tells what is known under its name: the state, the process,
/// what it waits for, when it last ran and whether it takes parameters.
pub proof fn a_row_is_described_as_it_is_known(
    app: App,
    service: OverlayItem,
    task: TaskStatusItem,
)
    requires
        describes_service(app, service),
        describes_task(app, task),
    ensures
        service.state == app.services_state@[service.name@],
        app.service_pids@.contains_key(service.name@) ==> service.pid
            == app.service_pids@[service.name@],
        !app.service_pids@.contains_key(service.name@) ==> service.pid is None,
        app.failed_dependencies@.contains_key(service.name@) ==> views(
            service.failed_dependencies@,
        ) == views(app.failed_dependencies@[service.name@]@),
        task.state == app.tasks_state@[task.name@],
        app.tasks_last_run@.contains_key(task.name@) ==> task.last_run == Some(
            app.tasks_last_run@[task.name@],
        ),
        !app.tasks_last_run@.contains_key(task.name@) ==> task.last_run is None,
        task.has_params ==> app.task_configs@.contains_key(task.name@),
        app.task_configs@.contains_key(task.name@) ==> (task.has_params
            <==> app.task_configs@[task.name@].params@.len() > 0),
{
}

/// The log is known to have changed when shutdown begins or a blank row is
/// added: then what it is known by is never the same.
#[verifier::spinoff_prover]
#[verifier::rlimit(30)]
pub proof fn a_change_of_the_log_is_noticed(a: App, b: App)
    requires
        a.fingerprint_writes() == b.fingerprint_writes(),
    ensures
        a.shutdown_started == b.shutdown_started,
        a.blank_epoch == b.blank_epoch,
{
    let x = a.fingerprint_writes();
    let y = b.fingerprint_writes();
    assert(x[0] == y[0]);
    assert(x[0][0] == y[0][0]);
    assert(x.last() == number_bytes(a.blank_epoch));
    assert(y.last() == number_bytes(b.blank_epoch));
    numbers_are_written_apart(a.blank_epoch, b.blank_epoch);
}

/// The log is said to show one name alone when it was narrowed to it and still
/// shows it and nothing else.
pub proof fn one_name_alone_is_told(app: App, name: Seq<char>)
    ensures
        app.filter_narrowed_from is Some && app.filter@.active == set![name]
            ==> app.narrowed_name() == Some(name),
        app.filter_narrowed_from is None ==> app.narrowed_name() is None,
        app.narrowed_name() is Some ==> app.filter@.active.len() == 1,
{
    if app.filter@.active == set![name] {
        let one = set![name];
        assert(one.contains(name));
        assert(one.len() == 1);
        assert(one.contains(one.choose()));
    }
}

} // verus!
