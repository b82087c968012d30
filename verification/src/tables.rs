//! The side panel: the tables of services and tasks, and the list of names the
//! filter offers.
use crate::app::{
    can_run, service_names, services_rows, task_names, tasks_rows, App, OverlayItem,
    TaskStatusItem,
};
use crate::bar::{add_run, bold_style, run};
use crate::client::{ServiceState, TaskRunInfo, TaskState};
use crate::commands::{
    highlighted_service, highlighted_service_item, highlighted_task, highlighted_task_item,
    overlay_toggle_command, pid_of, toggle_action,
};
use crate::effects::ControlAction;
use crate::failures::blockers;
use crate::filter::{row_views, FilterFocus, FilterRow, FilterState, FilterView, RowView};
use crate::labels::{
    duration_label, format_task_duration, format_task_last_run_time, format_task_result,
    relative_time, result_label, service_color, service_label, service_state_color,
    service_state_label, task_color, task_label, task_result_color, task_state_color,
    task_state_label,
};
use crate::names::{views, NameMap};
use crate::panes::Focus;
use crate::style::{runs_of, Color, Line, Run, Span, Style, BOLD};
use crate::text::{
    a_number_reads_back, has_part, has_suffix, parsed_int, signed_decimal, signed_decimal_string,
};
use vstd::prelude::*;

verus! {

/// Below this width the services table has no column of process ids.
pub const SERVICES_PID_MIN_WIDTH: u16 = 60;

/// A column of the tasks table.
#[derive(Debug, Clone, Copy, PartialEq, Eq, Structural)]
pub enum TaskTableColumn {
    Name,
    State,
    LastRun,
    Result,
    Duration,
}

impl TaskTableColumn {
    /// The head of the column.
    pub open spec fn head(self) -> Seq<char> {
        match self {
            TaskTableColumn::Name => "NAME"@,
            TaskTableColumn::State => "STATE"@,
            TaskTableColumn::LastRun => "LAST RUN"@,
            TaskTableColumn::Result => "RESULT"@,
            TaskTableColumn::Duration => "DURATION"@,
        }
    }

    /// The head of the column.
    pub fn label(self) -> (r: &'static str)
        ensures
            r@ == self.head(),
    {
        match self {
            TaskTableColumn::Name => "NAME",
            TaskTableColumn::State => "STATE",
            TaskTableColumn::LastRun => "LAST RUN",
            TaskTableColumn::Result => "RESULT",
            TaskTableColumn::Duration => "DURATION",
        }
    }
}

/// How wide a column is.
#[derive(Debug, Clone, Copy, PartialEq, Eq, Structural)]
pub enum ColumnWidth {
    /// A share of the table, in percent.
    Percentage(u16),
    /// At least so many columns.
    Min(u16),
    /// So many columns.
    Length(u16),
}

/// The columns of the tasks table and their widths.
#[derive(Debug)]
pub struct TaskTableLayout {
    pub columns: Vec<TaskTableColumn>,
    pub widths: Vec<ColumnWidth>,
}

/// The columns of the tasks table in a panel of some width.
pub open spec fn task_columns(width: u16) -> Seq<TaskTableColumn> {
    if width >= 110 {
        seq![
            TaskTableColumn::Name,
            TaskTableColumn::State,
            TaskTableColumn::LastRun,
            TaskTableColumn::Result,
            TaskTableColumn::Duration,
        ]
    } else if width >= 70 {
        seq![TaskTableColumn::Name, TaskTableColumn::State, TaskTableColumn::Result]
    } else {
        seq![TaskTableColumn::Name, TaskTableColumn::State]
    }
}

/// The widths of the columns of the tasks table.
pub open spec fn task_widths(width: u16) -> Seq<ColumnWidth> {
    if width >= 110 {
        seq![
            ColumnWidth::Percentage(32),
            ColumnWidth::Min(24),
            ColumnWidth::Length(14),
            ColumnWidth::Length(10),
            ColumnWidth::Length(10),
        ]
    } else if width >= 70 {
        seq![ColumnWidth::Percentage(32), ColumnWidth::Min(24), ColumnWidth::Length(10)]
    } else {
        seq![ColumnWidth::Percentage(40), ColumnWidth::Min(20)]
    }
}

/// The columns of the tasks table in a panel of some width: the name and the
/// state are always there.
pub fn task_table_layout(width: u16) -> (r: TaskTableLayout)
    ensures
        r.columns@ == task_columns(width),
        r.widths@ == task_widths(width),
{
    let mut columns: Vec<TaskTableColumn> = Vec::new();
    let mut widths: Vec<ColumnWidth> = Vec::new();
    columns.push(TaskTableColumn::Name);
    columns.push(TaskTableColumn::State);
    if width >= 110 {
        columns.push(TaskTableColumn::LastRun);
        columns.push(TaskTableColumn::Result);
        columns.push(TaskTableColumn::Duration);
        widths.push(ColumnWidth::Percentage(32));
        widths.push(ColumnWidth::Min(24));
        widths.push(ColumnWidth::Length(14));
        widths.push(ColumnWidth::Length(10));
        widths.push(ColumnWidth::Length(10));
    } else if width >= 70 {
        columns.push(TaskTableColumn::Result);
        widths.push(ColumnWidth::Percentage(32));
        widths.push(ColumnWidth::Min(24));
        widths.push(ColumnWidth::Length(10));
    } else {
        widths.push(ColumnWidth::Percentage(40));
        widths.push(ColumnWidth::Min(20));
    }
    assert(columns@ =~= task_columns(width));
    assert(widths@ =~= task_widths(width));
    TaskTableLayout { columns, widths }
}

/// The style of a name: its colour, if it has one.
pub open spec fn name_style(colors: Map<Seq<char>, Color>, name: Seq<char>) -> Style {
    if colors.contains_key(name) {
        Style::with_fg(colors[name])
    } else {
        Style::plain()
    }
}

fn style_of_name(colors: &NameMap<Color>, name: &str) -> (r: Style)
    ensures
        r == name_style(colors@, name@),
{
    match colors.get(name) {
        Some(color) => Style::new().fg(*color),
        None => Style::new(),
    }
}

/// What is known of a service, as its row shows it.
pub struct ServiceFacts {
    pub name: Seq<char>,
    pub state: ServiceState,
    pub pid: Option<i32>,
    pub blockers: Seq<Seq<char>>,
}

impl OverlayItem {
    /// What the row says.
    pub open spec fn facts(self) -> ServiceFacts {
        ServiceFacts {
            name: self.name@,
            state: self.state,
            pid: self.pid,
            blockers: views(self.failed_dependencies@),
        }
    }
}

/// The cells of a row of the services table.
pub open spec fn service_cells(
    facts: ServiceFacts,
    colors: Map<Seq<char>, Color>,
    show_pid: bool,
) -> Seq<Run> {
    let name = run(facts.name, name_style(colors, facts.name));
    let state = run(
        service_label(facts.state, facts.pid is Some, facts.blockers),
        Style::with_fg(service_color(facts.state)),
    );
    let pid = run(
        match facts.pid {
            Some(pid) => signed_decimal(pid as int),
            None => "-"@,
        },
        Style::with_fg(Color::DarkGray),
    );
    if show_pid {
        seq![name, pid, state]
    } else {
        seq![name, state]
    }
}

/// A row of the services table.
pub fn service_table_row(item: &OverlayItem, colors: &NameMap<Color>, show_pid: bool) -> (r: Line)
    ensures
        runs_of(r.spans@) == service_cells(item.facts(), colors@, show_pid),
{
    let mut spans: Vec<Span> = Vec::new();
    assert(runs_of(spans@) =~= Seq::<Run>::empty());
    add_run(&mut spans, item.name.clone(), style_of_name(colors, item.name.as_str()));
    if show_pid {
        let pid = match item.pid {
            Some(pid) => signed_decimal_string(pid as i64),
            None => "-".to_owned(),
        };
        add_run(&mut spans, pid, Style::new().fg(Color::DarkGray));
    }
    add_run(
        &mut spans,
        service_state_label(item.state, item.pid.is_some(), &item.failed_dependencies),
        Style::new().fg(service_state_color(item.state)),
    );
    assert(runs_of(spans@) =~= service_cells(item.facts(), colors@, show_pid));
    Line { spans }
}

/// What is known of a task, as its row shows it.
pub struct TaskFacts {
    pub name: Seq<char>,
    pub state: TaskState,
    pub last_run: Option<TaskRunInfo>,
    pub blockers: Seq<Seq<char>>,
}

impl TaskStatusItem {
    /// What the row says.
    pub open spec fn facts(self) -> TaskFacts {
        TaskFacts {
            name: self.name@,
            state: self.state,
            last_run: self.last_run,
            blockers: views(self.failed_dependencies@),
        }
    }
}

/// The cell of a task in a column.
pub open spec fn task_cell(
    facts: TaskFacts,
    colors: Map<Seq<char>, Color>,
    column: TaskTableColumn,
    now: u64,
) -> Run {
    match column {
        TaskTableColumn::Name => run(facts.name, name_style(colors, facts.name)),
        TaskTableColumn::State => run(
            task_label(facts.state, facts.blockers),
            Style::with_fg(task_color(facts.state)),
        ),
        TaskTableColumn::LastRun => run(
            match facts.last_run {
                Some(last) => relative_time(last.finished_at_unix_secs, now),
                None => "-"@,
            },
            Style::with_fg(Color::Gray),
        ),
        TaskTableColumn::Result => run(
            result_label(facts.last_run),
            Style::with_fg(
                match facts.last_run {
                    Some(last) => if last.success {
                        Color::Green
                    } else {
                        Color::Red
                    },
                    None => Color::DarkGray,
                },
            ),
        ),
        TaskTableColumn::Duration => run(
            duration_label(
                match facts.last_run {
                    Some(last) => last.duration_ms,
                    None => None,
                },
            ),
            Style::with_fg(Color::Gray),
        ),
    }
}

fn cell_of_task(
    item: &TaskStatusItem,
    colors: &NameMap<Color>,
    column: TaskTableColumn,
    now: u64,
) -> (r: (String, Style))
    ensures
        run(r.0@, r.1) == task_cell(item.facts(), colors@, column, now),
{
    match column {
        TaskTableColumn::Name => (item.name.clone(), style_of_name(colors, item.name.as_str())),
        TaskTableColumn::State => (
            task_state_label(item.state, &item.failed_dependencies),
            Style::new().fg(task_state_color(item.state)),
        ),
        TaskTableColumn::LastRun => (
            format_task_last_run_time(&item.last_run, now),
            Style::new().fg(Color::Gray),
        ),
        TaskTableColumn::Result => {
            let color = match &item.last_run {
                Some(last) => task_result_color(last),
                None => Color::DarkGray,
            };
            (format_task_result(&item.last_run), Style::new().fg(color))
        },
        TaskTableColumn::Duration => {
            let duration = match &item.last_run {
                Some(last) => last.duration_ms,
                None => None,
            };
            (format_task_duration(duration), Style::new().fg(Color::Gray))
        },
    }
}

/// The cells of a row of the tasks table.
pub open spec fn task_cells(
    facts: TaskFacts,
    colors: Map<Seq<char>, Color>,
    columns: Seq<TaskTableColumn>,
    now: u64,
) -> Seq<Run> {
    Seq::new(columns.len(), |i: int| task_cell(facts, colors, columns[i], now))
}

/// A row of the tasks table. The time is in seconds since the epoch.
pub fn task_table_row(
    item: &TaskStatusItem,
    colors: &NameMap<Color>,
    columns: &Vec<TaskTableColumn>,
    now: u64,
) -> (r: Line)
    ensures
        runs_of(r.spans@) == task_cells(item.facts(), colors@, columns@, now),
{
    let mut spans: Vec<Span> = Vec::new();
    let mut i: usize = 0;
    assert(runs_of(spans@) =~= task_cells(item.facts(), colors@, columns@, now).take(0));
    while i < columns.len()
        invariant
            i <= columns@.len(),
            runs_of(spans@) == task_cells(item.facts(), colors@, columns@, now).take(i as int),
        decreases columns@.len() - i,
    {
        let (text, style) = cell_of_task(item, colors, columns[i], now);
        add_run(&mut spans, text, style);
        assert(task_cells(item.facts(), colors@, columns@, now).take(i + 1) =~= task_cells(
            item.facts(),
            colors@,
            columns@,
            now,
        ).take(i as int).push(task_cell(item.facts(), colors@, columns@[i as int], now)));
        i += 1;
    }
    assert(task_cells(item.facts(), colors@, columns@, now).take(columns@.len() as int)
        =~= task_cells(item.facts(), colors@, columns@, now));
    Line { spans }
}

/// The colour of a border: one colour for the pane with the keys.
pub open spec fn border_color(focused: bool) -> Color {
    if focused {
        Color::Cyan
    } else {
        Color::DarkGray
    }
}

/// The side panel's border.
pub fn panel_border_style(app: &App) -> (r: Style)
    ensures
        r == Style::with_fg(border_color(app.focus == Focus::Panel)),
{
    Style::new().fg(
        if app.focus == Focus::Panel {
            Color::Cyan
        } else {
            Color::DarkGray
        },
    )
}

/// The log pane's border.
pub fn log_border_style(app: &App) -> (r: Style)
    ensures
        r == Style::with_fg(border_color(app.focus == Focus::Logs)),
{
    Style::new().fg(
        if app.focus == Focus::Logs {
            Color::Cyan
        } else {
            Color::DarkGray
        },
    )
}

/// The title of a table. While the log is narrowed the way out comes first,
/// so that a title cut short still shows it.
pub open spec fn titled(narrowed: bool, table: Seq<char>, keys: Seq<char>) -> Seq<char> {
    if narrowed {
        " "@ + table + " — [esc] all logs  "@ + keys + " "@
    } else {
        " "@ + table + " — "@ + keys + "  [l] logs "@
    }
}

/// The title of a table.
pub fn table_title(app: &App, table: &str, keys: &str) -> (r: String)
    ensures
        r@ == titled(app.narrowed_name() is Some, table@, keys@),
{
    let mut out = " ".to_owned();
    out.append(table);
    match app.narrowed_to() {
        Some(_) => {
            out.append(" — [esc] all logs  ");
            out.append(keys);
            out.append(" ");
        },
        None => {
            out.append(" — ");
            out.append(keys);
            out.append("  [l] logs ");
        },
    }
    out
}

/// The title of the log pane.
pub open spec fn log_title(app: App) -> Seq<char> {
    if app.debug_view {
        " don's log "@
    } else {
        match app.narrowed_name() {
            Some(name) => " logs — "@ + name + "  [esc] all "@,
            None => " logs "@,
        }
    }
}

/// The title of the log pane: which record it shows, and which process it is
/// narrowed to.
pub fn log_pane_title(app: &App) -> (r: String)
    ensures
        r@ == log_title(*app),
{
    if app.debug_view {
        return " don's log ".to_owned();
    }
    match app.narrowed_to() {
        Some(name) => {
            let mut out = " logs — ".to_owned();
            out.append(name.as_str());
            out.append("  [esc] all ");
            out
        },
        None => " logs ".to_owned(),
    }
}

/// The title of the filter's panel.
pub open spec fn filter_title_of(focus: FilterFocus) -> Seq<char> {
    match focus {
        FilterFocus::List => " filter — [space] toggle  [o] only  [/] search  [R] reset "@,
        FilterFocus::Query => " filter — [type] search  [enter] apply  [esc] clear "@,
    }
}

/// The title of the filter's panel.
pub fn filter_title(filter: &FilterState) -> (r: &'static str)
    ensures
        r@ == filter_title_of(filter@.focus),
{
    match filter.focus() {
        FilterFocus::List => " filter — [space] toggle  [o] only  [/] search  [R] reset ",
        FilterFocus::Query => " filter — [type] search  [enter] apply  [esc] clear ",
    }
}

/// What Enter would do to a service with a process id on record or none.
pub open spec fn service_hint(state: ServiceState, pid: Option<i32>, name: Seq<char>) -> Seq<
    char,
> {
    match toggle_action(state, pid) {
        Some(ControlAction::Start) => "enter start "@ + name,
        Some(_) => "enter stop "@ + name,
        None => "transitioning"@,
    }
}

/// What Enter would do to the highlighted service.
pub fn service_selected_hint(app: &App) -> (r: Option<String>)
    ensures
        match r {
            Some(hint) => match highlighted_service(*app) {
                Some(name) => hint@ == service_hint(
                    app.services_state@[name],
                    pid_of(*app, name),
                    name,
                ),
                None => false,
            },
            None => highlighted_service(*app) is None,
        },
{
    let item = match highlighted_service_item(app) {
        Some(item) => item,
        None => {
            return None;
        },
    };
    match overlay_toggle_command(app) {
        Some(command) => {
            let mut out = match command.action {
                ControlAction::Start => "enter start ".to_owned(),
                _ => "enter stop ".to_owned(),
            };
            out.append(item.name.as_str());
            Some(out)
        },
        None => Some("transitioning".to_owned()),
    }
}

/// What Enter would do to a task.
pub open spec fn task_hint(state: TaskState, has_params: bool, name: Seq<char>) -> Seq<char> {
    if !can_run(state) {
        "transitioning"@
    } else if has_params {
        "enter form "@ + name
    } else {
        "enter run "@ + name
    }
}

/// Whether a task takes parameters.
pub open spec fn takes_params(app: App, name: Seq<char>) -> bool {
    app.task_configs@.contains_key(name) && app.task_configs@[name].params@.len() > 0
}

/// What Enter would do to the highlighted task.
pub fn task_selected_hint(app: &App) -> (r: Option<String>)
    ensures
        match r {
            Some(hint) => match highlighted_task(*app) {
                Some(name) => hint@ == task_hint(
                    app.tasks_state@[name],
                    takes_params(*app, name),
                    name,
                ),
                None => false,
            },
            None => highlighted_task(*app) is None,
        },
{
    let item = match highlighted_task_item(app) {
        Some(item) => item,
        None => {
            return None;
        },
    };
    if !item.runnable() {
        return Some("transitioning".to_owned());
    }
    let mut out = if item.has_params {
        "enter form ".to_owned()
    } else {
        "enter run ".to_owned()
    };
    out.append(item.name.as_str());
    Some(out)
}

/// What is drawn of a table: its frame, its rows, and which one is highlighted.
#[derive(Debug)]
pub struct StatusTableView {
    pub title: String,
    pub border: Style,
    pub header: Vec<&'static str>,
    pub rows: Vec<Line>,
    pub widths: Vec<ColumnWidth>,
    pub selected: Option<usize>,
    /// Said in place of rows when there are none.
    pub empty_label: &'static str,
    pub hint: Option<String>,
}

/// The style of a table's header.
pub fn header_style() -> (r: Style)
    ensures
        r == bold_style(Color::Cyan),
{
    Style::new().fg(Color::Cyan).add_modifier(BOLD)
}

/// The texts of a list of labels.
pub open spec fn label_views(labels: Seq<&str>) -> Seq<Seq<char>> {
    Seq::new(labels.len(), |i: int| labels[i]@)
}

/// The heads of the services table.
pub open spec fn service_heads(width: u16) -> Seq<Seq<char>> {
    if width >= SERVICES_PID_MIN_WIDTH {
        seq!["NAME"@, "PID"@, "STATE"@]
    } else {
        seq!["NAME"@, "STATE"@]
    }
}

/// The widths of the columns of the services table.
pub open spec fn service_widths(width: u16) -> Seq<ColumnWidth> {
    if width >= SERVICES_PID_MIN_WIDTH {
        seq![ColumnWidth::Percentage(45), ColumnWidth::Length(10), ColumnWidth::Percentage(55)]
    } else {
        seq![ColumnWidth::Percentage(45), ColumnWidth::Percentage(55)]
    }
}

/// What is known of a service.
pub open spec fn service_facts(app: App, name: Seq<char>) -> ServiceFacts {
    ServiceFacts {
        name,
        state: app.services_state@[name],
        pid: pid_of(app, name),
        blockers: blockers(app.failed_dependencies@, name),
    }
}

/// What is known of a task.
pub open spec fn task_facts(app: App, name: Seq<char>) -> TaskFacts {
    TaskFacts {
        name,
        state: app.tasks_state@[name],
        last_run: if app.tasks_last_run@.contains_key(name) {
            Some(app.tasks_last_run@[name])
        } else {
            None
        },
        blockers: blockers(app.failed_dependencies@, name),
    }
}

fn service_rows(app: &App, colors: &NameMap<Color>, show_pid: bool) -> (r: Vec<Line>)
    ensures
        r@.len() == services_rows(*app).len(),
        forall|i: int|
            0 <= i < r@.len() ==> runs_of((#[trigger] r@[i]).spans@) == service_cells(
                service_facts(*app, services_rows(*app)[i]),
                colors@,
                show_pid,
            ),
{
    let items = app.service_items();
    let mut rows: Vec<Line> = Vec::new();
    let mut i: usize = 0;
    while i < items.len()
        invariant
            i <= items@.len(),
            rows@.len() == i,
            forall|j: int|
                0 <= j < i ==> runs_of((#[trigger] rows@[j]).spans@) == service_cells(
                    items@[j].facts(),
                    colors@,
                    show_pid,
                ),
        decreases items@.len() - i,
    {
        rows.push(service_table_row(&items[i], colors, show_pid));
        i += 1;
    }
    proof {
        assert forall|i: int| 0 <= i < rows@.len() implies runs_of((#[trigger] rows@[i]).spans@)
            == service_cells(
            service_facts(*app, services_rows(*app)[i]),
            colors@,
            show_pid,
        ) by {
            assert(service_names(items@)[i] == items@[i].name@);
            assert(items@[i].facts() == service_facts(*app, services_rows(*app)[i]));
        }
    }
    rows
}

fn task_rows(app: &App, colors: &NameMap<Color>, columns: &Vec<TaskTableColumn>, now: u64) -> (r:
    Vec<Line>)
    ensures
        r@.len() == tasks_rows(*app).len(),
        forall|i: int|
            0 <= i < r@.len() ==> runs_of((#[trigger] r@[i]).spans@) == task_cells(
                task_facts(*app, tasks_rows(*app)[i]),
                colors@,
                columns@,
                now,
            ),
{
    let items = app.task_items();
    let mut rows: Vec<Line> = Vec::new();
    let mut i: usize = 0;
    while i < items.len()
        invariant
            i <= items@.len(),
            rows@.len() == i,
            forall|j: int|
                0 <= j < i ==> runs_of((#[trigger] rows@[j]).spans@) == task_cells(
                    items@[j].facts(),
                    colors@,
                    columns@,
                    now,
                ),
        decreases items@.len() - i,
    {
        rows.push(task_table_row(&items[i], colors, columns, now));
        i += 1;
    }
    proof {
        assert forall|i: int| 0 <= i < rows@.len() implies runs_of((#[trigger] rows@[i]).spans@)
            == task_cells(
            task_facts(*app, tasks_rows(*app)[i]),
            colors@,
            columns@,
            now,
        ) by {
            assert(task_names(items@)[i] == items@[i].name@);
            assert(items@[i].facts() == task_facts(*app, tasks_rows(*app)[i]));
        }
    }
    rows
}

/// The services table in a panel of some width.
pub fn services_table_view(app: &App, colors: &NameMap<Color>, width: u16) -> (r: StatusTableView)
    ensures
        r.title@ == titled(
            app.narrowed_name() is Some,
            "services"@,
            "[enter] start/stop  [r] restart  [a] attach"@,
        ),
        r.border == Style::with_fg(border_color(app.focus == Focus::Panel)),
        label_views(r.header@) == service_heads(width),
        r.widths@ == service_widths(width),
        r.rows@.len() == services_rows(*app).len(),
        forall|i: int|
            0 <= i < r.rows@.len() ==> runs_of((#[trigger] r.rows@[i]).spans@) == service_cells(
                service_facts(*app, services_rows(*app)[i]),
                colors@,
                width >= SERVICES_PID_MIN_WIDTH,
            ),
        match r.selected {
            Some(at) => at < r.rows@.len() && crate::status_table::selected_of(
                app.services_table@.highlight,
                r.rows@.len() as int,
            ) == Some(at as int),
            None => r.rows@.len() == 0,
        },
        r.empty_label@ == "(no services)"@,
        match r.hint {
            Some(hint) => match highlighted_service(*app) {
                Some(name) => hint@ == service_hint(
                    app.services_state@[name],
                    pid_of(*app, name),
                    name,
                ),
                None => false,
            },
            None => highlighted_service(*app) is None,
        },
{
    let show_pid = width >= SERVICES_PID_MIN_WIDTH;
    let mut header: Vec<&'static str> = Vec::new();
    let mut widths: Vec<ColumnWidth> = Vec::new();
    header.push("NAME");
    widths.push(ColumnWidth::Percentage(45));
    if show_pid {
        header.push("PID");
        widths.push(ColumnWidth::Length(10));
    }
    header.push("STATE");
    widths.push(ColumnWidth::Percentage(55));
    assert(label_views(header@) =~= service_heads(width));
    assert(widths@ =~= service_widths(width));
    let rows = service_rows(app, colors, show_pid);
    let selected = app.services_table.selected_index(rows.len());
    StatusTableView {
        title: table_title(app, "services", "[enter] start/stop  [r] restart  [a] attach"),
        border: panel_border_style(app),
        header,
        rows,
        widths,
        selected,
        empty_label: "(no services)",
        hint: service_selected_hint(app),
    }
}

/// The heads of the tasks table.
pub open spec fn task_heads(width: u16) -> Seq<Seq<char>> {
    Seq::new(task_columns(width).len(), |i: int| task_columns(width)[i].head())
}

fn heads_of(columns: &Vec<TaskTableColumn>) -> (r: Vec<&'static str>)
    ensures
        label_views(r@) == Seq::new(columns@.len(), |i: int| columns@[i].head()),
{
    let mut header: Vec<&'static str> = Vec::new();
    let mut i: usize = 0;
    while i < columns.len()
        invariant
            i <= columns@.len(),
            header@.len() == i,
            forall|j: int| 0 <= j < i ==> (#[trigger] header@[j])@ == columns@[j].head(),
        decreases columns@.len() - i,
    {
        header.push(columns[i].label());
        i += 1;
    }
    assert(label_views(header@) =~= Seq::new(columns@.len(), |i: int| columns@[i].head()));
    header
}

/// The tasks table in a panel of some width. The time is in seconds since the
/// epoch.
pub fn tasks_table_view(app: &App, colors: &NameMap<Color>, width: u16, now: u64) -> (r:
    StatusTableView)
    ensures
        r.title@ == titled(
            app.narrowed_name() is Some,
            "tasks"@,
            "[enter] run  [a] attach  [/] filter"@,
        ),
        r.border == Style::with_fg(border_color(app.focus == Focus::Panel)),
        label_views(r.header@) == task_heads(width),
        r.widths@ == task_widths(width),
        r.rows@.len() == tasks_rows(*app).len(),
        forall|i: int|
            0 <= i < r.rows@.len() ==> runs_of((#[trigger] r.rows@[i]).spans@) == task_cells(
                task_facts(*app, tasks_rows(*app)[i]),
                colors@,
                task_columns(width),
                now,
            ),
        match r.selected {
            Some(at) => at < r.rows@.len() && crate::status_table::selected_of(
                app.tasks_table@.highlight,
                r.rows@.len() as int,
            ) == Some(at as int),
            None => r.rows@.len() == 0,
        },
        r.empty_label@ == "(no tasks)"@,
        match r.hint {
            Some(hint) => match highlighted_task(*app) {
                Some(name) => hint@ == task_hint(
                    app.tasks_state@[name],
                    takes_params(*app, name),
                    name,
                ),
                None => false,
            },
            None => highlighted_task(*app) is None,
        },
{
    let layout = task_table_layout(width);
    let rows = task_rows(app, colors, &layout.columns, now);
    let selected = app.tasks_table.selected_index(rows.len());
    let header = heads_of(&layout.columns);
    assert(label_views(header@) =~= task_heads(width));
    StatusTableView {
        title: table_title(app, "tasks", "[enter] run  [a] attach  [/] filter"),
        border: panel_border_style(app),
        header,
        rows,
        widths: layout.widths,
        selected,
        empty_label: "(no tasks)",
        hint: task_selected_hint(app),
    }
}

/// A box that is ticked or not.
pub open spec fn checkbox(on: bool) -> Run {
    if on {
        run("[x] "@, Style::with_fg(Color::Green))
    } else {
        run("[ ] "@, Style::with_fg(Color::DarkGray))
    }
}

/// A row of the filter's list.
pub open spec fn filter_cells(
    filter: FilterView,
    colors: Map<Seq<char>, Color>,
    row: RowView,
) -> Seq<Run> {
    match row {
        RowView::All => seq![
            checkbox(filter.names.len() > 0 && filter.shows_everything()),
            run("all"@, bold_style(Color::Cyan)),
        ],
        RowView::Name(name) => seq![
            checkbox(filter.active.contains(name)),
            run(name, name_style(colors, name)),
        ],
    }
}

fn filter_list_row(filter: &FilterState, colors: &NameMap<Color>, row: &FilterRow) -> (r: Line)
    ensures
        runs_of(r.spans@) == filter_cells(filter@, colors@, row@),
{
    let mut spans: Vec<Span> = Vec::new();
    assert(runs_of(spans@) =~= Seq::<Run>::empty());
    let on = match row {
        FilterRow::All => filter.all_selected_in_edit(),
        FilterRow::Name(name) => filter.is_edit_selected(name.as_str()),
    };
    if on {
        add_run(&mut spans, "[x] ".to_owned(), Style::new().fg(Color::Green));
    } else {
        add_run(&mut spans, "[ ] ".to_owned(), Style::new().fg(Color::DarkGray));
    }
    match row {
        FilterRow::All => {
            add_run(
                &mut spans,
                "all".to_owned(),
                Style::new().fg(Color::Cyan).add_modifier(BOLD),
            );
        },
        FilterRow::Name(name) => {
            add_run(&mut spans, name.clone(), style_of_name(colors, name.as_str()));
        },
    }
    assert(runs_of(spans@) =~= filter_cells(filter@, colors@, row@));
    Line { spans }
}

/// The filter's list, and which row is highlighted.
pub fn filter_list(filter: &FilterState, colors: &NameMap<Color>) -> (r: (Vec<Line>, Option<usize>))
    ensures
        r.0@.len() == filter@.rows().len(),
        forall|i: int|
            0 <= i < r.0@.len() ==> runs_of((#[trigger] r.0@[i]).spans@) == filter_cells(
                filter@,
                colors@,
                filter@.rows()[i],
            ),
        match r.1 {
            Some(at) => at as int == filter@.highlight && at < r.0@.len(),
            None => r.0@.len() == 0,
        },
{
    let rows = filter.rows();
    let mut out: Vec<Line> = Vec::new();
    let mut i: usize = 0;
    while i < rows.len()
        invariant
            i <= rows@.len(),
            row_views(rows@) == filter@.rows(),
            out@.len() == i,
            forall|j: int|
                0 <= j < i ==> runs_of((#[trigger] out@[j]).spans@) == filter_cells(
                    filter@,
                    colors@,
                    filter@.rows()[j],
                ),
        decreases rows@.len() - i,
    {
        assert(filter@.rows()[i as int] == rows@[i as int]@);
        out.push(filter_list_row(filter, colors, &rows[i]));
        i += 1;
    }
    assert(row_views(rows@).len() == rows@.len());
    let selected = if rows.len() == 0 {
        None
    } else {
        Some(filter.highlight())
    };
    (out, selected)
}

/// A state is in the table whatever the panel's width.
pub proof fn the_state_column_is_never_dropped(width: u16)
    ensures
        task_columns(width)[0] == TaskTableColumn::Name,
        task_columns(width)[1] == TaskTableColumn::State,
        task_columns(width).len() == task_widths(width).len(),
        service_heads(width)[0] == "NAME"@,
        service_heads(width).last() == "STATE"@,
        service_heads(width).len() == service_widths(width).len(),
{
}

/// A service's row begins with its name in its own color and ends with its
/// state in that state's color; its process id stands between them where there
/// is room.
pub proof fn a_service_row_tells_its_state(
    facts: ServiceFacts,
    colors: Map<Seq<char>, Color>,
    show_pid: bool,
)
    ensures
        ({
            let cells = service_cells(facts, colors, show_pid);
            &&& cells.len() == (if show_pid {
                3int
            } else {
                2int
            })
            &&& cells[0].text == facts.name
            &&& colors.contains_key(facts.name) ==> cells[0].style.fg == Some(colors[facts.name])
            &&& cells.last().text == service_label(facts.state, facts.pid is Some, facts.blockers)
            &&& cells.last().style.fg == Some(service_color(facts.state))
            &&& show_pid ==> (facts.pid matches Some(pid) ==> parsed_int(cells[1].text) == Some(
                pid as int,
            ))
            &&& show_pid && facts.pid is None ==> cells[1].text == "-"@
        }),
{
    if let Some(pid) = facts.pid {
        a_number_reads_back(pid as int);
    }
}

/// A task's row tells under each head what the head says.
pub proof fn a_task_row_tells_what_its_heads_say(
    facts: TaskFacts,
    colors: Map<Seq<char>, Color>,
    columns: Seq<TaskTableColumn>,
    now: u64,
    i: int,
)
    requires
        0 <= i < columns.len(),
    ensures
        ({
            let cell = task_cells(facts, colors, columns, now)[i];
            &&& task_cells(facts, colors, columns, now).len() == columns.len()
            &&& columns[i].head() == (match columns[i] {
                TaskTableColumn::Name => "NAME"@,
                TaskTableColumn::State => "STATE"@,
                TaskTableColumn::LastRun => "LAST RUN"@,
                TaskTableColumn::Result => "RESULT"@,
                TaskTableColumn::Duration => "DURATION"@,
            })
            &&& columns[i] == TaskTableColumn::Name ==> cell.text == facts.name
            &&& columns[i] == TaskTableColumn::State ==> cell.text == task_label(
                facts.state,
                facts.blockers,
            ) && cell.style.fg == Some(task_color(facts.state))
            &&& columns[i] == TaskTableColumn::LastRun ==> (facts.last_run matches Some(last)
                ==> cell.text == relative_time(last.finished_at_unix_secs, now))
            &&& columns[i] == TaskTableColumn::Result ==> (facts.last_run matches Some(last) ==> (
            last.success ==> cell.text == "ok"@ && cell.style.fg == Some(Color::Green)) && (
            !last.success ==> cell.text == "failed"@ && cell.style.fg == Some(Color::Red)))
            &&& columns[i] == TaskTableColumn::Duration ==> (facts.last_run matches Some(last)
                ==> cell.text == duration_label(last.duration_ms))
            &&& facts.last_run is None && columns[i] != TaskTableColumn::Name && columns[i]
                != TaskTableColumn::State ==> cell.text == "-"@
        }),
{
}

/// A wider table shows no fewer columns: the result from 70 columns on, and
/// when and how long from 110 on.
pub proof fn a_wider_table_tells_more(width: u16)
    ensures
        task_columns(width).contains(TaskTableColumn::Result) <==> width >= 70,
        task_columns(width).contains(TaskTableColumn::LastRun) <==> width >= 110,
        task_columns(width).contains(TaskTableColumn::Duration) <==> width >= 110,
{
    let columns = task_columns(width);
    if width >= 110 {
        assert(columns[2] == TaskTableColumn::LastRun);
        assert(columns[3] == TaskTableColumn::Result);
        assert(columns[4] == TaskTableColumn::Duration);
    } else if width >= 70 {
        assert(columns[2] == TaskTableColumn::Result);
    }
}

/// What a row tells of a service or a task is what is known under its name.
pub proof fn a_row_tells_what_is_known(app: App, name: Seq<char>)
    ensures
        service_facts(app, name).name == name,
        service_facts(app, name).state == app.services_state@[name],
        app.service_pids@.contains_key(name) ==> service_facts(app, name).pid
            == app.service_pids@[name],
        !app.service_pids@.contains_key(name) ==> service_facts(app, name).pid is None,
        task_facts(app, name).name == name,
        task_facts(app, name).state == app.tasks_state@[name],
        app.tasks_last_run@.contains_key(name) ==> task_facts(app, name).last_run == Some(
            app.tasks_last_run@[name],
        ),
        !app.tasks_last_run@.contains_key(name) ==> task_facts(app, name).last_run is None,
{
}

/// The hint of a row offers what Enter does there: to start what is down, to stop
/// what is up, to run a task or open its form, and nothing on the way.
pub proof fn a_hint_offers_what_enter_does(
    state: ServiceState,
    pid: Option<i32>,
    task: TaskState,
    has_params: bool,
    name: Seq<char>,
)
    ensures
        toggle_action(state, pid) == Some(ControlAction::Start) ==> service_hint(state, pid, name)
            == "enter start "@ + name,
        toggle_action(state, pid) == Some(ControlAction::Stop) ==> service_hint(state, pid, name)
            == "enter stop "@ + name,
        toggle_action(state, pid) is None ==> service_hint(state, pid, name) == "transitioning"@,
        task == TaskState::Running || task == TaskState::Building ==> task_hint(
            task,
            has_params,
            name,
        ) == "transitioning"@,
        task != TaskState::Running && task != TaskState::Building ==> task_hint(
            task,
            has_params,
            name,
        ) == (if has_params {
            "enter form "@ + name
        } else {
            "enter run "@ + name
        }),
{
}

/// A box in the filter is ticked when the lines of its name are shown, and the
/// one for everything when all are.
pub proof fn a_box_is_ticked_when_it_is_shown(
    filter: FilterView,
    colors: Map<Seq<char>, Color>,
    name: Seq<char>,
)
    ensures
        ({
            let row = filter_cells(filter, colors, RowView::Name(name));
            let all = filter_cells(filter, colors, RowView::All);
            &&& row.len() == 2 && row[1].text == name
            &&& filter.active.contains(name) ==> row[0].text == "[x] "@ && row[0].style.fg == Some(
                Color::Green,
            )
            &&& !filter.active.contains(name) ==> row[0].text == "[ ] "@
            &&& all.len() == 2 && all[1].text == "all"@
            &&& filter.names.contains(name) && !filter.active.contains(name) ==> all[0].text
                == "[ ] "@
            &&& filter.names.contains(name) && (forall|n: Seq<char>|
                filter.names.contains(n) ==> #[trigger] filter.active.contains(n)) ==> all[0].text
                == "[x] "@
        }),
{
    assert(filter.names.to_set().contains(name) <==> filter.names.contains(name));
    if filter.names.contains(name) && (forall|n: Seq<char>|
        filter.names.contains(n) ==> #[trigger] filter.active.contains(n)) {
        assert(filter.names.len() > 0);
        assert forall|n: Seq<char>| filter.names.to_set().contains(n) implies filter.active.contains(
            n,
        ) by {
            assert(filter.names.contains(n));
        }
        assert(filter.names.to_set().subset_of(filter.active));
    }
}

/// The log's title names the one name that is shown alone, and tells the
/// runner's own log apart.
pub proof fn the_log_is_titled_by_what_it_shows(app: App)
    ensures
        app.debug_view ==> log_title(app) == " don's log "@,
        !app.debug_view && app.narrowed_name() is None ==> log_title(app) == " logs "@,
        !app.debug_view ==> (app.narrowed_name() matches Some(name) ==> log_title(app)
            == " logs — "@ + name + "  [esc] all "@),
        border_color(true) == Color::Cyan,
        border_color(false) == Color::DarkGray,
{
}

/// The heads of a task table are those of its columns, in their order.
pub proof fn the_heads_are_those_of_the_columns(width: u16, i: int)
    requires
        0 <= i < task_columns(width).len(),
    ensures
        task_heads(width).len() == task_columns(width).len(),
        task_heads(width)[i] == task_columns(width)[i].head(),
        task_heads(width)[0] == "NAME"@,
        task_heads(width)[1] == "STATE"@,
        service_heads(width).len() == (if width >= 60 {
            3int
        } else {
            2int
        }),
        width >= 60 ==> service_heads(width)[1] == "PID"@,
{
}

/// While one name is shown alone the title offers to show all again, and
/// otherwise to show one alone.
pub proof fn a_title_offers_the_way_back(table: Seq<char>, keys: Seq<char>)
    ensures
        has_part(titled(true, table, keys), " — [esc] all logs  "@),
        has_suffix(titled(false, table, keys), "  [l] logs "@),
        (" "@ + table).is_prefix_of(titled(true, table, keys)),
        (" "@ + table).is_prefix_of(titled(false, table, keys)),
{
    let offer = " — [esc] all logs  "@;
    let at: int = (" "@.len() + table.len()) as int;
    let wide = titled(true, table, keys);
    assert(wide.subrange(at, at + offer.len()) =~= offer);
    let tail = "  [l] logs "@;
    let plain = titled(false, table, keys);
    assert(plain.skip(plain.len() - tail.len()) =~= tail);
}

/// The filter's title tells the keys that act in it: those of the list, or those
/// of the query while one is typed.
pub proof fn the_filter_is_titled_by_its_keys(focus: FilterFocus)
    ensures
        focus == FilterFocus::List ==> filter_title_of(focus)
            == " filter — [space] toggle  [o] only  [/] search  [R] reset "@,
        focus == FilterFocus::Query ==> filter_title_of(focus)
            == " filter — [type] search  [enter] apply  [esc] clear "@,
{
}

} // verus!
