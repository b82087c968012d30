//! Opening, closing, sizing and stepping the side panels.
use crate::app::{
    matching_names, service_buckets, services_rows, task_buckets,
    tasks_rows, App, ViewMode,
};
use crate::filter::{FilterFocus, FilterView};
use crate::names::views;
use crate::panes::{Focus, PaneSide, Panel};
use crate::rows::is_table;
use crate::status_table::{selected_of, step_table, TableView};
use vstd::prelude::*;

verus! {

/// Columns that one press moves the divider of a panel on the right.
pub const RESIZE_STEP_COLUMNS: i16 = 4;

/// Rows that one press moves the divider of a panel at the bottom.
pub const RESIZE_STEP_ROWS: i16 = 2;

/// Back to the plain log, which takes the keys.
pub open spec fn at_logs(app: App) -> App {
    App { view_mode: ViewMode::Normal, focus: Focus::Logs, ..app }
}

/// Leaves whatever is on screen besides the log.
pub fn return_to_logs(app: &mut App)
    ensures
        *final(app) == at_logs(*old(app)),
{
    app.set_view_mode(ViewMode::Normal);
    app.focus = Focus::Logs;
}

/// An extent after a nudge, at least one.
pub open spec fn nudged(extent: u16, delta: int) -> u16 {
    if extent + delta < 1 {
        1
    } else if extent + delta > u16::MAX {
        u16::MAX
    } else {
        (extent + delta) as u16
    }
}

/// The state after the reader nudged the panel's size.
pub open spec fn nudged_panel(app: App, delta: int) -> App {
    App {
        panel: Panel { extent: nudged(app.panel.extent, delta), ..app.panel },
        panel_extent_customized: true,
        ..app
    }
}

/// Grows the panel by `delta`, or shrinks it. Presses add up: each builds on
/// the stored extent, not on what was last drawn.
pub fn nudge_panel(app: &mut App, delta: i16)
    ensures
        *final(app) == nudged_panel(*old(app), delta as int),
{
    let moved: i32 = app.panel.extent as i32 + delta as i32;
    app.panel.extent = if moved < 1 {
        1
    } else if moved > 65535 {
        65535
    } else {
        moved as u16
    };
    app.panel_extent_customized = true;
}

/// The width a panel opens with on a terminal: two fifths of it, at least 48
/// columns and at most 96.
pub open spec fn opening_width(width: u16) -> u16 {
    let doubled = if width * 2 > u16::MAX {
        u16::MAX as int
    } else {
        width * 2
    };
    let part = doubled / 5;
    if part < 48 {
        48
    } else if part > 96 {
        96
    } else {
        part as u16
    }
}

/// The state once an opening panel has a width suited to the terminal, unless
/// the reader has sized it.
pub open spec fn fitted_panel(app: App) -> App {
    if !app.panel_extent_customized && app.panel.side == PaneSide::Right && app.panes.bar.width
        > 0 {
        App {
            panel: Panel { extent: opening_width(app.panes.bar.width), ..app.panel },
            ..app
        }
    } else {
        app
    }
}

/// Gives an opening panel a width suited to the terminal.
pub fn fit_panel_to_terminal(app: &mut App)
    ensures
        *final(app) == fitted_panel(*old(app)),
{
    if app.panel_extent_customized {
        return;
    }
    let width: u16 = app.panes.bar.width;
    if app.panel.side == PaneSide::Right && width > 0 {
        let doubled: u32 = if width as u32 * 2 > 65535 {
            65535
        } else {
            width as u32 * 2
        };
        let part: u32 = doubled / 5;
        app.panel.extent = if part < 48 {
            48
        } else if part > 96 {
            96
        } else {
            part as u16
        };
    }
}

/// Whether `new` is `old` with the services panel just opened: its query gone,
/// its order captured anew, and the keys with it.
pub open spec fn opens_services(old: App, new: App) -> bool {
    &&& new == fitted_panel(
        App {
            services_table: new.services_table,
            services_order: new.services_order,
            view_mode: ViewMode::Services,
            focus: Focus::Panel,
            ..old
        },
    )
    &&& new.services_table@ == TableView::fresh()
    &&& is_table(
        views(new.services_order@),
        matching_names(old.services_state@, Seq::empty()),
        Seq::empty(),
        service_buckets(old.services_state@),
    )
}

/// Opens the services panel.
pub fn open_services_panel(app: &mut App)
    ensures
        opens_services(*old(app), *final(app)),
{
    app.services_table.reset();
    app.freeze_services_order();
    app.set_view_mode(ViewMode::Services);
    app.focus = Focus::Panel;
    fit_panel_to_terminal(app);
}

/// Whether `new` is `old` with the tasks panel just opened.
pub open spec fn opens_tasks(old: App, new: App) -> bool {
    &&& new == fitted_panel(
        App {
            tasks_table: new.tasks_table,
            tasks_order: new.tasks_order,
            view_mode: ViewMode::Tasks,
            focus: Focus::Panel,
            ..old
        },
    )
    &&& new.tasks_table@ == TableView::fresh()
    &&& is_table(
        views(new.tasks_order@),
        matching_names(old.tasks_state@, Seq::empty()),
        Seq::empty(),
        task_buckets(old.tasks_state@),
    )
}

/// Opens the tasks panel.
pub fn open_tasks_panel(app: &mut App)
    ensures
        opens_tasks(*old(app), *final(app)),
{
    app.tasks_table.reset();
    app.freeze_tasks_order();
    app.set_view_mode(ViewMode::Tasks);
    app.focus = Focus::Panel;
    fit_panel_to_terminal(app);
}

/// Whether `new` is `old` with the filter panel just opened: its query gone,
/// its selection as it was.
pub open spec fn opens_filter(old: App, new: App) -> bool {
    &&& new == fitted_panel(
        App { filter: new.filter, view_mode: ViewMode::Filter, focus: Focus::Panel, ..old },
    )
    &&& new.filter@ == (FilterView {
        query: Seq::empty(),
        focus: FilterFocus::List,
        highlight: 0,
        ..old.filter@
    })
}

/// Opens the filter panel.
pub fn open_filter_panel(app: &mut App)
    ensures
        opens_filter(*old(app), *final(app)),
{
    app.filter.enter_edit();
    app.set_view_mode(ViewMode::Filter);
    app.focus = Focus::Panel;
    fit_panel_to_terminal(app);
}

/// Whether a cell is inside the open side panel.
pub open spec fn is_over_panel(app: App, column: int, row: int) -> bool {
    app.shows_panel() && app.panes.pane_at(column, row) == Some(Focus::Panel)
}

/// Whether a cell is inside the open side panel.
pub fn over_panel(app: &App, column: u16, row: u16) -> (r: bool)
    ensures
        r == is_over_panel(*app, column as int, row as int),
{
    if !app.panel_open() {
        return false;
    }
    match app.panes.hit(column, row) {
        Some(focus) => focus == Focus::Panel,
        None => false,
    }
}

/// A table with its highlight moved by `delta`, kept within `total` rows.
pub open spec fn stepped(table: TableView, total: int, delta: int) -> TableView {
    TableView {
        highlight: match selected_of(table.highlight, total) {
            None => table.highlight,
            Some(at) => if at + delta < 0 {
                0
            } else if at + delta >= total {
                total - 1
            } else {
                at + delta
            },
        },
        ..table
    }
}

/// The filter with its highlight one row up, from the top to the bottom.
pub open spec fn filter_up(filter: FilterView) -> FilterView {
    FilterView {
        highlight: if filter.rows().len() == 0 {
            filter.highlight
        } else if filter.highlight == 0 {
            filter.rows().len() - 1
        } else {
            filter.highlight - 1
        },
        ..filter
    }
}

/// The filter with its highlight one row down, from the bottom to the top.
pub open spec fn filter_down(filter: FilterView) -> FilterView {
    FilterView {
        highlight: if filter.rows().len() == 0 {
            filter.highlight
        } else if filter.highlight + 1 >= filter.rows().len() {
            0
        } else {
            filter.highlight + 1
        },
        ..filter
    }
}

/// Whether `new` is `old` with the open panel's highlight moved.
pub open spec fn steps_panel(old: App, new: App, delta: int) -> bool {
    match old.view_mode {
        ViewMode::Services => {
            &&& new == (App { services_table: new.services_table, ..old })
            &&& new.services_table@ == stepped(
                old.services_table@,
                services_rows(old).len() as int,
                delta,
            )
        },
        ViewMode::Tasks => {
            &&& new == (App { tasks_table: new.tasks_table, ..old })
            &&& new.tasks_table@ == stepped(
                old.tasks_table@,
                tasks_rows(old).len() as int,
                delta,
            )
        },
        ViewMode::Filter => {
            &&& new == (App { filter: new.filter, ..old })
            &&& new.filter@ == (if delta < 0 {
                filter_up(old.filter@)
            } else {
                filter_down(old.filter@)
            })
        },
        _ => new == old,
    }
}

/// Moves the open panel's highlight, which is what the wheel does over it.
pub fn panel_step(app: &mut App, delta: isize)
    ensures
        steps_panel(*old(app), *final(app), delta as int),
{
    match app.view_mode {
        ViewMode::Services => {
            let total: usize = app.service_items().len();
            step_table(&mut app.services_table, total, delta);
        },
        ViewMode::Tasks => {
            let total: usize = app.task_items().len();
            step_table(&mut app.tasks_table, total, delta);
        },
        ViewMode::Filter => {
            if delta < 0 {
                app.filter.highlight_prev();
            } else {
                app.filter.highlight_next();
            }
        },
        _ => {},
    }
}

/// Nudges add up: two are one of their sum, as long as neither leaves the
/// range of an extent.
pub proof fn nudges_stack(app: App, a: int, b: int)
    requires
        1 <= app.panel.extent + a <= u16::MAX,
        1 <= app.panel.extent + a + b <= u16::MAX,
    ensures
        nudged_panel(nudged_panel(app, a), b) == nudged_panel(app, a + b),
{
}

/// A panel that was never sized opens two fifths of the screen wide, but no
/// narrower than 48 columns and no wider than 96.
pub proof fn a_panel_opens_at_two_fifths(width: u16)
    ensures
        48 <= opening_width(width) <= 96,
        width <= 120 ==> opening_width(width) == 48,
        width >= 240 ==> opening_width(width) == 96,
        120 <= width <= 240 ==> 5 * opening_width(width) <= 2 * width < 5 * (opening_width(width)
            + 1),
{
}

/// A nudge changes the panel's extent by what it says and nothing else, and
/// leaves at least one cell of it; from then on the panel keeps its extent.
pub proof fn a_nudge_sizes_the_panel(app: App, delta: int)
    ensures
        ({
            let after = nudged_panel(app, delta);
            &&& 1 <= app.panel.extent + delta <= u16::MAX ==> after.panel.extent
                == app.panel.extent + delta
            &&& app.panel.extent + delta < 1 ==> after.panel.extent == 1
            &&& after.panel.side == app.panel.side
            &&& after.panel_extent_customized
            &&& fitted_panel(after) == after
        }),
{
}

/// In the filter the highlight goes round: up from the first row to the last,
/// and down from the last to the first.
pub proof fn the_filter_rows_go_round(filter: FilterView)
    requires
        0 <= filter.highlight < filter.rows().len(),
    ensures
        filter.highlight > 0 ==> filter_up(filter).highlight == filter.highlight - 1,
        filter.highlight == 0 ==> filter_up(filter).highlight == filter.rows().len() - 1,
        filter.highlight + 1 < filter.rows().len() ==> filter_down(filter).highlight
            == filter.highlight + 1,
        filter.highlight + 1 == filter.rows().len() ==> filter_down(filter).highlight == 0,
        filter_up(filter).active == filter.active,
        filter_down(filter).active == filter.active,
        filter_down(filter_up(filter)) == filter,
        filter_up(filter_down(filter)) == filter,
{
    assert(filter_up(filter).rows() == filter.rows());
    assert(filter_down(filter).rows() == filter.rows());
}

/// A step in a table moves the highlight so many rows that way and stops at the
/// ends.
pub proof fn a_step_stops_at_the_ends(table: TableView, total: int, delta: int)
    requires
        0 <= table.highlight < total,
    ensures
        ({
            let after = stepped(table, total, delta);
            &&& 0 <= table.highlight + delta < total ==> after.highlight == table.highlight + delta
            &&& table.highlight + delta < 0 ==> after.highlight == 0
            &&& table.highlight + delta >= total ==> after.highlight == total - 1
            &&& after.query == table.query
            &&& after.filtering == table.filtering
        }),
{
}

/// The wheel over the filter goes the way it is turned.
pub proof fn the_filter_is_stepped_the_way_asked(old: App, new: App, delta: int)
    requires
        steps_panel(old, new, delta),
        old.view_mode == ViewMode::Filter,
        0 < old.filter@.highlight < old.filter@.rows().len() - 1,
    ensures
        delta < 0 ==> new.filter@.highlight == old.filter@.highlight - 1,
        delta >= 0 ==> new.filter@.highlight == old.filter@.highlight + 1,
        new.filter@.active == old.filter@.active,
{
}

/// A panel opens at two fifths of the screen unless the user sized it or it
/// stands below the log, and it opens with the keys going to it.
pub proof fn a_panel_opens_sized_for_the_screen(old: App, new: App)
    requires
        opens_services(old, new) || opens_tasks(old, new) || opens_filter(old, new),
    ensures
        new.focus == Focus::Panel,
        new.panel.side == old.panel.side,
        old.panel_extent_customized || old.panel.side == PaneSide::Bottom ==> new.panel == old.panel,
        !old.panel_extent_customized && old.panel.side == PaneSide::Right && old.panes.bar.width > 0
            ==> new.panel.extent == opening_width(old.panes.bar.width),
        new.panel_extent_customized == old.panel_extent_customized,
{
}

} // verus!
