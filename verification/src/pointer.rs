//! The mouse: clicks, drags and the wheel, and the selection they make.
use crate::app::{services_rows, tasks_rows, App, ViewMode};
use crate::effects::{effects, just, no_effects, nothing, Effect, EffectView};
use crate::keys::{MouseEvent, MouseEventKind};
use crate::log_store::{ascending, LogStore, StoredLogLine};
use crate::logs::{
    add_moves, any_under, as_isize, first_under, keys_after, PendingScroll, Scroll,
};
use crate::panels::{is_over_panel, over_panel, panel_step, steps_panel};
use crate::panes::{dragged_extent, extent_from_drag, plus, Focus, PaneSide, Panel, Rect};
use crate::selection::{
    base64, class_of, copied_text, copy_to_clipboard, is_run, selected_text, span_of, taken_parts,
    up_to, word_at, Class, Point, Selection,
};
use crate::style::at_most_usize;
use crate::text::{chars_of, decimal, has_part, has_suffix, joined, push_decimal};
use crate::view_index::{ids_ascend, place_of, Placed};
use vstd::prelude::*;
use vstd::utf8::encode_utf8;

verus! {

/// Rows that one notch of the wheel moves the log.
pub const WHEEL_ROWS: isize = 3;

/// How far apart two clicks may be and still be a double click, in
/// milliseconds.
pub const MULTI_CLICK_WINDOW: u64 = 400;

/// How long the note about a copy stays, in milliseconds.
pub const COPY_NOTICE_TTL: u64 = 4000;

/// How many clicks have landed at a place in a row, this one included.
pub open spec fn clicks_in_a_row(
    last: Option<(u16, u16, u64, u8)>,
    column: u16,
    row: u16,
    at: u64,
) -> u8 {
    match last {
        Some((last_column, last_row, last_at, count)) => if last_row == row && -1 <= last_column
            - column <= 1 && at - last_at <= MULTI_CLICK_WINDOW {
            if count >= 3 {
                1
            } else {
                (count + 1) as u8
            }
        } else {
            1
        },
        None => 1,
    }
}

/// Counts a click: one, two or three in a row. After three it starts over.
pub fn click_count(app: &mut App, column: u16, row: u16, at: u64) -> (r: u8)
    ensures
        r == clicks_in_a_row(old(app).last_click, column, row, at),
        *final(app) == (App { last_click: Some((column, row, at, r)), ..*old(app) }),
{
    let count: u8 = match app.last_click {
        Some((last_column, last_row, last_at, count)) => {
            let apart: u16 = if last_column > column {
                last_column - column
            } else {
                column - last_column
            };
            if last_row == row && apart <= 1 && at.saturating_sub(last_at) <= MULTI_CLICK_WINDOW {
                if count >= 3 {
                    1
                } else {
                    count + 1
                }
            } else {
                1
            }
        },
        None => 1,
    };
    app.last_click = Some((column, row, at, count));
    count
}

/// The place in the log that a cell points at.
pub open spec fn pointed(app: App, column: u16, row: u16) -> Option<Point> {
    let at = row - app.log_pane_origin.1;
    if 0 <= at < app.log_row_sources@.len() {
        let source = app.log_row_sources@[at];
        let within = if column > app.log_pane_origin.0 {
            column - app.log_pane_origin.0
        } else {
            0
        };
        Some(Point { id: source.id, offset: at_most_usize(source.offset_of(within)) as usize })
    } else {
        None
    }
}

/// The place in the log that a cell points at; none on a row that the last
/// frame did not draw.
pub fn point_at(app: &App, column: u16, row: u16) -> (r: Option<Point>)
    ensures
        r == pointed(*app, column, row),
{
    let (origin_x, origin_y) = app.log_pane_origin;
    if row < origin_y {
        return None;
    }
    let index: usize = (row - origin_y) as usize;
    if index >= app.log_row_sources.len() {
        return None;
    }
    let source = app.log_row_sources[index];
    let within: u16 = column.saturating_sub(origin_x);
    Some(Point::at(source, within as usize))
}

/// The state with the view held still, if it was following.
pub open spec fn paused(app: App) -> App {
    if app.log_scroll == Scroll::Follow {
        App {
            pending_scroll: PendingScroll { pin: true, ..app.pending_scroll },
            follow_paused_for_selection: true,
            ..app
        }
    } else {
        app
    }
}

/// Holds the view still while a selection stands.
pub fn pause_following_for_selection(app: &mut App)
    ensures
        *final(app) == paused(*old(app)),
{
    if app.log_scroll != Scroll::Follow {
        return;
    }
    app.pending_scroll.pin = true;
    app.follow_paused_for_selection = true;
}

/// The state following the log again.
pub open spec fn resumed(app: App) -> App {
    App { follow_paused_for_selection: false, log_scroll: Scroll::Follow, ..app }
}

/// Follows the log again.
pub fn resume_following(app: &mut App)
    ensures
        *final(app) == resumed(*old(app)),
{
    app.follow_paused_for_selection = false;
    app.log_scroll = Scroll::Follow;
}

/// The state with nothing selected, following again if the selection was what
/// stopped it.
pub open spec fn unselected(app: App) -> App {
    let dropped = App { log_selection: Selection::none(), ..app };
    if app.follow_paused_for_selection {
        resumed(dropped)
    } else {
        dropped
    }
}

/// Drops the selection. A reader who scrolled up on purpose stays there.
pub fn clear_selection(app: &mut App)
    ensures
        *final(app) == unselected(*old(app)),
{
    app.log_selection.clear();
    if app.follow_paused_for_selection {
        resume_following(app);
    }
}

/// Whether the bottom of the view is at the newest content, by the last
/// frame's geometry.
pub open spec fn is_at_tail(app: App) -> bool {
    app.log_total_rows <= app.log_rows_above + app.log_pane_height
}

/// Whether the bottom of the view is at the newest content.
pub fn at_tail(app: &App) -> (r: bool)
    ensures
        r == is_at_tail(*app),
{
    app.log_total_rows as u128 <= app.log_rows_above as u128 + app.log_pane_height as u128
}

/// The state with a settled selection between two places.
pub open spec fn selecting_between(app: App, a: Point, b: Point) -> App {
    App {
        log_selection: Selection { anchor: Some(a), cursor: Some(b), settled: true },
        ..paused(app)
    }
}

fn select_between(app: &mut App, a: Point, b: Point)
    ensures
        *final(app) == selecting_between(*old(app), a, b),
{
    pause_following_for_selection(app);
    app.log_selection.begin(a);
    app.log_selection.extend(b);
    app.log_selection.finish();
}

/// Whether `new` is `old` after a double click on a cell: the word there is
/// selected, in the message rather than in the drawn row, or nothing where
/// there is no word.
pub open spec fn takes_word(
    old: App,
    new: App,
    entries: Seq<StoredLogLine>,
    column: u16,
    row: u16,
) -> bool {
    match pointed(old, column, row) {
        None => new == old,
        Some(at) => if !any_under(entries, at.id) {
            new == old
        } else {
            let message = first_under(entries, at.id).message@;
            let class = class_of(message, at.offset as int);
            if class is None || class == Some(Class::Space) {
                new == unselected(old)
            } else {
                exists|start: usize, end: usize|
                    {
                        &&& #[trigger] is_run(
                            message,
                            at.offset as int,
                            start as int,
                            end as int,
                        )
                        &&& new == selecting_between(
                            old,
                            Point { id: at.id, offset: start },
                            Point { id: at.id, offset: end },
                        )
                    }
            }
        },
    }
}

/// Selects the word under a cell.
pub fn select_word(app: &mut App, store: &LogStore, column: u16, row: u16)
    ensures
        ascending(store@) ==> takes_word(*old(app), *final(app), store@, column, row),
        pointed(*old(app), column, row) is None ==> *final(app) == *old(app),
{
    let at = match point_at(app, column, row) {
        Some(at) => at,
        None => {
            return ;
        },
    };
    let entry = match store.get(at.id) {
        Some(entry) => entry,
        None => {
            return ;
        },
    };
    match word_at(entry.message_text(), at.offset) {
        Some((start, end)) => {
            select_between(
                app,
                Point { id: at.id, offset: start },
                Point { id: at.id, offset: end },
            );
            assert(is_run(entry.message@, at.offset as int, start as int, end as int));
        },
        None => {
            clear_selection(app);
        },
    }
}

/// The state after a triple click on a row: the whole message there is
/// selected, however many rows it takes.
pub open spec fn taking_message(app: App, row: u16) -> App {
    match pointed(app, 0, row) {
        None => app,
        Some(at) => selecting_between(
            app,
            Point { id: at.id, offset: 0 },
            Point { id: at.id, offset: usize::MAX },
        ),
    }
}

/// Selects the whole message on a row. The end is left open: copying stops at
/// the end of whatever the message then is.
pub fn select_message(app: &mut App, row: u16)
    ensures
        *final(app) == taking_message(*old(app), row),
{
    let at = match point_at(app, 0, row) {
        Some(at) => at,
        None => {
            return ;
        },
    };
    select_between(
        app,
        Point { id: at.id, offset: 0 },
        Point { id: at.id, offset: usize::MAX },
    );
}

/// The state after a scroll was asked for.
pub open spec fn scroll_asked(app: App, rows: int, pages: int, to_top: bool) -> App {
    App {
        follow_paused_for_selection: false,
        pending_scroll: PendingScroll {
            rows: as_isize(app.pending_scroll.rows + rows) as isize,
            pages: as_isize(app.pending_scroll.pages + pages) as isize,
            to_top: app.pending_scroll.to_top || to_top,
            pin: app.pending_scroll.pin,
        },
        ..app
    }
}

/// Records a scroll that the reader asked for. It is resolved when the pane is
/// drawn: how far it can go is known only then.
pub fn scroll_log(app: &mut App, rows: isize, pages: isize, to_top: bool)
    ensures
        *final(app) == scroll_asked(*old(app), rows as int, pages as int, to_top),
{
    app.follow_paused_for_selection = false;
    app.pending_scroll.rows = add_moves(app.pending_scroll.rows, rows);
    app.pending_scroll.pages = add_moves(app.pending_scroll.pages, pages);
    if to_top {
        app.pending_scroll.to_top = true;
    }
}

/// The area a divider is dragged in: the log pane, the divider and the panel.
pub open spec fn drag_area(app: App) -> Rect {
    match app.panes.status {
        Some(status) => Rect {
            x: 0,
            y: 0,
            width: plus(app.panes.logs.width as int, plus(status.width as int, 1) as int),
            height: plus(app.panes.logs.height as int, plus(status.height as int, 1) as int),
        },
        None => Rect {
            x: 0,
            y: 0,
            width: app.panes.logs.width,
            height: app.panes.logs.height,
        },
    }
}

/// Whether `new` is `old` after a click in the log pane: the first starts a
/// selection over, the second takes a word, the third the message.
#[verifier::opaque]
pub open spec fn clicks_log(
    old: App,
    new: App,
    entries: Seq<StoredLogLine>,
    mouse: MouseEvent,
    at: u64,
) -> bool {
    let count = clicks_in_a_row(old.last_click, mouse.column, mouse.row, at);
    let counted = App { last_click: Some((mouse.column, mouse.row, at, count)), ..old };
    if count == 1 {
        let cleared = unselected(counted);
        new == (match pointed(cleared, mouse.column, mouse.row) {
            Some(point) => App {
                log_selection: Selection {
                    anchor: Some(point),
                    cursor: Some(point),
                    settled: false,
                },
                ..cleared
            },
            None => cleared,
        })
    } else if count == 2 {
        ascending(entries) ==> takes_word(counted, new, entries, mouse.column, mouse.row)
    } else {
        new == taking_message(counted, mouse.row)
    }
}

/// Whether `new` is `old` after the left button went down.
pub open spec fn press_acts(
    old: App,
    new: App,
    entries: Seq<StoredLogLine>,
    mouse: MouseEvent,
    at: u64,
) -> bool {
    if old.panes.divides(mouse.column as int, mouse.row as int) {
        new == (App { dragging_divider: true, ..old })
    } else {
        match old.panes.pane_at(mouse.column as int, mouse.row as int) {
            None => new == old,
            Some(focus) => {
                let focused = App { focus, ..old };
                if focus != Focus::Logs || old.view_mode == ViewMode::Failures || old.view_mode
                    == ViewMode::Form {
                    new == focused
                } else {
                    clicks_log(focused, new, entries, mouse, at)
                }
            },
        }
    }
}

fn click_log(mouse: MouseEvent, at: u64, app: &mut App, store: &LogStore)
    ensures
        clicks_log(*old(app), *final(app), store@, mouse, at),
{
    reveal(clicks_log);
    let count: u8 = click_count(app, mouse.column, mouse.row, at);
    if count == 1 {
        clear_selection(app);
        if let Some(point) = point_at(app, mouse.column, mouse.row) {
            app.log_selection.begin(point);
        }
    } else if count == 2 {
        select_word(app, store, mouse.column, mouse.row);
    } else {
        select_message(app, mouse.row);
    }
}

#[verifier::rlimit(60)]
fn press_left(mouse: MouseEvent, at: u64, app: &mut App, store: &LogStore)
    ensures
        press_acts(*old(app), *final(app), store@, mouse, at),
{
    if app.panes.on_divider(mouse.column, mouse.row) {
        app.dragging_divider = true;
        return;
    }
    let focus = match app.panes.hit(mouse.column, mouse.row) {
        Some(focus) => focus,
        None => {
            return ;
        },
    };
    app.focus = focus;
    if focus != Focus::Logs || app.view_mode == ViewMode::Failures || app.view_mode
        == ViewMode::Form {
        return;
    }
    click_log(mouse, at, app, store);
}

/// The state after the mouse moved with the left button down: the divider
/// follows it, or else the loose end of the selection does, while the view is
/// held still.
pub open spec fn dragged(app: App, mouse: MouseEvent) -> App {
    if app.dragging_divider {
        App {
            panel: Panel {
                extent: dragged_extent(
                    drag_area(app),
                    app.panel.side,
                    mouse.column as int,
                    mouse.row as int,
                ),
                ..app.panel
            },
            panel_extent_customized: true,
            ..app
        }
    } else {
        let held = paused(app);
        match pointed(held, mouse.column, mouse.row) {
            Some(point) => if held.log_selection.anchor is Some {
                App {
                    log_selection: Selection { cursor: Some(point), ..held.log_selection },
                    ..held
                }
            } else {
                held
            },
            None => held,
        }
    }
}

fn drag_left(mouse: MouseEvent, app: &mut App)
    ensures
        *final(app) == dragged(*old(app), mouse),
{
    if app.dragging_divider {
        let area = match app.panes.status {
            Some(status) => Rect {
                x: 0,
                y: 0,
                width: app.panes.logs.width.saturating_add(status.width.saturating_add(1)),
                height: app.panes.logs.height.saturating_add(status.height.saturating_add(1)),
            },
            None => Rect {
                x: 0,
                y: 0,
                width: app.panes.logs.width,
                height: app.panes.logs.height,
            },
        };
        app.panel.extent = extent_from_drag(area, app.panel.side, mouse.column, mouse.row);
        app.panel_extent_customized = true;
        return;
    }
    pause_following_for_selection(app);
    if let Some(point) = point_at(app, mouse.column, mouse.row) {
        app.log_selection.extend(point);
    }
}

/// The state after the left button came up.
pub open spec fn released(app: App) -> App {
    App {
        dragging_divider: false,
        log_selection: if app.log_selection.anchor is Some {
            Selection { settled: true, ..app.log_selection }
        } else {
            app.log_selection
        },
        ..app
    }
}

/// Whether `new` is `old` after a mouse event.
pub open spec fn mouse_acts(
    old: App,
    new: App,
    entries: Seq<StoredLogLine>,
    mouse: MouseEvent,
    at: u64,
) -> bool {
    let over = is_over_panel(old, mouse.column as int, mouse.row as int);
    match mouse.kind {
        MouseEventKind::ScrollUp => if over {
            steps_panel(old, new, -1)
        } else {
            new == scroll_asked(old, -WHEEL_ROWS, 0, false)
        },
        MouseEventKind::ScrollDown => if over {
            steps_panel(old, new, 1)
        } else {
            new == scroll_asked(old, WHEEL_ROWS as int, 0, false)
        },
        MouseEventKind::DownLeft => press_acts(old, new, entries, mouse, at),
        MouseEventKind::DragLeft => new == dragged(old, mouse),
        MouseEventKind::UpLeft => new == released(old),
        _ => new == old,
    }
}

/// Acts on a mouse event. The wheel works on whatever is under the pointer; a
/// press on the divider is a drag of it before it is a click on a pane.
pub fn handle_mouse(mouse: MouseEvent, at: u64, app: &mut App, store: &LogStore)
    ensures
        mouse_acts(*old(app), *final(app), store@, mouse, at),
{
    match mouse.kind {
        MouseEventKind::ScrollUp => {
            if over_panel(app, mouse.column, mouse.row) {
                panel_step(app, -1);
            } else {
                scroll_log(app, -WHEEL_ROWS, 0, false);
            }
        },
        MouseEventKind::ScrollDown => {
            if over_panel(app, mouse.column, mouse.row) {
                panel_step(app, 1);
            } else {
                scroll_log(app, WHEEL_ROWS, 0, false);
            }
        },
        MouseEventKind::DownLeft => press_left(mouse, at, app, store),
        MouseEventKind::DragLeft => drag_left(mouse, app),
        MouseEventKind::UpLeft => {
            app.dragging_divider = false;
            app.log_selection.finish();
        },
        _ => {},
    }
}

/// How many lines a text has: a line break at its end starts no further one.
pub open spec fn lines_in(text: Seq<char>) -> int
    decreases text.len(),
{
    if text.len() == 0 {
        0
    } else {
        breaks_in(text.drop_last()) + 1
    }
}

/// How many line breaks a text has.
pub open spec fn breaks_in(text: Seq<char>) -> int
    decreases text.len(),
{
    if text.len() == 0 {
        0
    } else {
        breaks_in(text.drop_last()) + (if text.last() == '\n' {
            1int
        } else {
            0int
        })
    }
}

/// How many lines a text has.
pub fn count_lines(text: &str) -> (r: usize)
    ensures
        r as int == lines_in(text@),
{
    let all = chars_of(text);
    if all.len() == 0 {
        return 0;
    }
    let mut breaks: usize = 0;
    let mut i: usize = 0;
    let last: usize = all.len() - 1;
    assert(text@.take(0) =~= Seq::<char>::empty());
    while i < last
        invariant
            i <= last,
            last + 1 == all@.len(),
            all@ == text@,
            breaks as int == breaks_in(text@.take(i as int)),
            breaks <= i,
        decreases last - i,
    {
        proof {
            assert(text@.take(i + 1).drop_last() =~= text@.take(i as int));
            assert(text@.take(i + 1).last() == text@[i as int]);
        }
        if all[i] == '\n' {
            breaks += 1;
        }
        i += 1;
    }
    assert(text@.take(last as int) =~= text@.drop_last());
    breaks + 1
}

/// What copying a text asks for.
pub open spec fn copying(text: Seq<char>) -> EffectView {
    EffectView::Copy {
        sequence: seq!['\x1b', ']', '5', '2', ';', 'c', ';'] + base64(encode_utf8(text))
            + seq!['\x07'],
        lines: lines_in(text),
    }
}

/// The selected text.
pub open spec fn selected_in(
    selection: Selection,
    index: Seq<Placed>,
    entries: Seq<StoredLogLine>,
) -> Option<Seq<char>> {
    match span_of(selection) {
        Some((start, end)) => copied_text(
            taken_parts(
                up_to(keys_after(index, place_of(index, start.id)), end.id),
                entries,
                start,
                end,
            ),
        ),
        None => None,
    }
}

/// Whether what is to be done is to copy the selection.
pub open spec fn copies(app: App, entries: Seq<StoredLogLine>, fx: Seq<EffectView>) -> bool {
    &&& span_of(app.log_selection) is None ==> fx == no_effects()
    &&& ids_ascend(app.view_index@) && ascending(entries) ==> fx == (match selected_in(
        app.log_selection,
        app.view_index@,
        entries,
    ) {
        Some(text) => seq![copying(text)],
        None => no_effects(),
    })
    &&& fx == no_effects() || (exists|text: Seq<char>| fx == seq![#[trigger] copying(text)])
}

/// Asks for the selection to be put on the clipboard.
pub fn copy_selection(app: &App, store: &LogStore) -> (r: Vec<Effect>)
    ensures
        copies(*app, store@, effects(r@)),
{
    match selected_text(&app.log_selection, &app.view_index, store) {
        Some(text) => {
            let sequence = copy_to_clipboard(text.as_str());
            let lines: usize = count_lines(text.as_str());
            let r = just(Effect::Copy { sequence, lines });
            assert(effects(r@) =~= seq![copying(text@)]);
            r
        },
        None => nothing(),
    }
}

/// What the note about a copy says.
pub open spec fn copy_note(outcome: Result<usize, Seq<char>>) -> Seq<char> {
    match outcome {
        Ok(lines) => "copied "@ + decimal(lines as nat) + " line(s)"@,
        Err(why) => "copy failed: "@ + why,
    }
}

/// Notes what became of a copy. The terminal never answers, so "copied" means
/// that it was asked.
pub fn note_copy(app: &mut App, outcome: Result<usize, String>, now: u64)
    ensures
        *final(app) == (App { copy_notice: final(app).copy_notice, ..*old(app) }),
        match final(app).copy_notice {
            Some((note, at)) => at == now && note@ == copy_note(
                match outcome {
                    Ok(lines) => Ok::<usize, Seq<char>>(lines),
                    Err(why) => Err::<usize, Seq<char>>(why@),
                },
            ),
            None => false,
        },
{
    let note = match outcome {
        Ok(lines) => {
            let mut note = "copied ".to_owned();
            push_decimal(&mut note, lines as u64);
            note.append(" line(s)");
            note
        },
        Err(why) => {
            let mut note = "copy failed: ".to_owned();
            note.append(why.as_str());
            note
        },
    };
    app.copy_notice = Some((note, now));
}

/// A burst of scrolls is their sum, as long as it stays within range.
pub proof fn a_burst_of_scrolls_is_a_sum(app: App, a: int, b: int)
    requires
        isize::MIN <= app.pending_scroll.rows + a <= isize::MAX,
        isize::MIN <= app.pending_scroll.rows + a + b <= isize::MAX,
    ensures
        scroll_asked(scroll_asked(app, a, 0, false), b, 0, false) == scroll_asked(
            app,
            a + b,
            0,
            false,
        ),
{
}

/// A click's count is one, two or three.
pub proof fn a_click_counts_to_three(
    last: Option<(u16, u16, u64, u8)>,
    column: u16,
    row: u16,
    at: u64,
)
    ensures
        1 <= clicks_in_a_row(last, column, row, at) <= 3,
{
}

/// The wheel over the log asks for three rows towards the side it is turned to,
/// and over an open panel it moves the highlight there one row that way instead.
#[verifier::spinoff_prover]
#[verifier::rlimit(60)]
pub proof fn the_wheel_goes_the_way_it_is_turned(
    old: App,
    new: App,
    entries: Seq<StoredLogLine>,
    mouse: MouseEvent,
    at: u64,
)
    requires
        mouse_acts(old, new, entries, mouse, at),
        mouse.kind == MouseEventKind::ScrollUp || mouse.kind == MouseEventKind::ScrollDown,
        isize::MIN + 3 <= old.pending_scroll.rows <= isize::MAX - 3,
    ensures
        !is_over_panel(old, mouse.column as int, mouse.row as int) ==> {
            &&& new.pending_scroll.rows == (if mouse.kind == MouseEventKind::ScrollUp {
                old.pending_scroll.rows - 3
            } else {
                old.pending_scroll.rows + 3
            })
            &&& new.pending_scroll.pages == old.pending_scroll.pages
            &&& new.pending_scroll.to_top == old.pending_scroll.to_top
        },
        is_over_panel(old, mouse.column as int, mouse.row as int) ==> {
            &&& new.pending_scroll == old.pending_scroll
            &&& old.view_mode == ViewMode::Services && 0 <= old.services_table@.highlight
                < services_rows(old).len() && mouse.kind == MouseEventKind::ScrollUp
                && old.services_table@.highlight > 0 ==> new.services_table@.highlight
                == old.services_table@.highlight - 1
            &&& old.view_mode == ViewMode::Services && 0 <= old.services_table@.highlight
                < services_rows(old).len() - 1 && mouse.kind == MouseEventKind::ScrollDown
                ==> new.services_table@.highlight == old.services_table@.highlight + 1
            &&& old.view_mode == ViewMode::Tasks && 0 < old.tasks_table@.highlight < tasks_rows(
                old,
            ).len() && mouse.kind == MouseEventKind::ScrollUp ==> new.tasks_table@.highlight
                == old.tasks_table@.highlight - 1
            &&& old.view_mode == ViewMode::Tasks && 0 <= old.tasks_table@.highlight < tasks_rows(
                old,
            ).len() - 1 && mouse.kind == MouseEventKind::ScrollDown ==> new.tasks_table@.highlight
                == old.tasks_table@.highlight + 1
        },
        new.log_scroll == old.log_scroll,
        new.log_selection == old.log_selection,
        new.view_mode == old.view_mode,
{
}

/// A click is the next of a row of clicks when it comes within four tenths of a
/// second of the last one, in the same row and at most one column off; the one
/// after the third, and any other, is a first click.
pub proof fn a_click_goes_with_the_last_one_only_if_near(
    last: (u16, u16, u64, u8),
    column: u16,
    row: u16,
    at: u64,
)
    requires
        1 <= last.3 <= 3,
    ensures
        ({
            let near = row == last.1 && (column == last.0 || column == last.0 + 1 || column + 1
                == last.0) && at <= last.2 + 400;
            let count = clicks_in_a_row(Some(last), column, row, at);
            &&& near && last.3 < 3 ==> count == last.3 + 1
            &&& near && last.3 == 3 ==> count == 1
            &&& !near ==> count == 1
            &&& clicks_in_a_row(None, column, row, at) == 1
        }),
{
}

/// A point of the log pane is a place in the message that is drawn there: under
/// the indent it is where the row begins, and from there on as many characters
/// further as the point is columns further. Below the rows there is nothing.
pub proof fn a_point_is_a_place_in_a_message(app: App, column: u16, row: u16)
    requires
        row >= app.log_pane_origin.1,
        column >= app.log_pane_origin.0,
    ensures
        ({
            let at = row - app.log_pane_origin.1;
            let within = column - app.log_pane_origin.0;
            match pointed(app, column, row) {
                Some(point) => {
                    let source = app.log_row_sources@[at];
                    &&& at < app.log_row_sources@.len()
                    &&& point.id == source.id
                    &&& within <= source.indent ==> point.offset == source.offset
                    &&& within > source.indent && source.offset + within <= usize::MAX
                        ==> point.offset == source.offset + (within - source.indent)
                },
                None => at >= app.log_row_sources@.len(),
            }
        }),
{
}

/// A drag selects from where it began to where the pointer is, and stops the
/// pane from following; letting go settles what is selected. Dragging the
/// divider sizes the panel and selects nothing.
pub proof fn a_drag_selects_up_to_the_pointer(
    old: App,
    new: App,
    done: App,
    entries: Seq<StoredLogLine>,
    mouse: MouseEvent,
    up: MouseEvent,
    at: u64,
)
    requires
        mouse.kind == MouseEventKind::DragLeft,
        up.kind == MouseEventKind::UpLeft,
        mouse_acts(old, new, entries, mouse, at),
        mouse_acts(new, done, entries, up, at),
    ensures
        old.dragging_divider ==> new.log_selection == old.log_selection
            && new.panel_extent_customized && new.panel.side == old.panel.side && new.panel.extent
            >= 1,
        !old.dragging_divider ==> {
            &&& new.panel == old.panel
            &&& new.log_selection.anchor == old.log_selection.anchor
            &&& old.log_selection.anchor is Some && pointed(old, mouse.column, mouse.row) is Some
                ==> new.log_selection.cursor == pointed(old, mouse.column, mouse.row)
            &&& old.log_scroll == Scroll::Follow ==> new.pending_scroll.pin
                && new.follow_paused_for_selection
        },
        done.log_selection.anchor == new.log_selection.anchor,
        done.log_selection.cursor == new.log_selection.cursor,
        done.log_selection.anchor is Some ==> done.log_selection.settled,
        !done.dragging_divider,
{
}

/// A first click in the log begins a selection at the pointer and drops the old
/// one; a third takes the whole message. A press on the divider takes hold of
/// it, and one in a pane gives that pane the keys.
#[verifier::spinoff_prover]
#[verifier::rlimit(60)]
pub proof fn a_press_acts_on_what_it_hits(
    old: App,
    new: App,
    entries: Seq<StoredLogLine>,
    mouse: MouseEvent,
    at: u64,
)
    requires
        mouse.kind == MouseEventKind::DownLeft,
        mouse_acts(old, new, entries, mouse, at),
        ascending(entries),
    ensures
        ({
            let column = mouse.column as int;
            let row = mouse.row as int;
            let divider = old.panes.divides(column, row);
            let pane = old.panes.pane_at(column, row);
            let count = clicks_in_a_row(old.last_click, mouse.column, mouse.row, at);
            &&& divider ==> new.dragging_divider && new.focus == old.focus && new.log_selection
                == old.log_selection
            &&& !divider ==> new.dragging_divider == old.dragging_divider
            &&& !divider && pane is Some ==> new.focus == pane->0
            &&& !divider && pane is None ==> new == old
            &&& !divider && pane == Some(Focus::Logs) && old.view_mode == ViewMode::Normal ==> {
                &&& new.last_click == Some((mouse.column, mouse.row, at, count))
                &&& count == 1 ==> new.log_selection.anchor == new.log_selection.cursor
                    && new.log_selection.anchor == pointed(old, mouse.column, mouse.row)
                &&& count == 3 ==> match pointed(old, 0, mouse.row) {
                    Some(point) => new.log_selection.anchor == Some(
                        Point { id: point.id, offset: 0 },
                    ) && new.log_selection.cursor == Some(
                        Point { id: point.id, offset: usize::MAX },
                    ),
                    None => new.log_selection == old.log_selection,
                }
            }
        }),
{
    reveal(clicks_log);
    a_click_counts_to_three(old.last_click, mouse.column, mouse.row, at);
}

/// What is copied goes to the terminal as one clipboard sequence around the
/// encoded text, and what is reported is how many lines it has.
pub proof fn a_copy_is_one_clipboard_sequence(text: Seq<char>)
    ensures
        copying(text) matches EffectView::Copy { sequence, lines } && {
            &&& sequence.len() == 8 + base64(encode_utf8(text)).len()
            &&& sequence[0] == '\x1b' && sequence[1] == ']' && sequence[2] == '5' && sequence[3]
                == '2' && sequence[4] == ';' && sequence[5] == 'c' && sequence[6] == ';'
            &&& sequence.last() == '\x07'
            &&& sequence.subrange(7, sequence.len() - 1) == base64(encode_utf8(text))
            &&& lines == lines_in(text)
        },
{
    if let EffectView::Copy { sequence, lines } = copying(text) {
        assert(sequence.subrange(7, sequence.len() - 1) =~= base64(encode_utf8(text)));
    }
}

proof fn lemma_breaks_add(a: Seq<char>, b: Seq<char>)
    ensures
        breaks_in(a + b) == breaks_in(a) + breaks_in(b),
    decreases b.len(),
{
    if b.len() == 0 {
        assert(a + b =~= a);
    } else {
        lemma_breaks_add(a, b.drop_last());
        assert((a + b).drop_last() =~= a + b.drop_last());
    }
}

proof fn lemma_no_breaks(s: Seq<char>)
    requires
        !s.contains('\n'),
    ensures
        breaks_in(s) == 0,
    decreases s.len(),
{
    if s.len() > 0 {
        assert(s[s.len() - 1] == s.last());
        assert forall|i: int| 0 <= i < s.drop_last().len() implies s.drop_last()[i] != '\n' by {
            assert(s[i] == s.drop_last()[i]);
        }
        lemma_no_breaks(s.drop_last());
    }
}

/// Lines that are put under one another are counted as so many lines, so a copy
/// of that many lines is reported as that many.
pub proof fn joined_lines_are_counted(lines: Seq<Seq<char>>)
    requires
        lines.len() > 0,
        lines.last().len() > 0,
        forall|i: int| 0 <= i < lines.len() ==> !(#[trigger] lines[i]).contains('\n'),
    ensures
        lines_in(joined(lines, seq!['\n'])) == lines.len(),
{
    let text = joined(lines, seq!['\n']);
    let last = lines.last();
    lemma_joined_breaks(lines);
    assert(!lines[lines.len() - 1].contains('\n'));
    assert(text.len() > 0 && text.last() == last.last()) by {
        if lines.len() > 1 {
            assert(text.last() == last.last());
        }
    }
    assert(last[last.len() - 1] != '\n');
    assert(text.last() != '\n');
}

proof fn lemma_joined_breaks(lines: Seq<Seq<char>>)
    requires
        lines.len() > 0,
        forall|i: int| 0 <= i < lines.len() ==> !(#[trigger] lines[i]).contains('\n'),
    ensures
        breaks_in(joined(lines, seq!['\n'])) == lines.len() - 1,
    decreases lines.len(),
{
    if lines.len() == 1 {
        lemma_no_breaks(lines[0]);
    } else {
        let front = lines.drop_last();
        assert forall|i: int| 0 <= i < front.len() implies !(#[trigger] front[i]).contains('\n') by {
            assert(front[i] == lines[i]);
        }
        lemma_joined_breaks(front);
        assert(!lines[lines.len() - 1].contains('\n'));
        lemma_no_breaks(lines.last());
        lemma_breaks_add(joined(front, seq!['\n']), seq!['\n']);
        lemma_breaks_add(joined(front, seq!['\n']) + seq!['\n'], lines.last());
        let one: Seq<char> = seq!['\n'];
        assert(one.drop_last() =~= Seq::<char>::empty());
        assert(breaks_in(one) == breaks_in(one.drop_last()) + 1);
        assert(breaks_in(one.drop_last()) == 0);
    }
}

/// What is said of a copy names the number of lines, or why it failed.
pub proof fn a_copy_is_reported(lines: usize, why: Seq<char>)
    ensures
        has_part(copy_note(Ok(lines)), decimal(lines as nat)),
        has_suffix(copy_note(Err(why)), why),
        "copied "@.is_prefix_of(copy_note(Ok(lines))),
        "copy failed: "@.is_prefix_of(copy_note(Err(why))),
{
    let ok = copy_note(Ok(lines));
    let n = decimal(lines as nat);
    let at = "copied "@.len() as int;
    assert(ok.subrange(at, at + n.len()) =~= n);
    let failed = copy_note(Err(why));
    assert(failed.skip(failed.len() - why.len()) =~= why);
}

/// Dropping a selection starts the pane following again only if the selection
/// was what stopped it.
pub proof fn following_resumes_only_if_the_selection_stopped_it(app: App)
    ensures
        unselected(app).log_selection.anchor is None,
        unselected(app).log_selection.cursor is None,
        app.follow_paused_for_selection ==> unselected(app).log_scroll == Scroll::Follow,
        !app.follow_paused_for_selection ==> unselected(app).log_scroll == app.log_scroll,
        !unselected(app).follow_paused_for_selection,
        app.log_scroll == Scroll::Follow ==> paused(app).pending_scroll.pin
            && unselected(paused(app)).log_scroll == Scroll::Follow,
        app.log_scroll != Scroll::Follow ==> paused(app) == app,
{
}

/// A second click takes the whole word or run of marks that it lands in, and
/// nothing on white space.
#[verifier::spinoff_prover]
#[verifier::rlimit(60)]
pub proof fn a_double_click_takes_the_word(
    old: App,
    new: App,
    entries: Seq<StoredLogLine>,
    mouse: MouseEvent,
    at: u64,
    point: Point,
)
    requires
        mouse.kind == MouseEventKind::DownLeft,
        mouse_acts(old, new, entries, mouse, at),
        ascending(entries),
        old.view_mode == ViewMode::Normal,
        !old.panes.divides(mouse.column as int, mouse.row as int),
        old.panes.pane_at(mouse.column as int, mouse.row as int) == Some(Focus::Logs),
        clicks_in_a_row(old.last_click, mouse.column, mouse.row, at) == 2,
        pointed(old, mouse.column, mouse.row) == Some(point),
        any_under(entries, point.id),
    ensures
        ({
            let message = first_under(entries, point.id).message@;
            let class = class_of(message, point.offset as int);
            &&& class == Some(Class::Word) || class == Some(Class::Punct) ==> exists|
                start: usize,
                end: usize,
            |
                #[trigger] is_run(message, point.offset as int, start as int, end as int)
                    && new.log_selection.anchor == Some(Point { id: point.id, offset: start })
                    && new.log_selection.cursor == Some(Point { id: point.id, offset: end })
                    && new.log_selection.settled
            &&& class == Some(Class::Space) || class is None ==> new.log_selection.anchor is None
        }),
{
    reveal(clicks_log);
    let focused = App { focus: Focus::Logs, ..old };
    let counted = App {
        last_click: Some((mouse.column, mouse.row, at, 2)),
        ..focused
    };
    assert(pointed(counted, mouse.column, mouse.row) == Some(point));
    assert(takes_word(counted, new, entries, mouse.column, mouse.row));
}

/// To copy is to hand the terminal exactly what is selected, and nothing where
/// nothing is.
pub proof fn a_copy_is_what_is_selected(
    app: App,
    entries: Seq<StoredLogLine>,
    fx: Seq<EffectView>,
)
    requires
        copies(app, entries, fx),
        ids_ascend(app.view_index@),
        ascending(entries),
    ensures
        span_of(app.log_selection) is None ==> fx.len() == 0,
        match selected_in(app.log_selection, app.view_index@, entries) {
            Some(text) => fx.len() == 1 && fx[0] == copying(text),
            None => fx.len() == 0,
        },
{
}

/// The pane is at its end when its last row is the newest.
pub proof fn the_end_is_where_the_newest_row_is(app: App)
    ensures
        is_at_tail(app) <==> app.log_rows_above + app.log_pane_height >= app.log_total_rows,
{
}

/// A divider that is dragged stays under the pointer: what lies beyond it is the
/// panel's.
pub proof fn a_dragged_divider_follows_the_pointer(
    old: App,
    new: App,
    entries: Seq<StoredLogLine>,
    mouse: MouseEvent,
    at: u64,
    status: Rect,
)
    requires
        mouse.kind == MouseEventKind::DragLeft,
        mouse_acts(old, new, entries, mouse, at),
        old.dragging_divider,
        old.panes.status == Some(status),
        old.panes.logs.width + status.width + 1 <= u16::MAX,
        old.panes.logs.height + status.height + 1 <= u16::MAX,
    ensures
        old.panel.side == PaneSide::Right && mouse.column + 1 < old.panes.logs.width + status.width
            + 1 ==> mouse.column + 1 + new.panel.extent == old.panes.logs.width + status.width + 1,
        old.panel.side == PaneSide::Bottom && mouse.row + 1 < old.panes.logs.height + status.height
            + 1 ==> mouse.row + 1 + new.panel.extent == old.panes.logs.height + status.height + 1,
        new.panel_extent_customized,
        new.dragging_divider,
{
}

} // verus!
