//! What a frame decides before anything is painted: where the panes are, which
//! rows of the log are on screen, and which of their cells are selected.
use crate::app::{App, ViewMode};
use crate::bar::BAR_HEIGHT;
use crate::failures::{a_summary_is_unique, culprit_text, culprits, summarizes, text, Culprit};
use crate::log_store::{ascending, first_key, LogStore, StoredLogLine};
use crate::logs::{
    build_view, draws, resolve_scroll, resolved, LogView, PendingScroll, RowSource, Scroll,
};
use crate::marks::BlankMarks;
use crate::names::views;
use crate::output::LogId;
use crate::panes::{drawn_extent, inner, laid_out, layout, Focus, PaneSide, Panel, Rect};
use crate::selection::{covers, span_of, Point, Selection};
use crate::style::{
    at_most_usize, cells_of, lemma_cell_at, lemma_cells_paired, lemma_cells_push, Cells, Color,
    Line, Span, Style, BOLD, REVERSED,
};
use crate::text::{
    chars_of, decimal, every_part_has_its_place, has_part, join, joined, push_decimal,
};
use crate::view_index::{
    admitted, answered, ids_ascend, lets, numbered_from, place_after, rows_of,
    still_held, Placed, ViewIndex, ViewKey,
};
use ratatui::widgets::{Paragraph, Wrap};
use std::collections::hash_map::DefaultHasher;
use vstd::prelude::*;
use vstd::std_specs::hash::DefaultHasherAdditionalSpecFns;

verus! {

/// How many rows `ratatui`'s `Paragraph` gives a text at a width, wrapping at
/// words and keeping white space.
pub uninterp spec fn paragraph_rows(text: Seq<char>, width: u16) -> usize;

/// The widest that any text is measured at, and the characters that a line has
/// at most to be measured at every width.
pub const MEASURED_COLUMNS: u16 = 16_384;

/// Whether there is a line break among the characters from `from` up to `to`.
pub open spec fn breaks_between(s: Seq<char>, from: int, to: int) -> bool {
    exists|j: int| from <= j < to && #[trigger] s[j] == '\n'
}

/// Whether no line of a text has more than `n` characters.
pub open spec fn lines_within(s: Seq<char>, n: int) -> bool {
    forall|i: int| 0 <= i && i + n < s.len() ==> #[trigger] breaks_between(s, i, i + n + 1)
}

/// Whether no line of a text has more than `n` characters.
fn has_short_lines(text: &str, n: usize) -> (r: bool)
    requires
        n < usize::MAX,
    ensures
        r == lines_within(text@, n as int),
{
    let all = chars_of(text);
    let mut run: usize = 0;
    let mut i: usize = 0;
    while i < all.len()
        invariant
            i <= all@.len(),
            all@ == text@,
            n < usize::MAX,
            run <= i,
            run <= n,
            forall|j: int| i - run <= j < i ==> #[trigger] text@[j] != '\n',
            run < i ==> text@[i - run - 1] == '\n',
            forall|k: int|
                0 <= k && k + n < i ==> #[trigger] breaks_between(text@, k, k + n + 1),
        decreases all@.len() - i,
    {
        if all[i] == '\n' {
            run = 0;
        } else {
            if run == n {
                assert(!breaks_between(text@, i - n, i - n + n + 1));
                return false;
            }
            run += 1;
        }
        i += 1;
        assert forall|k: int| 0 <= k && k + n < i implies #[trigger] breaks_between(
            text@,
            k,
            k + n + 1,
        ) by {
            if k + n == i - 1 {
                assert(text@[i - run - 1] == '\n');
            }
        }
    }
    true
}

/// `ratatui::widgets::Paragraph::line_count` of a text that is wrapped without
/// trimming: the result is a function of the text and the width. The columns of
/// a line are added up in 16 bits there. The sums come to less than four times
/// the width, and to no more than the columns of the whole line, of which a
/// character takes three at most; one of the two is asked to fit.
#[verifier::external_body]
fn count_paragraph_rows(text: &str, width: u16) -> (r: usize)
    requires
        width <= MEASURED_COLUMNS || lines_within(text@, MEASURED_COLUMNS as int),
    ensures
        r == paragraph_rows(text@, width),
{
    Paragraph::new(text).wrap(Wrap { trim: false }).line_count(width)
}

/// The rectangle the log's text has: the log pane without its border.
pub open spec fn text_area(area: Rect, panel: Panel, open: bool) -> Rect {
    laid_out(area, BAR_HEIGHT, panel, open).logs.inset()
}

/// The rectangle the log's text has.
pub fn log_text_area(area: Rect, panel: Panel, panel_open: bool) -> (r: Rect)
    ensures
        r == text_area(area, panel, panel_open),
{
    inner(layout(area, BAR_HEIGHT, panel, panel_open).logs)
}

/// The columns the log's text has, at least one.
pub open spec fn text_columns(area: Rect, panel: Panel, open: bool) -> u16 {
    if text_area(area, panel, open).width < 1 {
        1
    } else {
        text_area(area, panel, open).width
    }
}

/// The columns the log's text has, which is what the store wraps at.
pub fn log_pane_width(area: Rect, panel: Panel, panel_open: bool) -> (r: u16)
    ensures
        r == text_columns(area, panel, panel_open),
{
    let width: u16 = log_text_area(area, panel, panel_open).width;
    if width < 1 {
        1
    } else {
        width
    }
}

/// The state as a frame begins: without a panel the log has the keys, and the
/// layout is noted as painted.
pub open spec fn framed(app: App, marks: BlankMarks) -> App {
    App {
        focus: if app.shows_panel() {
            app.focus
        } else {
            Focus::Logs
        },
        painted_layout: Some((app.panel, app.shows_panel())),
        repaint_requested: false,
        blank_after: marks,
        ..app
    }
}

/// Whether every cell has to be painted: the layout moved, or the reader asked.
pub open spec fn must_repaint(app: App) -> bool {
    app.painted_layout != Some((app.panel, app.shows_panel())) || app.repaint_requested
}

/// Begins a frame: the record in front is measured for the pane's width, marks
/// on lines it no longer holds are forgotten, and the line the view is held at
/// is kept from being evicted. Says whether every cell has to be painted.
pub fn prepare_frame(app: &mut App, store: &mut LogStore, area: Rect) -> (r: bool)
    ensures
        r == must_repaint(*old(app)),
        *final(app) == framed(*old(app), final(app).blank_after),
        final(store)@.len() == old(store)@.len(),
        forall|i: int|
            0 <= i < final(store)@.len() ==> {
                let now = #[trigger] final(store)@[i];
                &&& now == (StoredLogLine { wrapped_rows: now.wrapped_rows, ..old(store)@[i] })
                &&& now.measured(final(store).wrap_width())
            },
        final(store).wrap_width() == Some(
            text_columns(area, old(app).panel, old(app).shows_panel()),
        ),
        final(store).limit() == old(store).limit(),
        final(store).expected_id() == old(store).expected_id(),
        final(store).prefix_column() == old(store).prefix_column(),
        final(store).held_pin() == (match old(app).log_scroll {
            Scroll::Follow => None,
            Scroll::At { id, .. } => Some(id),
        }),
        final(app).blank_after@ == (if old(store)@.len() == 0 {
            Map::<LogId, u16>::empty()
        } else {
            let oldest = old(store)@[0].id;
            old(app).blank_after@.restrict(Set::new(|id: LogId| id.0 >= oldest.0))
        }),
{
    let open = app.panel_open();
    if !open {
        app.focus = Focus::Logs;
    }
    let painted = match app.painted_layout {
        Some((panel, was_open)) => panel == app.panel && was_open == open,
        None => false,
    };
    let repaint = !painted || app.repaint_requested;
    app.painted_layout = Some((app.panel, open));
    app.repaint_requested = false;
    store.reflow(log_pane_width(area, app.panel, open));
    app.prune_blank_marks(store.oldest_id());
    store.set_pin(app.log_scroll.anchor());
    repaint
}

/// The state once the panes are placed: the extent that was granted is the one
/// that is stored.
pub open spec fn placed_panes(app: App, area: Rect) -> App {
    let panes = laid_out(area, BAR_HEIGHT, app.panel, app.shows_panel());
    App {
        panes,
        panel: Panel { extent: drawn_extent(panes, app.panel), ..app.panel },
        ..app
    }
}

/// Places the panes on the screen.
pub fn place_panes(app: &mut App, area: Rect)
    ensures
        *final(app) == placed_panes(*old(app), area),
{
    let panes = layout(area, BAR_HEIGHT, app.panel, app.panel_open());
    app.panes = panes;
    if let Some(rect) = panes.status {
        app.panel.extent = match app.panel.side {
            PaneSide::Right => rect.width,
            PaneSide::Bottom => rect.height,
        };
    }
}

/// The summary of failures.
pub open spec fn summary_of(app: App) -> Seq<Culprit> {
    choose|s: Seq<Culprit>|
        summarizes(s, app.services_state@, app.tasks_state@, app.failed_dependencies@)
}

/// The text of the summary of failures.
pub open spec fn summary_text(app: App) -> Seq<char> {
    joined(Seq::new(summary_of(app).len(), |i: int| culprit_text(summary_of(app)[i])), "\n"@)
}

/// The text of the summary of failures.
pub fn failure_text(app: &App) -> (r: String)
    ensures
        r@ == summary_text(*app),
{
    let items = app.failure_summary_items();
    let lines = text(&items);
    proof {
        a_summary_is_unique(
            culprits(items@),
            summary_of(*app),
            app.services_state@,
            app.tasks_state@,
            app.failed_dependencies@,
        );
        assert forall|i: int| 0 <= i < lines@.len() implies views(lines@)[i] == culprit_text(
            #[trigger] summary_of(*app)[i],
        ) by {
            assert(lines@[i]@ == culprit_text(items@[i]@));
            assert(culprits(items@)[i] == items@[i]@);
        }
        assert(views(lines@) =~= Seq::new(
            summary_of(*app).len(),
            |i: int| culprit_text(summary_of(*app)[i]),
        ));
    }
    join(&lines, "\n")
}

/// How far a text of some rows can be scrolled in a pane of some rows.
pub open spec fn rows_past(rows: int, height: int) -> int {
    if rows > height {
        rows - height
    } else {
        0
    }
}

/// How far a text of some rows can be scrolled in a pane of some rows.
pub fn scroll_limit(rows: usize, height: u16) -> (r: usize)
    ensures
        r as int == rows_past(rows as int, height as int),
{
    rows.saturating_sub(height as usize)
}

/// How far the summary of failures can be scrolled on a screen.
pub fn failure_summary_max_scroll(area: Rect, app: &App) -> (r: usize)
    ensures
        r as int == summary_limit(*app, area),
{
    let inside = inner(area);
    if inside.height == 0 || inside.width == 0 {
        return 0;
    }
    let words = failure_text(app);
    let columns: u16 = if inside.width <= MEASURED_COLUMNS || has_short_lines(
        words.as_str(),
        MEASURED_COLUMNS as usize,
    ) {
        inside.width
    } else {
        MEASURED_COLUMNS
    };
    scroll_limit(count_paragraph_rows(words.as_str(), columns), inside.height)
}

/// The state with the scroll of the summary of failures kept within it, if it
/// is open.
pub open spec fn bounded_summary(app: App, limit: int) -> App {
    App {
        failure_summary_scroll: if app.view_mode == ViewMode::Failures
            && app.failure_summary_scroll >= limit {
            limit as usize
        } else {
            app.failure_summary_scroll
        },
        ..app
    }
}

/// The columns that a pane's text is measured at: the pane's, unless both they
/// and a line of the text are too many to be added up.
pub open spec fn measured_columns(text: Seq<char>, width: u16) -> u16 {
    if width <= MEASURED_COLUMNS || lines_within(text, MEASURED_COLUMNS as int) {
        width
    } else {
        MEASURED_COLUMNS
    }
}

/// How far the summary of failures can be scrolled on a screen.
pub open spec fn summary_limit(app: App, area: Rect) -> int {
    if area.inset().height == 0 || area.inset().width == 0 {
        0
    } else {
        rows_past(
            paragraph_rows(
                summary_text(app),
                measured_columns(summary_text(app), area.inset().width),
            ) as int,
            area.inset().height as int,
        )
    }
}

/// The lines that the pane shows, by walking the store.
pub open spec fn shown_lines(
    app: App,
    entries: Seq<StoredLogLine>,
    blanks: Map<LogId, u16>,
) -> Seq<Placed>
    decreases entries.len(),
{
    if entries.len() == 0 {
        Seq::empty()
    } else {
        let before = shown_lines(app, entries.drop_last(), blanks);
        let last = entries.last();
        if app.renders(last.line.name@) {
            before.push(Placed { id: last.id, nth: last.nth, rows: rows_of(last, blanks) as u32 })
        } else {
            before
        }
    }
}

proof fn lemma_shown<F: Fn(&StoredLogLine) -> bool>(
    app: App,
    entries: Seq<StoredLogLine>,
    blanks: Map<LogId, u16>,
    admits: F,
)
    requires
        forall|i: int| 0 <= i < entries.len() ==> answered(admits, #[trigger] entries[i]),
        forall|entry: &StoredLogLine, b: bool| #[trigger]
            call_ensures(admits, (entry,), b) ==> b == app.renders(entry.line.name@),
    ensures
        admitted(entries, blanks, admits) == shown_lines(app, entries, blanks),
    decreases entries.len(),
{
    if entries.len() > 0 {
        let rest = entries.drop_last();
        assert forall|i: int| 0 <= i < rest.len() implies answered(admits, #[trigger] rest[i]) by {
            assert(rest[i] == entries[i]);
        }
        lemma_shown(app, rest, blanks, admits);
        assert(answered(admits, entries[entries.len() - 1]));
        assert(lets(admits, entries.last()) == app.renders(entries.last().line.name@));
    }
}

/// What the row index is keyed on.
pub open spec fn index_key(app: App, width: u16) -> ViewKey {
    ViewKey { width, filter: DefaultHasher::spec_finish(app.fingerprint_writes()) }
}

/// Whether the index was brought up to date with a store: built anew when the
/// filter or the width moved, else mended.
pub open spec fn indexes(
    app: App,
    before: ViewIndex,
    after: ViewIndex,
    entries: Seq<StoredLogLine>,
    width: u16,
) -> bool {
    let key = index_key(app, width);
    &&& after.built_for() == Some(key)
    &&& !before.mends_for(key) ==> {
        &&& after@ == shown_lines(app, entries, app.blank_after@)
        &&& after.resumes_at() == place_after(entries, first_key(LogId(0)))
    }
    &&& before.mends_for(key) && ascending(entries) ==> {
        let arrived = numbered_from(entries, before.resumes_at());
        &&& after@ == still_held(before@, entries) + shown_lines(app, arrived, app.blank_after@)
        &&& after.resumes_at() == place_after(arrived, before.resumes_at())
    }
}

fn sync_index(app: &App, index: &mut ViewIndex, store: &LogStore, width: u16)
    ensures
        indexes(*app, *old(index), *final(index), store@, width),
{
    let key = ViewKey { width, filter: app.log_filter_fingerprint() };
    let admits = |entry: &StoredLogLine| -> (r: bool)
        ensures
            r == app.renders(entry.line.name@),
        { app.should_render_log(entry.line.name.as_str(), entry.line.is_lifecycle) };
    index.sync(store, key, &app.blank_after, admits);
    proof {
        if !old(index).mends_for(key) {
            lemma_shown(*app, store@, app.blank_after@, admits);
        } else if ascending(store@) {
            let arrived = numbered_from(store@, old(index).resumes_at());
            lemma_shown(*app, arrived, app.blank_after@, admits);
        }
    }
}

/// The texts of a list of lines.
pub open spec fn line_texts(lines: Seq<Line>) -> Seq<Seq<char>> {
    Seq::new(lines.len(), |i: int| lines[i].cells().text)
}

fn texts_of(lines: &Vec<Line>) -> (r: Vec<String>)
    ensures
        views(r@) == line_texts(lines@),
{
    let mut out: Vec<String> = Vec::new();
    let mut i: usize = 0;
    while i < lines.len()
        invariant
            i <= lines@.len(),
            out@.len() == i,
            forall|j: int| 0 <= j < i ==> (#[trigger] out@[j])@ == lines@[j].cells().text,
        decreases lines@.len() - i,
    {
        out.push(lines[i].text());
        i += 1;
    }
    assert(views(out@) =~= line_texts(lines@));
    out
}

fn copy_sources(sources: &Vec<RowSource>) -> (r: Vec<RowSource>)
    ensures
        r@ == sources@,
{
    let mut out: Vec<RowSource> = Vec::new();
    let mut i: usize = 0;
    while i < sources.len()
        invariant
            i <= sources@.len(),
            out@ == sources@.take(i as int),
        decreases sources@.len() - i,
    {
        out.push(sources[i]);
        assert(sources@.take(i + 1) =~= sources@.take(i as int).push(sources@[i as int]));
        i += 1;
    }
    assert(sources@.take(sources@.len() as int) =~= sources@);
    out
}

/// Whether `new` is `before` after the log pane was laid out in a rectangle, and
/// the view is what it shows.
pub open spec fn lays_out_log(
    before: App,
    new: App,
    entries: Seq<StoredLogLine>,
    area: Rect,
    view: LogView,
) -> bool {
    &&& new == (App {
        view_index: new.view_index,
        log_scroll: new.log_scroll,
        pending_scroll: PendingScroll::nothing(),
        log_rows_above: view.rows_above,
        log_total_rows: view.total_rows,
        log_pane_height: area.height,
        log_visible_rows: new.log_visible_rows,
        log_row_sources: new.log_row_sources,
        log_pane_origin: (area.x, area.y),
        ..before
    })
    &&& indexes(before, before.view_index, new.view_index, entries, area.width)
    &&& ids_ascend(new.view_index@) ==> new.log_scroll == resolved(
        new.view_index@,
        before.log_scroll,
        before.pending_scroll,
        area.height,
    )
    &&& before.pending_scroll == PendingScroll::nothing() ==> new.log_scroll == before.log_scroll
    &&& draws(
        view,
        new.view_index@,
        entries,
        before.blank_after@,
        new.log_scroll,
        area.width,
        area.height,
    )
    &&& views(new.log_visible_rows@) == line_texts(view.rows@)
    &&& new.log_row_sources@ == view.row_sources@
}

/// Lays out the log pane in its rectangle: the row index is brought up to
/// date, what was asked of the scroll is resolved, and what is on screen is
/// noted for the mouse.
pub fn lay_out_log(app: &mut App, store: &LogStore, area: Rect) -> (r: LogView)
    ensures
        lays_out_log(*old(app), *final(app), store@, area, r),
{
    let ghost before = *app;
    let mut index = ViewIndex::new();
    std::mem::swap(&mut index, &mut app.view_index);
    sync_index(app, &mut index, store, area.width);
    let scroll = resolve_scroll(&index, app.log_scroll, app.pending_scroll, area.height);
    let view = build_view(store, &index, &app.blank_after, scroll, area.width, area.height);
    proof {
        lemma_index_app(before, *app, before.view_index, index, store@, area.width);
    }
    app.view_index = index;
    app.log_scroll = scroll;
    app.pending_scroll = PendingScroll::default();
    app.log_rows_above = view.rows_above;
    app.log_total_rows = view.total_rows;
    app.log_pane_height = area.height;
    app.log_visible_rows = texts_of(&view.rows);
    app.log_row_sources = copy_sources(&view.row_sources);
    app.log_pane_origin = (area.x, area.y);
    view
}

proof fn lemma_shown_same(a: App, b: App, entries: Seq<StoredLogLine>, blanks: Map<LogId, u16>)
    requires
        b == (App { view_index: b.view_index, ..a }),
    ensures
        shown_lines(a, entries, blanks) == shown_lines(b, entries, blanks),
    decreases entries.len(),
{
    if entries.len() > 0 {
        lemma_shown_same(a, b, entries.drop_last(), blanks);
        assert(a.renders(entries.last().line.name@) == b.renders(entries.last().line.name@));
    }
}

proof fn lemma_index_app(
    a: App,
    b: App,
    before: ViewIndex,
    after: ViewIndex,
    entries: Seq<StoredLogLine>,
    width: u16,
)
    requires
        b == (App { view_index: b.view_index, ..a }),
        indexes(b, before, after, entries, width),
    ensures
        indexes(a, before, after, entries, width),
{
    assert(a.fingerprint_writes() == b.fingerprint_writes());
    lemma_shown_same(a, b, entries, a.blank_after@);
    lemma_shown_same(a, b, numbered_from(entries, before.resumes_at()), a.blank_after@);
}

/// The state once everything that bounds the overlays is known.
pub open spec fn placed(app: App, area: Rect) -> App {
    let panes = placed_panes(app, area);
    bounded_summary(panes, summary_limit(panes, area))
}

/// Lays out a frame: the panes are placed, the summary of failures kept within
/// its bounds, and the log pane filled, where there is room for any.
pub fn lay_out(app: &mut App, store: &LogStore, area: Rect) -> (r: Option<LogView>)
    ensures
        area.width == 0 || area.height == 0 ==> r is None && *final(app) == *old(app),
        area.width > 0 && area.height > 0 ==> {
            let before = placed(*old(app), area);
            let inside = before.panes.logs.inset();
            match r {
                Some(view) => inside.width > 0 && inside.height > 0 && lays_out_log(
                    before,
                    *final(app),
                    store@,
                    inside,
                    view,
                ),
                None => (inside.width == 0 || inside.height == 0) && *final(app) == before,
            }
        },
{
    if area.width == 0 || area.height == 0 {
        return None;
    }
    place_panes(app, area);
    let ghost panes = *app;
    if app.view_mode == ViewMode::Failures {
        let limit: usize = failure_summary_max_scroll(area, app);
        app.sync_failure_summary_scroll(limit);
    }
    assert(*app == bounded_summary(panes, summary_limit(panes, area)));
    let inside = inner(app.panes.logs);
    if inside.width == 0 || inside.height == 0 {
        return None;
    }
    Some(lay_out_log(app, store, inside))
}

/// Whether a column of a row is selected. The name column never is.
pub open spec fn is_lit(selection: Selection, source: RowSource, column: int) -> bool {
    column >= source.indent && covers(
        selection,
        Point { id: source.id, offset: at_most_usize(source.offset_of(column)) as usize },
    )
}

/// A row with its selected cells reversed.
pub open spec fn lit_cells(cells: Cells, selection: Selection, source: RowSource) -> Cells {
    Cells {
        text: cells.text,
        styles: Seq::new(
            cells.text.len(),
            |i: int|
                if is_lit(selection, source, at_most_usize(i)) {
                    cells.styles[i].with_bits(REVERSED)
                } else {
                    cells.styles[i]
                },
        ),
    }
}

/// A style, reversed where its text is selected.
pub open spec fn run_style(style: Style, selected: bool) -> Style {
    if selected {
        style.with_bits(REVERSED)
    } else {
        style
    }
}

/// A run of a row, reversed where it is selected.
pub fn styled_run(text: &str, style: Style, selected: bool) -> (r: Span)
    ensures
        r.content@ == text@,
        r.style == run_style(style, selected),
{
    if selected {
        Span::styled(text.to_owned(), style.add_modifier(REVERSED))
    } else {
        Span::styled(text.to_owned(), style)
    }
}

/// Restyles the cells of a row that are selected, and only those: spans are
/// split where the selection begins and ends.
pub fn highlight_selected(line: &Line, selection: &Selection, source: RowSource) -> (r: Line)
    ensures
        r.cells() == lit_cells(line.cells(), *selection, source),
{
    let ghost cells = line.cells();
    let ghost target = lit_cells(cells, *selection, source);
    let ghost mut done: int = 0;
    let mut out: Vec<Span> = Vec::new();
    let mut column: usize = 0;
    let mut i: usize = 0;
    proof {
        lemma_cells_paired(line.spans@);
        assert(line.spans@.take(0) =~= Seq::<Span>::empty());
        assert(cells_of(out@) =~= target.cut(0, 0));
    }
    while i < line.spans.len()
        invariant
            i <= line.spans@.len(),
            cells == cells_of(line.spans@),
            cells.styles.len() == cells.text.len(),
            target == lit_cells(cells, *selection, source),
            done == cells_of(line.spans@.take(i as int)).len(),
            0 <= done <= cells.len(),
            column as int == at_most_usize(done),
            cells_of(out@) == target.cut(0, done),
        decreases line.spans@.len() - i,
    {
        let span = &line.spans[i];
        let chars = chars_of(span.content.as_str());
        let ghost start = done;
        let mut run = String::new();
        let mut lit = false;
        let mut j: usize = 0;
        proof {
            lemma_cells_push(line.spans@.take(i as int), *span);
            assert(line.spans@.take(i + 1) =~= line.spans@.take(i as int).push(*span));
            assert(Cells::styled(run@, run_style(span.style, lit)) =~= Cells::none());
            assert(cells_of(out@).followed_by(Cells::none()) =~= cells_of(out@));
        }
        while j < chars.len()
            invariant
                i < line.spans@.len(),
                *span == line.spans@[i as int],
                chars@ == span.content@,
                j <= chars@.len(),
                cells == cells_of(line.spans@),
                cells.styles.len() == cells.text.len(),
                target == lit_cells(cells, *selection, source),
                start == cells_of(line.spans@.take(i as int)).len(),
                done == start + j,
                0 <= done <= cells.len(),
                column as int == at_most_usize(done),
                cells_of(out@).followed_by(Cells::styled(run@, run_style(span.style, lit)))
                    == target.cut(0, done),
            decreases chars@.len() - j,
        {
            proof {
                lemma_cell_at(line.spans@, i as int, j as int);
            }
            let selected = column >= source.indent && selection.contains(
                Point::at(source, column),
            );
            if selected != lit {
                if !run.as_str().is_empty() {
                    let piece = styled_run(run.as_str(), span.style, lit);
                    proof {
                        lemma_cells_push(out@, piece);
                    }
                    out.push(piece);
                } else {
                    assert(Cells::styled(run@, run_style(span.style, lit)) =~= Cells::none());
                    assert(cells_of(out@).followed_by(Cells::none()) =~= cells_of(out@));
                }
                run = String::new();
                lit = selected;
                proof {
                    assert(Cells::styled(run@, run_style(span.style, lit)) =~= Cells::none());
                    assert(cells_of(out@).followed_by(Cells::none()) =~= cells_of(out@));
                }
            }
            let ghost before = run@;
            run.push(chars[j]);
            proof {
                let style = run_style(span.style, lit);
                assert(target.text[done] == chars@[j as int]);
                assert(target.styles[done] == style);
                let grown = cells_of(out@).followed_by(Cells::styled(run@, style));
                let so_far = cells_of(out@).followed_by(Cells::styled(before, style));
                assert(so_far == target.cut(0, done));
                assert(so_far.text.len() == done);
                assert(Cells::styled(run@, style).styles =~= Cells::styled(
                    before,
                    style,
                ).styles.push(style));
                assert(grown.text =~= so_far.text.push(chars@[j as int]));
                assert(grown.styles =~= so_far.styles.push(style));
                assert(so_far.styles.len() == done);
                assert(grown.text =~= target.cut(0, done + 1).text);
                assert(grown.styles =~= target.cut(0, done + 1).styles);
                done = done + 1;
            }
            column = column.saturating_add(1);
            j += 1;
        }
        if !run.as_str().is_empty() {
            let piece = styled_run(run.as_str(), span.style, lit);
            proof {
                lemma_cells_push(out@, piece);
            }
            out.push(piece);
        } else {
            assert(Cells::styled(run@, run_style(span.style, lit)) =~= Cells::none());
            assert(cells_of(out@).followed_by(Cells::none()) =~= cells_of(out@));
        }
        i += 1;
    }
    proof {
        assert(line.spans@.take(line.spans@.len() as int) =~= line.spans@);
        assert(target.cut(0, done) =~= target);
    }
    Line { spans: out }
}

/// The rows of a view with their selected cells reversed.
pub fn painted_rows(view: &LogView, selection: &Selection) -> (r: Vec<Line>)
    requires
        view.rows@.len() == view.row_sources@.len(),
    ensures
        r@.len() == view.rows@.len(),
        forall|i: int|
            0 <= i < r@.len() ==> (#[trigger] r@[i]).cells() == lit_cells(
                view.rows@[i].cells(),
                *selection,
                view.row_sources@[i],
            ),
{
    let mut out: Vec<Line> = Vec::new();
    let mut i: usize = 0;
    while i < view.rows.len()
        invariant
            i <= view.rows@.len(),
            view.rows@.len() == view.row_sources@.len(),
            out@.len() == i,
            forall|j: int|
                0 <= j < i ==> (#[trigger] out@[j]).cells() == lit_cells(
                    view.rows@[j].cells(),
                    *selection,
                    view.row_sources@[j],
                ),
        decreases view.rows@.len() - i,
    {
        out.push(highlight_selected(&view.rows[i], selection, view.row_sources[i]));
        i += 1;
    }
    out
}

/// What the marker says while the view is held above the newest line.
pub open spec fn badge_text(rows_below: int) -> Seq<char> {
    " ↑ scrolled — "@ + decimal(rows_below as nat) + " row(s) below · [end] follow "@
}

/// The rows below the view.
pub open spec fn below(view: LogView, height: u16) -> int {
    rows_past(view.total_rows as int, view.rows_above + height)
}

/// How the marker is drawn.
pub fn badge_style() -> (r: Style)
    ensures
        r == (Style { bg: Some(Color::Yellow), ..Style::with_fg(Color::Black) }).with_bits(BOLD),
{
    Style::new().fg(Color::Black).bg(Color::Yellow).add_modifier(BOLD)
}

/// The marker's text and rectangle, if there is something to say: rows are
/// below the view, and it fits the pane.
pub fn scroll_badge(view: &LogView, area: Rect) -> (r: Option<(String, Rect)>)
    ensures
        match r {
            Some((label, badge)) => {
                &&& !view.following
                &&& below(*view, area.height) > 0
                &&& label@ == badge_text(below(*view, area.height))
                &&& label@.len() < area.width
                &&& badge.width == label@.len()
                &&& badge.height == 1
                &&& badge.x as int == at_most_u16(area.x + area.width - label@.len())
                &&& badge.y as int == at_most_u16(area.y + rows_past(area.height as int, 1))
            },
            None => view.following || below(*view, area.height) == 0 || badge_text(
                below(*view, area.height),
            ).len() >= area.width,
        },
{
    let shown: u128 = view.rows_above as u128 + area.height as u128;
    if view.following || view.total_rows as u128 <= shown {
        return None;
    }
    let rows_below: u64 = (view.total_rows as u128 - shown) as u64;
    let mut label = " ↑ scrolled — ".to_owned();
    push_decimal(&mut label, rows_below);
    label.append(" row(s) below · [end] follow ");
    let width: usize = label.as_str().unicode_len();
    if width >= area.width as usize {
        return None;
    }
    let badge = Rect {
        x: area.x.saturating_add(area.width - width as u16),
        y: area.y.saturating_add(area.height.saturating_sub(1)),
        width: width as u16,
        height: 1,
    };
    Some((label, badge))
}

/// A number kept within 16 bits.
pub open spec fn at_most_u16(n: int) -> int {
    if n > u16::MAX {
        u16::MAX as int
    } else {
        n
    }
}

/// Restyling a row for a selection changes no text, never touches the name
/// column, and nothing at all where nothing is selected.
pub proof fn highlighting_keeps_the_text(cells: Cells, selection: Selection, source: RowSource)
    requires
        cells.styles.len() == cells.text.len(),
    ensures
        lit_cells(cells, selection, source).text == cells.text,
        forall|i: int|
            0 <= i < cells.text.len() && i < source.indent ==> #[trigger] lit_cells(
                cells,
                selection,
                source,
            ).styles[i] == cells.styles[i],
        span_of(selection) is None ==> lit_cells(cells, selection, source) == cells,
{
    if span_of(selection) is None {
        assert(lit_cells(cells, selection, source) =~= cells);
    }
}

proof fn lemma_shown_lines(
    app: App,
    entries: Seq<StoredLogLine>,
    blanks: Map<LogId, u16>,
    i: int,
)
    requires
        0 <= i < entries.len(),
    ensures
        app.renders(entries[i].line.name@) ==> shown_lines(app, entries, blanks).contains(
            Placed { id: entries[i].id, nth: entries[i].nth, rows: rows_of(entries[i], blanks) as u32 },
        ),
    decreases entries.len(),
{
    let front = entries.drop_last();
    let all = shown_lines(app, entries, blanks);
    let before = shown_lines(app, front, blanks);
    if app.renders(entries[i].line.name@) {
        let place = Placed {
            id: entries[i].id,
            nth: entries[i].nth,
            rows: rows_of(entries[i], blanks) as u32,
        };
        if i < front.len() {
            assert(front[i] == entries[i]);
            lemma_shown_lines(app, front, blanks, i);
            let k = choose|k: int| 0 <= k < before.len() && before[k] == place;
            assert(all[k] == place);
        } else {
            assert(all.last() == place);
        }
    }
}

proof fn lemma_shown_from(
    app: App,
    entries: Seq<StoredLogLine>,
    blanks: Map<LogId, u16>,
    k: int,
)
    requires
        0 <= k < shown_lines(app, entries, blanks).len(),
    ensures
        exists|i: int|
            0 <= i < entries.len() && app.renders((#[trigger] entries[i]).line.name@)
                && entries[i].key() == shown_lines(app, entries, blanks)[k].key(),
    decreases entries.len(),
{
    let front = entries.drop_last();
    let before = shown_lines(app, front, blanks);
    if k < before.len() {
        lemma_shown_from(app, front, blanks, k);
        let i = choose|i: int|
            0 <= i < front.len() && app.renders((#[trigger] front[i]).line.name@) && front[i].key()
                == before[k].key();
        assert(entries[i] == front[i]);
    } else {
        assert(entries[entries.len() - 1] == entries.last());
    }
}

/// The log shows every stored line whose name is shown, and no other.
pub proof fn the_log_shows_the_lines_of_the_names_shown(
    app: App,
    entries: Seq<StoredLogLine>,
    blanks: Map<LogId, u16>,
    i: int,
    k: int,
)
    ensures
        ({
            let lines = shown_lines(app, entries, blanks);
            &&& 0 <= i < entries.len() && (app.shutdown_started || app.filter@.active.contains(
                entries[i].line.name@,
            ) || entries[i].line.name@.len() == 0) ==> exists|at: int|
                0 <= at < lines.len() && (#[trigger] lines[at]).key() == entries[i].key()
            &&& 0 <= k < lines.len() ==> exists|at: int|
                {
                    &&& 0 <= at < entries.len()
                    &&& (#[trigger] entries[at]).key() == lines[k].key()
                    &&& app.shutdown_started || app.filter@.active.contains(
                        entries[at].line.name@,
                    ) || entries[at].line.name@.len() == 0
                }
        }),
{
    let lines = shown_lines(app, entries, blanks);
    if 0 <= i < entries.len() && (app.shutdown_started || app.filter@.active.contains(
        entries[i].line.name@,
    ) || entries[i].line.name@.len() == 0) {
        lemma_shown_lines(app, entries, blanks, i);
        let place = Placed {
            id: entries[i].id,
            nth: entries[i].nth,
            rows: rows_of(entries[i], blanks) as u32,
        };
        let at = choose|at: int| 0 <= at < lines.len() && lines[at] == place;
        assert(lines[at].key() == entries[i].key());
    }
    if 0 <= k < lines.len() {
        lemma_shown_from(app, entries, blanks, k);
        let at = choose|at: int|
            0 <= at < entries.len() && app.renders((#[trigger] entries[at]).line.name@)
                && entries[at].key() == lines[k].key();
        assert(entries[at].key() == lines[k].key());
    }
}

/// What is selected is drawn reversed, and nothing else is; the text stays.
pub proof fn what_is_selected_is_drawn_reversed(
    cells: Cells,
    selection: Selection,
    source: RowSource,
    i: int,
)
    requires
        0 <= i < cells.text.len() <= usize::MAX,
        cells.styles.len() == cells.text.len(),
        source.offset + i <= usize::MAX,
    ensures
        ({
            let lit = lit_cells(cells, selection, source);
            let at = Point { id: source.id, offset: (source.offset + i - source.indent) as usize };
            &&& lit.text == cells.text
            &&& i >= source.indent && covers(selection, at) ==> lit.styles[i]
                == cells.styles[i].with_bits(REVERSED)
            &&& i < source.indent || !covers(selection, at) ==> lit.styles[i] == cells.styles[i]
        }),
{
}

/// The badge of a pane that does not follow tells how many rows lie below it,
/// and a pane whose last row is the newest has none below.
pub proof fn the_badge_tells_the_rows_below(view: LogView, height: u16)
    ensures
        view.total_rows > view.rows_above + height ==> below(view, height) == view.total_rows
            - view.rows_above - height,
        view.total_rows <= view.rows_above + height ==> below(view, height) == 0,
        has_part(badge_text(below(view, height)), decimal(below(view, height) as nat)),
{
    let n = decimal(below(view, height) as nat);
    let text = badge_text(below(view, height));
    let at = " ↑ scrolled — "@.len() as int;
    assert(text.subrange(at, at + n.len()) =~= n);
}

/// A frame is drawn from nothing when it was asked for or when the panes moved,
/// and once it is drawn neither holds any longer. A pane that is gone loses the
/// keys to the log.
pub proof fn a_repaint_is_done_once(app: App, marks: BlankMarks)
    ensures
        app.repaint_requested ==> must_repaint(app),
        app.painted_layout is None ==> must_repaint(app),
        app.painted_layout == Some((app.panel, app.shows_panel())) && !app.repaint_requested
            ==> !must_repaint(app),
        !must_repaint(framed(app, marks)),
        !app.shows_panel() ==> framed(app, marks).focus == Focus::Logs,
        app.shows_panel() ==> framed(app, marks).focus == app.focus,
{
}

/// The summary of failures is never scrolled past its end.
pub proof fn the_summary_stops_at_its_end(app: App, limit: int)
    requires
        0 <= limit <= usize::MAX,
        app.view_mode == ViewMode::Failures,
    ensures
        bounded_summary(app, limit).failure_summary_scroll <= limit,
        app.failure_summary_scroll <= limit ==> bounded_summary(app, limit).failure_summary_scroll
            == app.failure_summary_scroll,
        app.failure_summary_scroll > limit ==> bounded_summary(app, limit).failure_summary_scroll
            == limit,
{
}

/// What overflows is as many rows as do not fit.
pub proof fn what_does_not_fit_is_scrolled(rows: int, height: int)
    requires
        rows >= 0,
        height >= 0,
    ensures
        rows <= height ==> rows_past(rows, height) == 0,
        rows > height ==> rows_past(rows, height) + height == rows,
{
}

/// A frame settles what was asked for since the last one: nothing is left to be
/// done, the pane stands where it was asked to go, and what is remembered of it
/// is what was drawn.
#[verifier::spinoff_prover]
pub proof fn a_frame_settles_what_was_asked(
    before: App,
    new: App,
    entries: Seq<StoredLogLine>,
    area: Rect,
    view: LogView,
)
    requires
        lays_out_log(before, new, entries, area, view),
    ensures
        new.pending_scroll == (PendingScroll { rows: 0, pages: 0, to_top: false, pin: false }),
        new.log_pane_origin == (area.x, area.y),
        new.log_pane_height == area.height,
        new.log_rows_above == view.rows_above,
        new.log_total_rows == view.total_rows,
        new.log_row_sources@ == view.row_sources@,
        new.log_selection == before.log_selection,
        before.pending_scroll == (PendingScroll { rows: 0, pages: 0, to_top: false, pin: false })
            ==> new.log_scroll == before.log_scroll,
        view.following <==> new.log_scroll == Scroll::Follow,
{
}

/// The log's text stands inside its frame, and is given at least one column.
pub proof fn the_text_stands_inside_its_frame(area: Rect, panel: Panel, open: bool)
    requires
        area.x + area.width <= u16::MAX,
        area.y + area.height <= u16::MAX,
        laid_out(area, 3, panel, open).logs.width >= 3,
    ensures
        text_columns(area, panel, open) == laid_out(area, 3, panel, open).logs.width - 2,
        text_columns(area, panel, open) >= 1,
        text_area(area, panel, open).x == laid_out(area, 3, panel, open).logs.x + 1,
        BAR_HEIGHT == 3,
{
}

/// A panel that had to give way remembers what it was given, so that nothing
/// moves when it is drawn again.
pub proof fn the_panes_are_those_laid_out(app: App, area: Rect)
    ensures
        placed_panes(app, area).panes == laid_out(area, 3, app.panel, app.shows_panel()),
        placed_panes(app, area).panel.side == app.panel.side,
        !app.shows_panel() ==> placed_panes(app, area).panel == app.panel,
        placed_panes(app, area).panes.status matches Some(status) ==> placed_panes(
            app,
            area,
        ).panel.extent == (if app.panel.side == PaneSide::Right {
            status.width
        } else {
            status.height
        }),
{
}

/// The summary is one line for each failure, in the words for it.
pub proof fn the_summary_is_one_line_for_each_failure(app: App, summary: Seq<Culprit>, i: int)
    requires
        summarizes(summary, app.services_state@, app.tasks_state@, app.failed_dependencies@),
        0 <= i < summary.len(),
    ensures
        summary_of(app) == summary,
        has_part(summary_text(app), culprit_text(summary[i])),
{
    a_summary_is_unique(
        summary,
        summary_of(app),
        app.services_state@,
        app.tasks_state@,
        app.failed_dependencies@,
    );
    let lines = Seq::new(summary.len(), |k: int| culprit_text(summary[k]));
    every_part_has_its_place(lines, "\n"@, i);
    assert(lines[i] == culprit_text(summary[i]));
}

/// A selected run is drawn reversed, and any other as it is.
pub proof fn a_selected_run_is_drawn_reversed(style: Style)
    ensures
        run_style(style, true) == style.with_bits(REVERSED),
        run_style(style, false) == style,
        REVERSED == 64,
{
}

} // verus!
