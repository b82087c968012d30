//! What an attached process's window looks like.
use crate::app::App;
use crate::attach::{AttachView, CellColor, Grid, GridCell};
use crate::labels::{service_label, service_state_label, task_label, task_state_label};
use crate::panes::{inner, Rect};
use crate::style::{
    Color, Style, BOLD, CROSSED_OUT, DIM, ITALIC, REVERSED, UNDERLINED,
};
use crate::text::{has_part, has_suffix};
use vstd::prelude::*;

verus! {

/// What became of a process, from the record of states.
pub open spec fn process_state(app: App, name: Seq<char>) -> Seq<char> {
    if app.tasks_state@.contains_key(name) {
        task_label(app.tasks_state@[name], Seq::empty())
    } else if app.services_state@.contains_key(name) {
        service_label(app.services_state@[name], false, Seq::empty())
    } else {
        "ended"@
    }
}

/// What became of the process a window was attached to: the connection only
/// knows that it closed, the record knows how.
pub fn attached_process_state(app: &App, name: &str) -> (r: String)
    ensures
        r@ == process_state(*app, name@),
{
    let nobody: Vec<String> = Vec::new();
    assert(crate::names::views(nobody@) =~= Seq::<Seq<char>>::empty());
    if let Some(state) = app.tasks_state.get(name) {
        return task_state_label(*state, &nobody);
    }
    if let Some(state) = app.services_state.get(name) {
        return service_state_label(*state, false, &nobody);
    }
    "ended".to_owned()
}

/// A colour of a screen, where it is not the default.
pub open spec fn converted(color: CellColor) -> Option<Color> {
    match color {
        CellColor::Default => None,
        CellColor::Palette(index) => Some(Color::Indexed(index)),
        CellColor::Rgb(r, g, b) => Some(Color::Rgb(r, g, b)),
    }
}

fn convert(color: CellColor) -> (r: Option<Color>)
    ensures
        r == converted(color),
{
    match color {
        CellColor::Default => None,
        CellColor::Palette(index) => Some(Color::Indexed(index)),
        CellColor::Rgb(r, g, b) => Some(Color::Rgb(r, g, b)),
    }
}

/// A style with bits switched on, if they are asked for.
pub open spec fn with_bits_if(style: Style, on: bool, bits: u16) -> Style {
    if on {
        style.with_bits(bits)
    } else {
        style
    }
}

fn add_if(style: Style, on: bool, bits: u16) -> (r: Style)
    ensures
        r == with_bits_if(style, on, bits),
{
    if on {
        style.add_modifier(bits)
    } else {
        style
    }
}

/// How a cell of a screen is drawn.
pub open spec fn style_of(cell: GridCell) -> Style {
    let plain = Style { fg: converted(cell.fg), bg: converted(cell.bg), ..Style::plain() };
    let bold = with_bits_if(plain, cell.bold, BOLD);
    let faint = with_bits_if(bold, cell.faint, DIM);
    let italic = with_bits_if(faint, cell.italic, ITALIC);
    let underlined = with_bits_if(italic, cell.underline, UNDERLINED);
    let inverse = with_bits_if(underlined, cell.inverse, REVERSED);
    with_bits_if(inverse, cell.strikethrough, CROSSED_OUT)
}

/// How a cell of a screen is drawn.
pub fn cell_style(cell: &GridCell) -> (r: Style)
    ensures
        r == style_of(*cell),
{
    let plain = Style { fg: convert(cell.fg), bg: convert(cell.bg), ..Style::new() };
    let bold = add_if(plain, cell.bold, BOLD);
    let faint = add_if(bold, cell.faint, DIM);
    let italic = add_if(faint, cell.italic, ITALIC);
    let underlined = add_if(italic, cell.underline, UNDERLINED);
    let inverse = add_if(underlined, cell.inverse, REVERSED);
    add_if(inverse, cell.strikethrough, CROSSED_OUT)
}

/// A cell to paint, counted from the first inside the border.
#[derive(Debug)]
pub struct PaintedCell {
    pub column: u16,
    pub row: u16,
    pub text: String,
    pub style: Style,
}

/// A cell to paint, as a reader of contracts sees it.
pub struct Painted {
    pub column: int,
    pub row: int,
    pub text: Seq<char>,
    pub style: Style,
}

impl View for PaintedCell {
    type V = Painted;

    open spec fn view(&self) -> Painted {
        Painted {
            column: self.column as int,
            row: self.row as int,
            text: self.text@,
            style: self.style,
        }
    }
}

/// The cells to paint, as a reader of contracts sees them.
pub open spec fn painted(cells: Seq<PaintedCell>) -> Seq<Painted> {
    Seq::new(cells.len(), |i: int| cells[i]@)
}

/// Where the cell of a column and row is in a screen's list.
pub open spec fn cell_index(grid: Grid, column: int, row: int) -> int {
    row * grid.cols + column
}

/// Whether a cell is painted: the screen has it, and it is not the second half
/// of a wide character, which the first half covers.
pub open spec fn paints(grid: Grid, column: int, row: int) -> bool {
    let at = cell_index(grid, column, row);
    0 <= at < grid.cells@.len() && grid.cells@[at].text@.len() > 0
}

/// What is painted of the first `columns` cells of a row.
pub open spec fn row_cells(grid: Grid, row: int, columns: int) -> Seq<Painted>
    decreases columns,
{
    if columns <= 0 {
        Seq::empty()
    } else {
        let before = row_cells(grid, row, columns - 1);
        if paints(grid, columns - 1, row) {
            let cell = grid.cells@[cell_index(grid, columns - 1, row)];
            before.push(
                Painted { column: columns - 1, row, text: cell.text@, style: style_of(cell) },
            )
        } else {
            before
        }
    }
}

/// What is painted of the first `rows` rows.
pub open spec fn screen_cells(grid: Grid, rows: int, columns: int) -> Seq<Painted>
    decreases rows,
{
    if rows <= 0 {
        Seq::empty()
    } else {
        screen_cells(grid, rows - 1, columns) + row_cells(grid, rows - 1, columns)
    }
}

fn paint_row(out: &mut Vec<PaintedCell>, grid: &Grid, row: u16, columns: u16)
    requires
        columns <= grid.cols,
    ensures
        painted(final(out)@) == painted(old(out)@) + row_cells(*grid, row as int, columns as int),
{
    let ghost before = painted(out@);
    let mut column: u16 = 0;
    assert(painted(out@) =~= before + row_cells(*grid, row as int, 0));
    while column < columns
        invariant
            column <= columns,
            columns <= grid.cols,
            painted(out@) == before + row_cells(*grid, row as int, column as int),
        decreases columns - column,
    {
        proof {
            let r = row as int;
            let c = grid.cols as int;
            assert(0 <= r * c <= 65535 * 65535) by (nonlinear_arith)
                requires
                    0 <= r <= 65535,
                    0 <= c <= 65535,
            ;
        }
        let start: usize = row as usize * grid.cols as usize;
        let at: usize = start + column as usize;
        let ghost so_far = painted(out@);
        assert(at as int == cell_index(*grid, column as int, row as int));
        if at < grid.cells.len() && !grid.cells[at].text.as_str().is_empty() {
            let cell = &grid.cells[at];
            let piece = PaintedCell {
                column,
                row,
                text: cell.text.clone(),
                style: cell_style(cell),
            };
            out.push(piece);
            assert(painted(out@) =~= so_far.push(piece@));
            assert(painted(out@) =~= before + row_cells(*grid, row as int, column + 1));
        }
        column += 1;
    }
}

fn paint_screen(grid: &Grid, inside: Rect) -> (r: Vec<PaintedCell>)
    ensures
        painted(r@) == screen_cells(
            *grid,
            lesser_u16(inside.height, grid.rows) as int,
            lesser_u16(inside.width, grid.cols) as int,
        ),
{
    let rows: u16 = if inside.height < grid.rows {
        inside.height
    } else {
        grid.rows
    };
    let columns: u16 = if inside.width < grid.cols {
        inside.width
    } else {
        grid.cols
    };
    let mut out: Vec<PaintedCell> = Vec::new();
    let mut row: u16 = 0;
    assert(painted(out@) =~= screen_cells(*grid, 0, columns as int));
    while row < rows
        invariant
            row <= rows,
            columns <= grid.cols,
            painted(out@) == screen_cells(*grid, row as int, columns as int),
        decreases rows - row,
    {
        paint_row(&mut out, grid, row, columns);
        row += 1;
    }
    out
}

/// The lesser of two lengths.
pub open spec fn lesser_u16(a: u16, b: u16) -> u16 {
    if a < b {
        a
    } else {
        b
    }
}

/// What is inside the border.
#[derive(Debug)]
pub enum AttachBody {
    /// No screen has arrived.
    Connecting,
    /// The screen, and its cursor if that is shown and inside the window.
    Screen { cells: Vec<PaintedCell>, cursor: Option<(u16, u16)> },
}

/// What is drawn of a window.
#[derive(Debug)]
pub struct AttachFrame {
    pub area: Rect,
    pub border: Style,
    pub title: String,
    /// Inside the border.
    pub inside: Rect,
    pub body: AttachBody,
}

/// The title of a window: how to leave it, or what became of its process.
pub open spec fn window_title(app: App, view: AttachView) -> Seq<char> {
    if view.ended {
        " "@ + view.name@ + " — "@ + process_state(app, view.name@) + " · any key dismisses "@
    } else {
        " "@ + view.name@ + " — [^D] detach "@
    }
}

/// Whether a body shows what was last seen of a process's screen.
pub open spec fn shows_screen(body: AttachBody, view: AttachView, inside: Rect) -> bool {
    match (body, view.grid) {
        (AttachBody::Connecting, None) => true,
        (AttachBody::Screen { cells, cursor }, Some(grid)) => {
            &&& painted(cells@) == screen_cells(
                grid,
                lesser_u16(inside.height, grid.rows) as int,
                lesser_u16(inside.width, grid.cols) as int,
            )
            &&& cursor == (if grid.cursor_visible && grid.cursor.0 < inside.width && grid.cursor.1
                < inside.height {
                Some(grid.cursor)
            } else {
                None
            })
        },
        _ => false,
    }
}

/// What is drawn of the attached process's window, where there is one and it
/// has an inside.
pub fn attach_frame(app: &App) -> (r: Option<AttachFrame>)
    ensures
        match (app.attach, r) {
            (Some(view), Some(frame)) => {
                &&& view.window.width >= 3 && view.window.height >= 3
                &&& frame.area == view.window.rect()
                &&& frame.inside == frame.area.inset()
                &&& frame.border == Style::with_fg(
                    if view.ended {
                        Color::DarkGray
                    } else {
                        Color::Cyan
                    },
                )
                &&& frame.title@ == window_title(*app, view)
                &&& shows_screen(frame.body, view, frame.inside)
            },
            (Some(view), None) => view.window.width < 3 || view.window.height < 3,
            (None, r) => r is None,
        },
{
    let view = match &app.attach {
        Some(view) => view,
        None => {
            return None;
        },
    };
    let area = view.window.to_rect();
    if area.width < 3 || area.height < 3 {
        return None;
    }
    let mut title = " ".to_owned();
    title.append(view.name.as_str());
    let border = if view.ended {
        title.append(" — ");
        title.append(attached_process_state(app, view.name.as_str()).as_str());
        title.append(" · any key dismisses ");
        Style::new().fg(Color::DarkGray)
    } else {
        title.append(" — [^D] detach ");
        Style::new().fg(Color::Cyan)
    };
    let inside = inner(area);
    let body = match &view.grid {
        None => AttachBody::Connecting,
        Some(grid) => {
            let (x, y) = grid.cursor;
            let cursor = if grid.cursor_visible && x < inside.width && y < inside.height {
                Some(grid.cursor)
            } else {
                None
            };
            AttachBody::Screen { cells: paint_screen(grid, inside), cursor }
        },
    };
    Some(AttachFrame { area, border, title, inside, body })
}

proof fn lemma_row_inside(grid: Grid, row: int, columns: int)
    ensures
        forall|i: int|
            0 <= i < row_cells(grid, row, columns).len() ==> {
                let cell = #[trigger] row_cells(grid, row, columns)[i];
                &&& 0 <= cell.column < columns
                &&& cell.row == row
                &&& paints(grid, cell.column, row)
                &&& cell.text == grid.cells@[cell_index(grid, cell.column, row)].text@
            },
    decreases columns,
{
    if columns > 0 {
        lemma_row_inside(grid, row, columns - 1);
    }
}

/// Nothing is painted outside the window, and every cell shows what the
/// process put there.
pub proof fn a_screen_stays_in_its_window(grid: Grid, rows: int, columns: int)
    ensures
        forall|i: int|
            0 <= i < screen_cells(grid, rows, columns).len() ==> {
                let cell = #[trigger] screen_cells(grid, rows, columns)[i];
                &&& 0 <= cell.column < columns
                &&& 0 <= cell.row < rows
                &&& cell.text == grid.cells@[cell_index(grid, cell.column, cell.row)].text@
            },
    decreases rows,
{
    if rows > 0 {
        a_screen_stays_in_its_window(grid, rows - 1, columns);
        lemma_row_inside(grid, rows - 1, columns);
        let before = screen_cells(grid, rows - 1, columns);
        let last = row_cells(grid, rows - 1, columns);
        assert forall|i: int| 0 <= i < (before + last).len() implies {
            let cell = #[trigger] (before + last)[i];
            &&& 0 <= cell.column < columns
            &&& 0 <= cell.row < rows
            &&& cell.text == grid.cells@[cell_index(grid, cell.column, cell.row)].text@
        } by {
            if i < before.len() {
                assert((before + last)[i] == before[i]);
            } else {
                assert((before + last)[i] == last[i - before.len()]);
            }
        }
    }
}

/// A window is titled with the name of its process and how to leave it; once the
/// process ended it tells how, and that any key closes it.
pub proof fn a_window_is_titled_by_its_process(app: App, view: AttachView)
    ensures
        has_part(window_title(app, view), view.name@),
        !view.ended ==> has_suffix(window_title(app, view), " — [^D] detach "@),
        view.ended ==> has_part(window_title(app, view), process_state(app, view.name@))
            && has_suffix(window_title(app, view), " · any key dismisses "@),
        app.tasks_state@.contains_key(view.name@) ==> process_state(app, view.name@) == task_label(
            app.tasks_state@[view.name@],
            Seq::empty(),
        ),
        !app.tasks_state@.contains_key(view.name@) && app.services_state@.contains_key(view.name@)
            ==> process_state(app, view.name@) == service_label(
            app.services_state@[view.name@],
            false,
            Seq::empty(),
        ),
{
    let title = window_title(app, view);
    let at = " "@.len() as int;
    assert(title.subrange(at, at + view.name@.len()) =~= view.name@);
    if view.ended {
        let state = process_state(app, view.name@);
        let from = at + view.name@.len() + " — "@.len();
        assert(title.subrange(from, from + state.len()) =~= state);
        let tail = " · any key dismisses "@;
        assert(title.skip(title.len() - tail.len()) =~= tail);
    } else {
        let tail = " — [^D] detach "@;
        assert(title.skip(title.len() - tail.len()) =~= tail);
    }
}

proof fn lemma_row_paints(grid: Grid, row: int, columns: int, column: int)
    requires
        0 <= column < columns,
        paints(grid, column, row),
    ensures
        ({
            let cell = grid.cells@[cell_index(grid, column, row)];
            row_cells(grid, row, columns).contains(
                (Painted { column, row, text: cell.text@, style: style_of(cell) }),
            )
        }),
    decreases columns,
{
    let cell = grid.cells@[cell_index(grid, column, row)];
    let wanted = Painted { column, row, text: cell.text@, style: style_of(cell) };
    let all = row_cells(grid, row, columns);
    if column < columns - 1 {
        lemma_row_paints(grid, row, columns - 1, column);
        let before = row_cells(grid, row, columns - 1);
        let i = choose|i: int| 0 <= i < before.len() && before[i] == wanted;
        assert(all[i] == wanted);
    } else {
        assert(all.last() == wanted);
    }
}

/// Every cell of the process's screen that holds something and lies within the
/// window is drawn in its place, with its text and its style.
pub proof fn every_cell_in_view_is_drawn(grid: Grid, rows: int, columns: int, column: int, row: int)
    requires
        0 <= column < columns,
        0 <= row < rows,
        0 <= row * grid.cols + column < grid.cells@.len(),
        grid.cells@[row * grid.cols + column].text@.len() > 0,
    ensures
        screen_cells(grid, rows, columns).contains(
            (Painted {
                column,
                row,
                text: grid.cells@[row * grid.cols + column].text@,
                style: style_of(grid.cells@[row * grid.cols + column]),
            }),
        ),
    decreases rows,
{
    let cell = grid.cells@[row * grid.cols + column];
    let wanted = Painted { column, row, text: cell.text@, style: style_of(cell) };
    let all = screen_cells(grid, rows, columns);
    let before = screen_cells(grid, rows - 1, columns);
    assert(paints(grid, column, row));
    if row < rows - 1 {
        every_cell_in_view_is_drawn(grid, rows - 1, columns, column, row);
        let i = choose|i: int| 0 <= i < before.len() && before[i] == wanted;
        assert(all[i] == wanted);
    } else {
        lemma_row_paints(grid, row, columns, column);
        let line = row_cells(grid, row, columns);
        let i = choose|i: int| 0 <= i < line.len() && line[i] == wanted;
        assert(all[before.len() + i] == wanted);
    }
}

/// A cell keeps its colors, and a plain cell nothing else.
pub proof fn a_cell_keeps_its_colors(cell: GridCell)
    ensures
        cell.fg is Default ==> style_of(cell).fg is None,
        cell.bg is Default ==> style_of(cell).bg is None,
        cell.fg matches CellColor::Palette(index) ==> style_of(cell).fg == Some(
            Color::Indexed(index),
        ),
        cell.bg matches CellColor::Palette(index) ==> style_of(cell).bg == Some(
            Color::Indexed(index),
        ),
        cell.fg matches CellColor::Rgb(r, g, b) ==> style_of(cell).fg == Some(Color::Rgb(r, g, b)),
        cell.bg matches CellColor::Rgb(r, g, b) ==> style_of(cell).bg == Some(Color::Rgb(r, g, b)),
        !cell.bold && !cell.faint && !cell.italic && !cell.underline && !cell.inverse
            && !cell.strikethrough ==> style_of(cell).add_modifier == 0,
        cell.bold && !cell.faint && !cell.italic && !cell.underline && !cell.inverse
            && !cell.strikethrough ==> style_of(cell).add_modifier == BOLD,
        !cell.bold && cell.faint && !cell.italic && !cell.underline && !cell.inverse
            && !cell.strikethrough ==> style_of(cell).add_modifier == DIM,
        !cell.bold && !cell.faint && cell.italic && !cell.underline && !cell.inverse
            && !cell.strikethrough ==> style_of(cell).add_modifier == ITALIC,
        !cell.bold && !cell.faint && !cell.italic && cell.underline && !cell.inverse
            && !cell.strikethrough ==> style_of(cell).add_modifier == UNDERLINED,
        !cell.bold && !cell.faint && !cell.italic && !cell.underline && cell.inverse
            && !cell.strikethrough ==> style_of(cell).add_modifier == REVERSED,
        !cell.bold && !cell.faint && !cell.italic && !cell.underline && !cell.inverse
            && cell.strikethrough ==> style_of(cell).add_modifier == CROSSED_OUT,
{
    assert(forall|bits: u16| 0u16 | bits == bits) by (bit_vector);
}

/// The cursor is drawn where the process has it, unless the process hides it or
/// it lies outside the window; until there is a screen the window says that it
/// is connecting.
pub proof fn the_cursor_is_where_the_process_has_it(
    body: AttachBody,
    view: AttachView,
    inside: Rect,
)
    requires
        shows_screen(body, view, inside),
    ensures
        view.grid is None ==> body is Connecting,
        view.grid matches Some(grid) ==> (body matches AttachBody::Screen { cells, cursor } && {
            &&& grid.cursor_visible && grid.cursor.0 < inside.width && grid.cursor.1
                < inside.height ==> cursor == Some(grid.cursor)
            &&& !grid.cursor_visible || grid.cursor.0 >= inside.width || grid.cursor.1
                >= inside.height ==> cursor is None
            &&& forall|i: int|
                0 <= i < cells@.len() ==> (#[trigger] cells@[i]).column < inside.width
                    && cells@[i].row < inside.height
        }),
{
    if let Some(grid) = view.grid {
        if let AttachBody::Screen { cells, cursor } = body {
            let rows = lesser_u16(inside.height, grid.rows) as int;
            let columns = lesser_u16(inside.width, grid.cols) as int;
            a_screen_stays_in_its_window(grid, rows, columns);
            assert forall|i: int| 0 <= i < cells@.len() implies (
            #[trigger] cells@[i]).column < inside.width && cells@[i].row < inside.height by {
                assert(painted(cells@)[i] == cells@[i]@);
                assert(screen_cells(grid, rows, columns)[i] == cells@[i]@);
            }
        }
    }
}

} // verus!
