//! Rows of the log pane.
//!
//! A log line is wrapped to the pane's width with its name prefix held in a
//! column of its own. The count of rows and the rows themselves come from the
//! same arithmetic, so a view can be positioned by one and painted by the
//! other.
use crate::log_store::{ascending, first_key, LineKey, LogStore, StoredLogLine};
use crate::marks::{blank_rows, BlankMarks};
use crate::output::LogId;
use crate::style::{
    at_most_usize, cells_of, lemma_cell_at, lemma_cells_append, lemma_cells_paired, lemma_cells_push, Cells, Line,
    Span, Style,
};
use crate::text::chars_of;
use crate::view_index::{
    a_row_has_one_owner, admitted, ids_ascend, lemma_admitted_ascend, lemma_admitted_come_from,
    lemma_lines_before, lemma_own_place, lemma_rows_grow, lets, owns, place_of, rows_before, rows_in, Placed, ViewIndex,
};
use vstd::prelude::*;

verus! {

/// The columns of a pane; a pane without columns counts as one column.
pub open spec fn columns(width: u16) -> int {
    if width == 0 {
        1
    } else {
        width as int
    }
}

/// The columns the name prefix keeps on every row. A pane too narrow to hold
/// the prefix and anything else gives it none.
pub open spec fn kept_prefix(prefix_cols: int, columns: int) -> int {
    if prefix_cols + 1 >= columns {
        0
    } else {
        prefix_cols
    }
}

/// How many rows a line of `chars` characters takes: the message over the
/// message column, and one row at least.
pub open spec fn row_count(chars: int, prefix_cols: int, columns: int) -> int {
    let kept = kept_prefix(prefix_cols, columns);
    let body = if chars > kept {
        chars - kept
    } else {
        0
    };
    if body == 0 {
        1
    } else {
        (body - 1) / (columns - kept) + 1
    }
}

/// The character at which row `row` starts.
pub open spec fn row_start(row: int, kept: int, columns: int) -> int {
    if row <= 0 {
        0
    } else {
        kept + row * (columns - kept)
    }
}

/// A text of `n` spaces.
pub open spec fn spaces(n: int) -> Seq<char> {
    Seq::new(n as nat, |i: int| ' ')
}

/// The left column of a row that continues the row above: blank where the name
/// would be, with the separator carried down.
pub open spec fn continuation_text(kept: int) -> Seq<char> {
    if kept >= 2 {
        spaces(kept - 2) + seq!['│', ' ']
    } else {
        spaces(kept)
    }
}

/// The cells of row `row`: the text from where the row starts to where the
/// next one starts, under the continuation column on every row but the first.
pub open spec fn row_cells(cells: Cells, row: int, kept: int, columns: int) -> Cells {
    let start = row_start(row, kept, columns);
    let next = row_start(row + 1, kept, columns);
    let end = if next < cells.len() {
        next
    } else {
        cells.len() as int
    };
    partial_row(cells, row, start, end, kept)
}

/// A row that holds the text from `start` to `end`.
pub open spec fn partial_row(cells: Cells, row: int, start: int, end: int, kept: int) -> Cells {
    if row == 0 {
        cells.cut(start, end)
    } else {
        Cells::styled(continuation_text(kept), Style::plain()).followed_by(cells.cut(start, end))
    }
}

/// Message characters one row can hold at this width, and the prefix width the
/// pane actually used.
pub fn row_metrics(prefix_cols: usize, width: u16) -> (r: (usize, usize))
    ensures
        r.1 as int == kept_prefix(prefix_cols as int, columns(width)),
        r.0 as int == columns(width) - r.1,
        r.0 > 0,
{
    let columns: usize = if width == 0 {
        1
    } else {
        width as usize
    };
    let kept: usize = if prefix_cols >= columns - 1 {
        0
    } else {
        prefix_cols
    };
    (columns - kept, kept)
}

/// The left column on a row that is a continuation of the row above.
pub fn continuation_indent(prefix_cols: usize) -> (r: String)
    ensures
        r@ == continuation_text(prefix_cols as int),
{
    let mut out = String::new();
    let blank: usize = if prefix_cols >= 2 {
        prefix_cols - 2
    } else {
        prefix_cols
    };
    let mut i: usize = 0;
    while i < blank
        invariant
            i <= blank,
            out@ == spaces(i as int),
        decreases blank - i,
    {
        out.push(' ');
        assert(out@ =~= spaces(i + 1));
        i += 1;
    }
    if prefix_cols >= 2 {
        out.push('│');
        out.push(' ');
        assert(out@ =~= continuation_text(prefix_cols as int));
    }
    out
}

/// Rows follow each other without a gap: a row that is not the last starts
/// where the one before it ends.
proof fn lemma_row_starts(row: int, kept: int, columns: int)
    requires
        row >= 0,
        0 <= kept < columns,
    ensures
        row_start(row, kept, columns) >= 0,
        row == 0 ==> row_start(row + 1, kept, columns) == columns,
        row > 0 ==> row_start(row + 1, kept, columns) == row_start(row, kept, columns) + columns
            - kept,
        row > 0 ==> row_start(row, kept, columns) >= columns,
{
    assert((row + 1) * (columns - kept) == row * (columns - kept) + (columns - kept))
        by (nonlinear_arith);
    assert(row > 0 ==> row * (columns - kept) >= columns - kept) by (nonlinear_arith)
        requires
            columns - kept > 0,
    ;
}

/// A text that reaches past the start of row `last` and not past its end takes
/// `last + 1` rows.
proof fn lemma_row_count(chars: int, prefix_cols: int, columns: int, last: int)
    requires
        chars >= 0,
        prefix_cols >= 0,
        columns >= 1,
        last >= 0,
        ({
            let kept = kept_prefix(prefix_cols, columns);
            &&& last > 0 ==> row_start(last, kept, columns) < chars
            &&& chars <= row_start(last + 1, kept, columns)
        }),
    ensures
        row_count(chars, prefix_cols, columns) == last + 1,
{
    let kept = kept_prefix(prefix_cols, columns);
    let each = columns - kept;
    lemma_row_starts(last, kept, columns);
    let body = chars - kept;
    if body > 0 {
        assert((body - 1) / each == last) by (nonlinear_arith)
            requires
                each > 0,
                body > 0,
                last >= 0,
                last * each < body || last == 0,
                body <= (last + 1) * each,
        ;
    } else {
        assert(last == 0) by {
            if last > 0 {
                assert(last * each >= 0) by (nonlinear_arith)
                    requires
                        last > 0,
                        each > 0,
                ;
            }
        }
    }
}

/// The rows a line takes in a pane.
pub open spec fn rows_taken(line: Line, prefix_cols: usize, width: u16) -> int {
    row_count(line.cells().len() as int, prefix_cols as int, columns(width))
}

/// A line takes a row at least, and no more rows than characters beyond that.
proof fn lemma_rows_taken(chars: int, prefix_cols: int, columns: int)
    requires
        chars >= 0,
        prefix_cols >= 0,
        columns >= 1,
    ensures
        1 <= row_count(chars, prefix_cols, columns),
        row_count(chars, prefix_cols, columns) <= 1 || row_count(chars, prefix_cols, columns)
            <= chars,
{
    let kept = kept_prefix(prefix_cols, columns);
    let each = columns - kept;
    if chars > kept {
        let body = chars - kept;
        assert(0 <= (body - 1) / each <= body - 1) by (nonlinear_arith)
            requires
                body > 0,
                each > 0,
        ;
    }
}

/// How many rows [`wrap_line`] produces, without producing them. A count past
/// `usize::MAX` reads as `usize::MAX`.
pub fn count_wrapped_rows(line: &Line, prefix_cols: usize, width: u16) -> (r: usize)
    ensures
        r as int == at_most_usize(rows_taken(*line, prefix_cols, width)),
        line.cells().len() <= usize::MAX ==> r as int == rows_taken(*line, prefix_cols, width),
        r >= 1,
{
    let (per_row, kept) = row_metrics(prefix_cols, width);
    let chars: u128 = line.characters();
    proof {
        lemma_rows_taken(chars as int, prefix_cols as int, columns(width));
    }
    if chars <= kept as u128 {
        return 1;
    }
    let body: u128 = chars - kept as u128;
    assert(0 <= (body - 1) / (per_row as int) <= body - 1) by (nonlinear_arith)
        requires
            body > 0,
            per_row > 0,
    ;
    let rows: u128 = (body - 1) / per_row as u128 + 1;
    if rows > usize::MAX as u128 {
        usize::MAX
    } else {
        rows as usize
    }
}

/// Whether these are the rows that a line is split into.
pub open spec fn is_wrapped(line: Line, prefix_cols: usize, width: u16, rows: Seq<Line>) -> bool {
    &&& rows.len() == rows_taken(line, prefix_cols, width)
    &&& forall|k: int|
        0 <= k < rows.len() ==> (#[trigger] rows[k]).cells() == row_cells(
            line.cells(),
            k,
            kept_prefix(prefix_cols as int, columns(width)),
            columns(width),
        )
}

/// Counting the rows of a line agrees with wrapping it, whatever the line: as
/// many rows come of it as a list can hold, and one at least.
pub proof fn counting_rows_agrees_with_wrapping(
    line: Line,
    prefix_cols: usize,
    width: u16,
    rows: Seq<Line>,
    count: usize,
)
    requires
        is_wrapped(line, prefix_cols, width, rows),
        rows.len() <= usize::MAX,
        count as int == at_most_usize(rows_taken(line, prefix_cols, width)),
    ensures
        count == rows.len(),
        count >= 1,
{
    lemma_rows_taken(line.cells().len() as int, prefix_cols as int, columns(width));
}

/// Splits a styled line into rows, holding the prefix in its own column.
///
/// The first row carries the real prefix; every row after it is indented to
/// the same width, so the message forms a single column down the pane.
pub fn wrap_line(line: &Line, prefix_cols: usize, width: u16) -> (rows: Vec<Line>)
    ensures
        is_wrapped(*line, prefix_cols, width, rows@),
{
    let (per_row, kept) = row_metrics(prefix_cols, width);
    let width_cols: usize = per_row + kept;
    let ghost cells = line.cells();
    let ghost w = columns(width);
    let ghost p = kept as int;
    let mut rows: Vec<Line> = Vec::new();
    let mut current: Vec<Span> = Vec::new();
    let mut used: usize = 0;
    let ghost mut done: int = 0;
    let mut i: usize = 0;
    proof {
        lemma_row_starts(0, p, w);
        lemma_cells_paired(line.spans@);
        assert(line.spans@.take(0) =~= Seq::<Span>::empty());
        assert(partial_row(cells, 0, 0, 0, p) =~= Cells::none());
    }
    while i < line.spans.len()
        invariant
            i <= line.spans@.len(),
            cells == line.cells(),
            cells.styles.len() == cells.text.len(),
            w == columns(width),
            p == kept as int,
            p == kept_prefix(prefix_cols as int, w),
            width_cols as int == w,
            0 <= p < w,
            done == cells_of(line.spans@.take(i as int)).len(),
            0 <= done <= cells.len(),
            row_start(rows@.len() as int, p, w) <= done <= row_start(rows@.len() as int + 1, p, w),
            rows@.len() > 0 ==> row_start(rows@.len() as int, p, w) < done,
            used as int == (if rows@.len() == 0 {
                done
            } else {
                p + done - row_start(rows@.len() as int, p, w)
            }),
            used <= width_cols,
            cells_of(current@) == partial_row(
                cells,
                rows@.len() as int,
                row_start(rows@.len() as int, p, w),
                done,
                p,
            ),
            rows@.len() > 0 ==> current@.len() > 0,
            forall|k: int|
                0 <= k < rows@.len() ==> (#[trigger] rows@[k]).cells() == row_cells(cells, k, p, w),
        decreases line.spans@.len() - i,
    {
        let span = &line.spans[i];
        let letters = chars_of(span.content.as_str());
        let mut run = String::new();
        let mut j: usize = 0;
        let ghost base = done;
        assert(Cells::styled(run@, span.style) =~= Cells::none());
        assert(cells_of(current@).followed_by(Cells::none()) =~= cells_of(current@));
        while j < letters.len()
            invariant
                i < line.spans@.len(),
                span == &line.spans@[i as int],
                letters@ == span.content@,
                j <= letters@.len(),
                cells == line.cells(),
                cells.styles.len() == cells.text.len(),
                w == columns(width),
                p == kept as int,
                p == kept_prefix(prefix_cols as int, w),
                width_cols as int == w,
                0 <= p < w,
                base == cells_of(line.spans@.take(i as int)).len(),
                done == base + j,
                0 <= done <= cells.len(),
                row_start(rows@.len() as int, p, w) <= done <= row_start(rows@.len() as int + 1, p, w),
                rows@.len() > 0 ==> row_start(rows@.len() as int, p, w) < done,
                used as int == (if rows@.len() == 0 {
                    done
                } else {
                    p + done - row_start(rows@.len() as int, p, w)
                }),
                used <= width_cols,
                cells_of(current@).followed_by(Cells::styled(run@, span.style)) == partial_row(
                    cells,
                    rows@.len() as int,
                    row_start(rows@.len() as int, p, w),
                    done,
                    p,
                ),
                rows@.len() > 0 ==> current@.len() > 0,
                forall|k: int|
                    0 <= k < rows@.len() ==> (#[trigger] rows@[k]).cells() == row_cells(
                        cells,
                        k,
                        p,
                        w,
                    ),
            decreases letters@.len() - j,
        {
            proof {
                lemma_row_starts(rows@.len() as int, p, w);
                lemma_cell_at(line.spans@, i as int, j as int);
            }
            if used >= width_cols {
                let ghost full = rows@;
                let ghost row = rows@.len() as int;
                let ghost so_far = current@;
                let piece = Span::styled(run, span.style);
                current.push(piece);
                proof {
                    lemma_cells_push(so_far, piece);
                    lemma_row_starts(row + 1, p, w);
                }
                rows.push(Line { spans: current });
                run = String::new();
                current = Vec::new();
                let indent = Span::raw(continuation_indent(kept));
                current.push(indent);
                used = kept;
                proof {
                    assert(rows@[row].cells() == row_cells(cells, row, p, w));
                    assert forall|k: int| 0 <= k < rows@.len() implies (#[trigger] rows@[k]).cells()
                        == row_cells(cells, k, p, w) by {
                        if k < row {
                            assert(rows@[k] == full[k]);
                        }
                    }
                    lemma_cells_push(Seq::<Span>::empty(), indent);
                    assert(current@ =~= Seq::<Span>::empty().push(indent));
                    assert(Cells::styled(run@, span.style) =~= Cells::none());
                    assert(cells_of(current@).followed_by(Cells::styled(run@, span.style))
                        =~= partial_row(cells, row + 1, done, done, p));
                }
            }
            let ghost row = rows@.len() as int;
            let ghost start = row_start(row, p, w);
            let ghost run_before = run@;
            run.push(letters[j]);
            used += 1;
            j += 1;
            proof {
                lemma_row_starts(row, p, w);
                assert(cells.cut(start, done + 1) =~= cells.cut(start, done).followed_by(
                    Cells::styled(seq![letters@[j - 1]], span.style),
                ));
                assert(Cells::styled(run@, span.style) =~= Cells::styled(
                    run_before,
                    span.style,
                ).followed_by(Cells::styled(seq![letters@[j - 1]], span.style)));
                assert(partial_row(cells, row, start, done + 1, p) =~= partial_row(
                    cells,
                    row,
                    start,
                    done,
                    p,
                ).followed_by(Cells::styled(seq![letters@[j - 1]], span.style)));
                assert(cells_of(current@).followed_by(Cells::styled(run@, span.style))
                    =~= cells_of(current@).followed_by(
                    Cells::styled(run_before, span.style),
                ).followed_by(Cells::styled(seq![letters@[j - 1]], span.style)));
                done = done + 1;
            }
        }
        let ghost so_far = current@;
        let piece = Span::styled(run, span.style);
        current.push(piece);
        proof {
            lemma_cells_push(so_far, piece);
            assert(line.spans@.take(i + 1) =~= line.spans@.take(i as int).push(
                line.spans@[i as int],
            ));
            lemma_cells_push(line.spans@.take(i as int), line.spans@[i as int]);
            lemma_cells_append(line.spans@.take(i + 1), line.spans@.skip(i + 1));
            assert(line.spans@.take(i + 1) + line.spans@.skip(i + 1) =~= line.spans@);
        }
        i += 1;
    }
    proof {
        assert(line.spans@.take(line.spans@.len() as int) =~= line.spans@);
        lemma_row_count(cells.len() as int, prefix_cols as int, w, rows@.len() as int);
    }
    let ghost full = rows@;
    let ghost row = rows@.len() as int;
    rows.push(Line { spans: current });
    assert forall|k: int| 0 <= k < rows@.len() implies (#[trigger] rows@[k]).cells() == row_cells(
        cells,
        k,
        p,
        w,
    ) by {
        if k < row {
            assert(rows@[k] == full[k]);
        }
    }
    rows
}

/// Wrapping loses nothing and repeats nothing: the rows of a line start at its
/// first character, each starts where the one before it ends, no row holds
/// more than the pane's columns, and the last one reaches the end of the line.
pub proof fn rows_tile_the_line(cells: Cells, prefix_cols: int, columns: int)
    requires
        prefix_cols >= 0,
        columns >= 1,
    ensures
        ({
            let kept = kept_prefix(prefix_cols, columns);
            let count = row_count(cells.len() as int, prefix_cols, columns);
            &&& count >= 1
            &&& row_start(0, kept, columns) == 0
            &&& cells.len() <= row_start(count, kept, columns)
            &&& forall|k: int|
                0 < k < count ==> #[trigger] row_start(k, kept, columns) < cells.len()
            &&& forall|k: int|
                0 <= k < count ==> (#[trigger] row_cells(cells, k, kept, columns)).len()
                    <= columns
        }),
{
    let kept = kept_prefix(prefix_cols, columns);
    let each = columns - kept;
    let chars = cells.len() as int;
    let count = row_count(chars, prefix_cols, columns);
    let body = if chars > kept { chars - kept } else { 0 };
    if body > 0 {
        assert(count >= 1 && count * each >= body && (count - 1) * each < body)
            by (nonlinear_arith)
            requires
                body > 0,
                each > 0,
                count == (body - 1) / each + 1,
        ;
    }
    assert forall|k: int| 0 < k < count implies #[trigger] row_start(k, kept, columns) < chars by {
        assert(k * each <= (count - 1) * each) by (nonlinear_arith)
            requires
                k <= count - 1,
                each > 0,
        ;
    }
    assert(count >= 1 ==> count * each >= each) by (nonlinear_arith)
        requires
            each > 0,
    ;
    assert forall|k: int| 0 <= k < count implies (#[trigger] row_cells(
        cells,
        k,
        kept,
        columns,
    )).len() <= columns by {
        lemma_row_starts(k, kept, columns);
        if k > 0 {
            assert(row_start(k, kept, columns) < chars);
        }
    }
}


/// Where the log pane is looking.
#[derive(Debug, Clone, Copy, PartialEq, Eq, Structural)]
pub enum Scroll {
    /// Held to the newest line. New output pushes the view along.
    Follow,
    /// Held at a position the user chose. New output does not move it.
    At {
        /// The line at the top of the pane.
        id: LogId,
        /// How many wrapped rows of that line are above the top edge.
        row: u16,
    },
}

impl Scroll {
    /// The line the view is held at, if it is held at one.
    pub fn anchor(self) -> (r: Option<LogId>)
        ensures
            r == (match self {
                Scroll::Follow => None,
                Scroll::At { id, .. } => Some(id),
            }),
    {
        match self {
            Scroll::Follow => None,
            Scroll::At { id, .. } => Some(id),
        }
    }
}

/// What a rendered row is a view of: a place in the log, not a place on the
/// screen.
#[derive(Debug, Clone, Copy, PartialEq, Eq, Structural)]
pub struct RowSource {
    /// The log line this row is part of.
    pub id: LogId,
    /// How many characters of that line's message come before this row.
    pub offset: usize,
    /// Columns of the prefix, or of its indent, before the message starts.
    pub indent: usize,
}

impl RowSource {
    /// The message offset that a screen column points at; columns inside the
    /// prefix read as the row's start.
    pub open spec fn offset_of(self, column: int) -> int {
        if column > self.indent {
            self.offset + column - self.indent
        } else {
            self.offset as int
        }
    }

    /// The message offset that a screen column on this row points at.
    ///
    /// An offset past `usize::MAX` reads as `usize::MAX`.
    pub fn offset_at(self, column: usize) -> (r: usize)
        ensures
            r as int == at_most_usize(self.offset_of(column as int)),
    {
        self.offset.saturating_add(column.saturating_sub(self.indent))
    }
}

/// What the renderer needs to paint the pane, and what the input layer needs
/// to know about how far it can move.
pub struct LogView {
    /// Wrapped rows, top of pane first.
    pub rows: Vec<Line>,
    /// Where each row came from.
    pub row_sources: Vec<RowSource>,
    /// Whether the view is held to the newest line.
    pub following: bool,
    /// Rows of admitted content above the top edge.
    pub rows_above: usize,
    /// Rows the admitted content takes.
    pub total_rows: usize,
}

/// A drawn row and where it came from.
pub struct PaneRow {
    pub cells: Cells,
    pub source: RowSource,
}

impl LogView {
    /// The rows with their sources.
    pub open spec fn shown(&self) -> Seq<PaneRow> {
        Seq::new(
            self.rows@.len(),
            |i: int| PaneRow { cells: self.rows@[i].cells(), source: self.row_sources@[i] },
        )
    }
}

/// The rows of one stored line: its text wrapped, then the blank rows the
/// reader marked after it. A blank row points at the last row of the text.
pub open spec fn line_rows(
    entry: StoredLogLine,
    blanks: Map<LogId, u16>,
    width: u16,
) -> Seq<PaneRow> {
    let cols = columns(width);
    let kept = kept_prefix(entry.prefix_cols as int, cols);
    let cells = entry.parsed.cells();
    let count = row_count(cells.len() as int, entry.prefix_cols as int, cols);
    Seq::new(
        (count + blank_rows(blanks, entry.id)) as nat,
        |r: int|
            PaneRow {
                cells: if r < count {
                    row_cells(cells, r, kept, cols)
                } else {
                    Cells::none()
                },
                source: RowSource {
                    id: entry.id,
                    offset: ((if r < count {
                        r
                    } else {
                        count - 1
                    }) * (cols - kept)) as usize,
                    indent: kept as usize,
                },
            },
    )
}

/// Whether a line is stored at this place of the stream.
pub open spec fn is_stored(entries: Seq<StoredLogLine>, key: LineKey) -> bool {
    exists|i: int| 0 <= i < entries.len() && (#[trigger] entries[i]).key() == key
}

/// The line stored at this place of the stream.
pub open spec fn stored_line(entries: Seq<StoredLogLine>, key: LineKey) -> StoredLogLine {
    entries[choose|i: int| 0 <= i < entries.len() && (#[trigger] entries[i]).key() == key]
}

/// Whether a line is stored under this number.
pub open spec fn any_under(entries: Seq<StoredLogLine>, id: LogId) -> bool {
    exists|i: int| 0 <= i < entries.len() && (#[trigger] entries[i]).id == id
}

/// Whether the first line stored under this number is the one at `i`.
pub open spec fn is_first_under(entries: Seq<StoredLogLine>, id: LogId, i: int) -> bool {
    &&& 0 <= i < entries.len()
    &&& entries[i].id == id
    &&& forall|k: int| 0 <= k < i ==> (#[trigger] entries[k]).id != id
}

/// The first line stored under this number.
pub open spec fn first_under(entries: Seq<StoredLogLine>, id: LogId) -> StoredLogLine {
    entries[choose|i: int| is_first_under(entries, id, i)]
}

/// Whether any of these lines is stored.
pub open spec fn any_stored(keys: Seq<LineKey>, entries: Seq<StoredLogLine>) -> bool {
    exists|k: int| 0 <= k < keys.len() && is_stored(entries, #[trigger] keys[k])
}

/// The rows of the listed lines, one after the other, without the first `skip`
/// rows of the first of them.
pub open spec fn drawn_rows(
    keys: Seq<LineKey>,
    entries: Seq<StoredLogLine>,
    blanks: Map<LogId, u16>,
    width: u16,
    skip: int,
) -> Seq<PaneRow>
    decreases keys.len(),
{
    if keys.len() == 0 {
        Seq::empty()
    } else {
        let before = drawn_rows(keys.drop_last(), entries, blanks, width, skip);
        if is_stored(entries, keys.last()) {
            let rows = line_rows(stored_line(entries, keys.last()), blanks, width);
            before + rows.skip(first_row(keys.drop_last(), entries, skip, rows.len() as int))
        } else {
            before
        }
    }
}

/// The row of a line at which drawing starts.
pub open spec fn first_row(
    earlier: Seq<LineKey>,
    entries: Seq<StoredLogLine>,
    skip: int,
    rows: int,
) -> int {
    if any_stored(earlier, entries) {
        0
    } else if skip < rows {
        skip
    } else {
        rows
    }
}

/// Where the lines of a list from place `at` on are in the stream.
pub open spec fn keys_after(lines: Seq<Placed>, at: int) -> Seq<LineKey> {
    Seq::new((lines.len() - at) as nat, |i: int| lines[i + at].key())
}

/// Rows of a pane; a pane without rows counts as one row.
pub open spec fn pane_rows(height: u16) -> int {
    if height == 0 {
        1
    } else {
        height as int
    }
}

/// The most rows that can be above the top edge.
pub open spec fn max_above(lines: Seq<Placed>, height: u16) -> int {
    let total = at_most_usize(rows_in(lines));
    if total > pane_rows(height) {
        total - pane_rows(height)
    } else {
        0
    }
}

/// Rows above the top edge for a scroll position. An anchor that was evicted
/// or filtered away reads as the oldest line that is left.
pub open spec fn top_row(lines: Seq<Placed>, scroll: Scroll, height: u16) -> int {
    match scroll {
        Scroll::Follow => max_above(lines, height),
        Scroll::At { id, row } => {
            let at = place_of(lines, id);
            if at < lines.len() && rows_before(lines, at) <= usize::MAX {
                let above = rows_before(lines, at) + row;
                if above < max_above(lines, height) {
                    above
                } else {
                    max_above(lines, height)
                }
            } else {
                0
            }
        },
    }
}

/// The line that owns row `offset`.
pub open spec fn owner(lines: Seq<Placed>, offset: int) -> int {
    choose|at: int| owns(lines, at, offset)
}

/// How far into its line row `offset` is, as far as it is counted.
pub open spec fn row_within(lines: Seq<Placed>, offset: int) -> u16 {
    let far = offset - rows_before(lines, owner(lines, offset));
    if far > u16::MAX {
        u16::MAX
    } else {
        far as u16
    }
}

/// How far row `offset` is past the first row under the number of its line, as
/// an anchor records it.
pub open spec fn anchor_row(lines: Seq<Placed>, offset: int) -> u16 {
    let far = offset - rows_before(lines, place_of(lines, lines[owner(lines, offset)].id));
    if far > u16::MAX {
        u16::MAX
    } else {
        far as u16
    }
}

/// The anchor for whichever line owns row `offset`.
pub open spec fn anchored(lines: Seq<Placed>, offset: int) -> Scroll {
    if lines.len() == 0 {
        Scroll::Follow
    } else {
        Scroll::At { id: lines[owner(lines, offset)].id, row: anchor_row(lines, offset) }
    }
}

fn rows_above_top(index: &ViewIndex, scroll: Scroll, height: u16) -> (r: (usize, usize, usize))
    ensures
        r.0 as int == at_most_usize(rows_in(index@)),
        r.1 as int == max_above(index@, height),
        ids_ascend(index@) ==> r.2 as int == top_row(index@, scroll, height),
        scroll == Scroll::Follow ==> r.2 == r.1,
        r.2 <= r.1,
{
    let rows: usize = if height == 0 {
        1
    } else {
        height as usize
    };
    let total: usize = index.total_rows();
    let most: usize = total.saturating_sub(rows);
    let above: usize = match scroll {
        Scroll::Follow => most,
        Scroll::At { id, row } => match index.rows_above(id) {
            Some(above) => {
                proof {
                    lemma_lines_before(index@, first_key(id));
                    lemma_rows_grow(index@, 0, place_of(index@, id));
                }
                let wanted: usize = above.saturating_add(row as usize);
                if wanted < most {
                    wanted
                } else {
                    most
                }
            },
            None => 0,
        },
    };
    (total, most, above)
}

/// The anchor for whichever line currently owns row `rows_above`.
pub fn anchor_at(index: &ViewIndex, rows_above: usize) -> (r: Scroll)
    ensures
        index@.len() == 0 ==> r == Scroll::Follow,
        ids_ascend(index@) ==> r == anchored(index@, rows_above as int),
{
    match index.line_at(rows_above) {
        Some((id, within)) => {
            let ghost lines = index@;
            let ghost at = choose|at: int|
                {
                    &&& #[trigger] owns(lines, at, rows_above as int)
                    &&& id == lines[at].id
                    &&& within as int == (if rows_above - rows_before(lines, at) > u16::MAX {
                        u16::MAX as int
                    } else {
                        rows_above - rows_before(lines, at)
                    })
                };
            proof {
                a_row_has_one_owner(
                    lines,
                    rows_above as int,
                    at,
                    owner(lines, rows_above as int),
                );
                if ids_ascend(lines) {
                    lemma_own_place(lines, at);
                    lemma_rows_grow(lines, place_of(lines, id), at);
                }
            }
            let row: u16 = match index.rows_above(id) {
                Some(first) => {
                    let far: usize = rows_above.saturating_sub(first);
                    if far > 0xffff {
                        0xffff
                    } else {
                        far as u16
                    }
                },
                None => within,
            };
            Scroll::At { id, row }
        },
        None => Scroll::Follow,
    }
}

/// What the reader asked of the scroll position since the last frame.
#[derive(Debug, Clone, Copy, PartialEq, Eq, Structural)]
pub struct PendingScroll {
    /// Rows to move, down being positive.
    pub rows: isize,
    /// Pages to move, down being positive.
    pub pages: isize,
    /// Go to the oldest line.
    pub to_top: bool,
    /// Stop following and stay where the view is.
    pub pin: bool,
}

impl PendingScroll {
    /// Nothing asked.
    pub open spec fn nothing() -> PendingScroll {
        PendingScroll { rows: 0, pages: 0, to_top: false, pin: false }
    }

    /// Whether nothing was asked.
    pub fn is_empty(&self) -> (r: bool)
        ensures
            r == (*self == PendingScroll::nothing()),
    {
        self.rows == 0 && self.pages == 0 && !self.to_top && !self.pin
    }
}

impl Default for PendingScroll {
    fn default() -> (r: PendingScroll)
        ensures
            r == PendingScroll::nothing(),
    {
        PendingScroll { rows: 0, pages: 0, to_top: false, pin: false }
    }
}

/// A number kept within the range of `isize`.
pub open spec fn as_isize(n: int) -> int {
    if n > isize::MAX {
        isize::MAX as int
    } else if n < isize::MIN {
        isize::MIN as int
    } else {
        n
    }
}

/// The sum of two moves, kept within range.
pub fn add_moves(a: isize, b: isize) -> (r: isize)
    ensures
        r as int == as_isize(a + b),
{
    let sum: i128 = a as i128 + b as i128;
    if sum > isize::MAX as i128 {
        isize::MAX
    } else if sum < isize::MIN as i128 {
        isize::MIN
    } else {
        sum as isize
    }
}

fn times_page(pages: isize, page: isize) -> (r: isize)
    requires
        1 <= page <= 65535,
    ensures
        r as int == as_isize(pages * page),
{
    let wide: i128 = pages as i128;
    let each: i128 = page as i128;
    assert(-0x1_0000_0000_0000_0000_0000 < wide * each < 0x1_0000_0000_0000_0000_0000)
        by (nonlinear_arith)
        requires
            -0x8000_0000_0000_0000 <= wide <= 0x7fff_ffff_ffff_ffff,
            1 <= each <= 65535,
    ;
    let product: i128 = wide * each;
    if product > isize::MAX as i128 {
        isize::MAX
    } else if product < isize::MIN as i128 {
        isize::MIN
    } else {
        product as isize
    }
}

/// Rows moved by one page: all but one of the pane's rows, and one at least.
pub open spec fn page_rows(height: u16) -> int {
    if pane_rows(height) > 1 {
        pane_rows(height) - 1
    } else {
        1
    }
}

/// The row a move lands on, before it is held to the bottom.
pub open spec fn moved_row(current: int, pending: PendingScroll, height: u16) -> int {
    let delta = as_isize(pending.rows + as_isize(pending.pages * page_rows(height)));
    if current + delta < 0 {
        0
    } else {
        at_most_usize(current + delta)
    }
}

/// Where the view is held once everything pending has been taken into account.
pub open spec fn resolved(
    lines: Seq<Placed>,
    scroll: Scroll,
    pending: PendingScroll,
    height: u16,
) -> Scroll {
    let current = top_row(lines, scroll, height);
    if pending == PendingScroll::nothing() {
        scroll
    } else if pending.to_top {
        anchored(lines, 0)
    } else if pending.pin && pending.rows == 0 && pending.pages == 0 {
        anchored(lines, current)
    } else if moved_row(current, pending, height) >= max_above(lines, height) {
        Scroll::Follow
    } else {
        anchored(lines, moved_row(current, pending, height))
    }
}

/// Turns the reader's pending intent into an anchor, against the geometry that
/// exists right now.
pub fn resolve_scroll(
    index: &ViewIndex,
    scroll: Scroll,
    pending: PendingScroll,
    height: u16,
) -> (r: Scroll)
    ensures
        ids_ascend(index@) ==> r == resolved(index@, scroll, pending, height),
        pending == PendingScroll::nothing() ==> r == scroll,
{
    if pending.is_empty() {
        return scroll;
    }
    let (_total, most, current) = rows_above_top(index, scroll, height);
    if pending.to_top {
        return anchor_at(index, 0);
    }
    if pending.pin && pending.rows == 0 && pending.pages == 0 {
        return anchor_at(index, current);
    }
    let page: isize = if height > 2 {
        (height - 1) as isize
    } else {
        1
    };
    let delta: isize = add_moves(pending.rows, times_page(pending.pages, page));
    let landed: i128 = current as i128 + delta as i128;
    let target: usize = if landed < 0 {
        0
    } else if landed > usize::MAX as i128 {
        usize::MAX
    } else {
        landed as usize
    };
    if target >= most {
        return Scroll::Follow;
    }
    anchor_at(index, target)
}

/// A stored line is the one found at its place of the stream.
pub proof fn lemma_stored(entries: Seq<StoredLogLine>, entry: StoredLogLine)
    requires
        ascending(entries),
        entries.contains(entry),
    ensures
        is_stored(entries, entry.key()),
        stored_line(entries, entry.key()) == entry,
{
    let i = entries.index_of(entry);
    assert(entries[i].key() == entry.key());
    let j = choose|j: int| 0 <= j < entries.len() && (#[trigger] entries[j]).key() == entry.key();
    if i < j {
        assert(entries[i].key().before(entries[j].key()));
    } else if j < i {
        assert(entries[j].key().before(entries[i].key()));
    }
}

proof fn lemma_drawn_prefix(
    ids: Seq<LineKey>,
    n: int,
    entries: Seq<StoredLogLine>,
    blanks: Map<LogId, u16>,
    width: u16,
    skip: int,
)
    requires
        0 <= n <= ids.len(),
        skip >= 0,
    ensures
        drawn_rows(ids.take(n), entries, blanks, width, skip).is_prefix_of(
            drawn_rows(ids, entries, blanks, width, skip),
        ),
    decreases ids.len(),
{
    if n == ids.len() {
        assert(ids.take(n) =~= ids);
    } else {
        lemma_drawn_prefix(ids.drop_last(), n, entries, blanks, width, skip);
        assert(ids.drop_last().take(n) =~= ids.take(n));
    }
}

/// Whether a view shows these lines as they now stand: how many rows there are
/// and how many are above the top edge, and from there down the rows of the
/// lines, as many as the pane has.
pub open spec fn draws(
    view: LogView,
    lines: Seq<Placed>,
    entries: Seq<StoredLogLine>,
    blanks: Map<LogId, u16>,
    scroll: Scroll,
    width: u16,
    height: u16,
) -> bool {
    &&& view.following == (scroll == Scroll::Follow)
    &&& view.total_rows as int == at_most_usize(rows_in(lines))
    &&& view.rows@.len() == view.row_sources@.len()
    &&& view.rows@.len() <= pane_rows(height)
    &&& view.rows_above <= max_above(lines, height)
    &&& scroll == Scroll::Follow ==> view.rows_above as int == max_above(lines, height)
    &&& lines.len() == 0 ==> view.rows@.len() == 0
    &&& ids_ascend(lines) ==> view.rows_above as int == top_row(lines, scroll, height)
    &&& ids_ascend(lines) && ascending(entries) && lines.len() > 0 ==> {
        let top = view.rows_above as int;
        let all = drawn_rows(
            keys_after(lines, owner(lines, top)),
            entries,
            blanks,
            width,
            row_within(lines, top) as int,
        );
        view.shown() == (if all.len() > pane_rows(height) {
            all.take(pane_rows(height))
        } else {
            all
        })
    }
}

/// Builds the visible rows for a pane of `width` by `height`.
///
/// Which lines are in view is the index's decision: this walks its selection
/// and paints it. The store must have been reflowed to `width` first; only the
/// rows that land on screen are wrapped.
pub fn build_view(
    store: &LogStore,
    index: &ViewIndex,
    blanks: &BlankMarks,
    scroll: Scroll,
    width: u16,
    height: u16,
) -> (r: LogView)
    ensures
        draws(r, index@, store@, blanks@, scroll, width, height),
{
    let (total_rows, most, rows_above) = rows_above_top(index, scroll, height);
    let tall: usize = if height == 0 {
        1
    } else {
        height as usize
    };
    let following = match scroll {
        Scroll::Follow => true,
        Scroll::At { .. } => false,
    };
    let mut rows: Vec<Line> = Vec::new();
    let mut row_sources: Vec<RowSource> = Vec::new();
    let (first, skip_within) = match index.owner_at(rows_above) {
        Some(found) => found,
        None => {
            return LogView { rows, row_sources, following, rows_above, total_rows };
        },
    };
    let ids = index.keys_from(first);
    let ghost skip0 = skip_within as int;
    let ghost sound = ids_ascend(index@) && ascending(store@);
    proof {
        let lines = index@;
        let top = rows_above as int;
        let at = choose|at: int|
            {
                &&& #[trigger] owns(lines, at, top)
                &&& first == lines[at].key()
                &&& skip_within as int == (if top - rows_before(lines, at) > u16::MAX {
                    u16::MAX as int
                } else {
                    top - rows_before(lines, at)
                })
            };
        a_row_has_one_owner(lines, top, at, owner(lines, top));
        if sound {
            lemma_own_place(lines, at);
            assert(ids@ =~= keys_after(lines, at));
        }
    }
    let mut skip: usize = skip_within as usize;
    let mut i: usize = 0;
    assert(ids@.take(0) =~= Seq::<LineKey>::empty());
    let ghost mut out: Seq<PaneRow> = Seq::empty();
    while i < ids.len()
        invariant
            i <= ids@.len(),
            tall as int == pane_rows(height),
            following == (scroll == Scroll::Follow),
            total_rows as int == at_most_usize(rows_in(index@)),
            index@.len() > 0,
            sound == (ids_ascend(index@) && ascending(store@)),
            most as int == max_above(index@, height),
            rows_above <= most,
            scroll == Scroll::Follow ==> rows_above == most,
            ids_ascend(index@) ==> rows_above as int == top_row(index@, scroll, height),
            sound ==> ids@ == keys_after(index@, owner(index@, rows_above as int)),
            skip0 == row_within(index@, rows_above as int),
            rows@.len() == row_sources@.len(),
            rows@.len() < tall,
            out.len() == rows@.len(),
            forall|k: int|
                0 <= k < out.len() ==> (#[trigger] out[k]).cells == rows@[k].cells()
                    && out[k].source == row_sources@[k],
            sound ==> out == drawn_rows(ids@.take(i as int), store@, blanks@, width, skip0),
            skip0 >= 0,
            skip as int == skip0 || skip == 0,
            sound ==> skip as int == (if any_stored(ids@.take(i as int), store@) {
                0
            } else {
                skip0
            }),
        decreases ids@.len() - i,
    {
        let ghost taken = ids@.take(i as int);
        let ghost next = ids@.take(i + 1);
        proof {
            assert(next.drop_last() =~= taken);
            assert(next.last() == ids@[i as int]);
        }
        match store.find(ids[i]) {
            Some(entry) => {
                let lines = wrap_line(&entry.parsed, entry.prefix_cols, width);
                let (per_row, indent) = row_metrics(entry.prefix_cols, width);
                let count: usize = lines.len();
                let blank: usize = blanks.count(entry.id) as usize;
                let ghost want = line_rows(*entry, blanks@, width);
                let ghost from = if skip as int <= want.len() {
                    skip as int
                } else {
                    want.len() as int
                };
                proof {
                    if sound {
                        lemma_stored(store@, *entry);
                    }
                    rows_tile_the_line(
                        entry.parsed.cells(),
                        entry.prefix_cols as int,
                        columns(width),
                    );
                }
                let mut r: usize = skip;
                let ghost mut at: int = skip as int;
                let mut left: usize = if skip < count {
                    count - skip
                } else {
                    0
                };
                let mut blanks_left: usize = if skip <= count {
                    blank
                } else if skip - count < blank {
                    blank - (skip - count)
                } else {
                    0
                };
                let ghost before = out;
                assert(before + want.subrange(from, from) =~= before);
                while left > 0 || blanks_left > 0
                    invariant
                        i < ids@.len(),
                        tall as int == pane_rows(height),
                        entry.faithful(),
                        count == lines@.len(),
                        count as int == row_count(
                            entry.parsed.cells().len() as int,
                            entry.prefix_cols as int,
                            columns(width),
                        ),
                        count >= 1,
                        forall|k: int|
                            0 <= k < lines@.len() ==> (#[trigger] lines@[k]).cells() == row_cells(
                                entry.parsed.cells(),
                                k,
                                kept_prefix(entry.prefix_cols as int, columns(width)),
                                columns(width),
                            ),
                        indent as int == kept_prefix(entry.prefix_cols as int, columns(width)),
                        per_row as int == columns(width) - indent,
                        per_row > 0,
                        want == line_rows(*entry, blanks@, width),
                        want.len() == count + blank,
                        rows@.len() == row_sources@.len(),
                        rows@.len() < tall,
                        out.len() == rows@.len(),
                        forall|k: int|
                            0 <= k < out.len() ==> (#[trigger] out[k]).cells == rows@[k].cells()
                                && out[k].source == row_sources@[k],
                        0 <= from <= want.len(),
                        (left > 0 || blanks_left > 0) ==> from <= at,
                        left > 0 ==> at == r && r + left == count && blanks_left == blank,
                        left == 0 && blanks_left > 0 ==> at + blanks_left == count + blank,
                        left == 0 && blanks_left > 0 ==> at >= count,
                        out == before + want.subrange(
                            from,
                            if left > 0 || blanks_left > 0 {
                                at
                            } else {
                                want.len() as int
                            },
                        ),
                        sound ==> before == drawn_rows(taken, store@, blanks@, width, skip0),
                        sound ==> drawn_rows(next, store@, blanks@, width, skip0) == before
                            + want.skip(from),
                        next == ids@.take(i + 1),
                        skip0 >= 0,
                        following == (scroll == Scroll::Follow),
                        total_rows as int == at_most_usize(rows_in(index@)),
                        index@.len() > 0,
                        sound == (ids_ascend(index@) && ascending(store@)),
                        most as int == max_above(index@, height),
                        rows_above <= most,
                        scroll == Scroll::Follow ==> rows_above == most,
                        ids_ascend(index@) ==> rows_above as int == top_row(index@, scroll, height),
                        sound ==> ids@ == keys_after(index@, owner(index@, rows_above as int)),
                        skip0 == row_within(index@, rows_above as int),
                    decreases left + blanks_left,
                {
                    let text_row: usize = if left > 0 {
                        r
                    } else {
                        count - 1
                    };
                    proof {
                        let cols = columns(width);
                        let n = entry.parsed.cells().len() as int;
                        if text_row > 0 {
                            rows_tile_the_line(
                                entry.parsed.cells(),
                                entry.prefix_cols as int,
                                cols,
                            );
                            assert(row_start(text_row as int, indent as int, cols) < n);
                            assert(text_row * per_row == text_row * (cols - indent));
                        }
                        assert(0 <= text_row * per_row <= usize::MAX) by {
                            if text_row == 0 {
                                assert(0 * per_row == 0);
                            } else {
                                assert(text_row * per_row >= 0) by (nonlinear_arith);
                            }
                        }
                    }
                    let source = RowSource { id: entry.id, offset: text_row * per_row, indent };
                    let ghost was = out;
                    if left > 0 {
                        rows.push(lines[r].copy());
                        left -= 1;
                    } else {
                        rows.push(Line::empty());
                        blanks_left -= 1;
                    }
                    row_sources.push(source);
                    proof {
                        assert(want[at].source == source);
                        assert(want[at].cells == rows@.last().cells());
                        out = was.push(want[at]);
                        assert(before + want.subrange(from, at + 1) =~= (before + want.subrange(
                            from,
                            at,
                        )).push(want[at]));
                    }
                    proof {
                        at = at + 1;
                    }
                    if left > 0 {
                        r += 1;
                    }
                    if rows.len() == tall {
                        let ghost shown_rows = rows@;
                        let view = LogView { rows, row_sources, following, rows_above, total_rows };
                        proof {
                            assert(view.shown() =~= out);
                            if sound {
                                let all = drawn_rows(ids@, store@, blanks@, width, skip0);
                                lemma_drawn_prefix(
                                    ids@,
                                    i + 1,
                                    store@,
                                    blanks@,
                                    width,
                                    skip0,
                                );
                                let next_rows = drawn_rows(next, store@, blanks@, width, skip0);
                                assert(out.is_prefix_of(next_rows));
                                assert(out =~= all.take(tall as int));
                                assert(all.len() == tall ==> all.take(tall as int) =~= all);
                            }
                        }
                        return view;
                    }
                }
                proof {
                    assert(want.subrange(from, want.len() as int) =~= want.skip(from));
                    if sound {
                        assert(next[i as int] == ids@[i as int]);
                        assert(is_stored(store@, next[i as int]));
                    }
                }
                skip = 0;
            },
            None => {
                proof {
                    if sound {
                        assert(!is_stored(store@, ids@[i as int]));
                        if any_stored(next, store@) {
                            let k = choose|k: int|
                                0 <= k < next.len() && is_stored(store@, #[trigger] next[k]);
                            assert(taken[k] == next[k]);
                        }
                        if any_stored(taken, store@) {
                            let k = choose|k: int|
                                0 <= k < taken.len() && is_stored(store@, #[trigger] taken[k]);
                            assert(next[k] == taken[k]);
                        }
                    }
                }
            },
        }
        i += 1;
    }
    let view = LogView { rows, row_sources, following, rows_above, total_rows };
    proof {
        assert(ids@.take(ids@.len() as int) =~= ids@);
        assert(view.shown() =~= out);
    }
    view
}

/// Every row of a list with at least one line has an owner.
pub proof fn every_row_has_an_owner(lines: Seq<Placed>, offset: int)
    requires
        lines.len() > 0,
        offset >= 0,
    ensures
        owns(lines, owner(lines, offset), offset),
{
    lemma_owner_up_to(lines, offset, lines.len() as int);
}

proof fn lemma_owner_up_to(lines: Seq<Placed>, offset: int, n: int)
    requires
        1 <= n <= lines.len(),
        offset >= 0,
        n < lines.len() ==> offset < rows_before(lines, n),
    ensures
        exists|at: int| owns(lines, at, offset),
    decreases n,
{
    if rows_before(lines, n - 1) <= offset {
        assert(owns(lines, n - 1, offset));
    } else {
        if n == 1 {
            assert(rows_before(lines, 0) == 0);
        }
        lemma_owner_up_to(lines, offset, n - 1);
    }
}

/// An anchor holds the row it was taken at: the view that resolves it has as
/// many rows above its top edge as when it was taken, however the lines were
/// counted since the frame before.
pub proof fn an_anchor_holds_its_row(lines: Seq<Placed>, offset: int, height: u16)
    requires
        ids_ascend(lines),
        lines.len() > 0,
        0 <= offset <= max_above(lines, height),
        offset - rows_before(lines, place_of(lines, lines[owner(lines, offset)].id)) <= u16::MAX,
    ensures
        top_row(lines, anchored(lines, offset), height) == offset,
{
    every_row_has_an_owner(lines, offset);
    let at = owner(lines, offset);
    lemma_own_place(lines, at);
    let first = place_of(lines, lines[at].id);
    lemma_rows_grow(lines, 0, first);
    lemma_rows_grow(lines, first, at);
}

/// A move lands where it says, unless the lines under one number are taller than
/// an anchor records: after it the top edge is the asked number of
/// rows from where it was in the view that exists now, held to the first row
/// and to the last screenful.
#[verifier::spinoff_prover]
#[verifier::rlimit(60)]
pub proof fn a_move_lands_where_it_says(
    lines: Seq<Placed>,
    scroll: Scroll,
    pending: PendingScroll,
    height: u16,
)
    requires
        ids_ascend(lines),
        lines.len() > 0,
        forall|i: int|
            0 <= i < lines.len() ==> rows_before(lines, i + 1) - rows_before(
                lines,
                place_of(lines, (#[trigger] lines[i]).id),
            ) <= u16::MAX,
        !pending.to_top,
        pending.rows != 0 || pending.pages != 0,
    ensures
        ({
            let target = moved_row(top_row(lines, scroll, height), pending, height);
            top_row(lines, resolved(lines, scroll, pending, height), height) == if target
                < max_above(lines, height) {
                target
            } else {
                max_above(lines, height)
            }
        }),
{
    let target = moved_row(top_row(lines, scroll, height), pending, height);
    if target < max_above(lines, height) {
        every_row_has_an_owner(lines, target);
        let at = owner(lines, target);
        lemma_rows_grow(lines, at + 1, lines.len() as int);
        assert(target < rows_in(lines));
        assert(target < rows_before(lines, at + 1));
        assert(lines[place_of(lines, lines[at].id)].id == lines[at].id) by {
            lemma_own_place(lines, at);
        }
        an_anchor_holds_its_row(lines, target, height);
    }
}

/// The store is measured for this width and no line's rows overflow the
/// index's count.
pub open spec fn countable(
    entries: Seq<StoredLogLine>,
    blanks: Map<LogId, u16>,
    width: u16,
) -> bool {
    &&& ascending(entries)
    &&& forall|i: int|
        0 <= i < entries.len() ==> (#[trigger] entries[i]).measured(Some(width))
            && entries[i].wrapped_rows + blank_rows(blanks, entries[i].id) <= u32::MAX
}

proof fn lemma_drawn_count<F: Fn(&StoredLogLine) -> bool>(
    entries: Seq<StoredLogLine>,
    blanks: Map<LogId, u16>,
    admits: F,
    width: u16,
    at: int,
    skip: int,
    n: int,
)
    requires
        countable(entries, blanks, width),
        ({
            let lines = admitted(entries, blanks, admits);
            &&& 0 <= at < lines.len()
            &&& 0 <= skip < lines[at].rows
            &&& 0 <= n <= lines.len() - at
        }),
    ensures
        ({
            let lines = admitted(entries, blanks, admits);
            let ids = keys_after(lines, at).take(n);
            &&& n > 0 ==> any_stored(ids, entries)
            &&& drawn_rows(ids, entries, blanks, width, skip).len() == (if n == 0 {
                0
            } else {
                rows_before(lines, at + n) - rows_before(lines, at) - skip
            })
        }),
    decreases n,
{
    let lines = admitted(entries, blanks, admits);
    let ids = keys_after(lines, at).take(n);
    if n == 0 {
        assert(ids =~= Seq::<LineKey>::empty());
    } else {
        lemma_drawn_count(entries, blanks, admits, width, at, skip, n - 1);
        assert(ids.drop_last() =~= keys_after(lines, at).take(n - 1));
        let k = at + n - 1;
        assert(ids.last() == lines[k].key());
        let x = lemma_admitted_come_from(entries, blanks, admits, k);
        lemma_stored(entries, entries[x]);
        rows_tile_the_line(
            entries[x].parsed.cells(),
            entries[x].prefix_cols as int,
            columns(width),
        );
        assert(is_stored(entries, ids[n - 1]));
        let rows = line_rows(entries[x], blanks, width);
        assert(rows.len() == lines[k].rows);
        assert(rows_before(lines, at + n) == rows_before(lines, at + n - 1) + lines[k].rows);
        if n == 1 {
            assert(!any_stored(ids.drop_last(), entries));
        }
    }
}

/// The pane draws exactly the rows the index counted: from the row at the top
/// edge on, there are as many rows to draw as there are rows left in the count.
pub proof fn what_is_drawn_matches_what_the_index_counted<F: Fn(&StoredLogLine) -> bool>(
    entries: Seq<StoredLogLine>,
    blanks: Map<LogId, u16>,
    admits: F,
    width: u16,
    top: int,
)
    requires
        countable(entries, blanks, width),
        0 <= top < rows_in(admitted(entries, blanks, admits)),
        top - rows_before(
            admitted(entries, blanks, admits),
            owner(admitted(entries, blanks, admits), top),
        ) <= u16::MAX,
    ensures
        ({
            let lines = admitted(entries, blanks, admits);
            drawn_rows(
                keys_after(lines, owner(lines, top)),
                entries,
                blanks,
                width,
                row_within(lines, top) as int,
            ).len() == rows_in(lines) - top
        }),
{
    let lines = admitted(entries, blanks, admits);
    every_row_has_an_owner(lines, top);
    let at = owner(lines, top);
    let skip = top - rows_before(lines, at);
    assert(rows_before(lines, at + 1) == rows_before(lines, at) + lines[at].rows);
    lemma_drawn_count(entries, blanks, admits, width, at, skip, lines.len() - at);
    assert(keys_after(lines, at).take(lines.len() - at) =~= keys_after(lines, at));
}

/// Rows come from the lines listed, in their order.
proof fn lemma_drawn_sources(
    keys: Seq<LineKey>,
    entries: Seq<StoredLogLine>,
    blanks: Map<LogId, u16>,
    width: u16,
    skip: int,
)
    requires
        ascending(entries),
        skip >= 0,
        forall|i: int, j: int|
            0 <= i < j < keys.len() ==> (#[trigger] keys[i]).before(#[trigger] keys[j]),
    ensures
        ({
            let rows = drawn_rows(keys, entries, blanks, width, skip);
            &&& forall|k: int|
                0 <= k < rows.len() ==> exists|i: int|
                    0 <= i < keys.len() && (#[trigger] keys[i]).id == (
                    #[trigger] rows[k]).source.id
            &&& forall|j: int, k: int|
                0 <= j < k < rows.len() ==> (#[trigger] rows[j]).source.id.0 <= (
                #[trigger] rows[k]).source.id.0
        }),
    decreases keys.len(),
{
    if keys.len() > 0 {
        let n = keys.len() - 1;
        let fewer = keys.drop_last();
        assert forall|i: int, j: int| 0 <= i < j < fewer.len() implies (#[trigger] fewer[i]).before(
            #[trigger] fewer[j],
        ) by {
            assert(keys[i].before(keys[j]));
        }
        lemma_drawn_sources(fewer, entries, blanks, width, skip);
        let before = drawn_rows(fewer, entries, blanks, width, skip);
        let rows = drawn_rows(keys, entries, blanks, width, skip);
        assert forall|k: int| 0 <= k < rows.len() implies {
            &&& k < before.len() ==> rows[k] == before[k]
            &&& k >= before.len() ==> rows[k].source.id == keys[n].id
            &&& exists|i: int|
                0 <= i < keys.len() && (#[trigger] keys[i]).id == (#[trigger] rows[k]).source.id
        } by {
            if k < before.len() {
                assert(rows[k] == before[k]);
                let i = choose|i: int|
                    0 <= i < fewer.len() && (#[trigger] fewer[i]).id == before[k].source.id;
                assert(keys[i].id == rows[k].source.id);
            } else {
                assert(is_stored(entries, keys[n]));
                let at = choose|at: int|
                    0 <= at < entries.len() && (#[trigger] entries[at]).key() == keys[n];
                assert(entries.contains(entries[at]));
                lemma_stored(entries, entries[at]);
                assert(keys[n].id == rows[k].source.id);
            }
        }
        assert forall|j: int, k: int| 0 <= j < k < rows.len() implies (
        #[trigger] rows[j]).source.id.0 <= (#[trigger] rows[k]).source.id.0 by {
            if k < before.len() {
                assert(rows[j] == before[j] && rows[k] == before[k]);
            } else if j < before.len() {
                assert(rows[j] == before[j]);
                let i = choose|i: int|
                    0 <= i < fewer.len() && (#[trigger] fewer[i]).id == before[j].source.id;
                assert(keys[i].before(keys[n]));
            }
        }
    }
}

/// Whether a line under this number is admitted.
pub open spec fn is_admitted<F: Fn(&StoredLogLine) -> bool>(
    entries: Seq<StoredLogLine>,
    admits: F,
    id: LogId,
) -> bool {
    exists|i: int| 0 <= i < entries.len() && lets(admits, #[trigger] entries[i]) && entries[i].id == id
}

/// A view of everything that is admitted fills the pane as far as there are
/// rows: as many are drawn as are left from the top edge on, or as the pane has.
/// They come from admitted lines, in the order of their numbers.
pub proof fn the_pane_is_filled<F: Fn(&StoredLogLine) -> bool>(
    view: LogView,
    entries: Seq<StoredLogLine>,
    blanks: Map<LogId, u16>,
    admits: F,
    scroll: Scroll,
    width: u16,
    height: u16,
)
    requires
        countable(entries, blanks, width),
        draws(view, admitted(entries, blanks, admits), entries, blanks, scroll, width, height),
        rows_in(admitted(entries, blanks, admits)) <= usize::MAX,
        forall|i: int|
            0 <= i < admitted(entries, blanks, admits).len() ==> (
            #[trigger] admitted(entries, blanks, admits)[i]).rows <= u16::MAX,
    ensures
        view.total_rows as int == rows_in(admitted(entries, blanks, admits)),
        view.rows_above <= view.total_rows,
        view.rows@.len() == (if view.total_rows - view.rows_above < pane_rows(height) {
            view.total_rows - view.rows_above
        } else {
            pane_rows(height)
        }),
        view.row_sources@.len() == view.rows@.len(),
        forall|k: int|
            0 <= k < view.row_sources@.len() ==> is_admitted(
                entries,
                admits,
                (#[trigger] view.row_sources@[k]).id,
            ),
        forall|j: int, k: int|
            0 <= j < k < view.row_sources@.len() ==> (#[trigger] view.row_sources@[j]).id.0 <= (
            #[trigger] view.row_sources@[k]).id.0,
{
    let lines = admitted(entries, blanks, admits);
    let top = view.rows_above as int;
    lemma_admitted_ascend(entries, blanks, admits);
    lemma_rows_grow(lines, 0, lines.len() as int);
    if lines.len() > 0 {
        assert(rows_in(lines) > 0) by {
            let x = lemma_admitted_come_from(entries, blanks, admits, lines.len() - 1);
            lemma_rows_grow(lines, 0, lines.len() - 1);
            assert(rows_before(lines, lines.len() as int) == rows_before(lines, lines.len() - 1)
                + lines[lines.len() - 1].rows);
        }
        every_row_has_an_owner(lines, top);
        let at = owner(lines, top);
        lemma_rows_grow(lines, at + 1, lines.len() as int);
        assert(rows_before(lines, at + 1) == rows_before(lines, at) + lines[at].rows);
        what_is_drawn_matches_what_the_index_counted(entries, blanks, admits, width, top);
        let keys = keys_after(lines, at);
        let skip = row_within(lines, top) as int;
        assert forall|i: int, j: int| 0 <= i < j < keys.len() implies (#[trigger] keys[i]).before(
            #[trigger] keys[j],
        ) by {
            assert(lines[i + at].key().before(lines[j + at].key()));
        }
        lemma_drawn_sources(keys, entries, blanks, width, skip);
        let all = drawn_rows(keys, entries, blanks, width, skip);
        assert(view.shown().len() == view.rows@.len());
        assert forall|k: int| 0 <= k < view.row_sources@.len() implies {
            &&& view.row_sources@[k] == all[k].source
            &&& is_admitted(entries, admits, (#[trigger] view.row_sources@[k]).id)
        } by {
            assert(view.shown()[k].source == view.row_sources@[k]);
            assert(view.shown()[k] == all[k]);
            let i = choose|i: int|
                0 <= i < keys.len() && (#[trigger] keys[i]).id == all[k].source.id;
            let x = lemma_admitted_come_from(entries, blanks, admits, i + at);
            assert(lets(admits, entries[x]) && entries[x].id == view.row_sources@[k].id);
        }
        assert forall|j: int, k: int| 0 <= j < k < view.row_sources@.len() implies (
        #[trigger] view.row_sources@[j]).id.0 <= (#[trigger] view.row_sources@[k]).id.0 by {
            assert(view.shown()[j] == all[j] && view.shown()[k] == all[k]);
            assert(view.shown()[j].source == view.row_sources@[j]);
            assert(view.shown()[k].source == view.row_sources@[k]);
        }
    }
}

/// A move up shows earlier rows and a move down later ones: the row at the top
/// edge is never on the wrong side of where it was, and it does move wherever
/// there is something left to show on that side. By rows alone the edge moves
/// exactly so many rows, up to the ends.
#[verifier::spinoff_prover]
#[verifier::rlimit(60)]
pub proof fn a_scroll_goes_its_way(
    lines: Seq<Placed>,
    scroll: Scroll,
    pending: PendingScroll,
    height: u16,
)
    requires
        ids_ascend(lines),
        lines.len() > 0,
        forall|i: int|
            0 <= i < lines.len() ==> rows_before(lines, i + 1) - rows_before(
                lines,
                place_of(lines, (#[trigger] lines[i]).id),
            ) <= u16::MAX,
        !pending.to_top,
        pending.rows != 0 || pending.pages != 0,
    ensures
        ({
            let before = top_row(lines, scroll, height);
            let after = top_row(lines, resolved(lines, scroll, pending, height), height);
            let last = max_above(lines, height);
            &&& 0 <= before <= last
            &&& 0 <= after <= last
            &&& pending.rows <= 0 && pending.pages <= 0 ==> {
                &&& after <= before
                &&& before > 0 ==> after < before
            }
            &&& pending.rows >= 0 && pending.pages >= 0 ==> {
                &&& after >= before
                &&& before < last ==> after > before
            }
            &&& pending.pages == 0 && 0 <= before + pending.rows <= last ==> after == before
                + pending.rows
            &&& pending.pages == 0 && before + pending.rows < 0 ==> after == 0
            &&& pending.rows == 0 && pending.pages == -1 && height > 1 && before >= height - 1
                ==> before - after == height - 1
            &&& pending.rows == 0 && pending.pages == 1 && height > 1 && before + height - 1 <= last
                ==> after - before == height - 1
        }),
{
    let before = top_row(lines, scroll, height);
    lemma_top_row(lines, scroll, height);
    a_move_lands_where_it_says(lines, scroll, pending, height);
    let page = page_rows(height);
    let product = pending.pages * page;
    assert(page >= 1);
    assert(pending.pages < 0 ==> product < 0) by (nonlinear_arith)
        requires
            product == pending.pages * page,
            page >= 1,
    ;
    assert(pending.pages > 0 ==> product > 0) by (nonlinear_arith)
        requires
            product == pending.pages * page,
            page >= 1,
    ;
    assert(pending.pages == 0 ==> product == 0);
    assert(pending.pages == -1 ==> product == -page);
    assert(pending.pages == 1 ==> product == page);
    assert(0 <= before <= max_above(lines, height) <= usize::MAX);
}

proof fn lemma_top_row(lines: Seq<Placed>, scroll: Scroll, height: u16)
    ensures
        0 <= top_row(lines, scroll, height) <= max_above(lines, height),
        max_above(lines, height) <= usize::MAX,
{
    if let Scroll::At { id, row } = scroll {
        let at = place_of(lines, id);
        lemma_lines_before(lines, first_key(id));
        if at < lines.len() {
            lemma_rows_grow(lines, 0, at);
        }
    }
}

/// To follow is to show the newest rows: the last row of the log is the last of
/// the pane, or everything is shown where it all fits.
pub proof fn following_shows_the_newest_rows(lines: Seq<Placed>, height: u16)
    requires
        rows_in(lines) <= usize::MAX,
        height > 0,
    ensures
        rows_in(lines) > height ==> top_row(lines, Scroll::Follow, height) + height == rows_in(
            lines,
        ),
        rows_in(lines) <= height ==> top_row(lines, Scroll::Follow, height) == 0,
{
}

/// Going to the top shows the first row, whatever else was asked for since the
/// last frame.
pub proof fn the_top_is_the_first_row(
    lines: Seq<Placed>,
    scroll: Scroll,
    pending: PendingScroll,
    height: u16,
)
    requires
        ids_ascend(lines),
        lines.len() > 0,
        pending.to_top,
    ensures
        top_row(lines, resolved(lines, scroll, pending, height), height) == 0,
{
    every_row_has_an_owner(lines, 0);
    let at = place_of(lines, lines[owner(lines, 0)].id);
    lemma_lines_before(lines, first_key(lines[owner(lines, 0)].id));
    lemma_rows_grow(lines, 0, at);
    lemma_top_row(lines, scroll, height);
    an_anchor_holds_its_row(lines, 0, height);
}

/// Where nothing was asked for, what is shown stays where it is.
pub proof fn nothing_asked_nothing_moved(lines: Seq<Placed>, scroll: Scroll, height: u16)
    ensures
        resolved(
            lines,
            scroll,
            PendingScroll { rows: 0, pages: 0, to_top: false, pin: false },
            height,
        ) == scroll,
{
}

/// Every character of a line is drawn once it is wrapped: in one row, and there
/// at its own column, after the gutter where the row is not the first.
#[verifier::spinoff_prover]
#[verifier::rlimit(40)]
pub proof fn every_character_is_drawn(cells: Cells, prefix_cols: int, columns: int, j: int)
    requires
        prefix_cols >= 0,
        columns >= 1,
        0 <= j < cells.len(),
        cells.styles.len() == cells.text.len(),
    ensures
        ({
            let kept = kept_prefix(prefix_cols, columns);
            let count = row_count(cells.len() as int, prefix_cols, columns);
            exists|k: int|
                {
                    let row = #[trigger] row_cells(cells, k, kept, columns);
                    let at = if k == 0 {
                        j
                    } else {
                        kept + j - row_start(k, kept, columns)
                    };
                    &&& 0 <= k < count
                    &&& row_start(k, kept, columns) <= j
                    &&& 0 <= at < row.text.len()
                    &&& row.text[at] == cells.text[j]
                    &&& row.styles[at] == cells.styles[j]
                }
        }),
{
    let kept = kept_prefix(prefix_cols, columns);
    let count = row_count(cells.len() as int, prefix_cols, columns);
    let wide = columns - kept;
    rows_tile_the_line(cells, prefix_cols, columns);
    assert(wide >= 1);
    if j < columns {
        let row = row_cells(cells, 0, kept, columns);
        assert(row_start(1, kept, columns) == columns) by (nonlinear_arith)
            requires
                wide == columns - kept,
                row_start(1, kept, columns) == kept + 1 * wide,
        ;
        assert(row.text[j] == cells.text[j]);
        assert(row.styles[j] == cells.styles[j]);
    } else {
        let k = (j - kept) / wide;
        vstd::arithmetic::div_mod::lemma_fundamental_div_mod(j - kept, wide);
        vstd::arithmetic::div_mod::lemma_mod_bound(j - kept, wide);
        assert(k >= 1) by (nonlinear_arith)
            requires
                j - kept == wide * k + (j - kept) % wide,
                (j - kept) % wide < wide,
                j - kept >= wide,
                wide >= 1,
        ;
        assert(wide * k == k * wide) by (nonlinear_arith);
        assert((k + 1) * wide == k * wide + wide) by (nonlinear_arith);
        let start = row_start(k, kept, columns);
        let next = row_start(k + 1, kept, columns);
        assert(start == kept + k * wide);
        assert(next == kept + (k + 1) * wide);
        assert(start <= j < next);
        assert(k < count) by {
            if k >= count {
                assert(count * wide <= k * wide) by (nonlinear_arith)
                    requires
                        count <= k,
                        wide >= 1,
                ;
                assert(row_start(count, kept, columns) <= start);
            }
        }
        let row = row_cells(cells, k, kept, columns);
        let end = if next < cells.len() {
            next
        } else {
            cells.len() as int
        };
        assert(continuation_text(kept).len() == kept);
        let at = kept + j - start;
        assert(row.text[at] == cells.text.subrange(start, end)[j - start]);
        assert(row.styles[at] == cells.styles.subrange(start, end)[j - start]);
    }
}

/// A row that goes on with a line keeps the width of the name in front of it,
/// blank but for a bar where there is room for one.
pub proof fn a_gutter_is_as_wide_as_the_name(kept: int, i: int)
    requires
        0 <= i < kept,
    ensures
        continuation_text(kept).len() == kept,
        kept >= 2 && i == kept - 2 ==> continuation_text(kept)[i] == '│',
        i != kept - 2 ==> continuation_text(kept)[i] == ' ',
{
}

/// A name is kept in front of a line's rows only while it leaves the text at
/// least two columns.
pub proof fn a_name_gives_way_to_the_text(prefix_cols: int, columns: int)
    requires
        prefix_cols >= 0,
        columns >= 1,
    ensures
        kept_prefix(prefix_cols, columns) == prefix_cols || kept_prefix(prefix_cols, columns) == 0,
        prefix_cols + 2 <= columns ==> kept_prefix(prefix_cols, columns) == prefix_cols,
        prefix_cols + 2 > columns ==> kept_prefix(prefix_cols, columns) == 0,
        columns - kept_prefix(prefix_cols, columns) >= 1,
{
}

/// A line's rows are followed by as many blank ones as were left under it, and
/// every row knows which line it belongs to.
pub proof fn blank_rows_follow_their_line(
    entry: StoredLogLine,
    blanks: Map<LogId, u16>,
    width: u16,
    r: int,
)
    requires
        0 <= r < line_rows(entry, blanks, width).len(),
    ensures
        ({
            let rows = line_rows(entry, blanks, width);
            let text = row_count(
                entry.parsed.cells().len() as int,
                entry.prefix_cols as int,
                columns(width),
            );
            &&& rows[r].source.id == entry.id
            &&& rows.len() == text + blank_rows(blanks, entry.id)
            &&& r >= text ==> rows[r].cells.text.len() == 0
        }),
{
    rows_tile_the_line(entry.parsed.cells(), entry.prefix_cols as int, columns(width));
}

} // verus!
