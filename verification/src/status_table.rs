//! The keys of a status table: moving the highlight, and narrowing the rows by
//! a typed query.
use crate::keys::{KeyCode, KeyEvent};
use vstd::prelude::*;

verus! {

/// What a table does with a key.
#[derive(Debug, Clone, Copy, PartialEq, Eq, Structural)]
pub enum StatusTableKeyOutcome {
    /// The key was the table's.
    Redraw,
    /// The table is done.
    Close,
    /// The key is not the table's.
    Ignored,
}

/// A status table's query and highlight.
#[derive(Debug)]
pub struct StatusTableState {
    pub query: String,
    /// Whether keys go into the query.
    pub filtering: bool,
    pub highlight: usize,
}

/// A table's state, as contracts speak of it.
#[verifier::ext_equal]
pub struct TableView {
    pub query: Seq<char>,
    pub filtering: bool,
    pub highlight: int,
}

impl View for StatusTableState {
    type V = TableView;

    open spec fn view(&self) -> TableView {
        TableView {
            query: self.query@,
            filtering: self.filtering,
            highlight: self.highlight as int,
        }
    }
}

/// The highlighted row of `total`, if there is one.
pub open spec fn selected_of(highlight: int, total: int) -> Option<int> {
    if total <= 0 {
        None
    } else if highlight < total {
        Some(highlight)
    } else {
        Some(total - 1)
    }
}

/// A table after a key, and what it made of it.
#[verifier::opaque]
pub open spec fn after_table_key(t: TableView, code: KeyCode, total: int) -> (
    TableView,
    StatusTableKeyOutcome,
) {
    let redraw = StatusTableKeyOutcome::Redraw;
    let up = TableView {
        highlight: match selected_of(t.highlight, total) {
            Some(at) => if at > 0 {
                at - 1
            } else {
                0
            },
            None => 0,
        },
        ..t
    };
    let down = TableView {
        highlight: match selected_of(t.highlight, total) {
            Some(at) => if at + 1 < total {
                at + 1
            } else {
                at
            },
            None => 0,
        },
        ..t
    };
    if t.filtering {
        match code {
            KeyCode::Esc => (TableView::fresh(), redraw),
            KeyCode::Enter => (TableView { filtering: false, ..t }, redraw),
            KeyCode::Backspace => (
                TableView {
                    query: if t.query.len() == 0 {
                        t.query
                    } else {
                        t.query.drop_last()
                    },
                    highlight: 0,
                    ..t
                },
                redraw,
            ),
            KeyCode::Char(c) => (
                TableView { query: t.query.push(c), highlight: 0, ..t },
                redraw,
            ),
            KeyCode::Up => (up, redraw),
            KeyCode::Down => (down, redraw),
            _ => (t, StatusTableKeyOutcome::Ignored),
        }
    } else {
        match code {
            KeyCode::Esc => (t, StatusTableKeyOutcome::Close),
            KeyCode::Up => (up, redraw),
            KeyCode::Down => (down, redraw),
            KeyCode::Char(c) => if c == 'k' {
                (up, redraw)
            } else if c == 'j' {
                (down, redraw)
            } else if c == '/' {
                (TableView { filtering: true, ..t }, redraw)
            } else {
                (t, StatusTableKeyOutcome::Ignored)
            },
            _ => (t, StatusTableKeyOutcome::Ignored),
        }
    }
}

impl TableView {
    /// A table as it opens.
    pub open spec fn fresh() -> TableView {
        TableView { query: Seq::empty(), filtering: false, highlight: 0 }
    }
}

impl Default for StatusTableState {
    fn default() -> (r: StatusTableState)
        ensures
            r@ == TableView::fresh(),
    {
        StatusTableState { query: String::new(), filtering: false, highlight: 0 }
    }
}

impl StatusTableState {
    /// Back to how a table opens.
    pub fn reset(&mut self)
        ensures
            final(self)@ == TableView::fresh(),
    {
        *self = StatusTableState { query: String::new(), filtering: false, highlight: 0 };
    }

    /// The highlighted row of `total`, if there is one.
    pub fn selected_index(&self, total: usize) -> (r: Option<usize>)
        ensures
            match r {
                Some(at) => selected_of(self@.highlight, total as int) == Some(at as int) && at
                    < total,
                None => total == 0,
            },
    {
        if total == 0 {
            None
        } else if self.highlight < total {
            Some(self.highlight)
        } else {
            Some(total - 1)
        }
    }

    fn step_up(&mut self, total: usize)
        ensures
            final(self)@ == (TableView {
                highlight: match selected_of(old(self)@.highlight, total as int) {
                    Some(at) => if at > 0 {
                        at - 1
                    } else {
                        0
                    },
                    None => 0,
                },
                ..old(self)@
            }),
    {
        self.highlight = match self.selected_index(total) {
            Some(at) => if at > 0 {
                at - 1
            } else {
                0
            },
            None => 0,
        };
    }

    fn step_down(&mut self, total: usize)
        ensures
            final(self)@ == (TableView {
                highlight: match selected_of(old(self)@.highlight, total as int) {
                    Some(at) => if at + 1 < total {
                        at + 1
                    } else {
                        at
                    },
                    None => 0,
                },
                ..old(self)@
            }),
    {
        self.highlight = match self.selected_index(total) {
            Some(at) => if at + 1 < total {
                at + 1
            } else {
                at
            },
            None => 0,
        };
    }

    /// Gives a key to the table, which has `total` rows.
    pub fn handle_key(&mut self, key: KeyEvent, total: usize) -> (r: StatusTableKeyOutcome)
        ensures
            (final(self)@, r) == after_table_key(old(self)@, key.code, total as int),
            r != StatusTableKeyOutcome::Redraw ==> *final(self) == *old(self),
    {
        reveal(after_table_key);
        if self.filtering {
            match key.code {
                KeyCode::Esc => {
                    self.reset();
                    StatusTableKeyOutcome::Redraw
                },
                KeyCode::Enter => {
                    self.filtering = false;
                    StatusTableKeyOutcome::Redraw
                },
                KeyCode::Backspace => {
                    let _gone = self.query.pop();
                    self.highlight = 0;
                    StatusTableKeyOutcome::Redraw
                },
                KeyCode::Char(c) => {
                    self.query.push(c);
                    self.highlight = 0;
                    StatusTableKeyOutcome::Redraw
                },
                KeyCode::Up => {
                    self.step_up(total);
                    StatusTableKeyOutcome::Redraw
                },
                KeyCode::Down => {
                    self.step_down(total);
                    StatusTableKeyOutcome::Redraw
                },
                _ => StatusTableKeyOutcome::Ignored,
            }
        } else {
            match key.code {
                KeyCode::Esc => StatusTableKeyOutcome::Close,
                KeyCode::Up => {
                    self.step_up(total);
                    StatusTableKeyOutcome::Redraw
                },
                KeyCode::Down => {
                    self.step_down(total);
                    StatusTableKeyOutcome::Redraw
                },
                KeyCode::Char(c) => {
                    if c == 'k' {
                        self.step_up(total);
                        StatusTableKeyOutcome::Redraw
                    } else if c == 'j' {
                        self.step_down(total);
                        StatusTableKeyOutcome::Redraw
                    } else if c == '/' {
                        self.filtering = true;
                        StatusTableKeyOutcome::Redraw
                    } else {
                        StatusTableKeyOutcome::Ignored
                    }
                },
                _ => StatusTableKeyOutcome::Ignored,
            }
        }
    }
}

/// Moves a table's highlight by `delta` rows, kept within the table.
pub fn step_table(table: &mut StatusTableState, total: usize, delta: isize)
    ensures
        final(table)@ == (TableView {
            highlight: match selected_of(old(table)@.highlight, total as int) {
                None => old(table)@.highlight,
                Some(at) => if at + delta < 0 {
                    0
                } else if at + delta >= total {
                    total - 1
                } else {
                    at + delta
                },
            },
            ..old(table)@
        }),
{
    let at: usize = match table.selected_index(total) {
        Some(at) => at,
        None => {
            return ;
        },
    };
    let moved: i128 = at as i128 + delta as i128;
    table.highlight = if moved < 0 {
        0
    } else if moved >= total as i128 {
        total - 1
    } else {
        moved as usize
    };
}

/// In a table Up and `k` move the highlight a row up and Down and `j` a row
/// down, stopping at the ends; Escape closes the table. While its filter is
/// typed, letters go into the filter instead, Enter keeps what was typed and
/// Escape throws it away.
pub proof fn a_table_answers_its_keys(t: TableView, code: KeyCode, total: int)
    requires
        0 <= t.highlight < total,
    ensures
        ({
            let (after, outcome) = after_table_key(t, code, total);
            let up = code == KeyCode::Up || (code == KeyCode::Char('k') && !t.filtering);
            let down = code == KeyCode::Down || (code == KeyCode::Char('j') && !t.filtering);
            &&& up ==> after.highlight == (if t.highlight > 0 {
                t.highlight - 1
            } else {
                0
            })
            &&& down ==> after.highlight == (if t.highlight + 1 < total {
                t.highlight + 1
            } else {
                t.highlight
            })
            &&& up || down ==> outcome is Redraw && after.query == t.query && after.filtering
                == t.filtering
            &&& !t.filtering && code == KeyCode::Esc ==> outcome is Close
            &&& !t.filtering && code == KeyCode::Char('/') ==> after.filtering && after.query
                == t.query && outcome is Redraw
            &&& t.filtering && code == KeyCode::Esc ==> after.query.len() == 0 && !after.filtering
                && outcome is Redraw
            &&& t.filtering && code == KeyCode::Enter ==> after.query == t.query
                && !after.filtering && outcome is Redraw
            &&& t.filtering && code is Char ==> after.query == t.query.push(code->Char_0)
                && after.filtering && after.highlight == 0 && outcome is Redraw
            &&& t.filtering && code == KeyCode::Backspace && t.query.len() > 0 ==> after.query
                == t.query.drop_last() && after.filtering && outcome is Redraw
            &&& outcome is Ignored ==> after == t
            &&& outcome is Close ==> !t.filtering && code == KeyCode::Esc
        }),
{
    reveal(after_table_key);
}

/// A row is selected wherever there are any: the highlighted one, or the last
/// where the highlight lies beyond it.
pub proof fn some_row_is_selected(highlight: int, total: int)
    requires
        highlight >= 0,
    ensures
        total > 0 && highlight < total ==> selected_of(highlight, total) == Some(highlight),
        total > 0 && highlight >= total ==> selected_of(highlight, total) == Some(total - 1),
        total == 0 ==> selected_of(highlight, total) is None,
{
}

} // verus!
