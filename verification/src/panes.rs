//! Where the panes of the screen are.
//!
//! The log pane has the screen to itself until a side panel opens to its right
//! or below it, with a divider one cell wide between the two. The status bar
//! spans the bottom.
use vstd::prelude::*;

verus! {

/// Columns the log pane keeps beside a panel.
pub const MIN_LOG_COLUMNS: u16 = 20;

/// Rows the log pane keeps above a panel.
pub const MIN_LOG_ROWS: u16 = 3;

/// Columns a panel on the right has by default.
pub const DEFAULT_COLUMNS: u16 = 48;

/// Rows a panel at the bottom has by default.
pub const DEFAULT_ROWS: u16 = 12;

/// A rectangle of cells.
#[derive(Debug, Clone, Copy, PartialEq, Eq, Structural)]
pub struct Rect {
    pub x: u16,
    pub y: u16,
    pub width: u16,
    pub height: u16,
}

/// A sum kept within 16 bits.
pub open spec fn plus(a: int, b: int) -> u16 {
    if a + b > u16::MAX {
        u16::MAX
    } else {
        (a + b) as u16
    }
}

/// A difference that does not go below zero.
pub open spec fn minus(a: int, b: int) -> u16 {
    if a < b {
        0
    } else {
        (a - b) as u16
    }
}

impl Rect {
    /// A rectangle.
    pub fn new(x: u16, y: u16, width: u16, height: u16) -> (r: Rect)
        ensures
            r == (Rect { x, y, width, height }),
    {
        Rect { x, y, width, height }
    }

    /// Whether a cell lies inside.
    pub open spec fn has(self, column: int, row: int) -> bool {
        self.x <= column < self.x + self.width && self.y <= row < self.y + self.height
    }

    /// Whether a cell lies inside.
    pub fn contains(&self, column: u16, row: u16) -> (r: bool)
        ensures
            r == self.has(column as int, row as int),
    {
        self.x <= column && (column as u32) < self.x as u32 + self.width as u32 && self.y <= row
            && (row as u32) < self.y as u32 + self.height as u32
    }

    /// What is left inside a border one cell wide.
    pub open spec fn inset(self) -> Rect {
        Rect {
            x: plus(self.x as int, 1),
            y: plus(self.y as int, 1),
            width: minus(self.width as int, 2),
            height: minus(self.height as int, 2),
        }
    }
}

/// What is left of a rectangle inside a border one cell wide.
pub fn inner(area: Rect) -> (r: Rect)
    ensures
        r == area.inset(),
{
    Rect {
        x: area.x.saturating_add(1),
        y: area.y.saturating_add(1),
        width: area.width.saturating_sub(2),
        height: area.height.saturating_sub(2),
    }
}

/// The side a panel docks on.
#[derive(Debug, Clone, Copy, PartialEq, Eq, Structural)]
pub enum PaneSide {
    Right,
    Bottom,
}

impl PaneSide {
    /// The other side.
    pub fn toggled(self) -> (r: PaneSide)
        ensures
            r == (match self {
                PaneSide::Right => PaneSide::Bottom,
                PaneSide::Bottom => PaneSide::Right,
            }),
    {
        match self {
            PaneSide::Right => PaneSide::Bottom,
            PaneSide::Bottom => PaneSide::Right,
        }
    }
}

/// Where the side panel docks and how many columns or rows it asks for.
#[derive(Debug, Clone, Copy, PartialEq, Eq, Structural)]
pub struct Panel {
    pub side: PaneSide,
    pub extent: u16,
}

impl Default for Panel {
    fn default() -> (r: Panel)
        ensures
            r == (Panel { side: PaneSide::Right, extent: DEFAULT_COLUMNS }),
    {
        Panel { side: PaneSide::Right, extent: DEFAULT_COLUMNS }
    }
}

/// Which pane takes keys that both could claim.
#[derive(Debug, Clone, Copy, PartialEq, Eq, Structural)]
pub enum Focus {
    Logs,
    Panel,
}

/// Where the panes are.
#[derive(Debug, Clone, Copy, PartialEq, Eq, Structural)]
pub struct Panes {
    pub logs: Rect,
    /// The side panel, when it is open and there is room.
    pub status: Option<Rect>,
    pub bar: Rect,
}

impl Panes {
    /// Nothing on screen yet.
    pub open spec fn nothing() -> Panes {
        let none = Rect { x: 0, y: 0, width: 0, height: 0 };
        Panes { logs: none, status: None, bar: none }
    }

    /// Nothing on screen yet.
    pub fn empty() -> (r: Panes)
        ensures
            r == Panes::nothing(),
    {
        let none = Rect { x: 0, y: 0, width: 0, height: 0 };
        Panes { logs: none, status: None, bar: none }
    }

    /// Which pane a cell belongs to.
    pub open spec fn pane_at(self, column: int, row: int) -> Option<Focus> {
        if self.logs.has(column, row) {
            Some(Focus::Logs)
        } else if self.status is Some && self.status->0.has(column, row) {
            Some(Focus::Panel)
        } else {
            None
        }
    }

    /// Which pane a cell belongs to.
    pub fn hit(&self, column: u16, row: u16) -> (r: Option<Focus>)
        ensures
            r == self.pane_at(column as int, row as int),
    {
        if self.logs.contains(column, row) {
            return Some(Focus::Logs);
        }
        match self.status {
            Some(status) => {
                if status.contains(column, row) {
                    Some(Focus::Panel)
                } else {
                    None
                }
            },
            None => None,
        }
    }

    /// Whether a cell is on the divider: between the log pane and the panel,
    /// touching the panel.
    pub open spec fn divides(self, column: int, row: int) -> bool {
        match self.status {
            Some(status) => !self.logs.has(column, row) && ((column + 1 == status.x && status.y
                <= row < status.y + status.height) || (row + 1 == status.y && status.x <= column
                < status.x + status.width)),
            None => false,
        }
    }

    /// Whether a cell is on the divider.
    pub fn on_divider(&self, column: u16, row: u16) -> (r: bool)
        ensures
            r == self.divides(column as int, row as int),
    {
        match self.status {
            Some(status) => {
                if self.logs.contains(column, row) {
                    return false;
                }
                let left = column as u32 + 1 == status.x as u32 && status.y <= row && (row as u32)
                    < status.y as u32 + status.height as u32;
                let above = row as u32 + 1 == status.y as u32 && status.x <= column && (
                column as u32) < status.x as u32 + status.width as u32;
                left || above
            },
            None => false,
        }
    }
}

/// The columns or rows a panel gets of `total`, leaving `keep` to the log and
/// one to the divider; nothing when that leaves no room.
pub open spec fn granted(total: int, keep: int, extent: int) -> Option<u16> {
    let most = total - keep - 1;
    if most < 1 {
        None
    } else if extent < 1 {
        Some(1u16)
    } else if extent > most {
        Some(most as u16)
    } else {
        Some(extent as u16)
    }
}

fn grant(total: u16, keep: u16, extent: u16) -> (r: Option<u16>)
    ensures
        r == granted(total as int, keep as int, extent as int),
{
    let most: i32 = total as i32 - keep as i32 - 1;
    if most < 1 {
        None
    } else if extent < 1 {
        Some(1)
    } else if extent as i32 > most {
        Some(most as u16)
    } else {
        Some(extent)
    }
}

/// The panes of a screen.
pub open spec fn laid_out(area: Rect, bar_height: u16, panel: Panel, open: bool) -> Panes {
    let bar_rows = if bar_height < area.height {
        bar_height
    } else {
        area.height
    };
    let rows = (area.height - bar_rows) as u16;
    let bar = Rect { x: area.x, y: plus(area.y as int, rows as int), width: area.width, height: bar_rows };
    let whole = Rect { x: area.x, y: area.y, width: area.width, height: rows };
    let extent = if !open {
        None
    } else {
        match panel.side {
            PaneSide::Right => granted(
                area.width as int,
                MIN_LOG_COLUMNS as int,
                panel.extent as int,
            ),
            PaneSide::Bottom => granted(rows as int, MIN_LOG_ROWS as int, panel.extent as int),
        }
    };
    match extent {
        None => Panes { logs: whole, status: None, bar },
        Some(extent) => match panel.side {
            PaneSide::Right => {
                let left = (area.width - extent - 1) as u16;
                Panes {
                    logs: Rect { width: left, ..whole },
                    status: Some(
                        Rect { x: plus(area.x as int, left + 1), width: extent, ..whole },
                    ),
                    bar,
                }
            },
            PaneSide::Bottom => {
                let above = (rows - extent - 1) as u16;
                Panes {
                    logs: Rect { height: above, ..whole },
                    status: Some(
                        Rect { y: plus(area.y as int, above + 1), height: extent, ..whole },
                    ),
                    bar,
                }
            },
        },
    }
}

/// Places the panes on a screen.
pub fn layout(area: Rect, bar_height: u16, panel: Panel, open: bool) -> (r: Panes)
    ensures
        r == laid_out(area, bar_height, panel, open),
{
    let bar_rows: u16 = if bar_height < area.height {
        bar_height
    } else {
        area.height
    };
    let rows: u16 = area.height - bar_rows;
    let bar = Rect {
        x: area.x,
        y: area.y.saturating_add(rows),
        width: area.width,
        height: bar_rows,
    };
    let whole = Rect { x: area.x, y: area.y, width: area.width, height: rows };
    let extent: Option<u16> = if !open {
        None
    } else {
        match panel.side {
            PaneSide::Right => grant(area.width, MIN_LOG_COLUMNS, panel.extent),
            PaneSide::Bottom => grant(rows, MIN_LOG_ROWS, panel.extent),
        }
    };
    match extent {
        None => Panes { logs: whole, status: None, bar },
        Some(extent) => match panel.side {
            PaneSide::Right => {
                let left: u16 = area.width - extent - 1;
                Panes {
                    logs: Rect { x: area.x, y: area.y, width: left, height: rows },
                    status: Some(
                        Rect {
                            x: area.x.saturating_add(left + 1),
                            y: area.y,
                            width: extent,
                            height: rows,
                        },
                    ),
                    bar,
                }
            },
            PaneSide::Bottom => {
                let above: u16 = rows - extent - 1;
                Panes {
                    logs: Rect { x: area.x, y: area.y, width: area.width, height: above },
                    status: Some(
                        Rect {
                            x: area.x,
                            y: area.y.saturating_add(above + 1),
                            width: area.width,
                            height: extent,
                        },
                    ),
                    bar,
                }
            },
        },
    }
}

/// The extent a panel has when its divider is dragged to a cell.
pub open spec fn dragged_extent(area: Rect, side: PaneSide, column: int, row: int) -> u16 {
    let extent = match side {
        PaneSide::Right => minus(area.width as int, column + 1),
        PaneSide::Bottom => minus(area.height as int, row + 1),
    };
    if extent < 1 {
        1
    } else {
        extent
    }
}

/// The extent a panel has when its divider is dragged to a cell of `area`.
pub fn extent_from_drag(area: Rect, side: PaneSide, column: u16, row: u16) -> (r: u16)
    ensures
        r == dragged_extent(area, side, column as int, row as int),
{
    let extent: u16 = match side {
        PaneSide::Right => area.width.saturating_sub(column).saturating_sub(1),
        PaneSide::Bottom => area.height.saturating_sub(row).saturating_sub(1),
    };
    if extent < 1 {
        1
    } else {
        extent
    }
}

/// The panel's size along its own axis.
pub open spec fn drawn_extent(panes: Panes, panel: Panel) -> u16 {
    match panes.status {
        Some(rect) => match panel.side {
            PaneSide::Right => rect.width,
            PaneSide::Bottom => rect.height,
        },
        None => panel.extent,
    }
}

/// Storing the extent that the layout granted leaves the layout as it is, so
/// what is stored and what is drawn cannot drift apart.
pub proof fn a_granted_extent_is_granted_again(
    area: Rect,
    bar_height: u16,
    panel: Panel,
    open: bool,
)
    ensures
        ({
            let first = laid_out(area, bar_height, panel, open);
            let stored = Panel { extent: drawn_extent(first, panel), ..panel };
            laid_out(area, bar_height, stored, open) == first
        }),
{
}

/// The log pane, the divider and the panel fill the width, or the rows above
/// the bar, exactly.
pub proof fn the_panes_fill_the_screen(area: Rect, bar_height: u16, panel: Panel, open: bool)
    ensures
        ({
            let panes = laid_out(area, bar_height, panel, open);
            let rows = area.height - panes.bar.height;
            match panes.status {
                None => panes.logs.width == area.width && panes.logs.height == rows,
                Some(status) => match panel.side {
                    PaneSide::Right => panes.logs.width + 1 + status.width == area.width
                        && panes.logs.height == rows && status.height == rows,
                    PaneSide::Bottom => panes.logs.height + 1 + status.height == rows
                        && panes.logs.width == area.width && status.width == area.width,
                },
            }
        }),
{
}

/// A panel is as large as it asks to be where that leaves the log its least
/// size, and gives way to the log where it does not; where there is no room for
/// both there is no panel.
pub proof fn the_log_keeps_its_least_size(
    area: Rect,
    bar_height: u16,
    panel: Panel,
)
    requires
        bar_height <= area.height,
        area.x + area.width <= u16::MAX,
        area.y + area.height <= u16::MAX,
        panel.extent >= 1,
    ensures
        ({
            let panes = laid_out(area, bar_height, panel, true);
            let rows = area.height - bar_height;
            &&& panes.bar.height == bar_height
            &&& panes.bar.width == area.width
            &&& panes.bar.y == area.y + rows
            &&& panes.logs.x == area.x
            &&& panes.logs.y == area.y
            &&& panel.side == PaneSide::Right ==> match panes.status {
                Some(status) => {
                    &&& panes.logs.width >= 20
                    &&& status.x == area.x + panes.logs.width + 1
                    &&& status.y == area.y
                    &&& panel.extent + 21 <= area.width ==> status.width == panel.extent
                    &&& status.width <= panel.extent
                },
                None => area.width < 22,
            }
            &&& panel.side == PaneSide::Bottom ==> match panes.status {
                Some(status) => {
                    &&& panes.logs.height >= 3
                    &&& status.y == area.y + panes.logs.height + 1
                    &&& status.x == area.x
                    &&& panel.extent + 4 <= rows ==> status.height == panel.extent
                    &&& status.height <= panel.extent
                },
                None => rows < 5,
            }
            &&& laid_out(area, bar_height, panel, false).status is None
        }),
{
}

/// The cell between the panes belongs to neither: it is where the divider is
/// taken hold of.
pub proof fn the_divider_lies_between_the_panes(
    area: Rect,
    bar_height: u16,
    panel: Panel,
    column: int,
    row: int,
)
    requires
        bar_height <= area.height,
        area.x + area.width <= u16::MAX,
        area.y + area.height <= u16::MAX,
        laid_out(area, bar_height, panel, true).status is Some,
        area.x <= column < area.x + area.width,
        area.y <= row < area.y + area.height - bar_height,
    ensures
        ({
            let panes = laid_out(area, bar_height, panel, true);
            let status = panes.status->0;
            &&& panel.side == PaneSide::Right ==> {
                &&& panes.divides(column, row) <==> column == area.x + panes.logs.width
                &&& panes.pane_at(column, row) == Some(Focus::Logs) <==> column < area.x
                    + panes.logs.width
                &&& panes.pane_at(column, row) == Some(Focus::Panel) <==> column > area.x
                    + panes.logs.width
            }
            &&& panel.side == PaneSide::Bottom ==> {
                &&& panes.divides(column, row) <==> row == area.y + panes.logs.height
                &&& panes.pane_at(column, row) == Some(Focus::Logs) <==> row < area.y
                    + panes.logs.height
                &&& panes.pane_at(column, row) == Some(Focus::Panel) <==> row > area.y
                    + panes.logs.height
            }
        }),
{
}

/// Dragging the divider to a cell makes the panel reach from the cell after it
/// to the far edge.
pub proof fn a_dragged_divider_stays_under_the_pointer(area: Rect, column: int, row: int)
    requires
        0 <= column,
        0 <= row,
    ensures
        column + 1 < area.width ==> column + 1 + dragged_extent(area, PaneSide::Right, column, row)
            == area.width,
        row + 1 < area.height ==> row + 1 + dragged_extent(area, PaneSide::Bottom, column, row)
            == area.height,
        dragged_extent(area, PaneSide::Right, column, row) >= 1,
        dragged_extent(area, PaneSide::Bottom, column, row) >= 1,
{
}

/// A frame is one cell wide all round.
pub proof fn an_inset_leaves_a_frame(rect: Rect)
    requires
        rect.width >= 2,
        rect.height >= 2,
        rect.x < u16::MAX,
        rect.y < u16::MAX,
    ensures
        rect.inset().x == rect.x + 1,
        rect.inset().y == rect.y + 1,
        rect.inset().x + rect.inset().width + 1 == rect.x + rect.width,
        rect.inset().y + rect.inset().height + 1 == rect.y + rect.height,
{
}

} // verus!
