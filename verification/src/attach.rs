//! The window that shows an attached process's screen.
use crate::panes::{plus, Rect};
use vstd::prelude::*;

verus! {

/// A colour of a cell.
#[derive(Debug, Clone, Copy, PartialEq, Eq, Structural)]
pub enum CellColor {
    Default,
    Palette(u8),
    Rgb(u8, u8, u8),
}

/// One cell of a screen.
#[derive(Debug)]
pub struct GridCell {
    /// What the cell shows. Empty for the second half of a wide character.
    pub text: String,
    pub fg: CellColor,
    pub bg: CellColor,
    pub bold: bool,
    pub faint: bool,
    pub italic: bool,
    pub underline: bool,
    pub inverse: bool,
    pub strikethrough: bool,
}

/// A process's screen, row by row.
#[derive(Debug)]
pub struct Grid {
    pub cols: u16,
    pub rows: u16,
    pub cells: Vec<GridCell>,
    /// The column and row of the cursor.
    pub cursor: (u16, u16),
    pub cursor_visible: bool,
}

/// Where the window is.
#[derive(Debug, Clone, Copy, PartialEq, Eq, Structural)]
pub struct WindowRect {
    pub x: u16,
    pub y: u16,
    pub width: u16,
    pub height: u16,
}

/// The smaller of two lengths.
pub open spec fn fewer(a: u16, b: u16) -> u16 {
    if a < b {
        a
    } else {
        b
    }
}

/// Where something of length `len` starts so that it ends by `end`, no further
/// on than `at` and no further back than `from`.
pub open spec fn pulled_back(at: u16, len: u16, from: u16, end: int) -> u16 {
    if at < from {
        from
    } else if at + len <= end {
        at
    } else if end - len < from {
        from
    } else {
        (end - len) as u16
    }
}

fn pull_back(at: u16, len: u16, from: u16, end: u32) -> (r: u16)
    requires
        end <= 131070,
    ensures
        r == pulled_back(at, len, from, end as int),
{
    if at < from {
        from
    } else if at as u32 + len as u32 <= end {
        at
    } else if end < len as u32 + from as u32 {
        from
    } else {
        (end - len as u32) as u16
    }
}

impl WindowRect {
    /// The window that fills four fifths of a screen, in its middle.
    pub open spec fn middle_of(area: Rect) -> WindowRect {
        let width = (area.width as int * 4 / 5) as u16;
        let height = (area.height as int * 4 / 5) as u16;
        WindowRect {
            x: plus(area.x as int, (area.width - width) / 2),
            y: plus(area.y as int, (area.height - height) / 2),
            width,
            height,
        }
    }

    /// The window that fills four fifths of a screen, in its middle.
    pub fn centred_in(area: Rect) -> (r: WindowRect)
        ensures
            r == WindowRect::middle_of(area),
    {
        let width: u16 = (area.width as u32 * 4 / 5) as u16;
        let height: u16 = (area.height as u32 * 4 / 5) as u16;
        WindowRect {
            x: area.x.saturating_add((area.width - width) / 2),
            y: area.y.saturating_add((area.height - height) / 2),
            width,
            height,
        }
    }

    /// This window, made to fit a screen: no larger than it, and inside it.
    pub open spec fn within(self, area: Rect) -> WindowRect {
        let width = fewer(self.width, area.width);
        let height = fewer(self.height, area.height);
        WindowRect {
            x: pulled_back(self.x, width, area.x, area.x + area.width),
            y: pulled_back(self.y, height, area.y, area.y + area.height),
            width,
            height,
        }
    }

    /// This window, made to fit a screen.
    pub fn fitted(&self, area: Rect) -> (r: WindowRect)
        ensures
            r == self.within(area),
    {
        let width: u16 = if self.width < area.width {
            self.width
        } else {
            area.width
        };
        let height: u16 = if self.height < area.height {
            self.height
        } else {
            area.height
        };
        WindowRect {
            x: pull_back(self.x, width, area.x, area.x as u32 + area.width as u32),
            y: pull_back(self.y, height, area.y, area.y as u32 + area.height as u32),
            width,
            height,
        }
    }

    /// The window as a rectangle.
    pub open spec fn rect(self) -> Rect {
        Rect { x: self.x, y: self.y, width: self.width, height: self.height }
    }

    /// The window as a rectangle.
    pub fn to_rect(&self) -> (r: Rect)
        ensures
            r == self.rect(),
    {
        Rect { x: self.x, y: self.y, width: self.width, height: self.height }
    }

    /// Whether a cell lies in the window.
    pub fn contains(&self, column: u16, row: u16) -> (r: bool)
        ensures
            r == self.rect().has(column as int, row as int),
    {
        self.to_rect().contains(column, row)
    }

    /// The columns and rows inside the border, at least one of each.
    pub open spec fn grid(self) -> (u16, u16) {
        (
            if self.width > 3 {
                (self.width - 2) as u16
            } else {
                1
            },
            if self.height > 3 {
                (self.height - 2) as u16
            } else {
                1
            },
        )
    }

    /// The columns and rows inside the border, at least one of each.
    pub fn grid_size(&self) -> (r: (u16, u16))
        ensures
            r == self.grid(),
    {
        let cols: u16 = if self.width > 3 {
            self.width - 2
        } else {
            1
        };
        let rows: u16 = if self.height > 3 {
            self.height - 2
        } else {
            1
        };
        (cols, rows)
    }
}

/// A process's window: whose it is, where it is, and the last screen seen.
#[derive(Debug)]
pub struct AttachView {
    pub name: String,
    pub window: WindowRect,
    /// Absent until the first screen arrives.
    pub grid: Option<Grid>,
    /// The process is gone, and this is its last screen. The window stays
    /// until it is dismissed.
    pub ended: bool,
}

/// A window that fits its screen is left alone.
pub proof fn fitting_twice_changes_nothing(window: WindowRect, area: Rect)
    ensures
        window.within(area).within(area) == window.within(area),
{
}

/// A fitted window lies inside the screen.
pub proof fn a_fitted_window_is_on_screen(window: WindowRect, area: Rect)
    requires
        area.x + area.width <= u16::MAX,
        area.y + area.height <= u16::MAX,
    ensures
        ({
            let fitted = window.within(area);
            &&& area.x <= fitted.x
            &&& fitted.x + fitted.width <= area.x + area.width
            &&& area.y <= fitted.y
            &&& fitted.y + fitted.height <= area.y + area.height
        }),
{
}

/// A window opens in the middle of the screen, four fifths of it wide and high,
/// with as much room on one side as on the other to within a cell.
pub proof fn a_window_opens_in_the_middle(area: Rect)
    requires
        area.x + area.width <= u16::MAX,
        area.y + area.height <= u16::MAX,
    ensures
        ({
            let window = WindowRect::middle_of(area);
            let left = window.x - area.x;
            let right = area.x + area.width - window.x - window.width;
            let above = window.y - area.y;
            let below = area.y + area.height - window.y - window.height;
            &&& 5 * window.width <= 4 * area.width < 5 * (window.width + 1)
            &&& 5 * window.height <= 4 * area.height < 5 * (window.height + 1)
            &&& 0 <= left <= right <= left + 1
            &&& 0 <= above <= below <= above + 1
        }),
{
}

/// The process draws inside the window's frame.
pub proof fn the_process_draws_inside_the_frame(window: WindowRect)
    ensures
        window.width > 2 ==> window.grid().0 == window.width - 2,
        window.height > 2 ==> window.grid().1 == window.height - 2,
        window.grid().0 >= 1 && window.grid().1 >= 1,
{
}

/// A window that is on the screen as it is stays where it is, and one that is
/// not keeps its size as far as the screen is large enough.
pub proof fn a_window_that_fits_stays(window: WindowRect, area: Rect)
    requires
        area.x + area.width <= u16::MAX,
        area.y + area.height <= u16::MAX,
    ensures
        area.x <= window.x && window.x + window.width <= area.x + area.width && area.y <= window.y
            && window.y + window.height <= area.y + area.height ==> window.within(area) == window,
        window.width <= area.width ==> window.within(area).width == window.width,
        window.width > area.width ==> window.within(area).width == area.width,
        window.height <= area.height ==> window.within(area).height == window.height,
        window.height > area.height ==> window.within(area).height == area.height,
{
}

} // verus!
