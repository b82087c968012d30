//! The colours that names are shown in.
use crate::app::App;
use crate::names::{views, NameMap};
use crate::style::Color;
use vstd::prelude::*;

verus! {

/// A colour as the log's formatter names it: the plain names are the bright
/// ones.
#[derive(Debug, Clone, Copy, PartialEq, Eq, Structural)]
pub enum LogColor {
    Reset,
    Black,
    DarkGrey,
    Red,
    DarkRed,
    Green,
    DarkGreen,
    Yellow,
    DarkYellow,
    Blue,
    DarkBlue,
    Magenta,
    DarkMagenta,
    Cyan,
    DarkCyan,
    White,
    Grey,
    Rgb { r: u8, g: u8, b: u8 },
    AnsiValue(u8),
}

/// The same colour as the screen names it.
pub open spec fn on_screen(color: LogColor) -> Color {
    match color {
        LogColor::Reset => Color::Reset,
        LogColor::Black => Color::Black,
        LogColor::DarkGrey => Color::DarkGray,
        LogColor::Red => Color::LightRed,
        LogColor::DarkRed => Color::Red,
        LogColor::Green => Color::LightGreen,
        LogColor::DarkGreen => Color::Green,
        LogColor::Yellow => Color::LightYellow,
        LogColor::DarkYellow => Color::Yellow,
        LogColor::Blue => Color::LightBlue,
        LogColor::DarkBlue => Color::Blue,
        LogColor::Magenta => Color::LightMagenta,
        LogColor::DarkMagenta => Color::Magenta,
        LogColor::Cyan => Color::LightCyan,
        LogColor::DarkCyan => Color::Cyan,
        LogColor::White => Color::White,
        LogColor::Grey => Color::Gray,
        LogColor::Rgb { r, g, b } => Color::Rgb(r, g, b),
        LogColor::AnsiValue(value) => Color::Indexed(value),
    }
}

/// The same colour as the screen names it.
pub fn crossterm_color_to_ratatui(color: LogColor) -> (r: Color)
    ensures
        r == on_screen(color),
{
    match color {
        LogColor::Reset => Color::Reset,
        LogColor::Black => Color::Black,
        LogColor::DarkGrey => Color::DarkGray,
        LogColor::Red => Color::LightRed,
        LogColor::DarkRed => Color::Red,
        LogColor::Green => Color::LightGreen,
        LogColor::DarkGreen => Color::Green,
        LogColor::Yellow => Color::LightYellow,
        LogColor::DarkYellow => Color::Yellow,
        LogColor::Blue => Color::LightBlue,
        LogColor::DarkBlue => Color::Blue,
        LogColor::Magenta => Color::LightMagenta,
        LogColor::DarkMagenta => Color::Magenta,
        LogColor::Cyan => Color::LightCyan,
        LogColor::DarkCyan => Color::Cyan,
        LogColor::White => Color::White,
        LogColor::Grey => Color::Gray,
        LogColor::Rgb { r, g, b } => Color::Rgb(r, g, b),
        LogColor::AnsiValue(value) => Color::Indexed(value),
    }
}

/// The names that get a colour: every service, then every task.
pub fn log_names(app: &App) -> (r: Vec<String>)
    ensures
        views(r@) == app.services_state.order() + app.tasks_state.order(),
{
    let mut out: Vec<String> = Vec::new();
    let mut i: usize = 0;
    let services: usize = app.services_state.len();
    let ghost wanted = app.services_state.order();
    assert(views(out@) =~= wanted.take(0));
    while i < services
        invariant
            i <= services,
            services == wanted.len(),
            wanted == app.services_state.order(),
            views(out@) == wanted.take(i as int),
        decreases services - i,
    {
        let ghost before = out@;
        out.push(app.services_state.key_at(i).clone());
        proof {
            assert(views(out@) =~= views(before).push(wanted[i as int]));
            assert(wanted.take(i + 1) =~= wanted.take(i as int).push(wanted[i as int]));
        }
        i += 1;
    }
    assert(wanted.take(services as int) =~= wanted);
    let tasks: usize = app.tasks_state.len();
    let ghost more = app.tasks_state.order();
    let mut j: usize = 0;
    assert(views(out@) =~= wanted + more.take(0));
    while j < tasks
        invariant
            j <= tasks,
            tasks == more.len(),
            more == app.tasks_state.order(),
            views(out@) == wanted + more.take(j as int),
        decreases tasks - j,
    {
        let ghost before = out@;
        out.push(app.tasks_state.key_at(j).clone());
        proof {
            assert(views(out@) =~= views(before).push(more[j as int]));
            assert(more.take(j + 1) =~= more.take(j as int).push(more[j as int]));
            assert(views(out@) =~= wanted + more.take(j + 1));
        }
        j += 1;
    }
    assert(more.take(tasks as int) =~= more);
    out
}

/// The colours that were handed out, as the screen names them. The last word
/// on a name counts.
pub open spec fn colors_of(assigned: Seq<(String, LogColor)>) -> Map<Seq<char>, Color>
    decreases assigned.len(),
{
    if assigned.len() == 0 {
        Map::empty()
    } else {
        colors_of(assigned.drop_last()).insert(assigned.last().0@, on_screen(assigned.last().1))
    }
}

/// The colours that were handed out to the names of the log, as the screen
/// names them.
pub fn log_name_colors(assigned: &Vec<(String, LogColor)>) -> (r: NameMap<Color>)
    ensures
        r@ == colors_of(assigned@),
{
    let mut out: NameMap<Color> = NameMap::new();
    let mut i: usize = 0;
    assert(assigned@.take(0) =~= Seq::empty());
    while i < assigned.len()
        invariant
            i <= assigned@.len(),
            out@ == colors_of(assigned@.take(i as int)),
        decreases assigned@.len() - i,
    {
        proof {
            assert(assigned@.take(i + 1).drop_last() =~= assigned@.take(i as int));
        }
        out.insert(assigned[i].0.clone(), crossterm_color_to_ratatui(assigned[i].1));
        i += 1;
    }
    assert(assigned@.take(assigned@.len() as int) =~= assigned@);
    out
}

/// A color of the log's own palette stays the color it is: the plain names are
/// the bright ones, and the dark names the plain ones of the screen. A color
/// given by its numbers is kept.
pub proof fn a_color_is_the_same_on_screen(r: u8, g: u8, b: u8)
    ensures
        on_screen(LogColor::Rgb { r, g, b }) == Color::Rgb(r, g, b),
        on_screen(LogColor::AnsiValue(r)) == Color::Indexed(r),
        on_screen(LogColor::DarkRed) == Color::Red,
        on_screen(LogColor::Red) == Color::LightRed,
        on_screen(LogColor::DarkGreen) == Color::Green,
        on_screen(LogColor::Green) == Color::LightGreen,
        on_screen(LogColor::DarkYellow) == Color::Yellow,
        on_screen(LogColor::Yellow) == Color::LightYellow,
        on_screen(LogColor::DarkBlue) == Color::Blue,
        on_screen(LogColor::Blue) == Color::LightBlue,
        on_screen(LogColor::DarkMagenta) == Color::Magenta,
        on_screen(LogColor::Magenta) == Color::LightMagenta,
        on_screen(LogColor::DarkCyan) == Color::Cyan,
        on_screen(LogColor::Cyan) == Color::LightCyan,
        on_screen(LogColor::Black) == Color::Black,
        on_screen(LogColor::White) == Color::White,
        on_screen(LogColor::Reset) == Color::Reset,
        on_screen(LogColor::Grey) == Color::Gray,
        on_screen(LogColor::DarkGrey) == Color::DarkGray,
{
}

/// A name has the color that was last given to it, and one that was given none
/// has none.
pub proof fn a_name_has_its_color(assigned: Seq<(String, LogColor)>, i: int)
    requires
        0 <= i < assigned.len(),
        forall|j: int|
            i < j < assigned.len() ==> (#[trigger] assigned[j]).0@ != assigned[i].0@,
    ensures
        colors_of(assigned).contains_key(assigned[i].0@),
        colors_of(assigned)[assigned[i].0@] == on_screen(assigned[i].1),
    decreases assigned.len(),
{
    let front = assigned.drop_last();
    if i < front.len() {
        assert(front[i] == assigned[i]);
        assert forall|j: int| i < j < front.len() implies (#[trigger] front[j]).0@
            != front[i].0@ by {
            assert(front[j] == assigned[j]);
        }
        a_name_has_its_color(front, i);
        assert(assigned[assigned.len() - 1].0@ != assigned[i].0@);
    }
}

} // verus!
