use don::app::{App, AppInit};
use don::attach::{AttachView, CellColor, Grid, GridCell, WindowRect};
use don::attach_view::{attach_frame, attached_process_state, cell_style, AttachBody};
use don::client::{ServiceState, TaskState};
use don::names::{NameMap, NameSet};
use don::panes::Rect;
use don::style::{Color, Style, BOLD, REVERSED};

fn app() -> App {
    App::new(AppInit {
        service_names: vec!["api".to_string()],
        task_names: vec!["seed".to_string()],
        build_tool_names: Vec::new(),
        task_configs: NameMap::new(),
        task_last_runs: NameMap::new(),
        hidden_names: NameSet::new(),
        auto_filter_on_failure_names: NameSet::new(),
        cli_log_filter: None,
    })
}

fn cell(text: &str) -> GridCell {
    GridCell {
        text: text.to_string(),
        fg: CellColor::Default,
        bg: CellColor::Default,
        bold: false,
        faint: false,
        italic: false,
        underline: false,
        inverse: false,
        strikethrough: false,
    }
}

fn attached(grid: Option<Grid>, ended: bool) -> App {
    let mut app = app();
    app.attach = Some(AttachView {
        name: "seed".to_string(),
        window: WindowRect { x: 4, y: 2, width: 4, height: 3 },
        grid,
        ended,
    });
    app
}

#[test]
fn a_cell_keeps_its_colours_and_emphasis() {
    let mut shown = cell("x");
    assert_eq!(cell_style(&shown), Style::new());
    shown.fg = CellColor::Palette(208);
    shown.bg = CellColor::Rgb(1, 2, 3);
    shown.bold = true;
    shown.inverse = true;
    let style = cell_style(&shown);
    assert_eq!(style.fg, Some(Color::Indexed(208)));
    assert_eq!(style.bg, Some(Color::Rgb(1, 2, 3)));
    assert_eq!(style.add_modifier, BOLD | REVERSED);
}

#[test]
fn no_window_is_drawn_without_one() {
    assert!(attach_frame(&app()).is_none());
    let frame = attach_frame(&attached(None, false)).unwrap();
    assert_eq!(frame.area, Rect { x: 4, y: 2, width: 4, height: 3 });
    assert_eq!(frame.inside, Rect { x: 5, y: 3, width: 2, height: 1 });
    assert_eq!(frame.title, " seed — [^D] detach ");
    assert!(matches!(frame.body, AttachBody::Connecting));
}

#[test]
fn only_what_fits_inside_the_border_is_painted() {
    let cells = ["a", "b", "c", "d", "e", "f"].iter().map(|text| cell(text)).collect();
    let grid = Grid { cols: 3, rows: 2, cells, cursor: (1, 0), cursor_visible: true };
    match attach_frame(&attached(Some(grid), false)).unwrap().body {
        AttachBody::Screen { cells, cursor } => {
            let texts: Vec<(u16, u16, &str)> =
                cells.iter().map(|cell| (cell.column, cell.row, cell.text.as_str())).collect();
            assert_eq!(texts, [(0, 0, "a"), (1, 0, "b")]);
            assert_eq!(cursor, Some((1, 0)), "counted from inside the border");
        }
        AttachBody::Connecting => panic!("a screen has arrived"),
    }
}

#[test]
fn a_cursor_outside_the_window_is_not_shown() {
    let cells = || ["a", "b", "c"].iter().map(|text| cell(text)).collect::<Vec<GridCell>>();
    for (cursor, visible) in [((2, 0), true), ((0, 1), true), ((0, 0), false)] {
        let grid = Grid { cols: 3, rows: 1, cells: cells(), cursor, cursor_visible: visible };
        match attach_frame(&attached(Some(grid), false)).unwrap().body {
            AttachBody::Screen { cursor, .. } => assert_eq!(cursor, None),
            AttachBody::Connecting => panic!("a screen has arrived"),
        }
    }
}

#[test]
fn an_ended_window_says_what_became_of_its_process() {
    let mut app = attached(None, true);
    app.tasks_state.insert("seed".to_string(), TaskState::Failed);
    assert_eq!(attached_process_state(&app, "seed"), "failed");
    assert_eq!(attach_frame(&app).unwrap().title, " seed — failed · any key dismisses ");
    app.services_state.insert("api".to_string(), ServiceState::Stopped);
    assert_eq!(attached_process_state(&app, "api"), "stopped");
    assert_eq!(attached_process_state(&app, "gone"), "ended");
}
