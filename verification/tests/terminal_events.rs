use don::keys::{
    translate, AppEvent, KeyCode, KeyEvent, MouseEvent, MouseEventKind, TerminalEvent,
};

fn press(code: KeyCode) -> TerminalEvent {
    TerminalEvent::Key { key: KeyEvent::plain(code), released: false }
}

#[test]
fn translate_key_press_forwards() {
    let got = translate(press(KeyCode::Enter), 0);
    assert!(matches!(got, Some(AppEvent::Key(_))));
}

#[test]
fn translate_key_release_dropped() {
    let release = TerminalEvent::Key { key: KeyEvent::plain(KeyCode::Enter), released: true };
    assert!(translate(release, 0).is_none());
}

#[test]
fn translate_resize_becomes_resize_variant() {
    assert!(matches!(translate(TerminalEvent::Resize, 0), Some(AppEvent::Resize)));
}

#[test]
fn bare_motion_dropped_drags_forwarded() {
    let moved = TerminalEvent::Mouse(MouseEvent {
        kind: MouseEventKind::Moved,
        column: 10,
        row: 5,
    });
    assert!(translate(moved, 0).is_none());

    let drag = TerminalEvent::Mouse(MouseEvent {
        kind: MouseEventKind::DragLeft,
        column: 1,
        row: 1,
    });
    assert!(translate(drag, 0).is_some());
}

#[test]
fn a_click_carries_the_moment_it_landed() {
    let down = TerminalEvent::Mouse(MouseEvent {
        kind: MouseEventKind::DownLeft,
        column: 3,
        row: 4,
    });
    match translate(down, 77) {
        Some(AppEvent::Mouse(mouse, at)) => {
            assert_eq!((mouse.column, mouse.row, at), (3, 4, 77));
        }
        _ => panic!("a click is forwarded"),
    }
    assert!(translate(TerminalEvent::Other, 77).is_none());
}
