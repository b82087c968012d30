use don::log_store::LogStore;
use don::output::{FormattedLogLine, LogId};
use don::style::Color;

fn line(name: &str, body: &str) -> FormattedLogLine {
    FormattedLogLine {
        name: name.to_string(),
        is_lifecycle: false,
        is_verbose: false,
        prefix: Vec::new(),
        bytes: body.as_bytes().to_vec(),
    }
}

#[test]
fn a_stream_line_never_lands_on_top_of_a_local_blank() {
    let mut store = LogStore::with_capacity(10);
    store.reflow(80);
    store.push(LogId(0), line("api", "first"));

    let marked = store.latest_id().unwrap();
    assert_eq!(marked, LogId(0));
    assert_eq!(store.next_id(), LogId(1), "the mark takes no id");

    store.push(LogId(1), line("api", "second"));
    let got: Vec<String> = store
        .iter()
        .into_iter()
        .map(|entry| String::from_utf8_lossy(&entry.line.bytes).into_owned())
        .collect();
    assert_eq!(got, vec!["first", "second"], "both lines survive");
    assert_eq!(
        store.get(LogId(1)).map(|e| e.id),
        Some(LogId(1)),
        "and each id still resolves to its own line"
    );
}

#[test]
fn a_pin_holds_history_where_the_reader_is() {
    struct Case {
        name: &'static str,
        capacity: usize,
        pin: Option<u64>,
        pushes: u64,
        want_oldest: u64,
        want_len: usize,
    }

    let cases = [
        Case {
            name: "following evicts as usual",
            capacity: 10,
            pin: None,
            pushes: 30,
            want_oldest: 20,
            want_len: 10,
        },
        Case {
            name: "a pin holds everything from it onward",
            capacity: 10,
            pin: Some(15),
            pushes: 30,
            want_oldest: 15,
            want_len: 15,
        },
        Case {
            name: "a pin ahead of the normal window is a no-op",
            capacity: 10,
            pin: Some(25),
            pushes: 30,
            want_oldest: 20,
            want_len: 10,
        },
        Case {
            name: "the overdraft is bounded",
            capacity: 10,
            pin: Some(0),
            pushes: 100,
            want_oldest: 80,
            want_len: 20,
        },
    ];

    for case in cases {
        let mut store = LogStore::with_capacity(case.capacity);
        store.reflow(80);
        store.set_pin(case.pin.map(LogId));
        for id in 0..case.pushes {
            store.push(LogId(id), line("svc", "a line of output"));
        }
        assert_eq!(
            store.oldest_id(),
            Some(LogId(case.want_oldest)),
            "{}: oldest retained",
            case.name
        );
        assert_eq!(store.len(), case.want_len, "{}: retained count", case.name);
    }
}

#[test]
fn clearing_the_pin_drains_the_overdraft() {
    let mut store = LogStore::with_capacity(10);
    store.reflow(80);
    store.set_pin(Some(LogId(0)));
    for id in 0..20 {
        store.push(LogId(id), line("svc", "x"));
    }
    assert_eq!(store.len(), 20, "held while pinned");

    store.set_pin(None);
    store.push(LogId(20), line("svc", "x"));
    assert_eq!(store.len(), 10, "back to capacity once the reader follows");
}

#[test]
fn push_grows_length_up_to_capacity() {
    let mut store = LogStore::with_capacity(10);
    store.push(LogId(0), line("a", "first"));
    store.push(LogId(1), line("b", "second"));
    store.push(LogId(2), line("a", "third"));
    assert_eq!(store.len(), 3);
}

#[test]
fn push_at_capacity_evicts_oldest() {
    let mut store = LogStore::with_capacity(3);
    for id in 0..4 {
        store.push(LogId(id), line("a", "x"));
    }
    assert_eq!(store.len(), 3);
    assert_eq!(
        store.iter().into_iter().next().map(|entry| entry.id),
        Some(LogId(1)),
        "the oldest goes first"
    );
}

#[test]
fn zero_capacity_drops_every_push() {
    let mut store = LogStore::with_capacity(0);
    store.push(LogId(0), line("a", "1"));
    store.push(LogId(1), line("a", "2"));
    assert_eq!(store.len(), 0);
}

#[test]
fn stored_ids_are_the_streams_own() {
    let mut store = LogStore::with_capacity(10);
    assert_eq!(store.latest_id(), None);
    assert_eq!(store.next_id(), LogId(0));

    store.push(LogId(500), line("a", "resumed"));
    assert_eq!(store.latest_id(), Some(LogId(500)));
    assert_eq!(store.next_id(), LogId(501));

    store.push(LogId(900), line("a", "after a drop"));
    assert_eq!(store.latest_id(), Some(LogId(900)));
    assert_eq!(store.iter().len(), 2, "both survive; ids simply skip");
}

#[test]
fn row_counts_track_the_wrap_width() {
    struct Case {
        name: &'static str,
        width: u16,
        want_rows: usize,
    }

    let cases = vec![
        Case {
            name: "wide enough for one row",
            width: 40,
            want_rows: 1,
        },
        Case {
            name: "half the width doubles it",
            width: 10,
            want_rows: 2,
        },
        Case {
            name: "a quarter quadruples it",
            width: 5,
            want_rows: 4,
        },
    ];

    for case in cases {
        let mut store = LogStore::with_capacity(10);
        store.reflow(case.width);
        store.push(LogId(0), line("a", "12345678901234567890"));
        assert_eq!(
            store.iter().into_iter().next().unwrap().wrapped_rows(),
            case.want_rows,
            "{}: at push",
            case.name
        );

        let mut later = LogStore::with_capacity(10);
        later.push(LogId(0), line("a", "12345678901234567890"));
        later.reflow(case.width);
        assert_eq!(
            later.iter().into_iter().next().unwrap().wrapped_rows(),
            case.want_rows,
            "{}: after reflow",
            case.name
        );
    }
}

#[test]
fn ansi_is_parsed_into_styles_at_push() {
    let mut store = LogStore::with_capacity(10);
    store.push(LogId(0), line("a", "\x1b[31mred\x1b[0m plain"));
    let entry = store.iter().into_iter().next().unwrap();
    assert!(
        entry.parsed.spans.len() >= 2,
        "the escape should have split the line into styled spans"
    );
    assert_eq!(
        entry.parsed.spans[0].style.fg,
        Some(Color::Red),
        "and the colour should have survived"
    );
}

#[test]
fn the_name_column_is_kept_apart_from_the_message() {
    let mut store = LogStore::with_capacity(2);
    store.reflow(80);
    store.push(
        LogId(3),
        FormattedLogLine {
            name: "api".to_string(),
            is_lifecycle: false,
            is_verbose: false,
            prefix: b"\x1b[36mapi\x1b[0m | ".to_vec(),
            bytes: b"a \x1b[31mred\x1b[0m word".to_vec(),
        },
    );
    let entry = store.get(LogId(3)).unwrap();
    assert_eq!(entry.message_text(), "a red word");
    assert_eq!(entry.prefix_cols(), 6);
    assert_eq!(entry.parsed.text(), "api | a red word");
}

#[test]
fn lines_are_found_from_where_they_were_left() {
    let mut store = LogStore::with_capacity(10);
    for id in [2, 4, 6] {
        store.push(LogId(id), line("a", "x"));
    }
    let ids = |from: u64| -> Vec<u64> {
        store.iter_from(LogId(from)).into_iter().map(|entry| entry.id.0).collect()
    };
    assert_eq!(ids(0), vec![2, 4, 6]);
    assert_eq!(ids(3), vec![4, 6]);
    assert_eq!(ids(6), vec![6]);
    assert!(ids(7).is_empty());
    assert!(store.get(LogId(3)).is_none());
}
