use don::log_store::{LogStore, StoredLogLine};
use don::logs::RowSource;
use don::marks::BlankMarks;
use don::output::{FormattedLogLine, LogId};
use don::selection::{
    base64_encode, copy_to_clipboard, selected_text, word_at, Point, Selection,
};
use don::view_index::{ViewIndex, ViewKey};

#[test]
fn base64_matches_the_standard_alphabet_and_padding() {
    struct Case {
        input: &'static str,
        want: &'static str,
    }

    let cases = vec![
        Case {
            input: "",
            want: "",
        },
        Case {
            input: "f",
            want: "Zg==",
        },
        Case {
            input: "fo",
            want: "Zm8=",
        },
        Case {
            input: "foo",
            want: "Zm9v",
        },
        Case {
            input: "foob",
            want: "Zm9vYg==",
        },
        Case {
            input: "fooba",
            want: "Zm9vYmE=",
        },
        Case {
            input: "foobar",
            want: "Zm9vYmFy",
        },
    ];

    for case in cases {
        assert_eq!(
            base64_encode(case.input.as_bytes()),
            case.want,
            "input {:?}",
            case.input
        );
    }
}

fn store_of(lines: &[(u64, &str, &str)], width: u16) -> LogStore {
    let mut store = LogStore::with_capacity(100);
    store.reflow(width);
    for (id, name, body) in lines {
        store.push(
            LogId(*id),
            FormattedLogLine {
                name: (*name).to_string(),
                is_lifecycle: false,
                is_verbose: false,
                prefix: format!("{name} | ").into_bytes(),
                bytes: body.as_bytes().to_vec(),
            },
        );
    }
    store
}

fn index_of(store: &LogStore, width: u16, hide: &str) -> ViewIndex {
    let mut index = ViewIndex::new();
    index.sync(
        store,
        ViewKey { width, filter: 0 },
        &BlankMarks::new(),
        |entry: &StoredLogLine| entry.line.name != hide,
    );
    index
}

fn at(id: u64, offset: usize) -> Point {
    Point {
        id: LogId(id),
        offset,
    }
}

fn drag(from: Point, to: Point) -> Selection {
    let mut selection = Selection::default();
    selection.begin(from);
    selection.extend(to);
    selection.finish();
    selection
}

#[test]
fn a_selection_reads_the_same_dragged_either_way() {
    struct Case {
        name: &'static str,
        selection: Selection,
        inside: Vec<Point>,
        outside: Vec<Point>,
    }

    let cases = vec![
        Case {
            name: "within one line",
            selection: drag(at(0, 2), at(0, 5)),
            inside: vec![at(0, 2), at(0, 4)],
            outside: vec![at(0, 1), at(0, 5), at(1, 0)],
        },
        Case {
            name: "dragged back is the same span",
            selection: drag(at(0, 5), at(0, 2)),
            inside: vec![at(0, 2), at(0, 4)],
            outside: vec![at(0, 1), at(0, 5)],
        },
        Case {
            name: "across lines takes everything between",
            selection: drag(at(0, 3), at(2, 1)),
            inside: vec![at(0, 3), at(0, 99), at(1, 0), at(1, 40), at(2, 0)],
            outside: vec![at(0, 2), at(2, 1), at(3, 0)],
        },
        Case {
            name: "a click that never moved is not a selection",
            selection: drag(at(1, 4), at(1, 4)),
            inside: vec![],
            outside: vec![at(1, 4)],
        },
    ];

    for case in cases {
        for point in case.inside {
            assert!(case.selection.contains(point), "{}: {point:?}", case.name);
        }
        for point in case.outside {
            assert!(!case.selection.contains(point), "{}: {point:?}", case.name);
        }
    }
}

#[test]
fn a_selection_survives_everything_that_moves_the_screen() {
    let store = store_of(
        &[
            (0, "api", "the first line"),
            (1, "web", "a line from the other service"),
            (
                2,
                "api",
                "a much longer line that will wrap differently at each width",
            ),
        ],
        40,
    );
    let selection = drag(at(2, 14), at(2, 28));

    struct Case {
        name: &'static str,
        width: u16,
        hide: &'static str,
    }

    for case in [
        Case {
            name: "as laid out",
            width: 40,
            hide: "",
        },
        Case {
            name: "narrower, so the line wraps more",
            width: 24,
            hide: "",
        },
        Case {
            name: "wide enough not to wrap at all",
            width: 200,
            hide: "",
        },
        Case {
            name: "with the other service filtered out",
            width: 40,
            hide: "web",
        },
    ] {
        let mut store = store_of(
            &[
                (0, "api", "the first line"),
                (1, "web", "a line from the other service"),
                (
                    2,
                    "api",
                    "a much longer line that will wrap differently at each width",
                ),
            ],
            case.width,
        );
        store.reflow(case.width);
        let index = index_of(&store, case.width, case.hide);
        assert_eq!(
            selected_text(&selection, &index, &store).as_deref(),
            Some("line that will"),
            "{}",
            case.name
        );
    }
    let _ = store;
}

#[test]
fn the_name_column_is_not_selectable() {
    let store = store_of(&[(0, "api", "hello world")], 40);
    let index = index_of(&store, 40, "");
    let row = RowSource {
        id: LogId(0),
        offset: 0,
        indent: 6,
    };
    assert_eq!(Point::at(row, 0).offset, 0, "the far left is the message");
    assert_eq!(
        Point::at(row, 5).offset,
        0,
        "and so is the last prefix cell"
    );
    assert_eq!(Point::at(row, 6).offset, 0);
    assert_eq!(Point::at(row, 9).offset, 3);

    let whole = drag(Point::at(row, 0), Point::at(row, 100));
    assert_eq!(
        selected_text(&whole, &index, &store).as_deref(),
        Some("hello world"),
        "no prefix in the copy"
    );
}

#[test]
fn a_wrapped_message_is_copied_as_one_line() {
    let store = store_of(&[(0, "api", "one two three four five six seven")], 20);
    let index = index_of(&store, 20, "");
    let all = drag(at(0, 0), at(0, usize::MAX));
    let text = selected_text(&all, &index, &store).unwrap();
    assert_eq!(text, "one two three four five six seven");
    assert!(!text.contains('\n'), "the wrap is not a newline");
}

#[test]
fn a_filtered_out_line_inside_the_span_is_skipped() {
    let store = store_of(
        &[
            (0, "api", "first"),
            (1, "web", "hidden"),
            (2, "api", "second"),
        ],
        40,
    );
    let index = index_of(&store, 40, "web");
    let across = drag(at(0, 0), at(2, usize::MAX));
    assert_eq!(
        selected_text(&across, &index, &store).as_deref(),
        Some("first\nsecond")
    );
}

#[test]
fn word_at_takes_whole_words_out_of_the_message() {
    struct Case {
        name: &'static str,
        message: &'static str,
        at: &'static str,
        want: Option<&'static str>,
    }

    let json =
        r#"level=info msg={"name":"redo-analytics","count":42,"path":"/foo/bar"} took=14ms"#;

    for case in [
        Case {
            name: "a json key",
            message: json,
            at: "name",
            want: Some("name"),
        },
        Case {
            name: "a json string value keeps its hyphen",
            message: json,
            at: "redo-analytics",
            want: Some("redo-analytics"),
        },
        Case {
            name: "an unquoted json value leaves the colon behind",
            message: json,
            at: "42",
            want: Some("42"),
        },
        Case {
            name: "a path inside json is still one word",
            message: json,
            at: "/foo/bar",
            want: Some("/foo/bar"),
        },
        Case {
            name: "an equals splits a key from its value",
            message: json,
            at: "info",
            want: Some("info"),
        },
        Case {
            name: "a duration keeps its unit",
            message: json,
            at: "14ms",
            want: Some("14ms"),
        },
        Case {
            name: "a path is one word",
            message: "GET /api/v1/users 200 14ms",
            at: "/api/v1/users",
            want: Some("/api/v1/users"),
        },
        Case {
            name: "from the first character of one",
            message: "GET /api/v1/users 200 14ms",
            at: "GET",
            want: Some("GET"),
        },
        Case {
            name: "a bazel label keeps its colon",
            message: "building //tools/nodejs:install now",
            at: "//tools",
            want: Some("//tools/nodejs:install"),
        },
        Case {
            name: "a host and port stay together",
            message: "listening on 127.0.0.1:8080",
            at: "127",
            want: Some("127.0.0.1:8080"),
        },
        Case {
            name: "a version keeps its dots",
            message: "don v1.2.3-rc.1 starting",
            at: "v1",
            want: Some("v1.2.3-rc.1"),
        },
        Case {
            name: "a full stop is not part of the word it follows",
            message: "build completed.",
            at: "completed",
            want: Some("completed"),
        },
        Case {
            name: "a bracketed level comes out without its brackets",
            message: "[INFO] ready",
            at: "INFO",
            want: Some("INFO"),
        },
        Case {
            name: "whitespace selects nothing",
            message: "GET /api/v1/users",
            at: " /api",
            want: None,
        },
        Case {
            name: "punctuation comes back as its own run",
            message: r#"{"a":1}"#,
            at: r#"{"#,
            want: Some(r#"{""#),
        },
        Case {
            name: "a quote and the colon beside it are one run",
            message: r#"{"key":42}"#,
            at: r#"":4"#,
            want: Some(r#"":"#),
        },
        Case {
            name: "a full stop on its own is punctuation, not a word",
            message: "build completed.",
            at: ".",
            want: Some("."),
        },
        Case {
            name: "an opening bracket is one character wide",
            message: "[INFO] ready",
            at: "[",
            want: Some("["),
        },
    ] {
        let byte = case.message.find(case.at).expect(case.name);
        let offset = case.message[..byte].chars().count();
        let got = word_at(case.message, offset).map(|(start, end)| {
            case.message
                .chars()
                .skip(start)
                .take(end - start)
                .collect::<String>()
        });
        assert_eq!(got.as_deref(), case.want, "{}", case.name);
    }
}

#[test]
fn word_at_past_the_end_selects_nothing() {
    assert_eq!(word_at("GET /api", 500), None);
    assert_eq!(word_at("", 0), None);
}

#[test]
fn a_copy_is_one_request_to_the_terminal() {
    assert_eq!(copy_to_clipboard("foo"), "\u{1b}]52;c;Zm9v\u{7}");
    assert_eq!(copy_to_clipboard(""), "\u{1b}]52;c;\u{7}");
    assert_eq!(base64_encode("ä".as_bytes()), "w6Q=");
}

#[test]
fn a_cleared_selection_covers_nothing() {
    let mut selection = drag(at(0, 0), at(3, 1));
    assert!(!selection.is_empty());
    assert!(at(0, 5).is_before(at(1, 0)));
    selection.clear();
    assert!(selection.is_empty());
    assert_eq!(selection.span(), None);
    assert!(!selection.contains(at(1, 0)));
}

#[test]
fn a_copy_survives_a_narrower_pane() {
    let lines = [(1, "api │ ", "first line of it"), (2, "api │ ", "second")];
    let selection = drag(Point { id: LogId(1), offset: 6 }, Point { id: LogId(2), offset: 3 });
    let mut copies = Vec::new();
    for width in [80, 12] {
        let store = store_of(&lines, width);
        let mut index = ViewIndex::new();
        let key = ViewKey { width, filter: 0 };
        index.sync(&store, key, &BlankMarks::new(), |_: &StoredLogLine| true);
        copies.push(selected_text(&selection, &index, &store));
    }
    assert_eq!(copies[0].as_deref(), Some("line of it\nsec"));
    assert_eq!(copies[0], copies[1]);
    assert!(selection.contains(Point { id: LogId(1), offset: 6 }), "what is copied is lit");
    assert!(!selection.contains(Point { id: LogId(1), offset: 5 }));
    assert!(!selection.contains(Point { id: LogId(2), offset: 3 }));
}
