use don::log_store::{LogStore, StoredLogLine};
use don::logs::{
    anchor_at, build_view, count_wrapped_rows, resolve_scroll, wrap_line, PendingScroll, Scroll,
};
use don::marks::BlankMarks;
use don::output::{FormattedLogLine, LogId};
use don::style::{Color, Line, Span, Style};
use don::view_index::{ViewIndex, ViewKey};
use std::collections::hash_map::DefaultHasher;
use std::collections::HashMap;
use std::hash::{Hash, Hasher};

fn no_marks() -> BlankMarks {
    BlankMarks::new()
}

fn raw(text: &str) -> Span {
    Span::styled(text.to_string(), Style::new())
}

fn styled(text: &str) -> Line {
    Line { spans: vec![raw(text)] }
}

fn row_text(line: &Line) -> String {
    line.text()
}

#[test]
fn the_view_draws_only_what_the_filter_admits() {
    let mut store = LogStore::with_capacity(100);
    store.reflow(40);
    for (id, name, body) in [
        (0u64, "api", "api one"),
        (1, "web", "web one"),
        (2, "api", "api two"),
        (3, "web", "web two"),
    ] {
        store.push(
            LogId(id),
            FormattedLogLine {
                name: name.to_string(),
                is_lifecycle: false,
                is_verbose: false,
                prefix: Vec::new(),
                bytes: body.as_bytes().to_vec(),
            },
        );
    }
    let mut index = ViewIndex::new();
    index.sync(
        &store,
        ViewKey {
            width: 40,
            filter: 0,
        },
        &no_marks(),
        |entry: &StoredLogLine| entry.line.name == "api",
    );

    let view = build_view(&store, &index, &no_marks(), Scroll::Follow, 40, 10);
    let text: Vec<String> = view.rows.iter().map(row_text).collect();
    assert_eq!(
        text,
        vec!["api one".to_string(), "api two".to_string()],
        "the pane drew lines the filter excludes"
    );
}

#[test]
fn a_scroll_resolves_against_the_view_that_exists_now() {
    let mut store = LogStore::with_capacity(1000);
    store.reflow(40);
    for id in 0..600u64 {
        store.push(
            LogId(id),
            FormattedLogLine {
                name: "api".to_string(),
                is_lifecycle: false,
                is_verbose: id % 2 == 0,
                prefix: b"api | ".to_vec(),
                bytes: b"a line".to_vec(),
            },
        );
    }

    let height = 20u16;
    let quiet = |entry: &StoredLogLine| !entry.line.is_verbose;

    let mut index = ViewIndex::new();
    index.sync(&store, key_for(0), &no_marks(), |_: &StoredLogLine| true);
    assert_eq!(index.total_rows(), 600);

    index.sync(&store, key_for(1), &no_marks(), quiet);
    assert_eq!(index.total_rows(), 300);

    let up_once = PendingScroll {
        rows: -1,
        ..PendingScroll::default()
    };
    let scroll = resolve_scroll(&index, Scroll::Follow, up_once, height);

    let view = build_view(&store, &index, &no_marks(), scroll, 40, height);
    assert_eq!(
        view.rows_above, 279,
        "one arrow key moves one row in the view that exists now"
    );
}

fn key_for(filter: u64) -> ViewKey {
    ViewKey { width: 40, filter }
}

#[test]
fn wrapping_indents_under_the_message_column() {
    struct Case {
        name: &'static str,
        input: &'static str,
        prefix: usize,
        width: u16,
        want: Vec<&'static str>,
    }

    let cases = vec![
        Case {
            name: "a continuation lines up under the message",
            input: "api | abcdefghijkl",
            prefix: 6,
            width: 12,
            want: vec!["api | abcdef", "    │ ghijkl"],
        },
        Case {
            name: "three rows keep the same indent",
            input: "api | abcdefghijklmnopqr",
            prefix: 6,
            width: 12,
            want: vec!["api | abcdef", "    │ ghijkl", "    │ mnopqr"],
        },
        Case {
            name: "a short line is one row and is not padded out",
            input: "api | hi",
            prefix: 6,
            width: 12,
            want: vec!["api | hi"],
        },
        Case {
            name: "no prefix means no column, and it wraps full width",
            input: "abcdefghijklmn",
            prefix: 0,
            width: 12,
            want: vec!["abcdefghijkl", "mn"],
        },
        Case {
            name: "a pane too narrow for the column falls back to full width",
            input: "api | abcdef",
            prefix: 6,
            width: 6,
            want: vec!["api | ", "abcdef"],
        },
    ];

    for case in cases {
        let line = styled(case.input);
        let prefix = case.prefix;
        let rows = wrap_line(&line, prefix, case.width);
        let got: Vec<String> = rows.iter().map(row_text).collect();
        assert_eq!(got, case.want, "{}", case.name);
        assert_eq!(
            count_wrapped_rows(&line, prefix, case.width),
            rows.len(),
            "{}: the count must match what the wrap produced",
            case.name
        );
    }
}

#[test]
fn wrapping_splits_at_the_pane_width() {
    struct Case {
        name: &'static str,
        input: &'static str,
        width: u16,
        want: Vec<&'static str>,
    }

    let cases = vec![
        Case {
            name: "a line that fits is one row",
            input: "short",
            width: 10,
            want: vec!["short"],
        },
        Case {
            name: "an exact fit does not spill into an empty row",
            input: "exactly10!",
            width: 10,
            want: vec!["exactly10!"],
        },
        Case {
            name: "a long line splits at the width",
            input: "abcdefghij",
            width: 4,
            want: vec!["abcd", "efgh", "ij"],
        },
        Case {
            name: "an empty line still occupies a row",
            input: "",
            width: 10,
            want: vec![""],
        },
        Case {
            name: "width of one degrades rather than looping",
            input: "abc",
            width: 1,
            want: vec!["a", "b", "c"],
        },
    ];

    for case in cases {
        let rows = wrap_line(&styled(case.input), 0, case.width);
        let got: Vec<String> = rows.iter().map(row_text).collect();
        assert_eq!(got, case.want, "{}", case.name);
    }
}

#[test]
fn wrapping_counts_characters_not_bytes() {
    let rows = wrap_line(&styled("äöüßé"), 0, 2);
    let got: Vec<String> = rows.iter().map(row_text).collect();
    assert_eq!(got, vec!["äö", "üß", "é"]);
}

#[test]
fn wrapping_preserves_span_styles() {
    let line = Line { spans: vec![
        Span::styled(
            "red".to_string(),
            Style::new().fg(Color::Red),
        ),
        Span::styled(
            "blue".to_string(),
            Style::new().fg(Color::Blue),
        ),
    ] };
    let rows = wrap_line(&line, 0, 4);
    assert_eq!(rows.len(), 2, "7 columns over a width of 4");
    assert_eq!(
        rows[0].spans[0].style.fg,
        Some(Color::Red),
        "the first row keeps its colour"
    );
    assert_eq!(
        rows[1].spans.last().unwrap().style.fg,
        Some(Color::Blue),
        "and so does the second"
    );
}

#[test]
fn counting_rows_agrees_with_actually_wrapping() {
    struct Case {
        name: &'static str,
        spans: Vec<&'static str>,
        width: u16,
    }

    let cases = vec![
        Case {
            name: "empty",
            spans: vec![],
            width: 20,
        },
        Case {
            name: "one empty span",
            spans: vec![""],
            width: 20,
        },
        Case {
            name: "fits",
            spans: vec!["short"],
            width: 20,
        },
        Case {
            name: "exact fit",
            spans: vec!["exactly10!"],
            width: 10,
        },
        Case {
            name: "one over",
            spans: vec!["exactly10!x"],
            width: 10,
        },
        Case {
            name: "several rows",
            spans: vec!["abcdefghijklmnopqrst"],
            width: 4,
        },
        Case {
            name: "split across spans",
            spans: vec!["abc", "defgh", "ij"],
            width: 4,
        },
        Case {
            name: "multibyte",
            spans: vec!["äöüßé", "àèìòù"],
            width: 3,
        },
        Case {
            name: "width of one",
            spans: vec!["abcde"],
            width: 1,
        },
        Case {
            name: "a span boundary landing exactly on the width",
            spans: vec!["abcd", "efgh"],
            width: 4,
        },
    ];

    for case in cases {
        let line = Line { spans: case.spans.iter().map(|text| raw(text)).collect() };
        for prefix in [0, 6] {
            assert_eq!(
                count_wrapped_rows(&line, prefix, case.width),
                wrap_line(&line, prefix, case.width).len(),
                "{} (prefix {prefix})",
                case.name
            );
        }
    }
}

#[test]
fn what_is_drawn_matches_what_the_index_counted() {
    let mut seed = 0x5eed_1234_u64;
    let mut roll = move |n: usize| {
        seed = seed
            .wrapping_mul(6364136223846793005)
            .wrapping_add(1442695040888963407);
        ((seed >> 33) as usize) % n.max(1)
    };

    let mut store = LogStore::with_capacity(32);
    let mut index = ViewIndex::new();
    let mut blanks = BlankMarks::new();
    let mut marked: HashMap<LogId, u16> = HashMap::new();
    let mut width = 40u16;
    let height = 12u16;
    let mut hide_web = false;
    let mut next_id = 0u64;
    let mut scroll = Scroll::Follow;

    for step in 0..300 {
        match roll(10) {
            0 => width = [20u16, 33, 40, 61, 80][roll(5)],
            1 => hide_web = !hide_web,
            _ => {}
        }
        for _ in 0..roll(4) {
            let body = "x".repeat(1 + roll(90));
            let name = if roll(2) == 0 { "api" } else { "web" };
            store.push(
                LogId(next_id),
                FormattedLogLine {
                    name: name.to_string(),
                    is_lifecycle: false,
                    is_verbose: false,
                    prefix: format!("{name:<5}│ ").into_bytes(),
                    bytes: body.into_bytes(),
                },
            );
            next_id += 1;
        }
        store.reflow(width);
        store.set_pin(scroll.anchor());

        let admits = |entry: &StoredLogLine| {
            !(hide_web && entry.line.name == "web")
        };
        let mut hasher = DefaultHasher::new();
        hide_web.hash(&mut hasher);
        let mut marks = 0u64;
        for mark in &marked {
            let mut one = DefaultHasher::new();
            mark.hash(&mut one);
            marks = marks.wrapping_add(Hasher::finish(&one));
        }
        marks.hash(&mut hasher);
        let key = ViewKey {
            width,
            filter: hasher.finish(),
        };
        index.sync(&store, key, &blanks, admits);

        let naive: usize = store
            .iter()
            .into_iter()
            .filter(|entry| admits(entry))
            .map(|entry| {
                entry.wrapped_rows().max(1)
                    + usize::from(marked.get(&entry.id).copied().unwrap_or(0))
            })
            .sum();
        assert_eq!(
            index.total_rows(),
            naive,
            "step {step}: index total vs walking the store"
        );

        let view = build_view(&store, &index, &blanks, scroll, width, height);
        assert_eq!(
            view.total_rows, naive,
            "step {step}: the view reports the index's total"
        );
        assert_eq!(
            view.rows.len(),
            view.row_sources.len(),
            "step {step}: a row id per row"
        );
        let expected = view
            .total_rows
            .saturating_sub(view.rows_above)
            .min(height as usize);
        assert_eq!(
            view.rows.len(),
            expected,
            "step {step}: rows drawn vs rows the index placed \
             (width {width}, above {}, total {})",
            view.rows_above,
            view.total_rows
        );

        match roll(6) {
            0 => scroll = Scroll::Follow,
            1 => scroll = anchor_at(&index, roll(view.total_rows.max(1))),
            2 => {
                if let Some(id) = view.row_sources.last().map(|s| s.id) {
                    let count = marked.entry(id).or_insert(0);
                    *count = count.saturating_add(1);
                    blanks.mark(id);
                    assert_eq!(blanks.count(id), *count);
                }
            }
            3 => {
                let pending = PendingScroll {
                    rows: (roll(21) as isize) - 10,
                    ..Default::default()
                };
                scroll = resolve_scroll(&index, scroll, pending, height);
            }
            _ => {}
        }
    }
}

#[test]
fn asking_nothing_of_the_scroll_leaves_it_where_it_is() {
    let index = ViewIndex::new();
    let held = Scroll::At { id: LogId(9), row: 2 };
    assert!(PendingScroll::default().is_empty());
    assert_eq!(resolve_scroll(&index, held, PendingScroll::default(), 10), held);
    assert_eq!(
        resolve_scroll(&index, Scroll::Follow, PendingScroll::default(), 10),
        Scroll::Follow
    );
}

#[test]
fn marks_on_lines_that_are_gone_are_forgotten() {
    let mut marks = BlankMarks::new();
    marks.mark(LogId(1));
    marks.mark(LogId(5));
    marks.mark(LogId(5));
    marks.prune(Some(LogId(3)));
    assert_eq!((marks.count(LogId(1)), marks.count(LogId(5))), (0, 2));
    marks.prune(None);
    assert_eq!(marks.count(LogId(5)), 0);
}

fn numbered_store(lines: &[(u64, &str)]) -> LogStore {
    let mut store = LogStore::with_capacity(100);
    store.reflow(10);
    for (id, body) in lines {
        store.push(
            LogId(*id),
            FormattedLogLine {
                name: "api".to_string(),
                is_lifecycle: false,
                is_verbose: false,
                prefix: Vec::new(),
                bytes: body.as_bytes().to_vec(),
            },
        );
    }
    store
}

#[test]
fn a_gap_notice_and_the_line_after_it_are_both_drawn() {
    let store = numbered_store(&[(1, "before"), (45, "dropped"), (45, "after the hole"), (46, "on")]);
    let mut index = ViewIndex::new();
    index.sync(&store, key_for(0), &no_marks(), |_: &StoredLogLine| true);
    let view = build_view(&store, &index, &no_marks(), Scroll::Follow, 10, 10);
    let drawn: Vec<String> = view.rows.iter().map(row_text).collect();
    assert_eq!(drawn, vec!["before", "dropped", "after the ", "hole", "on"]);
    let ids: Vec<u64> = view.row_sources.iter().map(|source| source.id.0).collect();
    assert_eq!(ids, vec![1, 45, 45, 45, 46]);
    assert_eq!(view.total_rows, 5);
}

#[test]
fn an_anchor_on_the_line_after_a_gap_holds_its_row() {
    let store = numbered_store(&[(1, "before"), (45, "dropped"), (45, "after the hole"), (46, "on")]);
    let mut index = ViewIndex::new();
    index.sync(&store, key_for(0), &no_marks(), |_: &StoredLogLine| true);
    for top in 0..4 {
        let anchor = anchor_at(&index, top);
        let view = build_view(&store, &index, &no_marks(), anchor, 10, 1);
        assert_eq!(view.rows_above, top);
        assert_eq!(view.rows.len(), 1);
    }
}
