use don::log_store::{LogStore, StoredLogLine};
use don::marks::BlankMarks;
use don::output::{FormattedLogLine, LogId};
use don::view_index::{ViewIndex, ViewKey};

fn no_marks() -> BlankMarks {
    BlankMarks::new()
}

fn store_of(lines: &[(u64, &str, &str)], width: u16) -> LogStore {
    let mut store = LogStore::with_capacity(100);
    store.reflow(width);
    for (id, name, body) in lines {
        store.push(
            LogId(*id),
            FormattedLogLine {
                name: (*name).to_string(),
                is_lifecycle: false,
                is_verbose: false,
                prefix: Vec::new(),
                bytes: body.as_bytes().to_vec(),
            },
        );
    }
    store
}

fn key(width: u16, filter: u64) -> ViewKey {
    ViewKey { width, filter }
}

#[test]
fn the_index_agrees_with_walking_the_store() {
    let store = store_of(
        &[
            (0, "api", "aaaaaaaaaaaaaaa"),
            (1, "web", "b"),
            (2, "api", "ccccccccccccccccccccccccc"),
            (3, "web", "d"),
        ],
        10,
    );
    let admits = |entry: &StoredLogLine| entry.line.name == "api";

    let mut index = ViewIndex::new();
    index.sync(&store, key(10, 0), &no_marks(), admits);

    assert_eq!(index.total_rows(), 5);
    assert_eq!(index.rows_above(LogId(0)), Some(0));
    assert_eq!(index.rows_above(LogId(2)), Some(2));
    assert_eq!(
        index.rows_above(LogId(1)),
        Some(2),
        "rounds up to the next admitted line"
    );

    assert_eq!(index.line_at(0), Some((LogId(0), 0)));
    assert_eq!(index.line_at(1), Some((LogId(0), 1)));
    assert_eq!(index.line_at(2), Some((LogId(2), 0)));
    assert_eq!(index.line_at(4), Some((LogId(2), 2)));
}

#[test]
fn mending_matches_rebuilding() {
    let admits = |entry: &StoredLogLine| entry.line.name != "quiet";
    let mut mended = ViewIndex::new();

    let mut store = LogStore::with_capacity(6);
    store.reflow(12);
    for step in 0..12u64 {
        let name = if step % 3 == 0 { "quiet" } else { "loud" };
        store.push(
            LogId(step),
            FormattedLogLine {
                name: name.to_string(),
                is_lifecycle: false,
                is_verbose: false,
                prefix: Vec::new(),
                bytes: "x".repeat(1 + (step as usize % 4) * 9).into_bytes(),
            },
        );
        mended.sync(&store, key(12, 0), &no_marks(), admits);

        let mut fresh = ViewIndex::new();
        fresh.sync(&store, key(12, 1), &no_marks(), admits);

        assert_eq!(
            mended.total_rows(),
            fresh.total_rows(),
            "total rows after {step} pushes (capacity forces eviction)"
        );
        for offset in 0..fresh.total_rows() {
            assert_eq!(
                mended.line_at(offset),
                fresh.line_at(offset),
                "row {offset} after {step} pushes"
            );
        }
    }
}

#[test]
fn a_changed_key_rebuilds() {
    let store = store_of(&[(0, "api", "aaaaaaaaaaaaaaa"), (1, "web", "bbb")], 10);
    let mut index = ViewIndex::new();

    index.sync(&store, key(10, 0), &no_marks(), |e: &StoredLogLine| e.line.name == "api");
    assert_eq!(index.total_rows(), 2);

    index.sync(&store, key(10, 1), &no_marks(), |_: &StoredLogLine| true);
    assert_eq!(index.total_rows(), 3, "web's single row joins");

    let mut wide = store_of(&[(0, "api", "aaaaaaaaaaaaaaa"), (1, "web", "bbb")], 40);
    wide.reflow(40);
    index.sync(&wide, key(40, 1), &no_marks(), |_: &StoredLogLine| true);
    assert_eq!(index.total_rows(), 2, "one row each at 40 columns");
}

#[test]
fn an_empty_index_places_nothing() {
    let index = ViewIndex::new();
    assert_eq!(index.total_rows(), 0);
    assert_eq!(index.line_at(0), None);
    assert!(index.ids_from(LogId(0)).is_empty());
}

#[test]
fn the_lines_below_a_place_are_listed_in_order() {
    let store = store_of(&[(0, "api", "a"), (1, "web", "b"), (2, "api", "c")], 10);
    let mut index = ViewIndex::new();
    index.sync(&store, key(10, 0), &no_marks(), |entry: &StoredLogLine| entry.line.name == "api");
    assert_eq!(index.ids_from(LogId(0)), vec![LogId(0), LogId(2)]);
    assert_eq!(index.ids_from(LogId(1)), vec![LogId(2)]);
}

fn push(store: &mut LogStore, id: u64, name: &str, body: &str) {
    store.push(
        LogId(id),
        FormattedLogLine {
            name: name.to_string(),
            is_lifecycle: false,
            is_verbose: false,
            prefix: Vec::new(),
            bytes: body.as_bytes().to_vec(),
        },
    );
}

#[test]
fn the_line_after_a_gap_is_taken_in_though_it_shares_a_number() {
    let everything = |_: &StoredLogLine| true;
    let mut store = store_of(&[(1, "api", "a")], 10);
    push(&mut store, 45, "don", "41 log line(s) dropped");
    let mut mended = ViewIndex::new();
    mended.sync(&store, key(10, 0), &no_marks(), everything);
    assert_eq!(mended.total_rows(), 4);
    push(&mut store, 45, "api", "b");
    push(&mut store, 46, "api", "c");
    mended.sync(&store, key(10, 0), &no_marks(), everything);
    let mut rebuilt = ViewIndex::new();
    rebuilt.sync(&store, key(10, 0), &no_marks(), everything);
    for index in [&mended, &rebuilt] {
        assert_eq!(index.total_rows(), 6);
        assert_eq!(index.ids_from(LogId(45)), vec![LogId(45), LogId(45), LogId(46)]);
        assert_eq!(index.rows_above(LogId(45)), Some(1));
        assert_eq!(index.rows_above(LogId(46)), Some(5));
        assert_eq!(index.line_at(4), Some((LogId(45), 0)));
    }
    mended.sync(&store, key(10, 0), &no_marks(), everything);
    assert_eq!(mended.total_rows(), 6, "nothing is taken in twice");
}

#[test]
fn the_line_after_a_gap_is_taken_in_where_the_notice_is_hidden() {
    let api = |entry: &StoredLogLine| entry.line.name == "api";
    let mut store = store_of(&[(1, "api", "a"), (45, "don", "dropped")], 10);
    let mut index = ViewIndex::new();
    index.sync(&store, key(10, 0), &no_marks(), api);
    push(&mut store, 45, "api", "b");
    index.sync(&store, key(10, 0), &no_marks(), api);
    assert_eq!(index.ids_from(LogId(0)), vec![LogId(1), LogId(45)]);
}
