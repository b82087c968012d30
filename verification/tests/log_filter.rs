use don::filter::{FilterRow, FilterState};
use don::names::NameSet;
use std::collections::hash_map::DefaultHasher;
use std::hash::Hasher;

fn set(names: &[&str]) -> NameSet {
    let list: Vec<String> = names.iter().map(|name| name.to_string()).collect();
    NameSet::of(&list)
}

#[test]
fn narrowing_to_one_name_is_reversible() {
    struct Case {
        name: &'static str,
        before: &'static [&'static str],
        narrow_to: &'static str,
        want_narrow: Option<&'static [&'static str]>,
    }

    let cases = vec![
        Case {
            name: "from everything",
            before: &["api", "web", "worker"],
            narrow_to: "web",
            want_narrow: Some(&["web"]),
        },
        Case {
            name: "from an already-narrowed selection",
            before: &["api", "web"],
            narrow_to: "api",
            want_narrow: Some(&["api"]),
        },
        Case {
            name: "already showing exactly that one changes nothing",
            before: &["web"],
            narrow_to: "web",
            want_narrow: None,
        },
        Case {
            name: "a name the filter has never heard of changes nothing",
            before: &["api", "web"],
            narrow_to: "nosuch",
            want_narrow: None,
        },
    ];

    for case in cases {
        let all: Vec<String> = ["api", "web", "worker"]
            .iter()
            .map(|n| (*n).to_string())
            .collect();
        let mut filter = FilterState::new(all, &NameSet::new(), None);
        let before = set(case.before);
        filter.restore(before.copy());

        let previous = filter.narrow_to(case.narrow_to);

        match case.want_narrow {
            Some(want) => {
                let got = set(want);
                assert!(
                    want.iter().all(|n| filter.passes(n)),
                    "{}: the narrowed name shows",
                    case.name
                );
                for other in ["api", "web", "worker"] {
                    assert_eq!(
                        filter.passes(other),
                        got.contains(other),
                        "{}: only the narrowed name shows ({other})",
                        case.name
                    );
                }
                filter.restore(previous.expect("a narrowing records its restore point"));
            }
            None => assert!(
                previous.is_none(),
                "{}: nothing changed, so there is nothing to undo",
                case.name
            ),
        }

        for name in ["api", "web", "worker"] {
            assert_eq!(
                filter.passes(name),
                before.contains(name),
                "{}: back to what it was ({name})",
                case.name
            );
        }
    }
}

fn state(names: &[&str]) -> FilterState {
    FilterState::new(
        names.iter().map(|s| s.to_string()).collect(),
        &NameSet::new(),
        None,
    )
}

fn state_with_hidden(names: &[&str], hidden: &[&str]) -> FilterState {
    let hidden_set = set(hidden);
    FilterState::new(
        names.iter().map(|s| s.to_string()).collect(),
        &hidden_set,
        None,
    )
}

#[test]
fn default_filter_passes_all_when_nothing_hidden() {
    let s = state(&["api", "worker"]);
    assert!(s.passes("api"));
    assert!(s.passes("worker"));
    assert!(s.passes(""), "blank spacer lines always pass");
    assert!(!s.is_active());
}

#[test]
fn hidden_names_are_gated_by_default() {
    let s = state_with_hidden(&["api", "worker", "db"], &["db"]);
    assert!(s.passes("api"));
    assert!(s.passes("worker"));
    assert!(!s.passes("db"), "db hidden by default");
    assert!(
        s.is_active(),
        "filter reports active when any name is hidden"
    );
}

#[test]
fn select_name_admits_hidden_name_immediately() {
    let mut s = state_with_hidden(&["api", "db"], &["db"]);
    assert!(!s.passes("db"));

    s.enter_edit();
    assert!(s.select_name("db"));

    assert!(s.passes("db"));
}

#[test]
fn unknown_names_are_blocked_even_without_config() {
    let s = state(&["api"]);
    assert!(!s.passes("mystery"));
}

#[test]
fn a_query_alone_narrows_visibility_not_the_selection() {
    let mut s = state(&["api", "worker", "db"]);
    s.enter_edit();
    s.push_query_char('a');
    assert!(s.passes("api"));
    assert!(s.passes("worker"));
    assert!(s.passes("db"));
    assert!(s.passes(""), "blank spacer lines always pass");
}

#[test]
fn don_lifecycle_gated_when_not_selected() {
    let mut s = state(&["api", "don"]);
    s.enter_edit();
    s.push_query_char('a'); // matches "api" but not "don"
    s.select_only_highlighted();
    assert!(s.passes("api"));
    assert!(!s.passes("don"), "don gated when not in selection");
}

#[test]
fn space_multiselect_applies_immediately() {
    let mut s = state(&["api", "worker", "db", "cache"]);
    s.enter_edit();
    s.toggle_highlighted(); // All → clear
    s.highlight_next(); // api
    s.highlight_next(); // cache
    s.toggle_highlighted(); // cache
    s.highlight_next(); // db
    s.toggle_highlighted(); // db
    let mut active: Vec<String> = s.active_names().iter().map(|n| n.to_string()).collect();
    active.sort();
    assert_eq!(active, vec!["cache".to_string(), "db".to_string()]);
    assert!(s.passes("cache"));
    assert!(s.passes("db"));
    assert!(!s.passes("api"));
}

#[test]
fn only_highlighted_explicitly_narrows_selection() {
    let mut s = state(&["api", "worker"]);
    s.enter_edit();
    s.push_query_char('a'); // fuzzy matches "api"
    s.select_only_highlighted();
    let active = s.active_names();
    assert_eq!(active, vec!["api"]);
}

#[test]
fn cli_override_seeds_active_and_overrides_hidden() {
    struct Case {
        name: &'static str,
        all: &'static [&'static str],
        hidden: &'static [&'static str],
        cli: &'static [&'static str],
        want_passes: &'static [&'static str],
        want_blocks: &'static [&'static str],
    }

    let cases = vec![
        Case {
            name: "cli filter overrides hidden defaults",
            all: &["api", "worker", "db", "don"],
            hidden: &["db"],
            cli: &["worker"],
            want_passes: &["worker", "don"],
            want_blocks: &["api", "db"],
        },
        Case {
            name: "cli filter still admits don lifecycle",
            all: &["api", "worker", "don"],
            hidden: &[],
            cli: &["api"],
            want_passes: &["api", "don"],
            want_blocks: &["worker"],
        },
        Case {
            name: "cli filter that re-enables a hidden name shows it",
            all: &["api", "db", "don"],
            hidden: &["db"],
            cli: &["db"],
            want_passes: &["db", "don"],
            want_blocks: &["api"],
        },
    ];

    for case in cases {
        let hidden = set(case.hidden);
        let cli = set(case.cli);
        let s = FilterState::new(
            case.all.iter().map(|s| (*s).to_string()).collect(),
            &hidden,
            Some(&cli),
        );
        for n in case.want_passes {
            assert!(s.passes(n), "case {}: expected pass for '{n}'", case.name);
        }
        for n in case.want_blocks {
            assert!(!s.passes(n), "case {}: expected block for '{n}'", case.name);
        }
    }
}

#[test]
fn reset_to_defaults_restores_config_selection() {
    let mut s = state_with_hidden(&["api", "worker"], &["api"]);
    assert!(!s.passes("api"));
    assert!(s.passes("worker"));

    s.enter_edit();
    s.push_query_char('a');
    s.select_only_highlighted();
    assert!(s.passes("api"));
    assert!(!s.passes("worker"));

    s.enter_edit();
    s.reset_to_defaults();
    assert!(!s.passes("api"));
    assert!(s.passes("worker"));
}

#[test]
fn reset_to_defaults_reports_changes() {
    let mut s = state_with_hidden(&["api", "worker"], &["api"]);
    assert!(!s.reset_to_defaults());

    s.enter_edit();
    s.push_query_char('a');
    s.select_only_highlighted();
    assert!(s.passes("api"));
    assert!(!s.passes("worker"));

    assert!(s.reset_to_defaults());
    assert!(!s.passes("api"));
    assert!(s.passes("worker"));
    assert!(!s.reset_to_defaults());
}

#[test]
fn highlight_wraps_on_both_ends() {
    let mut s = state(&["a", "b", "c"]);
    s.enter_edit();
    assert_eq!(s.highlight(), 0);
    s.highlight_prev();
    assert_eq!(s.highlight(), 3, "up from top wraps to bottom");
    s.highlight_next();
    assert_eq!(s.highlight(), 0, "down from bottom wraps to top");
}

#[test]
fn highlight_clamps_when_rows_shrink_under_it() {
    let mut s = state(&["api", "db", "worker"]);
    s.enter_edit();
    s.highlight_next();
    s.highlight_next();
    s.highlight_next();
    assert_eq!(s.highlight(), 3);
    s.push_query_char('a');
    assert_eq!(s.rows().len(), 1);
    assert_eq!(s.highlight(), 0);
}

#[test]
fn rebuilding_the_rows_lists_what_the_query_matches() {
    let mut s = state(&["api", "db", "worker"]);
    s.enter_edit();
    s.highlight_next();
    s.highlight_next();
    s.recompute_rows();
    assert_eq!(s.rows().len(), 4);
    assert_eq!(s.highlight(), 2);
    s.push_query_char('d');
    s.recompute_rows();
    assert_eq!(s.rows().len(), 1);
    assert!(matches!(&s.rows()[0], FilterRow::Name(name) if name == "db"));
    assert_eq!(s.highlight(), 0);
}

#[test]
fn all_row_toggle_flips_between_all_and_none() {
    let mut s = state(&["api", "worker", "db"]);
    s.enter_edit();
    assert!(s.all_selected_in_edit());
    s.toggle_highlighted(); // highlight is on All row → clear all
    assert!(!s.all_selected_in_edit());
    assert!(!s.is_edit_selected("api"));
    s.toggle_highlighted(); // flip back to all
    assert!(s.all_selected_in_edit());
    assert!(s.is_edit_selected("api"));
}

#[test]
fn all_row_hidden_when_query_is_non_empty() {
    let mut s = state(&["api", "worker"]);
    s.enter_edit();
    assert!(matches!(s.rows().first(), Some(FilterRow::All)));
    s.push_query_char('a');
    assert!(s.rows().iter().all(|r| matches!(r, FilterRow::Name(_))));
}

#[test]
fn explicit_toggle_applies_even_when_result_is_empty() {
    let mut s = state(&["api", "worker"]);
    s.enter_edit();
    s.toggle_highlighted(); // All → clear everything
    assert!(s.active_names().is_empty());
    assert!(!s.passes("api"));
    assert!(!s.passes("worker"));
}

#[test]
fn clearing_the_query_keeps_the_selection_it_produced() {
    let mut s = state(&["api", "worker"]);
    s.enter_edit();
    s.begin_query_edit();
    s.push_query_char('a');
    s.select_only_highlighted();

    s.clear_query();

    assert!(s.passes("api"));
    assert!(!s.passes("worker"), "the narrowing survives");
    assert_eq!(s.query(), "");
    assert!(!s.query_editing());
}

#[test]
fn toggle_applies_immediately_while_modal_is_open() {
    let mut s = state(&["api", "worker"]);
    s.enter_edit();
    s.highlight_next(); // api
    s.toggle_highlighted(); // remove api immediately

    assert!(!s.passes("api"));
    assert!(s.passes("worker"));
}

#[test]
fn apply_query_selects_all_visible_matches() {
    let mut s = state(&["api", "worker", "web"]);
    s.enter_edit();
    s.begin_query_edit();
    s.push_query_char('w');
    s.apply_query();
    s.end_query_edit();

    assert!(!s.passes("api"));
    assert!(s.passes("worker"));
    assert!(s.passes("web"));
}

#[test]
fn query_has_single_match_only_for_one_name() {
    let mut s = state(&["api", "worker", "web"]);
    s.enter_edit();
    s.begin_query_edit();
    assert!(!s.query_has_single_match(), "empty query does not count");

    s.push_query_char('a');
    assert!(s.query_has_single_match(), "one matching row");

    s.pop_query_char();
    s.push_query_char('w');
    assert!(!s.query_has_single_match(), "multiple matching rows");
}

#[test]
fn passes_table_for_multi_select_active_filter() {
    struct Case {
        name: &'static str,
        selected: Vec<&'static str>,
        probe: &'static str,
        want: bool,
    }

    let cases = vec![
        Case {
            name: "selected name passes",
            selected: vec!["api"],
            probe: "api",
            want: true,
        },
        Case {
            name: "unselected name gated",
            selected: vec!["api"],
            probe: "worker",
            want: false,
        },
        Case {
            name: "lifecycle (empty name) always passes",
            selected: vec!["api"],
            probe: "",
            want: true,
        },
        Case {
            name: "multi-selected: one of many passes",
            selected: vec!["api", "worker"],
            probe: "worker",
            want: true,
        },
        Case {
            name: "multi-selected: not in set gated",
            selected: vec!["api", "worker"],
            probe: "db",
            want: false,
        },
    ];

    for case in cases {
        let mut s = state(&["api", "worker", "db"]);
        s.enter_edit();
        s.toggle_highlighted();
        for selected in &case.selected {
            for _ in 0..s.rows().len() {
                match s.rows().get(s.highlight()) {
                    Some(FilterRow::Name(n)) if n == selected => break,
                    _ => s.highlight_next(),
                }
            }
            s.toggle_highlighted();
        }
        assert_eq!(s.passes(case.probe), case.want, "case: {}", case.name);
    }
}

#[test]
fn hidden_from_display_omits_names_from_rows_but_keeps_selection() {
    struct Case {
        name: &'static str,
        hidden: Vec<&'static str>,
        query: &'static str,
        want_rows: Vec<&'static str>,
    }

    let cases = vec![
        Case {
            name: "no hidden names — all rows present",
            hidden: vec![],
            query: "",
            want_rows: vec!["all", "api", "db", "worker"],
        },
        Case {
            name: "hides a single name from the empty-query list",
            hidden: vec!["db"],
            query: "",
            want_rows: vec!["all", "api", "worker"],
        },
        Case {
            name: "fuzzy matches still drop hidden names",
            hidden: vec!["api"],
            query: "a",
            want_rows: vec![],
        },
    ];

    for case in cases {
        let mut s = state(&["api", "worker", "db"]);
        let hidden = set(&case.hidden);
        s.set_hidden_from_display(hidden);
        for ch in case.query.chars() {
            s.push_query_char(ch);
        }
        let actual: Vec<String> = s
            .rows()
            .iter()
            .map(|r| match r {
                FilterRow::All => "all".to_string(),
                FilterRow::Name(n) => n.clone(),
            })
            .collect();
        let want: Vec<String> = case.want_rows.iter().map(|s| s.to_string()).collect();
        assert_eq!(actual, want, "case: {}", case.name);
    }
}

#[test]
fn hidden_from_display_does_not_affect_passes_for_visible_names() {
    let mut s = state(&["api", "worker", "db"]);
    let hidden = set(&["db"]);
    s.set_hidden_from_display(hidden);
    assert!(s.passes("db"));
    assert!(s.passes("api"));
}

#[test]
fn the_fingerprint_follows_the_selection_and_not_its_history() {
    let print = |filter: &FilterState| {
        let mut hasher = DefaultHasher::new();
        filter.fingerprint(&mut hasher);
        hasher.finish()
    };
    let mut s = state(&["api", "worker"]);
    let before = print(&s);
    s.enter_edit();
    s.highlight_next();
    s.toggle_highlighted();
    assert_ne!(print(&s), before, "a toggled name is another selection");
    s.toggle_highlighted();
    assert_eq!(print(&s), before, "toggled back it is the same one");
}

#[test]
fn a_learned_name_is_listed_and_selected() {
    let mut s = state(&["api"]);
    assert!(!s.passes("late"));
    s.learn_name("late");
    assert!(s.passes("late"));
    assert!(s.rows().iter().any(|row| matches!(row, FilterRow::Name(n) if n == "late")));
    let rows = s.rows().len();
    s.learn_name("late");
    assert_eq!(s.rows().len(), rows, "learned once");
}
