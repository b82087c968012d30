use don::search::{
    contains_smart_case, has_uppercase, settle_pattern, to_char_ranges, LogSearch, Mode, PatternFault,
    TOO_BIG,
};
use std::collections::hash_map::DefaultHasher;
use std::hash::Hasher;

#[test]
fn a_line_is_admitted_exactly_when_something_in_it_is_highlighted() {
    struct Case {
        name: &'static str,
        query: &'static str,
        regex: bool,
        message: &'static str,
        want_admitted: bool,
        want_ranges: &'static [(usize, usize)],
    }

    let cases = vec![
        Case {
            name: "a plain substring",
            query: "error",
            regex: false,
            message: "GET /api error 500",
            want_admitted: true,
            want_ranges: &[(9, 14)],
        },
        Case {
            name: "every occurrence is lit, not just the first",
            query: "ab",
            regex: false,
            message: "ab cd ab",
            want_admitted: true,
            want_ranges: &[(0, 2), (6, 8)],
        },
        Case {
            name: "lowercase query ignores case",
            query: "error",
            regex: false,
            message: "GET /api ERROR 500",
            want_admitted: true,
            want_ranges: &[(9, 14)],
        },
        Case {
            name: "a capital makes it case-sensitive",
            query: "Error",
            regex: false,
            message: "GET /api error 500",
            want_admitted: false,
            want_ranges: &[],
        },
        Case {
            name: "no match, no line",
            query: "missing",
            regex: false,
            message: "GET /api error 500",
            want_admitted: false,
            want_ranges: &[],
        },
        Case {
            name: "offsets are columns, not bytes",
            query: "world",
            regex: false,
            message: "héllo wörld",
            want_admitted: false,
            want_ranges: &[],
        },
        Case {
            name: "a multi-byte line still highlights the right columns",
            query: "wörld",
            regex: false,
            message: "héllo wörld",
            want_admitted: true,
            want_ranges: &[(6, 11)],
        },
        Case {
            name: "regex alternation",
            query: "warn|error",
            regex: true,
            message: "a warn and an error",
            want_admitted: true,
            want_ranges: &[(2, 6), (14, 19)],
        },
        Case {
            name: "an empty query admits everything and lights nothing",
            query: "",
            regex: false,
            message: "GET /api error 500",
            want_admitted: true,
            want_ranges: &[],
        },
    ];

    for case in cases {
        let mut search = LogSearch::new();
        if case.regex {
            search.toggle_mode();
        }
        for c in case.query.chars() {
            search.push(c);
        }
        assert_eq!(
            search.admits(case.message),
            case.want_admitted,
            "{}: admitted",
            case.name
        );
        assert_eq!(
            search.match_ranges(case.message),
            case.want_ranges,
            "{}: ranges",
            case.name
        );
    }
}

#[test]
fn a_half_typed_pattern_shows_everything_and_says_why() {
    let mut search = LogSearch::new();
    search.toggle_mode();
    for c in "(foo".chars() {
        search.push(c);
    }

    assert!(search.error().is_some(), "an unclosed group cannot compile");
    assert!(
        search.admits("nothing like the query"),
        "an invalid pattern must not empty the pane"
    );
    assert!(
        search.match_ranges("nothing like the query").is_empty(),
        "and lights nothing, since nothing matched"
    );

    search.push(')');
    assert!(search.error().is_none(), "closing it compiles");
    assert!(!search.admits("nothing like the query"));
    assert!(search.admits("foo"));
}

#[test]
fn confirming_keeps_the_search_and_cancelling_ends_it() {
    let mut search = LogSearch::new();
    search.begin();
    for c in "error".chars() {
        search.push(c);
    }
    assert!(search.editing() && search.is_active());

    search.confirm();
    assert!(!search.editing(), "the prompt is gone");
    assert!(search.is_active(), "the search is not");
    assert!(!search.admits("no match here"));

    search.begin();
    search.cancel();
    assert!(!search.editing() && !search.is_active());
    assert!(search.admits("no match here"), "everything is back");
}

#[test]
fn the_fingerprint_moves_with_everything_admission_depends_on() {
    let print = |f: &dyn Fn(&mut LogSearch)| {
        let mut search = LogSearch::new();
        f(&mut search);
        let mut hasher = DefaultHasher::new();
        search.fingerprint(&mut hasher);
        hasher.finish()
    };

    let empty = print(&|_| {});
    let typed = print(&|s| s.push('a'));
    let more = print(&|s| {
        s.push('a');
        s.push('b');
    });
    let as_regex = print(&|s| {
        s.toggle_mode();
        s.push('a');
    });

    assert_ne!(empty, typed, "typing changes what is admitted");
    assert_ne!(typed, more, "and so does typing more");
    assert_ne!(typed, as_regex, "the same query means something else");

    let live = print(&|s| {
        s.begin();
        s.push('a');
    });
    let confirmed = print(&|s| {
        s.begin();
        s.push('a');
        s.confirm();
    });
    assert_eq!(live, confirmed, "closing the prompt admits no differently");
}

#[test]
fn taking_back_a_letter_takes_back_what_it_hid() {
    let mut search = LogSearch::new();
    for c in "ab".chars() {
        search.push(c);
    }
    assert!(!search.admits("a"));
    assert!(search.backspace());
    assert_eq!(search.query(), "a");
    assert!(search.admits("a"));
    assert!(search.backspace());
    assert!(!search.backspace(), "nothing is left to take back");
    assert!(search.admits("anything"));
}

#[test]
fn a_capital_in_the_query_makes_case_count() {
    assert!(has_uppercase("aB"));
    assert!(has_uppercase("Ä"));
    assert!(!has_uppercase("ab1"));
    assert!(contains_smart_case("ÄPFEL", "äpfel"));
    assert!(!contains_smart_case("äpfel", "Äpfel"));
}

#[test]
fn byte_ranges_become_column_ranges() {
    assert_eq!(to_char_ranges("äb", &vec![(0, 2), (2, 3)]), vec![(0, 1), (1, 2)]);
}

#[test]
fn switching_the_mode_reads_the_same_query_anew() {
    let mut search = LogSearch::new();
    for c in "a.c".chars() {
        search.push(c);
    }
    assert_eq!(search.mode(), Mode::Substring);
    assert!(!search.admits("abc"));
    search.toggle_mode();
    assert_eq!(search.mode(), Mode::Regex);
    assert!(search.admits("abc"));
    search.toggle_mode();
    assert!(!search.admits("abc"));
}

#[test]
fn what_is_wrong_with_a_pattern_is_said_in_one_line() {
    let mut search = LogSearch::new();
    search.toggle_mode();
    search.push('[');
    let error = search.error().unwrap();
    assert!(!error.is_empty());
    assert!(!error.contains('\n'), "{error}");
}

#[test]
fn what_the_prompt_keeps_of_an_error_is_its_last_line() {
    let kept = settle_pattern(Err(PatternFault::IllFormed(
        "regex parse error:\n    (\n    ^\n  unclosed group \n".to_string(),
    )));
    assert_eq!(kept.err().as_deref(), Some("unclosed group"));
    assert_eq!(settle_pattern(Err(PatternFault::TooBig(String::new()))).err().as_deref(), Some("invalid pattern"));
    let kept = settle_pattern(Ok(regex::Regex::new("a+").unwrap()));
    assert!(kept.is_ok_and(|re| re.is_match("caat")));
}

fn searching(query: &str, regex: bool) -> LogSearch {
    let mut search = LogSearch::new();
    if regex {
        search.toggle_mode();
    }
    for c in query.chars() {
        search.push(c);
    }
    search
}

#[test]
fn a_pattern_that_only_matches_nothing_lights_the_whole_line() {
    let search = searching("x*", true);
    assert!(search.admits("abc"), "it matches before every character");
    assert_eq!(search.match_ranges("abc"), vec![(0, 3)]);
    assert_eq!(search.match_ranges("axxb"), vec![(1, 3)]);
    assert_eq!(searching("^", true).match_ranges("h\u{e9}"), vec![(0, 2)]);
}

#[test]
fn a_line_without_text_has_nothing_to_show_for_a_match() {
    let search = searching("^$", true);
    assert!(!search.admits(""));
    assert!(search.match_ranges("").is_empty());
    assert!(!searching("a", false).admits(""));
}

#[test]
fn what_lowering_lengthens_is_lit_where_it_came_from() {
    // A dotted capital I becomes two characters, a Kelvin sign one of fewer bytes.
    assert_eq!(searching("i", false).match_ranges("a\u{130}b"), vec![(1, 2)]);
    assert_eq!(searching("b", false).match_ranges("\u{130}\u{130}b"), vec![(2, 3)]);
    assert_eq!(searching("k", false).match_ranges("3\u{212a}!"), vec![(1, 2)]);
    for (query, message) in [("i", "a\u{130}b"), ("b", "\u{130}\u{130}b"), ("k", "3\u{212a}!")] {
        assert!(searching(query, false).admits(message));
    }
    // Two occurrences share the second character: it is lit once.
    let shared = searching("\u{307}i", false);
    assert_eq!(shared.match_ranges("\u{130}\u{130}\u{130}"), vec![(0, 2), (2, 3)]);
    // A sigma at the end of a word is lowered to its final form.
    let greek = searching("\u{3bf}\u{3c2}", false);
    assert!(greek.admits("\u{39f}\u{3a3}"));
    assert_eq!(greek.match_ranges("\u{39f}\u{3a3}"), vec![(0, 2)]);
}

#[test]
fn a_line_is_shown_exactly_when_something_in_it_is_lit() {
    let messages = ["", "abc", "ABC", "\u{130}", "a\u{130}\u{130}z", "h\u{e9}llo", "xx", "\u{212a}k"];
    for (query, regex) in [("a", false), ("i", false), ("k", false), ("x*", true), ("^", true), ("l+", true)] {
        let search = searching(query, regex);
        for message in messages {
            let ranges = search.match_ranges(message);
            assert_eq!(search.admits(message), !ranges.is_empty(), "{query} in {message:?}");
            let mut last = 0;
            for (from, to) in ranges {
                assert!(last <= from && from < to && to <= message.chars().count());
                last = to;
            }
        }
    }
}

#[test]
fn the_prompt_says_what_is_wrong_with_a_pattern_or_that_it_is_too_big() {
    assert_eq!(searching("(foo", true).error(), Some("error: unclosed group"));
    assert_eq!(searching("a{9999}{9999}", true).error(), Some(TOO_BIG));
    assert_eq!(searching("a+", true).error(), None);
}
