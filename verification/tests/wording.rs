use don::app::{App, AppInit};
use don::bar::{
    filter_bar_line, filter_query_line, left_bar_line, line_width, right_bar_line, right_columns,
};
use don::client::{ServiceState, TaskRunInfo, TaskState};
use don::colors::{crossterm_color_to_ratatui, log_name_colors, log_names, LogColor};
use don::failures::{blockers_of, has_failures};
use don::fuzzy::{fuzzy_match, fuzzy_matches};
use don::globs::{any_matches, build_watch_ignore_overrides};
use don::labels::{
    format_task_last_run_time, service_state_color, task_result_color, task_state_color,
};
use don::names::{NameMap, NameSet};
use don::search::substring_ranges;
use don::style::{
    color_from_name, join_plain, join_raw_lines, parse_ansi_line, Color, RawSpan, Style, BOLD,
};
use don::tables::{filter_title, header_style, service_table_row};
use don::text::{
    comes_before, contains, decimal_string, join, parse_int, signed_decimal_string, strip_suffix,
    trim, trim_end,
};

fn strings(list: &[&str]) -> Vec<String> {
    list.iter().map(|text| text.to_string()).collect()
}

fn app() -> App {
    App::new(AppInit {
        service_names: strings(&["web", "api"]),
        task_names: strings(&["seed"]),
        build_tool_names: Vec::new(),
        task_configs: NameMap::new(),
        task_last_runs: NameMap::new(),
        hidden_names: NameSet::new(),
        auto_filter_on_failure_names: NameSet::new(),
        cli_log_filter: None,
    })
}

fn run(success: bool) -> TaskRunInfo {
    TaskRunInfo {
        finished_at_unix_secs: 100,
        duration_ms: Some(1500),
        success,
        exit_code: None,
        message: None,
    }
}

#[test]
fn escapes_become_styles() {
    let line = parse_ansi_line(b"\x1b[1;31mred\x1b[0m plain\nnext");
    assert_eq!(line.text(), "red plainnext");
    assert_eq!(line.spans[0].content, "red");
    assert_eq!(line.spans[0].style.fg, Some(Color::Red));
    assert_eq!(line.spans[0].style.add_modifier & BOLD, BOLD);
    let bright = parse_ansi_line(b"\x1b[38;5;208mx\x1b[48;2;1;2;3my");
    assert_eq!(bright.spans[0].style.fg, Some(Color::Indexed(208)));
    assert_eq!(bright.spans[1].style.bg, Some(Color::Rgb(1, 2, 3)));
}

#[test]
fn a_garbled_line_is_better_than_a_silent_one() {
    assert_eq!(parse_ansi_line(b"ab\xffcd").text(), "ab\u{fffd}cd");
    assert_eq!(parse_ansi_line(b"\xff").text(), "\u{fffd}");
    let split = parse_ansi_line(b"\xff\none");
    assert_eq!(split.text(), "\u{fffd}one", "on one line all the same");
    assert!(split.spans.iter().all(|span| span.style == Style::new()));
    let lines = parse_ansi_line(b"\xff\r\n\n\r\nb\r");
    let texts: Vec<&str> = lines.spans.iter().map(|span| span.content.as_str()).collect();
    assert_eq!(texts, ["\u{fffd}", "b\r"]);
}

#[test]
fn parsed_lines_are_joined_into_one() {
    let raw = |content: &str, fg: Option<&str>| RawSpan {
        content: content.to_string(),
        fg: fg.map(|name| name.to_string()),
        bg: None,
        add_modifier: 0,
        sub_modifier: 0,
    };
    let lines = vec![vec![raw("a", Some("#0A0bFF")), raw("b", None)], vec![raw("c", Some("17"))]];
    let line = join_raw_lines(&lines);
    assert_eq!(line.text(), "abc");
    assert_eq!(line.spans[2].style.fg, Some(Color::Indexed(17)));
    assert_eq!(join_plain(&strings(&["x", "y"])).text(), "xy");
    assert_eq!(color_from_name("LightCyan"), Color::LightCyan);
    assert_eq!(color_from_name("#0A0BFF"), Color::Rgb(10, 11, 255));
    assert_eq!(color_from_name("Reset"), Color::Reset);
    assert_eq!(color_from_name("no colour"), Color::Reset);
}

#[test]
fn names_keep_the_formatters_colours() {
    assert_eq!(crossterm_color_to_ratatui(LogColor::Red), Color::LightRed);
    assert_eq!(crossterm_color_to_ratatui(LogColor::DarkRed), Color::Red);
    assert_eq!(crossterm_color_to_ratatui(LogColor::AnsiValue(9)), Color::Indexed(9));
    assert_eq!(log_names(&app()).len(), 3);
    let colors = log_name_colors(&vec![
        ("api".to_string(), LogColor::Cyan),
        ("web".to_string(), LogColor::DarkGrey),
    ]);
    assert_eq!(colors.get("api"), Some(&Color::LightCyan));
    assert_eq!(colors.get("web"), Some(&Color::DarkGray));
}

#[test]
fn states_have_their_colours() {
    assert_eq!(service_state_color(ServiceState::Ready), Color::Green);
    assert_eq!(service_state_color(ServiceState::Unhealthy), Color::LightRed);
    assert_eq!(service_state_color(ServiceState::DependencyFailed), Color::Rgb(150, 60, 60));
    assert_eq!(task_state_color(TaskState::PendingRun), Color::Cyan);
    assert_eq!(task_result_color(&run(true)), Color::Green);
    assert_eq!(task_result_color(&run(false)), Color::Red);
    assert_eq!(format_task_last_run_time(&Some(run(true)), 190), "1m ago");
    assert_eq!(format_task_last_run_time(&None, 190), "-");
}

#[test]
fn numbers_read_as_they_are_written() {
    assert_eq!(decimal_string(0), "0");
    assert_eq!(decimal_string(u64::MAX), "18446744073709551615");
    assert_eq!(signed_decimal_string(i64::MIN), "-9223372036854775808");
    assert_eq!(parse_int("-9223372036854775808"), Some(i64::MIN));
    assert_eq!(parse_int("+7"), Some(7));
    assert_eq!(parse_int("007"), Some(7));
    for text in ["", "-", "+", "1x", " 1", "9223372036854775808"] {
        assert_eq!(parse_int(text), None, "{text:?}");
    }
}

#[test]
fn texts_are_cut_joined_and_compared() {
    assert_eq!(trim(" \t a b\u{a0}\n"), "a b");
    assert_eq!(trim_end(" a \n"), " a");
    assert_eq!(join(&strings(&["a", "b", "c"]), ", "), "a, b, c");
    assert_eq!(strip_suffix("api__graph", "__graph").as_deref(), Some("api"));
    assert_eq!(strip_suffix("api", "__graph"), None);
    assert!(contains("shutting down", "ting d"));
    assert!(!contains("a", "ab"));
    assert!(comes_before("Zeta", "alpha") && comes_before("a", "ab"));
    assert!(!comes_before("b", "a") && !comes_before("a", "a"));
}

#[test]
fn a_fuzzy_query_is_a_subsequence() {
    assert!(fuzzy_matches("aI", "api-service"));
    assert!(!fuzzy_matches("ia", "api"));
    assert_eq!(fuzzy_match("pi", &strings(&["api", "web", "pin"])), ["api", "pin"]);
    assert_eq!(substring_ranges("aXaxax", "ax"), vec![(0, 2), (2, 4), (4, 6)]);
}

#[test]
fn the_bar_says_what_the_filter_does() {
    let mut app = app();
    assert!(line_width(&left_bar_line(&app)) > 0);
    assert!(right_bar_line(&app).is_none());
    app.filter.begin_query_edit();
    app.filter.push_query_char('w');
    assert!(filter_query_line(&app.filter).text().contains('w'));
    assert!(line_width(&filter_bar_line(&app.counts, &app.filter)) > 0);
    assert!(!filter_title(&app.filter).is_empty());
    app.set_update_check("1.0.0".to_string(), Some("1.2.0".to_string()));
    let badge = right_bar_line(&app).unwrap();
    assert!(badge.text().contains("1.2.0"));
    let width = u16::try_from(line_width(&badge)).unwrap();
    assert_eq!(right_columns(&badge, 200), Some(width + 1));
    assert_eq!(right_columns(&badge, width + 2), None, "there is no room beside it");
}

#[test]
fn a_failure_names_what_it_waits_for() {
    let mut app = app();
    assert!(!has_failures(&app.services_state, &app.tasks_state));
    app.apply_service_runtime(
        "web".to_string(),
        ServiceState::DependencyFailed,
        None,
        strings(&["api", "db"]),
    );
    assert!(has_failures(&app.services_state, &app.tasks_state));
    assert_eq!(blockers_of(&app.failed_dependencies, "web"), ["api", "db"]);
    assert!(blockers_of(&app.failed_dependencies, "api").is_empty());
    let item = &app.service_items()[0];
    let row = service_table_row(item, &NameMap::new(), false);
    assert!(row.text().contains("web") && row.text().contains("dep failed: api, db"));
    assert_ne!(header_style(), Style::new());
}

#[test]
fn a_path_is_ignored_by_the_rules_of_its_workspace() {
    let mut warnings = Vec::new();
    let ignore =
        build_watch_ignore_overrides("/ws", &strings(&["target/**", "*.log"]), &mut warnings);
    assert!(warnings.is_empty());
    assert!(ignore.is_ignored("/ws/target", true));
    assert!(ignore.is_ignored("/ws/target/debug/x", false));
    assert!(ignore.is_ignored("/ws/a/b.log", false));
    assert!(!ignore.is_ignored("/ws/src/main.rs", false));
    assert!(any_matches(&strings(&["a/*", "b/*"]), "b/x"));
    assert!(!any_matches(&Vec::new(), "b/x"));
}
