//! The status bar.
use crate::app::{App, UpdateBadge};
use crate::client::ServiceState;
use crate::counts::{lemma_filter_step, StatusCounts};
use crate::failures::anything_failed;
use crate::filter::{FilterFocus, FilterState, FilterView};
use crate::selection::span_of;
use crate::style::{
    at_most_usize, runs_of, Color, Line, Run, Span, Style, BOLD, SLOW_BLINK,
};
use crate::text::{decimal, push_decimal};
use vstd::prelude::*;

verus! {

/// Rows the bar takes: a border, its text, a border.
pub const BAR_HEIGHT: u16 = 3;

/// A run of text in a style.
pub open spec fn run(text: Seq<char>, style: Style) -> Run {
    Run { text, style }
}

/// Bold text in a colour.
pub open spec fn bold_style(color: Color) -> Style {
    Style::with_fg(color).with_bits(BOLD)
}

fn bold(color: Color) -> (r: Style)
    ensures
        r == bold_style(color),
{
    Style::new().fg(color).add_modifier(BOLD)
}

/// Quiet text.
pub open spec fn dim_run(text: Seq<char>) -> Run {
    run(text, Style::with_fg(Color::DarkGray))
}

/// What stands between two parts of the bar.
pub open spec fn separator_run() -> Run {
    dim_run("  │  "@)
}

/// Adds a run to a line being built.
pub fn add_run(spans: &mut Vec<Span>, text: String, style: Style)
    ensures
        runs_of(final(spans)@) == runs_of(old(spans)@).push(run(text@, style)),
{
    let ghost before = spans@;
    let ghost words = text@;
    spans.push(Span::styled(text, style));
    assert(runs_of(spans@) =~= runs_of(before).push(run(words, style)));
}

/// What stands between two parts of the bar.
pub fn separator() -> (r: Span)
    ensures
        run(r.content@, r.style) == separator_run(),
{
    dim("  │  ")
}

/// Quiet text.
pub fn dim(text: &str) -> (r: Span)
    ensures
        run(r.content@, r.style) == dim_run(text@),
{
    Span::styled(text.to_owned(), Style::new().fg(Color::DarkGray))
}

/// Loud text.
pub fn bold_cyan(text: &str) -> (r: Span)
    ensures
        run(r.content@, r.style) == run(text@, bold_style(Color::Cyan)),
{
    Span::styled(text.to_owned(), bold(Color::Cyan))
}

fn add_span(spans: &mut Vec<Span>, span: Span)
    ensures
        runs_of(final(spans)@) == runs_of(old(spans)@).push(run(span.content@, span.style)),
{
    add_run(spans, span.content, span.style);
}

/// A frame of the spinner.
pub open spec fn spinner_glyph(frame: usize) -> Seq<char> {
    let at = frame % 10;
    if at == 0 {
        "⠋"@
    } else if at == 1 {
        "⠙"@
    } else if at == 2 {
        "⠹"@
    } else if at == 3 {
        "⠸"@
    } else if at == 4 {
        "⠼"@
    } else if at == 5 {
        "⠴"@
    } else if at == 6 {
        "⠦"@
    } else if at == 7 {
        "⠧"@
    } else if at == 8 {
        "⠇"@
    } else {
        "⠏"@
    }
}

fn spinner(frame: usize) -> (r: &'static str)
    ensures
        r@ == spinner_glyph(frame),
{
    let at: usize = frame % 10;
    if at == 0 {
        "⠋"
    } else if at == 1 {
        "⠙"
    } else if at == 2 {
        "⠹"
    } else if at == 3 {
        "⠸"
    } else if at == 4 {
        "⠼"
    } else if at == 5 {
        "⠴"
    } else if at == 6 {
        "⠦"
    } else if at == 7 {
        "⠧"
    } else if at == 8 {
        "⠇"
    } else {
        "⠏"
    }
}

/// The spinner's slot: always there, so that nothing shifts as work starts and
/// stops.
pub open spec fn spinner_run(counts: StatusCounts, frame: usize) -> Run {
    run(
        " "@ + (if counts.working() {
            spinner_glyph(frame)
        } else {
            " "@
        }) + " "@,
        bold_style(Color::Cyan),
    )
}

fn add_spinner(spans: &mut Vec<Span>, counts: &StatusCounts, frame: usize)
    ensures
        runs_of(final(spans)@) == runs_of(old(spans)@).push(spinner_run(*counts, frame)),
{
    let mut text = " ".to_owned();
    text.append(
        if counts.is_working() {
            spinner(frame)
        } else {
            " "
        },
    );
    text.append(" ");
    add_run(spans, text, bold(Color::Cyan));
}

/// The colour of the count of ready services.
pub open spec fn ready_color(counts: StatusCounts) -> Color {
    if counts.services_failed > 0 {
        Color::Red
    } else if counts.services_unhealthy > 0 {
        Color::LightRed
    } else if counts.services_total > 0 && counts.services_ready == counts.services_total {
        Color::Green
    } else {
        Color::Yellow
    }
}

/// Where more about a failure is to be found.
pub open spec fn info_hint(show: bool) -> Seq<char> {
    if show {
        " [i]"@
    } else {
        ""@
    }
}

/// The part of the bar about failures: services, or else tasks.
pub open spec fn failure_runs(counts: StatusCounts, show_info: bool) -> Seq<Run> {
    if counts.services_failed > 0 {
        seq![
            separator_run(),
            run(
                decimal(counts.services_failed as nat) + " failed"@ + info_hint(show_info),
                bold_style(Color::Red),
            ),
        ]
    } else if counts.tasks_failed > 0 {
        seq![
            separator_run(),
            run(
                decimal(counts.tasks_failed as nat) + " "@ + (if counts.tasks_failed == 1 {
                    "task"@
                } else {
                    "tasks"@
                }) + " failed"@ + info_hint(show_info),
                bold_style(Color::Red),
            ),
        ]
    } else {
        Seq::empty()
    }
}

/// The part of the bar about unhealthy services.
pub open spec fn unhealthy_runs(counts: StatusCounts) -> Seq<Run> {
    if counts.services_unhealthy > 0 {
        seq![
            separator_run(),
            run(
                decimal(counts.services_unhealthy as nat) + " unhealthy"@,
                bold_style(Color::LightRed),
            ),
        ]
    } else {
        Seq::empty()
    }
}

/// The counts that every bar shows.
pub open spec fn count_runs(counts: StatusCounts, show_info: bool) -> Seq<Run> {
    seq![
        run(
            decimal(counts.services_ready as nat) + "/"@ + decimal(counts.services_total as nat)
                + " services ready"@,
            Style::with_fg(ready_color(counts)),
        ),
    ] + failure_runs(counts, show_info) + unhealthy_runs(counts)
}

fn number(n: usize) -> (r: String)
    ensures
        r@ == decimal(n as nat),
{
    let mut out = String::new();
    push_decimal(&mut out, n as u64);
    assert(out@ =~= decimal(n as nat));
    out
}

fn add_failures(spans: &mut Vec<Span>, counts: &StatusCounts, show_info: bool)
    ensures
        runs_of(final(spans)@) == runs_of(old(spans)@) + failure_runs(*counts, show_info),
{
    let hint = if show_info {
        " [i]"
    } else {
        ""
    };
    let ghost before = runs_of(spans@);
    if counts.services_failed > 0 {
        add_span(spans, separator());
        let mut text = number(counts.services_failed);
        text.append(" failed");
        text.append(hint);
        add_run(spans, text, bold(Color::Red));
    } else if counts.tasks_failed > 0 {
        add_span(spans, separator());
        let mut text = number(counts.tasks_failed);
        text.append(" ");
        text.append(
            if counts.tasks_failed == 1 {
                "task"
            } else {
                "tasks"
            },
        );
        text.append(" failed");
        text.append(hint);
        add_run(spans, text, bold(Color::Red));
    }
    assert(runs_of(spans@) =~= before + failure_runs(*counts, show_info));
}

fn add_counts(spans: &mut Vec<Span>, counts: &StatusCounts, show_failure_info: bool)
    ensures
        runs_of(final(spans)@) == runs_of(old(spans)@) + count_runs(*counts, show_failure_info),
{
    let ghost before = runs_of(spans@);
    let color = if counts.services_failed > 0 {
        Color::Red
    } else if counts.services_unhealthy > 0 {
        Color::LightRed
    } else if counts.services_total > 0 && counts.services_ready == counts.services_total {
        Color::Green
    } else {
        Color::Yellow
    };
    let mut text = number(counts.services_ready);
    text.append("/");
    text.append(number(counts.services_total).as_str());
    text.append(" services ready");
    add_run(spans, text, Style::new().fg(color));
    add_failures(spans, counts, show_failure_info);
    if counts.services_unhealthy > 0 {
        add_span(spans, separator());
        let mut unhealthy = number(counts.services_unhealthy);
        unhealthy.append(" unhealthy");
        add_run(spans, unhealthy, bold(Color::LightRed));
    }
    assert(runs_of(spans@) =~= before + count_runs(*counts, show_failure_info));
}

/// The counts that every bar shows.
pub fn base_count_spans(counts: &StatusCounts, show_failure_info: bool) -> (r: Vec<Span>)
    ensures
        runs_of(r@) == count_runs(*counts, show_failure_info),
{
    let mut spans: Vec<Span> = Vec::new();
    assert(runs_of(spans@) =~= Seq::<Run>::empty());
    add_counts(&mut spans, counts, show_failure_info);
    assert(runs_of(spans@) =~= count_runs(*counts, show_failure_info));
    spans
}

/// The part of the bar about running tasks.
pub open spec fn running_runs(counts: StatusCounts) -> Seq<Run> {
    if counts.tasks_running > 0 {
        seq![
            separator_run(),
            run(
                if counts.tasks_running == 1 {
                    "1 task running"@
                } else {
                    decimal(counts.tasks_running as nat) + " tasks running"@
                },
                bold_style(Color::Yellow),
            ),
        ]
    } else {
        Seq::empty()
    }
}

fn add_running(spans: &mut Vec<Span>, counts: &StatusCounts)
    ensures
        runs_of(final(spans)@) == runs_of(old(spans)@) + running_runs(*counts),
{
    let ghost before = runs_of(spans@);
    if counts.tasks_running > 0 {
        add_span(spans, separator());
        let label = if counts.tasks_running == 1 {
            "1 task running".to_owned()
        } else {
            let mut label = number(counts.tasks_running);
            label.append(" tasks running");
            label
        };
        add_run(spans, label, bold(Color::Yellow));
    }
    assert(runs_of(spans@) =~= before + running_runs(*counts));
}

/// The keys offered while something is selected.
pub open spec fn selection_runs(has_selection: bool) -> Seq<Run> {
    if has_selection {
        seq![
            run("[y] copy"@, bold_style(Color::Green)),
            dim_run("  [esc] clear"@),
            separator_run(),
        ]
    } else {
        Seq::empty()
    }
}

/// The filter's key, and how much it shows while it hides something.
pub open spec fn filter_runs(hides: bool, visible: usize, total: usize) -> Seq<Run> {
    if hides {
        seq![
            dim_run("[f] filter"@),
            dim_run(
                " ("@ + decimal(visible as nat) + "/"@ + decimal(total as nat) + ")"@,
            ),
            dim_run("  [R] reset"@),
        ]
    } else {
        seq![dim_run("[f] filter"@)]
    }
}

/// The tasks' key, marked while tasks wait to be run.
pub open spec fn task_key_runs(counts: StatusCounts) -> Seq<Run> {
    if counts.tasks_pending_run > 0 {
        seq![
            run("  [t] tasks"@, Style::with_fg(Color::Yellow)),
            run("*"@, bold_style(Color::LightYellow)),
        ]
    } else {
        seq![dim_run("  [t] tasks"@)]
    }
}

/// Which record is in front, when it is don's own.
pub open spec fn record_runs(debug_view: bool) -> Seq<Run> {
    if debug_view {
        seq![separator_run(), dim_run("don's log"@)]
    } else {
        Seq::empty()
    }
}

/// What the bar says while nothing is being shut down.
pub open spec fn normal_bar(
    counts: StatusCounts,
    hides: bool,
    frame: usize,
    visible: usize,
    total: usize,
    debug_view: bool,
    has_failure_summary: bool,
    has_selection: bool,
) -> Seq<Run> {
    seq![spinner_run(counts, frame)] + count_runs(counts, has_failure_summary) + running_runs(
        counts,
    ) + seq![separator_run()] + selection_runs(has_selection) + filter_runs(hides, visible, total)
        + task_key_runs(counts) + seq![dim_run("  [s] services"@)] + record_runs(debug_view)
}

fn add_selection_keys(spans: &mut Vec<Span>, has_selection: bool)
    ensures
        runs_of(final(spans)@) == runs_of(old(spans)@) + selection_runs(has_selection),
{
    let ghost before = runs_of(spans@);
    if has_selection {
        add_run(spans, "[y] copy".to_owned(), bold(Color::Green));
        add_span(spans, dim("  [esc] clear"));
        add_span(spans, separator());
    }
    assert(runs_of(spans@) =~= before + selection_runs(has_selection));
}

fn add_filter_key(spans: &mut Vec<Span>, hides: bool, visible: usize, total: usize)
    ensures
        runs_of(final(spans)@) == runs_of(old(spans)@) + filter_runs(hides, visible, total),
{
    let ghost before = runs_of(spans@);
    add_span(spans, dim("[f] filter"));
    if hides {
        let mut text = " (".to_owned();
        text.append(number(visible).as_str());
        text.append("/");
        text.append(number(total).as_str());
        text.append(")");
        add_span(spans, dim(text.as_str()));
        add_span(spans, dim("  [R] reset"));
    }
    assert(runs_of(spans@) =~= before + filter_runs(hides, visible, total));
}

fn add_task_key(spans: &mut Vec<Span>, counts: &StatusCounts)
    ensures
        runs_of(final(spans)@) == runs_of(old(spans)@) + task_key_runs(*counts),
{
    let ghost before = runs_of(spans@);
    if counts.tasks_pending_run > 0 {
        add_run(spans, "  [t] tasks".to_owned(), Style::new().fg(Color::Yellow));
        add_run(spans, "*".to_owned(), bold(Color::LightYellow));
    } else {
        add_span(spans, dim("  [t] tasks"));
    }
    assert(runs_of(spans@) =~= before + task_key_runs(*counts));
}

fn add_record(spans: &mut Vec<Span>, debug_view: bool)
    ensures
        runs_of(final(spans)@) == runs_of(old(spans)@) + record_runs(debug_view),
{
    let ghost before = runs_of(spans@);
    if debug_view {
        add_span(spans, separator());
        add_span(spans, dim("don's log"));
    }
    assert(runs_of(spans@) =~= before + record_runs(debug_view));
}

/// What the bar says while nothing is being shut down.
pub fn normal_bar_line(
    counts: &StatusCounts,
    filter: &FilterState,
    spinner_frame: usize,
    visible_services: usize,
    total_services: usize,
    debug_view: bool,
    has_failure_summary: bool,
    has_selection: bool,
) -> (r: Line)
    ensures
        r.runs() == normal_bar(
            *counts,
            !filter@.shows_everything(),
            spinner_frame,
            visible_services,
            total_services,
            debug_view,
            has_failure_summary,
            has_selection,
        ),
{
    let mut spans: Vec<Span> = Vec::new();
    assert(runs_of(spans@) =~= Seq::<Run>::empty());
    let hides = filter.is_active();
    add_spinner(&mut spans, counts, spinner_frame);
    add_counts(&mut spans, counts, has_failure_summary);
    add_running(&mut spans, counts);
    add_span(&mut spans, separator());
    add_selection_keys(&mut spans, has_selection);
    add_filter_key(&mut spans, hides, visible_services, total_services);
    add_task_key(&mut spans, counts);
    add_span(&mut spans, dim("  [s] services"));
    add_record(&mut spans, debug_view);
    let r = Line { spans };
    assert(r.runs() =~= normal_bar(
        *counts,
        hides,
        spinner_frame,
        visible_services,
        total_services,
        debug_view,
        has_failure_summary,
        has_selection,
    ));
    r
}

/// What the bar says during shutdown: no key is offered.
pub open spec fn shutdown_bar(counts: StatusCounts, frame: usize) -> Seq<Run> {
    seq![
        spinner_run(counts, frame),
        run("shutting down"@, bold_style(Color::Yellow)),
        separator_run(),
    ] + count_runs(counts, false) + running_runs(counts)
}

/// What the bar says during shutdown.
pub fn shutdown_bar_line(counts: &StatusCounts, spinner_frame: usize) -> (r: Line)
    ensures
        r.runs() == shutdown_bar(*counts, spinner_frame),
{
    let mut spans: Vec<Span> = Vec::new();
    assert(runs_of(spans@) =~= Seq::<Run>::empty());
    add_spinner(&mut spans, counts, spinner_frame);
    add_run(&mut spans, "shutting down".to_owned(), bold(Color::Yellow));
    add_span(&mut spans, separator());
    add_counts(&mut spans, counts, false);
    add_running(&mut spans, counts);
    let r = Line { spans };
    assert(r.runs() =~= shutdown_bar(*counts, spinner_frame));
    r
}

/// The keys of the filter panel.
pub open spec fn filter_hint(focus: FilterFocus) -> Seq<char> {
    match focus {
        FilterFocus::List =>
            "[j/k] move  [space] toggle  [o] only this  [/] search  [R] defaults"@,
        FilterFocus::Query => "[type] search  [enter] apply/close if single  [tab] back to list"@,
    }
}

/// The line at the bottom of the filter panel.
pub fn filter_bar_line(counts: &StatusCounts, filter: &FilterState) -> (r: Line)
    ensures
        r.runs() == count_runs(*counts, false) + seq![
            separator_run(),
            dim_run(filter_hint(filter@.focus)),
        ],
{
    let mut spans = base_count_spans(counts, false);
    add_span(&mut spans, separator());
    let hint = match filter.focus() {
        FilterFocus::List => "[j/k] move  [space] toggle  [o] only this  [/] search  [R] defaults",
        FilterFocus::Query => "[type] search  [enter] apply/close if single  [tab] back to list",
    };
    add_span(&mut spans, dim(hint));
    let r = Line { spans };
    assert(r.runs() =~= count_runs(*counts, false) + seq![
        separator_run(),
        dim_run(filter_hint(filter@.focus)),
    ]);
    r
}

/// White on grey.
pub open spec fn input_style() -> Style {
    Style { bg: Some(Color::DarkGray), ..Style::with_fg(Color::White) }
}

/// The filter panel's query line.
pub open spec fn query_runs(filter: FilterView) -> Seq<Run> {
    let label = run("search: "@, bold_style(Color::Cyan));
    match filter.focus {
        FilterFocus::Query => seq![
            label,
            run(filter.query, input_style()),
            run("▌"@, input_style().with_bits(SLOW_BLINK)),
        ],
        FilterFocus::List => if filter.query.len() == 0 {
            seq![label, dim_run("[/] to search"@)]
        } else {
            seq![label, run(filter.query, Style::with_fg(Color::White))]
        },
    }
}

/// The filter panel's query line.
pub fn filter_query_line(filter: &FilterState) -> (r: Line)
    ensures
        r.runs() == query_runs(filter@),
{
    let mut spans: Vec<Span> = Vec::new();
    assert(runs_of(spans@) =~= Seq::<Run>::empty());
    add_span(&mut spans, bold_cyan("search: "));
    match filter.focus() {
        FilterFocus::Query => {
            let style = Style::new().fg(Color::White).bg(Color::DarkGray);
            add_run(&mut spans, filter.query().to_owned(), style);
            add_run(&mut spans, "▌".to_owned(), style.add_modifier(SLOW_BLINK));
        },
        FilterFocus::List => {
            if filter.query().is_empty() {
                add_span(&mut spans, dim("[/] to search"));
            } else {
                add_run(&mut spans, filter.query().to_owned(), Style::new().fg(Color::White));
            }
        },
    }
    let r = Line { spans };
    assert(r.runs() =~= query_runs(filter@));
    r
}

/// What is said of a newer version.
pub open spec fn update_runs(current: Seq<char>, latest: Seq<char>) -> Seq<Run> {
    seq![
        run(
            "upgrade available "@ + current + "->"@ + latest,
            bold_style(Color::LightYellow),
        ),
        run(" "@, Style::plain()),
    ]
}

/// What is said of a newer version.
pub fn update_badge_line(update: &UpdateBadge) -> (r: Line)
    ensures
        r.runs() == update_runs(update.current_version@, update.latest_version@),
{
    let mut spans: Vec<Span> = Vec::new();
    assert(runs_of(spans@) =~= Seq::<Run>::empty());
    let mut text = "upgrade available ".to_owned();
    text.append(update.current_version.as_str());
    text.append("->");
    text.append(update.latest_version.as_str());
    add_run(&mut spans, text, bold(Color::LightYellow));
    add_run(&mut spans, " ".to_owned(), Style::new());
    let r = Line { spans };
    assert(r.runs() =~= update_runs(update.current_version@, update.latest_version@));
    r
}

/// How many characters a line has.
pub fn line_width(line: &Line) -> (r: usize)
    ensures
        r as int == at_most_usize(line.cells().len() as int),
{
    line.width()
}

/// What is said of a copy.
pub open spec fn copy_runs(note: Seq<char>) -> Seq<Run> {
    seq![
        run(
            " "@ + note + " "@,
            (Style { bg: Some(Color::Green), ..Style::with_fg(Color::Black) }).with_bits(BOLD),
        ),
    ]
}

fn copy_badge_line(note: &str) -> (r: Line)
    ensures
        r.runs() == copy_runs(note@),
{
    let mut spans: Vec<Span> = Vec::new();
    assert(runs_of(spans@) =~= Seq::<Run>::empty());
    let mut text = " ".to_owned();
    text.append(note);
    text.append(" ");
    add_run(
        &mut spans,
        text,
        Style::new().fg(Color::Black).bg(Color::Green).add_modifier(BOLD),
    );
    let r = Line { spans };
    assert(r.runs() =~= copy_runs(note@));
    r
}

/// The services that the bar's filter count speaks of: those started.
pub open spec fn countable_services(services: Map<Seq<char>, ServiceState>) -> Set<Seq<char>> {
    services.dom().filter(|n: Seq<char>| services[n] != ServiceState::Lazy)
}

/// Those of them whose lines are shown.
pub open spec fn visible_services(app: App) -> Set<Seq<char>> {
    app.services_state@.dom().filter(
        |n: Seq<char>| app.services_state@[n] != ServiceState::Lazy && app.filter@.lets(n),
    )
}

fn count_services(app: &App) -> (r: (usize, usize))
    ensures
        r.0 == visible_services(*app).len(),
        r.1 == countable_services(app.services_state@).len(),
{
    let n: usize = app.services_state.len();
    let mut visible: usize = 0;
    let mut total: usize = 0;
    let mut i: usize = 0;
    let ghost order = app.services_state.order();
    let ghost services = app.services_state@;
    let ghost counted = |n: Seq<char>| services[n] != ServiceState::Lazy;
    let ghost shown = |n: Seq<char>| services[n] != ServiceState::Lazy && app.filter@.lets(n);
    proof {
        assert(order.take(0) =~= Seq::<Seq<char>>::empty());
        assert(order.take(0).to_set() =~= Set::<Seq<char>>::empty());
        assert(order.take(0).to_set().filter(counted) =~= Set::<Seq<char>>::empty());
        assert(order.take(0).to_set().filter(shown) =~= Set::<Seq<char>>::empty());
    }
    while i < n
        invariant
            i <= n,
            n == order.len(),
            order == app.services_state.order(),
            order.no_duplicates(),
            services == app.services_state@,
            counted == (|n: Seq<char>| services[n] != ServiceState::Lazy),
            shown == (|n: Seq<char>| services[n] != ServiceState::Lazy && app.filter@.lets(n)),
            total == order.take(i as int).to_set().filter(counted).len(),
            visible == order.take(i as int).to_set().filter(shown).len(),
        decreases n - i,
    {
        proof {
            lemma_filter_step(order, i as int, counted);
            lemma_filter_step(order, i as int, shown);
        }
        if *app.services_state.value_at(i) != ServiceState::Lazy {
            total += 1;
            if app.filter.passes(app.services_state.key_at(i).as_str()) {
                visible += 1;
            }
        }
        i += 1;
    }
    assert(order.take(n as int) =~= order);
    (visible, total)
}

/// What the bar says on its left.
pub open spec fn left_runs(app: App) -> Seq<Run> {
    if app.shutdown_started {
        shutdown_bar(app.counts, app.spinner_frame)
    } else {
        normal_bar(
            app.counts,
            !app.filter@.shows_everything(),
            app.spinner_frame,
            visible_services(app).len() as usize,
            countable_services(app.services_state@).len() as usize,
            app.debug_view,
            anything_failed(app.services_state@, app.tasks_state@),
            span_of(app.log_selection) is Some,
        )
    }
}

/// What the bar says on its right, if anything: an answer to what the reader
/// just did comes before the notice of a newer version.
pub open spec fn right_runs(app: App) -> Option<Seq<Run>> {
    match app.copy_notice {
        Some((note, _)) => Some(copy_runs(note@)),
        None => match app.update_badge {
            Some(update) => if app.shutdown_started {
                None
            } else {
                Some(update_runs(update.current_version@, update.latest_version@))
            },
            None => None,
        },
    }
}

/// What the bar says on its left.
pub fn left_bar_line(app: &App) -> (r: Line)
    ensures
        r.runs() == left_runs(*app),
{
    if app.shutdown_started {
        return shutdown_bar_line(&app.counts, app.spinner_frame);
    }
    let (visible, total) = count_services(app);
    normal_bar_line(
        &app.counts,
        &app.filter,
        app.spinner_frame,
        visible,
        total,
        app.debug_view,
        app.has_failure_summary(),
        !app.log_selection.is_empty(),
    )
}

/// What the bar says on its right, if anything.
pub fn right_bar_line(app: &App) -> (r: Option<Line>)
    ensures
        match r {
            Some(line) => right_runs(*app) == Some(line.runs()),
            None => right_runs(*app) is None,
        },
{
    match &app.copy_notice {
        Some((note, _)) => Some(copy_badge_line(note.as_str())),
        None => match &app.update_badge {
            Some(update) => {
                if app.shutdown_started {
                    None
                } else {
                    Some(update_badge_line(update))
                }
            },
            None => None,
        },
    }
}

/// The columns that the right part of a bar of some width takes; none when
/// there is no room for it beside the left part.
pub fn right_columns(line: &Line, width: u16) -> (r: Option<u16>)
    ensures
        match r {
            Some(columns) => 0 < line.cells().len() && line.cells().len() + 2 < width && columns
                == line.cells().len() + 1,
            None => line.cells().len() == 0 || line.cells().len() + 2 >= width,
        },
{
    let n: usize = line_width(line);
    if n > 0 && n < 65533 && n + 2 < width as usize {
        Some((n + 1) as u16)
    } else {
        None
    }
}

/// The count of services is red while one failed, light red while one is
/// unhealthy, green once all are ready, and yellow until then.
pub proof fn the_count_is_green_only_when_all_are_ready(counts: StatusCounts)
    ensures
        ready_color(counts) == Color::Red <==> counts.services_failed > 0,
        ready_color(counts) == Color::Green ==> counts.services_failed == 0
            && counts.services_unhealthy == 0 && counts.services_ready == counts.services_total
            && counts.services_total > 0,
        counts.services_failed == 0 && counts.services_unhealthy == 0 && counts.services_ready
            == counts.services_total && counts.services_total > 0 ==> ready_color(counts)
            == Color::Green,
        counts.services_failed == 0 && counts.services_unhealthy > 0 ==> ready_color(counts)
            == Color::LightRed,
        counts.services_failed == 0 && counts.services_unhealthy == 0 && counts.services_ready
            < counts.services_total ==> ready_color(counts) == Color::Yellow,
{
}

/// The bar says how many services of how many are ready, how many failed if any
/// did, and how many are unhealthy if any are.
pub proof fn the_bar_tells_the_counts(counts: StatusCounts, show_info: bool)
    ensures
        ({
            let runs = count_runs(counts, show_info);
            let first = runs[0].text;
            let ready = decimal(counts.services_ready as nat);
            &&& runs.len() > 0
            &&& ready.is_prefix_of(first)
            &&& ("/"@ + decimal(counts.services_total as nat) + " services ready"@) == first.skip(
                ready.len() as int,
            )
            &&& counts.services_failed > 0 ==> runs.len() >= 3 && runs[2].text == decimal(
                counts.services_failed as nat,
            ) + " failed"@ + (if show_info {
                " [i]"@
            } else {
                ""@
            }) && runs[2].style.fg == Some(Color::Red)
            &&& counts.services_failed == 0 && counts.tasks_failed > 0 ==> runs.len() >= 3
                && decimal(counts.tasks_failed as nat).is_prefix_of(runs[2].text)
                && runs[2].style.fg == Some(Color::Red)
            &&& counts.services_unhealthy > 0 ==> runs.last().text == decimal(
                counts.services_unhealthy as nat,
            ) + " unhealthy"@
            &&& counts.services_failed == 0 && counts.tasks_failed == 0
                && counts.services_unhealthy == 0 ==> runs.len() == 1
        }),
{
    let ready = decimal(counts.services_ready as nat);
    let first = count_runs(counts, show_info)[0].text;
    assert(first.skip(ready.len() as int) =~= "/"@ + decimal(counts.services_total as nat)
        + " services ready"@);
}

/// Running tasks are told by their number, and nothing is said where none runs.
pub proof fn the_bar_tells_what_runs(counts: StatusCounts)
    ensures
        counts.tasks_running == 0 ==> running_runs(counts).len() == 0,
        counts.tasks_running == 1 ==> running_runs(counts).len() == 2 && running_runs(
            counts,
        )[1].text == "1 task running"@,
        counts.tasks_running > 1 ==> running_runs(counts).len() == 2 && running_runs(counts)[1].text
            == decimal(counts.tasks_running as nat) + " tasks running"@,
{
}

/// Keys are offered where they do something: to copy and clear where something
/// is selected, to reset the filter with what it leaves where it hides
/// something, and a mark by the tasks where one waits to be run.
pub proof fn keys_are_offered_where_they_act(counts: StatusCounts, visible: usize, total: usize)
    ensures
        selection_runs(true).len() == 3 && selection_runs(true)[0].text == "[y] copy"@,
        selection_runs(false).len() == 0,
        filter_runs(false, visible, total).len() == 1,
        filter_runs(true, visible, total).len() == 3,
        filter_runs(true, visible, total)[1].text == " ("@ + decimal(visible as nat) + "/"@
            + decimal(total as nat) + ")"@,
        counts.tasks_pending_run > 0 ==> task_key_runs(counts).len() == 2 && task_key_runs(
            counts,
        )[1].text == "*"@,
        counts.tasks_pending_run == 0 ==> task_key_runs(counts).len() == 1,
        record_runs(true).len() == 2,
        record_runs(false).len() == 0,
{
}

/// While shutdown is under way the bar says so, and not otherwise; a note about a
/// copy goes before a newer version, which is not offered during shutdown.
pub proof fn the_bar_tells_what_is_going_on(app: App)
    ensures
        app.shutdown_started ==> left_runs(app).len() >= 2 && left_runs(app)[1].text
            == "shutting down"@,
        app.copy_notice matches Some((note, at)) ==> right_runs(app) matches Some(runs)
            && runs.len() == 1 && runs[0].text == " "@ + note@ + " "@,
        app.copy_notice is None && app.shutdown_started ==> right_runs(app) is None,
        app.copy_notice is None && app.update_badge is None ==> right_runs(app) is None,
        app.copy_notice is None && !app.shutdown_started ==> (
        app.update_badge matches Some(update) ==> (right_runs(app) matches Some(runs)
            && runs[0].text == "upgrade available "@ + update.current_version@ + "->"@
            + update.latest_version@)),
{
}

/// The filter leaves a service visible when its lines are shown; services that
/// wait for their first connection are counted neither way.
pub proof fn visible_services_are_those_shown(app: App, name: Seq<char>)
    ensures
        countable_services(app.services_state@).contains(name)
            <==> app.services_state@.contains_key(name) && app.services_state@[name]
            != ServiceState::Lazy,
        visible_services(app).contains(name) <==> countable_services(
            app.services_state@,
        ).contains(name) && (name.len() == 0 || app.filter@.active.contains(name)),
{
}

/// While work is under way the spinner turns with every frame; otherwise there
/// is none.
pub proof fn the_spinner_turns_while_work_is_under_way(counts: StatusCounts, frame: usize)
    requires
        frame < usize::MAX,
    ensures
        counts.working() ==> spinner_run(counts, frame).text != spinner_run(
            counts,
            (frame + 1) as usize,
        ).text,
        !counts.working() ==> spinner_run(counts, frame).text == " "@ + " "@ + " "@,
{
    if counts.working() {
        let a = spinner_glyph(frame);
        let b = spinner_glyph((frame + 1) as usize);
        reveal_strlit("⠋");
        reveal_strlit("⠙");
        reveal_strlit("⠹");
        reveal_strlit("⠸");
        reveal_strlit("⠼");
        reveal_strlit("⠴");
        reveal_strlit("⠦");
        reveal_strlit("⠧");
        reveal_strlit("⠇");
        reveal_strlit("⠏");
        reveal_strlit(" ");
        assert(a.len() == 1 && b.len() == 1);
        assert(a[0] != b[0]);
        assert((" "@ + a + " "@)[1] == a[0]);
        assert((" "@ + b + " "@)[1] == b[0]);
    }
}

/// What is typed into the search is shown as it is.
pub proof fn the_query_is_shown(filter: FilterView)
    requires
        filter.focus == FilterFocus::Query || filter.query.len() > 0,
    ensures
        query_runs(filter).len() >= 2,
        query_runs(filter)[1].text == filter.query,
{
}

/// The bar begins with the counts and offers the keys for the filter, the tasks
/// and the services, with what runs and what is selected between them.
pub proof fn the_bar_holds_its_parts(
    counts: StatusCounts,
    hides: bool,
    frame: usize,
    visible: usize,
    total: usize,
    debug_view: bool,
    has_failure_summary: bool,
    has_selection: bool,
)
    ensures
        ({
            let bar = normal_bar(
                counts,
                hides,
                frame,
                visible,
                total,
                debug_view,
                has_failure_summary,
                has_selection,
            );
            &&& bar.contains(count_runs(counts, has_failure_summary)[0])
            &&& counts.tasks_running > 0 ==> bar.contains(running_runs(counts)[1])
            &&& has_selection ==> bar.contains(selection_runs(true)[0])
            &&& bar.contains(dim_run("[f] filter"@))
            &&& bar.contains(dim_run("  [s] services"@))
            &&& bar.contains(task_key_runs(counts)[0])
            &&& debug_view ==> bar.last() == dim_run("don's log"@)
        }),
{
    let spinner = seq![spinner_run(counts, frame)];
    let count = count_runs(counts, has_failure_summary);
    let running = running_runs(counts);
    let gap = seq![separator_run()];
    let selection = selection_runs(has_selection);
    let filter = filter_runs(hides, visible, total);
    let tasks = task_key_runs(counts);
    let services = seq![dim_run("  [s] services"@)];
    let bar = normal_bar(
        counts,
        hides,
        frame,
        visible,
        total,
        debug_view,
        has_failure_summary,
        has_selection,
    );
    assert(bar[1] == count[0]);
    let a: int = 1 + count.len() as int;
    if counts.tasks_running > 0 {
        assert(bar[a + 1] == running[1]);
    }
    let b: int = a + running.len() + 1;
    if has_selection {
        assert(bar[b] == selection[0]);
    }
    let c: int = b + selection.len();
    assert(bar[c] == filter[0]);
    let d: int = c + filter.len();
    assert(bar[d] == tasks[0]);
    let e: int = d + tasks.len();
    assert(bar[e] == services[0]);
}

/// The filter's hint tells the keys that act in it.
pub proof fn the_filter_hint_tells_its_keys(focus: FilterFocus)
    ensures
        focus == FilterFocus::List ==> filter_hint(focus)
            == "[j/k] move  [space] toggle  [o] only this  [/] search  [R] defaults"@,
        focus == FilterFocus::Query ==> filter_hint(focus)
            == "[type] search  [enter] apply/close if single  [tab] back to list"@,
{
}

/// The bar tells of a filter where a name that is known is not shown, of failures
/// where there are any, of what is selected where something is, and which log is
/// on screen.
pub proof fn the_bar_goes_by_what_is_on_screen(app: App, name: Seq<char>)
    requires
        !app.shutdown_started,
    ensures
        ({
            let visible = visible_services(app).len() as usize;
            let total = countable_services(app.services_state@).len() as usize;
            let failed = anything_failed(app.services_state@, app.tasks_state@);
            let selected = span_of(app.log_selection) is Some;
            &&& app.filter@.names.contains(name) && !app.filter@.active.contains(name)
                ==> left_runs(app) == normal_bar(
                app.counts,
                true,
                app.spinner_frame,
                visible,
                total,
                app.debug_view,
                failed,
                selected,
            )
            &&& (forall|n: Seq<char>|
                app.filter@.names.contains(n) ==> #[trigger] app.filter@.active.contains(n))
                ==> left_runs(app) == normal_bar(
                app.counts,
                false,
                app.spinner_frame,
                visible,
                total,
                app.debug_view,
                failed,
                selected,
            )
        }),
{
    let names = app.filter@.names;
    assert(names.to_set().contains(name) <==> names.contains(name));
    if forall|n: Seq<char>| names.contains(n) ==> #[trigger] app.filter@.active.contains(n) {
        assert forall|n: Seq<char>| names.to_set().contains(n) implies app.filter@.active.contains(
            n,
        ) by {
            assert(names.contains(n));
        }
        assert(names.to_set().subset_of(app.filter@.active));
    }
}

} // verus!
