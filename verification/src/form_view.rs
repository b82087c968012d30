//! What the parameter form looks like.
use crate::app::App;
use crate::bar::{add_run, bold_style, dim_run, run};
use crate::config::ParamKind;
use crate::form::{lesser, CandidateState, Field, FormState};
use crate::names::views;
use crate::panes::{inner, Rect};
use crate::style::{runs_of, Color, Line, Run, Span, Style, BOLD};
use crate::text::{has_part, has_suffix, same, trim, trimmed};
use vstd::prelude::*;

verus! {

/// The runs of a list of lines.
pub open spec fn line_runs(lines: Seq<Line>) -> Seq<Seq<Run>> {
    Seq::new(lines.len(), |i: int| runs_of(lines[i].spans@))
}

/// What stands before a field's value.
pub open spec fn prompt_text(field: Field, focused: bool) -> Seq<char> {
    (if focused {
        "▶ "@
    } else {
        "  "@
    }) + field.prompt@ + (if field.required {
        "*"@
    } else {
        ""@
    }) + ": "@
}

/// A field's value: a box for a yes-or-no field, else its text.
pub open spec fn value_text(field: Field) -> Seq<char> {
    if field.kind == ParamKind::Bool {
        if trimmed(field.value@) == "true"@ {
            "[x] true"@
        } else {
            "[ ] false"@
        }
    } else {
        field.value@
    }
}

/// The row of a field's input.
pub open spec fn input_row(field: Field, focused: bool) -> Seq<Run> {
    seq![
        run(
            prompt_text(field, focused),
            if focused {
                bold_style(Color::Cyan)
            } else {
                Style::with_fg(Color::White)
            },
        ),
        run(value_text(field), Style::with_fg(Color::White)),
        run(
            if focused && field.kind != ParamKind::Bool {
                "▎"@
            } else {
                ""@
            },
            Style::with_fg(Color::DarkGray),
        ),
    ]
}

/// The row that says how the candidates are coming along, if there is
/// something to say.
pub open spec fn status_rows(field: Field) -> Seq<Seq<Run>> {
    match field.candidates {
        CandidateState::Loading => seq![seq![dim_run("  loading completions…"@)]],
        CandidateState::Failed { message, log_path } => seq![
            seq![
                run(
                    match log_path {
                        Some(path) => "  ⚠ "@ + message@ + " (log: "@ + path@ + ")"@,
                        None => "  ⚠ "@ + message@,
                    },
                    Style::with_fg(Color::Red),
                ),
            ],
        ],
        _ => Seq::empty(),
    }
}

/// The row of a candidate.
pub open spec fn candidate_row(text: Seq<char>, highlighted: bool) -> Seq<Run> {
    seq![
        run(
            "    "@ + text,
            if highlighted {
                (Style { bg: Some(Color::DarkGray), ..Style::with_fg(Color::White) }).with_bits(
                    BOLD,
                )
            } else {
                Style::with_fg(Color::Gray)
            },
        ),
    ]
}

/// The rows of the candidates when `room` rows are left: as many as fit, the
/// highlighted one among them.
pub open spec fn candidate_rows(field: Field, room: int) -> Seq<Seq<Run>> {
    let count = lesser(room, field.shown().len() as int);
    let start = field.window_start(count);
    Seq::new(
        count as nat,
        |i: int| candidate_row(field.shown()[start + i], start + i == field.chosen()),
    )
}

/// The rows of a field: always its input, then, for the field with the keys
/// and as far as `most` rows go, how its candidates are coming along and the
/// candidates themselves.
pub open spec fn field_rows(field: Field, focused: bool, most: int) -> Seq<Seq<Run>> {
    let first = seq![input_row(field, focused)];
    let second = first + status_rows(field);
    if !focused || most <= 1 {
        first
    } else if second.len() >= most {
        second
    } else {
        second + candidate_rows(field, most - second.len())
    }
}

fn prompt_of(field: &Field, focused: bool) -> (r: String)
    ensures
        r@ == prompt_text(*field, focused),
{
    let mut out = if focused {
        "▶ ".to_owned()
    } else {
        "  ".to_owned()
    };
    out.append(field.prompt.as_str());
    out.append(
        if field.required {
            "*"
        } else {
            ""
        },
    );
    out.append(": ");
    out
}

fn value_of(field: &Field) -> (r: String)
    ensures
        r@ == value_text(*field),
{
    match field.kind {
        ParamKind::Bool => {
            if same(trim(field.value.as_str()).as_str(), "true") {
                "[x] true".to_owned()
            } else {
                "[ ] false".to_owned()
            }
        },
        _ => field.value.clone(),
    }
}

fn input_line(field: &Field, focused: bool) -> (r: Line)
    ensures
        runs_of(r.spans@) == input_row(*field, focused),
{
    let mut spans: Vec<Span> = Vec::new();
    assert(runs_of(spans@) =~= Seq::<Run>::empty());
    let style = if focused {
        Style::new().fg(Color::Cyan).add_modifier(BOLD)
    } else {
        Style::new().fg(Color::White)
    };
    add_run(&mut spans, prompt_of(field, focused), style);
    add_run(&mut spans, value_of(field), Style::new().fg(Color::White));
    let typed = match field.kind {
        ParamKind::Bool => false,
        _ => true,
    };
    let cursor = if focused && typed {
        "▎".to_owned()
    } else {
        "".to_owned()
    };
    add_run(&mut spans, cursor, Style::new().fg(Color::DarkGray));
    assert(runs_of(spans@) =~= input_row(*field, focused));
    Line { spans }
}

fn one_run(text: String, style: Style) -> (r: Line)
    ensures
        runs_of(r.spans@) == seq![run(text@, style)],
{
    let mut spans: Vec<Span> = Vec::new();
    assert(runs_of(spans@) =~= Seq::<Run>::empty());
    let ghost words = text@;
    add_run(&mut spans, text, style);
    assert(runs_of(spans@) =~= seq![run(words, style)]);
    Line { spans }
}

fn add_status(lines: &mut Vec<Line>, field: &Field)
    ensures
        line_runs(final(lines)@) == line_runs(old(lines)@) + status_rows(*field),
{
    let ghost before = line_runs(lines@);
    match &field.candidates {
        CandidateState::Loading => {
            let line = one_run(
                "  loading completions…".to_owned(),
                Style::new().fg(Color::DarkGray),
            );
            lines.push(line);
        },
        CandidateState::Failed { message, log_path } => {
            let mut hint = "  ⚠ ".to_owned();
            hint.append(message.as_str());
            if let Some(path) = log_path {
                hint.append(" (log: ");
                hint.append(path.as_str());
                hint.append(")");
            }
            let line = one_run(hint, Style::new().fg(Color::Red));
            lines.push(line);
        },
        _ => {},
    }
    assert(line_runs(lines@) =~= before + status_rows(*field));
}

fn add_candidates(lines: &mut Vec<Line>, field: &Field, room: usize)
    requires
        room > 0,
    ensures
        line_runs(final(lines)@) == line_runs(old(lines)@) + candidate_rows(*field, room as int),
{
    let ghost before = line_runs(lines@);
    let total: usize = field.visible_candidates().len();
    let count: usize = if room < total {
        room
    } else {
        total
    };
    let window = field.visible_candidate_window(count);
    let ghost wanted = candidate_rows(*field, room as int);
    let ghost start = field.window_start(count as int);
    assert(line_runs(lines@) =~= before + wanted.take(0));
    let mut i: usize = 0;
    while i < window.items.len()
        invariant
            i <= window.items@.len(),
            window.items@.len() == count,
            wanted.len() == count,
            wanted == candidate_rows(*field, room as int),
            count == lesser(room as int, field.shown().len() as int),
            start == field.window_start(count as int),
            count > 0 ==> views(window.items@) == field.shown().subrange(start, start + count),
            count > 0 ==> 0 <= start && start + count <= field.shown().len(),
            count > 0 ==> window.highlight as int == field.chosen() - start,
            line_runs(lines@) == before + wanted.take(i as int),
        decreases window.items@.len() - i,
    {
        let mut text = "    ".to_owned();
        text.append(window.items[i].as_str());
        assert(views(window.items@)[i as int] == window.items@[i as int]@);
        assert(text@ == "    "@ + field.shown()[start + i]);
        let style = if i == window.highlight {
            Style::new().bg(Color::DarkGray).fg(Color::White).add_modifier(BOLD)
        } else {
            Style::new().fg(Color::Gray)
        };
        let line = one_run(text, style);
        let ghost so_far = line_runs(lines@);
        proof {
            assert(runs_of(line.spans@) =~= candidate_row(
                field.shown()[start + i],
                start + i == field.chosen(),
            ));
            assert(runs_of(line.spans@) == wanted[i as int]);
        }
        lines.push(line);
        proof {
            assert(line_runs(lines@) =~= so_far.push(wanted[i as int]));
            assert(wanted.take(i + 1) =~= wanted.take(i as int).push(wanted[i as int]));
            assert(line_runs(lines@) =~= before + wanted.take(i + 1));
        }
        i += 1;
    }
    assert(wanted.take(count as int) =~= wanted);
}

/// The lines of one field, in at most `max_total_rows` rows but for its input,
/// which it always has. The list of candidates takes every row that is left,
/// so what is hidden of it is never counted in a row of its own.
pub fn field_render_rows(field: &Field, is_focused: bool, max_total_rows: usize) -> (r: Vec<Line>)
    ensures
        line_runs(r@) == field_rows(*field, is_focused, max_total_rows as int),
        r@.len() == line_runs(r@).len(),
        r@.len() >= 1,
        max_total_rows >= 1 ==> r@.len() <= max_total_rows,
{
    let mut lines: Vec<Line> = Vec::new();
    lines.push(input_line(field, is_focused));
    assert(line_runs(lines@) =~= seq![input_row(*field, is_focused)]);
    if !is_focused || lines.len() >= max_total_rows {
        return lines;
    }
    add_status(&mut lines, field);
    assert(line_runs(lines@).len() == lines@.len());
    if lines.len() >= max_total_rows {
        return lines;
    }
    let room: usize = max_total_rows - lines.len();
    add_candidates(&mut lines, field, room);
    assert(line_runs(lines@).len() == lines@.len());
    lines
}

/// The rows of the fields from `from` on, when `used` of `available` rows are
/// taken. Each field may take what the ones after it do not need for their
/// inputs; where one no longer fits, the rest are left out.
pub open spec fn form_rows(form: FormState, available: int, from: int, used: int) -> Seq<Seq<Run>>
    decreases form.fields@.len() - from,
{
    if from < 0 || from >= form.fields@.len() {
        Seq::empty()
    } else {
        let later = form.fields@.len() - from - 1;
        let most = if available >= used + later {
            available - used - later
        } else {
            0
        };
        let rows = field_rows(form.fields@[from], from == form.focus, most);
        if used + rows.len() > available {
            Seq::empty()
        } else {
            rows + form_rows(form, available, from + 1, used + rows.len())
        }
    }
}

/// The lines of a form's fields in so many rows.
pub fn form_lines(form: &FormState, available: u16) -> (r: Vec<Line>)
    ensures
        line_runs(r@) == form_rows(*form, available as int, 0, 0),
        r@.len() <= available,
{
    let mut lines: Vec<Line> = Vec::new();
    let mut i: usize = 0;
    let rows: usize = available as usize;
    let ghost wanted = form_rows(*form, available as int, 0, 0);
    assert(line_runs(lines@) =~= Seq::<Seq<Run>>::empty());
    assert(line_runs(lines@) + wanted =~= wanted);
    while i < form.fields.len()
        invariant
            i <= form.fields@.len(),
            rows == available,
            lines@.len() <= rows,
            wanted == form_rows(*form, available as int, 0, 0),
            wanted == line_runs(lines@) + form_rows(
                *form,
                available as int,
                i as int,
                lines@.len() as int,
            ),
        decreases form.fields@.len() - i,
    {
        let later: usize = form.fields.len() - i - 1;
        let most: usize = (rows - lines.len()).saturating_sub(later);
        let mut own = field_render_rows(&form.fields[i], i == form.focus, most);
        if own.len() > rows - lines.len() {
            assert(line_runs(lines@) + Seq::<Seq<Run>>::empty() =~= line_runs(lines@));
            return lines;
        }
        let ghost before = lines@;
        let ghost added = own@;
        lines.append(&mut own);
        proof {
            assert(lines@ =~= before + added);
            assert(line_runs(lines@) =~= line_runs(before) + line_runs(added));
            let rest = form_rows(*form, available as int, i + 1, lines@.len() as int);
            assert(line_runs(before) + (line_runs(added) + rest) =~= line_runs(lines@) + rest);
        }
        i += 1;
    }
    assert(line_runs(lines@) + Seq::<Seq<Run>>::empty() =~= line_runs(lines@));
    lines
}

/// The last line: why the form was refused, else what the keys do here.
pub open spec fn footer_run(form: FormState) -> Run {
    match form.submit_error {
        Some(error) => run("⚠ "@ + error@, Style::with_fg(Color::Red)),
        None => dim_run(
            if form.focus >= form.fields@.len() {
                ""@
            } else {
                match form.fields@[form.focus as int].kind {
                    ParamKind::Bool => "space flips the toggle"@,
                    ParamKind::Int => "↑/↓ steps the value"@,
                    _ => "↑/↓ selects candidate · enter/→ accepts"@,
                }
            },
        ),
    }
}

/// The last line of a form.
pub fn form_footer(form: &FormState) -> (r: Line)
    ensures
        runs_of(r.spans@) == seq![footer_run(*form)],
{
    match &form.submit_error {
        Some(error) => {
            let mut text = "⚠ ".to_owned();
            text.append(error.as_str());
            one_run(text, Style::new().fg(Color::Red))
        },
        None => {
            let hint = match form.focused() {
                Some(field) => match field.kind {
                    ParamKind::Bool => "space flips the toggle",
                    ParamKind::Int => "↑/↓ steps the value",
                    _ => "↑/↓ selects candidate · enter/→ accepts",
                },
                None => "",
            };
            one_run(hint.to_owned(), Style::new().fg(Color::DarkGray))
        },
    }
}

/// The title of a form.
pub open spec fn form_title_of(task: Seq<char>) -> Seq<char> {
    " Run "@ + task
        + "  — [tab] next/refresh  [↑↓] move  [enter] accept/next/submit  [ctrl-enter] submit  [esc] cancel "@
}

/// What is drawn of a form.
#[derive(Debug)]
pub struct FormView {
    pub title: String,
    /// The fields and the last line, where there is room for them.
    pub body: Option<(Vec<Line>, Line)>,
}

/// What is drawn of the form on a screen.
pub fn form_view(app: &App, area: Rect) -> (r: Option<FormView>)
    ensures
        r is Some <==> app.form is Some && area.height >= 3 && area.width > 0,
        match (r, app.form) {
            (Some(view), Some(form)) => {
                &&& view.title@ == form_title_of(form.task@)
                &&& match view.body {
                    Some((lines, footer)) => {
                        &&& area.height >= 4
                        &&& line_runs(lines@) == form_rows(form, area.height - 3, 0, 0)
                        &&& runs_of(footer.spans@) == seq![footer_run(form)]
                    },
                    None => area.height < 4,
                }
            },
            _ => true,
        },
{
    if area.height < 3 || area.width == 0 {
        return None;
    }
    match &app.form {
        None => None,
        Some(form) => {
            let mut title = " Run ".to_owned();
            title.append(form.task.as_str());
            title.append(
                "  — [tab] next/refresh  [↑↓] move  [enter] accept/next/submit  [ctrl-enter] submit  [esc] cancel ",
            );
            let inside = inner(area);
            let body = if inside.height < 2 {
                None
            } else {
                Some((form_lines(form, inside.height - 1), form_footer(form)))
            };
            Some(FormView { title, body })
        },
    }
}

/// The row of the input of a form's `k`th field.
pub open spec fn input_row_of(form: FormState, k: int) -> Seq<Run> {
    input_row(form.fields@[k], k == form.focus)
}

proof fn lemma_field_rows(field: Field, focused: bool, most: int)
    requires
        most >= 1,
    ensures
        1 <= field_rows(field, focused, most).len() <= most,
        field_rows(field, focused, most)[0] == input_row(field, focused),
{
}

proof fn lemma_rows_contain(a: Seq<Seq<Run>>, b: Seq<Seq<Run>>, row: Seq<Run>)
    requires
        a.contains(row) || b.contains(row),
    ensures
        (a + b).contains(row),
{
    if a.contains(row) {
        let i = a.index_of(row);
        assert((a + b)[i] == row);
    } else {
        let i = b.index_of(row);
        assert((a + b)[a.len() + i] == row);
    }
}

proof fn lemma_form_rows(form: FormState, available: int, from: int, used: int)
    requires
        0 <= from <= form.fields@.len(),
        0 <= used,
        used + (form.fields@.len() - from) <= available,
    ensures
        used + form_rows(form, available, from, used).len() <= available,
        forall|k: int|
            from <= k < form.fields@.len() ==> form_rows(form, available, from, used).contains(
                #[trigger] input_row_of(form, k),
            ),
    decreases form.fields@.len() - from,
{
    if from < form.fields@.len() {
        let later = form.fields@.len() - from - 1;
        let most = available - used - later;
        let rows = field_rows(form.fields@[from], from == form.focus, most);
        lemma_field_rows(form.fields@[from], from == form.focus, most);
        lemma_form_rows(form, available, from + 1, used + rows.len());
        let rest = form_rows(form, available, from + 1, used + rows.len());
        assert forall|k: int| from <= k < form.fields@.len() implies form_rows(
            form,
            available,
            from,
            used,
        ).contains(#[trigger] input_row_of(form, k)) by {
            let row = input_row_of(form, k);
            if k == from {
                assert(rows[0] == row);
            }
            lemma_rows_contain(rows, rest, row);
        }
    }
}

/// Where every field can have a row, every field has one: an open list of
/// candidates never pushes another field's input off the screen.
pub proof fn every_field_gets_a_row(form: FormState, available: int)
    requires
        form.fields@.len() <= available,
    ensures
        form_rows(form, available, 0, 0).len() <= available,
        forall|k: int|
            0 <= k < form.fields@.len() ==> form_rows(form, available, 0, 0).contains(
                #[trigger] input_row_of(form, k),
            ),
{
    lemma_form_rows(form, available, 0, 0);
}

/// A field's row shows its prompt, marked where it has the keys and where an
/// answer is required, and its value as it is typed; a yes-or-no field shows a
/// box that is ticked when it is yes.
pub proof fn a_field_shows_its_value(field: Field, focused: bool)
    ensures
        ({
            let row = input_row(field, focused);
            &&& row.len() == 3
            &&& row[0].text == (if focused {
                "▶ "@
            } else {
                "  "@
            }) + field.prompt@ + (if field.required {
                "*"@
            } else {
                ""@
            }) + ": "@
            &&& field.kind != ParamKind::Bool ==> row[1].text == field.value@
            &&& field.kind == ParamKind::Bool && trimmed(field.value@) == "true"@ ==> row[1].text
                == "[x] true"@
            &&& field.kind == ParamKind::Bool && trimmed(field.value@) != "true"@ ==> row[1].text
                == "[ ] false"@
        }),
{
}

/// The highlighted candidate is drawn apart from the others, and it is the one
/// that would be accepted.
pub proof fn the_accepted_candidate_is_drawn_apart(field: Field, room: int, i: int)
    requires
        0 <= i < lesser(room, field.shown().len() as int),
    ensures
        ({
            let rows = candidate_rows(field, room);
            let start = field.window_start(lesser(room, field.shown().len() as int));
            &&& rows.len() == lesser(room, field.shown().len() as int)
            &&& rows[i] == candidate_row(
                field.shown()[start + i],
                start + i == field.chosen(),
            )
            &&& start + i == field.chosen() ==> rows[i][0].text == "    "@ + field.accepted()
                && rows[i][0].style.bg == Some(Color::DarkGray)
            &&& start + i != field.chosen() ==> rows[i][0].style.bg is None
        }),
{
}

/// Candidates that are on their way are announced, and ones that could not be
/// had are told with the reason.
pub proof fn the_state_of_candidates_is_told(field: Field)
    ensures
        field.candidates is Loading ==> status_rows(field).len() == 1,
        field.candidates matches CandidateState::Failed { message, log_path } ==> status_rows(
            field,
        ).len() == 1 && status_rows(field)[0][0].style.fg == Some(Color::Red) && has_part(
            status_rows(field)[0][0].text,
            message@,
        ),
        field.candidates is Absent || field.candidates is Static || field.candidates is Loaded
            ==> status_rows(field).len() == 0,
{
    if let CandidateState::Failed { message, log_path } = field.candidates {
        let text = status_rows(field)[0][0].text;
        let at = "  ⚠ "@.len() as int;
        assert(text.subrange(at, at + message@.len()) =~= message@);
    }
}

/// Why a form was refused is told at its foot, before any hint.
pub proof fn a_refusal_is_told_at_the_foot(form: FormState)
    ensures
        form.submit_error matches Some(error) ==> has_suffix(footer_run(form).text, error@)
            && footer_run(form).style.fg == Some(Color::Red),
        form.submit_error is None ==> footer_run(form).style.fg == Some(Color::DarkGray),
        has_part(form_title_of(form.task@), form.task@),
{
    if let Some(error) = form.submit_error {
        let text = footer_run(form).text;
        assert(text.skip(text.len() - error@.len()) =~= error@);
    }
    let title = form_title_of(form.task@);
    let at = " Run "@.len() as int;
    assert(title.subrange(at, at + form.task@.len()) =~= form.task@);
}

/// Where nothing is wrong the foot tells the keys of the field that has the
/// focus: Space for a yes-or-no field, the arrows for a number, and the arrows
/// and Enter for candidates.
pub proof fn the_foot_tells_the_keys_of_the_field(form: FormState)
    requires
        form.submit_error is None,
        form.focus < form.fields@.len(),
    ensures
        ({
            let kind = form.fields@[form.focus as int].kind;
            let foot = footer_run(form).text;
            &&& kind == ParamKind::Bool ==> foot == "space flips the toggle"@
            &&& kind == ParamKind::Int ==> foot == "↑/↓ steps the value"@
            &&& kind == ParamKind::Text || kind == ParamKind::Choice ==> foot
                == "↑/↓ selects candidate · enter/→ accepts"@
        }),
{
}

} // verus!
