//! The keys of the form.
use crate::app::{App, ViewMode};
use crate::commands::{request_form_completion, requests, submits, try_submit_form};
use crate::config::ParamKind;
use crate::effects::{effects, no_effects, nothing, Effect, EffectView};
use crate::form::{CandidateState, Field, FormState};
use crate::keys::{KeyCode, KeyEvent};
use crate::panes::Focus;
use crate::text::{a_number_reads_back, code_point, is_digit, parsed_int, trimmed};
use vstd::prelude::*;

verus! {

/// Whether `new` is the field `old` with another value.
pub open spec fn revalued(old: Field, new: Field, value: Seq<char>) -> bool {
    new == (Field { value: new.value, ..old }) && new.value@ == value
}

/// Whether `new` is the field `old` with more typed into it, which puts the
/// highlight back on the first candidate.
pub open spec fn retyped(old: Field, new: Field, value: Seq<char>) -> bool {
    new == (Field { value: new.value, candidate_highlight: 0, ..old }) && new.value@ == value
}

/// Whether `new` is the field `old` after a key.
pub open spec fn field_key_acts(old: Field, new: Field, code: KeyCode) -> bool {
    match code {
        KeyCode::Up => if old.kind == ParamKind::Int {
            revalued(old, new, old.stepped(1))
        } else {
            new == (Field {
                candidate_highlight: if old.candidate_highlight > 0 {
                    (old.candidate_highlight - 1) as usize
                } else {
                    0
                },
                ..old
            })
        },
        KeyCode::Down => if old.kind == ParamKind::Int {
            revalued(old, new, old.stepped(-1))
        } else {
            new == (Field {
                candidate_highlight: if old.candidate_highlight + 1 < old.shown().len() {
                    (old.candidate_highlight + 1) as usize
                } else {
                    old.candidate_highlight
                },
                ..old
            })
        },
        KeyCode::Char(c) => match old.kind {
            ParamKind::Bool => if c == ' ' {
                revalued(old, new, old.flipped())
            } else {
                new == old
            },
            ParamKind::Int => if is_digit(c) || (c == '-' && old.value@.len() == 0) {
                revalued(old, new, old.value@.push(c))
            } else {
                new == old
            },
            _ => retyped(old, new, old.value@.push(c)),
        },
        KeyCode::Backspace => revalued(
            old,
            new,
            if old.value@.len() == 0 {
                old.value@
            } else {
                old.value@.drop_last()
            },
        ),
        KeyCode::Right => revalued(old, new, old.accepted()),
        _ => new == old,
    }
}

/// Gives a key to a field. A number takes digits, and a minus sign first; a
/// yes-or-no field takes only the space that flips it.
pub fn field_key(code: KeyCode, field: &mut Field)
    ensures
        field_key_acts(*old(field), *final(field), code),
{
    match code {
        KeyCode::Up => {
            if field.kind == ParamKind::Int {
                field.step_int(1);
            } else if field.candidate_highlight > 0 {
                field.candidate_highlight -= 1;
            }
        },
        KeyCode::Down => {
            if field.kind == ParamKind::Int {
                field.step_int(-1);
            } else {
                let shown: usize = field.visible_candidates().len();
                if shown > 0 && field.candidate_highlight < shown - 1 {
                    field.candidate_highlight += 1;
                }
            }
        },
        KeyCode::Char(c) => match field.kind {
            ParamKind::Bool => {
                if c == ' ' {
                    field.toggle_bool();
                }
            },
            ParamKind::Int => {
                let code: u32 = code_point(c);
                let digit = code >= 48 && code <= 57;
                if digit || (c == '-' && field.value.as_str().is_empty()) {
                    field.value.push(c);
                }
            },
            _ => {
                field.value.push(c);
                field.candidate_highlight = 0;
            },
        },
        KeyCode::Backspace => {
            let _gone = field.value.pop();
        },
        KeyCode::Right => field.accept_highlighted_candidate(),
        _ => {},
    }
}

/// Whether `new` is the field `old` after Enter: a yes-or-no field is flipped,
/// any other takes its highlighted candidate.
pub open spec fn entered(old: Field, new: Field) -> bool {
    revalued(
        old,
        new,
        if old.kind == ParamKind::Bool {
            old.flipped()
        } else {
            old.accepted()
        },
    )
}

/// Whether `new` is `old` with these fields in its form, and the focus there.
pub open spec fn refills(
    old: App,
    form: FormState,
    fields: Seq<Field>,
    focus: int,
    new: App,
) -> bool {
    &&& new == (App { form: new.form, ..old })
    &&& match new.form {
        Some(after) => {
            &&& after == (FormState { fields: after.fields, focus: after.focus, ..form })
            &&& after.fields@ == fields
            &&& after.focus as int == focus
        },
        None => false,
    }
}

/// Whether the focused field's candidates can be asked for again.
pub open spec fn refreshable(form: FormState) -> bool {
    form.focus < form.fields@.len() && match form.fields@[form.focus as int].candidates {
        CandidateState::Loaded(_) => true,
        CandidateState::Loading => true,
        CandidateState::Failed { .. } => true,
        _ => false,
    }
}

/// Whether `new` is `old` after Enter in its form: the field takes it, and
/// then the next field has the focus, or on the last one the form is
/// submitted.
#[verifier::opaque]
pub open spec fn enter_acts(
    old: App,
    form: FormState,
    new: App,
    fx: Seq<EffectView>,
) -> bool {
    let n = form.fields@.len() as int;
    if form.focus >= n {
        submits(old, form, form.fields@, new, fx)
    } else {
        exists|field: Field|
            {
                let fields = form.fields@.update(form.focus as int, field);
                &&& #[trigger] entered(form.fields@[form.focus as int], field)
                &&& if form.focus + 1 >= n {
                    submits(old, form, fields, new, fx)
                } else {
                    refills(old, form, fields, form.focus + 1, new) && fx == no_effects()
                }
            }
    }
}

/// Whether `new` is `old` after a key of its form.
pub open spec fn form_key_acts(old: App, new: App, key: KeyEvent, fx: Seq<EffectView>) -> bool {
    match old.form {
        None => new == old && fx == no_effects(),
        Some(form) => {
            let n = form.fields@.len() as int;
            match key.code {
                KeyCode::Esc => {
                    &&& new == (App {
                        form: None,
                        view_mode: ViewMode::Tasks,
                        focus: Focus::Panel,
                        ..old
                    })
                    &&& fx == no_effects()
                },
                KeyCode::Enter => if key.control {
                    submits(old, form, form.fields@, new, fx)
                } else {
                    enter_acts(old, form, new, fx)
                },
                KeyCode::Tab => if refreshable(form) {
                    requests(
                        old,
                        new,
                        form.task@,
                        form.fields@[form.focus as int].name@,
                        true,
                        fx,
                    )
                } else {
                    &&& refills(
                        old,
                        form,
                        form.fields@,
                        if n == 0 {
                            form.focus as int
                        } else {
                            (form.focus + 1) % n
                        },
                        new,
                    )
                    &&& fx == no_effects()
                },
                KeyCode::BackTab => {
                    &&& refills(
                        old,
                        form,
                        form.fields@,
                        if n == 0 {
                            form.focus as int
                        } else if form.focus == 0 {
                            n - 1
                        } else {
                            form.focus - 1
                        },
                        new,
                    )
                    &&& fx == no_effects()
                },
                _ => edits(old, form, new, key.code) && fx == no_effects(),
            }
        },
    }
}

/// Whether `new` is `old` after the focused field got a key.
pub open spec fn edits(old: App, form: FormState, new: App, code: KeyCode) -> bool {
    if form.focus < form.fields@.len() {
        &&& new == (App { form: new.form, ..old })
        &&& match new.form {
            Some(after) => {
                &&& after == (FormState { fields: after.fields, ..form })
                &&& after.fields@ == form.fields@.update(
                    form.focus as int,
                    after.fields@[form.focus as int],
                )
                &&& field_key_acts(
                    form.fields@[form.focus as int],
                    after.fields@[form.focus as int],
                    code,
                )
            },
            None => false,
        }
    } else {
        new == old
    }
}

fn enter_field(form: &mut FormState)
    requires
        old(form).focus < old(form).fields@.len(),
    ensures
        *final(form) == (FormState { fields: final(form).fields, ..*old(form) }),
        final(form).fields@ == old(form).fields@.update(
            old(form).focus as int,
            final(form).fields@[old(form).focus as int],
        ),
        entered(
            old(form).fields@[old(form).focus as int],
            final(form).fields@[old(form).focus as int],
        ),
{
    let at: usize = form.focus;
    let field = &mut form.fields[at];
    if field.kind == ParamKind::Bool {
        field.toggle_bool();
    } else {
        field.accept_highlighted_candidate();
    }
}

fn edit_field(code: KeyCode, form: &mut FormState)
    ensures
        *final(form) == (FormState { fields: final(form).fields, ..*old(form) }),
        old(form).focus < old(form).fields@.len() ==> {
            &&& final(form).fields@ == old(form).fields@.update(
                old(form).focus as int,
                final(form).fields@[old(form).focus as int],
            )
            &&& field_key_acts(
                old(form).fields@[old(form).focus as int],
                final(form).fields@[old(form).focus as int],
                code,
            )
        },
        old(form).focus >= old(form).fields@.len() ==> *final(form) == *old(form),
{
    if form.focus < form.fields.len() {
        let at: usize = form.focus;
        field_key(code, &mut form.fields[at]);
    }
}

fn enter_and_move_on(form: &mut FormState) -> (r: bool)
    ensures
        *final(form) == (FormState {
            fields: final(form).fields,
            focus: final(form).focus,
            ..*old(form)
        }),
        old(form).focus >= old(form).fields@.len() ==> r && *final(form) == *old(form),
        old(form).focus < old(form).fields@.len() ==> {
            let at = old(form).focus as int;
            &&& final(form).fields@ == old(form).fields@.update(at, final(form).fields@[at])
            &&& entered(old(form).fields@[at], final(form).fields@[at])
            &&& r == (at + 1 >= old(form).fields@.len())
            &&& final(form).focus as int == (if r {
                at
            } else {
                at + 1
            })
        },
{
    if form.focus >= form.fields.len() {
        return true;
    }
    enter_field(form);
    if form.focus + 1 >= form.fields.len() {
        return true;
    }
    proof {
        vstd::arithmetic::div_mod::lemma_small_mod(
            (form.focus + 1) as nat,
            form.fields@.len() as nat,
        );
    }
    form.focus_next();
    false
}

proof fn lemma_submits_from(
    old: App,
    form: FormState,
    mid: App,
    mid_form: FormState,
    new: App,
    fx: Seq<EffectView>,
)
    requires
        mid == (App { form: mid.form, ..old }),
        mid_form == (FormState { fields: mid_form.fields, ..form }),
        submits(mid, mid_form, mid_form.fields@, new, fx),
    ensures
        submits(old, form, mid_form.fields@, new, fx),
{
}

fn press_enter(app: &mut App) -> (r: Vec<Effect>)
    requires
        old(app).form is Some,
    ensures
        enter_acts(*old(app), old(app).form->0, *final(app), effects(r@)),
{
    let ghost start = *app;
    let ghost before = app.form->0;
    let ghost at = before.focus as int;
    let last = match &mut app.form {
        Some(form) => enter_and_move_on(form),
        None => true,
    };
    let ghost mid = *app;
    let ghost mid_form = app.form->0;
    if last {
        let r = try_submit_form(app);
        proof {
            reveal(enter_acts);
            lemma_submits_from(start, before, mid, mid_form, *app, effects(r@));
            if at < before.fields@.len() {
                assert(entered(before.fields@[at], mid_form.fields@[at]));
            }
        }
        r
    } else {
        proof {
            reveal(enter_acts);
            assert(entered(before.fields@[at], mid_form.fields@[at]));
        }
        nothing()
    }
}

fn press_tab(app: &mut App) -> (r: Vec<Effect>)
    requires
        old(app).form is Some,
    ensures
        form_key_acts(
            *old(app),
            *final(app),
            (KeyEvent { code: KeyCode::Tab, control: false }),
            effects(r@),
        ),
{
    let mut again: Option<(String, String)> = None;
    match &app.form {
        Some(form) => {
            if let Some(field) = form.focused() {
                let refresh = match &field.candidates {
                    CandidateState::Loaded(_) => true,
                    CandidateState::Loading => true,
                    CandidateState::Failed { .. } => true,
                    _ => false,
                };
                if refresh {
                    again = Some((form.task.clone(), field.name.clone()));
                }
            }
        },
        None => {},
    }
    match again {
        Some((task, param)) => request_form_completion(app, task.as_str(), param.as_str(), true),
        None => {
            match &mut app.form {
                Some(form) => form.focus_next(),
                None => {},
            }
            nothing()
        },
    }
}

/// A key of the form: moving between fields, editing one, submitting, or
/// giving the panel back to the tasks table.
pub fn handle_form_key(key: KeyEvent, app: &mut App) -> (r: Vec<Effect>)
    ensures
        form_key_acts(*old(app), *final(app), key, effects(r@)),
{
    if app.form.is_none() {
        return nothing();
    }
    match key.code {
        KeyCode::Esc => {
            app.form = None;
            app.set_view_mode(ViewMode::Tasks);
            app.focus = Focus::Panel;
            nothing()
        },
        KeyCode::Enter => {
            if key.control {
                try_submit_form(app)
            } else {
                press_enter(app)
            }
        },
        KeyCode::Tab => press_tab(app),
        KeyCode::BackTab => {
            match &mut app.form {
                Some(form) => form.focus_prev(),
                None => {},
            }
            nothing()
        },
        _ => {
            match &mut app.form {
                Some(form) => edit_field(key.code, form),
                None => {},
            }
            nothing()
        },
    }
}

/// A field takes what its kind takes: a text any character, a number digits and
/// a sign at its start, and a yes-or-no field only Space, which flips it. Up
/// makes a number larger and Down smaller; elsewhere they move the highlight
/// among the candidates. Backspace takes back the last character, and Right the
/// highlighted candidate.
pub proof fn a_field_takes_its_keys(old: Field, new: Field, code: KeyCode)
    requires
        field_key_acts(old, new, code),
    ensures
        ({
            let number = old.kind == ParamKind::Int;
            let flag = old.kind == ParamKind::Bool;
            &&& code is Char && !number && !flag ==> new.value@ == old.value@.push(code->Char_0)
            &&& code is Char && number ==> new.value@ == (if 48 <= code->Char_0 as int <= 57 || (
            code->Char_0 == '-' && old.value@.len() == 0) {
                old.value@.push(code->Char_0)
            } else {
                old.value@
            })
            &&& code is Char && flag && code->Char_0 != ' ' ==> new.value == old.value
            &&& code == KeyCode::Char(' ') && flag && trimmed(old.value@) == "true"@ ==> new.value@
                == "false"@
            &&& code == KeyCode::Char(' ') && flag && trimmed(old.value@) != "true"@ ==> new.value@
                == "true"@
            &&& code == KeyCode::Backspace && old.value@.len() > 0 ==> new.value@
                == old.value@.drop_last()
            &&& code == KeyCode::Right && old.shown().len() > 0 ==> old.shown().contains(new.value@)
            &&& !number && code == KeyCode::Up && old.candidate_highlight > 0
                ==> new.candidate_highlight == old.candidate_highlight - 1
            &&& !number && code == KeyCode::Down && old.candidate_highlight + 1 < old.shown().len()
                && old.candidate_highlight < usize::MAX ==> new.candidate_highlight == old.candidate_highlight + 1
            &&& !number && (code == KeyCode::Up || code == KeyCode::Down) ==> new.value == old.value
            &&& new.name == old.name && new.kind == old.kind && new.required == old.required
        }),
{
    if code == KeyCode::Right && old.shown().len() > 0 {
        assert(old.shown()[old.chosen()] == new.value@);
    }
}

/// Up adds one to a number and Down takes one off, within the field's bounds.
pub proof fn up_adds_and_down_takes_off(old: Field, new: Field, code: KeyCode)
    requires
        field_key_acts(old, new, code),
        old.kind == ParamKind::Int,
        old.number() matches Some(n) && i64::MIN < n < i64::MAX,
        code == KeyCode::Up || code == KeyCode::Down,
    ensures
        ({
            let n = old.number()->0;
            let after = parsed_int(new.value@);
            &&& code == KeyCode::Up && (old.int_min matches Some(min) ==> min <= n + 1) && (
            old.int_max matches Some(max) ==> n + 1 <= max) ==> after == Some(n + 1)
            &&& code == KeyCode::Down && (old.int_min matches Some(min) ==> min <= n - 1) && (
            old.int_max matches Some(max) ==> n - 1 <= max) ==> after == Some(n - 1)
        }),
{
    let n = old.number()->0;
    let delta: int = if code == KeyCode::Up {
        1
    } else {
        -1
    };
    a_number_reads_back(crate::form::bounded(n + delta, old.int_min, old.int_max));
}

/// Escape leaves the form for the tasks and runs nothing. Back Tab goes to the
/// field before, and Tab to the next one, unless the field's candidates come
/// from a command: those it asks for anew, whatever is known of them.
#[verifier::spinoff_prover]
pub proof fn a_form_is_left_and_walked(
    old: App,
    new: App,
    key: KeyEvent,
    fx: Seq<EffectView>,
)
    requires
        form_key_acts(old, new, key, fx),
        old.form is Some,
        old.form->0.focus < old.form->0.fields@.len(),
    ensures
        ({
            let form = old.form->0;
            let n = form.fields@.len();
            &&& key.code == KeyCode::Esc ==> new.form is None && new.view_mode == ViewMode::Tasks
                && new.focus == Focus::Panel && fx.len() == 0
            &&& key.code == KeyCode::BackTab ==> fx.len() == 0 && (
            new.form matches Some(after) && after.fields@ == form.fields@ && after.focus == (if form.focus
                == 0 {
                n - 1
            } else {
                form.focus - 1
            }))
            &&& key.code == KeyCode::Tab && (
            form.fields@[form.focus as int].candidates is Absent
                || form.fields@[form.focus as int].candidates is Static) ==> fx.len() == 0 && (
            new.form matches Some(after) && after.fields@ == form.fields@ && after.focus == (if form.focus
                + 1 == n {
                0
            } else {
                form.focus + 1
            }))
            &&& key.code == KeyCode::Tab && (
            form.fields@[form.focus as int].candidates is Loaded
                || form.fields@[form.focus as int].candidates is Loading
                || form.fields@[form.focus as int].candidates is Failed) ==> fx.len() == 1 && (
            fx[0] matches EffectView::ResolveCompletions {
                task,
                param,
                partial,
                force_refresh,
                request_id,
            } && task == form.task@ && param == form.fields@[form.focus as int].name@
                && force_refresh) && (new.form matches Some(after) && after.focus == form.focus)
            &&& key.code != KeyCode::Enter && key.code != KeyCode::Esc ==> new.view_mode
                == old.view_mode && forall|i: int|
                0 <= i < fx.len() ==> !(#[trigger] fx[i] is RunTask)
        }),
{
    let form = old.form->0;
    let n = form.fields@.len() as int;
    if form.focus + 1 == n {
        vstd::arithmetic::div_mod::lemma_mod_self_0(n);
    } else {
        vstd::arithmetic::div_mod::lemma_small_mod((form.focus + 1) as nat, n as nat);
    }
}

/// With Ctrl, Enter submits the form from any field. Without it, Enter takes the
/// highlighted candidate, or flips a yes-or-no field, and goes on; from the last
/// field it submits.
#[verifier::spinoff_prover]
#[verifier::rlimit(60)]
pub proof fn enter_goes_on_and_in_the_end_submits(
    old: App,
    new: App,
    control: bool,
    fx: Seq<EffectView>,
)
    requires
        form_key_acts(old, new, (KeyEvent { code: KeyCode::Enter, control }), fx),
        old.form is Some,
        old.form->0.focus < old.form->0.fields@.len(),
    ensures
        control ==> submits(old, old.form->0, old.form->0.fields@, new, fx),
        !control && old.form->0.focus + 1 < old.form->0.fields@.len() ==> {
            let form = old.form->0;
            let field = form.fields@[form.focus as int];
            &&& fx.len() == 0
            &&& new.view_mode == old.view_mode
            &&& new.form matches Some(after) && {
                &&& after.focus == form.focus + 1
                &&& after.fields@.len() == form.fields@.len()
                &&& field.kind != ParamKind::Bool && field.shown().len() == 0
                    ==> after.fields@[form.focus as int].value@ == field.value@
                &&& field.kind != ParamKind::Bool && field.shown().len() > 0
                    ==> field.shown().contains(after.fields@[form.focus as int].value@)
                &&& field.kind == ParamKind::Bool && trimmed(field.value@) == "true"@
                    ==> after.fields@[form.focus as int].value@ == "false"@
                &&& forall|i: int|
                    0 <= i < form.fields@.len() && i != form.focus ==> #[trigger] after.fields@[i]
                        == form.fields@[i]
            }
        },
        !control && old.form->0.focus + 1 == old.form->0.fields@.len() ==> {
            let form = old.form->0;
            let field = form.fields@[form.focus as int];
            exists|last: Field|
                {
                    &&& #[trigger] last.name == field.name && last.kind == field.kind
                        && last.required == field.required
                    &&& field.kind != ParamKind::Bool && field.shown().len() == 0 ==> last.value@
                        == field.value@
                    &&& submits(
                        old,
                        form,
                        form.fields@.update(form.focus as int, last),
                        new,
                        fx,
                    )
                }
        },
{
    reveal(enter_acts);
    let form = old.form->0;
    if !control {
        let at = form.focus as int;
        let n = form.fields@.len();
        let field = choose|field: Field|
            {
                let fields = form.fields@.update(form.focus as int, field);
                &&& #[trigger] entered(form.fields@[form.focus as int], field)
                &&& if form.focus + 1 >= n {
                    submits(old, form, fields, new, fx)
                } else {
                    refills(old, form, fields, form.focus + 1, new) && fx == no_effects()
                }
            };
        let before = form.fields@[at];
        assert(entered(before, field));
        if before.kind != ParamKind::Bool && before.shown().len() > 0 {
            assert(before.shown()[before.chosen()] == field.value@);
        }
        assert(field.name == before.name);
    }
}

/// What is typed into a text puts the highlight back on the first candidate.
pub proof fn typing_starts_the_candidates_over(old: Field, new: Field, c: char)
    requires
        field_key_acts(old, new, KeyCode::Char(c)),
        old.kind != ParamKind::Int,
        old.kind != ParamKind::Bool,
    ensures
        new.candidate_highlight == 0,
        new.value@ == old.value@.push(c),
        new.candidates == old.candidates,
{
}

} // verus!
