//! What the rows of the tables and the form ask of the runner.
use crate::app::{
    describes_service, describes_task, selecting, services_rows, tasks_rows, App,
    OverlayItem, TaskStatusItem, ViewMode,
};
use crate::client::ServiceState;
use crate::config::{text_of, Task};
use crate::effects::{effects, just, no_effects, nothing, ControlAction, Effect, EffectView, OverlayCommand};
use crate::form::{submission, texts, Field, FormState};
use crate::names::{views, NameMap};
use crate::panels::{at_logs, return_to_logs};
use crate::status_table::selected_of;
use crate::text::same;
use vstd::prelude::*;

verus! {

/// The highlighted row of the services table.
pub open spec fn highlighted_service(app: App) -> Option<Seq<char>> {
    match selected_of(app.services_table@.highlight, services_rows(app).len() as int) {
        Some(i) => Some(services_rows(app)[i]),
        None => None,
    }
}

/// The highlighted row of the tasks table.
pub open spec fn highlighted_task(app: App) -> Option<Seq<char>> {
    match selected_of(app.tasks_table@.highlight, tasks_rows(app).len() as int) {
        Some(i) => Some(tasks_rows(app)[i]),
        None => None,
    }
}

/// How many rows the services table has.
pub fn service_total(app: &App) -> (r: usize)
    ensures
        r == services_rows(*app).len(),
{
    app.service_items().len()
}

/// How many rows the tasks table has.
pub fn task_total(app: &App) -> (r: usize)
    ensures
        r == tasks_rows(*app).len(),
{
    app.task_items().len()
}

/// The highlighted row of the tasks table.
pub fn highlighted_task_item(app: &App) -> (r: Option<TaskStatusItem>)
    ensures
        match r {
            Some(item) => highlighted_task(*app) == Some(item.name@) && describes_task(*app, item),
            None => highlighted_task(*app) is None,
        },
{
    let mut items = app.task_items();
    match app.tasks_table.selected_index(items.len()) {
        Some(at) => {
            assert(crate::app::task_names(items@)[at as int] == items@[at as int].name@);
            assert(describes_task(*app, items@[at as int]));
            Some(items.remove(at))
        },
        None => None,
    }
}

/// The highlighted row of the services table.
pub fn highlighted_service_item(app: &App) -> (r: Option<OverlayItem>)
    ensures
        match r {
            Some(item) => highlighted_service(*app) == Some(item.name@) && describes_service(
                *app,
                item,
            ),
            None => highlighted_service(*app) is None,
        },
{
    let mut items = app.service_items();
    match app.services_table.selected_index(items.len()) {
        Some(at) => {
            assert(crate::app::service_names(items@)[at as int] == items@[at as int].name@);
            assert(describes_service(*app, items@[at as int]));
            Some(items.remove(at))
        },
        None => None,
    }
}

/// The process id on record for a service.
pub open spec fn pid_of(app: App, name: Seq<char>) -> Option<i32> {
    if app.service_pids@.contains_key(name) {
        app.service_pids@[name]
    } else {
        None
    }
}

/// What Enter does to a service: stop what runs, start what does not. Of a
/// failure the process decides which. Nothing while it is changing state.
pub open spec fn toggle_action(state: ServiceState, pid: Option<i32>) -> Option<ControlAction> {
    match state {
        ServiceState::Ready | ServiceState::Running | ServiceState::Unhealthy => Some(
            ControlAction::Stop,
        ),
        ServiceState::Stopped | ServiceState::Lazy => Some(ControlAction::Start),
        ServiceState::Failed | ServiceState::DependencyFailed => Some(
            if pid is Some {
                ControlAction::Stop
            } else {
                ControlAction::Start
            },
        ),
        ServiceState::Pending | ServiceState::Building | ServiceState::Starting
        | ServiceState::Stopping => None,
    }
}

/// Whether a service in a state can be restarted.
pub open spec fn restartable(state: ServiceState) -> bool {
    state == ServiceState::Ready || state == ServiceState::Running || state
        == ServiceState::Unhealthy || state == ServiceState::Failed || state
        == ServiceState::DependencyFailed || state == ServiceState::Stopped
}

/// Whether a service in a state can be rebuilt and restarted.
pub open spec fn hard_restartable(state: ServiceState) -> bool {
    restartable(state) || state == ServiceState::Lazy
}

/// The command to start a service.
pub fn overlay_start_command(name: String) -> (r: OverlayCommand)
    ensures
        r == (OverlayCommand { name, action: ControlAction::Start }),
{
    OverlayCommand { name, action: ControlAction::Start }
}

/// The command to stop a service.
pub fn overlay_stop_command(name: String) -> (r: OverlayCommand)
    ensures
        r == (OverlayCommand { name, action: ControlAction::Stop }),
{
    OverlayCommand { name, action: ControlAction::Stop }
}

/// The command to restart a service.
pub fn overlay_restart_command(name: String) -> (r: OverlayCommand)
    ensures
        r == (OverlayCommand { name, action: ControlAction::Restart }),
{
    OverlayCommand { name, action: ControlAction::Restart }
}

/// The command to rebuild and restart a service.
pub fn overlay_hard_restart_command(name: String) -> (r: OverlayCommand)
    ensures
        r == (OverlayCommand { name, action: ControlAction::HardRestart }),
{
    OverlayCommand { name, action: ControlAction::HardRestart }
}

/// What a command asks, as contracts speak of it.
pub open spec fn asked_of(command: Option<OverlayCommand>) -> Option<(Seq<char>, ControlAction)> {
    match command {
        Some(command) => Some((command.name@, command.action)),
        None => None,
    }
}

/// What Enter asks of the highlighted service.
pub open spec fn toggle_asked(app: App) -> Option<(Seq<char>, ControlAction)> {
    match highlighted_service(app) {
        Some(name) => match toggle_action(app.services_state@[name], pid_of(app, name)) {
            Some(action) => Some((name, action)),
            None => None,
        },
        None => None,
    }
}

/// What `r` asks of the highlighted service.
pub open spec fn restart_asked(app: App) -> Option<(Seq<char>, ControlAction)> {
    match highlighted_service(app) {
        Some(name) => if restartable(app.services_state@[name]) {
            Some((name, ControlAction::Restart))
        } else {
            None
        },
        None => None,
    }
}

/// What `R` asks of the highlighted service.
pub open spec fn hard_restart_asked(app: App) -> Option<(Seq<char>, ControlAction)> {
    match highlighted_service(app) {
        Some(name) => if hard_restartable(app.services_state@[name]) {
            Some((name, ControlAction::HardRestart))
        } else {
            None
        },
        None => None,
    }
}

/// The command for Enter on the highlighted service.
pub fn overlay_toggle_command(app: &App) -> (r: Option<OverlayCommand>)
    ensures
        asked_of(r) == toggle_asked(*app),
{
    let item = match highlighted_service_item(app) {
        Some(item) => item,
        None => {
            return None;
        },
    };
    match item.state {
        ServiceState::Ready | ServiceState::Running | ServiceState::Unhealthy => Some(
            overlay_stop_command(item.name),
        ),
        ServiceState::Stopped | ServiceState::Lazy => Some(overlay_start_command(item.name)),
        ServiceState::Failed | ServiceState::DependencyFailed => {
            if item.pid.is_some() {
                Some(overlay_stop_command(item.name))
            } else {
                Some(overlay_start_command(item.name))
            }
        },
        ServiceState::Pending | ServiceState::Building | ServiceState::Starting
        | ServiceState::Stopping => None,
    }
}

/// The command for `r` on the highlighted service.
pub fn highlighted_service_restart_command(app: &App) -> (r: Option<OverlayCommand>)
    ensures
        asked_of(r) == restart_asked(*app),
{
    let item = match highlighted_service_item(app) {
        Some(item) => item,
        None => {
            return None;
        },
    };
    match item.state {
        ServiceState::Ready | ServiceState::Running | ServiceState::Unhealthy
        | ServiceState::Failed | ServiceState::DependencyFailed | ServiceState::Stopped => Some(
            overlay_restart_command(item.name),
        ),
        _ => None,
    }
}

/// The command for `R` on the highlighted service.
pub fn highlighted_service_hard_restart_command(app: &App) -> (r: Option<OverlayCommand>)
    ensures
        asked_of(r) == hard_restart_asked(*app),
{
    let item = match highlighted_service_item(app) {
        Some(item) => item,
        None => {
            return None;
        },
    };
    match item.state {
        ServiceState::Ready | ServiceState::Running | ServiceState::Unhealthy
        | ServiceState::Failed | ServiceState::DependencyFailed | ServiceState::Stopped
        | ServiceState::Lazy => Some(overlay_hard_restart_command(item.name)),
        _ => None,
    }
}

/// What a command comes to.
pub open spec fn control_effects(asked: Option<(Seq<char>, ControlAction)>) -> Seq<EffectView> {
    match asked {
        Some((name, action)) => seq![EffectView::Control { name, action }],
        None => no_effects(),
    }
}

/// Hands a command on, if there is one.
pub fn dispatch(command: Option<OverlayCommand>) -> (r: Vec<Effect>)
    ensures
        effects(r@) == control_effects(asked_of(command)),
{
    match command {
        Some(command) => just(Effect::Control(command)),
        None => nothing(),
    }
}

/// Runs a task that has no parameters.
pub fn dispatch_run_task(name: String) -> (r: Vec<Effect>)
    ensures
        effects(r@) == seq![
            EffectView::RunTask { name: name@, params: Map::<Seq<char>, Seq<char>>::empty() },
        ],
{
    let params: NameMap<String> = NameMap::new();
    assert(texts(params@) =~= Map::<Seq<char>, Seq<char>>::empty());
    just(Effect::RunTask { name, params })
}

/// A task was run: its output is shown, whatever the filter said. The panel
/// stays open.
pub fn after_task_run(task_name: &str, app: &mut App)
    ensures
        *final(app) == (App { filter: final(app).filter, ..*old(app) }),
        final(app).filter@ == selecting(old(app).filter@, task_name@),
{
    let _changed = app.filter.select_name(task_name);
}

/// The requests that a form has made, as contracts speak of them.
#[verifier::ext_equal]
pub struct Asking {
    pub fields: Seq<Field>,
    pub counter: u64,
    pub in_flight: Map<Seq<char>, u64>,
}

/// The requests that a form has made.
pub open spec fn asking(form: FormState) -> Asking {
    Asking {
        fields: form.fields@,
        counter: form.request_counter,
        in_flight: form.in_flight@,
    }
}

/// The number of the next request.
pub open spec fn next_number(counter: u64) -> u64 {
    ((counter + 1) % 0x1_0000_0000_0000_0000) as u64
}

/// A form that has asked for one parameter's candidates.
pub open spec fn having_asked(a: Asking, param: Seq<char>) -> Asking {
    Asking {
        fields: FormState::fields_loading(a.fields, param),
        counter: next_number(a.counter),
        in_flight: a.in_flight.insert(param, next_number(a.counter)),
    }
}

/// The answers so far, apart from one parameter's.
pub open spec fn other_answers(fields: Seq<Field>, param: Seq<char>) -> Map<Seq<char>, Seq<char>>
    decreases fields.len(),
{
    if fields.len() == 0 {
        Map::empty()
    } else {
        let before = other_answers(fields.drop_last(), param);
        if fields.last().name@ != param && fields.last().value@.len() > 0 {
            before.insert(fields.last().name@, fields.last().value@)
        } else {
            before
        }
    }
}

/// What a form asks for when it asks for one parameter's candidates.
pub open spec fn request_for(a: Asking, task: Seq<char>, param: Seq<char>, force: bool) -> EffectView {
    EffectView::ResolveCompletions {
        task,
        param,
        partial: other_answers(a.fields, param),
        force_refresh: force,
        request_id: next_number(a.counter),
    }
}

/// A form that has asked for several parameters' candidates, one by one.
pub open spec fn having_asked_all(a: Asking, params: Seq<Seq<char>>) -> Asking
    decreases params.len(),
{
    if params.len() == 0 {
        a
    } else {
        having_asked(having_asked_all(a, params.drop_last()), params.last())
    }
}

/// What a form asks for when it asks for several parameters' candidates.
pub open spec fn requests_for_all(a: Asking, task: Seq<char>, params: Seq<Seq<char>>) -> Seq<
    EffectView,
>
    decreases params.len(),
{
    if params.len() == 0 {
        no_effects()
    } else {
        requests_for_all(a, task, params.drop_last()).push(
            request_for(having_asked_all(a, params.drop_last()), task, params.last(), false),
        )
    }
}

/// The parameters whose candidates a command lists.
pub open spec fn dynamic_params(fields: Seq<Field>) -> Seq<Seq<char>>
    decreases fields.len(),
{
    if fields.len() == 0 {
        Seq::empty()
    } else {
        let before = dynamic_params(fields.drop_last());
        if fields.last().has_dynamic_completions {
            before.push(fields.last().name@)
        } else {
            before
        }
    }
}

fn answers_besides(fields: &Vec<Field>, param: &str) -> (r: NameMap<String>)
    ensures
        texts(r@) == other_answers(fields@, param@),
{
    let mut out: NameMap<String> = NameMap::new();
    let mut i: usize = 0;
    proof {
        assert(fields@.take(0) =~= Seq::<Field>::empty());
        assert(texts(out@) =~= Map::<Seq<char>, Seq<char>>::empty());
    }
    while i < fields.len()
        invariant
            i <= fields@.len(),
            texts(out@) == other_answers(fields@.take(i as int), param@),
        decreases fields@.len() - i,
    {
        proof {
            assert(fields@.take(i + 1).drop_last() =~= fields@.take(i as int));
            assert(fields@.take(i + 1).last() == fields@[i as int]);
        }
        if !same(fields[i].name.as_str(), param) && !fields[i].value.as_str().is_empty() {
            let ghost before = out@;
            out.insert(fields[i].name.clone(), fields[i].value.clone());
            proof {
                assert(texts(out@) =~= texts(before).insert(
                    fields@[i as int].name@,
                    fields@[i as int].value@,
                ));
            }
        }
        i += 1;
    }
    assert(fields@.take(fields@.len() as int) =~= fields@);
    out
}

/// Asks for one parameter's candidates.
pub fn request_completion(form: &mut FormState, task: &str, param: &str, force_refresh: bool) -> (r:
    Effect)
    ensures
        *final(form) == (FormState {
            fields: final(form).fields,
            request_counter: final(form).request_counter,
            in_flight: final(form).in_flight,
            ..*old(form)
        }),
        asking(*final(form)) == having_asked(asking(*old(form)), param@),
        r@ == request_for(asking(*old(form)), task@, param@, force_refresh),
{
    let partial = answers_besides(&form.fields, param);
    let request_id: u64 = form.start_request(param);
    assert(asking(*form) =~= having_asked(asking(*old(form)), param@));
    Effect::ResolveCompletions {
        task: task.to_owned(),
        param: param.to_owned(),
        partial,
        force_refresh,
        request_id,
    }
}

/// Whether `new` is `old` after the form asked for one parameter's candidates.
pub open spec fn requests(
    old: App,
    new: App,
    task: Seq<char>,
    param: Seq<char>,
    force: bool,
    fx: Seq<EffectView>,
) -> bool {
    match old.form {
        None => new == old && fx == no_effects(),
        Some(before) => {
            &&& new == (App { form: new.form, ..old })
            &&& match new.form {
                Some(after) => {
                    &&& after == (FormState {
                        fields: after.fields,
                        request_counter: after.request_counter,
                        in_flight: after.in_flight,
                        ..before
                    })
                    &&& asking(after) == having_asked(asking(before), param)
                },
                None => false,
            }
            &&& fx == seq![request_for(asking(before), task, param, force)]
        },
    }
}

/// Asks for one parameter's candidates, if the form is open.
pub fn request_form_completion(app: &mut App, task: &str, param: &str, force_refresh: bool) -> (r:
    Vec<Effect>)
    ensures
        requests(*old(app), *final(app), task@, param@, force_refresh, effects(r@)),
{
    match &mut app.form {
        Some(form) => {
            let effect = request_completion(form, task, param, force_refresh);
            just(effect)
        },
        None => nothing(),
    }
}

/// Whether `form` is the form of a task just opened, before it asked for
/// anything.
pub open spec fn is_new_form(form: FormState, fields: Seq<Field>, name: Seq<char>, task: Task) -> bool {
    &&& form.task@ == name
    &&& form.focus == 0
    &&& form.submit_error is None
    &&& fields.len() == task.params@.len()
    &&& forall|i: int| 0 <= i < fields.len() ==> #[trigger] fields[i].starts_as(task.params@[i])
}

/// Whether `new` is `old` after the form of a task was opened: every parameter
/// whose candidates a command lists is asked about, in order.
pub open spec fn opens_form(old: App, new: App, name: Seq<char>, fx: Seq<EffectView>) -> bool {
    if old.task_configs@.contains_key(name) && old.task_configs@[name].params@.len() > 0 {
        &&& new == (App { form: new.form, view_mode: ViewMode::Form, ..old })
        &&& match new.form {
            Some(form) => exists|fields: Seq<Field>|
                {
                    let fresh = Asking { fields, counter: 0, in_flight: Map::empty() };
                    &&& #[trigger] is_new_form(form, fields, name, old.task_configs@[name])
                    &&& asking(form) == having_asked_all(fresh, dynamic_params(fields))
                    &&& fx == requests_for_all(fresh, name, dynamic_params(fields))
                },
            None => false,
        }
    } else {
        new == old && fx == no_effects()
    }
}

fn dynamic_names(fields: &Vec<Field>) -> (r: Vec<String>)
    ensures
        views(r@) == dynamic_params(fields@),
{
    let mut out: Vec<String> = Vec::new();
    let mut i: usize = 0;
    proof {
        assert(fields@.take(0) =~= Seq::<Field>::empty());
        assert(views(out@) =~= Seq::<Seq<char>>::empty());
    }
    while i < fields.len()
        invariant
            i <= fields@.len(),
            views(out@) == dynamic_params(fields@.take(i as int)),
        decreases fields@.len() - i,
    {
        proof {
            assert(fields@.take(i + 1).drop_last() =~= fields@.take(i as int));
            assert(fields@.take(i + 1).last() == fields@[i as int]);
        }
        if fields[i].has_dynamic_completions {
            let ghost before = out@;
            out.push(fields[i].name.clone());
            assert(views(out@) =~= views(before).push(fields@[i as int].name@));
        }
        i += 1;
    }
    assert(fields@.take(fields@.len() as int) =~= fields@);
    out
}

/// Opens the form for a task's parameters.
pub fn open_form_for_task(app: &mut App, task_name: &str) -> (r: Vec<Effect>)
    ensures
        opens_form(*old(app), *final(app), task_name@, effects(r@)),
{
    let built = match app.task_configs.get(task_name) {
        Some(task) => FormState::new(task_name, task),
        None => None,
    };
    let mut form = match built {
        Some(form) => form,
        None => {
            return nothing();
        },
    };
    let ghost fields = form.fields@;
    let ghost fresh = asking(form);
    let ghost start = form;
    let params = dynamic_names(&form.fields);
    let ghost wanted = views(params@);
    let mut out: Vec<Effect> = Vec::new();
    let mut i: usize = 0;
    proof {
        assert(wanted.take(0) =~= Seq::<Seq<char>>::empty());
        assert(effects(out@) =~= no_effects());
        assert(fresh =~= (Asking { fields, counter: 0, in_flight: Map::empty() }));
    }
    while i < params.len()
        invariant
            i <= params@.len(),
            wanted == views(params@),
            form == (FormState {
                fields: form.fields,
                request_counter: form.request_counter,
                in_flight: form.in_flight,
                ..start
            }),
            asking(form) == having_asked_all(fresh, wanted.take(i as int)),
            effects(out@) == requests_for_all(fresh, task_name@, wanted.take(i as int)),
        decreases params@.len() - i,
    {
        proof {
            assert(wanted.take(i + 1).drop_last() =~= wanted.take(i as int));
            assert(wanted.take(i + 1).last() == params@[i as int]@);
        }
        let ghost before = out@;
        let effect = request_completion(&mut form, task_name, params[i].as_str(), false);
        let ghost asked = effect@;
        out.push(effect);
        assert(effects(out@) =~= effects(before).push(asked));
        i += 1;
    }
    assert(wanted.take(params@.len() as int) =~= wanted);
    assert(is_new_form(form, fields, task_name@, app.task_configs@[task_name@]));
    app.form = Some(form);
    app.set_view_mode(ViewMode::Form);
    out
}

/// Whether `new` is `old` after a form with these fields was submitted: the
/// task runs and the plain log is back, or the form says what is wrong.
pub open spec fn submits(
    old: App,
    form: FormState,
    fields: Seq<Field>,
    new: App,
    fx: Seq<EffectView>,
) -> bool {
    match submission(fields) {
        Err(why) => {
            &&& new == (App { form: new.form, ..old })
            &&& match new.form {
                Some(after) => {
                    &&& after == (FormState {
                        fields: after.fields,
                        submit_error: after.submit_error,
                        ..form
                    })
                    &&& after.fields@ == fields
                    &&& text_of(after.submit_error) == Some(why)
                },
                None => false,
            }
            &&& fx == no_effects()
        },
        Ok(params) => {
            &&& new == at_logs(App { form: None, filter: new.filter, ..old })
            &&& new.filter@ == selecting(old.filter@, form.task@)
            &&& fx == seq![EffectView::RunTask { name: form.task@, params }]
        },
    }
}

/// Tries to submit the form. When every answer is acceptable the task runs
/// with them and the plain log is back; otherwise the form stays and says what
/// is wrong.
pub fn try_submit_form(app: &mut App) -> (r: Vec<Effect>)
    ensures
        match old(app).form {
            None => *final(app) == *old(app) && effects(r@) == no_effects(),
            Some(form) => submits(*old(app), form, form.fields@, *final(app), effects(r@)),
        },
{
    let (task_name, params) = match &mut app.form {
        None => {
            return nothing();
        },
        Some(form) => match form.submit() {
            Ok(params) => (form.task.clone(), params),
            Err(why) => {
                form.submit_error = Some(why);
                return nothing();
            },
        },
    };
    app.form = None;
    after_task_run(task_name.as_str(), app);
    return_to_logs(app);
    just(Effect::RunTask { name: task_name, params })
}

/// Whatever a table's row shows as failed, Enter never asks to stop a service
/// that has no process, nor to start one that has.
pub proof fn a_failure_is_toggled_by_its_process(state: ServiceState, pid: Option<i32>)
    requires
        state == ServiceState::Failed || state == ServiceState::DependencyFailed,
    ensures
        toggle_action(state, pid) == Some(ControlAction::Start) <==> pid is None,
        toggle_action(state, pid) == Some(ControlAction::Stop) <==> pid is Some,
{
}

/// What Enter asks for turns a service the other way: one that is up is stopped
/// and one that is down is started. While a service is on its way from one to the
/// other, it is asked for nothing.
pub proof fn a_toggle_turns_a_service_the_other_way(state: ServiceState, pid: Option<i32>)
    ensures
        state == ServiceState::Ready || state == ServiceState::Running || state
            == ServiceState::Unhealthy ==> toggle_action(state, pid) == Some(ControlAction::Stop),
        state == ServiceState::Stopped || state == ServiceState::Lazy ==> toggle_action(state, pid)
            == Some(ControlAction::Start),
        state == ServiceState::Pending || state == ServiceState::Building || state
            == ServiceState::Starting || state == ServiceState::Stopping ==> toggle_action(
            state,
            pid,
        ) is None && !restartable(state) && !hard_restartable(state),
        toggle_action(state, pid) matches Some(action) ==> action == ControlAction::Start || action
            == ControlAction::Stop,
{
}

/// A service can be restarted once it has been up or has failed or was stopped,
/// and one that waits for its first connection only from scratch.
pub proof fn what_ran_can_be_restarted(state: ServiceState)
    ensures
        restartable(state) <==> !(state == ServiceState::Pending || state == ServiceState::Building
            || state == ServiceState::Starting || state == ServiceState::Stopping || state
            == ServiceState::Lazy),
        hard_restartable(state) <==> restartable(state) || state == ServiceState::Lazy,
{
}

/// What is asked of a service names the highlighted one, and asks what the key
/// stands for.
pub proof fn the_highlighted_service_is_the_one_asked(app: App)
    requires
        0 <= app.services_table@.highlight < services_rows(app).len(),
    ensures
        ({
            let name = services_rows(app)[app.services_table@.highlight];
            let state = app.services_state@[name];
            &&& highlighted_service(app) == Some(name)
            &&& toggle_asked(app) matches Some((asked, action)) ==> asked == name && (action
                == ControlAction::Start || action == ControlAction::Stop)
            &&& state == ServiceState::Ready || state == ServiceState::Running || state
                == ServiceState::Unhealthy ==> toggle_asked(app) == Some(
                (name, ControlAction::Stop),
            )
            &&& state == ServiceState::Stopped || state == ServiceState::Lazy ==> toggle_asked(app)
                == Some((name, ControlAction::Start))
            &&& restart_asked(app) matches Some((asked, action)) ==> asked == name && action
                == ControlAction::Restart
            &&& hard_restart_asked(app) matches Some((asked, action)) ==> asked == name && action
                == ControlAction::HardRestart
            &&& state == ServiceState::Ready || state == ServiceState::Running || state
                == ServiceState::Unhealthy || state == ServiceState::Failed || state
                == ServiceState::Stopped ==> restart_asked(app) is Some && hard_restart_asked(
                app,
            ) is Some
        }),
{
}

/// What is asked is sent as one command to the service it names, and where
/// nothing is asked nothing is sent.
pub proof fn one_command_is_sent(name: Seq<char>, action: ControlAction)
    ensures
        control_effects(Some((name, action))).len() == 1,
        control_effects(Some((name, action)))[0] == (EffectView::Control { name, action }),
        control_effects(None).len() == 0,
{
}

/// A request for candidates goes out under the number whose reply the form then
/// waits for, and carries the other answers given so far but not its own.
pub proof fn a_request_is_the_one_waited_for(
    a: Asking,
    task: Seq<char>,
    param: Seq<char>,
    force: bool,
)
    ensures
        request_for(a, task, param, force) matches EffectView::ResolveCompletions {
            task: asked_task,
            param: asked_param,
            partial,
            force_refresh,
            request_id,
        } && {
            &&& asked_task == task
            &&& asked_param == param
            &&& force_refresh == force
            &&& having_asked(a, param).in_flight.contains_key(param)
            &&& having_asked(a, param).in_flight[param] == request_id
            &&& having_asked(a, param).counter == request_id
            &&& a.counter < u64::MAX ==> request_id == a.counter + 1
            &&& !partial.contains_key(param)
        },
{
    lemma_others(a.fields, param);
}

proof fn lemma_others(fields: Seq<Field>, param: Seq<char>)
    ensures
        !other_answers(fields, param).contains_key(param),
    decreases fields.len(),
{
    if fields.len() > 0 {
        lemma_others(fields.drop_last(), param);
    }
}

/// Every other field that is filled in is among the answers that go with a
/// request, as it stands.
pub proof fn the_other_answers_go_with_a_request(fields: Seq<Field>, param: Seq<char>, i: int)
    requires
        0 <= i < fields.len(),
        fields[i].name@ != param,
        fields[i].value@.len() > 0,
        forall|j: int| i < j < fields.len() ==> (#[trigger] fields[j]).name@ != fields[i].name@,
    ensures
        other_answers(fields, param).contains_key(fields[i].name@),
        other_answers(fields, param)[fields[i].name@] == fields[i].value@,
    decreases fields.len(),
{
    let front = fields.drop_last();
    if i < front.len() {
        assert(front[i] == fields[i]);
        assert forall|j: int| i < j < front.len() implies (#[trigger] front[j]).name@
            != front[i].name@ by {
            assert(front[j] == fields[j]);
        }
        the_other_answers_go_with_a_request(front, param, i);
        assert(fields[fields.len() - 1].name@ != fields[i].name@);
    }
}

/// A form that is submitted runs its task with its answers, closes, and lets the
/// task's lines be shown; one that is refused stays open with the reason and
/// runs nothing.
pub proof fn a_form_runs_its_task_or_says_why_not(
    old: App,
    form: FormState,
    fields: Seq<Field>,
    new: App,
    fx: Seq<EffectView>,
)
    requires
        submits(old, form, fields, new, fx),
    ensures
        submission(fields) matches Ok(params) ==> {
            &&& fx.len() == 1
            &&& fx[0] == (EffectView::RunTask { name: form.task@, params })
            &&& new.form is None
            &&& new.view_mode == ViewMode::Normal
            &&& old.filter@.names.contains(form.task@) ==> new.filter@.active.contains(form.task@)
            &&& forall|name: Seq<char>| #[trigger]
                old.filter@.active.contains(name) ==> new.filter@.active.contains(name)
        },
        submission(fields) matches Err(why) ==> {
            &&& fx.len() == 0
            &&& new.view_mode == old.view_mode
            &&& new.form matches Some(after) && after.submit_error matches Some(said) && said@ == why
        },
{
}

proof fn lemma_dynamic(fields: Seq<Field>, name: Seq<char>)
    ensures
        dynamic_params(fields).contains(name) <==> exists|i: int|
            0 <= i < fields.len() && (#[trigger] fields[i]).has_dynamic_completions
                && fields[i].name@ == name,
    decreases fields.len(),
{
    let all = dynamic_params(fields);
    if fields.len() > 0 {
        let front = fields.drop_last();
        let before = dynamic_params(front);
        lemma_dynamic(front, name);
        if all.contains(name) {
            let at = choose|at: int| 0 <= at < all.len() && all[at] == name;
            if at < before.len() {
                assert(before[at] == name);
                let i = choose|i: int|
                    0 <= i < front.len() && (#[trigger] front[i]).has_dynamic_completions
                        && front[i].name@ == name;
                assert(fields[i] == front[i]);
            } else {
                assert(fields[fields.len() - 1] == fields.last());
            }
        }
        if exists|i: int|
            0 <= i < fields.len() && (#[trigger] fields[i]).has_dynamic_completions
                && fields[i].name@ == name {
            let i = choose|i: int|
                0 <= i < fields.len() && (#[trigger] fields[i]).has_dynamic_completions
                    && fields[i].name@ == name;
            if i < front.len() {
                assert(front[i] == fields[i]);
                let at = choose|at: int| 0 <= at < before.len() && before[at] == name;
                assert(all[at] == name);
            } else {
                assert(all.last() == name);
            }
        }
    }
}

/// Opening a form asks for the candidates of exactly the fields whose candidates
/// come from a command.
pub proof fn candidates_are_asked_for_where_they_come_from_a_command(
    fields: Seq<Field>,
    name: Seq<char>,
)
    ensures
        dynamic_params(fields).contains(name) <==> exists|i: int|
            0 <= i < fields.len() && (#[trigger] fields[i]).has_dynamic_completions
                && fields[i].name@ == name,
{
    lemma_dynamic(fields, name);
}

/// The requests that a form opens with are one for each parameter that is asked
/// about, in their order, each under a number of its own.
pub proof fn each_parameter_gets_one_request(
    a: Asking,
    task: Seq<char>,
    params: Seq<Seq<char>>,
    i: int,
)
    requires
        0 <= i < params.len(),
        a.counter + params.len() <= u64::MAX,
    ensures
        requests_for_all(a, task, params).len() == params.len(),
        having_asked_all(a, params).counter == a.counter + params.len(),
        requests_for_all(a, task, params)[i] matches EffectView::ResolveCompletions {
            task: asked_task,
            param,
            partial,
            force_refresh,
            request_id,
        } && asked_task == task && param == params[i] && !force_refresh && request_id == a.counter
            + i + 1,
    decreases params.len(),
{
    let front = params.drop_last();
    if front.len() > 0 {
        if i < front.len() {
            each_parameter_gets_one_request(a, task, front, i);
            assert(front[i] == params[i]);
        } else {
            each_parameter_gets_one_request(a, task, front, 0);
        }
    } else {
        assert(requests_for_all(a, task, front).len() == 0);
        assert(having_asked_all(a, front) == a);
    }
}

/// The highlighted task is the one under the highlight.
pub proof fn the_highlighted_task_is_under_the_highlight(app: App)
    requires
        0 <= app.tasks_table@.highlight < tasks_rows(app).len(),
    ensures
        highlighted_task(app) == Some(tasks_rows(app)[app.tasks_table@.highlight]),
        pid_of(app, tasks_rows(app)[app.tasks_table@.highlight]) is Some
            ==> app.service_pids@.contains_key(tasks_rows(app)[app.tasks_table@.highlight]),
{
}

} // verus!
