//! What a key, a click or an event asks of the world outside the interface.
//!
//! Nothing here reaches the runner, the terminal or the clipboard: a handler
//! changes the state and returns what is to be done, and the program around
//! the library does it.
use crate::attach::WindowRect;
use crate::form::texts;
use crate::names::NameMap;
use vstd::prelude::*;

verus! {

/// What can be asked of a service.
#[derive(Debug, Clone, Copy, PartialEq, Eq, Structural)]
pub enum ControlAction {
    Start,
    Stop,
    Restart,
    /// Rebuild, then start or restart.
    HardRestart,
}

impl ControlAction {
    /// What the action is called.
    pub open spec fn called(self) -> Seq<char> {
        match self {
            ControlAction::Start => "start"@,
            ControlAction::Stop => "stop"@,
            ControlAction::Restart => "restart"@,
            ControlAction::HardRestart => "hard restart"@,
        }
    }

    /// What the action is called.
    pub fn label(self) -> (r: &'static str)
        ensures
            r@ == self.called(),
    {
        match self {
            ControlAction::Start => "start",
            ControlAction::Stop => "stop",
            ControlAction::Restart => "restart",
            ControlAction::HardRestart => "hard restart",
        }
    }
}

/// Something asked of a service.
#[derive(Debug)]
pub struct OverlayCommand {
    pub name: String,
    pub action: ControlAction,
}

/// Something to be done outside.
#[derive(Debug)]
pub enum Effect {
    /// Ask the runner to shut down; `force` on the second press.
    Shutdown { force: bool },
    /// Interrupt our own process, which is the runner's.
    Interrupt,
    Control(OverlayCommand),
    RunTask { name: String, params: NameMap<String> },
    /// Ask for the candidates of a parameter, given the other answers so far.
    ResolveCompletions {
        task: String,
        param: String,
        partial: NameMap<String>,
        force_refresh: bool,
        request_id: u64,
    },
    /// Send this to the terminal, which puts so many lines on the clipboard.
    Copy { sequence: String, lines: usize },
    /// Type this at the attached process.
    Forward(Vec<u8>),
    /// Read the attached process's screen again.
    ReadGrid,
    /// End the attach session.
    EndSession,
    /// Tell the attached process its terminal has this size.
    ResizeProcess { cols: u16, rows: u16 },
    /// Attach to a process, in a window.
    StartSession { name: String, window: WindowRect, cols: u16, rows: u16 },
    /// Fetch a fresh snapshot.
    Resync,
}

/// Something to be done outside, as contracts speak of it.
pub enum EffectView {
    Shutdown { force: bool },
    Interrupt,
    Control { name: Seq<char>, action: ControlAction },
    RunTask { name: Seq<char>, params: Map<Seq<char>, Seq<char>> },
    ResolveCompletions {
        task: Seq<char>,
        param: Seq<char>,
        partial: Map<Seq<char>, Seq<char>>,
        force_refresh: bool,
        request_id: u64,
    },
    Copy { sequence: Seq<char>, lines: int },
    Forward(Seq<u8>),
    ReadGrid,
    EndSession,
    ResizeProcess { cols: u16, rows: u16 },
    StartSession { name: Seq<char>, window: WindowRect, cols: u16, rows: u16 },
    Resync,
}

impl View for Effect {
    type V = EffectView;

    open spec fn view(&self) -> EffectView {
        match self {
            Effect::Shutdown { force } => EffectView::Shutdown { force: *force },
            Effect::Interrupt => EffectView::Interrupt,
            Effect::Control(command) => EffectView::Control {
                name: command.name@,
                action: command.action,
            },
            Effect::RunTask { name, params } => EffectView::RunTask {
                name: name@,
                params: texts(params@),
            },
            Effect::ResolveCompletions { task, param, partial, force_refresh, request_id } =>
                EffectView::ResolveCompletions {
                task: task@,
                param: param@,
                partial: texts(partial@),
                force_refresh: *force_refresh,
                request_id: *request_id,
            },
            Effect::Copy { sequence, lines } => EffectView::Copy {
                sequence: sequence@,
                lines: *lines as int,
            },
            Effect::Forward(bytes) => EffectView::Forward(bytes@),
            Effect::ReadGrid => EffectView::ReadGrid,
            Effect::EndSession => EffectView::EndSession,
            Effect::ResizeProcess { cols, rows } => EffectView::ResizeProcess {
                cols: *cols,
                rows: *rows,
            },
            Effect::StartSession { name, window, cols, rows } => EffectView::StartSession {
                name: name@,
                window: *window,
                cols: *cols,
                rows: *rows,
            },
            Effect::Resync => EffectView::Resync,
        }
    }
}

/// A list of things to be done.
pub open spec fn effects(list: Seq<Effect>) -> Seq<EffectView> {
    Seq::new(list.len(), |i: int| list[i]@)
}

/// Nothing to be done.
pub open spec fn no_effects() -> Seq<EffectView> {
    Seq::empty()
}

/// Nothing to be done.
pub fn nothing() -> (r: Vec<Effect>)
    ensures
        effects(r@) == no_effects(),
        r@.len() == 0,
{
    let r: Vec<Effect> = Vec::new();
    assert(effects(r@) =~= no_effects());
    r
}

/// One thing to be done.
pub fn just(effect: Effect) -> (r: Vec<Effect>)
    ensures
        effects(r@) == seq![effect@],
{
    let mut r: Vec<Effect> = Vec::new();
    let ghost one = effect@;
    r.push(effect);
    assert(effects(r@) =~= seq![one]);
    r
}

/// What is asked of the outside is told as it is: every effect under its own
/// name, with all that it carries.
pub proof fn an_effect_is_told_as_it_is(effect: Effect)
    ensures
        effect matches Effect::Shutdown { force } ==> effect@ == (EffectView::Shutdown { force }),
        effect is Interrupt ==> effect@ is Interrupt,
        effect matches Effect::Control(command) ==> effect@ == (EffectView::Control {
            name: command.name@,
            action: command.action,
        }),
        effect matches Effect::RunTask { name, params } ==> (effect@ matches EffectView::RunTask {
            name: told,
            params: answers,
        } && told == name@ && forall|key: Seq<char>|
            (#[trigger] answers.contains_key(key) <==> params@.contains_key(key)) && (
            params@.contains_key(key) ==> answers[key] == params@[key]@)),
        effect matches Effect::ResolveCompletions {
            task,
            param,
            partial,
            force_refresh,
            request_id,
        } ==> (effect@ matches EffectView::ResolveCompletions {
            task: told_task,
            param: told_param,
            partial: answers,
            force_refresh: told_force,
            request_id: told_id,
        } && told_task == task@ && told_param == param@ && told_force == force_refresh && told_id
            == request_id && answers.dom() == partial@.dom()),
        effect matches Effect::Copy { sequence, lines } ==> effect@ == (EffectView::Copy {
            sequence: sequence@,
            lines: lines as int,
        }),
        effect matches Effect::Forward(bytes) ==> effect@ == EffectView::Forward(bytes@),
        effect is ReadGrid ==> effect@ is ReadGrid,
        effect is EndSession ==> effect@ is EndSession,
        effect is Resync ==> effect@ is Resync,
        effect matches Effect::ResizeProcess { cols, rows } ==> effect@
            == (EffectView::ResizeProcess { cols, rows }),
        effect matches Effect::StartSession { name, window, cols, rows } ==> effect@
            == (EffectView::StartSession { name: name@, window, cols, rows }),
{
    if let Effect::ResolveCompletions { partial, .. } = effect {
        assert(texts(partial@).dom() =~= partial@.dom());
    }
}

/// What is asked of a service is called by its name.
pub proof fn an_action_is_called_by_its_name()
    ensures
        ControlAction::Start.called() == "start"@,
        ControlAction::Stop.called() == "stop"@,
        ControlAction::Restart.called() == "restart"@,
        ControlAction::HardRestart.called() == "hard restart"@,
{
}

/// A list of effects is told one by one and in its order.
pub proof fn effects_are_told_in_order(list: Seq<Effect>, i: int)
    requires
        0 <= i < list.len(),
    ensures
        effects(list).len() == list.len(),
        effects(list)[i] == list[i]@,
{
}

} // verus!
