//! The main loop's decisions: what each thing it hears of does to the state,
//! and when a frame is due.
use crate::app::{App, ViewMode};
use crate::attach::{AttachView, Grid, WindowRect};
use crate::client::{EventStreamItem, RunnerEvent, ServiceState, TaskState};
use crate::config::text_of;
use crate::counts::counts_all;
use crate::dispatch::{event_acts, handle_app_event, resyncs};
use crate::effects::{effects, just, no_effects, nothing, Effect, EffectView};
use crate::filter::FilterView;
use crate::input::TuiMode;
use crate::keys::{AppEvent, AttachEvent, KeyEvent, MouseEvent};
use crate::log_store::{pushes, LogStore};
use crate::names::{lemma_take_set, views, NameMap, NameSet};
use crate::output::{FormattedLogLine, LogId, MergedEvent, LIFECYCLE_EVENT_NAME};
use crate::panes::Rect;
use crate::pointer::COPY_NOTICE_TTL;
use crate::status_table::TableView;
use crate::style::{lossy_text, read_lossy};
use crate::text::{contains, decimal, has_part, push_decimal, same};
use vstd::prelude::*;
use vstd::utf8::encode_utf8;

verus! {

/// How many log events are taken in one turn of the loop, so that keys keep
/// getting theirs under a flood.
pub const LOG_BATCH_LIMIT: usize = 512;

/// What ends the interface.
#[derive(Debug)]
pub enum TuiError {
    /// The terminal could not be read or written.
    Io(String),
}

impl TuiError {
    /// What the error says.
    pub fn message(&self) -> (r: String)
        ensures
            r@ == (match self {
                TuiError::Io(why) => "terminal io error: "@ + why@,
            }),
    {
        match self {
            TuiError::Io(why) => {
                let mut out = "terminal io error: ".to_owned();
                out.append(why.as_str());
                out
            },
        }
    }
}

/// The notice that lines were dropped.
pub open spec fn gap_notice(count: u64) -> Seq<char> {
    decimal(count as nat) + " log line(s) dropped — history did not reach back far enough"@
}

/// Whether an entry of a batch is what an event of the merged stream comes to.
pub open spec fn is_entry_for(entry: (LogId, FormattedLogLine), event: MergedEvent) -> bool {
    match event {
        MergedEvent::Line(id, line) => entry == (id, line),
        MergedEvent::Dropped { count, resumed_at } => {
            &&& entry.0 == resumed_at
            &&& entry.1.name@ == LIFECYCLE_EVENT_NAME@
            &&& entry.1.is_lifecycle
            &&& !entry.1.is_verbose
            &&& entry.1.prefix@.len() == 0
            &&& entry.1.bytes@ == encode_utf8(gap_notice(count))
        },
    }
}

/// Adds one event of the merged stream to a batch. Dropped lines become one of
/// don's own lines, under the number the stream goes on at, so that the gap
/// shows where it is.
pub fn push_merged_event(batch: &mut Vec<(LogId, FormattedLogLine)>, event: MergedEvent)
    ensures
        final(batch)@.len() == old(batch)@.len() + 1,
        final(batch)@.drop_last() == old(batch)@,
        is_entry_for(final(batch)@.last(), event),
{
    let ghost before = batch@;
    match event {
        MergedEvent::Line(id, line) => {
            batch.push((id, line));
        },
        MergedEvent::Dropped { count, resumed_at } => {
            let mut notice = String::new();
            push_decimal(&mut notice, count);
            notice.append(" log line(s) dropped — history did not reach back far enough");
            assert(notice@ =~= gap_notice(count));
            let mut bytes: Vec<u8> = Vec::new();
            bytes.extend_from_slice(notice.as_str().as_bytes());
            assert(bytes@ =~= encode_utf8(gap_notice(count)));
            batch.push(
                (
                    resumed_at,
                    FormattedLogLine {
                        name: LIFECYCLE_EVENT_NAME.to_owned(),
                        is_lifecycle: true,
                        is_verbose: false,
                        prefix: Vec::new(),
                        bytes,
                    },
                ),
            );
        },
    }
    assert(batch@.drop_last() =~= before);
}

/// Whether a line announces that don is shutting down.
pub open spec fn announces_shutdown(line: FormattedLogLine) -> bool {
    line.name@ == LIFECYCLE_EVENT_NAME@ && has_part(
        lossy_text(line.bytes@),
        "shutting down gracefully"@,
    )
}

/// Whether a text says that don is shutting down.
pub fn says_shutdown(text: &str) -> (r: bool)
    ensures
        r == has_part(text@, "shutting down gracefully"@),
{
    contains(text, "shutting down gracefully")
}

/// Whether a line announces that don is shutting down.
pub fn is_shutdown_start_line(line: &FormattedLogLine) -> (r: bool)
    ensures
        r == announces_shutdown(*line),
{
    same(line.name.as_str(), LIFECYCLE_EVENT_NAME) && says_shutdown(
        read_lossy(line.bytes.as_slice()).as_str(),
    )
}

/// The two records the log pane can show: what the processes wrote, and what
/// don said about them. Each has its own budget.
pub struct LogStores {
    pub output: LogStore,
    pub debug: LogStore,
}

/// Whether `after` is `before` with a line filed under the record it belongs
/// to.
pub open spec fn routes(
    before: LogStores,
    after: LogStores,
    id: LogId,
    line: FormattedLogLine,
) -> bool {
    if line.is_verbose {
        after.output == before.output && pushes(before.debug, after.debug, id, line)
    } else {
        after.debug == before.debug && pushes(before.output, after.output, id, line)
    }
}

impl LogStores {
    /// Files a line under the record it belongs to.
    pub fn route(&mut self, id: LogId, line: FormattedLogLine)
        ensures
            routes(*old(self), *final(self), id, line),
    {
        if line.is_verbose {
            self.debug.push(id, line);
        } else {
            self.output.push(id, line);
        }
    }

    /// The record in front.
    pub open spec fn front(self, debug_view: bool) -> LogStore {
        if debug_view {
            self.debug
        } else {
            self.output
        }
    }

    /// The record in front.
    pub fn active(&self, debug_view: bool) -> (r: &LogStore)
        ensures
            *r == self.front(debug_view),
    {
        if debug_view {
            &self.debug
        } else {
            &self.output
        }
    }

    /// The record in front, to change it. The other stays as it is.
    pub fn active_mut(&mut self, debug_view: bool) -> (r: &mut LogStore)
        ensures
            *r == old(self).front(debug_view),
            *final(self) == (if debug_view {
                LogStores { debug: *final(r), ..*old(self) }
            } else {
                LogStores { output: *final(r), ..*old(self) }
            }),
    {
        if debug_view {
            &mut self.debug
        } else {
            &mut self.output
        }
    }
}

/// Whether `new` is `old` with shutdown begun.
pub open spec fn begins_shutdown(old: App, new: App) -> bool {
    if old.shutdown_started {
        new == old
    } else {
        &&& new == (App {
            shutdown_started: true,
            view_mode: ViewMode::Normal,
            services_table: new.services_table,
            tasks_table: new.tasks_table,
            failure_summary_scroll: 0,
            form: None,
            ..old
        })
        &&& new.services_table@ == TableView::fresh()
        &&& new.tasks_table@ == TableView::fresh()
    }
}

fn start_shutdown(app: &mut App)
    ensures
        begins_shutdown(*old(app), *final(app)),
{
    if !app.shutdown_started {
        app.begin_shutdown();
    }
}

/// Whether the records went through these states as they took a batch of
/// lines, one after the other.
pub open spec fn is_trace(
    trace: Seq<LogStores>,
    before: LogStores,
    after: LogStores,
    batch: Seq<(LogId, FormattedLogLine)>,
) -> bool {
    &&& trace.len() == batch.len() + 1
    &&& trace[0] == before
    &&& trace.last() == after
    &&& forall|i: int|
        0 <= i < batch.len() ==> routes(
            #[trigger] trace[i],
            trace[i + 1],
            batch[i].0,
            batch[i].1,
        )
}

/// Whether the records took a batch of lines, one after the other.
pub open spec fn routes_all(
    before: LogStores,
    after: LogStores,
    batch: Seq<(LogId, FormattedLogLine)>,
) -> bool {
    exists|trace: Seq<LogStores>| is_trace(trace, before, after, batch)
}

/// Whether a line of a batch announces that don is shutting down.
pub open spec fn batch_announces_shutdown(batch: Seq<(LogId, FormattedLogLine)>) -> bool
    decreases batch.len(),
{
    batch.len() > 0 && (announces_shutdown(batch.last().1) || batch_announces_shutdown(
        batch.drop_last(),
    ))
}

/// Takes a batch of lines: each is filed under its record, and the first that
/// announces shutdown begins it.
pub fn take_batch(
    app: &mut App,
    stores: &mut LogStores,
    batch: Vec<(LogId, FormattedLogLine)>,
)
    ensures
        routes_all(*old(stores), *final(stores), batch@),
        if batch_announces_shutdown(batch@) {
            begins_shutdown(*old(app), *final(app))
        } else {
            *final(app) == *old(app)
        },
{
    let ghost all = batch@;
    let ghost app_before = *app;
    let ghost stores_before = *stores;
    let mut rest = batch;
    let mut taken: usize = 0;
    let n: usize = rest.len();
    let ghost mut trace = seq![*stores];
    assert(is_trace(trace, stores_before, *stores, all.take(0)));
    assert(all.take(0) =~= Seq::<(LogId, FormattedLogLine)>::empty());
    assert(all.skip(0) =~= all);
    while taken < n
        invariant
            taken <= n,
            n == all.len(),
            rest@ == all.skip(taken as int),
            is_trace(trace, stores_before, *stores, all.take(taken as int)),
            if batch_announces_shutdown(all.take(taken as int)) {
                begins_shutdown(app_before, *app) && app.shutdown_started
            } else {
                *app == app_before
            },
        decreases n - taken,
    {
        let (id, line) = rest.remove(0);
        proof {
            let next = all.take(taken + 1);
            assert(next.drop_last() =~= all.take(taken as int));
            assert(next.last() == all[taken as int]);
            assert(rest@ =~= all.skip(taken + 1));
        }
        if is_shutdown_start_line(&line) {
            start_shutdown(app);
        }
        let ghost mid = *stores;
        stores.route(id, line);
        proof {
            let next = all.take(taken + 1);
            let longer = trace.push(*stores);
            assert forall|i: int| 0 <= i < next.len() implies routes(
                #[trigger] longer[i],
                longer[i + 1],
                next[i].0,
                next[i].1,
            ) by {
                if i < taken {
                    assert(routes(trace[i], trace[i + 1], all.take(taken as int)[i].0, all.take(taken as int)[i].1));
                } else {
                    assert(longer[i] == mid);
                }
            }
            trace = longer;
        }
        taken += 1;
    }
    assert(all.take(n as int) =~= all);
}

/// Whether `new` is `old` after the runner announced a change, and whether the
/// filter's selection grew.
pub open spec fn runner_event_acts(old: App, new: App, event: RunnerEvent, grew: bool) -> bool {
    match event {
        RunnerEvent::ServiceStateChanged { name, state, pid, failed_dependencies } => {
            &&& new == (App {
                filter: new.filter,
                services_state: new.services_state,
                service_pids: new.service_pids,
                attach: crate::app::after_departure(
                    old.attach,
                    name@,
                    !crate::app::has_terminal(state),
                ),
                failed_dependencies: new.failed_dependencies,
                counts: new.counts,
                ..old
            })
            &&& auto_filters(
                old,
                new,
                name@,
                state == ServiceState::Failed,
                grew,
            )
            &&& new.services_state@ == old.services_state@.insert(name@, state)
            &&& new.service_pids@ == old.service_pids@.insert(name@, pid)
            &&& blocks(old, new, name@, views(failed_dependencies@))
            &&& counts_all(new.counts, new.services_state@, new.tasks_state@)
        },
        RunnerEvent::TaskStateChanged { name, state, last_run, failed_dependencies } => {
            &&& new == (App {
                filter: new.filter,
                tasks_state: new.tasks_state,
                bridge_request: new.bridge_request,
                attach_opened_automatically: old.attach_opened_automatically
                    || crate::app::opens_window(old, name@, state),
                attach_dismiss_requested: old.attach_dismiss_requested
                    || crate::app::closes_window(old, name@, state),
                attach: crate::app::after_departure(
                    old.attach,
                    name@,
                    crate::app::can_run(state),
                ),
                failed_dependencies: new.failed_dependencies,
                tasks_last_run: new.tasks_last_run,
                counts: new.counts,
                ..old
            })
            &&& auto_filters(
                old,
                new,
                name@,
                state == crate::client::TaskState::Failed,
                grew,
            )
            &&& new.tasks_state@ == old.tasks_state@.insert(name@, state)
            &&& text_of(new.bridge_request) == (if crate::app::opens_window(old, name@, state) {
                Some(name@)
            } else {
                text_of(old.bridge_request)
            })
            &&& blocks(old, new, name@, views(failed_dependencies@))
            &&& new.tasks_last_run@ == (match last_run {
                Some(run) => old.tasks_last_run@.insert(name@, run),
                None => old.tasks_last_run@,
            })
            &&& counts_all(new.counts, new.services_state@, new.tasks_state@)
        },
        RunnerEvent::UpdateCheck { current_version, latest_version } => {
            &&& !grew
            &&& new == (App {
                update_badge: match latest_version {
                    Some(latest_version) => Some(
                        crate::app::UpdateBadge { current_version, latest_version },
                    ),
                    None => None,
                },
                ..old
            })
        },
        _ => !grew && new == old,
    }
}

/// Whether a failure put a name into the filter's selection, where the
/// configuration asks for it.
pub open spec fn auto_filters(old: App, new: App, name: Seq<char>, failed: bool, grew: bool) -> bool {
    let fires = failed && old.auto_filter_on_failure_names@.contains(name);
    &&& new.filter@ == (if fires {
        crate::app::selecting(old.filter@, name)
    } else {
        old.filter@
    })
    &&& grew == (fires && old.filter@.names.contains(name) && !old.filter@.active.contains(name))
}

/// Whether what a process waits for was put on record.
pub open spec fn blocks(old: App, new: App, name: Seq<char>, blockers: Seq<Seq<char>>) -> bool {
    crate::app::lists(new.failed_dependencies@) == crate::app::with_blockers(
        crate::app::lists(old.failed_dependencies@),
        name,
        blockers,
    )
}

/// Applies a change that the runner announced. Says whether the filter's
/// selection grew.
pub fn apply_runner_event(event: RunnerEvent, app: &mut App) -> (r: bool)
    ensures
        runner_event_acts(*old(app), *final(app), event, r),
{
    match event {
        RunnerEvent::ServiceStateChanged { name, state, pid, failed_dependencies } =>
            app.apply_service_runtime(name, state, pid, failed_dependencies),
        RunnerEvent::TaskStateChanged { name, state, last_run, failed_dependencies } =>
            app.apply_task_state(name, state, last_run, failed_dependencies),
        RunnerEvent::UpdateCheck { current_version, latest_version } => {
            app.set_update_check(current_version, latest_version);
            false
        },
        RunnerEvent::StartupSettled | RunnerEvent::ShutdownStarted
        | RunnerEvent::ShutdownComplete => false,
    }
}

/// Whether `new` is `old` after a record of the runner's stream, before lazy
/// services are hidden from the filter's list.
pub open spec fn item_acts(
    old: App,
    new: App,
    item: Option<EventStreamItem>,
    fx: Seq<EffectView>,
) -> bool {
    match item {
        None => new == old && fx == no_effects(),
        Some(EventStreamItem::Event(event)) => {
            &&& fx == no_effects()
            &&& if event is ShutdownStarted {
                begins_shutdown(old, new)
            } else {
                exists|grew: bool| runner_event_acts(old, new, event, grew)
            }
        },
        Some(EventStreamItem::Snapshot(snapshot)) => resyncs(old, new, snapshot.processes@) && fx
            == no_effects(),
        Some(EventStreamItem::Lagged(_)) => new == old && fx == seq![EffectView::Resync],
    }
}

fn apply_item(item: Option<EventStreamItem>, app: &mut App) -> (r: Vec<Effect>)
    ensures
        item_acts(*old(app), *final(app), item, effects(r@)),
{
    match item {
        None => nothing(),
        Some(EventStreamItem::Event(event)) => {
            match event {
                RunnerEvent::ShutdownStarted => start_shutdown(app),
                other => {
                    let grew = apply_runner_event(other, app);
                    assert(runner_event_acts(*old(app), *app, other, grew));
                },
            }
            nothing()
        },
        Some(EventStreamItem::Snapshot(snapshot)) => {
            app.resync_from(&snapshot);
            nothing()
        },
        Some(EventStreamItem::Lagged(_)) => just(Effect::Resync),
    }
}

/// The services that have not been started.
pub open spec fn lazy_services(services: Map<Seq<char>, ServiceState>) -> Set<Seq<char>> {
    Set::new(|n: Seq<char>| services.contains_key(n) && services[n] == ServiceState::Lazy)
}

fn lazy_names(services: &NameMap<ServiceState>) -> (r: NameSet)
    ensures
        r@ == lazy_services(services@),
{
    let n: usize = services.len();
    let mut out = NameSet::new();
    let mut i: usize = 0;
    let ghost order = services.order();
    let ghost wanted = lazy_services(services@);
    proof {
        assert(order.take(0) =~= Seq::<Seq<char>>::empty());
        assert(out@ =~= wanted.intersect(order.take(0).to_set()));
    }
    while i < n
        invariant
            i <= n,
            n == order.len(),
            order == services.order(),
            order.to_set() == services@.dom(),
            wanted == lazy_services(services@),
            out@ == wanted.intersect(order.take(i as int).to_set()),
        decreases n - i,
    {
        let name = services.key_at(i);
        if *services.value_at(i) == ServiceState::Lazy {
            let _new = out.insert(name.as_str());
        }
        proof {
            lemma_take_set(order, i as int);
            assert(out@ =~= wanted.intersect(order.take(i + 1).to_set()));
        }
        i += 1;
    }
    proof {
        assert(order.take(n as int) =~= order);
        assert(wanted.intersect(order.to_set()) =~= wanted);
    }
    out
}

/// Whether `new` is `old` with lazy services hidden from the filter's list.
pub open spec fn hides_lazy(old: App, new: App) -> bool {
    &&& new == (App { filter: new.filter, ..old })
    &&& new.filter@ == (FilterView {
        hidden: lazy_services(old.services_state@),
        ..old.filter@
    }).clamped()
}

/// Takes a record of the runner's stream. Services that have not been started
/// are left out of the filter's list afterwards.
pub fn take_runner_item(item: Option<EventStreamItem>, app: &mut App) -> (r: Vec<Effect>)
    ensures
        exists|mid: App|
            #[trigger] item_acts(*old(app), mid, item, effects(r@)) && hides_lazy(
                mid,
                *final(app),
            ),
{
    let r = apply_item(item, app);
    let ghost mid = *app;
    let lazy = lazy_names(&app.services_state);
    app.filter.set_hidden_from_display(lazy);
    assert(item_acts(*old(app), mid, item, effects(r@)) && hides_lazy(mid, *app));
    r
}

/// The state after a tick of the clock: the spinner turns, and a note about a
/// copy goes once it has been up long enough.
pub open spec fn ticked(app: App, now: u64, frame: usize) -> App {
    App {
        spinner_frame: frame,
        copy_notice: match app.copy_notice {
            Some((note, at)) => if now - at > COPY_NOTICE_TTL {
                None
            } else {
                app.copy_notice
            },
            None => None,
        },
        ..app
    }
}

/// A tick of the clock.
pub fn tick(app: &mut App, now: u64)
    ensures
        *final(app) == ticked(*old(app), now, final(app).spinner_frame),
        final(app).spinner_frame as int == (old(app).spinner_frame + 1) % (usize::MAX + 1),
{
    app.spinner_frame = if app.spinner_frame == usize::MAX {
        0
    } else {
        app.spinner_frame + 1
    };
    let expired = match &app.copy_notice {
        Some((_, at)) => now.saturating_sub(*at) > COPY_NOTICE_TTL,
        None => false,
    };
    if expired {
        app.copy_notice = None;
    }
    proof {
        if old(app).spinner_frame < usize::MAX {
            vstd::arithmetic::div_mod::lemma_small_mod(
                (old(app).spinner_frame + 1) as nat,
                (usize::MAX + 1) as nat,
            );
        } else {
            vstd::arithmetic::div_mod::lemma_mod_self_0(usize::MAX + 1);
        }
    }
}

/// Whether input that is already queued is taken in the same turn, so that a
/// burst stays inside one frame: not once the reader leaves, nor before a
/// window that was asked for is open.
pub fn drains_input(app: &App) -> (r: bool)
    ensures
        r == (!app.exit_requested && app.bridge_request is None),
{
    !app.exit_requested && app.bridge_request.is_none()
}

/// When a frame is due. A frame is a difference to the one before it, so none
/// may be dropped; instead none is produced while one is still being written.
#[derive(Debug, Clone, Copy, PartialEq, Eq, Structural)]
pub struct FrameGate {
    /// Whether the state changed since the last frame.
    pub dirty: bool,
    /// Frames produced and not yet written.
    pub in_flight: usize,
}

impl FrameGate {
    /// Nothing drawn yet.
    pub fn new() -> (r: FrameGate)
        ensures
            r == (FrameGate { dirty: true, in_flight: 0 }),
    {
        FrameGate { dirty: true, in_flight: 0 }
    }

    /// Whether a frame is due.
    pub open spec fn open_now(self) -> bool {
        self.dirty && self.in_flight == 0
    }

    /// Whether a frame is due.
    pub fn is_due(&self) -> (r: bool)
        ensures
            r == self.open_now(),
    {
        self.dirty && self.in_flight == 0
    }

    /// How it stands once the state changed.
    pub open spec fn touched(self) -> FrameGate {
        FrameGate { dirty: true, ..self }
    }

    /// How it stands once a frame was produced.
    pub open spec fn passed(self) -> FrameGate {
        FrameGate { dirty: false, in_flight: (self.in_flight + 1) as usize }
    }

    /// How it stands once something was written.
    pub open spec fn relieved(self) -> FrameGate {
        FrameGate {
            in_flight: if self.in_flight == 0 {
                0
            } else {
                (self.in_flight - 1) as usize
            },
            ..self
        }
    }

    /// The state changed.
    pub fn touch(&mut self)
        ensures
            *final(self) == old(self).touched(),
    {
        self.dirty = true;
    }

    /// A frame was produced.
    pub fn drawn(&mut self)
        requires
            old(self).open_now(),
        ensures
            *final(self) == old(self).passed(),
    {
        self.dirty = false;
        self.in_flight = self.in_flight + 1;
    }

    /// Something was written.
    pub fn written(&mut self)
        ensures
            *final(self) == old(self).relieved(),
    {
        self.in_flight = self.in_flight.saturating_sub(1);
    }
}

/// What a key comes to while a window on a live process is open.
#[derive(Debug)]
pub enum AttachInput {
    /// These bytes are typed at the process.
    Forward(Vec<u8>),
    /// The window closes and the process runs on.
    Detach,
    /// Nothing.
    Ignored,
}

/// Whether the window on screen is a record rather than a live terminal.
pub open spec fn has_ended(app: App) -> bool {
    match app.attach {
        Some(view) => view.ended,
        None => false,
    }
}

/// Whether the window on screen is a record rather than a live terminal.
pub fn attach_ended(app: &App) -> (r: bool)
    ensures
        r == has_ended(*app),
{
    match &app.attach {
        Some(view) => view.ended,
        None => false,
    }
}

/// The state with no window.
pub open spec fn detached(app: App) -> App {
    App { attach: None, attach_opened_automatically: false, ..app }
}

/// What closing the window asks for.
pub open spec fn end_effects(live: bool) -> Seq<EffectView> {
    if live {
        seq![EffectView::EndSession]
    } else {
        no_effects()
    }
}

/// Closes the window. The process runs on; don stops watching it.
pub fn end_attach(app: &mut App, live: bool) -> (r: Vec<Effect>)
    ensures
        *final(app) == detached(*old(app)),
        effects(r@) == end_effects(live),
{
    app.attach = None;
    app.attach_opened_automatically = false;
    if live {
        just(Effect::EndSession)
    } else {
        nothing()
    }
}

/// What a window's new size asks for: for the process the window is the
/// terminal.
pub fn resize_process_grid(window: WindowRect, live: bool) -> (r: Vec<Effect>)
    ensures
        effects(r@) == (if live {
            seq![EffectView::ResizeProcess { cols: window.grid().0, rows: window.grid().1 }]
        } else {
            no_effects()
        }),
{
    if live {
        let (cols, rows) = window.grid_size();
        just(Effect::ResizeProcess { cols, rows })
    } else {
        nothing()
    }
}

/// The state after a window's connection ended: the window stays.
pub open spec fn ended(app: App) -> App {
    App {
        attach: match app.attach {
            Some(view) => Some(AttachView { ended: true, ..view }),
            None => None,
        },
        ..app
    }
}

/// Acts on what an attach session says.
pub fn handle_attach_event(event: AttachEvent, app: &mut App, live: bool) -> (r: Vec<Effect>)
    ensures
        !live ==> *final(app) == *old(app) && effects(r@) == no_effects(),
        live ==> (match event {
            AttachEvent::Output => *final(app) == *old(app) && effects(r@) == seq![
                EffectView::ReadGrid,
            ],
            AttachEvent::Ended => *final(app) == ended(*old(app)) && effects(r@) == seq![
                EffectView::EndSession,
            ],
        }),
{
    if !live {
        return nothing();
    }
    match event {
        AttachEvent::Output => just(Effect::ReadGrid),
        AttachEvent::Ended => {
            match &mut app.attach {
                Some(view) => {
                    view.ended = true;
                },
                None => {},
            }
            just(Effect::EndSession)
        },
    }
}

/// The attached process's screen was read.
pub fn note_grid(app: &mut App, grid: Option<Grid>)
    ensures
        *final(app) == (App {
            attach: match old(app).attach {
                Some(view) => Some(AttachView { grid, ..view }),
                None => None,
            },
            ..*old(app)
        }),
{
    match &mut app.attach {
        Some(view) => {
            view.grid = grid;
        },
        None => {},
    }
}

/// Whether an event is the window's: an attach session's own, a key while the
/// window is open, a click on it, or a resize of the screen it is on.
pub open spec fn is_windows(app: App, event: AppEvent, live: bool) -> bool {
    match event {
        AppEvent::Attach(_) => true,
        AppEvent::Key(_) => (live && !has_ended(app)) || app.attach is Some,
        AppEvent::Mouse(mouse, _) => match app.attach {
            Some(view) => view.window.rect().has(mouse.column as int, mouse.row as int),
            None => false,
        },
        AppEvent::Resize => app.attach is Some,
        _ => false,
    }
}

/// Whether `new` is `old` after an event that is the window's. With a live
/// window keys are the process's; with an ended one any key closes it; a click
/// on the window goes nowhere.
pub open spec fn window_acts(
    old: App,
    new: App,
    event: AppEvent,
    live: bool,
    routed: AttachInput,
    area: Rect,
    fx: Seq<EffectView>,
) -> bool {
    match event {
        AppEvent::Attach(attach_event) => if !live {
            new == old && fx == no_effects()
        } else {
            match attach_event {
                AttachEvent::Output => new == old && fx == seq![EffectView::ReadGrid],
                AttachEvent::Ended => new == ended(old) && fx == seq![EffectView::EndSession],
            }
        },
        AppEvent::Key(_) => if live && !has_ended(old) {
            match routed {
                AttachInput::Forward(bytes) => new == old && fx == seq![
                    EffectView::Forward(bytes@),
                ],
                AttachInput::Detach => new == detached(old) && fx == end_effects(live),
                AttachInput::Ignored => new == old && fx == no_effects(),
            }
        } else {
            new == detached(old) && fx == end_effects(live)
        },
        AppEvent::Resize => {
            let window = old.attach->0.window.within(area);
            &&& new == (App { attach: Some(AttachView { window, ..old.attach->0 }), ..old })
            &&& fx == (if live && window != old.attach->0.window {
                seq![EffectView::ResizeProcess { cols: window.grid().0, rows: window.grid().1 }]
            } else {
                no_effects()
            })
        },
        _ => new == old && fx == no_effects(),
    }
}

/// Whether `new` is `old` after an event, given whether an attach session is
/// live and what a key means to it: the window comes first, then whatever else
/// is on screen.
pub open spec fn dispatch_acts(
    old: App,
    new: App,
    event: AppEvent,
    live: bool,
    routed: AttachInput,
    area: Rect,
    mode: TuiMode,
    stores: LogStores,
    fx: Seq<EffectView>,
) -> bool {
    if is_windows(old, event, live) {
        window_acts(old, new, event, live, routed, area, fx)
    } else {
        event_acts(old, new, event, mode, stores.front(old.debug_view)@, fx)
    }
}

fn over_window(app: &App, column: u16, row: u16) -> (r: bool)
    ensures
        r == (match app.attach {
            Some(view) => view.window.rect().has(column as int, row as int),
            None => false,
        }),
{
    match &app.attach {
        Some(view) => view.window.contains(column, row),
        None => false,
    }
}

fn refit_window(app: &mut App, live: bool, area: Rect) -> (r: Vec<Effect>)
    requires
        old(app).attach is Some,
    ensures
        ({
            let view = old(app).attach->0;
            let window = view.window.within(area);
            &&& *final(app) == (App {
                attach: Some(AttachView { window, ..view }),
                ..*old(app)
            })
            &&& effects(r@) == (if live && window != view.window {
                seq![EffectView::ResizeProcess { cols: window.grid().0, rows: window.grid().1 }]
            } else {
                no_effects()
            })
        }),
{
    match &mut app.attach {
        Some(view) => {
            let refitted = view.window.fitted(area);
            if refitted != view.window {
                view.window = refitted;
                resize_process_grid(refitted, live)
            } else {
                nothing()
            }
        },
        None => nothing(),
    }
}

fn give_to_window(
    event: &AppEvent,
    app: &mut App,
    live: bool,
    routed: AttachInput,
    area: Rect,
) -> (r: Option<Vec<Effect>>)
    ensures
        r is Some <==> is_windows(*old(app), *event, live),
        r is None ==> *final(app) == *old(app),
        r matches Some(list) ==> window_acts(
            *old(app),
            *final(app),
            *event,
            live,
            routed,
            area,
            effects(list@),
        ),
{
    match event {
        AppEvent::Attach(attach_event) => Some(handle_attach_event(*attach_event, app, live)),
        AppEvent::Key(_) => {
            if live && !attach_ended(app) {
                match routed {
                    AttachInput::Forward(bytes) => Some(just(Effect::Forward(bytes))),
                    AttachInput::Detach => Some(end_attach(app, live)),
                    AttachInput::Ignored => Some(nothing()),
                }
            } else if app.attach.is_some() {
                Some(end_attach(app, live))
            } else {
                None
            }
        },
        AppEvent::Mouse(mouse, _) => {
            if over_window(app, mouse.column, mouse.row) {
                Some(nothing())
            } else {
                None
            }
        },
        AppEvent::Resize => {
            if app.attach.is_some() {
                Some(refit_window(app, live, area))
            } else {
                None
            }
        },
        _ => None,
    }
}

/// Acts on an event, whatever is in front of the reader.
pub fn dispatch_event(
    event: AppEvent,
    app: &mut App,
    stores: &LogStores,
    live: bool,
    routed: AttachInput,
    area: Rect,
    mode: TuiMode,
) -> (r: Vec<Effect>)
    ensures
        dispatch_acts(
            *old(app),
            *final(app),
            event,
            live,
            routed,
            area,
            mode,
            *stores,
            effects(r@),
        ),
{
    match give_to_window(&event, app, live, routed, area) {
        Some(list) => list,
        None => {
            let store = stores.active(app.debug_view);
            handle_app_event(event, app, store, mode)
        },
    }
}

/// The state after the window was settled: what asked to be closed is closed,
/// and what asked to be opened is being opened.
pub open spec fn settled(app: App) -> App {
    let after = if app.attach_dismiss_requested {
        detached(App { attach_dismiss_requested: false, ..app })
    } else {
        app
    };
    App { bridge_request: None, ..after }
}

/// What settling the window asks for.
pub open spec fn settle_effects(app: App, live: bool, area: Rect) -> Seq<EffectView> {
    let closing = if app.attach_dismiss_requested {
        end_effects(live)
    } else {
        no_effects()
    };
    match app.bridge_request {
        Some(name) => {
            let window = WindowRect::middle_of(area);
            closing.push(
                EffectView::StartSession {
                    name: name@,
                    window,
                    cols: window.grid().0,
                    rows: window.grid().1,
                },
            )
        },
        None => closing,
    }
}

/// Opens or closes the window, if anything asked for it.
pub fn settle_attach(app: &mut App, live: bool, area: Rect) -> (r: Vec<Effect>)
    ensures
        *final(app) == settled(*old(app)),
        effects(r@) == settle_effects(*old(app), live, area),
{
    let mut out: Vec<Effect> = nothing();
    if app.attach_dismiss_requested {
        app.attach_dismiss_requested = false;
        out = end_attach(app, live);
    }
    let ghost closing = out@;
    match app.bridge_request.take() {
        Some(name) => {
            let window = WindowRect::centred_in(area);
            let (cols, rows) = window.grid_size();
            let effect = Effect::StartSession { name, window, cols, rows };
            let ghost last = effect@;
            out.push(effect);
            assert(effects(out@) =~= effects(closing).push(last));
        },
        None => {},
    }
    out
}

/// The attach session is up: its window is on screen.
pub fn note_attached(app: &mut App, name: String, window: WindowRect)
    ensures
        *final(app) == (App {
            attach: Some(AttachView { name, window, grid: None, ended: false }),
            ..*old(app)
        }),
{
    app.attach = Some(AttachView { name, window, grid: None, ended: false });
}

/// The attach session could not be started. Returns what to say of it.
pub fn note_attach_failed(app: &mut App, name: &str, why: &str) -> (r: String)
    ensures
        *final(app) == (App { attach_opened_automatically: false, ..*old(app) }),
        r@ == "attach '"@ + name@ + "' failed: "@ + why@,
{
    app.attach_opened_automatically = false;
    let mut out = "attach '".to_owned();
    out.append(name);
    out.append("' failed: ");
    out.append(why);
    out
}

/// There is never more than one frame in flight: no change, frame or write
/// brings a second one. What changes while a frame is in flight is drawn once
/// that frame is written.
pub proof fn one_frame_at_a_time(gate: FrameGate)
    requires
        gate.in_flight <= 1,
    ensures
        gate.touched().in_flight <= 1,
        gate.open_now() ==> gate.passed().in_flight == 1 && !gate.passed().open_now(),
        gate.relieved().in_flight == 0,
        gate.in_flight == 1 ==> !gate.touched().open_now(),
        gate.touched().relieved().open_now(),
{
}

/// A line that says more than is usually wanted goes to the debug log alone, and
/// every other line to the output alone; the log on screen is the one that was
/// chosen.
pub proof fn a_line_goes_to_one_log(
    before: LogStores,
    after: LogStores,
    id: LogId,
    line: FormattedLogLine,
)
    requires
        routes(before, after, id, line),
    ensures
        line.is_verbose ==> after.output == before.output,
        !line.is_verbose ==> after.debug == before.debug,
        line.is_verbose && before.debug.limit() > 0 ==> after.debug@.len() > 0
            && after.debug@.last().line == line && after.debug@.last().id == id,
        !line.is_verbose && before.output.limit() > 0 ==> after.output@.len() > 0
            && after.output@.last().line == line && after.output@.last().id == id,
        before.front(false) == before.output,
        before.front(true) == before.debug,
{
}

/// When shutdown begins everything that lies over the log closes and every line
/// is shown; it begins once.
pub proof fn shutdown_clears_the_screen_once(old: App, new: App, again: App, name: Seq<char>)
    requires
        begins_shutdown(old, new),
        begins_shutdown(new, again),
    ensures
        new.shutdown_started,
        new.renders(name),
        again == new,
        !old.shutdown_started ==> new.view_mode == ViewMode::Normal && new.form is None
            && new.failure_summary_scroll == 0,
        new.filter == old.filter,
        new.log_scroll == old.log_scroll,
{
}

/// Shutdown is announced by the runner itself in so many words, and by nobody
/// else.
pub proof fn only_the_runner_announces_shutdown(line: FormattedLogLine)
    ensures
        line.name@ != LIFECYCLE_EVENT_NAME@ ==> !announces_shutdown(line),
        announces_shutdown(line) ==> has_part(
            lossy_text(line.bytes@),
            "shutting down gracefully"@,
        ),
        line.name@ == LIFECYCLE_EVENT_NAME@ && has_part(
            lossy_text(line.bytes@),
            "shutting down gracefully"@,
        ) ==> announces_shutdown(line),
{
}

/// A batch announces shutdown when one of its lines does.
pub proof fn one_line_of_a_batch_is_enough(batch: Seq<(LogId, FormattedLogLine)>)
    ensures
        batch_announces_shutdown(batch) <==> exists|i: int|
            0 <= i < batch.len() && announces_shutdown((#[trigger] batch[i]).1),
    decreases batch.len(),
{
    if batch.len() > 0 {
        let front = batch.drop_last();
        one_line_of_a_batch_is_enough(front);
        if batch_announces_shutdown(front) {
            let i = choose|i: int| 0 <= i < front.len() && announces_shutdown((#[trigger] front[i]).1);
            assert(batch[i] == front[i]);
        }
        if announces_shutdown(batch.last().1) {
            assert(batch[batch.len() - 1] == batch.last());
        }
        if exists|i: int| 0 <= i < batch.len() && announces_shutdown((#[trigger] batch[i]).1) {
            let i = choose|i: int| 0 <= i < batch.len() && announces_shutdown((#[trigger] batch[i]).1);
            if i < front.len() {
                assert(front[i] == batch[i]);
            }
        }
    }
}

/// A gap in the history is told where the lines go on, with how many are
/// missing, as a line of the runner's own; any other line is passed on as it is.
pub proof fn a_gap_is_told_in_its_place(
    entry: (LogId, FormattedLogLine),
    event: MergedEvent,
)
    requires
        is_entry_for(entry, event),
    ensures
        event matches MergedEvent::Line(id, line) ==> entry.0 == id && entry.1 == line,
        event matches MergedEvent::Dropped { count, resumed_at } ==> {
            &&& entry.0 == resumed_at
            &&& entry.1.name@ == LIFECYCLE_EVENT_NAME@
            &&& !entry.1.is_verbose
            &&& entry.1.is_lifecycle
            &&& decimal(count as nat).is_prefix_of(gap_notice(count))
        },
{
}

/// What the runner says of a service is recorded under its name and nobody
/// else's; a failure of one that was to be watched for lets its lines be shown,
/// and no line that was shown is hidden.
pub proof fn a_service_event_is_recorded(
    old: App,
    new: App,
    event: RunnerEvent,
    grew: bool,
    other: Seq<char>,
)
    requires
        runner_event_acts(old, new, event, grew),
        event is ServiceStateChanged,
    ensures
        event matches RunnerEvent::ServiceStateChanged { name, state, pid, failed_dependencies } && {
            &&& new.services_state@.contains_key(name@) && new.services_state@[name@] == state
            &&& new.service_pids@.contains_key(name@) && new.service_pids@[name@] == pid
            &&& other != name@ && old.services_state@.contains_key(other)
                ==> new.services_state@.contains_key(other) && new.services_state@[other]
                == old.services_state@[other]
            &&& new.tasks_state == old.tasks_state
            &&& old.filter@.active.contains(other) ==> new.filter@.active.contains(other)
            &&& state == ServiceState::Failed && old.auto_filter_on_failure_names@.contains(name@)
                && old.filter@.names.contains(name@) ==> new.filter@.active.contains(name@)
            &&& state != ServiceState::Failed ==> new.filter@ == old.filter@ && !grew
            &&& new.view_mode == old.view_mode && new.log_scroll == old.log_scroll
            &&& counts_all(new.counts, new.services_state@, new.tasks_state@)
        },
{
}

/// What the runner says of a task is recorded under its name and nobody else's;
/// an interactive task that begins to run asks for a window.
pub proof fn a_task_event_is_recorded(
    old: App,
    new: App,
    event: RunnerEvent,
    grew: bool,
    other: Seq<char>,
)
    requires
        runner_event_acts(old, new, event, grew),
        event is TaskStateChanged,
    ensures
        event matches RunnerEvent::TaskStateChanged { name, state, last_run, failed_dependencies } && {
            &&& new.tasks_state@.contains_key(name@) && new.tasks_state@[name@] == state
            &&& other != name@ && old.tasks_state@.contains_key(other)
                ==> new.tasks_state@.contains_key(other) && new.tasks_state@[other]
                == old.tasks_state@[other]
            &&& last_run matches Some(run) ==> new.tasks_last_run@.contains_key(name@)
                && new.tasks_last_run@[name@] == run
            &&& last_run is None ==> new.tasks_last_run@ == old.tasks_last_run@
            &&& new.services_state == old.services_state
            &&& old.filter@.active.contains(other) ==> new.filter@.active.contains(other)
            &&& state == TaskState::Failed && old.auto_filter_on_failure_names@.contains(name@)
                && old.filter@.names.contains(name@) ==> new.filter@.active.contains(name@)
            &&& state == TaskState::Running && old.task_configs@.contains_key(name@)
                && old.task_configs@[name@].interactive && old.attach is None
                && old.bridge_request is None && !old.tasks_state@.contains_key(name@) ==> (
            new.bridge_request matches Some(asked) && asked@ == name@)
                && new.attach_opened_automatically
            &&& state != TaskState::Running ==> text_of(new.bridge_request) == text_of(
                old.bridge_request,
            )
            &&& counts_all(new.counts, new.services_state@, new.tasks_state@)
        },
{
}

/// A stream that fell behind is answered by asking for everything anew, and a
/// snapshot of everything is taken as it stands; the end of the stream changes
/// nothing.
#[verifier::spinoff_prover]
pub proof fn falling_behind_asks_for_everything(
    old: App,
    new: App,
    item: Option<EventStreamItem>,
    fx: Seq<EffectView>,
)
    requires
        item_acts(old, new, item, fx),
    ensures
        item matches Some(EventStreamItem::Lagged(_)) ==> fx.len() == 1 && fx[0] is Resync && new
            == old,
        !(item matches Some(EventStreamItem::Lagged(_))) ==> fx.len() == 0,
        item matches Some(EventStreamItem::Snapshot(snapshot)) ==> new.records()
            == old.records().absorbing_all(snapshot.processes@),
        item is None ==> new == old,
{
}

/// Only services that wait for their first connection are left out of the
/// filter's list, and their lines are still shown.
pub proof fn only_lazy_services_are_left_out(old: App, new: App, name: Seq<char>)
    requires
        hides_lazy(old, new),
    ensures
        new.filter@.hidden.contains(name) <==> old.services_state@.contains_key(name)
            && old.services_state@[name] == ServiceState::Lazy,
        new.filter@.active == old.filter@.active,
        new.renders(name) == old.renders(name),
{
}

/// The note about a copy stays for four seconds and goes then.
pub proof fn a_note_goes_after_four_seconds(app: App, now: u64, frame: usize)
    ensures
        app.copy_notice matches Some((note, at)) && at <= now <= at + 4000 ==> ticked(
            app,
            now,
            frame,
        ).copy_notice == app.copy_notice,
        app.copy_notice matches Some((note, at)) && now > at + 4000 ==> ticked(
            app,
            now,
            frame,
        ).copy_notice is None,
        app.copy_notice is None ==> ticked(app, now, frame).copy_notice is None,
        ticked(app, now, frame).spinner_frame == frame,
{
}

/// While a window is open onto a process that runs, keys go to the process; once
/// the process ended any key closes the window and goes no further.
#[verifier::spinoff_prover]
pub proof fn keys_go_to_the_process_while_it_runs(
    old: App,
    new: App,
    key: KeyEvent,
    live: bool,
    routed: AttachInput,
    area: Rect,
    mode: TuiMode,
    stores: LogStores,
    fx: Seq<EffectView>,
)
    requires
        dispatch_acts(old, new, AppEvent::Key(key), live, routed, area, mode, stores, fx),
        old.attach is Some,
    ensures
        live && !old.attach->0.ended ==> {
            &&& routed matches AttachInput::Forward(bytes) ==> new == old && fx.len() == 1 && fx[0]
                == EffectView::Forward(bytes@)
            &&& routed is Detach ==> new.attach is None && fx.len() == 1 && fx[0] is EndSession
            &&& routed is Ignored ==> new == old && fx.len() == 0
        },
        !live || old.attach->0.ended ==> new.attach is None && new.view_mode == old.view_mode,
        !live ==> fx.len() == 0,
        live && old.attach->0.ended ==> fx.len() == 1 && fx[0] is EndSession,
{
}

/// What a process writes is read, and its end is noted in the window, which
/// stays; neither does anything once the window is gone.
#[verifier::spinoff_prover]
pub proof fn a_process_is_heard_through_its_window(
    old: App,
    new: App,
    event: AttachEvent,
    live: bool,
    routed: AttachInput,
    area: Rect,
    mode: TuiMode,
    stores: LogStores,
    fx: Seq<EffectView>,
)
    requires
        dispatch_acts(old, new, AppEvent::Attach(event), live, routed, area, mode, stores, fx),
    ensures
        !live ==> new == old && fx.len() == 0,
        live && event is Output ==> new == old && fx.len() == 1 && fx[0] is ReadGrid,
        live && event is Ended ==> fx.len() == 1 && fx[0] is EndSession && (old.attach is Some
            ==> new.attach is Some && new.attach->0.ended && new.attach->0.name
            == old.attach->0.name),
{
}

/// A resize fits an open window into the screen, and the process is told its new
/// size only where the window changed.
#[verifier::spinoff_prover]
pub proof fn a_resize_fits_the_window(
    old: App,
    new: App,
    live: bool,
    routed: AttachInput,
    area: Rect,
    mode: TuiMode,
    stores: LogStores,
    fx: Seq<EffectView>,
)
    requires
        dispatch_acts(old, new, AppEvent::Resize, live, routed, area, mode, stores, fx),
    ensures
        old.attach matches Some(view) ==> {
            let window = view.window.within(area);
            &&& new.attach matches Some(after) && after.window == window && after.name == view.name
            &&& window == view.window || !live ==> fx.len() == 0
            &&& window != view.window && live ==> fx.len() == 1 && fx[0]
                == (EffectView::ResizeProcess { cols: window.grid().0, rows: window.grid().1 })
        },
{
    reveal(crate::dispatch::event_acts);
}

/// A window that was asked for is opened in the middle of the screen for the
/// process it was asked for, once, and one that is to go is closed first.
pub proof fn a_window_asked_for_is_opened_once(app: App, live: bool, area: Rect)
    ensures
        settled(app).bridge_request is None,
        !settled(app).attach_dismiss_requested,
        app.attach_dismiss_requested ==> settled(app).attach is None,
        !app.attach_dismiss_requested ==> settled(app).attach == app.attach,
        app.bridge_request matches Some(name) ==> {
            let fx = settle_effects(app, live, area);
            &&& fx.len() > 0
            &&& fx.last() matches EffectView::StartSession { name: asked, window, cols, rows }
                && asked == name@ && window == WindowRect::middle_of(area)
            &&& app.attach_dismiss_requested && live ==> fx.len() == 2 && fx[0] is EndSession
            &&& !app.attach_dismiss_requested ==> fx.len() == 1
        },
        app.bridge_request is None && !app.attach_dismiss_requested ==> settle_effects(
            app,
            live,
            area,
        ).len() == 0,
{
}

/// Of a batch the last line is the last of its log.
pub proof fn a_batch_ends_with_its_last_line(
    before: LogStores,
    after: LogStores,
    batch: Seq<(LogId, FormattedLogLine)>,
)
    requires
        routes_all(before, after, batch),
        batch.len() > 0,
    ensures
        !batch.last().1.is_verbose && after.output.limit() > 0 ==> after.output@.len() > 0
            && after.output@.last().line == batch.last().1 && after.output@.last().id
            == batch.last().0,
        batch.last().1.is_verbose && after.debug.limit() > 0 ==> after.debug@.len() > 0
            && after.debug@.last().line == batch.last().1 && after.debug@.last().id
            == batch.last().0,
{
    let trace = choose|trace: Seq<LogStores>| is_trace(trace, before, after, batch);
    let n = batch.len() - 1;
    assert(routes(trace[n], trace[n + 1], batch[n].0, batch[n].1));
    assert(trace[n + 1] == after);
}

/// What a name waits for is recorded as it was told, and forgotten once it waits
/// for nothing.
pub proof fn what_is_waited_for_is_recorded(
    old: App,
    new: App,
    name: Seq<char>,
    blockers: Seq<Seq<char>>,
    other: Seq<char>,
)
    requires
        blocks(old, new, name, blockers),
    ensures
        blockers.len() > 0 ==> new.failed_dependencies@.contains_key(name) && views(
            new.failed_dependencies@[name]@,
        ) == blockers,
        blockers.len() == 0 ==> !new.failed_dependencies@.contains_key(name),
        other != name ==> (new.failed_dependencies@.contains_key(other)
            <==> old.failed_dependencies@.contains_key(other)),
        other != name && old.failed_dependencies@.contains_key(other) ==> views(
            new.failed_dependencies@[other]@,
        ) == views(old.failed_dependencies@[other]@),
{
    let before = crate::app::lists(old.failed_dependencies@);
    let after = crate::app::lists(new.failed_dependencies@);
    assert(after.contains_key(name) == new.failed_dependencies@.contains_key(name));
    assert(after.contains_key(other) == new.failed_dependencies@.contains_key(other));
    assert(before.contains_key(other) == old.failed_dependencies@.contains_key(other));
    if new.failed_dependencies@.contains_key(name) {
        assert(after[name] == views(new.failed_dependencies@[name]@));
    }
    if new.failed_dependencies@.contains_key(other) {
        assert(after[other] == views(new.failed_dependencies@[other]@));
    }
    if old.failed_dependencies@.contains_key(other) {
        assert(before[other] == views(old.failed_dependencies@[other]@));
    }
}

/// A window that is left is forgotten as one that opened by itself, so that the
/// next one is the user's own.
pub proof fn a_window_that_is_left_is_forgotten(app: App)
    ensures
        detached(app).attach is None,
        !detached(app).attach_opened_automatically,
        detached(app).view_mode == app.view_mode,
        detached(app).bridge_request == app.bridge_request,
        ended(app).attach is Some <==> app.attach is Some,
        app.attach matches Some(view) ==> ended(app).attach->0.ended && ended(app).attach->0.grid
            == view.grid,
{
}

/// While a window lies over the log, the mouse over it and the keys are the
/// window's; elsewhere the mouse acts as ever.
pub proof fn a_window_takes_what_is_its_own(
    app: App,
    mouse: MouseEvent,
    key: KeyEvent,
    at: u64,
    live: bool,
)
    ensures
        app.attach is Some ==> is_windows(app, AppEvent::Key(key), live),
        app.attach is None && !live ==> !is_windows(app, AppEvent::Key(key), live),
        app.attach matches Some(view) ==> (is_windows(app, AppEvent::Mouse(mouse, at), live)
            <==> view.window.x <= mouse.column < view.window.x + view.window.width && view.window.y
            <= mouse.row < view.window.y + view.window.height),
        app.attach is None ==> !is_windows(app, AppEvent::Mouse(mouse, at), live),
        app.attach is None ==> !is_windows(app, AppEvent::Resize, live),
{
}

/// What is not a window's goes on to the rest of the interface, with the log
/// that is on screen: the output, or the debug log where that was chosen.
pub proof fn events_act_on_the_log_on_screen(
    old: App,
    new: App,
    event: AppEvent,
    live: bool,
    routed: AttachInput,
    area: Rect,
    mode: TuiMode,
    stores: LogStores,
    fx: Seq<EffectView>,
)
    requires
        dispatch_acts(old, new, event, live, routed, area, mode, stores, fx),
        !is_windows(old, event, live),
    ensures
        old.debug_view ==> event_acts(old, new, event, mode, stores.debug@, fx),
        !old.debug_view ==> event_acts(old, new, event, mode, stores.output@, fx),
{
}

} // verus!
