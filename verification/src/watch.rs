//! What is rebuilt when files change: every watched item waits for a quiet
//! moment, is rebuilt, and is rebuilt once more if it changed meanwhile.
use crate::config::{copy_text, text_of};
use crate::coverage::{covered, is_covered, mode_label, recursive_mode_label, RecursiveMode};
use crate::globs::{
    any_matches, fault_of, matches_any, pattern_fault, pattern_match, WatchIgnore,
};
use crate::names::{copy_names, has_name, views, NameMap};
use crate::paths::{glob_base_dir, resolve_pattern, resolved_pattern, watch_dir_of};
use crate::text::{decimal, has_suffix, push_decimal, same, strip_suffix};
use vstd::prelude::*;

verus! {

/// How long an item waits for quiet, in milliseconds, unless it says otherwise.
pub const DEFAULT_DEBOUNCE: u64 = 200;

/// The item that watches the files at the root of a workspace that describe how
/// it is built.
pub const WORKSPACE_GRAPH_ITEM_NAME: &'static str = "__workspace_graph__";

/// Where an item is in its cycle.
#[derive(Debug, Clone, Copy, PartialEq, Eq, Structural)]
pub enum WatchState {
    /// Nothing changed.
    Idle,
    /// Something changed, and the quiet is being waited for.
    Debouncing,
    /// It is being rebuilt.
    Rebuilding,
}

/// What kind of thing an item is, which decides what is sent for it.
#[derive(Debug, Clone, Copy, PartialEq, Eq, Structural)]
pub enum WatchItemKind {
    Service,
    Task,
    /// The files that describe how something is built. Nothing is rebuilt for
    /// them; the build tool is asked again.
    BuildGraph,
}

/// A watched item.
#[derive(Debug)]
pub struct WatchedItem {
    pub state: WatchState,
    /// How long it waits for quiet, in milliseconds.
    pub debounce_duration: u64,
    /// When the quiet is over.
    pub debounce_deadline: Option<u64>,
    /// It changed while it was being rebuilt.
    pub stale: bool,
    pub kind: WatchItemKind,
    pub patterns: Vec<String>,
    pub ignore_patterns: Vec<String>,
    pub last_error: Option<String>,
}

/// A watched item, as a reader of contracts sees it.
pub struct ItemView {
    pub state: WatchState,
    pub debounce_duration: u64,
    pub debounce_deadline: Option<u64>,
    pub stale: bool,
    pub kind: WatchItemKind,
    pub patterns: Seq<Seq<char>>,
    pub ignore_patterns: Seq<Seq<char>>,
    pub last_error: Option<Seq<char>>,
}

impl View for WatchedItem {
    type V = ItemView;

    open spec fn view(&self) -> ItemView {
        ItemView {
            state: self.state,
            debounce_duration: self.debounce_duration,
            debounce_deadline: self.debounce_deadline,
            stale: self.stale,
            kind: self.kind,
            patterns: views(self.patterns@),
            ignore_patterns: views(self.ignore_patterns@),
            last_error: text_of(self.last_error),
        }
    }
}

/// The items of a map, as a reader of contracts sees them.
pub open spec fn item_views(items: Map<Seq<char>, WatchedItem>) -> Map<Seq<char>, ItemView> {
    items.map_values(|item: WatchedItem| item@)
}

/// What the runner is asked to do.
#[derive(Debug)]
pub enum RunnerCommand {
    Rebuild { name: String },
    TaskRerun { name: String },
    BuildGraphChanged { name: String },
    /// What is being rebuilt is out of date already.
    RebuildStale { name: String },
}

/// What the runner is asked to do, as a reader of contracts sees it.
pub enum Command {
    Rebuild(Seq<char>),
    TaskRerun(Seq<char>),
    BuildGraphChanged(Seq<char>),
    RebuildStale(Seq<char>),
}

impl View for RunnerCommand {
    type V = Command;

    open spec fn view(&self) -> Command {
        match self {
            RunnerCommand::Rebuild { name } => Command::Rebuild(name@),
            RunnerCommand::TaskRerun { name } => Command::TaskRerun(name@),
            RunnerCommand::BuildGraphChanged { name } => Command::BuildGraphChanged(name@),
            RunnerCommand::RebuildStale { name } => Command::RebuildStale(name@),
        }
    }
}

/// The commands of a list.
pub open spec fn commands(list: Seq<RunnerCommand>) -> Seq<Command> {
    Seq::new(list.len(), |i: int| list[i]@)
}

fn add_command(list: &mut Vec<RunnerCommand>, command: RunnerCommand)
    ensures
        commands(final(list)@) == commands(old(list)@).push(command@),
        final(list)@ == old(list)@.push(command),
{
    let ghost before = list@;
    let ghost added = command@;
    list.push(command);
    assert(commands(list@) =~= commands(before).push(added));
}

/// What the runner says of a cycle.
#[derive(Debug)]
pub enum CycleEvent {
    RebuildComplete { name: String, success: bool },
    TaskRerunComplete { name: String, success: bool },
    /// Something that is of no interest here.
    Other,
}

/// How a state is reported.
pub open spec fn state_label(state: WatchState) -> Seq<char> {
    match state {
        WatchState::Idle => "idle"@,
        WatchState::Debouncing => "debouncing"@,
        WatchState::Rebuilding => "rebuilding"@,
    }
}

/// How a state is reported.
pub fn watch_state_label(state: WatchState) -> (r: &'static str)
    ensures
        r@ == state_label(state),
{
    match state {
        WatchState::Idle => "idle",
        WatchState::Debouncing => "debouncing",
        WatchState::Rebuilding => "rebuilding",
    }
}

/// How a kind is reported.
pub open spec fn kind_label(kind: WatchItemKind) -> Seq<char> {
    match kind {
        WatchItemKind::Service => "service"@,
        WatchItemKind::Task => "task"@,
        WatchItemKind::BuildGraph => "build_graph"@,
    }
}

/// How a kind is reported.
pub fn watch_item_kind_label(kind: WatchItemKind) -> (r: &'static str)
    ensures
        r@ == kind_label(kind),
{
    match kind {
        WatchItemKind::Service => "service",
        WatchItemKind::Task => "task",
        WatchItemKind::BuildGraph => "build_graph",
    }
}

/// Which system watches files.
#[derive(Debug, Clone, Copy, PartialEq, Eq, Structural)]
pub enum Backend {
    Native,
    Poll,
}

/// How a backend is reported, before there is one too.
pub fn watcher_label(backend: Option<Backend>) -> (r: &'static str)
    ensures
        r@ == (match backend {
            Some(Backend::Native) => "native"@,
            Some(Backend::Poll) => "poll"@,
            None => "not-initialized"@,
        }),
{
    match backend {
        Some(Backend::Native) => "native",
        Some(Backend::Poll) => "poll",
        None => "not-initialized",
    }
}

/// Which backend is tried: polling where that is asked for, else the native one
/// with polling to fall back on.
pub fn preferred_watcher_label(prefers_poll: bool) -> (r: &'static str)
    ensures
        r@ == (if prefers_poll {
            "poll"@
        } else {
            "native-with-poll-fallback"@
        }),
{
    if prefers_poll {
        "poll"
    } else {
        "native-with-poll-fallback"
    }
}

/// How the directories under a root come to be watched.
pub fn initial_watch_strategy_label(watches_down: bool) -> (r: &'static str)
    ensures
        r@ == (if watches_down {
            "recursive-root"@
        } else {
            "non-recursive-directory-walk"@
        }),
{
    if watches_down {
        "recursive-root"
    } else {
        "non-recursive-directory-walk"
    }
}

/// The name a change of a build graph is reported under: the item's name
/// without its ending.
pub open spec fn graph_name(name: Seq<char>) -> Seq<char> {
    if name != WORKSPACE_GRAPH_ITEM_NAME@ && has_suffix(name, "__graph"@) {
        name.take(name.len() - "__graph"@.len())
    } else {
        name
    }
}

/// The name a change of a build graph is reported under.
pub fn build_graph_command_name(name: &str) -> (r: String)
    ensures
        r@ == graph_name(name@),
{
    if same(name, WORKSPACE_GRAPH_ITEM_NAME) {
        return WORKSPACE_GRAPH_ITEM_NAME.to_owned();
    }
    match strip_suffix(name, "__graph") {
        Some(rest) => rest,
        None => name.to_owned(),
    }
}

/// Whether a changed path concerns an item: it is watched and not ignored.
pub open spec fn concerns(item: ItemView, path: Seq<char>) -> bool {
    !matches_any(item.ignore_patterns, path) && matches_any(item.patterns, path)
}

/// Whether one of some changed paths concerns an item.
pub open spec fn concerned(item: ItemView, paths: Seq<Seq<char>>) -> bool {
    exists|i: int| 0 <= i < paths.len() && concerns(item, #[trigger] paths[i])
}

/// A moment so many milliseconds on.
pub open spec fn later(now: u64, by: u64) -> u64 {
    if now + by > u64::MAX {
        u64::MAX
    } else {
        (now + by) as u64
    }
}

/// An item after a change. While it is being rebuilt the change is only noted;
/// else the wait for quiet begins, or begins again.
pub open spec fn touched(item: ItemView, now: u64) -> ItemView {
    match item.state {
        WatchState::Rebuilding => ItemView { stale: true, ..item },
        _ => ItemView {
            state: WatchState::Debouncing,
            debounce_deadline: Some(later(now, item.debounce_duration)),
            ..item
        },
    }
}

/// Whether an item's wait for quiet is over.
pub open spec fn due(item: ItemView, now: u64) -> bool {
    item.state == WatchState::Debouncing && match item.debounce_deadline {
        Some(deadline) => now >= deadline,
        None => false,
    }
}

/// An item once its wait for quiet is over.
pub open spec fn fired(item: ItemView) -> ItemView {
    ItemView {
        state: if item.kind == WatchItemKind::BuildGraph {
            WatchState::Idle
        } else {
            WatchState::Rebuilding
        },
        debounce_deadline: None,
        ..item
    }
}

/// What is sent for an item whose wait for quiet is over.
pub open spec fn fire_command(name: Seq<char>, kind: WatchItemKind) -> Command {
    match kind {
        WatchItemKind::Service => Command::Rebuild(name),
        WatchItemKind::Task => Command::TaskRerun(name),
        WatchItemKind::BuildGraph => Command::BuildGraphChanged(graph_name(name)),
    }
}

/// An item after its rebuild: it is rebuilt again if it changed meanwhile.
pub open spec fn completed(item: ItemView) -> ItemView {
    ItemView {
        state: if item.stale {
            WatchState::Rebuilding
        } else {
            WatchState::Idle
        },
        stale: false,
        ..item
    }
}

/// Items, those under some of their names changed.
pub open spec fn changed_under(
    items: Map<Seq<char>, ItemView>,
    names: Seq<Seq<char>>,
    change: spec_fn(ItemView) -> ItemView,
) -> Map<Seq<char>, ItemView> {
    Map::new(
        |name: Seq<char>| items.contains_key(name),
        |name: Seq<char>|
            if names.contains(name) {
                change(items[name])
            } else {
                items[name]
            },
    )
}

/// Items, all of them changed.
pub open spec fn all_changed(
    items: Map<Seq<char>, ItemView>,
    change: spec_fn(ItemView) -> ItemView,
) -> Map<Seq<char>, ItemView> {
    Map::new(|name: Seq<char>| items.contains_key(name), |name: Seq<char>| change(items[name]))
}

/// What is sent for items, in the order of their names.
pub open spec fn sent_for(
    items: Map<Seq<char>, ItemView>,
    names: Seq<Seq<char>>,
    sends: spec_fn(Seq<char>, ItemView) -> Option<Command>,
) -> Seq<Command>
    decreases names.len(),
{
    if names.len() == 0 {
        Seq::empty()
    } else {
        let before = sent_for(items, names.drop_last(), sends);
        match sends(names.last(), items[names.last()]) {
            Some(command) => before.push(command),
            None => before,
        }
    }
}

/// What a change of some paths makes of an item.
pub open spec fn change_of(paths: Seq<Seq<char>>, now: u64) -> spec_fn(ItemView) -> ItemView {
    |item: ItemView|
        if concerned(item, paths) {
            touched(item, now)
        } else {
            item
        }
}

/// What is sent for an item when some paths change: a service that is being
/// rebuilt is out of date.
pub open spec fn stale_of(paths: Seq<Seq<char>>) -> spec_fn(Seq<char>, ItemView) -> Option<
    Command,
> {
    |name: Seq<char>, item: ItemView|
        if concerned(item, paths) && item.state == WatchState::Rebuilding && item.kind
            == WatchItemKind::Service {
            Some(Command::RebuildStale(name))
        } else {
            None
        }
}

/// What a moment makes of an item.
pub open spec fn firing_of(now: u64) -> spec_fn(ItemView) -> ItemView {
    |item: ItemView|
        if due(item, now) {
            fired(item)
        } else {
            item
        }
}

/// What is sent for an item at a moment.
pub open spec fn fires_of(now: u64) -> spec_fn(Seq<char>, ItemView) -> Option<Command> {
    |name: Seq<char>, item: ItemView|
        if due(item, now) {
            Some(fire_command(name, item.kind))
        } else {
            None
        }
}

proof fn lemma_changed_step(
    items: Map<Seq<char>, ItemView>,
    names: Seq<Seq<char>>,
    change: spec_fn(ItemView) -> ItemView,
    i: int,
)
    requires
        0 <= i < names.len(),
        names.no_duplicates(),
        items.contains_key(names[i]),
    ensures
        changed_under(items, names.take(i), change)[names[i]] == items[names[i]],
        changed_under(items, names.take(i + 1), change) == changed_under(
            items,
            names.take(i),
            change,
        ).insert(names[i], change(items[names[i]])),
{
    let before = names.take(i);
    let after = names.take(i + 1);
    assert(!before.contains(names[i])) by {
        if before.contains(names[i]) {
            let j = before.index_of(names[i]);
            assert(names[j] == names[i]);
        }
    }
    assert(after[i] == names[i]);
    let left = changed_under(items, after, change);
    let right = changed_under(items, before, change).insert(names[i], change(items[names[i]]));
    assert forall|name: Seq<char>| left.contains_key(name) implies #[trigger] left[name]
        == right[name] by {
        if name != names[i] {
            if after.contains(name) {
                let j = after.index_of(name);
                assert(before[j] == name);
            }
            if before.contains(name) {
                let j = before.index_of(name);
                assert(after[j] == name);
            }
        }
    }
    assert(left =~= right);
}

proof fn lemma_all_changed(
    items: Map<Seq<char>, ItemView>,
    names: Seq<Seq<char>>,
    change: spec_fn(ItemView) -> ItemView,
)
    requires
        names.to_set() == items.dom(),
    ensures
        changed_under(items, names, change) == all_changed(items, change),
{
    assert forall|name: Seq<char>| items.contains_key(name) implies names.contains(name) by {
        assert(names.to_set().contains(name));
    }
    assert(changed_under(items, names, change) =~= all_changed(items, change));
}

proof fn lemma_views_insert(
    items: Map<Seq<char>, WatchedItem>,
    name: Seq<char>,
    item: WatchedItem,
)
    ensures
        item_views(items.insert(name, item)) == item_views(items).insert(name, item@),
{
    assert(item_views(items.insert(name, item)) =~= item_views(items).insert(name, item@));
}

/// A service that matches nothing and that nothing happened to, to leave in
/// place of an item while it is worked on.
fn blank_item() -> (r: WatchedItem)
    ensures
        r@ == fresh_item(WatchItemKind::Service, DEFAULT_DEBOUNCE, Seq::empty(), Seq::empty()),
{
    let item = WatchedItem {
        state: WatchState::Idle,
        debounce_duration: DEFAULT_DEBOUNCE,
        debounce_deadline: None,
        stale: false,
        kind: WatchItemKind::Service,
        patterns: Vec::new(),
        ignore_patterns: Vec::new(),
        last_error: None,
    };
    assert(views(item.patterns@) =~= Seq::<Seq<char>>::empty());
    assert(views(item.ignore_patterns@) =~= Seq::<Seq<char>>::empty());
    item
}

impl WatchedItem {
    /// An item that nothing happened to yet.
    pub fn new(
        kind: WatchItemKind,
        debounce_duration: u64,
        patterns: Vec<String>,
        ignore_patterns: Vec<String>,
    ) -> (r: WatchedItem)
        ensures
            r@ == fresh_item(
                kind,
                debounce_duration,
                views(patterns@),
                views(ignore_patterns@),
            ),
    {
        WatchedItem {
            state: WatchState::Idle,
            debounce_duration,
            debounce_deadline: None,
            stale: false,
            kind,
            patterns,
            ignore_patterns,
            last_error: None,
        }
    }

    fn is_concerned(&self, paths: &Vec<String>) -> (r: bool)
        ensures
            r == concerned(self@, views(paths@)),
    {
        let mut i: usize = 0;
        while i < paths.len()
            invariant
                i <= paths@.len(),
                forall|j: int| 0 <= j < i ==> !concerns(self@, #[trigger] views(paths@)[j]),
            decreases paths@.len() - i,
        {
            let path = paths[i].as_str();
            assert(views(paths@)[i as int] == path@);
            if !any_matches(&self.ignore_patterns, path) && any_matches(&self.patterns, path) {
                return true;
            }
            i += 1;
        }
        false
    }

    fn touch(&mut self, now: u64)
        ensures
            final(self)@ == touched(old(self)@, now),
    {
        match self.state {
            WatchState::Rebuilding => {
                self.stale = true;
            },
            _ => {
                self.state = WatchState::Debouncing;
                self.debounce_deadline = Some(now.saturating_add(self.debounce_duration));
            },
        }
    }

    fn is_due(&self, now: u64) -> (r: bool)
        ensures
            r == due(self@, now),
    {
        match (self.state, self.debounce_deadline) {
            (WatchState::Debouncing, Some(deadline)) => now >= deadline,
            _ => false,
        }
    }

    fn fire(&mut self)
        ensures
            final(self)@ == fired(old(self)@),
    {
        self.debounce_deadline = None;
        self.state = match self.kind {
            WatchItemKind::BuildGraph => WatchState::Idle,
            _ => WatchState::Rebuilding,
        };
    }

    fn complete(&mut self) -> (r: bool)
        ensures
            final(self)@ == completed(old(self)@),
            r == old(self)@.stale,
    {
        let again = self.stale;
        self.stale = false;
        self.state = if again {
            WatchState::Rebuilding
        } else {
            WatchState::Idle
        };
        again
    }
}

/// An item that nothing happened to yet.
pub open spec fn fresh_item(
    kind: WatchItemKind,
    debounce_duration: u64,
    patterns: Seq<Seq<char>>,
    ignore_patterns: Seq<Seq<char>>,
) -> ItemView {
    ItemView {
        state: WatchState::Idle,
        debounce_duration,
        debounce_deadline: None,
        stale: false,
        kind,
        patterns,
        ignore_patterns,
        last_error: None,
    }
}

/// An item given a new definition: where it is in its cycle is left alone.
pub open spec fn redefined(
    item: ItemView,
    kind: WatchItemKind,
    patterns: Seq<Seq<char>>,
    ignore_patterns: Seq<Seq<char>>,
) -> ItemView {
    ItemView { kind, patterns, ignore_patterns, last_error: None, ..item }
}

/// Gives an item a new definition.
pub fn refresh_item_definition(
    item: &mut WatchedItem,
    kind: WatchItemKind,
    patterns: Vec<String>,
    ignore_patterns: Vec<String>,
)
    ensures
        final(item)@ == redefined(old(item)@, kind, views(patterns@), views(ignore_patterns@)),
{
    item.kind = kind;
    item.patterns = patterns;
    item.ignore_patterns = ignore_patterns;
    item.last_error = None;
}

/// What happened to a path.
#[derive(Debug, Clone, Copy, PartialEq, Eq, Structural)]
pub enum EventKind {
    Create,
    Modify,
    Remove,
    /// It was read, or something else that changes nothing.
    Other,
}

/// The paths that patterns do not match, in their order.
pub open spec fn unmatched(paths: Seq<Seq<char>>, patterns: Seq<Seq<char>>) -> Seq<Seq<char>>
    decreases paths.len(),
{
    if paths.len() == 0 {
        Seq::empty()
    } else {
        let before = unmatched(paths.drop_last(), patterns);
        if matches_any(patterns, paths.last()) {
            before
        } else {
            before.push(paths.last())
        }
    }
}

/// The patterns of a list that are well formed, as they stand in a directory.
pub open spec fn well_formed(dir: Seq<char>, patterns: Seq<Seq<char>>) -> Seq<Seq<char>>
    decreases patterns.len(),
{
    if patterns.len() == 0 {
        Seq::empty()
    } else {
        let before = well_formed(dir, patterns.drop_last());
        let full = resolved_pattern(dir, patterns.last());
        if pattern_fault(full) is None {
            before.push(full)
        } else {
            before
        }
    }
}

/// The patterns of a list that are well formed, as they stand in a directory.
pub fn compiled_patterns(dir: &str, patterns: &Vec<String>) -> (r: Vec<String>)
    ensures
        views(r@) == well_formed(dir@, views(patterns@)),
{
    let mut out: Vec<String> = Vec::new();
    let ghost all = views(patterns@);
    let mut i: usize = 0;
    proof {
        assert(all.take(0) =~= Seq::<Seq<char>>::empty());
        assert(views(out@) =~= well_formed(dir@, all.take(0)));
    }
    while i < patterns.len()
        invariant
            i <= patterns@.len(),
            all == views(patterns@),
            views(out@) == well_formed(dir@, all.take(i as int)),
        decreases patterns@.len() - i,
    {
        let full = resolve_pattern(dir, patterns[i].as_str());
        let ghost before = views(out@);
        let ghost text = full@;
        proof {
            assert(all.take(i + 1).drop_last() =~= all.take(i as int));
            assert(all.take(i + 1).last() == patterns@[i as int]@);
        }
        if fault_of(full.as_str()).is_none() {
            out.push(full);
            assert(views(out@) =~= before.push(text));
        }
        i += 1;
    }
    assert(all.take(patterns@.len() as int) =~= all);
    out
}

/// A new definition for an item, once the build tool has answered.
#[derive(Debug)]
pub struct WatchUpdate {
    pub name: String,
    pub kind: WatchItemKind,
    pub patterns: Vec<String>,
    pub ignore_patterns: Vec<String>,
    /// The directory that the patterns stand in.
    pub base_dir: String,
}

/// A directory that an update wants watched: itself alone, or all the way down.
#[derive(Debug)]
pub struct WatchRequest {
    pub dir: String,
    pub subtree: bool,
}

/// The directories that patterns are watched from.
pub open spec fn watch_dirs(patterns: Seq<Seq<char>>) -> Seq<Seq<char>> {
    Seq::new(patterns.len(), |i: int| watch_dir_of(patterns[i]))
}

/// What is wanted of a directory, as a reader of contracts sees it.
pub open spec fn wanted(list: Seq<WatchRequest>) -> Seq<(Seq<char>, bool)> {
    Seq::new(list.len(), |i: int| (list[i].dir@, list[i].subtree))
}

/// The directories that an update wants watched. Files that describe a build
/// are named one by one, so their directory alone is enough.
pub fn update_requests(update: &WatchUpdate) -> (r: Vec<WatchRequest>)
    ensures
        wanted(r@) == Seq::new(
            well_formed(update.base_dir@, views(update.patterns@)).len(),
            |i: int|
                (
                    watch_dir_of(well_formed(update.base_dir@, views(update.patterns@))[i]),
                    update.kind != WatchItemKind::BuildGraph,
                ),
        ),
{
    let patterns = compiled_patterns(update.base_dir.as_str(), &update.patterns);
    let ghost all = well_formed(update.base_dir@, views(update.patterns@));
    let mut out: Vec<WatchRequest> = Vec::new();
    let subtree = match update.kind {
        WatchItemKind::BuildGraph => false,
        _ => true,
    };
    let mut i: usize = 0;
    while i < patterns.len()
        invariant
            i <= patterns@.len(),
            views(patterns@) == all,
            out@.len() == i,
            forall|j: int|
                0 <= j < i ==> (#[trigger] out@[j]).dir@ == watch_dir_of(all[j]) && out@[j].subtree
                    == subtree,
        decreases patterns@.len() - i,
    {
        assert(all[i as int] == patterns@[i as int]@);
        out.push(WatchRequest { dir: glob_base_dir(patterns[i].as_str()), subtree });
        i += 1;
    }
    assert(views(patterns@).len() == patterns@.len());
    assert(wanted(out@) =~= Seq::new(
        all.len(),
        |i: int| (watch_dir_of(all[i]), update.kind != WatchItemKind::BuildGraph),
    ));
    out
}

/// What is reported of an item.
#[derive(Debug)]
pub struct WatchItemSnapshot {
    pub kind: &'static str,
    pub state: &'static str,
    pub stale: bool,
    pub debounce_ms: u64,
    pub last_error: Option<String>,
    pub patterns: Vec<String>,
    /// What this item ignores and the workspace does not.
    pub ignore_patterns: Vec<String>,
}

/// What is reported of all that is watched.
pub struct WatchSnapshot {
    pub items: NameMap<WatchItemSnapshot>,
    /// What is registered with the system, and how far down.
    pub registered_dirs: Vec<(String, &'static str)>,
    pub global_ignore: Vec<String>,
    pub notify_error_count: u64,
    pub runner_event_lag_count: u64,
    pub last_notify_error: Option<String>,
}

/// The names of a list that another does not have, in their order.
pub open spec fn without(names: Seq<Seq<char>>, others: Seq<Seq<char>>) -> Seq<Seq<char>>
    decreases names.len(),
{
    if names.len() == 0 {
        Seq::empty()
    } else {
        let before = without(names.drop_last(), others);
        if others.contains(names.last()) {
            before
        } else {
            before.push(names.last())
        }
    }
}

fn names_without(names: &Vec<String>, others: &Vec<String>) -> (r: Vec<String>)
    ensures
        views(r@) == without(views(names@), views(others@)),
{
    let mut out: Vec<String> = Vec::new();
    let ghost all = views(names@);
    let mut i: usize = 0;
    proof {
        assert(all.take(0) =~= Seq::<Seq<char>>::empty());
        assert(views(out@) =~= without(all.take(0), views(others@)));
    }
    while i < names.len()
        invariant
            i <= names@.len(),
            all == views(names@),
            views(out@) == without(all.take(i as int), views(others@)),
        decreases names@.len() - i,
    {
        let ghost before = views(out@);
        proof {
            assert(all.take(i + 1).drop_last() =~= all.take(i as int));
            assert(all.take(i + 1).last() == names@[i as int]@);
        }
        if !has_name(others, names[i].as_str()) {
            out.push(names[i].clone());
            assert(views(out@) =~= before.push(names@[i as int]@));
        }
        i += 1;
    }
    assert(all.take(names@.len() as int) =~= all);
    out
}

/// Whether a report says what an item is.
pub open spec fn reports(
    snapshot: WatchItemSnapshot,
    item: ItemView,
    global_ignore: Seq<Seq<char>>,
) -> bool {
    &&& snapshot.kind@ == kind_label(item.kind)
    &&& snapshot.state@ == state_label(item.state)
    &&& snapshot.stale == item.stale
    &&& snapshot.debounce_ms == item.debounce_duration
    &&& text_of(snapshot.last_error) == item.last_error
    &&& views(snapshot.patterns@) == item.patterns
    &&& views(snapshot.ignore_patterns@) == without(item.ignore_patterns, global_ignore)
}

/// Everything that is watched, and what the watching has come to.
pub struct WatchManager {
    pub items: NameMap<WatchedItem>,
    /// The directories registered with the system.
    pub registered_dirs: NameMap<RecursiveMode>,
    pub notify_error_count: u64,
    pub runner_event_lag_count: u64,
    pub last_notify_error: Option<String>,
    /// What no item watches.
    pub global_ignore: Vec<String>,
    /// The same, as rules on directories.
    pub overrides: WatchIgnore,
}

/// A count that stops at its largest value.
pub open spec fn counted(count: u64, more: u64) -> u64 {
    if count + more > u64::MAX {
        u64::MAX
    } else {
        (count + more) as u64
    }
}

impl WatchManager {
    /// The items, as a reader of contracts sees them.
    pub open spec fn watched(&self) -> Map<Seq<char>, ItemView> {
        item_views(self.items@)
    }

    /// Whether anything is watched.
    pub fn has_watches(&self) -> (r: bool)
        ensures
            r == (self.items.order().len() > 0),
            r == exists|name: Seq<char>| self.items@.contains_key(name),
    {
        let n: usize = self.items.len();
        proof {
            if n > 0 {
                assert(self.items.order().contains(self.items.order()[0]));
                assert(self.items@.dom().contains(self.items.order()[0]));
            } else {
                assert forall|name: Seq<char>| !self.items@.contains_key(name) by {
                    if self.items@.contains_key(name) {
                        assert(self.items.order().to_set().contains(name));
                    }
                }
            }
        }
        n > 0
    }

    /// The moment the soonest wait for quiet is over.
    pub fn nearest_debounce_deadline(&self) -> (r: Option<u64>)
        ensures
            match r {
                Some(deadline) => {
                    &&& exists|name: Seq<char>| #[trigger]
                        self.watched().contains_key(name) && self.watched()[name].state
                            == WatchState::Debouncing && self.watched()[name].debounce_deadline
                            == Some(deadline)
                    &&& forall|name: Seq<char>| #[trigger]
                        self.watched().contains_key(name) && self.watched()[name].state
                            == WatchState::Debouncing
                            && self.watched()[name].debounce_deadline is Some ==> deadline
                            <= self.watched()[name].debounce_deadline->0
                },
                None => forall|name: Seq<char>| #[trigger]
                    self.watched().contains_key(name) ==> self.watched()[name].state
                        != WatchState::Debouncing || self.watched()[name].debounce_deadline is None,
            },
    {
        let n: usize = self.items.len();
        let ghost order = self.items.order();
        let ghost watched = self.watched();
        let mut best: Option<u64> = None;
        let mut i: usize = 0;
        while i < n
            invariant
                i <= n,
                n == order.len(),
                order == self.items.order(),
                watched == self.watched(),
                match best {
                    Some(deadline) => {
                        &&& exists|name: Seq<char>| #[trigger]
                            watched.contains_key(name) && watched[name].state
                                == WatchState::Debouncing && watched[name].debounce_deadline
                                == Some(deadline)
                        &&& forall|j: int|
                            0 <= j < i && watched[#[trigger] order[j]].state
                                == WatchState::Debouncing
                                && watched[order[j]].debounce_deadline is Some ==> deadline
                                <= watched[order[j]].debounce_deadline->0
                    },
                    None => forall|j: int|
                        0 <= j < i ==> watched[#[trigger] order[j]].state != WatchState::Debouncing
                            || watched[order[j]].debounce_deadline is None,
                },
            decreases n - i,
        {
            let item = self.items.value_at(i);
            assert(watched.contains_key(order[i as int]));
            assert(watched[order[i as int]] == item@);
            if let (WatchState::Debouncing, Some(deadline)) = (item.state, item.debounce_deadline) {
                let sooner = match best {
                    Some(so_far) => deadline < so_far,
                    None => true,
                };
                if sooner {
                    best = Some(deadline);
                }
            }
            i += 1;
        }
        proof {
            assert forall|name: Seq<char>| #[trigger] watched.contains_key(name) implies exists|
                j: int,
            | 0 <= j < order.len() && order[j] == name by {
                assert(self.items@.dom().contains(name));
                assert(order.to_set().contains(name));
                let j = order.index_of(name);
                assert(order[j] == name);
            }
        }
        best
    }

    /// The paths of an event that can concern an item: none where nothing
    /// changed, and none that no item watches.
    pub fn relevant_paths(&self, kind: EventKind, paths: &Vec<String>) -> (r: Vec<String>)
        ensures
            views(r@) == (if kind == EventKind::Other {
                Seq::empty()
            } else {
                unmatched(views(paths@), views(self.global_ignore@))
            }),
    {
        let mut out: Vec<String> = Vec::new();
        assert(views(out@) =~= Seq::<Seq<char>>::empty());
        if kind == EventKind::Other {
            return out;
        }
        let ghost all = views(paths@);
        let ghost patterns = views(self.global_ignore@);
        let mut i: usize = 0;
        assert(all.take(0) =~= Seq::<Seq<char>>::empty());
        while i < paths.len()
            invariant
                i <= paths@.len(),
                all == views(paths@),
                patterns == views(self.global_ignore@),
                views(out@) == unmatched(all.take(i as int), patterns),
            decreases paths@.len() - i,
        {
            let ghost before = views(out@);
            proof {
                assert(all.take(i + 1).drop_last() =~= all.take(i as int));
                assert(all.take(i + 1).last() == paths@[i as int]@);
            }
            if !any_matches(&self.global_ignore, paths[i].as_str()) {
                out.push(paths[i].clone());
                assert(views(out@) =~= before.push(paths@[i as int]@));
            }
            i += 1;
        }
        assert(all.take(paths@.len() as int) =~= all);
        out
    }

    /// Whether a path that appeared has to be registered: it is a directory
    /// that is not watched yet, and that nobody asked to leave alone.
    pub fn wants_directory(&self, path: &str, is_dir: bool) -> (r: bool)
        ensures
            r == (is_dir && !covered(
                path@,
                RecursiveMode::NonRecursive,
                self.registered_dirs@,
            ) && !self.overrides.excludes(path@, true)),
    {
        is_dir && !is_covered(path, RecursiveMode::NonRecursive, &self.registered_dirs)
            && !self.overrides.is_ignored(path, true)
    }

    /// Takes in that paths changed: the items they concern begin to wait for
    /// quiet, or are noted as out of date.
    pub fn process_changed_paths(&mut self, paths: &Vec<String>, now: u64) -> (r: Vec<
        RunnerCommand,
    >)
        ensures
            final(self).watched() == all_changed(
                old(self).watched(),
                change_of(views(paths@), now),
            ),
            final(self).items.order() == old(self).items.order(),
            commands(r@) == sent_for(
                old(self).watched(),
                old(self).items.order(),
                stale_of(views(paths@)),
            ),
            forall|k: int|
                0 <= k < r@.len() ==> (#[trigger] r@[k] matches RunnerCommand::RebuildStale { name }
                    && old(self).items@.contains_key(name@) && old(self).items@[name@].kind
                    == WatchItemKind::Service && old(self).items@[name@].state
                    == WatchState::Rebuilding),
            *final(self) == (WatchManager { items: final(self).items, ..*old(self) }),
    {
        let n: usize = self.items.len();
        let ghost order = self.items.order();
        let ghost items = self.watched();
        let ghost change = change_of(views(paths@), now);
        let ghost sends = stale_of(views(paths@));
        let mut out: Vec<RunnerCommand> = Vec::new();
        let mut i: usize = 0;
        proof {
            assert(order.take(0) =~= Seq::<Seq<char>>::empty());
            assert(commands(out@) =~= sent_for(items, order.take(0), sends));
            assert(self.watched() =~= changed_under(items, order.take(0), change));
            assert(items.dom() =~= self.items@.dom());
        }
        while i < n
            invariant
                i <= n,
                n == order.len(),
                order.no_duplicates(),
                order.to_set() == items.dom(),
                self.items.order() == order,
                change == change_of(views(paths@), now),
                sends == stale_of(views(paths@)),
                self.watched() == changed_under(items, order.take(i as int), change),
                commands(out@) == sent_for(items, order.take(i as int), sends),
                *self == (WatchManager { items: self.items, ..*old(self) }),
            decreases n - i,
        {
            let ghost name = order[i as int];
            let mut item = blank_item();
            let ghost held = self.items@;
            let ghost put = item;
            proof {
                assert(order.to_set().contains(name));
                lemma_changed_step(items, order, change, i as int);
                assert(order.take(i + 1).drop_last() =~= order.take(i as int));
                assert(order.take(i + 1).last() == name);
            }
            self.items.swap_at(i, &mut item);
            let ghost taken = item;
            assert(item_views(held)[name] == item@);
            assert(item@ == items[name]);
            if item.is_concerned(paths) {
                if item.state == WatchState::Rebuilding && item.kind == WatchItemKind::Service {
                    add_command(
                        &mut out,
                        RunnerCommand::RebuildStale { name: self.items.key_at(i).clone() },
                    );
                }
                item.touch(now);
            }
            let ghost changed = item;
            assert(item@ == change(items[name]));
            self.items.swap_at(i, &mut item);
            proof {
                assert(self.items@ =~= held.insert(name, changed));
                lemma_views_insert(held, name, changed);
            }
            i += 1;
        }
        proof {
            assert(order.take(n as int) =~= order);
            lemma_all_changed(items, order, change);
            assert forall|k: int| 0 <= k < out@.len() implies (
            #[trigger] out@[k] matches RunnerCommand::RebuildStale { name }
                && old(self).items@.contains_key(name@) && old(self).items@[name@].kind
                == WatchItemKind::Service && old(self).items@[name@].state
                == WatchState::Rebuilding) by {
                let command = out@[k]@;
                assert(commands(out@)[k] == command);
                lemma_sent(items, order, sends, command);
                let at = choose|at: int|
                    0 <= at < order.len() && sends(#[trigger] order[at], items[order[at]]) == Some(
                        command,
                    );
                assert(order.to_set().contains(order[at]));
            }
        }
        out
    }

    /// Sends what is due: the items whose wait for quiet is over are rebuilt.
    pub fn fire_debounce_timers(&mut self, now: u64) -> (r: Vec<RunnerCommand>)
        ensures
            final(self).watched() == all_changed(old(self).watched(), firing_of(now)),
            final(self).items.order() == old(self).items.order(),
            commands(r@) == sent_for(
                old(self).watched(),
                old(self).items.order(),
                fires_of(now),
            ),
            forall|k: int|
                0 <= k < r@.len() ==> match #[trigger] r@[k] {
                    RunnerCommand::TaskRerun { name } => old(self).items@.contains_key(name@)
                        && old(self).items@[name@].kind == WatchItemKind::Task,
                    RunnerCommand::Rebuild { name } => old(self).items@.contains_key(name@)
                        && old(self).items@[name@].kind == WatchItemKind::Service,
                    RunnerCommand::BuildGraphChanged { name } => exists|item: Seq<char>|
                        #[trigger]
                        old(self).items@.contains_key(item) && graph_name(item) == name@ && old(
                            self,
                        ).items@[item].kind == WatchItemKind::BuildGraph,
                    RunnerCommand::RebuildStale { name } => false,
                },
            forall|name: Seq<char>| #[trigger]
                old(self).items@.contains_key(name) && old(self).items@[name].state
                    == WatchState::Debouncing && old(self).items@[name].debounce_deadline is Some
                    && old(self).items@[name].debounce_deadline->0 <= now ==> exists|k: int|
                    0 <= k < r@.len() && match #[trigger] r@[k] {
                        RunnerCommand::TaskRerun { name: told } => told@ == name && old(
                            self,
                        ).items@[name].kind == WatchItemKind::Task,
                        RunnerCommand::Rebuild { name: told } => told@ == name && old(
                            self,
                        ).items@[name].kind == WatchItemKind::Service,
                        RunnerCommand::BuildGraphChanged { name: told } => told@ == graph_name(name)
                            && old(self).items@[name].kind == WatchItemKind::BuildGraph,
                        RunnerCommand::RebuildStale { name: told } => false,
                    },
            *final(self) == (WatchManager { items: final(self).items, ..*old(self) }),
    {
        let n: usize = self.items.len();
        let ghost order = self.items.order();
        let ghost items = self.watched();
        let ghost change = firing_of(now);
        let ghost sends = fires_of(now);
        let mut out: Vec<RunnerCommand> = Vec::new();
        let mut i: usize = 0;
        proof {
            assert(order.take(0) =~= Seq::<Seq<char>>::empty());
            assert(commands(out@) =~= sent_for(items, order.take(0), sends));
            assert(self.watched() =~= changed_under(items, order.take(0), change));
            assert(items.dom() =~= self.items@.dom());
        }
        while i < n
            invariant
                i <= n,
                n == order.len(),
                order.no_duplicates(),
                order.to_set() == items.dom(),
                self.items.order() == order,
                change == firing_of(now),
                sends == fires_of(now),
                self.watched() == changed_under(items, order.take(i as int), change),
                commands(out@) == sent_for(items, order.take(i as int), sends),
                *self == (WatchManager { items: self.items, ..*old(self) }),
            decreases n - i,
        {
            let ghost name = order[i as int];
            let mut item = blank_item();
            let ghost held = self.items@;
            proof {
                assert(order.to_set().contains(name));
                lemma_changed_step(items, order, change, i as int);
                assert(order.take(i + 1).drop_last() =~= order.take(i as int));
                assert(order.take(i + 1).last() == name);
            }
            self.items.swap_at(i, &mut item);
            assert(item_views(held)[name] == item@);
            assert(item@ == items[name]);
            if item.is_due(now) {
                let key = self.items.key_at(i);
                let command = match item.kind {
                    WatchItemKind::Task => RunnerCommand::TaskRerun { name: key.clone() },
                    WatchItemKind::Service => RunnerCommand::Rebuild { name: key.clone() },
                    WatchItemKind::BuildGraph => RunnerCommand::BuildGraphChanged {
                        name: build_graph_command_name(key.as_str()),
                    },
                };
                assert(command@ == fire_command(name, item@.kind));
                add_command(&mut out, command);
                item.fire();
            }
            let ghost changed = item;
            assert(item@ == change(items[name]));
            self.items.swap_at(i, &mut item);
            proof {
                assert(self.items@ =~= held.insert(name, changed));
                lemma_views_insert(held, name, changed);
            }
            i += 1;
        }
        proof {
            assert(order.take(n as int) =~= order);
            lemma_all_changed(items, order, change);
            assert forall|k: int| 0 <= k < out@.len() implies match #[trigger] out@[k] {
                RunnerCommand::TaskRerun { name } => old(self).items@.contains_key(name@) && old(
                    self,
                ).items@[name@].kind == WatchItemKind::Task,
                RunnerCommand::Rebuild { name } => old(self).items@.contains_key(name@) && old(
                    self,
                ).items@[name@].kind == WatchItemKind::Service,
                RunnerCommand::BuildGraphChanged { name } => exists|item: Seq<char>|
                    #[trigger]
                    old(self).items@.contains_key(item) && graph_name(item) == name@ && old(
                        self,
                    ).items@[item].kind == WatchItemKind::BuildGraph,
                RunnerCommand::RebuildStale { name } => false,
            } by {
                let command = out@[k]@;
                assert(commands(out@)[k] == command);
                lemma_sent(items, order, sends, command);
                let at = choose|at: int|
                    0 <= at < order.len() && sends(#[trigger] order[at], items[order[at]]) == Some(
                        command,
                    );
                assert(order.to_set().contains(order[at]));
                assert(old(self).items@.contains_key(order[at]));
            }
            assert forall|name: Seq<char>| #[trigger]
                old(self).items@.contains_key(name) && old(self).items@[name].state
                    == WatchState::Debouncing && old(self).items@[name].debounce_deadline is Some
                    && old(self).items@[name].debounce_deadline->0 <= now implies exists|k: int|
                0 <= k < out@.len() && match #[trigger] out@[k] {
                    RunnerCommand::TaskRerun { name: told } => told@ == name && old(
                        self,
                    ).items@[name].kind == WatchItemKind::Task,
                    RunnerCommand::Rebuild { name: told } => told@ == name && old(
                        self,
                    ).items@[name].kind == WatchItemKind::Service,
                    RunnerCommand::BuildGraphChanged { name: told } => told@ == graph_name(name)
                        && old(self).items@[name].kind == WatchItemKind::BuildGraph,
                    RunnerCommand::RebuildStale { name: told } => false,
                } by {
                let command = fire_command(name, items[name].kind);
                lemma_sent(items, order, sends, command);
                assert(order.to_set().contains(name));
                let at = choose|at: int| 0 <= at < order.len() && order[at] == name;
                assert(sends(order[at], items[order[at]]) == Some(command));
                let k = choose|k: int|
                    0 <= k < commands(out@).len() && commands(out@)[k] == command;
                assert(out@[k]@ == command);
            }
        }
        out
    }

    /// Hands the item under a name to be changed, and puts it back.
    fn complete_item(&mut self, name: &str) -> (r: Option<bool>)
        ensures
            *final(self) == (WatchManager { items: final(self).items, ..*old(self) }),
            final(self).items.order() == old(self).items.order(),
            match r {
                Some(again) => {
                    &&& old(self).watched().contains_key(name@)
                    &&& again == old(self).watched()[name@].stale
                    &&& final(self).watched() == old(self).watched().insert(
                        name@,
                        completed(old(self).watched()[name@]),
                    )
                },
                None => !old(self).watched().contains_key(name@) && *final(self) == *old(self),
            },
    {
        match self.items.place_of(name) {
            None => None,
            Some(at) => {
                let mut item = blank_item();
                let ghost held = self.items@;
                self.items.swap_at(at, &mut item);
                assert(item_views(held)[name@] == item@);
                let again = item.complete();
                let ghost changed = item;
                self.items.swap_at(at, &mut item);
                proof {
                    assert(self.items@ =~= held.insert(name@, changed));
                    lemma_views_insert(held, name@, changed);
                }
                Some(again)
            },
        }
    }

    /// Takes in that a cycle is over: the item is rebuilt once more if it
    /// changed meanwhile, however often it did.
    pub fn handle_runner_event(&mut self, event: &CycleEvent) -> (r: Vec<RunnerCommand>)
        ensures
            *final(self) == (WatchManager { items: final(self).items, ..*old(self) }),
            final(self).items.order() == old(self).items.order(),
            match cycle_name(*event) {
                Some(name) => if old(self).watched().contains_key(name) {
                    &&& final(self).watched() == old(self).watched().insert(
                        name,
                        completed(old(self).watched()[name]),
                    )
                    &&& commands(r@) == (if old(self).watched()[name].stale {
                        seq![cycle_command(*event, name)]
                    } else {
                        Seq::empty()
                    })
                } else {
                    *final(self) == *old(self) && r@.len() == 0
                },
                None => *final(self) == *old(self) && r@.len() == 0,
            },
            forall|k: int|
                0 <= k < r@.len() ==> match #[trigger] r@[k] {
                    RunnerCommand::TaskRerun { name } => *event matches CycleEvent::TaskRerunComplete {
                        name: ended,
                        ..
                    } && ended@ == name@,
                    RunnerCommand::Rebuild { name } => *event matches CycleEvent::RebuildComplete {
                        name: ended,
                        ..
                    } && ended@ == name@,
                    _ => false,
                },
    {
        let mut out: Vec<RunnerCommand> = Vec::new();
        assert(commands(out@) =~= Seq::<Command>::empty());
        match event {
            CycleEvent::RebuildComplete { name, .. } => {
                if let Some(true) = self.complete_item(name.as_str()) {
                    add_command(&mut out, RunnerCommand::Rebuild { name: name.clone() });
                    assert(commands(out@) =~= seq![Command::Rebuild(name@)]);
                }
            },
            CycleEvent::TaskRerunComplete { name, .. } => {
                if let Some(true) = self.complete_item(name.as_str()) {
                    add_command(&mut out, RunnerCommand::TaskRerun { name: name.clone() });
                    assert(commands(out@) =~= seq![Command::TaskRerun(name@)]);
                }
            },
            CycleEvent::Other => {},
        }
        out
    }

    /// Gives an item a new definition, or makes it known. Where it is in its
    /// cycle is left alone.
    pub fn apply_watch_update(&mut self, update: &WatchUpdate)
        ensures
            *final(self) == (WatchManager { items: final(self).items, ..*old(self) }),
            final(self).watched() == ({
                let patterns = well_formed(update.base_dir@, views(update.patterns@));
                let ignored = well_formed(update.base_dir@, views(update.ignore_patterns@));
                let items = old(self).watched();
                items.insert(
                    update.name@,
                    if items.contains_key(update.name@) {
                        redefined(items[update.name@], update.kind, patterns, ignored)
                    } else {
                        fresh_item(update.kind, DEFAULT_DEBOUNCE, patterns, ignored)
                    },
                )
            }),
    {
        let patterns = compiled_patterns(update.base_dir.as_str(), &update.patterns);
        let ignored = compiled_patterns(update.base_dir.as_str(), &update.ignore_patterns);
        let ghost held = self.items@;
        match self.items.place_of(update.name.as_str()) {
            Some(at) => {
                let mut item = blank_item();
                self.items.swap_at(at, &mut item);
                assert(item_views(held)[update.name@] == item@);
                refresh_item_definition(&mut item, update.kind, patterns, ignored);
                let ghost changed = item;
                self.items.swap_at(at, &mut item);
                proof {
                    assert(self.items@ =~= held.insert(update.name@, changed));
                    lemma_views_insert(held, update.name@, changed);
                }
            },
            None => {
                let item = WatchedItem::new(update.kind, DEFAULT_DEBOUNCE, patterns, ignored);
                proof {
                    lemma_views_insert(held, update.name@, item);
                }
                self.items.insert(update.name.clone(), item);
            },
        }
    }

    /// Notes an error of the backend, and says what to tell the reader.
    pub fn record_notify_error(&mut self, error: &str) -> (r: String)
        ensures
            *final(self) == (WatchManager {
                notify_error_count: counted(old(self).notify_error_count, 1),
                last_notify_error: final(self).last_notify_error,
                ..*old(self)
            }),
            text_of(final(self).last_notify_error) == Some(error@),
            r@ == "watch: notify backend error: "@ + error@,
    {
        self.notify_error_count = self.notify_error_count.saturating_add(1);
        self.last_notify_error = Some(error.to_owned());
        let mut message = "watch: notify backend error: ".to_owned();
        message.append(error);
        message
    }

    /// Notes that events of the runner were missed, and says what to tell the
    /// reader.
    pub fn record_lag(&mut self, missed: u64) -> (r: String)
        ensures
            *final(self) == (WatchManager {
                runner_event_lag_count: counted(old(self).runner_event_lag_count, missed),
                ..*old(self)
            }),
            r@ == "watch: broadcast lag — missed "@ + decimal(missed as nat)
                + " runner events; restart don if edits stop triggering rebuilds"@,
    {
        self.runner_event_lag_count = self.runner_event_lag_count.saturating_add(missed);
        let mut message = "watch: broadcast lag — missed ".to_owned();
        push_decimal(&mut message, missed);
        message.append(" runner events; restart don if edits stop triggering rebuilds");
        message
    }

    /// Notes an error that concerns an item, if there is one of that name.
    pub fn record_item_error(&mut self, name: &str, error: &str)
        ensures
            *final(self) == (WatchManager { items: final(self).items, ..*old(self) }),
            final(self).items.order() == old(self).items.order(),
            final(self).watched() == (if old(self).watched().contains_key(name@) {
                old(self).watched().insert(
                    name@,
                    ItemView { last_error: Some(error@), ..old(self).watched()[name@] },
                )
            } else {
                old(self).watched()
            }),
    {
        if let Some(at) = self.items.place_of(name) {
            let mut item = blank_item();
            let ghost held = self.items@;
            self.items.swap_at(at, &mut item);
            assert(item_views(held)[name@] == item@);
            item.last_error = Some(error.to_owned());
            let ghost changed = item;
            self.items.swap_at(at, &mut item);
            proof {
                assert(self.items@ =~= held.insert(name@, changed));
                lemma_views_insert(held, name@, changed);
            }
        }
    }

    fn snapshot_item(&self, item: &WatchedItem) -> (r: WatchItemSnapshot)
        ensures
            reports(r, item@, views(self.global_ignore@)),
    {
        WatchItemSnapshot {
            kind: watch_item_kind_label(item.kind),
            state: watch_state_label(item.state),
            stale: item.stale,
            debounce_ms: item.debounce_duration,
            last_error: copy_text(&item.last_error),
            patterns: copy_names(&item.patterns),
            ignore_patterns: names_without(&item.ignore_patterns, &self.global_ignore),
        }
    }

    fn snapshot_items(&self) -> (r: NameMap<WatchItemSnapshot>)
        ensures
            r@.dom() == self.items@.dom(),
            forall|name: Seq<char>| #[trigger]
                r@.contains_key(name) ==> reports(
                    r@[name],
                    self.watched()[name],
                    views(self.global_ignore@),
                ),
    {
        let n: usize = self.items.len();
        let ghost order = self.items.order();
        let mut out: NameMap<WatchItemSnapshot> = NameMap::new();
        let mut i: usize = 0;
        proof {
            assert(order.take(0) =~= Seq::<Seq<char>>::empty());
            assert(out@.dom() =~= order.take(0).to_set());
        }
        while i < n
            invariant
                i <= n,
                n == order.len(),
                order == self.items.order(),
                out@.dom() == order.take(i as int).to_set(),
                forall|name: Seq<char>| #[trigger]
                    out@.contains_key(name) ==> reports(
                        out@[name],
                        self.watched()[name],
                        views(self.global_ignore@),
                    ),
            decreases n - i,
        {
            let ghost before = out@;
            let item = self.items.value_at(i);
            assert(self.watched()[order[i as int]] == item@);
            out.insert(self.items.key_at(i).clone(), self.snapshot_item(item));
            proof {
                crate::names::lemma_take_set(order, i as int);
                assert(out@.dom() =~= order.take(i + 1).to_set());
            }
            i += 1;
        }
        assert(order.take(n as int) =~= order);
        out
    }

    fn snapshot_dirs(&self) -> (r: Vec<(String, &'static str)>)
        ensures
            r@.len() == self.registered_dirs.order().len(),
            forall|i: int|
                0 <= i < r@.len() ==> (#[trigger] r@[i]).0@ == self.registered_dirs.order()[i]
                    && r@[i].1@ == mode_label(
                    self.registered_dirs@[self.registered_dirs.order()[i]],
                ),
    {
        let n: usize = self.registered_dirs.len();
        let mut out: Vec<(String, &'static str)> = Vec::new();
        let mut i: usize = 0;
        while i < n
            invariant
                i <= n,
                n == self.registered_dirs.order().len(),
                out@.len() == i,
                forall|j: int|
                    0 <= j < i ==> (#[trigger] out@[j]).0@ == self.registered_dirs.order()[j]
                        && out@[j].1@ == mode_label(
                        self.registered_dirs@[self.registered_dirs.order()[j]],
                    ),
            decreases n - i,
        {
            let label = recursive_mode_label(*self.registered_dirs.value_at(i));
            out.push((self.registered_dirs.key_at(i).clone(), label));
            i += 1;
        }
        out
    }

    /// A report of all that is watched. What the workspace ignores is listed
    /// once and not again under every item.
    pub fn snapshot(&self) -> (r: WatchSnapshot)
        ensures
            r.items@.dom() == self.items@.dom(),
            forall|name: Seq<char>| #[trigger]
                r.items@.contains_key(name) ==> reports(
                    r.items@[name],
                    self.watched()[name],
                    views(self.global_ignore@),
                ),
            r.registered_dirs@.len() == self.registered_dirs.order().len(),
            forall|i: int|
                0 <= i < r.registered_dirs@.len() ==> (#[trigger] r.registered_dirs@[i]).0@
                    == self.registered_dirs.order()[i] && r.registered_dirs@[i].1@ == mode_label(
                    self.registered_dirs@[self.registered_dirs.order()[i]],
                ),
            views(r.global_ignore@) == views(self.global_ignore@),
            r.notify_error_count == self.notify_error_count,
            r.runner_event_lag_count == self.runner_event_lag_count,
            r.last_notify_error == self.last_notify_error,
    {
        WatchSnapshot {
            items: self.snapshot_items(),
            registered_dirs: self.snapshot_dirs(),
            global_ignore: copy_names(&self.global_ignore),
            notify_error_count: self.notify_error_count,
            runner_event_lag_count: self.runner_event_lag_count,
            last_notify_error: copy_text(&self.last_notify_error),
        }
    }
}

/// The item whose cycle is over.
pub open spec fn cycle_name(event: CycleEvent) -> Option<Seq<char>> {
    match event {
        CycleEvent::RebuildComplete { name, .. } => Some(name@),
        CycleEvent::TaskRerunComplete { name, .. } => Some(name@),
        CycleEvent::Other => None,
    }
}

/// What begins the same cycle again.
pub open spec fn cycle_command(event: CycleEvent, name: Seq<char>) -> Command {
    match event {
        CycleEvent::TaskRerunComplete { .. } => Command::TaskRerun(name),
        _ => Command::Rebuild(name),
    }
}

/// Whether an item is where its cycle can have taken it: what waits has a
/// deadline, and only what is being rebuilt can be out of date.
pub open spec fn in_cycle(item: ItemView) -> bool {
    &&& item.state == WatchState::Debouncing ==> item.debounce_deadline is Some
    &&& item.stale ==> item.state == WatchState::Rebuilding
}

/// Nothing that happens to an item takes it out of its cycle.
pub proof fn an_item_stays_in_its_cycle(
    item: ItemView,
    now: u64,
    kind: WatchItemKind,
    patterns: Seq<Seq<char>>,
    ignored: Seq<Seq<char>>,
)
    requires
        in_cycle(item),
    ensures
        in_cycle(touched(item, now)),
        due(item, now) ==> in_cycle(fired(item)),
        in_cycle(completed(item)),
        in_cycle(redefined(item, kind, patterns, ignored)),
        in_cycle(fresh_item(kind, DEFAULT_DEBOUNCE, patterns, ignored)),
{
}

/// A burst of changes is one change, the last of them: however many come
/// before, the wait ends as long after the last one.
pub proof fn a_burst_is_its_last_change(item: ItemView, first: u64, last: u64)
    ensures
        touched(touched(item, first), last) == touched(item, last),
{
}

/// Nothing is sent for an item before it has been quiet for as long as it asks.
pub proof fn nothing_fires_before_the_quiet(item: ItemView, changed: u64, now: u64)
    requires
        item.state != WatchState::Rebuilding,
        changed + item.debounce_duration <= u64::MAX,
    ensures
        due(touched(item, changed), now) <==> now >= changed + item.debounce_duration,
{
}

/// A change during a rebuild is not lost: once the rebuild is over the item is
/// rebuilt once more, and after that it is idle, however many changes there
/// were.
pub proof fn a_change_during_a_rebuild_is_rebuilt_once(item: ItemView, first: u64, last: u64)
    requires
        item.state == WatchState::Rebuilding,
    ensures
        touched(item, first).stale,
        touched(touched(item, first), last) == touched(item, first),
        completed(touched(item, first)).state == WatchState::Rebuilding,
        !completed(touched(item, first)).stale,
        completed(completed(touched(item, first))).state == WatchState::Idle,
{
}

/// What describes a build is never rebuilt: it is idle again as soon as its
/// change is reported.
pub proof fn a_build_graph_is_never_rebuilt(item: ItemView, changed: u64)
    requires
        item.kind == WatchItemKind::BuildGraph,
        item.state != WatchState::Rebuilding,
    ensures
        touched(item, changed).state == WatchState::Debouncing,
        fired(touched(item, changed)).state == WatchState::Idle,
        fired(touched(item, changed)).debounce_deadline is None,
{
}

/// A new definition neither ends a wait nor forgets that an item is out of
/// date.
pub proof fn a_new_definition_keeps_the_cycle(
    item: ItemView,
    kind: WatchItemKind,
    patterns: Seq<Seq<char>>,
    ignored: Seq<Seq<char>>,
)
    ensures
        ({
            let after = redefined(item, kind, patterns, ignored);
            &&& after.state == item.state
            &&& after.debounce_deadline == item.debounce_deadline
            &&& after.stale == item.stale
            &&& after.debounce_duration == item.debounce_duration
            &&& completed(after) == redefined(completed(item), kind, patterns, ignored)
        }),
{
}

/// What is sent for a list of names is what each of them sends by itself.
proof fn lemma_sent(
    items: Map<Seq<char>, ItemView>,
    names: Seq<Seq<char>>,
    sends: spec_fn(Seq<char>, ItemView) -> Option<Command>,
    command: Command,
)
    ensures
        sent_for(items, names, sends).contains(command) <==> exists|k: int|
            0 <= k < names.len() && sends(#[trigger] names[k], items[names[k]]) == Some(command),
    decreases names.len(),
{
    let sent = sent_for(items, names, sends);
    if names.len() > 0 {
        let front = names.drop_last();
        let before = sent_for(items, front, sends);
        lemma_sent(items, front, sends, command);
        let own = sends(names.last(), items[names.last()]);
        if sent.contains(command) {
            let at = choose|at: int| 0 <= at < sent.len() && sent[at] == command;
            if at < before.len() {
                assert(before[at] == command);
                let k = choose|k: int|
                    0 <= k < front.len() && sends(#[trigger] front[k], items[front[k]]) == Some(
                        command,
                    );
                assert(names[k] == front[k]);
            } else {
                assert(names[names.len() - 1] == names.last());
            }
        }
        if exists|k: int|
            0 <= k < names.len() && sends(#[trigger] names[k], items[names[k]]) == Some(command) {
            let k = choose|k: int|
                0 <= k < names.len() && sends(#[trigger] names[k], items[names[k]]) == Some(
                    command,
                );
            if k < front.len() {
                assert(front[k] == names[k]);
                let at = choose|at: int| 0 <= at < before.len() && before[at] == command;
                assert(sent[at] == command);
            } else {
                assert(sent.last() == command);
            }
        }
    }
}

/// What an item sends goes by its kind alone: a task that waited its time out is
/// rerun, a service is rebuilt, and of a build graph the build tool is told. The
/// command that starts the cycle of a task or a service is the one that repeats
/// it when the cycle ends with more to do.
pub proof fn what_is_sent_goes_by_the_kind(
    items: Map<Seq<char>, ItemView>,
    names: Seq<Seq<char>>,
    now: u64,
    name: Seq<char>,
    success: bool,
    written: String,
)
    requires
        written@ == name,
    ensures
        ({
            let sent = sent_for(items, names, fires_of(now));
            let item = items[name];
            let waited = names.contains(name) && item.state == WatchState::Debouncing && (
            item.debounce_deadline matches Some(deadline) && deadline <= now);
            &&& sent.contains(Command::TaskRerun(name)) <==> waited && item.kind
                == WatchItemKind::Task
            &&& sent.contains(Command::Rebuild(name)) <==> waited && item.kind
                == WatchItemKind::Service
            &&& !sent.contains(Command::RebuildStale(name))
            &&& waited && item.kind == WatchItemKind::BuildGraph && name
                == WORKSPACE_GRAPH_ITEM_NAME@ ==> sent.contains(Command::BuildGraphChanged(name))
            &&& cycle_command(
                CycleEvent::TaskRerunComplete { name: written, success },
                name,
            ) == Command::TaskRerun(name)
            &&& cycle_command(
                CycleEvent::RebuildComplete { name: written, success },
                name,
            ) == Command::Rebuild(name)
        }),
{
    let sends = fires_of(now);
    lemma_sent(items, names, sends, Command::TaskRerun(name));
    lemma_sent(items, names, sends, Command::Rebuild(name));
    lemma_sent(items, names, sends, Command::RebuildStale(name));
    lemma_sent(items, names, sends, Command::BuildGraphChanged(name));
    if names.contains(name) {
        let k = choose|k: int| 0 <= k < names.len() && names[k] == name;
        assert(sends(names[k], items[names[k]]) == sends(name, items[name]));
    }
}

/// A build graph is named to the build tool without the mark that sets its item
/// apart: the graph of `x` is told as `x`.
pub proof fn a_build_graph_is_told_by_its_own_name(
    items: Map<Seq<char>, ItemView>,
    names: Seq<Seq<char>>,
    now: u64,
    base: Seq<char>,
)
    requires
        base + "__graph"@ != WORKSPACE_GRAPH_ITEM_NAME@,
        names.contains(base + "__graph"@),
        items[base + "__graph"@].kind == WatchItemKind::BuildGraph,
        items[base + "__graph"@].state == WatchState::Debouncing,
        items[base + "__graph"@].debounce_deadline matches Some(deadline) && deadline <= now,
    ensures
        sent_for(items, names, fires_of(now)).contains(Command::BuildGraphChanged(base)),
{
    let name = base + "__graph"@;
    lemma_sent(items, names, fires_of(now), Command::BuildGraphChanged(base));
    let k = choose|k: int| 0 <= k < names.len() && names[k] == name;
    assert(name.skip(name.len() - "__graph"@.len()) =~= "__graph"@);
    assert(name.take(name.len() - "__graph"@.len()) =~= base);
    assert(fires_of(now)(names[k], items[names[k]]) == Some(Command::BuildGraphChanged(base)));
}

/// A changed path concerns an item when one of the item's patterns matches it
/// and none of the item's ignore patterns does. An ignored path therefore leaves
/// every item as it was.
pub proof fn an_ignored_path_concerns_nobody(item: ItemView, path: Seq<char>, now: u64)
    ensures
        (exists|i: int|
            0 <= i < item.ignore_patterns.len() && pattern_match(
                #[trigger] item.ignore_patterns[i],
                path,
                true,
                true,
                false,
            ) == Some(true)) ==> !concerns(item, path) && change_of(seq![path], now)(item) == item,
        (forall|i: int|
            0 <= i < item.ignore_patterns.len() ==> pattern_match(
                #[trigger] item.ignore_patterns[i],
                path,
                true,
                true,
                false,
            ) != Some(true)) ==> (concerns(item, path) <==> exists|i: int|
            0 <= i < item.patterns.len() && pattern_match(
                #[trigger] item.patterns[i],
                path,
                true,
                true,
                false,
            ) == Some(true)),
{
    if exists|i: int|
        0 <= i < item.ignore_patterns.len() && pattern_match(
            #[trigger] item.ignore_patterns[i],
            path,
            true,
            true,
            false,
        ) == Some(true) {
        let i = choose|i: int|
            0 <= i < item.ignore_patterns.len() && pattern_match(
                #[trigger] item.ignore_patterns[i],
                path,
                true,
                true,
                false,
            ) == Some(true);
        assert(crate::globs::matches(item.ignore_patterns[i], path));
    } else {
        assert(!matches_any(item.ignore_patterns, path));
        if exists|i: int|
            0 <= i < item.patterns.len() && pattern_match(
                #[trigger] item.patterns[i],
                path,
                true,
                true,
                false,
            ) == Some(true) {
            let i = choose|i: int|
                0 <= i < item.patterns.len() && pattern_match(
                    #[trigger] item.patterns[i],
                    path,
                    true,
                    true,
                    false,
                ) == Some(true);
            assert(crate::globs::matches(item.patterns[i], path));
        }
    }
}

/// A change that concerns an item makes it wait out its own quiet from now on,
/// and an item that is being rebuilt is marked instead, with its service told
/// that what it builds is out of date. Every other item stays as it is.
pub proof fn a_change_is_waited_for_or_remembered(
    items: Map<Seq<char>, ItemView>,
    names: Seq<Seq<char>>,
    paths: Seq<Seq<char>>,
    now: u64,
    name: Seq<char>,
)
    requires
        items.contains_key(name),
        now + items[name].debounce_duration <= u64::MAX,
    ensures
        ({
            let before = items[name];
            let after = all_changed(items, change_of(paths, now))[name];
            let concerned = exists|i: int| 0 <= i < paths.len() && concerns(before, #[trigger] paths[i]);
            let told = sent_for(items, names, stale_of(paths)).contains(Command::RebuildStale(name));
            &&& all_changed(items, change_of(paths, now)).dom() == items.dom()
            &&& !concerned ==> after == before && !told
            &&& concerned && before.state == WatchState::Rebuilding ==> {
                &&& after.stale
                &&& after.state == WatchState::Rebuilding
                &&& after.debounce_deadline == before.debounce_deadline
                &&& told <==> names.contains(name) && before.kind == WatchItemKind::Service
            }
            &&& concerned && before.state != WatchState::Rebuilding ==> {
                &&& after.state == WatchState::Debouncing
                &&& after.debounce_deadline matches Some(deadline) && deadline == now
                    + before.debounce_duration
                &&& after.stale == before.stale
                &&& !told
            }
            &&& after.kind == before.kind
            &&& after.debounce_duration == before.debounce_duration
            &&& after.patterns == before.patterns
            &&& after.ignore_patterns == before.ignore_patterns
            &&& after.last_error == before.last_error
            &&& forall|other: Command|
                sent_for(items, names, stale_of(paths)).contains(other) ==> other is RebuildStale
        }),
{
    let sends = stale_of(paths);
    lemma_sent(items, names, sends, Command::RebuildStale(name));
    assert(all_changed(items, change_of(paths, now)).dom() =~= items.dom());
    if names.contains(name) {
        let k = choose|k: int| 0 <= k < names.len() && names[k] == name;
        assert(sends(names[k], items[names[k]]) == sends(name, items[name]));
    }
    assert forall|other: Command| sent_for(items, names, sends).contains(other) implies other is RebuildStale by {
        lemma_sent(items, names, sends, other);
    }
}

/// When the timers fire, an item that waited its time out is rebuilt from then
/// on and waits no longer; of a build graph nothing is rebuilt, so it is idle
/// again. Every other item stays as it is. When the rebuild ends, an item that
/// changed meanwhile is rebuilt once more and any other is idle.
pub proof fn a_cycle_runs_its_course(
    items: Map<Seq<char>, ItemView>,
    now: u64,
    name: Seq<char>,
)
    requires
        items.contains_key(name),
    ensures
        ({
            let before = items[name];
            let after = all_changed(items, firing_of(now))[name];
            let waited = before.state == WatchState::Debouncing && (
            before.debounce_deadline matches Some(deadline) && deadline <= now);
            &&& all_changed(items, firing_of(now)).dom() == items.dom()
            &&& !waited ==> after == before
            &&& waited ==> after.debounce_deadline is None && after.stale == before.stale
            &&& waited && before.kind == WatchItemKind::BuildGraph ==> after.state
                == WatchState::Idle
            &&& waited && before.kind != WatchItemKind::BuildGraph ==> after.state
                == WatchState::Rebuilding
            &&& before.stale ==> completed(before).state == WatchState::Rebuilding
            &&& !before.stale ==> completed(before).state == WatchState::Idle
            &&& !completed(before).stale
            &&& completed(before).debounce_deadline == before.debounce_deadline
            &&& completed(before).kind == before.kind
            &&& completed(before).patterns == before.patterns
            &&& completed(before).ignore_patterns == before.ignore_patterns
            &&& after.kind == before.kind
            &&& after.patterns == before.patterns
            &&& after.ignore_patterns == before.ignore_patterns
        }),
{
    assert(all_changed(items, firing_of(now)).dom() =~= items.dom());
}

/// Every item is told apart by its kind and reported with its state, in the
/// words that stand for them.
pub proof fn a_kind_and_a_state_have_their_words()
    ensures
        kind_label(WatchItemKind::Service) == "service"@,
        kind_label(WatchItemKind::Task) == "task"@,
        kind_label(WatchItemKind::BuildGraph) == "build_graph"@,
        state_label(WatchState::Idle) == "idle"@,
        state_label(WatchState::Debouncing) == "debouncing"@,
        state_label(WatchState::Rebuilding) == "rebuilding"@,
{
}

/// A path that a pattern of the whole workspace ignores is dropped before any
/// item sees it, and every other path is passed on.
pub proof fn what_is_ignored_everywhere_is_dropped(
    paths: Seq<Seq<char>>,
    patterns: Seq<Seq<char>>,
    path: Seq<char>,
)
    ensures
        unmatched(paths, patterns).contains(path) <==> paths.contains(path) && forall|i: int|
            0 <= i < patterns.len() ==> pattern_match(
                #[trigger] patterns[i],
                path,
                true,
                true,
                false,
            ) != Some(true),
        unmatched(paths, patterns).len() <= paths.len(),
    decreases paths.len(),
{
    assert(matches_any(patterns, path) <==> !(forall|i: int|
        0 <= i < patterns.len() ==> pattern_match(#[trigger] patterns[i], path, true, true, false)
            != Some(true))) by {
        if !(forall|i: int|
            0 <= i < patterns.len() ==> pattern_match(
                #[trigger] patterns[i],
                path,
                true,
                true,
                false,
            ) != Some(true)) {
            let i = choose|i: int|
                0 <= i < patterns.len() && pattern_match(
                    #[trigger] patterns[i],
                    path,
                    true,
                    true,
                    false,
                ) == Some(true);
            assert(crate::globs::matches(patterns[i], path));
        }
    }
    if paths.len() > 0 {
        let front = paths.drop_last();
        let before = unmatched(front, patterns);
        let all = unmatched(paths, patterns);
        what_is_ignored_everywhere_is_dropped(front, patterns, path);
        if all.contains(path) {
            let k = choose|k: int| 0 <= k < all.len() && all[k] == path;
            if k < before.len() {
                assert(before[k] == path);
                let i = choose|i: int| 0 <= i < front.len() && front[i] == path;
                assert(paths[i] == path);
            } else {
                assert(paths[paths.len() - 1] == path);
            }
        }
        if paths.contains(path) && !matches_any(patterns, path) {
            let i = choose|i: int| 0 <= i < paths.len() && paths[i] == path;
            if i < front.len() {
                assert(front[i] == path);
                let k = choose|k: int| 0 <= k < before.len() && before[k] == path;
                assert(all[k] == path);
            } else {
                assert(all.last() == path);
            }
        }
    }
}

/// A new definition takes effect with its kind, its patterns and its ignore
/// patterns, and clears what was wrong with the old one; an item that was not
/// known begins idle and waits the default.
pub proof fn a_new_definition_takes_effect(
    item: ItemView,
    kind: WatchItemKind,
    patterns: Seq<Seq<char>>,
    ignored: Seq<Seq<char>>,
    wait: u64,
)
    ensures
        ({
            let after = redefined(item, kind, patterns, ignored);
            let fresh = fresh_item(kind, wait, patterns, ignored);
            &&& after.kind == kind && fresh.kind == kind
            &&& after.patterns == patterns && fresh.patterns == patterns
            &&& after.ignore_patterns == ignored && fresh.ignore_patterns == ignored
            &&& after.last_error is None && fresh.last_error is None
            &&& fresh.state == WatchState::Idle && !fresh.stale
            &&& fresh.debounce_deadline is None && fresh.debounce_duration == wait
            &&& DEFAULT_DEBOUNCE == 200
        }),
{
}

proof fn lemma_without(names: Seq<Seq<char>>, others: Seq<Seq<char>>, name: Seq<char>)
    ensures
        without(names, others).contains(name) <==> names.contains(name) && !others.contains(name),
    decreases names.len(),
{
    if names.len() > 0 {
        let front = names.drop_last();
        let before = without(front, others);
        let all = without(names, others);
        lemma_without(front, others, name);
        if all.contains(name) {
            let k = choose|k: int| 0 <= k < all.len() && all[k] == name;
            if k < before.len() {
                assert(before[k] == name);
                let i = choose|i: int| 0 <= i < front.len() && front[i] == name;
                assert(names[i] == name);
            } else {
                assert(names[names.len() - 1] == name);
            }
        }
        if names.contains(name) && !others.contains(name) {
            let i = choose|i: int| 0 <= i < names.len() && names[i] == name;
            if i < front.len() {
                assert(front[i] == name);
                let k = choose|k: int| 0 <= k < before.len() && before[k] == name;
                assert(all[k] == name);
            } else {
                assert(all.last() == name);
            }
        }
    }
}

/// An item is reported as it stands, with the ignore patterns that are its own:
/// those of the whole workspace are told once, elsewhere.
pub proof fn an_item_is_reported_as_it_stands(
    snapshot: WatchItemSnapshot,
    item: ItemView,
    global_ignore: Seq<Seq<char>>,
    pattern: Seq<char>,
)
    requires
        reports(snapshot, item, global_ignore),
    ensures
        item.kind == WatchItemKind::Service ==> snapshot.kind@ == "service"@,
        item.kind == WatchItemKind::Task ==> snapshot.kind@ == "task"@,
        item.kind == WatchItemKind::BuildGraph ==> snapshot.kind@ == "build_graph"@,
        item.state == WatchState::Idle ==> snapshot.state@ == "idle"@,
        item.state == WatchState::Debouncing ==> snapshot.state@ == "debouncing"@,
        item.state == WatchState::Rebuilding ==> snapshot.state@ == "rebuilding"@,
        snapshot.stale == item.stale,
        snapshot.debounce_ms == item.debounce_duration,
        views(snapshot.patterns@) == item.patterns,
        views(snapshot.ignore_patterns@).contains(pattern) <==> item.ignore_patterns.contains(
            pattern,
        ) && !global_ignore.contains(pattern),
{
    lemma_without(item.ignore_patterns, global_ignore, pattern);
}

/// Times and counts add up, and stop at the largest number there is.
pub proof fn sums_stop_at_the_largest_number(a: u64, b: u64)
    ensures
        a + b <= u64::MAX ==> later(a, b) == a + b && counted(a, b) == a + b,
        a + b > u64::MAX ==> later(a, b) == u64::MAX && counted(a, b) == u64::MAX,
{
}

/// What is seen of an item, and of a command, is what it holds.
pub proof fn an_item_is_seen_as_it_is(item: WatchedItem, command: RunnerCommand)
    ensures
        item@.state == item.state && item@.kind == item.kind && item@.stale == item.stale,
        item@.debounce_deadline == item.debounce_deadline,
        item@.debounce_duration == item.debounce_duration,
        item@.patterns == views(item.patterns@),
        item@.ignore_patterns == views(item.ignore_patterns@),
        command matches RunnerCommand::Rebuild { name } ==> command@ == Command::Rebuild(name@),
        command matches RunnerCommand::TaskRerun { name } ==> command@ == Command::TaskRerun(name@),
        command matches RunnerCommand::BuildGraphChanged { name } ==> command@
            == Command::BuildGraphChanged(name@),
        command matches RunnerCommand::RebuildStale { name } ==> command@ == Command::RebuildStale(
            name@,
        ),
{
}

/// The end of a cycle is the end of the one that it names; anything else the
/// runner says ends none.
pub proof fn a_cycle_ends_by_its_name(name: String, success: bool)
    ensures
        cycle_name(CycleEvent::RebuildComplete { name, success }) == Some(name@),
        cycle_name(CycleEvent::TaskRerunComplete { name, success }) == Some(name@),
        cycle_name(CycleEvent::Other) is None,
{
}

/// The build tool is told of build graphs only: of each that waited its time
/// out, by its name, and of nothing else.
pub proof fn only_a_build_graph_is_told(
    items: Map<Seq<char>, ItemView>,
    names: Seq<Seq<char>>,
    now: u64,
    told: Seq<char>,
)
    ensures
        ({
            let sent = sent_for(items, names, fires_of(now));
            &&& sent.contains(Command::BuildGraphChanged(told)) ==> exists|k: int|
                {
                    &&& 0 <= k < names.len()
                    &&& (#[trigger] names[k]) == told || names[k] == told + "__graph"@
                    &&& items[names[k]].kind == WatchItemKind::BuildGraph
                    &&& items[names[k]].state == WatchState::Debouncing
                    &&& items[names[k]].debounce_deadline matches Some(deadline) && deadline <= now
                }
            &&& names.contains(told) && !has_suffix(told, "__graph"@) && items[told].kind
                == WatchItemKind::BuildGraph && items[told].state == WatchState::Debouncing && (
            items[told].debounce_deadline matches Some(deadline) && deadline <= now)
                ==> sent.contains(Command::BuildGraphChanged(told))
        }),
{
    let sends = fires_of(now);
    let command = Command::BuildGraphChanged(told);
    lemma_sent(items, names, sends, command);
    if sent_for(items, names, sends).contains(command) {
        let k = choose|k: int|
            0 <= k < names.len() && sends(#[trigger] names[k], items[names[k]]) == Some(command);
        let name = names[k];
        if name != told {
            let mark = "__graph"@;
            assert(name =~= name.take(name.len() - mark.len()) + name.skip(name.len() - mark.len()));
        }
    }
    if names.contains(told) && !has_suffix(told, "__graph"@) {
        let k = choose|k: int| 0 <= k < names.len() && names[k] == told;
        assert(sends(names[k], items[names[k]]) == sends(told, items[told]));
    }
}

} // verus!
