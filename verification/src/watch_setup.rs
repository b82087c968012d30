//! What is watched to begin with: the items of a configuration, the directories
//! they are watched from, and what is wrong with their patterns.
use crate::globs::{
    all_ignore_warnings, build_watch_ignore_overrides, contents_dir, fault_of, ignores,
    names_contents, pattern_fault, pattern_match,
};
use crate::names::{copy_names, views, NameMap};
use crate::paths::{glob_base_dir, resolve_pattern, resolved_pattern, watch_dir_of};
use crate::text::{has_suffix, strip_suffix};
use crate::watch::{
    an_ignored_path_concerns_nobody, concerns, fresh_item, item_views, watch_dirs, well_formed,
    ItemView, WatchItemKind, WatchManager, WatchState, WatchedItem, DEFAULT_DEBOUNCE,
    WORKSPACE_GRAPH_ITEM_NAME,
};
use vstd::prelude::*;

verus! {

/// Why watching could not begin.
#[derive(Debug)]
pub enum WatchError {
    /// The backend refused.
    Notify(String),
    /// An item's wait for quiet is not a duration.
    Duration(String),
    /// A directory could not be made or found, and why.
    Io(String, String),
}

impl WatchError {
    /// What is said of the error.
    pub open spec fn words(self) -> Seq<char> {
        match self {
            WatchError::Notify(why) => "notify error: "@ + why@,
            WatchError::Duration(why) => "invalid debounce duration: "@ + why@,
            WatchError::Io(dir, why) => "failed to create watch directory "@ + dir@ + ": "@ + why@,
        }
    }

    /// What is said of the error.
    pub fn message(&self) -> (r: String)
        ensures
            r@ == self.words(),
    {
        match self {
            WatchError::Notify(why) => {
                let mut out = "notify error: ".to_owned();
                out.append(why.as_str());
                out
            },
            WatchError::Duration(why) => {
                let mut out = "invalid debounce duration: ".to_owned();
                out.append(why.as_str());
                out
            },
            WatchError::Io(dir, why) => {
                let mut out = "failed to create watch directory ".to_owned();
                out.append(dir.as_str());
                out.append(": ");
                out.append(why.as_str());
                out
            },
        }
    }
}

/// How a service is built, as far as that says what to watch.
#[derive(Debug, Clone, Copy, PartialEq, Eq, Structural)]
pub enum Preset {
    Rust,
    Go,
    Other,
}

/// How long a service waits for quiet.
#[derive(Debug)]
pub enum Debounce {
    /// As long as any other.
    Default,
    /// So many milliseconds.
    After(u64),
    /// What was written is not a duration, and why.
    Invalid(String),
}

/// What a service says of watching.
#[derive(Debug)]
pub struct ServiceWatch {
    pub name: String,
    /// Whether don reloads it at all.
    pub reload: bool,
    pub watch: Vec<String>,
    pub ignore: Vec<String>,
    /// The directory that its patterns stand in.
    pub dir: String,
    pub debounce: Debounce,
    pub preset: Preset,
    /// Whether it is built by bazel and watches what describes the build.
    pub bazel_watch: bool,
    /// The same of turbo.
    pub turbo_watch: bool,
}

/// What a task says of watching.
#[derive(Debug)]
pub struct TaskWatch {
    pub name: String,
    pub watch: Vec<String>,
    pub ignore: Vec<String>,
    /// The directory that its patterns stand in.
    pub dir: String,
    pub bazel_watch: bool,
    pub turbo_watch: bool,
}

/// What a configuration says of watching.
#[derive(Debug)]
pub struct WatchConfig {
    /// What no item watches.
    pub watch_ignore: Vec<String>,
    pub services: Vec<ServiceWatch>,
    pub tasks: Vec<TaskWatch>,
}

/// The files a service is watched by if it names none.
pub open spec fn preset_patterns(preset: Preset) -> Seq<Seq<char>> {
    match preset {
        Preset::Rust => seq!["src/**/*.rs"@, "Cargo.toml"@, "Cargo.lock"@],
        Preset::Go => seq!["**/*.go"@, "go.mod"@, "go.sum"@],
        Preset::Other => Seq::empty(),
    }
}

/// What a service watches: what it names, else what its preset does.
pub open spec fn patterns_of(service: ServiceWatch) -> Seq<Seq<char>> {
    if service.watch@.len() > 0 {
        views(service.watch@)
    } else {
        preset_patterns(service.preset)
    }
}

/// Whether a service is watched.
pub open spec fn is_watched(service: ServiceWatch) -> bool {
    service.reload && patterns_of(service).len() > 0
}

fn watch_patterns(service: &ServiceWatch) -> (r: Vec<String>)
    ensures
        views(r@) == patterns_of(*service),
{
    if service.watch.len() > 0 {
        return copy_names(&service.watch);
    }
    let mut out: Vec<String> = Vec::new();
    match service.preset {
        Preset::Rust => {
            out.push("src/**/*.rs".to_owned());
            out.push("Cargo.toml".to_owned());
            out.push("Cargo.lock".to_owned());
        },
        Preset::Go => {
            out.push("**/*.go".to_owned());
            out.push("go.mod".to_owned());
            out.push("go.sum".to_owned());
        },
        Preset::Other => {},
    }
    assert(views(out@) =~= preset_patterns(service.preset));
    out
}

/// What no item watches, as it stands in the workspace. A pattern for all that
/// is in a directory goes for the directory too.
pub open spec fn global_patterns(base: Seq<char>, watch_ignore: Seq<Seq<char>>) -> Seq<Seq<char>>
    decreases watch_ignore.len(),
{
    if watch_ignore.len() == 0 {
        Seq::empty()
    } else {
        let before = global_patterns(base, watch_ignore.drop_last());
        let pattern = watch_ignore.last();
        let first = before.push(resolved_pattern(base, pattern));
        if names_contents(pattern) {
            first.push(resolved_pattern(base, contents_dir(pattern)))
        } else {
            first
        }
    }
}

fn global_ignore_patterns(base: &str, watch_ignore: &Vec<String>) -> (r: Vec<String>)
    ensures
        views(r@) == global_patterns(base@, views(watch_ignore@)),
{
    let mut out: Vec<String> = Vec::new();
    let ghost all = views(watch_ignore@);
    let mut i: usize = 0;
    proof {
        reveal_strlit("/**");
        assert(all.take(0) =~= Seq::<Seq<char>>::empty());
        assert(views(out@) =~= global_patterns(base@, all.take(0)));
    }
    while i < watch_ignore.len()
        invariant
            i <= watch_ignore@.len(),
            all == views(watch_ignore@),
            "/**"@.len() == 3,
            views(out@) == global_patterns(base@, all.take(i as int)),
        decreases watch_ignore@.len() - i,
    {
        let pattern = watch_ignore[i].as_str();
        let ghost before = views(out@);
        proof {
            assert(all.take(i + 1).drop_last() =~= all.take(i as int));
            assert(all.take(i + 1).last() == pattern@);
        }
        out.push(resolve_pattern(base, pattern));
        let ghost first = views(out@);
        assert(first =~= before.push(resolved_pattern(base@, pattern@)));
        if let Some(dir) = strip_suffix(pattern, "/**") {
            out.push(resolve_pattern(base, dir.as_str()));
            assert(views(out@) =~= first.push(resolved_pattern(base@, contents_dir(pattern@))));
        }
        i += 1;
    }
    assert(all.take(watch_ignore@.len() as int) =~= all);
    out
}

/// The patterns of a list that are well formed.
pub open spec fn valid_patterns(patterns: Seq<Seq<char>>) -> Seq<Seq<char>>
    decreases patterns.len(),
{
    if patterns.len() == 0 {
        Seq::empty()
    } else {
        let before = valid_patterns(patterns.drop_last());
        if pattern_fault(patterns.last()) is None {
            before.push(patterns.last())
        } else {
            before
        }
    }
}

fn keep_valid(patterns: &Vec<String>) -> (r: Vec<String>)
    ensures
        views(r@) == valid_patterns(views(patterns@)),
{
    let mut out: Vec<String> = Vec::new();
    let ghost all = views(patterns@);
    let mut i: usize = 0;
    proof {
        assert(all.take(0) =~= Seq::<Seq<char>>::empty());
        assert(views(out@) =~= valid_patterns(all.take(0)));
    }
    while i < patterns.len()
        invariant
            i <= patterns@.len(),
            all == views(patterns@),
            views(out@) == valid_patterns(all.take(i as int)),
        decreases patterns@.len() - i,
    {
        let ghost before = views(out@);
        proof {
            assert(all.take(i + 1).drop_last() =~= all.take(i as int));
            assert(all.take(i + 1).last() == patterns@[i as int]@);
        }
        if fault_of(patterns[i].as_str()).is_none() {
            out.push(patterns[i].clone());
            assert(views(out@) =~= before.push(patterns@[i as int]@));
        }
        i += 1;
    }
    assert(all.take(patterns@.len() as int) =~= all);
    out
}

/// What is said of an item's pattern that is not well formed.
pub open spec fn fault_text(
    name: Seq<char>,
    what: Seq<char>,
    pattern: Seq<char>,
    fault: Seq<char>,
) -> Seq<char> {
    name + ": invalid "@ + what + " pattern '"@ + pattern + "': "@ + fault
}

/// What is said of an item's patterns that are not well formed.
pub open spec fn fault_texts(
    name: Seq<char>,
    what: Seq<char>,
    dir: Seq<char>,
    patterns: Seq<Seq<char>>,
) -> Seq<Seq<char>>
    decreases patterns.len(),
{
    if patterns.len() == 0 {
        Seq::empty()
    } else {
        let before = fault_texts(name, what, dir, patterns.drop_last());
        match pattern_fault(resolved_pattern(dir, patterns.last())) {
            Some(fault) => before.push(fault_text(name, what, patterns.last(), fault)),
            None => before,
        }
    }
}

/// The patterns of a list that are well formed, as they stand in a directory;
/// what is wrong with the others is added to the warnings.
fn compile_all(
    name: &str,
    what: &str,
    dir: &str,
    patterns: &Vec<String>,
    warnings: &mut Vec<String>,
) -> (r: Vec<String>)
    ensures
        views(r@) == well_formed(dir@, views(patterns@)),
        views(final(warnings)@) == views(old(warnings)@) + fault_texts(
            name@,
            what@,
            dir@,
            views(patterns@),
        ),
{
    let mut out: Vec<String> = Vec::new();
    let ghost all = views(patterns@);
    let ghost said = views(warnings@);
    let mut i: usize = 0;
    proof {
        assert(all.take(0) =~= Seq::<Seq<char>>::empty());
        assert(views(out@) =~= well_formed(dir@, all.take(0)));
        assert(said =~= said + fault_texts(name@, what@, dir@, all.take(0)));
    }
    while i < patterns.len()
        invariant
            i <= patterns@.len(),
            all == views(patterns@),
            views(out@) == well_formed(dir@, all.take(i as int)),
            views(warnings@) == said + fault_texts(name@, what@, dir@, all.take(i as int)),
        decreases patterns@.len() - i,
    {
        let pattern = patterns[i].as_str();
        let full = resolve_pattern(dir, pattern);
        let ghost before = views(out@);
        let ghost warned = views(warnings@);
        let ghost text = full@;
        proof {
            assert(all.take(i + 1).drop_last() =~= all.take(i as int));
            assert(all.take(i + 1).last() == pattern@);
        }
        match fault_of(full.as_str()) {
            None => {
                out.push(full);
                assert(views(out@) =~= before.push(text));
            },
            Some(fault) => {
                let mut warning = name.to_owned();
                warning.append(": invalid ");
                warning.append(what);
                warning.append(" pattern '");
                warning.append(pattern);
                warning.append("': ");
                warning.append(fault.as_str());
                let ghost words = warning@;
                warnings.push(warning);
                proof {
                    assert(views(warnings@) =~= warned.push(words));
                    assert(words == fault_text(name@, what@, pattern@, fault@));
                    assert(views(warnings@) =~= said + fault_texts(
                        name@,
                        what@,
                        dir@,
                        all.take(i + 1),
                    ));
                }
            },
        }
        i += 1;
    }
    assert(all.take(patterns@.len() as int) =~= all);
    out
}

/// A setup so far: the items, the directories they are watched from, and what
/// is wrong with their patterns.
pub struct SetupView {
    pub items: Map<Seq<char>, ItemView>,
    pub roots: Seq<Seq<char>>,
    pub warnings: Seq<Seq<char>>,
}

/// A setup so far.
pub struct Setup {
    pub items: NameMap<WatchedItem>,
    pub roots: Vec<String>,
    pub warnings: Vec<String>,
}

impl View for Setup {
    type V = SetupView;

    open spec fn view(&self) -> SetupView {
        SetupView {
            items: item_views(self.items@),
            roots: views(self.roots@),
            warnings: views(self.warnings@),
        }
    }
}

/// What an item is watched by.
pub struct ItemRules {
    pub name: Seq<char>,
    pub kind: WatchItemKind,
    pub debounce: u64,
    pub dir: Seq<char>,
    pub watch: Seq<Seq<char>>,
    pub ignore: Seq<Seq<char>>,
}

impl SetupView {
    /// The setup with one more item.
    pub open spec fn with_item(self, item: ItemRules) -> SetupView {
        SetupView {
            items: self.items.insert(
                item.name,
                fresh_item(
                    item.kind,
                    item.debounce,
                    well_formed(item.dir, item.watch),
                    well_formed(item.dir, item.ignore),
                ),
            ),
            roots: self.roots + watch_dirs(well_formed(item.dir, item.watch)),
            warnings: self.warnings + fault_texts(item.name, "watch"@, item.dir, item.watch)
                + fault_texts(item.name, "ignore"@, item.dir, item.ignore),
        }
    }
}

fn add_roots(roots: &mut Vec<String>, patterns: &Vec<String>)
    ensures
        views(final(roots)@) == views(old(roots)@) + watch_dirs(views(patterns@)),
{
    let ghost before = views(roots@);
    let ghost dirs = watch_dirs(views(patterns@));
    let mut i: usize = 0;
    assert(before =~= before + dirs.take(0));
    while i < patterns.len()
        invariant
            i <= patterns@.len(),
            dirs == watch_dirs(views(patterns@)),
            views(roots@) == before + dirs.take(i as int),
        decreases patterns@.len() - i,
    {
        let ghost so_far = views(roots@);
        roots.push(glob_base_dir(patterns[i].as_str()));
        proof {
            assert(dirs[i as int] == watch_dir_of(patterns@[i as int]@));
            assert(views(roots@) =~= so_far.push(dirs[i as int]));
            assert(views(roots@) =~= before + dirs.take(i + 1));
        }
        i += 1;
    }
    assert(dirs.take(patterns@.len() as int) =~= dirs);
}

fn copy_and(names: &Vec<String>, more: &Vec<String>) -> (r: Vec<String>)
    ensures
        views(r@) == views(names@) + views(more@),
{
    let mut out = copy_names(names);
    let ghost before = views(out@);
    let mut i: usize = 0;
    assert(before =~= before + views(more@).take(0));
    while i < more.len()
        invariant
            i <= more@.len(),
            views(out@) == before + views(more@).take(i as int),
        decreases more@.len() - i,
    {
        let ghost so_far = views(out@);
        out.push(more[i].clone());
        proof {
            assert(views(out@) =~= so_far.push(views(more@)[i as int]));
            assert(views(out@) =~= before + views(more@).take(i + 1));
        }
        i += 1;
    }
    assert(views(more@).take(more@.len() as int) =~= views(more@));
    out
}

impl Setup {
    fn add_item(
        &mut self,
        name: &String,
        kind: WatchItemKind,
        debounce: u64,
        dir: &str,
        watch: &Vec<String>,
        ignore: &Vec<String>,
    )
        ensures
            final(self)@ == old(self)@.with_item(
                ItemRules {
                    name: name@,
                    kind,
                    debounce,
                    dir: dir@,
                    watch: views(watch@),
                    ignore: views(ignore@),
                },
            ),
    {
        let ghost before = self@;
        let ghost items = self.items@;
        let patterns = compile_all(name.as_str(), "watch", dir, watch, &mut self.warnings);
        add_roots(&mut self.roots, &patterns);
        let ignored = compile_all(name.as_str(), "ignore", dir, ignore, &mut self.warnings);
        let item = WatchedItem::new(kind, debounce, patterns, ignored);
        let ghost made = item;
        self.items.insert(name.clone(), item);
        proof {
            assert(item_views(self.items@) =~= item_views(items).insert(name@, made@));
        }
    }
}

/// How long a service waits for quiet.
pub open spec fn debounce_of(service: ServiceWatch) -> u64 {
    match service.debounce {
        Debounce::After(ms) => ms,
        _ => DEFAULT_DEBOUNCE,
    }
}

/// What a service is watched by.
pub open spec fn service_rules(service: ServiceWatch, globals: Seq<Seq<char>>) -> ItemRules {
    ItemRules {
        name: service.name@,
        kind: WatchItemKind::Service,
        debounce: debounce_of(service),
        dir: service.dir@,
        watch: patterns_of(service),
        ignore: views(service.ignore@) + globals,
    }
}

/// What a task is watched by.
pub open spec fn task_rules(task: TaskWatch, globals: Seq<Seq<char>>) -> ItemRules {
    ItemRules {
        name: task.name@,
        kind: WatchItemKind::Task,
        debounce: DEFAULT_DEBOUNCE,
        dir: task.dir@,
        watch: views(task.watch@),
        ignore: views(task.ignore@) + globals,
    }
}

/// A setup with the services that are watched.
pub open spec fn with_services(
    setup: SetupView,
    services: Seq<ServiceWatch>,
    globals: Seq<Seq<char>>,
) -> SetupView
    decreases services.len(),
{
    if services.len() == 0 {
        setup
    } else {
        let before = with_services(setup, services.drop_last(), globals);
        if is_watched(services.last()) {
            before.with_item(service_rules(services.last(), globals))
        } else {
            before
        }
    }
}

/// A setup with the tasks that are watched.
pub open spec fn with_tasks(
    setup: SetupView,
    tasks: Seq<TaskWatch>,
    globals: Seq<Seq<char>>,
) -> SetupView
    decreases tasks.len(),
{
    if tasks.len() == 0 {
        setup
    } else {
        let before = with_tasks(setup, tasks.drop_last(), globals);
        if tasks.last().watch@.len() > 0 {
            before.with_item(task_rules(tasks.last(), globals))
        } else {
            before
        }
    }
}

/// Whether a service is watched and its wait for quiet is not a duration.
pub open spec fn is_misconfigured(service: ServiceWatch) -> bool {
    is_watched(service) && service.debounce is Invalid
}

/// Whether an error is that of the first service that is misconfigured.
pub open spec fn is_first_fault(services: Seq<ServiceWatch>, error: WatchError) -> bool {
    exists|i: int|
        {
            &&& 0 <= i < services.len()
            &&& is_misconfigured(#[trigger] services[i])
            &&& forall|j: int| 0 <= j < i ==> !is_misconfigured(#[trigger] services[j])
            &&& error == WatchError::Duration(services[i].debounce->Invalid_0)
        }
}

fn add_services(setup: &mut Setup, services: &Vec<ServiceWatch>, globals: &Vec<String>) -> (r:
    Result<(), WatchError>)
    ensures
        match r {
            Ok(()) => final(setup)@ == with_services(old(setup)@, services@, views(globals@))
                && forall|i: int|
                0 <= i < services@.len() ==> !is_misconfigured(#[trigger] services@[i]),
            Err(error) => is_first_fault(services@, error),
        },
{
    let ghost before = setup@;
    let mut i: usize = 0;
    assert(services@.take(0) =~= Seq::<ServiceWatch>::empty());
    while i < services.len()
        invariant
            i <= services@.len(),
            setup@ == with_services(before, services@.take(i as int), views(globals@)),
            forall|j: int| 0 <= j < i ==> !is_misconfigured(#[trigger] services@[j]),
        decreases services@.len() - i,
    {
        let service = &services[i];
        proof {
            assert(services@.take(i + 1).drop_last() =~= services@.take(i as int));
            assert(services@.take(i + 1).last() == *service);
        }
        let watch = watch_patterns(service);
        assert(watch@.len() == views(watch@).len());
        if service.reload && watch.len() > 0 {
            let debounce: u64 = match &service.debounce {
                Debounce::Default => DEFAULT_DEBOUNCE,
                Debounce::After(ms) => *ms,
                Debounce::Invalid(why) => {
                    assert(is_misconfigured(services@[i as int]));
                    return Err(WatchError::Duration(why.clone()));
                },
            };
            let ignore = copy_and(&service.ignore, globals);
            setup.add_item(
                &service.name,
                WatchItemKind::Service,
                debounce,
                service.dir.as_str(),
                &watch,
                &ignore,
            );
        }
        i += 1;
    }
    assert(services@.take(services@.len() as int) =~= services@);
    Ok(())
}

fn add_tasks(setup: &mut Setup, tasks: &Vec<TaskWatch>, globals: &Vec<String>)
    ensures
        final(setup)@ == with_tasks(old(setup)@, tasks@, views(globals@)),
{
    let ghost before = setup@;
    let mut i: usize = 0;
    assert(tasks@.take(0) =~= Seq::<TaskWatch>::empty());
    while i < tasks.len()
        invariant
            i <= tasks@.len(),
            setup@ == with_tasks(before, tasks@.take(i as int), views(globals@)),
        decreases tasks@.len() - i,
    {
        let task = &tasks[i];
        proof {
            assert(tasks@.take(i + 1).drop_last() =~= tasks@.take(i as int));
            assert(tasks@.take(i + 1).last() == *task);
        }
        if task.watch.len() > 0 {
            let ignore = copy_and(&task.ignore, globals);
            setup.add_item(
                &task.name,
                WatchItemKind::Task,
                DEFAULT_DEBOUNCE,
                task.dir.as_str(),
                &task.watch,
                &ignore,
            );
        }
        i += 1;
    }
    assert(tasks@.take(tasks@.len() as int) =~= tasks@);
}

/// Whether something that don reloads is built by bazel, and what describes
/// the build is watched.
pub open spec fn has_bazel(config: WatchConfig) -> bool {
    ||| exists|i: int|
        0 <= i < config.services@.len() && (#[trigger] config.services@[i]).reload
            && config.services@[i].bazel_watch
    ||| exists|i: int| 0 <= i < config.tasks@.len() && (#[trigger] config.tasks@[i]).bazel_watch
}

/// The same of turbo.
pub open spec fn has_turbo(config: WatchConfig) -> bool {
    ||| exists|i: int|
        0 <= i < config.services@.len() && (#[trigger] config.services@[i]).reload
            && config.services@[i].turbo_watch
    ||| exists|i: int| 0 <= i < config.tasks@.len() && (#[trigger] config.tasks@[i]).turbo_watch
}

fn uses_bazel(config: &WatchConfig) -> (r: bool)
    ensures
        r == has_bazel(*config),
{
    let mut i: usize = 0;
    while i < config.services.len()
        invariant
            i <= config.services@.len(),
            forall|j: int|
                0 <= j < i ==> !((#[trigger] config.services@[j]).reload
                    && config.services@[j].bazel_watch),
        decreases config.services@.len() - i,
    {
        if config.services[i].reload && config.services[i].bazel_watch {
            return true;
        }
        i += 1;
    }
    let mut k: usize = 0;
    while k < config.tasks.len()
        invariant
            k <= config.tasks@.len(),
            forall|j: int| 0 <= j < k ==> !(#[trigger] config.tasks@[j]).bazel_watch,
        decreases config.tasks@.len() - k,
    {
        if config.tasks[k].bazel_watch {
            return true;
        }
        k += 1;
    }
    false
}

fn uses_turbo(config: &WatchConfig) -> (r: bool)
    ensures
        r == has_turbo(*config),
{
    let mut i: usize = 0;
    while i < config.services.len()
        invariant
            i <= config.services@.len(),
            forall|j: int|
                0 <= j < i ==> !((#[trigger] config.services@[j]).reload
                    && config.services@[j].turbo_watch),
        decreases config.services@.len() - i,
    {
        if config.services[i].reload && config.services[i].turbo_watch {
            return true;
        }
        i += 1;
    }
    let mut k: usize = 0;
    while k < config.tasks.len()
        invariant
            k <= config.tasks@.len(),
            forall|j: int| 0 <= j < k ==> !(#[trigger] config.tasks@[j]).turbo_watch,
        decreases config.tasks@.len() - k,
    {
        if config.tasks[k].turbo_watch {
            return true;
        }
        k += 1;
    }
    false
}

/// The files at the root of a workspace that describe how it is built.
pub open spec fn root_files(bazel: bool, turbo: bool) -> Seq<Seq<char>> {
    (if bazel {
        seq!["WORKSPACE"@, "WORKSPACE.bazel"@, "MODULE.bazel"@]
    } else {
        Seq::empty()
    }) + (if turbo {
        seq!["turbo.json"@, "turbo.jsonc"@, "pnpm-workspace.yaml"@]
    } else {
        Seq::empty()
    })
}

fn root_file_names(bazel: bool, turbo: bool) -> (r: Vec<String>)
    ensures
        views(r@) == root_files(bazel, turbo),
{
    let mut out: Vec<String> = Vec::new();
    if bazel {
        out.push("WORKSPACE".to_owned());
        out.push("WORKSPACE.bazel".to_owned());
        out.push("MODULE.bazel".to_owned());
    }
    if turbo {
        out.push("turbo.json".to_owned());
        out.push("turbo.jsonc".to_owned());
        out.push("pnpm-workspace.yaml".to_owned());
    }
    assert(views(out@) =~= root_files(bazel, turbo));
    out
}

/// The items with the one that watches the workspace's own files, if there is
/// something for it to watch.
pub open spec fn with_workspace(
    items: Map<Seq<char>, ItemView>,
    base: Seq<char>,
    config: WatchConfig,
    globals: Seq<Seq<char>>,
) -> Map<Seq<char>, ItemView> {
    let patterns = well_formed(base, root_files(has_bazel(config), has_turbo(config)));
    if patterns.len() > 0 {
        items.insert(
            WORKSPACE_GRAPH_ITEM_NAME@,
            fresh_item(
                WatchItemKind::BuildGraph,
                DEFAULT_DEBOUNCE,
                patterns,
                valid_patterns(globals),
            ),
        )
    } else {
        items
    }
}

/// What watching begins with.
pub struct WatchPlan {
    pub manager: WatchManager,
    /// The directories that are made where they are missing, and walked.
    pub roots: Vec<String>,
    /// The workspace's own directory has to be registered too.
    pub watches_workspace: bool,
    pub warnings: Vec<String>,
}

/// Whether a plan is that of a configuration, given what went wrong as the
/// rules on what not to watch were compiled, if anything did.
pub open spec fn plans(
    plan: WatchPlan,
    base: Seq<char>,
    config: WatchConfig,
    fault: Option<Seq<char>>,
) -> bool {
    let ignored = views(config.watch_ignore@);
    let globals = global_patterns(base, ignored);
    let start = SetupView {
        items: Map::empty(),
        roots: Seq::empty(),
        warnings: all_ignore_warnings(ignored, fault),
    };
    let setup = with_tasks(
        with_services(start, config.services@, globals),
        config.tasks@,
        globals,
    );
    let manager = plan.manager;
    &&& manager.watched() == with_workspace(setup.items, base, config, globals)
    &&& views(plan.roots@) == setup.roots
    &&& views(plan.warnings@) == setup.warnings
    &&& plan.watches_workspace == (has_bazel(config) || has_turbo(config))
    &&& manager.registered_dirs@ == Map::<Seq<char>, crate::coverage::RecursiveMode>::empty()
    &&& manager.notify_error_count == 0
    &&& manager.runner_event_lag_count == 0
    &&& manager.last_notify_error is None
    &&& views(manager.global_ignore@) == valid_patterns(globals)
    &&& ignores(manager.overrides.set, base, ignored, fault)
}

/// What watching a configuration begins with, in the workspace's directory. It
/// fails on the first service that is watched and whose wait for quiet is not a
/// duration; what is wrong with a pattern is only said.
pub fn plan_watches(base_dir: &str, config: &WatchConfig) -> (r: Result<WatchPlan, WatchError>)
    ensures
        match r {
            Ok(plan) => {
                &&& exists|fault: Option<Seq<char>>| plans(plan, base_dir@, *config, fault)
                &&& forall|i: int|
                    0 <= i < config.services@.len() ==> !is_misconfigured(
                        #[trigger] config.services@[i],
                    )
            },
            Err(error) => is_first_fault(config.services@, error),
        },
{
    let globals = global_ignore_patterns(base_dir, &config.watch_ignore);
    let mut warnings: Vec<String> = Vec::new();
    let overrides = build_watch_ignore_overrides(base_dir, &config.watch_ignore, &mut warnings);
    let mut setup = Setup { items: NameMap::new(), roots: Vec::new(), warnings };
    let ghost fault = choose|fault: Option<Seq<char>>|
        views(setup.warnings@) == Seq::<Seq<char>>::empty() + #[trigger] all_ignore_warnings(
            views(config.watch_ignore@),
            fault,
        ) && ignores(overrides.set, base_dir@, views(config.watch_ignore@), fault);
    proof {
        let said = all_ignore_warnings(views(config.watch_ignore@), fault);
        assert(Seq::<Seq<char>>::empty() + said =~= said);
        assert(setup@.items =~= Map::<Seq<char>, ItemView>::empty());
        assert(setup@.roots =~= Seq::<Seq<char>>::empty());
        assert(setup@.warnings =~= said);
    }
    if let Err(error) = add_services(&mut setup, &config.services, &globals) {
        return Err(error);
    }
    add_tasks(&mut setup, &config.tasks, &globals);
    let bazel = uses_bazel(config);
    let turbo = uses_turbo(config);
    let Setup { mut items, roots, warnings } = setup;
    let files = root_file_names(bazel, turbo);
    let patterns = crate::watch::compiled_patterns(base_dir, &files);
    let global_ignore = keep_valid(&globals);
    assert(patterns@.len() == views(patterns@).len());
    if patterns.len() > 0 {
        let ghost before = items@;
        let item = WatchedItem::new(
            WatchItemKind::BuildGraph,
            DEFAULT_DEBOUNCE,
            patterns,
            copy_names(&global_ignore),
        );
        let ghost made = item;
        items.insert(WORKSPACE_GRAPH_ITEM_NAME.to_owned(), item);
        assert(item_views(items@) =~= item_views(before).insert(
            WORKSPACE_GRAPH_ITEM_NAME@,
            made@,
        ));
    }
    let plan = WatchPlan {
        manager: WatchManager {
            items,
            registered_dirs: NameMap::new(),
            notify_error_count: 0,
            runner_event_lag_count: 0,
            last_notify_error: None,
            global_ignore,
            overrides,
        },
        roots,
        watches_workspace: bazel || turbo,
        warnings,
    };
    assert(plans(plan, base_dir@, *config, fault));
    Ok(plan)
}

proof fn lemma_no_service(
    setup: SetupView,
    services: Seq<ServiceWatch>,
    globals: Seq<Seq<char>>,
    name: Seq<char>,
)
    requires
        forall|i: int| 0 <= i < services.len() && is_watched(#[trigger] services[i])
            ==> services[i].name@ != name,
        !setup.items.contains_key(name),
    ensures
        !with_services(setup, services, globals).items.contains_key(name),
    decreases services.len(),
{
    if services.len() > 0 {
        let rest = services.drop_last();
        assert forall|i: int| 0 <= i < rest.len() && is_watched(#[trigger] rest[i]) implies
            rest[i].name@ != name by {
            assert(rest[i] == services[i]);
        }
        lemma_no_service(setup, rest, globals, name);
        assert(services[services.len() - 1] == services.last());
    }
}

/// A service that reloads itself is not watched, whatever it says it watches.
pub proof fn a_service_that_reloads_itself_is_not_watched(
    setup: SetupView,
    services: Seq<ServiceWatch>,
    globals: Seq<Seq<char>>,
    name: Seq<char>,
)
    requires
        forall|i: int| 0 <= i < services.len() && (#[trigger] services[i]).reload
            ==> services[i].name@ != name,
        !setup.items.contains_key(name),
    ensures
        !with_services(setup, services, globals).items.contains_key(name),
{
    assert forall|i: int| 0 <= i < services.len() && is_watched(#[trigger] services[i]) implies
        services[i].name@ != name by {
        assert(services[i].reload);
    }
    lemma_no_service(setup, services, globals, name);
}

/// Where nothing that is reloaded has its build watched, the workspace's own
/// files are not watched.
pub proof fn opting_out_leaves_the_workspace_alone(
    items: Map<Seq<char>, ItemView>,
    base: Seq<char>,
    config: WatchConfig,
    globals: Seq<Seq<char>>,
)
    requires
        forall|i: int|
            0 <= i < config.services@.len() ==> !(#[trigger] config.services@[i]).reload || (
            !config.services@[i].bazel_watch && !config.services@[i].turbo_watch),
        forall|i: int|
            0 <= i < config.tasks@.len() ==> !(#[trigger] config.tasks@[i]).bazel_watch
                && !config.tasks@[i].turbo_watch,
    ensures
        with_workspace(items, base, config, globals) == items,
{
    assert(!has_bazel(config));
    assert(!has_turbo(config));
    assert(root_files(false, false) =~= Seq::<Seq<char>>::empty());
    assert(well_formed(base, Seq::<Seq<char>>::empty()) =~= Seq::<Seq<char>>::empty());
}

/// What is kept of a list of patterns is every one of them that is well formed
/// once it is read in its directory, and nothing else.
proof fn lemma_well_formed(dir: Seq<char>, patterns: Seq<Seq<char>>, full: Seq<char>)
    ensures
        well_formed(dir, patterns).contains(full) <==> pattern_fault(full) is None && exists|k: int|
            0 <= k < patterns.len() && resolved_pattern(dir, #[trigger] patterns[k]) == full,
    decreases patterns.len(),
{
    let kept = well_formed(dir, patterns);
    if patterns.len() > 0 {
        let front = patterns.drop_last();
        let before = well_formed(dir, front);
        lemma_well_formed(dir, front, full);
        if kept.contains(full) {
            let at = choose|at: int| 0 <= at < kept.len() && kept[at] == full;
            if at < before.len() {
                assert(before[at] == full);
                let k = choose|k: int|
                    0 <= k < front.len() && resolved_pattern(dir, #[trigger] front[k]) == full;
                assert(patterns[k] == front[k]);
            } else {
                assert(patterns[patterns.len() - 1] == patterns.last());
            }
        }
        if pattern_fault(full) is None && exists|k: int|
            0 <= k < patterns.len() && resolved_pattern(dir, #[trigger] patterns[k]) == full {
            let k = choose|k: int|
                0 <= k < patterns.len() && resolved_pattern(dir, #[trigger] patterns[k]) == full;
            if k < front.len() {
                assert(front[k] == patterns[k]);
                let at = choose|at: int| 0 <= at < before.len() && before[at] == full;
                assert(kept[at] == full);
            } else {
                assert(kept.last() == full);
            }
        }
    }
}

proof fn lemma_globals(base: Seq<char>, ignored: Seq<Seq<char>>, k: int)
    requires
        0 <= k < ignored.len(),
    ensures
        global_patterns(base, ignored).contains(resolved_pattern(base, ignored[k])),
        has_suffix(ignored[k], "/**"@) ==> global_patterns(base, ignored).contains(
            resolved_pattern(base, ignored[k].take(ignored[k].len() - 3)),
        ),
    decreases ignored.len(),
{
    let all = global_patterns(base, ignored);
    let front = ignored.drop_last();
    let before = global_patterns(base, front);
    assert(before.is_prefix_of(all));
    if k < front.len() {
        lemma_globals(base, front, k);
        assert(front[k] == ignored[k]);
        let full = resolved_pattern(base, ignored[k]);
        let at = choose|at: int| 0 <= at < before.len() && before[at] == full;
        assert(all[at] == full);
        if has_suffix(ignored[k], "/**"@) {
            let dir = resolved_pattern(base, ignored[k].take(ignored[k].len() - 3));
            let at = choose|at: int| 0 <= at < before.len() && before[at] == dir;
            assert(all[at] == dir);
        }
    } else {
        assert(all[before.len() as int] == resolved_pattern(base, ignored[k]));
        if has_suffix(ignored[k], "/**"@) {
            assert(all.last() == resolved_pattern(base, ignored[k].take(ignored[k].len() - 3)));
        }
    }
}

proof fn lemma_service_item(
    setup: SetupView,
    services: Seq<ServiceWatch>,
    globals: Seq<Seq<char>>,
    k: int,
)
    requires
        0 <= k < services.len(),
        is_watched(services[k]),
        forall|j: int|
            0 <= j < services.len() && j != k ==> (#[trigger] services[j]).name@
                != services[k].name@,
    ensures
        ({
            let service = services[k];
            let items = with_services(setup, services, globals).items;
            &&& items.contains_key(service.name@)
            &&& items[service.name@] == setup.with_item(
                service_rules(service, globals),
            ).items[service.name@]
        }),
    decreases services.len(),
{
    let front = services.drop_last();
    if k < front.len() {
        assert(front[k] == services[k]);
        assert forall|j: int| 0 <= j < front.len() && j != k implies (
        #[trigger] front[j]).name@ != front[k].name@ by {
            assert(front[j] == services[j]);
        }
        lemma_service_item(setup, front, globals, k);
        assert(services[services.len() - 1].name@ != services[k].name@);
    }
}

proof fn lemma_task_item(
    setup: SetupView,
    tasks: Seq<TaskWatch>,
    globals: Seq<Seq<char>>,
    k: int,
)
    requires
        0 <= k < tasks.len(),
        tasks[k].watch@.len() > 0,
        forall|j: int|
            0 <= j < tasks.len() && j != k ==> (#[trigger] tasks[j]).name@ != tasks[k].name@,
    ensures
        ({
            let task = tasks[k];
            let items = with_tasks(setup, tasks, globals).items;
            &&& items.contains_key(task.name@)
            &&& items[task.name@] == setup.with_item(task_rules(task, globals)).items[task.name@]
        }),
    decreases tasks.len(),
{
    let front = tasks.drop_last();
    if k < front.len() {
        assert(front[k] == tasks[k]);
        assert forall|j: int| 0 <= j < front.len() && j != k implies (
        #[trigger] front[j]).name@ != front[k].name@ by {
            assert(front[j] == tasks[j]);
        }
        lemma_task_item(setup, front, globals, k);
        assert(tasks[tasks.len() - 1].name@ != tasks[k].name@);
    }
}

proof fn lemma_tasks_leave(
    setup: SetupView,
    tasks: Seq<TaskWatch>,
    globals: Seq<Seq<char>>,
    name: Seq<char>,
)
    requires
        forall|j: int| 0 <= j < tasks.len() ==> (#[trigger] tasks[j]).name@ != name,
    ensures
        with_tasks(setup, tasks, globals).items.contains_key(name)
            == setup.items.contains_key(name),
        setup.items.contains_key(name) ==> with_tasks(setup, tasks, globals).items[name]
            == setup.items[name],
    decreases tasks.len(),
{
    if tasks.len() > 0 {
        let front = tasks.drop_last();
        assert forall|j: int| 0 <= j < front.len() implies (#[trigger] front[j]).name@ != name by {
            assert(front[j] == tasks[j]);
        }
        lemma_tasks_leave(setup, front, globals, name);
        assert(tasks[tasks.len() - 1].name@ != name);
    }
}

/// What an item's own patterns and ignore patterns come to, beside those that
/// hold for the whole workspace.
proof fn lemma_item_rules(
    item: ItemView,
    path: Seq<char>,
    dir: Seq<char>,
    watch: Seq<Seq<char>>,
    ignore: Seq<Seq<char>>,
    base: Seq<char>,
    everywhere: Seq<Seq<char>>,
    i: int,
)
    requires
        item.patterns == well_formed(dir, watch),
        item.ignore_patterns == well_formed(dir, ignore + global_patterns(base, everywhere)),
    ensures
        0 <= i < watch.len() && pattern_fault(resolved_pattern(dir, watch[i])) is None
            ==> item.patterns.contains(resolved_pattern(dir, watch[i])),
        0 <= i < ignore.len() && pattern_fault(resolved_pattern(dir, ignore[i])) is None ==> {
            &&& item.ignore_patterns.contains(resolved_pattern(dir, ignore[i]))
            &&& pattern_match(resolved_pattern(dir, ignore[i]), path, true, true, false) == Some(
                true,
            ) ==> !concerns(item, path)
        },
        0 <= i < everywhere.len() && base.len() > 0 && base[0] == '/' && pattern_fault(
            resolved_pattern(base, everywhere[i]),
        ) is None ==> {
            &&& item.ignore_patterns.contains(resolved_pattern(base, everywhere[i]))
            &&& pattern_match(resolved_pattern(base, everywhere[i]), path, true, true, false)
                == Some(true) ==> !concerns(item, path)
        },
{
    let globals = global_patterns(base, everywhere);
    let all = ignore + globals;
    if 0 <= i < watch.len() {
        lemma_well_formed(dir, watch, resolved_pattern(dir, watch[i]));
    }
    if 0 <= i < ignore.len() && pattern_fault(resolved_pattern(dir, ignore[i])) is None {
        let full = resolved_pattern(dir, ignore[i]);
        lemma_well_formed(dir, all, full);
        assert(all[i] == ignore[i]);
        let at = choose|at: int|
            0 <= at < item.ignore_patterns.len() && item.ignore_patterns[at] == full;
        an_ignored_path_concerns_nobody(item, path, 0);
        assert(item.ignore_patterns[at] == full);
    }
    if 0 <= i < everywhere.len() && base.len() > 0 && base[0] == '/' && pattern_fault(
        resolved_pattern(base, everywhere[i]),
    ) is None {
        let full = resolved_pattern(base, everywhere[i]);
        lemma_globals(base, everywhere, i);
        let k = choose|k: int| 0 <= k < globals.len() && globals[k] == full;
        assert(full[0] == '/');
        assert(all[ignore.len() + k] == full);
        assert(resolved_pattern(dir, all[ignore.len() + k]) == full);
        lemma_well_formed(dir, all, full);
        let at = choose|at: int|
            0 <= at < item.ignore_patterns.len() && item.ignore_patterns[at] == full;
        an_ignored_path_concerns_nobody(item, path, 0);
        assert(item.ignore_patterns[at] == full);
    }
}

/// A service that is reloaded when its files change is watched under its name:
/// by each of its well formed patterns read in its directory, except for what
/// each of its own ignore patterns and each of the workspace's matches. It is
/// idle to begin with and waits as long as it says, or the default.
pub proof fn a_service_is_watched_as_configured(
    plan: WatchPlan,
    base: Seq<char>,
    config: WatchConfig,
    fault: Option<Seq<char>>,
    k: int,
    path: Seq<char>,
    i: int,
)
    requires
        plans(plan, base, config, fault),
        0 <= k < config.services@.len(),
        config.services@[k].reload,
        config.services@[k].watch@.len() > 0 || config.services@[k].preset != Preset::Other,
        config.services@[k].name@ != WORKSPACE_GRAPH_ITEM_NAME@,
        forall|j: int|
            0 <= j < config.services@.len() && j != k ==> (#[trigger] config.services@[j]).name@
                != config.services@[k].name@,
        forall|j: int|
            0 <= j < config.tasks@.len() ==> (#[trigger] config.tasks@[j]).name@
                != config.services@[k].name@,
    ensures
        plan.manager.watched().contains_key(config.services@[k].name@),
        ({
            let service = config.services@[k];
            let item = plan.manager.watched()[service.name@];
            let dir = service.dir@;
            &&& item.kind == WatchItemKind::Service
            &&& item.state == WatchState::Idle && !item.stale
            &&& item.debounce_deadline is None && item.last_error is None
            &&& service.debounce matches Debounce::After(ms) ==> item.debounce_duration == ms
            &&& service.debounce is Default ==> item.debounce_duration == 200
            &&& 0 <= i < service.watch@.len() && pattern_fault(
                resolved_pattern(dir, service.watch@[i]@),
            ) is None ==> item.patterns.contains(resolved_pattern(dir, service.watch@[i]@))
            &&& 0 <= i < service.ignore@.len() && pattern_fault(
                resolved_pattern(dir, service.ignore@[i]@),
            ) is None ==> {
                let full = resolved_pattern(dir, service.ignore@[i]@);
                &&& item.ignore_patterns.contains(full)
                &&& pattern_match(full, path, true, true, false) == Some(true) ==> !concerns(
                    item,
                    path,
                )
            }
            &&& 0 <= i < config.watch_ignore@.len() && base.len() > 0 && base[0] == '/'
                && pattern_fault(resolved_pattern(base, config.watch_ignore@[i]@)) is None ==> {
                let full = resolved_pattern(base, config.watch_ignore@[i]@);
                &&& item.ignore_patterns.contains(full)
                &&& pattern_match(full, path, true, true, false) == Some(true) ==> !concerns(
                    item,
                    path,
                )
            }
        }),
{
    let service = config.services@[k];
    let ignored = views(config.watch_ignore@);
    let globals = global_patterns(base, ignored);
    let start = SetupView {
        items: Map::empty(),
        roots: Seq::empty(),
        warnings: all_ignore_warnings(ignored, fault),
    };
    let first = with_services(start, config.services@, globals);
    assert(patterns_of(service).len() > 0);
    lemma_service_item(start, config.services@, globals, k);
    lemma_tasks_leave(first, config.tasks@, globals, service.name@);
    let item = plan.manager.watched()[service.name@];
    lemma_item_rules(
        item,
        path,
        service.dir@,
        patterns_of(service),
        views(service.ignore@),
        base,
        ignored,
        i,
    );
    if 0 <= i < service.watch@.len() {
        assert(views(service.watch@)[i] == service.watch@[i]@);
    }
    if 0 <= i < service.ignore@.len() {
        assert(views(service.ignore@)[i] == service.ignore@[i]@);
    }
    if 0 <= i < config.watch_ignore@.len() {
        assert(ignored[i] == config.watch_ignore@[i]@);
    }
}

/// A task that names patterns is watched under its name: by each of its well
/// formed patterns read in its directory, except for what each of its own ignore
/// patterns and each of the workspace's matches. It is idle to begin with and
/// waits the default.
pub proof fn a_task_is_watched_as_configured(
    plan: WatchPlan,
    base: Seq<char>,
    config: WatchConfig,
    fault: Option<Seq<char>>,
    k: int,
    path: Seq<char>,
    i: int,
)
    requires
        plans(plan, base, config, fault),
        0 <= k < config.tasks@.len(),
        config.tasks@[k].watch@.len() > 0,
        config.tasks@[k].name@ != WORKSPACE_GRAPH_ITEM_NAME@,
        forall|j: int|
            0 <= j < config.tasks@.len() && j != k ==> (#[trigger] config.tasks@[j]).name@
                != config.tasks@[k].name@,
    ensures
        plan.manager.watched().contains_key(config.tasks@[k].name@),
        ({
            let task = config.tasks@[k];
            let item = plan.manager.watched()[task.name@];
            let dir = task.dir@;
            &&& item.kind == WatchItemKind::Task
            &&& item.state == WatchState::Idle && !item.stale
            &&& item.debounce_deadline is None && item.last_error is None
            &&& item.debounce_duration == 200
            &&& 0 <= i < task.watch@.len() && pattern_fault(
                resolved_pattern(dir, task.watch@[i]@),
            ) is None ==> item.patterns.contains(resolved_pattern(dir, task.watch@[i]@))
            &&& 0 <= i < task.ignore@.len() && pattern_fault(
                resolved_pattern(dir, task.ignore@[i]@),
            ) is None ==> {
                let full = resolved_pattern(dir, task.ignore@[i]@);
                &&& item.ignore_patterns.contains(full)
                &&& pattern_match(full, path, true, true, false) == Some(true) ==> !concerns(
                    item,
                    path,
                )
            }
            &&& 0 <= i < config.watch_ignore@.len() && base.len() > 0 && base[0] == '/'
                && pattern_fault(resolved_pattern(base, config.watch_ignore@[i]@)) is None ==> {
                let full = resolved_pattern(base, config.watch_ignore@[i]@);
                &&& item.ignore_patterns.contains(full)
                &&& pattern_match(full, path, true, true, false) == Some(true) ==> !concerns(
                    item,
                    path,
                )
            }
        }),
{
    let task = config.tasks@[k];
    let ignored = views(config.watch_ignore@);
    let globals = global_patterns(base, ignored);
    let start = SetupView {
        items: Map::empty(),
        roots: Seq::empty(),
        warnings: all_ignore_warnings(ignored, fault),
    };
    let first = with_services(start, config.services@, globals);
    lemma_task_item(first, config.tasks@, globals, k);
    let item = plan.manager.watched()[task.name@];
    lemma_item_rules(
        item,
        path,
        task.dir@,
        views(task.watch@),
        views(task.ignore@),
        base,
        ignored,
        i,
    );
    if 0 <= i < task.watch@.len() {
        assert(views(task.watch@)[i] == task.watch@[i]@);
    }
    if 0 <= i < task.ignore@.len() {
        assert(views(task.ignore@)[i] == task.ignore@[i]@);
    }
    if 0 <= i < config.watch_ignore@.len() {
        assert(ignored[i] == config.watch_ignore@[i]@);
    }
}

/// A service that names no patterns is watched by those of its kind of project:
/// a Rust one by its sources and its two manifests, a Go one likewise, and any
/// other not at all.
pub proof fn a_preset_stands_in_for_patterns(service: ServiceWatch)
    ensures
        service.watch@.len() > 0 ==> patterns_of(service) == views(service.watch@),
        service.watch@.len() == 0 && service.preset == Preset::Rust ==> patterns_of(service)
            == seq!["src/**/*.rs"@, "Cargo.toml"@, "Cargo.lock"@],
        service.watch@.len() == 0 && service.preset == Preset::Go ==> patterns_of(service)
            == seq!["**/*.go"@, "go.mod"@, "go.sum"@],
        service.watch@.len() == 0 && service.preset == Preset::Other ==> !is_watched(service),
        !service.reload ==> !is_watched(service),
        service.reload && service.watch@.len() > 0 ==> is_watched(service),
{
}

proof fn lemma_roots_grow_services(
    setup: SetupView,
    services: Seq<ServiceWatch>,
    globals: Seq<Seq<char>>,
    k: int,
    dir: Seq<char>,
)
    requires
        0 <= k < services.len(),
        is_watched(services[k]),
        watch_dirs(well_formed(services[k].dir@, patterns_of(services[k]))).contains(dir),
    ensures
        with_services(setup, services, globals).roots.contains(dir),
    decreases services.len(),
{
    let front = services.drop_last();
    let before = with_services(setup, front, globals);
    let after = with_services(setup, services, globals);
    assert(before.roots.is_prefix_of(after.roots));
    if k < front.len() {
        assert(front[k] == services[k]);
        lemma_roots_grow_services(setup, front, globals, k, dir);
        let i = choose|i: int| 0 <= i < before.roots.len() && before.roots[i] == dir;
        assert(after.roots[i] == dir);
    } else {
        let more = watch_dirs(well_formed(services[k].dir@, patterns_of(services[k])));
        let i = choose|i: int| 0 <= i < more.len() && more[i] == dir;
        assert(after.roots[before.roots.len() + i] == dir);
    }
}

proof fn lemma_roots_kept(
    setup: SetupView,
    tasks: Seq<TaskWatch>,
    globals: Seq<Seq<char>>,
    dir: Seq<char>,
)
    requires
        setup.roots.contains(dir),
    ensures
        with_tasks(setup, tasks, globals).roots.contains(dir),
    decreases tasks.len(),
{
    if tasks.len() > 0 {
        lemma_roots_kept(setup, tasks.drop_last(), globals, dir);
        let before = with_tasks(setup, tasks.drop_last(), globals);
        let after = with_tasks(setup, tasks, globals);
        assert(before.roots.is_prefix_of(after.roots));
        let i = choose|i: int| 0 <= i < before.roots.len() && before.roots[i] == dir;
        assert(after.roots[i] == dir);
    }
}

proof fn lemma_roots_grow_tasks(
    setup: SetupView,
    tasks: Seq<TaskWatch>,
    globals: Seq<Seq<char>>,
    k: int,
    dir: Seq<char>,
)
    requires
        0 <= k < tasks.len(),
        tasks[k].watch@.len() > 0,
        watch_dirs(well_formed(tasks[k].dir@, views(tasks[k].watch@))).contains(dir),
    ensures
        with_tasks(setup, tasks, globals).roots.contains(dir),
    decreases tasks.len(),
{
    let front = tasks.drop_last();
    let before = with_tasks(setup, front, globals);
    let after = with_tasks(setup, tasks, globals);
    assert(before.roots.is_prefix_of(after.roots));
    if k < front.len() {
        assert(front[k] == tasks[k]);
        lemma_roots_grow_tasks(setup, front, globals, k, dir);
        let i = choose|i: int| 0 <= i < before.roots.len() && before.roots[i] == dir;
        assert(after.roots[i] == dir);
    } else {
        let more = watch_dirs(well_formed(tasks[k].dir@, views(tasks[k].watch@)));
        let i = choose|i: int| 0 <= i < more.len() && more[i] == dir;
        assert(after.roots[before.roots.len() + i] == dir);
    }
}

proof fn lemma_dir_of(dir: Seq<char>, patterns: Seq<Seq<char>>, i: int)
    requires
        0 <= i < patterns.len(),
        pattern_fault(resolved_pattern(dir, patterns[i])) is None,
    ensures
        watch_dirs(well_formed(dir, patterns)).contains(
            watch_dir_of(resolved_pattern(dir, patterns[i])),
        ),
{
    let full = resolved_pattern(dir, patterns[i]);
    lemma_well_formed(dir, patterns, full);
    let kept = well_formed(dir, patterns);
    let k = choose|k: int| 0 <= k < kept.len() && kept[k] == full;
    assert(watch_dirs(kept)[k] == watch_dir_of(full));
}

/// For every well formed pattern of what is watched the directory that it is
/// watched from is among those to be watched.
pub proof fn every_pattern_has_its_directory_watched(
    plan: WatchPlan,
    base: Seq<char>,
    config: WatchConfig,
    fault: Option<Seq<char>>,
    k: int,
    i: int,
)
    requires
        plans(plan, base, config, fault),
    ensures
        0 <= k < config.services@.len() && config.services@[k].reload && 0 <= i
            < config.services@[k].watch@.len() && pattern_fault(
            resolved_pattern(config.services@[k].dir@, config.services@[k].watch@[i]@),
        ) is None ==> views(plan.roots@).contains(
            watch_dir_of(
                resolved_pattern(config.services@[k].dir@, config.services@[k].watch@[i]@),
            ),
        ),
        0 <= k < config.tasks@.len() && 0 <= i < config.tasks@[k].watch@.len() && pattern_fault(
            resolved_pattern(config.tasks@[k].dir@, config.tasks@[k].watch@[i]@),
        ) is None ==> views(plan.roots@).contains(
            watch_dir_of(resolved_pattern(config.tasks@[k].dir@, config.tasks@[k].watch@[i]@)),
        ),
{
    let ignored = views(config.watch_ignore@);
    let globals = global_patterns(base, ignored);
    let start = SetupView {
        items: Map::empty(),
        roots: Seq::empty(),
        warnings: all_ignore_warnings(ignored, fault),
    };
    let first = with_services(start, config.services@, globals);
    if 0 <= k < config.services@.len() && config.services@[k].reload && 0 <= i
        < config.services@[k].watch@.len() && pattern_fault(
        resolved_pattern(config.services@[k].dir@, config.services@[k].watch@[i]@),
    ) is None {
        let service = config.services@[k];
        assert(views(service.watch@)[i] == service.watch@[i]@);
        lemma_dir_of(service.dir@, views(service.watch@), i);
        let dir = watch_dir_of(resolved_pattern(service.dir@, service.watch@[i]@));
        lemma_roots_grow_services(start, config.services@, globals, k, dir);
        lemma_roots_kept(first, config.tasks@, globals, dir);
    }
    if 0 <= k < config.tasks@.len() && 0 <= i < config.tasks@[k].watch@.len() && pattern_fault(
        resolved_pattern(config.tasks@[k].dir@, config.tasks@[k].watch@[i]@),
    ) is None {
        let task = config.tasks@[k];
        assert(views(task.watch@)[i] == task.watch@[i]@);
        lemma_dir_of(task.dir@, views(task.watch@), i);
        let dir = watch_dir_of(resolved_pattern(task.dir@, task.watch@[i]@));
        lemma_roots_grow_tasks(first, config.tasks@, globals, k, dir);
    }
}

/// Where something that is reloaded has its build watched, the files at the root
/// of the workspace that describe it are watched as a build graph of their own:
/// those of Bazel for the one and those of Turborepo for the other.
pub proof fn the_workspace_is_watched_for_its_build_tools(
    plan: WatchPlan,
    base: Seq<char>,
    config: WatchConfig,
    fault: Option<Seq<char>>,
    k: int,
    file: Seq<char>,
)
    requires
        plans(plan, base, config, fault),
        0 <= k < config.services@.len(),
        config.services@[k].reload,
        config.services@[k].bazel_watch && (file == "WORKSPACE"@ || file == "WORKSPACE.bazel"@
            || file == "MODULE.bazel"@) || config.services@[k].turbo_watch && (file == "turbo.json"@
            || file == "turbo.jsonc"@ || file == "pnpm-workspace.yaml"@),
        pattern_fault(resolved_pattern(base, file)) is None,
    ensures
        plan.watches_workspace,
        plan.manager.watched().contains_key(WORKSPACE_GRAPH_ITEM_NAME@),
        ({
            let item = plan.manager.watched()[WORKSPACE_GRAPH_ITEM_NAME@];
            &&& item.kind == WatchItemKind::BuildGraph
            &&& item.state == WatchState::Idle
            &&& item.debounce_duration == 200
            &&& item.patterns.contains(resolved_pattern(base, file))
        }),
{
    let files = root_files(has_bazel(config), has_turbo(config));
    let bazel: Seq<Seq<char>> = seq!["WORKSPACE"@, "WORKSPACE.bazel"@, "MODULE.bazel"@];
    let turbo: Seq<Seq<char>> = seq!["turbo.json"@, "turbo.jsonc"@, "pnpm-workspace.yaml"@];
    let full = resolved_pattern(base, file);
    if config.services@[k].bazel_watch && (file == "WORKSPACE"@ || file == "WORKSPACE.bazel"@
        || file == "MODULE.bazel"@) {
        assert(has_bazel(config));
        assert(bazel[0] == "WORKSPACE"@ && bazel[1] == "WORKSPACE.bazel"@ && bazel[2]
            == "MODULE.bazel"@);
        let i = choose|i: int| 0 <= i < bazel.len() && bazel[i] == file;
        assert(files[i] == file);
    } else {
        assert(has_turbo(config));
        assert(turbo[0] == "turbo.json"@ && turbo[1] == "turbo.jsonc"@ && turbo[2]
            == "pnpm-workspace.yaml"@);
        let i = choose|i: int| 0 <= i < turbo.len() && turbo[i] == file;
        assert(files[files.len() - turbo.len() + i] == file);
    }
    assert(files.contains(file));
    let at = choose|at: int| 0 <= at < files.len() && files[at] == file;
    assert(resolved_pattern(base, files[at]) == full);
    lemma_well_formed(base, files, full);
}

/// A pattern that is not well formed is told with the name of what it belongs to
/// and why, and everything else is watched all the same.
pub proof fn a_bad_pattern_is_told_by_name(
    name: Seq<char>,
    what: Seq<char>,
    dir: Seq<char>,
    patterns: Seq<Seq<char>>,
    i: int,
)
    requires
        0 <= i < patterns.len(),
        pattern_fault(resolved_pattern(dir, patterns[i])) is Some,
    ensures
        exists|k: int|
            0 <= k < fault_texts(name, what, dir, patterns).len() && #[trigger] fault_texts(
                name,
                what,
                dir,
                patterns,
            )[k] == name + ": invalid "@ + what + " pattern '"@ + patterns[i] + "': "@
                + pattern_fault(resolved_pattern(dir, patterns[i]))->0,
    decreases patterns.len(),
{
    let front = patterns.drop_last();
    let before = fault_texts(name, what, dir, front);
    let all = fault_texts(name, what, dir, patterns);
    let text = name + ": invalid "@ + what + " pattern '"@ + patterns[i] + "': "@ + pattern_fault(
        resolved_pattern(dir, patterns[i]),
    )->0;
    if i < front.len() {
        assert(front[i] == patterns[i]);
        a_bad_pattern_is_told_by_name(name, what, dir, front, i);
        let k = choose|k: int| 0 <= k < before.len() && #[trigger] before[k] == text;
        assert(all[k] == text);
    } else {
        assert(all[all.len() - 1] == text);
    }
}

/// A configuration is refused for the first of its services whose wait for quiet
/// is no duration, with what was written there; a service that is not watched is
/// not looked at.
pub proof fn the_first_bad_wait_is_reported(services: Seq<ServiceWatch>, error: WatchError)
    requires
        is_first_fault(services, error),
    ensures
        exists|i: int|
            {
                &&& 0 <= i < services.len()
                &&& (#[trigger] services[i]).reload
                &&& services[i].debounce matches Debounce::Invalid(why) && error
                    == WatchError::Duration(why)
                &&& forall|j: int|
                    0 <= j < i ==> !(#[trigger] services[j]).reload
                        || !(services[j].debounce is Invalid) || patterns_of(services[j]).len() == 0
            },
{
    let i = choose|i: int|
        {
            &&& 0 <= i < services.len()
            &&& is_misconfigured(#[trigger] services[i])
            &&& forall|j: int| 0 <= j < i ==> !is_misconfigured(#[trigger] services[j])
            &&& error == WatchError::Duration(services[i].debounce->Invalid_0)
        };
    assert(services[i].reload);
}

/// What is said of an error ends with the reason for it.
pub proof fn an_error_is_told_with_its_reason(why: String, dir: String)
    ensures
        has_suffix(WatchError::Notify(why).words(), why@),
        has_suffix(WatchError::Duration(why).words(), why@),
        has_suffix(WatchError::Io(dir, why).words(), why@),
        "notify error: "@.is_prefix_of(WatchError::Notify(why).words()),
        "invalid debounce duration: "@.is_prefix_of(WatchError::Duration(why).words()),
        ("failed to create watch directory "@ + dir@).is_prefix_of(
            WatchError::Io(dir, why).words(),
        ),
{
    let a = WatchError::Notify(why).words();
    let b = WatchError::Duration(why).words();
    let c = WatchError::Io(dir, why).words();
    assert(a.skip(a.len() - why@.len()) =~= why@);
    assert(b.skip(b.len() - why@.len()) =~= why@);
    assert(c.skip(c.len() - why@.len()) =~= why@);
}

proof fn lemma_valid(patterns: Seq<Seq<char>>, pattern: Seq<char>)
    ensures
        valid_patterns(patterns).contains(pattern) <==> patterns.contains(pattern)
            && pattern_fault(pattern) is None,
    decreases patterns.len(),
{
    if patterns.len() > 0 {
        let front = patterns.drop_last();
        let before = valid_patterns(front);
        let all = valid_patterns(patterns);
        lemma_valid(front, pattern);
        if all.contains(pattern) {
            let k = choose|k: int| 0 <= k < all.len() && all[k] == pattern;
            if k < before.len() {
                assert(before[k] == pattern);
                let i = choose|i: int| 0 <= i < front.len() && front[i] == pattern;
                assert(patterns[i] == pattern);
            } else {
                assert(patterns[patterns.len() - 1] == pattern);
            }
        }
        if patterns.contains(pattern) && pattern_fault(pattern) is None {
            let i = choose|i: int| 0 <= i < patterns.len() && patterns[i] == pattern;
            if i < front.len() {
                assert(front[i] == pattern);
                let k = choose|k: int| 0 <= k < before.len() && before[k] == pattern;
                assert(all[k] == pattern);
            } else {
                assert(all.last() == pattern);
            }
        }
    }
}

/// What the whole workspace ignores is dropped before any item sees it: every
/// well formed pattern to ignore is among those that changed paths are held
/// against, and so is the directory of one that ends in `/**`.
pub proof fn what_the_workspace_ignores_is_dropped(
    plan: WatchPlan,
    base: Seq<char>,
    config: WatchConfig,
    fault: Option<Seq<char>>,
    i: int,
)
    requires
        plans(plan, base, config, fault),
        0 <= i < config.watch_ignore@.len(),
    ensures
        ({
            let pattern = config.watch_ignore@[i]@;
            let kept = views(plan.manager.global_ignore@);
            let full = resolved_pattern(base, pattern);
            let dir = resolved_pattern(base, pattern.take(pattern.len() - 3));
            &&& pattern_fault(full) is None ==> kept.contains(full)
            &&& has_suffix(pattern, "/**"@) && pattern_fault(dir) is None ==> kept.contains(dir)
        }),
{
    let ignored = views(config.watch_ignore@);
    let globals = global_patterns(base, ignored);
    let pattern = config.watch_ignore@[i]@;
    assert(ignored[i] == pattern);
    lemma_globals(base, ignored, i);
    lemma_valid(globals, resolved_pattern(base, pattern));
    lemma_valid(globals, resolved_pattern(base, pattern.take(pattern.len() - 3)));
}

} // verus!
