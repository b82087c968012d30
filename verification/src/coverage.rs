//! Which directories are registered with the system, and what has to be
//! registered for a set of directories to be watched.
use crate::names::{views, NameMap};
use crate::paths::{parts_of, Components, PathParts};
use vstd::prelude::*;

verus! {

/// How far down a directory is watched.
#[derive(Debug, Clone, Copy, PartialEq, Eq, Structural)]
pub enum RecursiveMode {
    /// Everything under it.
    Recursive,
    /// What is directly in it.
    NonRecursive,
}

/// How a mode is reported.
pub open spec fn mode_label(mode: RecursiveMode) -> Seq<char> {
    match mode {
        RecursiveMode::Recursive => "recursive"@,
        RecursiveMode::NonRecursive => "non-recursive"@,
    }
}

/// How a mode is reported.
pub fn recursive_mode_label(mode: RecursiveMode) -> (r: &'static str)
    ensures
        r@ == mode_label(mode),
{
    match mode {
        RecursiveMode::Recursive => "recursive",
        RecursiveMode::NonRecursive => "non-recursive",
    }
}

/// Whether a directory that is watched all the way down holds a path.
pub open spec fn under_recursive(path: PathParts, watched: Map<Seq<char>, RecursiveMode>) -> bool {
    exists|dir: Seq<char>| #[trigger]
        watched.contains_key(dir) && watched[dir] == RecursiveMode::Recursive && path.under(
            parts_of(dir),
        )
}

/// Whether a directory is watched, however its path is written.
pub open spec fn is_watched(dir: Seq<char>, watched: Map<Seq<char>, RecursiveMode>) -> bool {
    exists|key: Seq<char>| #[trigger]
        watched.contains_key(key) && parts_of(key) == parts_of(dir)
}

/// Whether a directory is watched in a mode, however its path is written.
pub open spec fn is_watched_as(
    dir: Seq<char>,
    mode: RecursiveMode,
    watched: Map<Seq<char>, RecursiveMode>,
) -> bool {
    exists|key: Seq<char>| #[trigger]
        watched.contains_key(key) && parts_of(key) == parts_of(dir) && watched[key] == mode
}

/// Whether a request is met by what is watched: by a directory watched all the
/// way down that holds it, or, for a shallow request, by any watch of the same
/// directory.
pub open spec fn covered(
    path: Seq<char>,
    mode: RecursiveMode,
    watched: Map<Seq<char>, RecursiveMode>,
) -> bool {
    under_recursive(parts_of(path), watched) || mode == RecursiveMode::NonRecursive && is_watched(
        path,
        watched,
    )
}

/// Whether a request is met by what is watched.
pub fn is_covered(path: &str, mode: RecursiveMode, existing: &NameMap<RecursiveMode>) -> (r: bool)
    ensures
        r == covered(path@, mode, existing@),
{
    let components = Components::of(path);
    let n: usize = existing.len();
    let mut i: usize = 0;
    while i < n
        invariant
            i <= n,
            n == existing.order().len(),
            existing.order().to_set() == existing@.dom(),
            components@ == parts_of(path@),
            forall|j: int|
                0 <= j < i ==> !(existing@[#[trigger] existing.order()[j]]
                    == RecursiveMode::Recursive && components@.under(
                    parts_of(existing.order()[j]),
                )),
        decreases n - i,
    {
        if *existing.value_at(i) == RecursiveMode::Recursive {
            let dir = Components::of(existing.key_at(i).as_str());
            if components.starts_with(&dir) {
                assert(existing@.contains_key(existing.order()[i as int]));
                return true;
            }
        }
        i += 1;
    }
    proof {
        if under_recursive(parts_of(path@), existing@) {
            let dir = choose|dir: Seq<char>| #[trigger]
                existing@.contains_key(dir) && existing@[dir] == RecursiveMode::Recursive
                    && parts_of(path@).under(parts_of(dir));
            assert(existing.order().to_set().contains(dir));
            assert(existing.order().contains(dir));
            let j = existing.order().index_of(dir);
            assert(existing.order()[j] == dir);
        }
    }
    mode == RecursiveMode::NonRecursive && watch_of(path, existing).0
}

/// Whether a directory is watched, and whether it is watched shallowly.
fn watch_of(dir: &str, watched: &NameMap<RecursiveMode>) -> (r: (bool, bool))
    ensures
        r.0 == is_watched(dir@, watched@),
        r.1 == is_watched_as(dir@, RecursiveMode::NonRecursive, watched@),
{
    let components = Components::of(dir);
    let n: usize = watched.len();
    let mut any = false;
    let mut shallow = false;
    let mut i: usize = 0;
    while i < n
        invariant
            i <= n,
            n == watched.order().len(),
            watched.order().to_set() == watched@.dom(),
            components@ == parts_of(dir@),
            any ==> is_watched(dir@, watched@),
            !any ==> (forall|j: int|
                0 <= j < i ==> parts_of(#[trigger] watched.order()[j]) != parts_of(dir@)),
            shallow ==> is_watched_as(dir@, RecursiveMode::NonRecursive, watched@),
            !shallow ==> (forall|j: int|
                0 <= j < i ==> !(parts_of(#[trigger] watched.order()[j]) == parts_of(dir@)
                    && watched@[watched.order()[j]] == RecursiveMode::NonRecursive)),
        decreases n - i,
    {
        let key = watched.key_at(i);
        if components.same_as(&Components::of(key.as_str())) {
            assert(watched@.contains_key(key@));
            any = true;
            if *watched.value_at(i) == RecursiveMode::NonRecursive {
                shallow = true;
            }
        }
        i += 1;
    }
    proof {
        assert forall|key: Seq<char>| #[trigger] watched@.contains_key(key) implies exists|j: int|
            0 <= j < n && #[trigger] watched.order()[j] == key by {
            assert(watched.order().to_set().contains(key));
            let j = watched.order().index_of(key);
            assert(watched.order()[j] == key);
        }
    }
    (any, shallow)
}

/// A directory to register, and how.
#[derive(Debug)]
pub struct WatchAction {
    pub dir: String,
    pub mode: RecursiveMode,
    /// A shallow watch of the same directory has to go first.
    pub replace: bool,
}

/// A directory to watch.
pub struct Request {
    pub dir: Seq<char>,
    pub mode: RecursiveMode,
}

/// A directory to register, as a reader of contracts sees it.
pub struct Planned {
    pub dir: Seq<char>,
    pub mode: RecursiveMode,
    pub replace: bool,
}

impl View for WatchAction {
    type V = Planned;

    open spec fn view(&self) -> Planned {
        Planned { dir: self.dir@, mode: self.mode, replace: self.replace }
    }
}

/// The requests of a list.
pub open spec fn requests(list: Seq<(String, RecursiveMode)>) -> Seq<Request> {
    Seq::new(list.len(), |i: int| Request { dir: list[i].0@, mode: list[i].1 })
}

/// The actions of a list.
pub open spec fn planned(list: Seq<WatchAction>) -> Seq<Planned> {
    Seq::new(list.len(), |i: int| list[i]@)
}

/// How deep a request's directory is.
pub open spec fn depth_of(request: Request) -> int {
    parts_of(request.dir).depth()
}

/// The requests at one depth, in their order.
pub open spec fn at_depth(list: Seq<Request>, depth: int) -> Seq<Request>
    decreases list.len(),
{
    if list.len() == 0 {
        Seq::empty()
    } else {
        let before = at_depth(list.drop_last(), depth);
        if depth_of(list.last()) == depth {
            before.push(list.last())
        } else {
            before
        }
    }
}

/// The requests less deep than a limit, the shallowest first, those of one
/// depth in their order.
pub open spec fn by_depth(list: Seq<Request>, limit: int) -> Seq<Request>
    decreases limit,
{
    if limit <= 0 {
        Seq::empty()
    } else {
        by_depth(list, limit - 1) + at_depth(list, limit - 1)
    }
}

/// A number that no request of a list is as deep as.
pub open spec fn depth_limit(list: Seq<Request>) -> int
    decreases list.len(),
{
    if list.len() == 0 {
        0
    } else {
        let before = depth_limit(list.drop_last());
        if depth_of(list.last()) >= before {
            depth_of(list.last()) + 1
        } else {
            before
        }
    }
}

/// The requests of a list, the shallowest directories first.
pub open spec fn ancestors_first(list: Seq<Request>) -> Seq<Request> {
    by_depth(list, depth_limit(list))
}

/// What is watched once an action is done. A directory that was watched keeps
/// the writing it is known by.
pub open spec fn with_action(
    watched: Map<Seq<char>, RecursiveMode>,
    action: Planned,
) -> Map<Seq<char>, RecursiveMode> {
    if is_watched(action.dir, watched) {
        Map::new(
            |key: Seq<char>| watched.contains_key(key),
            |key: Seq<char>|
                if parts_of(key) == parts_of(action.dir) {
                    action.mode
                } else {
                    watched[key]
                },
        )
    } else {
        watched.insert(action.dir, action.mode)
    }
}

/// What is watched once some actions are done.
pub open spec fn with_actions(
    watched: Map<Seq<char>, RecursiveMode>,
    actions: Seq<Planned>,
) -> Map<Seq<char>, RecursiveMode>
    decreases actions.len(),
{
    if actions.len() == 0 {
        watched
    } else {
        with_action(with_actions(watched, actions.drop_last()), actions.last())
    }
}

/// The action that meets a request.
pub open spec fn action_for(
    request: Request,
    watched: Map<Seq<char>, RecursiveMode>,
) -> Planned {
    Planned {
        dir: request.dir,
        mode: request.mode,
        replace: request.mode == RecursiveMode::Recursive && is_watched_as(
            request.dir,
            RecursiveMode::NonRecursive,
            watched,
        ),
    }
}

/// The actions that meet a list of requests in turn: one for each request that
/// what is watched by then does not meet.
pub open spec fn plan(
    list: Seq<Request>,
    watched: Map<Seq<char>, RecursiveMode>,
) -> Seq<Planned>
    decreases list.len(),
{
    if list.len() == 0 {
        Seq::empty()
    } else {
        let before = plan(list.drop_last(), watched);
        let now = with_actions(watched, before);
        if covered(list.last().dir, list.last().mode, now) {
            before
        } else {
            before.push(action_for(list.last(), now))
        }
    }
}

fn copy_table(table: &NameMap<RecursiveMode>) -> (r: NameMap<RecursiveMode>)
    ensures
        r@ == table@,
        r.order() == table.order(),
{
    let mut out: NameMap<RecursiveMode> = NameMap::new();
    let n: usize = table.len();
    let mut i: usize = 0;
    let ghost order = table.order();
    proof {
        assert(order.take(0) =~= Seq::<Seq<char>>::empty());
        assert(out@ =~= table@.restrict(order.take(0).to_set()));
    }
    while i < n
        invariant
            i <= n,
            n == order.len(),
            order == table.order(),
            order.no_duplicates(),
            order.to_set() == table@.dom(),
            out.order() == order.take(i as int),
            out@ == table@.restrict(order.take(i as int).to_set()),
        decreases n - i,
    {
        let key = table.key_at(i);
        let mode = *table.value_at(i);
        let ghost before = out@;
        proof {
            assert(order.take(i + 1) =~= order.take(i as int).push(order[i as int]));
            assert(!order.take(i as int).contains(order[i as int]));
            assert(!before.contains_key(order[i as int]));
            crate::names::lemma_take_set(order, i as int);
        }
        out.insert(key.clone(), mode);
        assert(out@ =~= table@.restrict(order.take(i + 1).to_set()));
        i += 1;
    }
    assert(order.take(n as int) =~= order);
    assert(out@ =~= table@);
    out
}

fn limit_of(depths: &Vec<u128>, Ghost(list): Ghost<Seq<Request>>) -> (r: u128)
    requires
        depths@.len() == list.len(),
        forall|i: int| 0 <= i < list.len() ==> #[trigger] depths@[i] == depth_of(list[i]),
        forall|i: int| 0 <= i < list.len() ==> #[trigger] depths@[i] < u128::MAX,
    ensures
        r as int == depth_limit(list),
{
    let mut limit: u128 = 0;
    let mut i: usize = 0;
    assert(list.take(0) =~= Seq::<Request>::empty());
    while i < depths.len()
        invariant
            i <= depths@.len(),
            depths@.len() == list.len(),
            forall|i: int| 0 <= i < list.len() ==> #[trigger] depths@[i] == depth_of(list[i]),
            forall|i: int| 0 <= i < list.len() ==> #[trigger] depths@[i] < u128::MAX,
            limit as int == depth_limit(list.take(i as int)),
        decreases depths@.len() - i,
    {
        proof {
            assert(list.take(i + 1).drop_last() =~= list.take(i as int));
            assert(list.take(i + 1).last() == list[i as int]);
        }
        if depths[i] >= limit {
            limit = depths[i] + 1;
        }
        i += 1;
    }
    assert(list.take(list.len() as int) =~= list);
    limit
}

/// The places of a list's requests, the shallowest directories first.
fn order_by_depth(desired: &Vec<(String, RecursiveMode)>) -> (r: Vec<usize>)
    ensures
        forall|i: int| 0 <= i < r@.len() ==> (#[trigger] r@[i]) < desired@.len(),
        Seq::new(r@.len(), |i: int| requests(desired@)[r@[i] as int]) == ancestors_first(
            requests(desired@),
        ),
{
    let ghost list = requests(desired@);
    let mut depths: Vec<u128> = Vec::new();
    let mut i: usize = 0;
    while i < desired.len()
        invariant
            i <= desired@.len(),
            list == requests(desired@),
            depths@.len() == i,
            forall|j: int| 0 <= j < i ==> #[trigger] depths@[j] == depth_of(list[j]),
            forall|j: int| 0 <= j < i ==> #[trigger] depths@[j] < u128::MAX,
        decreases desired@.len() - i,
    {
        let components = Components::of(desired[i].0.as_str());
        let depth: u128 = components.depth();
        depths.push(depth);
        i += 1;
    }
    let limit: u128 = limit_of(&depths, Ghost(list));
    let mut out: Vec<usize> = Vec::new();
    let mut depth: u128 = 0;
    assert(Seq::new(out@.len(), |i: int| list[out@[i] as int]) =~= by_depth(list, 0));
    while depth < limit
        invariant
            depth <= limit,
            list == requests(desired@),
            depths@.len() == desired@.len(),
            forall|j: int| 0 <= j < list.len() ==> #[trigger] depths@[j] == depth_of(list[j]),
            forall|i: int| 0 <= i < out@.len() ==> (#[trigger] out@[i]) < desired@.len(),
            Seq::new(out@.len(), |i: int| list[out@[i] as int]) == by_depth(list, depth as int),
        decreases limit - depth,
    {
        let mut j: usize = 0;
        let ghost before = by_depth(list, depth as int);
        assert(list.take(0) =~= Seq::<Request>::empty());
        assert(Seq::new(out@.len(), |i: int| list[out@[i] as int]) =~= before + at_depth(
            list.take(0),
            depth as int,
        ));
        while j < depths.len()
            invariant
                j <= depths@.len(),
                list == requests(desired@),
                depths@.len() == desired@.len(),
                forall|j: int| 0 <= j < list.len() ==> #[trigger] depths@[j] == depth_of(list[j]),
                forall|i: int| 0 <= i < out@.len() ==> (#[trigger] out@[i]) < desired@.len(),
                Seq::new(out@.len(), |i: int| list[out@[i] as int]) == before + at_depth(
                    list.take(j as int),
                    depth as int,
                ),
            decreases depths@.len() - j,
        {
            let ghost so_far = Seq::new(out@.len(), |i: int| list[out@[i] as int]);
            proof {
                assert(list.take(j + 1).drop_last() =~= list.take(j as int));
                assert(list.take(j + 1).last() == list[j as int]);
            }
            if depths[j] == depth {
                out.push(j);
                assert(Seq::new(out@.len(), |i: int| list[out@[i] as int]) =~= so_far.push(
                    list[j as int],
                ));
                assert(Seq::new(out@.len(), |i: int| list[out@[i] as int]) =~= before + at_depth(
                    list.take(j + 1),
                    depth as int,
                ));
            }
            j += 1;
        }
        assert(list.take(list.len() as int) =~= list);
        depth += 1;
    }
    out
}

/// Notes that a directory is watched.
fn register(watched: &mut NameMap<RecursiveMode>, dir: &String, mode: RecursiveMode)
    ensures
        forall|replace: bool|
            final(watched)@ == #[trigger] with_action(
                old(watched)@,
                Planned { dir: dir@, mode, replace },
            ),
{
    let ghost before = watched@;
    let ghost order = watched.order();
    let components = Components::of(dir.as_str());
    let n: usize = watched.len();
    let mut known = false;
    let mut i: usize = 0;
    while i < n
        invariant
            i <= n,
            n == order.len(),
            order.no_duplicates(),
            order.to_set() == before.dom(),
            watched.order() == order,
            watched@.dom() == before.dom(),
            components@ == parts_of(dir@),
            known ==> is_watched(dir@, before),
            !known ==> (forall|j: int|
                0 <= j < i ==> parts_of(#[trigger] order[j]) != parts_of(dir@)),
            !known ==> watched@ == before,
            forall|j: int|
                0 <= j < i ==> watched@[#[trigger] order[j]] == (if parts_of(order[j]) == parts_of(
                    dir@,
                ) {
                    mode
                } else {
                    before[order[j]]
                }),
            forall|j: int| i <= j < n ==> watched@[#[trigger] order[j]] == before[order[j]],
        decreases n - i,
    {
        assert(order.contains(order[i as int]));
        assert(before.dom().contains(order[i as int]));
        if components.same_as(&Components::of(watched.key_at(i).as_str())) {
            let key = watched.key_at(i).clone();
            watched.insert(key, mode);
            known = true;
            assert(before.contains_key(order[i as int]));
            assert(watched@.dom() =~= before.dom());
        }
        i += 1;
    }
    assert forall|key: Seq<char>| #[trigger] before.contains_key(key) implies exists|j: int|
        0 <= j < n && #[trigger] order[j] == key by {
        assert(order.to_set().contains(key));
        let j = order.index_of(key);
        assert(order[j] == key);
    }
    if !known {
        assert(!is_watched(dir@, before));
        watched.insert(dir.clone(), mode);
    }
    assert forall|replace: bool|
        watched@ == #[trigger] with_action(before, Planned { dir: dir@, mode, replace }) by {
        let after = with_action(before, Planned { dir: dir@, mode, replace });
        if known {
            assert forall|key: Seq<char>| #[trigger] after.contains_key(key) implies watched@[key]
                == after[key] by {
                assert(before.contains_key(key));
            }
            assert(watched@ =~= after);
        }
    }
}

/// The actions that meet a set of requests. Ancestors come first, so that one
/// watched all the way down spares what is under it.
pub fn reconcile_watches(
    desired: &Vec<(String, RecursiveMode)>,
    registered: &NameMap<RecursiveMode>,
) -> (r: Vec<WatchAction>)
    ensures
        planned(r@) == plan(ancestors_first(requests(desired@)), registered@),
{
    let places = order_by_depth(desired);
    let ghost ordered = ancestors_first(requests(desired@));
    let mut watched = copy_table(registered);
    let mut actions: Vec<WatchAction> = Vec::new();
    let mut i: usize = 0;
    proof {
        assert(ordered.take(0) =~= Seq::<Request>::empty());
        assert(planned(actions@) =~= plan(ordered.take(0), registered@));
    }
    while i < places.len()
        invariant
            i <= places@.len(),
            forall|i: int| 0 <= i < places@.len() ==> (#[trigger] places@[i]) < desired@.len(),
            Seq::new(places@.len(), |i: int| requests(desired@)[places@[i] as int]) == ordered,
            planned(actions@) == plan(ordered.take(i as int), registered@),
            watched@ == with_actions(registered@, planned(actions@)),
        decreases places@.len() - i,
    {
        let (dir, mode) = &desired[places[i]];
        let ghost before = planned(actions@);
        proof {
            assert(ordered.take(i + 1).drop_last() =~= ordered.take(i as int));
            assert(ordered.take(i + 1).last() == ordered[i as int]);
            assert(ordered[i as int] == requests(desired@)[places@[i as int] as int]);
        }
        if !is_covered(dir.as_str(), *mode, &watched) {
            let shallow = watch_of(dir.as_str(), &watched).1;
            let action = WatchAction {
                dir: dir.clone(),
                mode: *mode,
                replace: *mode == RecursiveMode::Recursive && shallow,
            };
            let ghost done = action@;
            actions.push(action);
            register(&mut watched, dir, *mode);
            proof {
                assert(planned(actions@) =~= before.push(done));
                assert(before.push(done).drop_last() =~= before);
            }
        }
        i += 1;
    }
    assert(ordered.take(ordered.len() as int) =~= ordered);
    actions
}

/// What is watched covers no less once a directory is watched that was not
/// watched all the way down.
proof fn lemma_covered_grows(
    path: Seq<char>,
    mode: RecursiveMode,
    watched: Map<Seq<char>, RecursiveMode>,
    action: Planned,
)
    requires
        covered(path, mode, watched),
        !is_watched_as(action.dir, RecursiveMode::Recursive, watched),
    ensures
        covered(path, mode, with_action(watched, action)),
{
    let after = with_action(watched, action);
    assert forall|key: Seq<char>| #[trigger] watched.contains_key(key) implies after.contains_key(
        key,
    ) by {}
    if under_recursive(parts_of(path), watched) {
        let dir = choose|dir: Seq<char>| #[trigger]
            watched.contains_key(dir) && watched[dir] == RecursiveMode::Recursive && parts_of(
                path,
            ).under(parts_of(dir));
        assert(parts_of(dir) != parts_of(action.dir));
        assert(after.contains_key(dir) && after[dir] == RecursiveMode::Recursive) by {
            assert(watched.contains_key(dir));
        }
    } else {
        let key = choose|key: Seq<char>| #[trigger]
            watched.contains_key(key) && parts_of(key) == parts_of(path);
        assert(after.contains_key(key));
    }
}

/// A directory that an action was done on is watched as the action says.
proof fn lemma_action_done(watched: Map<Seq<char>, RecursiveMode>, action: Planned)
    ensures
        is_watched_as(action.dir, action.mode, with_action(watched, action)),
        is_watched(action.dir, with_action(watched, action)),
{
    let after = with_action(watched, action);
    let key = if is_watched(action.dir, watched) {
        choose|key: Seq<char>| #[trigger]
            watched.contains_key(key) && parts_of(key) == parts_of(action.dir)
    } else {
        action.dir
    };
    assert(after.contains_key(key));
}

/// What is watched all the way down is covered.
proof fn lemma_recursive_covers(
    path: Seq<char>,
    mode: RecursiveMode,
    watched: Map<Seq<char>, RecursiveMode>,
)
    requires
        is_watched_as(path, RecursiveMode::Recursive, watched),
    ensures
        covered(path, mode, watched),
{
    let key = choose|key: Seq<char>| #[trigger]
        watched.contains_key(key) && parts_of(key) == parts_of(path) && watched[key]
            == RecursiveMode::Recursive;
    lemma_under_itself(path);
    assert(watched.contains_key(key) && parts_of(path).under(parts_of(key)));
}

proof fn lemma_plan_covers(list: Seq<Request>, watched: Map<Seq<char>, RecursiveMode>, i: int)
    requires
        0 <= i < list.len(),
    ensures
        covered(list[i].dir, list[i].mode, with_actions(watched, plan(list, watched))),
    decreases list.len(),
{
    let rest = list.drop_last();
    let before = plan(rest, watched);
    let now = with_actions(watched, before);
    let last = list.last();
    if i < list.len() - 1 {
        lemma_plan_covers(rest, watched, i);
        assert(rest[i] == list[i]);
    }
    if !covered(last.dir, last.mode, now) {
        let action = action_for(last, now);
        assert(plan(list, watched).drop_last() =~= before);
        let after = with_action(now, action);
        if is_watched_as(last.dir, RecursiveMode::Recursive, now) {
            lemma_recursive_covers(last.dir, last.mode, now);
        }
        if i < list.len() - 1 {
            lemma_covered_grows(list[i].dir, list[i].mode, now, action);
        } else {
            lemma_action_done(now, action);
            if last.mode == RecursiveMode::Recursive {
                lemma_recursive_covers(last.dir, last.mode, after);
            }
        }
    }
}

proof fn lemma_at_depth(list: Seq<Request>, depth: int, i: int)
    requires
        0 <= i < list.len(),
        depth_of(list[i]) == depth,
    ensures
        at_depth(list, depth).contains(list[i]),
    decreases list.len(),
{
    let before = at_depth(list.drop_last(), depth);
    if i < list.len() - 1 {
        lemma_at_depth(list.drop_last(), depth, i);
        let j = before.index_of(list[i]);
        assert(at_depth(list, depth)[j] == list[i]);
    } else {
        assert(at_depth(list, depth)[before.len() as int] == list[i]);
    }
}

proof fn lemma_by_depth(list: Seq<Request>, limit: int, i: int)
    requires
        0 <= i < list.len(),
        depth_of(list[i]) < limit,
    ensures
        by_depth(list, limit).contains(list[i]),
    decreases limit,
{
    let before = by_depth(list, limit - 1);
    let last = at_depth(list, limit - 1);
    if depth_of(list[i]) < limit - 1 {
        lemma_by_depth(list, limit - 1, i);
        let j = before.index_of(list[i]);
        assert((before + last)[j] == list[i]);
    } else {
        lemma_at_depth(list, limit - 1, i);
        let j = last.index_of(list[i]);
        assert((before + last)[before.len() + j] == list[i]);
    }
}

proof fn lemma_depth_limit(list: Seq<Request>, i: int)
    requires
        0 <= i < list.len(),
    ensures
        depth_of(list[i]) < depth_limit(list),
    decreases list.len(),
{
    if i < list.len() - 1 {
        lemma_depth_limit(list.drop_last(), i);
    }
}

/// Once the planned actions are done, every request is met.
pub proof fn every_request_is_met(
    list: Seq<Request>,
    watched: Map<Seq<char>, RecursiveMode>,
)
    ensures
        forall|i: int|
            0 <= i < list.len() ==> covered(
                (#[trigger] list[i]).dir,
                list[i].mode,
                with_actions(watched, plan(ancestors_first(list), watched)),
            ),
{
    let ordered = ancestors_first(list);
    assert forall|i: int| 0 <= i < list.len() implies covered(
        (#[trigger] list[i]).dir,
        list[i].mode,
        with_actions(watched, plan(ordered, watched)),
    ) by {
        lemma_depth_limit(list, i);
        lemma_by_depth(list, depth_limit(list), i);
        let j = ordered.index_of(list[i]);
        lemma_plan_covers(ordered, watched, j);
    }
}

/// Nothing is registered that what is watched by then already meets, and an
/// action takes a shallow watch's place exactly where there is one.
pub proof fn nothing_is_registered_twice(
    list: Seq<Request>,
    watched: Map<Seq<char>, RecursiveMode>,
    i: int,
)
    requires
        0 <= i < plan(list, watched).len(),
    ensures
        ({
            let action = plan(list, watched)[i];
            let by_then = with_actions(watched, plan(list, watched).take(i));
            &&& !covered(action.dir, action.mode, by_then)
            &&& action.replace == is_watched(action.dir, by_then)
        }),
    decreases list.len(),
{
    let rest = list.drop_last();
    let before = plan(rest, watched);
    let all = plan(list, watched);
    if i < before.len() {
        nothing_is_registered_twice(rest, watched, i);
        assert(all.take(i) =~= before.take(i));
    } else {
        assert(all.take(i) =~= before);
        let now = with_actions(watched, before);
        let last = list.last();
        if is_watched(last.dir, now) {
            let key = choose|key: Seq<char>| #[trigger]
                now.contains_key(key) && parts_of(key) == parts_of(last.dir);
            if last.mode == RecursiveMode::NonRecursive {
                assert(covered(last.dir, last.mode, now));
            } else if now[key] == RecursiveMode::Recursive {
                assert(is_watched_as(last.dir, RecursiveMode::Recursive, now));
                lemma_recursive_covers(last.dir, last.mode, now);
            } else {
                assert(is_watched_as(last.dir, RecursiveMode::NonRecursive, now));
            }
        }
    }
}

/// Registering the same requests again registers nothing.
pub proof fn a_second_pass_registers_nothing(
    list: Seq<Request>,
    watched: Map<Seq<char>, RecursiveMode>,
)
    requires
        forall|i: int|
            0 <= i < list.len() ==> covered((#[trigger] list[i]).dir, list[i].mode, watched),
    ensures
        plan(list, watched) == Seq::<Planned>::empty(),
    decreases list.len(),
{
    if list.len() > 0 {
        let rest = list.drop_last();
        assert forall|i: int| 0 <= i < rest.len() implies covered(
            (#[trigger] rest[i]).dir,
            rest[i].mode,
            watched,
        ) by {
            assert(rest[i] == list[i]);
        }
        a_second_pass_registers_nothing(rest, watched);
        assert(list[list.len() - 1] == list.last());
    }
}

/// Whether an action takes another watch's place.
pub open spec fn replaces(actions: Seq<Planned>) -> bool {
    exists|i: int| 0 <= i < actions.len() && (#[trigger] actions[i]).replace
}

/// Whether the actions have to be done one by one: where one takes another
/// watch's place, that watch has to go first. All others can be added at once.
pub fn one_by_one(actions: &Vec<WatchAction>) -> (r: bool)
    ensures
        r == replaces(planned(actions@)),
{
    let mut i: usize = 0;
    while i < actions.len()
        invariant
            i <= actions@.len(),
            forall|j: int| 0 <= j < i ==> !(#[trigger] planned(actions@)[j]).replace,
        decreases actions@.len() - i,
    {
        if actions[i].replace {
            assert(planned(actions@)[i as int].replace);
            return true;
        }
        i += 1;
    }
    false
}

/// Notes the actions that were done, the first `count` of them.
pub fn note_registered(
    registered: &mut NameMap<RecursiveMode>,
    actions: &Vec<WatchAction>,
    count: usize,
)
    requires
        count <= actions@.len(),
    ensures
        final(registered)@ == with_actions(old(registered)@, planned(actions@).take(count as int)),
{
    let ghost before = registered@;
    let ghost all = planned(actions@);
    let mut i: usize = 0;
    assert(all.take(0) =~= Seq::<Planned>::empty());
    while i < count
        invariant
            i <= count <= actions@.len(),
            all == planned(actions@),
            registered@ == with_actions(before, all.take(i as int)),
        decreases count - i,
    {
        proof {
            assert(all.take(i + 1).drop_last() =~= all.take(i as int));
            assert(all.take(i + 1).last() == actions@[i as int]@);
        }
        register(registered, &actions[i].dir, actions[i].mode);
        i += 1;
    }
}

/// What is watched for a directory and all that is under it: on a system that
/// watches all the way down by itself one request, else one for each directory
/// that a walk found.
pub open spec fn desired(
    root: Seq<char>,
    watches_down: bool,
    walked: Seq<Seq<char>>,
) -> Seq<Request> {
    if watches_down {
        seq![Request { dir: root, mode: RecursiveMode::Recursive }]
    } else {
        Seq::new(
            walked.len(),
            |i: int| Request { dir: walked[i], mode: RecursiveMode::NonRecursive },
        )
    }
}

/// What is watched for a directory and all that is under it.
pub fn desired_watches(root: &str, watches_down: bool, walked: &Vec<String>) -> (r: Vec<
    (String, RecursiveMode),
>)
    ensures
        requests(r@) == desired(root@, watches_down, views(walked@)),
{
    let mut out: Vec<(String, RecursiveMode)> = Vec::new();
    if watches_down {
        out.push((root.to_owned(), RecursiveMode::Recursive));
        assert(requests(out@) =~= desired(root@, watches_down, views(walked@)));
        return out;
    }
    let mut i: usize = 0;
    while i < walked.len()
        invariant
            i <= walked@.len(),
            out@.len() == i,
            forall|j: int|
                0 <= j < i ==> (#[trigger] out@[j]).0@ == walked@[j]@ && out@[j].1
                    == RecursiveMode::NonRecursive,
        decreases walked@.len() - i,
    {
        out.push((walked[i].clone(), RecursiveMode::NonRecursive));
        i += 1;
    }
    assert(requests(out@) =~= desired(root@, watches_down, views(walked@)));
    out
}

proof fn lemma_under_itself(path: Seq<char>)
    ensures
        parts_of(path).under(parts_of(path)),
{
    assert(parts_of(path).parts =~= parts_of(path).parts.subrange(
        0,
        parts_of(path).parts.len() as int,
    ));
}

/// A watch that reaches down covers everything under it; one that does not
/// covers only its own directory, and no request to reach down.
pub proof fn what_a_watch_covers(
    path: Seq<char>,
    dir: Seq<char>,
    watched: Map<Seq<char>, RecursiveMode>,
)
    requires
        watched.contains_key(dir),
    ensures
        watched[dir] == RecursiveMode::Recursive && parts_of(path).under(parts_of(dir)) ==> covered(
            path,
            RecursiveMode::Recursive,
            watched,
        ) && covered(path, RecursiveMode::NonRecursive, watched),
        parts_of(path) == parts_of(dir) ==> covered(path, RecursiveMode::NonRecursive, watched),
        (forall|key: Seq<char>| #[trigger]
            watched.contains_key(key) ==> watched[key] == RecursiveMode::NonRecursive) ==> !covered(
            path,
            RecursiveMode::Recursive,
            watched,
        ),
        (forall|key: Seq<char>| #[trigger]
            watched.contains_key(key) ==> watched[key] == RecursiveMode::NonRecursive && parts_of(
                key,
            ) != parts_of(path)) ==> !covered(path, RecursiveMode::NonRecursive, watched),
{
}

/// A root is watched with one watch that reaches down where that is to be had,
/// and otherwise with one for each directory that was walked.
pub proof fn a_root_is_watched_one_way_or_the_other(
    root: Seq<char>,
    walked: Seq<Seq<char>>,
    i: int,
)
    ensures
        desired(root, true, walked).len() == 1,
        desired(root, true, walked)[0].dir == root,
        desired(root, true, walked)[0].mode == RecursiveMode::Recursive,
        desired(root, false, walked).len() == walked.len(),
        0 <= i < walked.len() ==> desired(root, false, walked)[i].dir == walked[i] && desired(
            root,
            false,
            walked,
        )[i].mode == RecursiveMode::NonRecursive,
        mode_label(RecursiveMode::Recursive) == "recursive"@,
        mode_label(RecursiveMode::NonRecursive) == "non-recursive"@,
{
}

/// Once an action is taken its directory is watched the way it says.
pub proof fn an_action_registers_its_directory(
    watched: Map<Seq<char>, RecursiveMode>,
    action: Planned,
)
    ensures
        is_watched_as(action.dir, action.mode, with_action(watched, action)),
        forall|key: Seq<char>| #[trigger]
            watched.contains_key(key) && parts_of(key) != parts_of(action.dir) ==> with_action(
                watched,
                action,
            ).contains_key(key) && with_action(watched, action)[key] == watched[key],
{
    let after = with_action(watched, action);
    if is_watched(action.dir, watched) {
        let key = choose|key: Seq<char>| #[trigger]
            watched.contains_key(key) && parts_of(key) == parts_of(action.dir);
        assert(after.contains_key(key) && after[key] == action.mode);
    } else {
        assert(after.contains_key(action.dir));
    }
}

/// A plan replaces a watch when one of its actions does.
pub proof fn one_action_that_replaces_is_enough(actions: Seq<Planned>, i: int)
    requires
        0 <= i < actions.len(),
    ensures
        actions[i].replace ==> replaces(actions),
        !replaces(actions) ==> !actions[i].replace,
{
}

/// Directories are asked for from the outside in: none before one above it.
pub proof fn directories_are_asked_for_from_the_outside_in(list: Seq<Request>, i: int, j: int)
    requires
        0 <= i < j < ancestors_first(list).len(),
    ensures
        parts_of(ancestors_first(list)[i].dir).depth() <= parts_of(
            ancestors_first(list)[j].dir,
        ).depth(),
{
    lemma_in_depth_order(list, depth_limit(list), i, j);
}

proof fn lemma_depths(list: Seq<Request>, depth: int, i: int)
    requires
        0 <= i < at_depth(list, depth).len(),
    ensures
        depth_of(at_depth(list, depth)[i]) == depth,
    decreases list.len(),
{
    if list.len() > 0 {
        let before = at_depth(list.drop_last(), depth);
        if i < before.len() {
            lemma_depths(list.drop_last(), depth, i);
            assert(at_depth(list, depth)[i] == before[i]);
        }
    }
}

proof fn lemma_depths_below(list: Seq<Request>, limit: int, i: int)
    requires
        0 <= i < by_depth(list, limit).len(),
    ensures
        depth_of(by_depth(list, limit)[i]) < limit,
    decreases limit,
{
    if limit > 0 {
        let before = by_depth(list, limit - 1);
        if i < before.len() {
            lemma_depths_below(list, limit - 1, i);
            assert(by_depth(list, limit)[i] == before[i]);
        } else {
            lemma_depths(list, limit - 1, i - before.len());
            assert(by_depth(list, limit)[i] == at_depth(list, limit - 1)[i - before.len()]);
        }
    }
}

proof fn lemma_in_depth_order(list: Seq<Request>, limit: int, i: int, j: int)
    requires
        0 <= i < j < by_depth(list, limit).len(),
    ensures
        depth_of(by_depth(list, limit)[i]) <= depth_of(by_depth(list, limit)[j]),
    decreases limit,
{
    if limit > 0 {
        let all = by_depth(list, limit);
        let before = by_depth(list, limit - 1);
        let level = at_depth(list, limit - 1);
        if j < before.len() {
            lemma_in_depth_order(list, limit - 1, i, j);
            assert(all[i] == before[i] && all[j] == before[j]);
        } else {
            lemma_depths(list, limit - 1, j - before.len());
            assert(all[j] == level[j - before.len()]);
            if i < before.len() {
                lemma_depths_below(list, limit - 1, i);
                assert(all[i] == before[i]);
            } else {
                lemma_depths(list, limit - 1, i - before.len());
                assert(all[i] == level[i - before.len()]);
            }
        }
    }
}

} // verus!
