//! Walking a tree of directories without going where the reader asked not to:
//! the walk says which directory to list next, and is handed what is in it.
use crate::globs::WatchIgnore;
use crate::names::{sorted_names, sorted_names_are_unique, strictly_sorted, views};
use vstd::prelude::*;

verus! {

/// What an entry of a directory is. A link is neither a directory nor a file.
#[derive(Debug, Clone, Copy, PartialEq, Eq, Structural)]
pub enum EntryKind {
    Directory,
    File,
    Other,
}

/// An entry of a directory.
#[derive(Debug)]
pub struct DirEntry {
    pub path: String,
    pub kind: EntryKind,
}

/// An entry of a directory, as a reader of contracts sees it.
pub struct Listed {
    pub path: Seq<char>,
    pub kind: EntryKind,
}

impl View for DirEntry {
    type V = Listed;

    open spec fn view(&self) -> Listed {
        Listed { path: self.path@, kind: self.kind }
    }
}

/// The entries of a directory.
pub open spec fn listing(entries: Seq<DirEntry>) -> Seq<Listed> {
    Seq::new(entries.len(), |i: int| entries[i]@)
}

/// Whether a directory is gone into.
pub open spec fn enters(entry: Listed, ignore: WatchIgnore) -> bool {
    entry.kind == EntryKind::Directory && !ignore.excludes(entry.path, true)
}

/// The directories of a listing that are gone into.
pub open spec fn entered(entries: Seq<Listed>, ignore: WatchIgnore) -> Set<Seq<char>> {
    Set::new(
        |path: Seq<char>|
            exists|i: int|
                0 <= i < entries.len() && enters(#[trigger] entries[i], ignore) && entries[i].path
                    == path,
    )
}

/// The directories of a listing that are gone into, in order.
pub open spec fn children(entries: Seq<Listed>, ignore: WatchIgnore) -> Seq<Seq<char>> {
    choose|s: Seq<Seq<char>>| strictly_sorted(s) && #[trigger] s.to_set() == entered(
        entries,
        ignore,
    )
}

/// A walk that collects directories: those still to visit, the next one first,
/// and those visited.
pub struct Walking {
    pub todo: Seq<Seq<char>>,
    pub found: Seq<Seq<char>>,
}

/// A walk that collects directories.
#[derive(Debug)]
pub struct DirWalk {
    /// Still to visit, the next one last.
    pub pending: Vec<String>,
    pub found: Vec<String>,
}

impl View for DirWalk {
    type V = Walking;

    open spec fn view(&self) -> Walking {
        Walking { todo: views(self.pending@).reverse(), found: views(self.found@) }
    }
}

fn kept_children(entries: &Vec<DirEntry>, ignore: &WatchIgnore) -> (r: Vec<String>)
    ensures
        views(r@) == children(listing(entries@), *ignore),
{
    let mut out: Vec<String> = Vec::new();
    let ghost all = listing(entries@);
    let mut i: usize = 0;
    proof {
        assert(all.take(0) =~= Seq::<Listed>::empty());
        assert(views(out@).to_set() =~= entered(all.take(0), *ignore));
    }
    while i < entries.len()
        invariant
            i <= entries@.len(),
            all == listing(entries@),
            views(out@).to_set() == entered(all.take(i as int), *ignore),
        decreases entries@.len() - i,
    {
        let entry = &entries[i];
        let ghost before = views(out@);
        let ghost seen = all.take(i as int);
        let ghost next = all.take(i + 1);
        assert(next =~= seen.push(entry@));
        let goes = match entry.kind {
            EntryKind::Directory => !ignore.is_ignored(entry.path.as_str(), true),
            _ => false,
        };
        if goes {
            out.push(entry.path.clone());
            proof {
                assert(views(out@) =~= before.push(entry.path@));
                lemma_push_set(before, entry.path@);
            }
        }
        proof {
            assert forall|path: Seq<char>| #[trigger]
                views(out@).to_set().contains(path) == entered(next, *ignore).contains(path) by {
                if entered(seen, *ignore).contains(path) {
                    let k = choose|k: int|
                        0 <= k < seen.len() && enters(#[trigger] seen[k], *ignore) && seen[k].path
                            == path;
                    assert(next[k] == seen[k]);
                }
                if entered(next, *ignore).contains(path) {
                    let k = choose|k: int|
                        0 <= k < next.len() && enters(#[trigger] next[k], *ignore) && next[k].path
                            == path;
                    if k < seen.len() {
                        assert(seen[k] == next[k]);
                    }
                }
                if goes && path == entry.path@ {
                    assert(enters(next[i as int], *ignore));
                }
                assert(entered(seen, *ignore).contains(path) == before.to_set().contains(path));
            }
            assert(views(out@).to_set() =~= entered(next, *ignore));
        }
        i += 1;
    }
    assert(all.take(entries@.len() as int) =~= all);
    let sorted = sorted_names(&out);
    proof {
        assert(views(sorted@).to_set() == entered(all, *ignore));
        sorted_names_are_unique(views(sorted@), children(all, *ignore));
    }
    sorted
}

proof fn lemma_push_set(s: Seq<Seq<char>>, path: Seq<char>)
    ensures
        s.push(path).to_set() == s.to_set().insert(path),
{
    assert forall|p: Seq<char>| #[trigger]
        s.push(path).to_set().contains(p) == s.to_set().insert(path).contains(p) by {
        if s.contains(p) {
            let i = s.index_of(p);
            assert(s.push(path)[i] == p);
        }
        if s.push(path).contains(p) {
            let i = s.push(path).index_of(p);
            if i < s.len() {
                assert(s[i] == p);
            }
        }
        assert(s.push(path)[s.len() as int] == path);
    }
    assert(s.push(path).to_set() =~= s.to_set().insert(path));
}

impl DirWalk {
    /// A walk that begins at a directory.
    pub fn start(root: &str) -> (r: DirWalk)
        ensures
            r@ == (Walking { todo: seq![root@], found: Seq::empty() }),
    {
        let mut pending: Vec<String> = Vec::new();
        pending.push(root.to_owned());
        let r = DirWalk { pending, found: Vec::new() };
        assert(r@.todo =~= seq![root@]);
        assert(r@.found =~= Seq::<Seq<char>>::empty());
        r
    }

    /// Visits the next directory, which is then to be listed.
    pub fn next(&mut self) -> (r: Option<String>)
        ensures
            match r {
                Some(dir) => {
                    &&& old(self)@.todo.len() > 0
                    &&& dir@ == old(self)@.todo[0]
                    &&& final(self)@ == (Walking {
                        todo: old(self)@.todo.drop_first(),
                        found: old(self)@.found.push(dir@),
                    })
                },
                None => old(self)@.todo.len() == 0 && final(self)@ == old(self)@,
            },
    {
        let ghost before = self.pending@;
        let ghost found = self.found@;
        match self.pending.pop() {
            Some(dir) => {
                self.found.push(dir.clone());
                proof {
                    assert(views(before).reverse()[0] == dir@);
                    assert(views(self.pending@).reverse() =~= views(before).reverse().drop_first());
                    assert(views(self.found@) =~= views(found).push(dir@));
                }
                Some(dir)
            },
            None => None,
        }
    }

    /// Takes in what is in the directory visited last.
    pub fn take_in(&mut self, entries: &Vec<DirEntry>, ignore: &WatchIgnore)
        ensures
            final(self)@ == (Walking {
                todo: children(listing(entries@), *ignore) + old(self)@.todo,
                found: old(self)@.found,
            }),
    {
        let kids = kept_children(entries, ignore);
        let ghost before = views(self.pending@);
        let ghost names = views(kids@);
        let mut i: usize = kids.len();
        assert(views(self.pending@).reverse() =~= names.skip(i as int) + before.reverse());
        while i > 0
            invariant
                i <= kids@.len(),
                names == views(kids@),
                views(self.pending@).reverse() == names.skip(i as int) + before.reverse(),
                self.found == old(self).found,
            decreases i,
        {
            i -= 1;
            let ghost so_far = views(self.pending@);
            self.pending.push(kids[i].clone());
            proof {
                assert(names[i as int] == kids@[i as int]@);
                assert(views(self.pending@) =~= so_far.push(names[i as int]));
                assert(views(self.pending@).reverse() =~= seq![names[i as int]]
                    + so_far.reverse());
                assert(names.skip(i as int) =~= seq![names[i as int]] + names.skip(i + 1));
                assert(views(self.pending@).reverse() =~= names.skip(i as int) + before.reverse());
            }
        }
        assert(names.skip(0) =~= names);
    }
}

/// Whether a list of directories leads from a root to a directory by going into
/// one after the other. A directory that cannot be listed is empty.
pub open spec fn is_route(
    route: Seq<Seq<char>>,
    ls: spec_fn(Seq<char>) -> Seq<Listed>,
    ignore: WatchIgnore,
    root: Seq<char>,
    dir: Seq<char>,
) -> bool {
    &&& route.len() > 0
    &&& route[0] == root
    &&& route.last() == dir
    &&& forall|i: int|
        0 < i < route.len() ==> entered(ls(route[i - 1]), ignore).contains(#[trigger] route[i])
}

/// Whether a directory can be reached from a root.
pub open spec fn reached(
    ls: spec_fn(Seq<char>) -> Seq<Listed>,
    ignore: WatchIgnore,
    root: Seq<char>,
    dir: Seq<char>,
) -> bool {
    exists|route: Seq<Seq<char>>| is_route(route, ls, ignore, root, dir)
}

/// Whether a walk has lost nothing: the root and all that was seen in visited
/// directories is visited or still to visit, and nothing else is.
pub open spec fn accounts_for(
    walk: Walking,
    ls: spec_fn(Seq<char>) -> Seq<Listed>,
    ignore: WatchIgnore,
    root: Seq<char>,
) -> bool {
    let all = walk.found.to_set().union(walk.todo.to_set());
    &&& all.contains(root)
    &&& forall|parent: Seq<char>, dir: Seq<char>|
        walk.found.to_set().contains(parent) && #[trigger] entered(ls(parent), ignore).contains(dir)
            ==> all.contains(dir)
    &&& forall|dir: Seq<char>| #[trigger]
        all.contains(dir) ==> reached(ls, ignore, root, dir)
}

/// A walk begins with everything accounted for.
pub proof fn a_walk_begins_at_its_root(
    ls: spec_fn(Seq<char>) -> Seq<Listed>,
    ignore: WatchIgnore,
    root: Seq<char>,
)
    ensures
        accounts_for(Walking { todo: seq![root], found: Seq::empty() }, ls, ignore, root),
{
    let walk = Walking { todo: seq![root], found: Seq::empty() };
    let all = walk.found.to_set().union(walk.todo.to_set());
    assert(walk.todo[0] == root);
    assert(all.contains(root));
    assert forall|dir: Seq<char>| #[trigger] all.contains(dir) implies reached(
        ls,
        ignore,
        root,
        dir,
    ) by {
        assert(walk.todo.contains(dir));
        assert(dir == root);
        assert(is_route(seq![root], ls, ignore, root, dir));
    }
}

/// Visiting a directory and taking in what is in it loses nothing.
pub proof fn a_step_loses_nothing(
    walk: Walking,
    ls: spec_fn(Seq<char>) -> Seq<Listed>,
    ignore: WatchIgnore,
    root: Seq<char>,
    kids: Seq<Seq<char>>,
)
    requires
        walk.todo.len() > 0,
        accounts_for(walk, ls, ignore, root),
        kids.to_set() == entered(ls(walk.todo[0]), ignore),
    ensures
        accounts_for(
            Walking {
                todo: kids + walk.todo.drop_first(),
                found: walk.found.push(walk.todo[0]),
            },
            ls,
            ignore,
            root,
        ),
{
    let dir = walk.todo[0];
    let after = Walking {
        todo: kids + walk.todo.drop_first(),
        found: walk.found.push(dir),
    };
    let all = walk.found.to_set().union(walk.todo.to_set());
    let now = after.found.to_set().union(after.todo.to_set());
    assert(walk.todo.contains(dir));
    assert(all.contains(dir));
    assert forall|p: Seq<char>| #[trigger] now.contains(p) == (all.contains(p) || kids.contains(
        p,
    )) by {
        lemma_push_set(walk.found, dir);
        if kids.contains(p) {
            let i = kids.index_of(p);
            assert(after.todo[i] == p);
        }
        if walk.todo.contains(p) && p != dir {
            let i = walk.todo.index_of(p);
            assert(walk.todo.drop_first()[i - 1] == p);
            assert(after.todo[kids.len() + i - 1] == p);
        }
        if after.todo.contains(p) {
            let i = after.todo.index_of(p);
            if i < kids.len() {
                assert(kids[i] == p);
            } else {
                assert(walk.todo[i - kids.len() + 1] == p);
            }
        }
    }
    assert forall|parent: Seq<char>, d: Seq<char>|
        after.found.to_set().contains(parent) && #[trigger] entered(ls(parent), ignore).contains(
            d,
        ) implies now.contains(d) by {
        lemma_push_set(walk.found, dir);
        if parent == dir {
            assert(kids.to_set().contains(d));
        } else {
            assert(walk.found.to_set().contains(parent));
            assert(all.contains(d));
        }
    }
    assert forall|d: Seq<char>| #[trigger] now.contains(d) implies reached(
        ls,
        ignore,
        root,
        d,
    ) by {
        if !all.contains(d) {
            assert(kids.to_set().contains(d));
            let route = choose|route: Seq<Seq<char>>| is_route(route, ls, ignore, root, dir);
            let on = route.push(d);
            assert forall|i: int| 0 < i < on.len() implies entered(
                ls(on[i - 1]),
                ignore,
            ).contains(#[trigger] on[i]) by {
                if i < route.len() {
                    assert(on[i] == route[i]);
                    assert(on[i - 1] == route[i - 1]);
                } else {
                    assert(on[i - 1] == route.last());
                }
            }
            assert(is_route(on, ls, ignore, root, d));
        }
    }
}

/// A walk that has nothing left to visit has found every directory that can be
/// reached without going into one that is excluded, and no other.
pub proof fn a_finished_walk_is_complete(
    walk: Walking,
    ls: spec_fn(Seq<char>) -> Seq<Listed>,
    ignore: WatchIgnore,
    root: Seq<char>,
    dir: Seq<char>,
)
    requires
        walk.todo.len() == 0,
        accounts_for(walk, ls, ignore, root),
    ensures
        walk.found.contains(dir) <==> reached(ls, ignore, root, dir),
{
    let all = walk.found.to_set().union(walk.todo.to_set());
    if walk.found.contains(dir) {
        assert(all.contains(dir));
    }
    if reached(ls, ignore, root, dir) {
        let route = choose|route: Seq<Seq<char>>| is_route(route, ls, ignore, root, dir);
        lemma_route_is_found(walk, ls, ignore, root, dir, route, route.len() - 1);
    }
}

proof fn lemma_route_is_found(
    walk: Walking,
    ls: spec_fn(Seq<char>) -> Seq<Listed>,
    ignore: WatchIgnore,
    root: Seq<char>,
    dir: Seq<char>,
    route: Seq<Seq<char>>,
    i: int,
)
    requires
        walk.todo.len() == 0,
        accounts_for(walk, ls, ignore, root),
        is_route(route, ls, ignore, root, dir),
        0 <= i < route.len(),
    ensures
        walk.found.contains(route[i]),
    decreases i,
{
    let all = walk.found.to_set().union(walk.todo.to_set());
    if i == 0 {
        assert(all.contains(root));
    } else {
        lemma_route_is_found(walk, ls, ignore, root, dir, route, i - 1);
        assert(walk.found.to_set().contains(route[i - 1]));
        assert(entered(ls(route[i - 1]), ignore).contains(route[i]));
        assert(all.contains(route[i]));
    }
}

/// A walk that collects files: what is still to look at, the next one first,
/// and the files found.
pub struct Looking {
    pub todo: Seq<Listed>,
    pub found: Seq<Seq<char>>,
}

/// A walk that collects files.
#[derive(Debug)]
pub struct FileWalk {
    /// Still to look at, the next one last.
    pub pending: Vec<DirEntry>,
    pub found: Vec<String>,
}

impl View for FileWalk {
    type V = Looking;

    open spec fn view(&self) -> Looking {
        Looking { todo: listing(self.pending@).reverse(), found: views(self.found@) }
    }
}

/// Whether a file is collected.
pub open spec fn collects(entry: Listed, ignore: WatchIgnore) -> bool {
    entry.kind == EntryKind::File && !ignore.excludes(entry.path, false)
}

/// The files of a list.
pub open spec fn files_in(entries: Seq<Listed>, ignore: WatchIgnore) -> Seq<Seq<char>>
    decreases entries.len(),
{
    if entries.len() == 0 {
        Seq::empty()
    } else {
        let before = files_in(entries.drop_last(), ignore);
        if collects(entries.last(), ignore) {
            before.push(entries.last().path)
        } else {
            before
        }
    }
}

impl FileWalk {
    /// A walk that begins with what is in a directory.
    pub fn start(entries: Vec<DirEntry>) -> (r: FileWalk)
        ensures
            r@ == (Looking { todo: listing(entries@), found: Seq::empty() }),
    {
        let mut r = FileWalk { pending: Vec::new(), found: Vec::new() };
        assert(r@.todo =~= Seq::<Listed>::empty());
        assert(r@.found =~= Seq::<Seq<char>>::empty());
        let ghost all = listing(entries@);
        r.take_in(entries);
        assert(r@.todo =~= all);
        r
    }

    /// Takes in what is in a directory: it comes before all else.
    pub fn take_in(&mut self, entries: Vec<DirEntry>)
        ensures
            final(self)@ == (Looking {
                todo: listing(entries@) + old(self)@.todo,
                found: old(self)@.found,
            }),
    {
        let mut entries = entries;
        let ghost all = listing(entries@);
        let ghost before = self@.todo;
        assert(all.skip(entries@.len() as int) + before =~= before);
        while entries.len() > 0
            invariant
                entries@.len() <= all.len(),
                listing(entries@) == all.take(entries@.len() as int),
                self@.todo == all.skip(entries@.len() as int) + before,
                self.found == old(self).found,
            decreases entries@.len(),
        {
            let ghost n = entries@.len() as int;
            let ghost rest = entries@;
            let ghost so_far = self.pending@;
            if let Some(entry) = entries.pop() {
                proof {
                    assert(listing(rest)[n - 1] == entry@);
                    assert(entry@ == all[n - 1]);
                    assert(listing(entries@) =~= all.take(n - 1));
                }
                let ghost seen = entry@;
                self.pending.push(entry);
                proof {
                    assert(listing(self.pending@) =~= listing(so_far).push(seen));
                    assert(self@.todo =~= seq![seen] + listing(so_far).reverse());
                    assert(all.skip(n - 1) =~= seq![all[n - 1]] + all.skip(n));
                    assert(self@.todo =~= all.skip(n - 1) + before);
                }
            }
        }
        assert(all.skip(0) =~= all);
    }

    /// Collects files up to the next directory to go into, which is then to be
    /// listed.
    pub fn next(&mut self, ignore: &WatchIgnore) -> (r: Option<String>)
        ensures
            match r {
                Some(dir) => exists|k: int|
                    {
                        &&& 0 <= k < old(self)@.todo.len()
                        &&& enters(#[trigger] old(self)@.todo[k], *ignore)
                        &&& old(self)@.todo[k].path == dir@
                        &&& forall|j: int|
                            0 <= j < k ==> !enters(#[trigger] old(self)@.todo[j], *ignore)
                        &&& final(self)@.todo == old(self)@.todo.skip(k + 1)
                        &&& final(self)@.found == old(self)@.found + files_in(
                            old(self)@.todo.take(k),
                            *ignore,
                        )
                    },
                None => {
                    &&& forall|j: int|
                        0 <= j < old(self)@.todo.len() ==> !enters(
                            #[trigger] old(self)@.todo[j],
                            *ignore,
                        )
                    &&& final(self)@.todo == Seq::<Listed>::empty()
                    &&& final(self)@.found == old(self)@.found + files_in(
                        old(self)@.todo,
                        *ignore,
                    )
                },
            },
    {
        let ghost todo = self@.todo;
        let ghost found = self@.found;
        let ghost mut k: int = 0;
        proof {
            assert(todo.skip(0) =~= todo);
            assert(todo.take(0) =~= Seq::<Listed>::empty());
            assert(found + files_in(todo.take(0), *ignore) =~= found);
        }
        while self.pending.len() > 0
            invariant
                0 <= k <= todo.len(),
                self@.todo == todo.skip(k),
                self@.found == found + files_in(todo.take(k), *ignore),
                forall|j: int| 0 <= j < k ==> !enters(#[trigger] todo[j], *ignore),
                todo == old(self)@.todo,
                found == old(self)@.found,
            decreases self.pending@.len(),
        {
            let ghost before = self.pending@;
            let ghost done = self@.found;
            assert(self@.todo.len() == before.len());
            if let Some(entry) = self.pending.pop() {
                proof {
                    assert(listing(before)[before.len() - 1] == entry@);
                    assert(listing(before).reverse()[0] == entry@);
                    assert(todo.skip(k)[0] == entry@);
                    assert(todo[k] == entry@);
                    assert(listing(self.pending@).reverse() =~= todo.skip(k).drop_first());
                    assert(todo.skip(k).drop_first() =~= todo.skip(k + 1));
                    assert(todo.take(k + 1).drop_last() =~= todo.take(k));
                    assert(todo.take(k + 1).last() == entry@);
                }
                match entry.kind {
                    EntryKind::Directory => {
                        if !ignore.is_ignored(entry.path.as_str(), true) {
                            assert(enters(todo[k], *ignore));
                            return Some(entry.path);
                        }
                    },
                    EntryKind::File => {
                        if !ignore.is_ignored(entry.path.as_str(), false) {
                            let ghost path = entry.path@;
                            let ghost list = self.found@;
                            self.found.push(entry.path);
                            assert(views(self.found@) =~= views(list).push(path));
                        }
                    },
                    EntryKind::Other => {},
                }
                proof {
                    assert(self@.found =~= found + files_in(todo.take(k + 1), *ignore));
                    k = k + 1;
                }
            }
        }
        proof {
            assert(self@.todo.len() == 0);
            assert(k == todo.len());
            assert(todo.take(k) =~= todo);
            assert(self@.todo =~= Seq::<Listed>::empty());
        }
        None
    }
}

/// Whether a file is there for a walk to find: it is collected, and the
/// directory it is in can be reached.
pub open spec fn is_there(
    ls: spec_fn(Seq<char>) -> Seq<Listed>,
    ignore: WatchIgnore,
    root: Seq<char>,
    file: Seq<char>,
) -> bool {
    exists|dir: Seq<char>, i: int|
        #![trigger ls(dir)[i]]
        reached(ls, ignore, root, dir) && holds_file(ls(dir), i, ignore, file)
}

/// Whether an entry of a listing is a file that is collected.
pub open spec fn holds_file(
    entries: Seq<Listed>,
    i: int,
    ignore: WatchIgnore,
    file: Seq<char>,
) -> bool {
    0 <= i < entries.len() && collects(entries[i], ignore) && entries[i].path == file
}

/// Whether a walk that listed some directories has lost none of what is in
/// them, and has nothing else.
pub open spec fn looks_at_all(
    look: Looking,
    listed: Set<Seq<char>>,
    ls: spec_fn(Seq<char>) -> Seq<Listed>,
    ignore: WatchIgnore,
    root: Seq<char>,
) -> bool {
    &&& listed.contains(root)
    &&& forall|dir: Seq<char>| #[trigger]
        listed.contains(dir) ==> reached(ls, ignore, root, dir)
    &&& forall|dir: Seq<char>, i: int|
        #![trigger ls(dir)[i]]
        listed.contains(dir) && 0 <= i < ls(dir).len() ==> {
            ||| look.todo.contains(ls(dir)[i])
            ||| {
                &&& collects(ls(dir)[i], ignore) ==> look.found.contains(ls(dir)[i].path)
                &&& enters(ls(dir)[i], ignore) ==> listed.contains(ls(dir)[i].path)
            }
        }
    &&& forall|k: int|
        0 <= k < look.todo.len() ==> is_listed(#[trigger] look.todo[k], listed, ls)
    &&& forall|k: int|
        0 <= k < look.found.len() ==> is_there(ls, ignore, root, #[trigger] look.found[k])
}

/// Whether something is in one of some directories.
pub open spec fn is_listed(
    entry: Listed,
    listed: Set<Seq<char>>,
    ls: spec_fn(Seq<char>) -> Seq<Listed>,
) -> bool {
    exists|dir: Seq<char>, i: int|
        #![trigger ls(dir)[i]]
        listed.contains(dir) && 0 <= i < ls(dir).len() && ls(dir)[i] == entry
}

proof fn lemma_files_in(entries: Seq<Listed>, ignore: WatchIgnore, file: Seq<char>)
    ensures
        files_in(entries, ignore).contains(file) <==> exists|i: int|
            #[trigger] holds_file(entries, i, ignore, file),
    decreases entries.len(),
{
    let all = files_in(entries, ignore);
    if entries.len() == 0 {
        assert(forall|i: int| !#[trigger] holds_file(entries, i, ignore, file));
    } else {
        let rest = entries.drop_last();
        let before = files_in(rest, ignore);
        lemma_files_in(rest, ignore, file);
        if all.contains(file) {
            let k = all.index_of(file);
            if k < before.len() {
                assert(before[k] == file);
                let i = choose|i: int| #[trigger] holds_file(rest, i, ignore, file);
                assert(holds_file(entries, i, ignore, file));
            } else {
                assert(holds_file(entries, entries.len() - 1, ignore, file));
            }
        }
        if exists|i: int| #[trigger] holds_file(entries, i, ignore, file) {
            let i = choose|i: int| #[trigger] holds_file(entries, i, ignore, file);
            if i < rest.len() {
                assert(holds_file(rest, i, ignore, file));
                let k = before.index_of(file);
                assert(all[k] == file);
            } else {
                assert(all[before.len() as int] == file);
            }
        }
    }
}

proof fn lemma_gathered(
    look: Looking,
    listed: Set<Seq<char>>,
    ls: spec_fn(Seq<char>) -> Seq<Listed>,
    ignore: WatchIgnore,
    root: Seq<char>,
    n: int,
)
    requires
        looks_at_all(look, listed, ls, ignore, root),
        0 <= n <= look.todo.len(),
    ensures
        ({
            let found = look.found + files_in(look.todo.take(n), ignore);
            &&& forall|k: int|
                0 <= k < found.len() ==> is_there(ls, ignore, root, #[trigger] found[k])
            &&& forall|j: int|
                0 <= j < n && collects(#[trigger] look.todo[j], ignore) ==> found.contains(
                    look.todo[j].path,
                )
            &&& forall|file: Seq<char>|
                look.found.contains(file) ==> #[trigger] found.contains(file)
        }),
{
    let seen = look.todo.take(n);
    let more = files_in(seen, ignore);
    let found = look.found + more;
    assert forall|k: int| 0 <= k < found.len() implies is_there(
        ls,
        ignore,
        root,
        #[trigger] found[k],
    ) by {
        if k >= look.found.len() {
            let file = found[k];
            assert(more[k - look.found.len()] == file);
            assert(more.contains(file));
            lemma_files_in(seen, ignore, file);
            let j = choose|j: int| #[trigger] holds_file(seen, j, ignore, file);
            assert(look.todo[j] == seen[j]);
            assert(is_listed(look.todo[j], listed, ls));
            let (dir, i) = choose|dir: Seq<char>, i: int|
                #![trigger ls(dir)[i]]
                listed.contains(dir) && 0 <= i < ls(dir).len() && ls(dir)[i] == look.todo[j];
            assert(holds_file(ls(dir), i, ignore, file));
            assert(ls(dir)[i] == look.todo[j]);
        } else {
            assert(look.found[k] == found[k]);
        }
    }
    assert forall|j: int| 0 <= j < n && collects(#[trigger] look.todo[j], ignore) implies found.contains(
        look.todo[j].path,
    ) by {
        let file = look.todo[j].path;
        assert(seen[j] == look.todo[j]);
        assert(holds_file(seen, j, ignore, file));
        lemma_files_in(seen, ignore, file);
        let k = more.index_of(file);
        assert(found[look.found.len() + k] == file);
    }
    assert forall|file: Seq<char>| look.found.contains(file) implies #[trigger] found.contains(
        file,
    ) by {
        let k = look.found.index_of(file);
        assert(found[k] == file);
    }
}

/// A walk for files begins with everything in its root ahead of it.
pub proof fn a_look_begins_in_its_root(
    ls: spec_fn(Seq<char>) -> Seq<Listed>,
    ignore: WatchIgnore,
    root: Seq<char>,
)
    ensures
        looks_at_all(
            Looking { todo: ls(root), found: Seq::empty() },
            set![root],
            ls,
            ignore,
            root,
        ),
{
    let look = Looking { todo: ls(root), found: Seq::empty() };
    assert forall|dir: Seq<char>| #[trigger] set![root].contains(dir) implies reached(
        ls,
        ignore,
        root,
        dir,
    ) by {
        assert(is_route(seq![root], ls, ignore, root, dir));
    }
    assert forall|k: int| 0 <= k < look.todo.len() implies is_listed(
        #[trigger] look.todo[k],
        set![root],
        ls,
    ) by {
        assert(ls(root)[k] == look.todo[k]);
    }
}

/// Going into the next directory of a walk for files, and taking in what is in
/// it, loses nothing.
pub proof fn a_look_loses_nothing(
    look: Looking,
    listed: Set<Seq<char>>,
    ls: spec_fn(Seq<char>) -> Seq<Listed>,
    ignore: WatchIgnore,
    root: Seq<char>,
    k: int,
)
    requires
        looks_at_all(look, listed, ls, ignore, root),
        0 <= k < look.todo.len(),
        enters(look.todo[k], ignore),
        forall|j: int| 0 <= j < k ==> !enters(#[trigger] look.todo[j], ignore),
    ensures
        looks_at_all(
            Looking {
                todo: ls(look.todo[k].path) + look.todo.skip(k + 1),
                found: look.found + files_in(look.todo.take(k), ignore),
            },
            listed.insert(look.todo[k].path),
            ls,
            ignore,
            root,
        ),
{
    let dir = look.todo[k].path;
    let now = listed.insert(dir);
    let after = Looking {
        todo: ls(dir) + look.todo.skip(k + 1),
        found: look.found + files_in(look.todo.take(k), ignore),
    };
    lemma_gathered(look, listed, ls, ignore, root, k);
    assert(reached(ls, ignore, root, dir)) by {
        assert(is_listed(look.todo[k], listed, ls));
        let (parent, i) = choose|parent: Seq<char>, i: int|
            #![trigger ls(parent)[i]]
            listed.contains(parent) && 0 <= i < ls(parent).len() && ls(parent)[i] == look.todo[k];
        assert(enters(ls(parent)[i], ignore));
        assert(entered(ls(parent), ignore).contains(dir));
        let route = choose|route: Seq<Seq<char>>| is_route(route, ls, ignore, root, parent);
        let on = route.push(dir);
        assert forall|j: int| 0 < j < on.len() implies entered(ls(on[j - 1]), ignore).contains(
            #[trigger] on[j],
        ) by {
            if j < route.len() {
                assert(on[j] == route[j]);
                assert(on[j - 1] == route[j - 1]);
            } else {
                assert(on[j - 1] == route.last());
            }
        }
        assert(is_route(on, ls, ignore, root, dir));
    }
    assert forall|d: Seq<char>, i: int|
        #![trigger ls(d)[i]]
        now.contains(d) && 0 <= i < ls(d).len() implies {
        ||| after.todo.contains(ls(d)[i])
        ||| {
            &&& collects(ls(d)[i], ignore) ==> after.found.contains(ls(d)[i].path)
            &&& enters(ls(d)[i], ignore) ==> now.contains(ls(d)[i].path)
        }
    } by {
        let entry = ls(d)[i];
        if d == dir {
            assert(after.todo[i] == entry);
        } else if look.todo.contains(entry) {
            let j = look.todo.index_of(entry);
            if j > k {
                assert(after.todo[ls(dir).len() + j - k - 1] == entry);
            } else if j < k {
                assert(!enters(look.todo[j], ignore));
            }
        }
    }
    assert forall|j: int| 0 <= j < after.todo.len() implies is_listed(
        #[trigger] after.todo[j],
        now,
        ls,
    ) by {
        if j < ls(dir).len() {
            assert(ls(dir)[j] == after.todo[j]);
        } else {
            let m = j - ls(dir).len() + k + 1;
            assert(after.todo[j] == look.todo[m]);
            assert(is_listed(look.todo[m], listed, ls));
            let (d, i) = choose|d: Seq<char>, i: int|
                #![trigger ls(d)[i]]
                listed.contains(d) && 0 <= i < ls(d).len() && ls(d)[i] == look.todo[m];
            assert(now.contains(d) && ls(d)[i] == after.todo[j]);
        }
    }
}

proof fn lemma_route_is_listed(
    look: Looking,
    listed: Set<Seq<char>>,
    ls: spec_fn(Seq<char>) -> Seq<Listed>,
    ignore: WatchIgnore,
    root: Seq<char>,
    dir: Seq<char>,
    route: Seq<Seq<char>>,
    i: int,
)
    requires
        looks_at_all(look, listed, ls, ignore, root),
        forall|j: int| 0 <= j < look.todo.len() ==> !enters(#[trigger] look.todo[j], ignore),
        is_route(route, ls, ignore, root, dir),
        0 <= i < route.len(),
    ensures
        listed.contains(route[i]),
    decreases i,
{
    if i > 0 {
        lemma_route_is_listed(look, listed, ls, ignore, root, dir, route, i - 1);
        let parent = route[i - 1];
        assert(entered(ls(parent), ignore).contains(route[i]));
        let k = choose|k: int|
            0 <= k < ls(parent).len() && enters(#[trigger] ls(parent)[k], ignore) && ls(
                parent,
            )[k].path == route[i];
        if look.todo.contains(ls(parent)[k]) {
            let j = look.todo.index_of(ls(parent)[k]);
            assert(!enters(look.todo[j], ignore));
        }
    }
}

/// A walk for files that has no directory left to go into ends with every file
/// that can be reached without going into a directory that is excluded, and
/// that is not excluded itself, and with nothing else.
pub proof fn a_finished_look_found_every_file(
    look: Looking,
    listed: Set<Seq<char>>,
    ls: spec_fn(Seq<char>) -> Seq<Listed>,
    ignore: WatchIgnore,
    root: Seq<char>,
    file: Seq<char>,
)
    requires
        looks_at_all(look, listed, ls, ignore, root),
        forall|j: int| 0 <= j < look.todo.len() ==> !enters(#[trigger] look.todo[j], ignore),
    ensures
        (look.found + files_in(look.todo, ignore)).contains(file) <==> is_there(
            ls,
            ignore,
            root,
            file,
        ),
{
    let found = look.found + files_in(look.todo, ignore);
    lemma_gathered(look, listed, ls, ignore, root, look.todo.len() as int);
    assert(look.todo.take(look.todo.len() as int) =~= look.todo);
    if found.contains(file) {
        let k = found.index_of(file);
        assert(is_there(ls, ignore, root, found[k]));
    }
    if is_there(ls, ignore, root, file) {
        let (dir, i) = choose|dir: Seq<char>, i: int|
            #![trigger ls(dir)[i]]
            reached(ls, ignore, root, dir) && holds_file(ls(dir), i, ignore, file);
        let route = choose|route: Seq<Seq<char>>| is_route(route, ls, ignore, root, dir);
        lemma_route_is_listed(look, listed, ls, ignore, root, dir, route, route.len() - 1);
        assert(listed.contains(dir));
        let entry = ls(dir)[i];
        if look.todo.contains(entry) {
            let j = look.todo.index_of(entry);
            assert(collects(look.todo[j], ignore));
        } else {
            assert(look.found.contains(entry.path));
            assert(found.contains(file));
        }
    }
}

/// A walk goes into directories only, and a look collects files only; neither
/// takes what is ignored.
pub proof fn what_a_walk_takes(entry: Listed, ignore: WatchIgnore)
    ensures
        enters(entry, ignore) ==> entry.kind == EntryKind::Directory && !ignore.excludes(
            entry.path,
            true,
        ),
        entry.kind == EntryKind::Directory && !ignore.excludes(entry.path, true) ==> enters(
            entry,
            ignore,
        ),
        collects(entry, ignore) ==> entry.kind == EntryKind::File && !ignore.excludes(
            entry.path,
            false,
        ),
        entry.kind == EntryKind::File && !ignore.excludes(entry.path, false) ==> collects(
            entry,
            ignore,
        ),
        entry.kind == EntryKind::Other ==> !enters(entry, ignore) && !collects(entry, ignore),
{
}

} // verus!
