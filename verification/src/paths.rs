//! Paths as text: their parts, what lies under what, and the directory a
//! pattern has to be watched from.
use crate::names::views;
use crate::text::{chars_of, every_part_has_its_place, has_suffix, join, joined, same};
use vstd::prelude::*;

verus! {

/// What lies between the slashes of a path.
pub open spec fn pieces(path: Seq<char>) -> Seq<Seq<char>>
    decreases path.len(),
{
    if path.len() == 0 {
        seq![Seq::empty()]
    } else {
        let before = pieces(path.drop_last());
        if path.last() == '/' {
            before.push(Seq::empty())
        } else {
            before.drop_last().push(before.last().push(path.last()))
        }
    }
}

/// The pieces that name something: not the empty ones, and a dot only at the
/// start.
pub open spec fn named(pieces: Seq<Seq<char>>) -> Seq<Seq<char>>
    decreases pieces.len(),
{
    if pieces.len() == 0 {
        Seq::empty()
    } else {
        let before = named(pieces.drop_last());
        let piece = pieces.last();
        if piece.len() > 0 && (piece != "."@ || pieces.len() == 1) {
            before.push(piece)
        } else {
            before
        }
    }
}

/// A path by its parts.
pub struct PathParts {
    /// Whether it starts at the root.
    pub rooted: bool,
    pub parts: Seq<Seq<char>>,
}

/// The parts of a path. Two paths with the same parts are the same path.
pub open spec fn parts_of(path: Seq<char>) -> PathParts {
    PathParts { rooted: path.len() > 0 && path[0] == '/', parts: named(pieces(path)) }
}

impl PathParts {
    /// How deep the path is, the root counted.
    pub open spec fn depth(self) -> int {
        self.parts.len() + (if self.rooted {
            1int
        } else {
            0int
        })
    }

    /// The path written out.
    pub open spec fn text(self) -> Seq<char> {
        (if self.rooted {
            "/"@
        } else {
            ""@
        }) + joined(self.parts, "/"@)
    }

    /// Whether this path is `dir` or lies under it.
    pub open spec fn under(self, dir: PathParts) -> bool {
        if dir.rooted || dir.parts.len() > 0 {
            self.rooted == dir.rooted && dir.parts.is_prefix_of(self.parts)
        } else {
            true
        }
    }
}

/// A path by its parts.
#[derive(Debug)]
pub struct Components {
    pub rooted: bool,
    pub parts: Vec<String>,
}

impl View for Components {
    type V = PathParts;

    open spec fn view(&self) -> PathParts {
        PathParts { rooted: self.rooted, parts: views(self.parts@) }
    }
}

fn split(path: &str) -> (r: Vec<String>)
    ensures
        views(r@) == pieces(path@),
{
    let chars = chars_of(path);
    let mut out: Vec<String> = Vec::new();
    let mut piece = String::new();
    let mut i: usize = 0;
    proof {
        assert(chars@.take(0) =~= Seq::<char>::empty());
        assert(views(out@).push(piece@) =~= pieces(chars@.take(0)));
    }
    while i < chars.len()
        invariant
            i <= chars@.len(),
            views(out@).push(piece@) == pieces(chars@.take(i as int)),
        decreases chars@.len() - i,
    {
        let ch = chars[i];
        let ghost before = chars@.take(i as int);
        let ghost done = views(out@);
        let ghost words = piece@;
        proof {
            assert(chars@.take(i + 1).drop_last() =~= before);
            assert(chars@.take(i + 1).last() == ch);
            assert(pieces(before).last() == words);
            assert(pieces(before).drop_last() =~= done);
        }
        if ch == '/' {
            out.push(piece);
            piece = String::new();
            proof {
                assert(views(out@) =~= done.push(words));
                assert(views(out@).push(piece@) =~= pieces(before).push(Seq::<char>::empty()));
            }
        } else {
            piece.push(ch);
        }
        i += 1;
    }
    assert(chars@.take(chars@.len() as int) =~= chars@);
    let ghost done = views(out@);
    let ghost words = piece@;
    out.push(piece);
    assert(views(out@) =~= done.push(words));
    out
}

fn name_parts(all: &Vec<String>) -> (r: Vec<String>)
    ensures
        views(r@) == named(views(all@)),
{
    let mut out: Vec<String> = Vec::new();
    let mut i: usize = 0;
    proof {
        assert(views(all@).take(0) =~= Seq::<Seq<char>>::empty());
        assert(views(out@) =~= named(views(all@).take(0)));
    }
    while i < all.len()
        invariant
            i <= all@.len(),
            views(out@) == named(views(all@).take(i as int)),
        decreases all@.len() - i,
    {
        let piece = &all[i];
        let ghost before = views(out@);
        proof {
            let next = views(all@).take(i + 1);
            assert(next.drop_last() =~= views(all@).take(i as int));
            assert(next.last() == piece@);
        }
        if !piece.as_str().is_empty() && (i == 0 || !same(piece.as_str(), ".")) {
            out.push(piece.clone());
            assert(views(out@) =~= before.push(piece@));
        }
        i += 1;
    }
    assert(views(all@).take(all@.len() as int) =~= views(all@));
    out
}

impl Components {
    /// The parts of a path.
    pub fn of(path: &str) -> (r: Components)
        ensures
            r@ == parts_of(path@),
    {
        let chars = chars_of(path);
        let rooted = chars.len() > 0 && chars[0] == '/';
        Components { rooted, parts: name_parts(&split(path)) }
    }

    /// Whether two paths are the same.
    pub fn same_as(&self, other: &Components) -> (r: bool)
        ensures
            r == (self@ == other@),
    {
        assert(self@.parts.len() == self.parts@.len());
        assert(other@.parts.len() == other.parts@.len());
        if self.rooted != other.rooted || self.parts.len() != other.parts.len() {
            return false;
        }
        let mut i: usize = 0;
        while i < self.parts.len()
            invariant
                i <= self.parts@.len(),
                self.parts@.len() == other.parts@.len(),
                forall|j: int| 0 <= j < i ==> (#[trigger] self.parts@[j])@ == other.parts@[j]@,
            decreases self.parts@.len() - i,
        {
            if !same(self.parts[i].as_str(), other.parts[i].as_str()) {
                assert(views(self.parts@)[i as int] != views(other.parts@)[i as int]);
                return false;
            }
            i += 1;
        }
        assert(views(self.parts@) =~= views(other.parts@));
        true
    }

    /// How deep the path is, the root counted.
    pub fn depth(&self) -> (r: u128)
        ensures
            r as int == self@.depth(),
            r <= usize::MAX + 1,
    {
        if self.rooted {
            self.parts.len() as u128 + 1
        } else {
            self.parts.len() as u128
        }
    }

    /// The path written out.
    pub fn text(&self) -> (r: String)
        ensures
            r@ == self@.text(),
    {
        let mut out = if self.rooted {
            "/".to_owned()
        } else {
            "".to_owned()
        };
        out.append(join(&self.parts, "/").as_str());
        out
    }

    /// Whether this path is `dir` or lies under it.
    pub fn starts_with(&self, dir: &Components) -> (r: bool)
        ensures
            r == self@.under(dir@),
    {
        assert(dir@.parts.len() == dir.parts@.len());
        assert(self@.parts.len() == self.parts@.len());
        if !dir.rooted && dir.parts.len() == 0 {
            return true;
        }
        if self.rooted != dir.rooted || dir.parts.len() > self.parts.len() {
            return false;
        }
        let mut i: usize = 0;
        while i < dir.parts.len()
            invariant
                i <= dir.parts@.len() <= self.parts@.len(),
                self.rooted == dir.rooted,
                dir.rooted || dir.parts@.len() > 0,
                forall|j: int| 0 <= j < i ==> views(dir.parts@)[j] == #[trigger] views(self.parts@)[j],
            decreases dir.parts@.len() - i,
        {
            if !same(dir.parts[i].as_str(), self.parts[i].as_str()) {
                assert(views(dir.parts@)[i as int] != views(self.parts@)[i as int]);
                return false;
            }
            i += 1;
        }
        assert(views(dir.parts@).is_prefix_of(views(self.parts@))) by {
            assert(views(dir.parts@) =~= views(self.parts@).subrange(
                0,
                views(dir.parts@).len() as int,
            ));
        }
        true
    }
}

proof fn lemma_pieces_join(a: Seq<char>, b: Seq<char>)
    ensures
        pieces(a + seq!['/'] + b) == pieces(a) + pieces(b),
    decreases b.len(),
{
    let whole = a + seq!['/'] + b;
    if b.len() == 0 {
        assert(whole =~= a.push('/'));
        assert(whole.drop_last() =~= a);
        assert(pieces(b) =~= seq![Seq::<char>::empty()]);
        assert(pieces(whole) =~= pieces(a) + pieces(b));
    } else {
        let rest = b.drop_last();
        lemma_pieces_join(a, rest);
        assert(whole.drop_last() =~= a + seq!['/'] + rest);
        assert(whole.last() == b.last());
        lemma_pieces_nonempty(rest);
        let before = pieces(a) + pieces(rest);
        if b.last() == '/' {
            assert(pieces(whole) =~= pieces(a) + pieces(b));
        } else {
            assert(before.last() == pieces(rest).last());
            assert(before.drop_last() =~= pieces(a) + pieces(rest).drop_last());
            assert(pieces(whole) =~= pieces(a) + pieces(b));
        }
    }
}

proof fn lemma_pieces_nonempty(path: Seq<char>)
    ensures
        pieces(path).len() > 0,
    decreases path.len(),
{
    if path.len() > 0 {
        lemma_pieces_nonempty(path.drop_last());
    }
}

proof fn lemma_one_piece(part: Seq<char>)
    requires
        !part.contains('/'),
    ensures
        pieces(part) == seq![part],
    decreases part.len(),
{
    if part.len() > 0 {
        let rest = part.drop_last();
        assert(!rest.contains('/')) by {
            if rest.contains('/') {
                let i = rest.index_of('/');
                assert(part[i] == '/');
            }
        }
        lemma_one_piece(rest);
        assert(part.last() != '/') by {
            assert(part[part.len() - 1] == part.last());
        }
        assert(rest.push(part.last()) =~= part);
        assert(pieces(part) =~= seq![part]);
    } else {
        assert(part =~= Seq::<char>::empty());
        assert(pieces(part) =~= seq![part]);
    }
}

/// Whether parts are those of a path.
pub open spec fn are_parts(parts: Seq<Seq<char>>, rooted: bool) -> bool {
    forall|i: int|
        0 <= i < parts.len() ==> {
            &&& (#[trigger] parts[i]).len() > 0
            &&& !parts[i].contains('/')
            &&& parts[i] == "."@ ==> i == 0 && !rooted
        }
}

proof fn lemma_pieces_plain(path: Seq<char>)
    ensures
        forall|i: int| 0 <= i < pieces(path).len() ==> !(#[trigger] pieces(path)[i]).contains('/'),
        path.len() > 0 && path[0] == '/' ==> pieces(path)[0] == Seq::<char>::empty()
            && pieces(path).len() > 1,
    decreases path.len(),
{
    if path.len() > 0 {
        let rest = path.drop_last();
        lemma_pieces_plain(rest);
        lemma_pieces_nonempty(rest);
        let before = pieces(rest);
        assert forall|i: int| 0 <= i < pieces(path).len() implies !(#[trigger] pieces(
            path,
        )[i]).contains('/') by {
            if path.last() == '/' {
                if i < before.len() {
                    assert(pieces(path)[i] == before[i]);
                }
            } else if i < before.len() - 1 {
                assert(pieces(path)[i] == before[i]);
            } else {
                let grown = before.last().push(path.last());
                assert(pieces(path)[i] == grown);
                if grown.contains('/') {
                    let j = grown.index_of('/');
                    if j < before.last().len() {
                        assert(before.last()[j] == '/');
                        assert(before[before.len() - 1].contains('/'));
                    }
                }
            }
        }
        if path[0] == '/' {
            if rest.len() == 0 {
                assert(before =~= seq![Seq::<char>::empty()]);
            } else {
                assert(rest[0] == '/');
            }
        }
    } else {
        assert(pieces(path) =~= seq![Seq::<char>::empty()]);
    }
}

proof fn lemma_named(all: Seq<Seq<char>>, rooted: bool)
    requires
        forall|i: int| 0 <= i < all.len() ==> !(#[trigger] all[i]).contains('/'),
        rooted ==> all.len() > 0 && all[0] == Seq::<char>::empty(),
    ensures
        are_parts(named(all), rooted),
        named(all).len() <= all.len(),
    decreases all.len(),
{
    if all.len() > 0 {
        let rest = all.drop_last();
        let piece = all.last();
        if rest.len() > 0 || !rooted {
            assert forall|i: int| 0 <= i < rest.len() implies !(#[trigger] rest[i]).contains(
                '/',
            ) by {
                assert(rest[i] == all[i]);
            }
            lemma_named(rest, rooted);
        } else {
            assert(named(rest) =~= Seq::<Seq<char>>::empty());
            assert(piece == all[0]);
        }
        let before = named(rest);
        assert(all[all.len() - 1] == piece);
        assert forall|i: int| 0 <= i < named(all).len() implies {
            &&& (#[trigger] named(all)[i]).len() > 0
            &&& !named(all)[i].contains('/')
            &&& named(all)[i] == "."@ ==> i == 0 && !rooted
        } by {
            if i < before.len() {
                assert(named(all)[i] == before[i]);
            }
        }
    }
}

proof fn lemma_named_again(parts: Seq<Seq<char>>, rooted: bool)
    requires
        are_parts(parts, rooted),
    ensures
        !rooted ==> named(parts) == parts,
        rooted ==> named(seq![Seq::<char>::empty()] + parts) == parts,
    decreases parts.len(),
{
    if parts.len() > 0 {
        let rest = parts.drop_last();
        assert(are_parts(rest, rooted)) by {
            assert forall|i: int| 0 <= i < rest.len() implies {
                &&& (#[trigger] rest[i]).len() > 0
                &&& !rest[i].contains('/')
                &&& rest[i] == "."@ ==> i == 0 && !rooted
            } by {
                assert(rest[i] == parts[i]);
            }
        }
        lemma_named_again(rest, rooted);
        assert(parts[parts.len() - 1] == parts.last());
        assert(rest.push(parts.last()) =~= parts);
        if rooted {
            let all = seq![Seq::<char>::empty()] + parts;
            assert(all.drop_last() =~= seq![Seq::<char>::empty()] + rest);
            assert(all.last() == parts.last());
        }
    } else if rooted {
        let all = seq![Seq::<char>::empty()] + parts;
        assert(all =~= seq![Seq::<char>::empty()]);
        assert(all.drop_last() =~= Seq::<Seq<char>>::empty());
        assert(all.last() == Seq::<char>::empty());
        assert(named(all.drop_last()) =~= Seq::<Seq<char>>::empty());
        assert(named(all) =~= parts);
    }
}

proof fn lemma_pieces_joined(parts: Seq<Seq<char>>, rooted: bool)
    requires
        are_parts(parts, rooted),
        parts.len() > 0,
    ensures
        pieces(joined(parts, seq!['/'])) == parts,
        joined(parts, seq!['/']).len() > 0,
        joined(parts, seq!['/'])[0] != '/',
    decreases parts.len(),
{
    assert(parts[parts.len() - 1] == parts.last());
    lemma_one_piece(parts.last());
    if parts.len() == 1 {
        assert(parts =~= seq![parts[0]]);
        assert(!parts[0].contains('/'));
        assert(parts[0][0] != '/') by {
            if parts[0][0] == '/' {
                assert(parts[0].contains('/'));
            }
        }
    } else {
        let rest = parts.drop_last();
        assert(are_parts(rest, rooted)) by {
            assert forall|i: int| 0 <= i < rest.len() implies {
                &&& (#[trigger] rest[i]).len() > 0
                &&& !rest[i].contains('/')
                &&& rest[i] == "."@ ==> i == 0 && !rooted
            } by {
                assert(rest[i] == parts[i]);
            }
        }
        lemma_pieces_joined(rest, rooted);
        lemma_pieces_join(joined(rest, seq!['/']), parts.last());
        assert(rest + seq![parts.last()] =~= parts);
    }
}

/// Writing out the parts of a path changes none of them: what comes of it is the
/// same path.
pub proof fn a_path_written_out_keeps_its_parts(path: Seq<char>)
    ensures
        parts_of(parts_of(path).text()) == parts_of(path),
{
    let parts = parts_of(path).parts;
    let rooted = parts_of(path).rooted;
    lemma_pieces_plain(path);
    lemma_named(pieces(path), rooted);
    reveal_strlit("/");
    reveal_strlit("");
    assert("/"@ =~= seq!['/']);
    assert(""@ =~= Seq::<char>::empty());
    let rest = joined(parts, seq!['/']);
    let text = parts_of(path).text();
    if parts.len() > 0 {
        lemma_pieces_joined(parts, rooted);
    }
    lemma_named_again(parts, rooted);
    if rooted {
        assert(text =~= seq!['/'] + rest);
        lemma_pieces_join(Seq::empty(), rest);
        assert(Seq::<char>::empty() + seq!['/'] + rest =~= text);
        assert(pieces(Seq::<char>::empty()) =~= seq![Seq::<char>::empty()]);
        if parts.len() == 0 {
            assert(rest =~= Seq::<char>::empty());
            let all = pieces(text);
            assert(all =~= seq![Seq::<char>::empty(), Seq::<char>::empty()]);
            assert(all.drop_last() =~= seq![Seq::<char>::empty()]);
            assert(all.drop_last().drop_last() =~= Seq::<Seq<char>>::empty());
            assert(named(all.drop_last()) =~= Seq::<Seq<char>>::empty());
            assert(named(all) =~= parts);
        } else {
            assert(pieces(text) =~= seq![Seq::<char>::empty()] + parts);
        }
        assert(text[0] == '/');
    } else {
        assert(text =~= rest);
        if parts.len() == 0 {
            let all = pieces(text);
            assert(all =~= seq![Seq::<char>::empty()]);
            assert(all.drop_last() =~= Seq::<Seq<char>>::empty());
            assert(named(all) =~= parts);
        }
    }
}

/// A pattern as it stands in a directory: an absolute one stands alone.
pub open spec fn resolved_pattern(base: Seq<char>, pattern: Seq<char>) -> Seq<char> {
    if pattern.len() > 0 && pattern[0] == '/' {
        pattern
    } else if base.len() == 0 || base.last() == '/' {
        base + pattern
    } else {
        base + "/"@ + pattern
    }
}

/// A pattern as it stands in a directory.
pub fn resolve_pattern(base_dir: &str, pattern: &str) -> (r: String)
    ensures
        r@ == resolved_pattern(base_dir@, pattern@),
{
    let chars = chars_of(pattern);
    if chars.len() > 0 && chars[0] == '/' {
        return pattern.to_owned();
    }
    let base = chars_of(base_dir);
    let mut out = base_dir.to_owned();
    if base.len() > 0 && base[base.len() - 1] != '/' {
        out.append("/");
    }
    out.append(pattern);
    out
}

/// Whether a part of a pattern matches more than itself.
pub open spec fn is_wild(part: Seq<char>) -> bool {
    part.contains('*') || part.contains('?') || part.contains('[')
}

fn wild(part: &str) -> (r: bool)
    ensures
        r == is_wild(part@),
{
    let chars = chars_of(part);
    let mut i: usize = 0;
    while i < chars.len()
        invariant
            i <= chars@.len(),
            chars@ == part@,
            forall|j: int|
                0 <= j < i ==> (#[trigger] chars@[j]) != '*' && chars@[j] != '?' && chars@[j]
                    != '[',
        decreases chars@.len() - i,
    {
        let ch = chars[i];
        if ch == '*' || ch == '?' || ch == '[' {
            assert(chars@.contains(ch));
            return true;
        }
        i += 1;
    }
    false
}

/// The first part of a pattern that matches more than itself.
pub open spec fn first_wild(parts: Seq<Seq<char>>) -> int
    decreases parts.len(),
{
    if parts.len() == 0 {
        0
    } else if is_wild(parts[0]) {
        0
    } else {
        1 + first_wild(parts.drop_first())
    }
}

/// Everything before the first wild part is plain, and that part, if there is
/// one, is wild.
pub proof fn lemma_first_wild(parts: Seq<Seq<char>>)
    ensures
        0 <= first_wild(parts) <= parts.len(),
        first_wild(parts) < parts.len() ==> is_wild(parts[first_wild(parts)]),
        forall|i: int| 0 <= i < first_wild(parts) ==> !is_wild(#[trigger] parts[i]),
    decreases parts.len(),
{
    if parts.len() > 0 && !is_wild(parts[0]) {
        let rest = parts.drop_first();
        lemma_first_wild(rest);
        assert forall|i: int| 0 <= i < first_wild(parts) implies !is_wild(#[trigger] parts[i]) by {
            if i > 0 {
                assert(parts[i] == rest[i - 1]);
            }
        }
    }
}

/// The directory a pattern is watched from: what comes before its first wild
/// part, or the directory of a plain file.
pub open spec fn base_of(pattern: PathParts) -> PathParts {
    let at = first_wild(pattern.parts);
    if at < pattern.parts.len() {
        PathParts { rooted: pattern.rooted, parts: pattern.parts.take(at) }
    } else if pattern.parts.len() > 0 {
        PathParts { rooted: pattern.rooted, parts: pattern.parts.drop_last() }
    } else {
        PathParts { rooted: false, parts: Seq::empty() }
    }
}

/// The directory a pattern is watched from, as a path: the current one has a
/// name.
pub open spec fn watch_dir_of(pattern: Seq<char>) -> Seq<char> {
    let base = base_of(parts_of(pattern));
    if !base.rooted && base.parts.len() == 0 {
        "."@
    } else {
        base.text()
    }
}

/// The directory a pattern is watched from.
pub fn glob_base_dir(pattern: &str) -> (r: String)
    ensures
        r@ == watch_dir_of(pattern@),
{
    let components = Components::of(pattern);
    let mut kept: Vec<String> = Vec::new();
    let mut i: usize = 0;
    let ghost parts = views(components.parts@);
    proof {
        lemma_first_wild(parts);
        assert(views(kept@) =~= parts.take(0));
    }
    while i < components.parts.len() && !wild(components.parts[i].as_str())
        invariant
            i <= components.parts@.len(),
            parts == views(components.parts@),
            views(kept@) == parts.take(i as int),
            forall|j: int| 0 <= j < i ==> !is_wild(#[trigger] parts[j]),
        decreases components.parts@.len() - i,
    {
        let ghost before = views(kept@);
        assert(parts[i as int] == components.parts@[i as int]@);
        kept.push(components.parts[i].clone());
        proof {
            assert(views(kept@) =~= before.push(parts[i as int]));
            assert(parts.take(i + 1) =~= parts.take(i as int).push(parts[i as int]));
        }
        i += 1;
    }
    let found = i < components.parts.len();
    proof {
        if found {
            assert(parts[i as int] == components.parts@[i as int]@);
            assert(is_wild(parts[i as int]));
        }
        assert(first_wild(parts) == i) by {
            lemma_first_wild(parts);
            if first_wild(parts) < i {
                assert(is_wild(parts[first_wild(parts)]));
            }
            if i < first_wild(parts) {
                assert(!is_wild(parts[i as int]));
            }
        }
    }
    let mut rooted = components.rooted;
    if !found {
        if kept.len() == 0 {
            rooted = false;
        } else {
            let ghost all = kept@;
            kept.pop();
            proof {
                assert(parts.take(i as int) =~= parts);
                assert(views(kept@) =~= views(all).drop_last());
            }
        }
    }
    let base = Components { rooted, parts: kept };
    assert(base@ =~= base_of(components@)) by {
        assert(base@.parts =~= base_of(components@).parts);
    }
    assert(base@.parts.len() == base.parts@.len());
    if !base.rooted && base.parts.len() == 0 {
        ".".to_owned()
    } else {
        base.text()
    }
}

/// What a pattern is watched from has no wild part, and holds the pattern.
pub proof fn a_watched_directory_is_plain(pattern: PathParts)
    ensures
        forall|i: int| 0 <= i < base_of(pattern).parts.len() ==> !is_wild(
            #[trigger] base_of(pattern).parts[i],
        ),
        pattern.under(base_of(pattern)),
{
    lemma_first_wild(pattern.parts);
    let base = base_of(pattern);
    assert forall|i: int| 0 <= i < base.parts.len() implies !is_wild(#[trigger] base.parts[i]) by {
        assert(base.parts[i] == pattern.parts[i]);
    }
    if base.rooted || base.parts.len() > 0 {
        assert(base.parts =~= pattern.parts.subrange(0, base.parts.len() as int));
    }
}

/// A pattern that begins at the root is read as it is; any other is read under
/// its directory, after exactly one separator.
pub proof fn a_pattern_is_read_under_its_directory(base: Seq<char>, pattern: Seq<char>)
    ensures
        ({
            let full = resolved_pattern(base, pattern);
            &&& pattern.len() > 0 && pattern[0] == '/' ==> full == pattern
            &&& !(pattern.len() > 0 && pattern[0] == '/') ==> {
                &&& base.is_prefix_of(full)
                &&& has_suffix(full, pattern)
                &&& base.len() > 0 ==> full[full.len() - pattern.len() - 1] == '/'
                &&& base.len() == 0 || base.last() == '/' ==> full.len() == base.len()
                    + pattern.len()
                &&& base.len() > 0 && base.last() != '/' ==> full.len() == base.len() + 1
                    + pattern.len()
            }
        }),
{
    let full = resolved_pattern(base, pattern);
    if !(pattern.len() > 0 && pattern[0] == '/') {
        reveal_strlit("/");
        assert(full.skip(full.len() - pattern.len()) =~= pattern);
    }
}

/// The directory that is watched for a pattern is the longest part of it without
/// a wild card: all of the parts before the first that has one, or all but the
/// last where none has.
pub proof fn a_pattern_is_watched_from_its_longest_plain_part(pattern: PathParts)
    requires
        pattern.parts.len() > 0,
    ensures
        ({
            let base = base_of(pattern);
            let n = base.parts.len() as int;
            &&& base.rooted == pattern.rooted
            &&& base.parts == pattern.parts.take(n)
            &&& n < pattern.parts.len()
            &&& is_wild(pattern.parts[n]) || n == pattern.parts.len() - 1
            &&& forall|i: int| 0 <= i < n ==> !is_wild(#[trigger] pattern.parts[i])
        }),
{
    lemma_first_wild(pattern.parts);
    assert(pattern.parts.drop_last() =~= pattern.parts.take(pattern.parts.len() - 1));
}

/// A part is wild when it holds one of the characters that stand for others.
pub proof fn what_makes_a_part_wild(part: Seq<char>, i: int)
    requires
        0 <= i < part.len(),
    ensures
        part[i] == '*' || part[i] == '?' || part[i] == '[' ==> is_wild(part),
        is_wild(part) ==> exists|k: int|
            0 <= k < part.len() && (#[trigger] part[k] == '*' || part[k] == '?' || part[k] == '['),
{
}

/// A path lies under a directory when the directory's parts are its own first
/// ones, so it lies under itself and under every directory above it, and not
/// under one beside it.
pub proof fn a_path_lies_under_what_it_begins_with(path: PathParts, dir: PathParts, i: int)
    requires
        dir.rooted || dir.parts.len() > 0,
    ensures
        path.rooted || path.parts.len() > 0 ==> path.under(path),
        path.under(dir) ==> path.rooted == dir.rooted && dir.parts.len() <= path.parts.len(),
        path.under(dir) && 0 <= i < dir.parts.len() ==> path.parts[i] == dir.parts[i],
        0 <= i < dir.parts.len() && i < path.parts.len() && path.parts[i] != dir.parts[i]
            ==> !path.under(dir),
{
}

/// A path is cut at its separators: parts that are written one behind the other
/// with a separator between them are read as those parts, from the root where
/// the path begins with one.
pub proof fn a_path_is_cut_at_its_separators(parts: Seq<Seq<char>>)
    requires
        parts.len() > 0,
        forall|i: int|
            0 <= i < parts.len() ==> (#[trigger] parts[i]).len() > 0 && !parts[i].contains('/')
                && parts[i] != "."@,
    ensures
        parts_of(joined(parts, seq!['/'])).parts == parts,
        !parts_of(joined(parts, seq!['/'])).rooted,
        parts_of(seq!['/'] + joined(parts, seq!['/'])).parts == parts,
        parts_of(seq!['/'] + joined(parts, seq!['/'])).rooted,
{
    let rest = joined(parts, seq!['/']);
    let text = seq!['/'] + rest;
    lemma_pieces_joined(parts, false);
    lemma_named_again(parts, false);
    lemma_named_again(parts, true);
    lemma_pieces_join(Seq::empty(), rest);
    assert(Seq::<char>::empty() + seq!['/'] + rest =~= text);
    assert(pieces(Seq::<char>::empty()) =~= seq![Seq::<char>::empty()]);
    assert(pieces(text) =~= seq![Seq::<char>::empty()] + parts);
    every_part_has_its_place(parts, seq!['/'], 0);
    assert(rest.subrange(0, parts[0].len() as int) == parts[0]);
    assert(rest[0] == parts[0][0]);
    assert(parts[0].contains(parts[0][0]));
}

/// A pattern without a directory of its own is watched from here, and any other
/// from the directory it names.
pub proof fn a_pattern_without_a_directory_is_watched_from_here(pattern: Seq<char>)
    ensures
        ({
            let base = base_of(parts_of(pattern));
            &&& !base.rooted && base.parts.len() == 0 ==> watch_dir_of(pattern) == "."@
            &&& base.rooted || base.parts.len() > 0 ==> watch_dir_of(pattern) == base.text()
            &&& base.rooted ==> watch_dir_of(pattern).len() > 0 && watch_dir_of(pattern)[0] == '/'
        }),
{
    reveal_strlit("/");
}

} // verus!
