//! An index over the log lines the filter admits.
//!
//! The pane needs to know how many rows the admitted lines take, which line
//! owns the row at its top edge, and the lines from there down. The index keeps
//! that as a running list and mends it: lines that left the store fall off the
//! front, lines that arrived are appended, and only a changed filter or width
//! rebuilds it.
//!
//! Each entry records the rows before it since the index was built, not since
//! the front of the list, so dropping the front moves one number.
use crate::log_store::{ascending, first_key, LineKey, LogStore, StoredLogLine};
use crate::marks::{blank_rows, BlankMarks};
use crate::output::LogId;
use std::collections::VecDeque;
use vstd::prelude::*;

verus! {

/// One admitted line and the rows it takes.
pub struct Placed {
    pub id: LogId,
    /// How many stored lines before it came under the same number.
    pub nth: u64,
    pub rows: u32,
}

impl Placed {
    /// Where the line is in the stream.
    pub open spec fn key(&self) -> LineKey {
        LineKey { id: self.id, nth: self.nth }
    }
}

/// Rows a line takes, with the blank rows the reader marked after it.
pub open spec fn rows_of(entry: StoredLogLine, blanks: Map<LogId, u16>) -> int {
    let text = if entry.wrapped_rows == 0 {
        1
    } else if entry.wrapped_rows > u32::MAX {
        u32::MAX as int
    } else {
        entry.wrapped_rows as int
    };
    if text + blank_rows(blanks, entry.id) > u32::MAX {
        u32::MAX as int
    } else {
        text + blank_rows(blanks, entry.id)
    }
}

/// Rows a line takes, with the blank rows the reader marked after it.
pub fn rows_for(entry: &StoredLogLine, blanks: &BlankMarks) -> (r: u32)
    ensures
        r as int == rows_of(*entry, blanks@),
{
    let blank: u32 = blanks.count(entry.id) as u32;
    let text: u32 = if entry.wrapped_rows == 0 {
        1
    } else if entry.wrapped_rows as u64 > 0xffff_ffff {
        0xffff_ffff
    } else {
        entry.wrapped_rows as u32
    };
    text.saturating_add(blank)
}

/// The rows of the first `n` admitted lines.
pub open spec fn rows_before(lines: Seq<Placed>, n: int) -> int
    decreases n,
{
    if n <= 0 {
        0
    } else {
        rows_before(lines, n - 1) + lines[n - 1].rows
    }
}

/// The rows of all admitted lines.
pub open spec fn rows_in(lines: Seq<Placed>) -> int {
    rows_before(lines, lines.len() as int)
}

/// The filter answers for every line, and always the same.
pub open spec fn decides<F: Fn(&StoredLogLine) -> bool>(admits: F) -> bool {
    &&& forall|entry: &StoredLogLine| #[trigger] call_requires(admits, (entry,))
    &&& forall|entry: &StoredLogLine|
        !(#[trigger] call_ensures(admits, (entry,), true) && call_ensures(admits, (entry,), false))
}

/// Whether the filter lets a line through.
pub open spec fn lets<F: Fn(&StoredLogLine) -> bool>(admits: F, entry: StoredLogLine) -> bool {
    call_ensures(admits, (&entry,), true)
}

/// The filter gave the answer for a line that it is taken to give.
pub open spec fn answered<F: Fn(&StoredLogLine) -> bool>(admits: F, entry: StoredLogLine) -> bool {
    call_ensures(admits, (&entry,), lets(admits, entry))
}

/// The admitted lines, by walking the store.
pub open spec fn admitted<F: Fn(&StoredLogLine) -> bool>(
    entries: Seq<StoredLogLine>,
    blanks: Map<LogId, u16>,
    admits: F,
) -> Seq<Placed>
    decreases entries.len(),
{
    if entries.len() == 0 {
        Seq::empty()
    } else {
        let before = admitted(entries.drop_last(), blanks, admits);
        let last = entries.last();
        if lets(admits, last) {
            before.push(Placed { id: last.id, nth: last.nth, rows: rows_of(last, blanks) as u32 })
        } else {
            before
        }
    }
}

/// What is left of a list of lines when those before `oldest` are gone.
pub open spec fn from_oldest(lines: Seq<Placed>, oldest: LineKey) -> Seq<Placed>
    decreases lines.len(),
{
    if lines.len() > 0 && lines[0].key().before(oldest) {
        from_oldest(lines.drop_first(), oldest)
    } else {
        lines
    }
}

/// What is left of a list of lines when those the store no longer holds are
/// gone.
pub open spec fn still_held(lines: Seq<Placed>, entries: Seq<StoredLogLine>) -> Seq<Placed> {
    if entries.len() == 0 {
        Seq::empty()
    } else {
        from_oldest(lines, entries[0].key())
    }
}

/// The stored lines from place `from` of the stream on.
pub open spec fn numbered_from(entries: Seq<StoredLogLine>, from: LineKey) -> Seq<StoredLogLine>
    decreases entries.len(),
{
    if entries.len() > 0 && entries[0].key().before(from) {
        numbered_from(entries.drop_first(), from)
    } else {
        entries
    }
}

/// The place after the last line examined.
pub open spec fn place_after(entries: Seq<StoredLogLine>, otherwise: LineKey) -> LineKey {
    if entries.len() == 0 {
        otherwise
    } else {
        entries.last().key().after()
    }
}

/// Admitted lines are in the order of the stream.
pub open spec fn ids_ascend(lines: Seq<Placed>) -> bool {
    forall|i: int, j: int|
        0 <= i < j < lines.len() ==> (#[trigger] lines[i]).key().before((#[trigger] lines[j]).key())
}

/// How many admitted lines come before a place of the stream.
pub open spec fn lines_before(lines: Seq<Placed>, key: LineKey) -> int
    decreases lines.len(),
{
    if lines.len() > 0 && lines[0].key().before(key) {
        1 + lines_before(lines.drop_first(), key)
    } else {
        0
    }
}

/// How many admitted lines are numbered below `id`.
pub open spec fn place_of(lines: Seq<Placed>, id: LogId) -> int {
    lines_before(lines, first_key(id))
}

/// The line that owns row `offset`: the last one that starts at or before it.
pub open spec fn owns(lines: Seq<Placed>, at: int, offset: int) -> bool {
    &&& 0 <= at < lines.len()
    &&& rows_before(lines, at) <= offset
    &&& at + 1 < lines.len() ==> offset < rows_before(lines, at + 1)
}

#[derive(Debug, Clone, Copy)]
struct Indexed {
    key: LineKey,
    /// Rows of every admitted line before this one since the index was built.
    cum: u128,
    rows: u32,
}

/// What the index was built against. When any of it moves, the index is
/// rebuilt rather than mended.
#[derive(Debug, Clone, Copy, PartialEq, Eq, Structural)]
pub struct ViewKey {
    pub width: u16,
    /// A fingerprint of everything the filter consults.
    pub filter: u64,
}

/// Past this many rows counted since the index was built, the next mend
/// rebuilds it, so that the count never overflows.
const WORN: u128 = 0x10_0000_0000_0000_0000_0000_0000;

/// A mendable index over the admitted lines.
pub struct ViewIndex {
    entries: VecDeque<Indexed>,
    /// Rows before the first entry that is left.
    base: u128,
    /// Rows counted so far.
    next_cum: u128,
    /// The place of the stream after the last line examined.
    next: LineKey,
    key: ViewKey,
    built: bool,
}

spec fn placed(entries: Seq<Indexed>) -> Seq<Placed> {
    Seq::new(
        entries.len(),
        |i: int| Placed { id: entries[i].key.id, nth: entries[i].key.nth, rows: entries[i].rows },
    )
}

spec fn summed(entries: Seq<Indexed>, base: u128, next_cum: u128) -> bool {
    &&& forall|i: int|
        0 <= i < entries.len() ==> (#[trigger] entries[i]).cum == base + rows_before(
            placed(entries),
            i,
        ) && entries[i].rows >= 1
    &&& next_cum == base + rows_in(placed(entries))
}

proof fn lemma_same_prefix(a: Seq<Placed>, b: Seq<Placed>, n: int)
    requires
        0 <= n <= a.len(),
        n <= b.len(),
        forall|i: int| 0 <= i < n ==> a[i] == b[i],
    ensures
        rows_before(a, n) == rows_before(b, n),
    decreases n,
{
    if n > 0 {
        lemma_same_prefix(a, b, n - 1);
    }
}

/// Rows before a line only grow along the list.
pub proof fn lemma_rows_grow(lines: Seq<Placed>, m: int, n: int)
    requires
        0 <= m <= n <= lines.len(),
    ensures
        0 <= rows_before(lines, m) <= rows_before(lines, n),
    decreases n,
{
    if n > 0 {
        if m == n {
            lemma_rows_grow(lines, m - 1, n - 1);
        } else {
            lemma_rows_grow(lines, m, n - 1);
        }
    }
}

proof fn lemma_drop_first(lines: Seq<Placed>, n: int)
    requires
        lines.len() > 0,
        0 <= n < lines.len(),
    ensures
        rows_before(lines, n + 1) == lines[0].rows + rows_before(lines.drop_first(), n),
    decreases n,
{
    if n > 0 {
        lemma_drop_first(lines, n - 1);
    } else {
        assert(rows_before(lines, 0) == 0);
    }
}

proof fn lemma_pop_front(entries: Seq<Indexed>, base: u128, next_cum: u128)
    requires
        entries.len() > 0,
        summed(entries, base, next_cum),
        base + entries[0].rows <= u128::MAX,
    ensures
        summed(entries.drop_first(), (base + entries[0].rows) as u128, next_cum),
        placed(entries.drop_first()) == placed(entries).drop_first(),
{
    let rest = entries.drop_first();
    assert(placed(rest) =~= placed(entries).drop_first());
    assert forall|i: int| 0 <= i < rest.len() implies (#[trigger] rest[i]).cum == base
        + entries[0].rows + rows_before(placed(rest), i) && rest[i].rows >= 1 by {
        assert(rest[i] == entries[i + 1]);
        lemma_drop_first(placed(entries), i);
    }
    lemma_drop_first(placed(entries), entries.len() - 1);
}

proof fn lemma_push_back(entries: Seq<Indexed>, base: u128, next_cum: u128, key: LineKey, rows: u32)
    requires
        summed(entries, base, next_cum),
        rows >= 1,
        next_cum + rows <= u128::MAX,
    ensures
        summed(
            entries.push(Indexed { key, cum: next_cum, rows }),
            base,
            (next_cum + rows) as u128,
        ),
        placed(entries.push(Indexed { key, cum: next_cum, rows })) == placed(entries).push(
            Placed { id: key.id, nth: key.nth, rows },
        ),
{
    let more = entries.push(Indexed { key, cum: next_cum, rows });
    assert(placed(more) =~= placed(entries).push(Placed { id: key.id, nth: key.nth, rows }));
    assert forall|i: int| 0 <= i < more.len() implies (#[trigger] more[i]).cum == base
        + rows_before(placed(more), i) && more[i].rows >= 1 by {
        lemma_same_prefix(placed(more), placed(entries), i);
        if i < entries.len() {
            assert(more[i] == entries[i]);
        }
    }
    lemma_same_prefix(placed(more), placed(entries), entries.len() as int);
}

/// Along the stream, a place is where the lines before it end.
proof fn lemma_place(lines: Seq<Placed>, key: LineKey, at: int)
    requires
        0 <= at <= lines.len(),
        forall|i: int| 0 <= i < at ==> (#[trigger] lines[i]).key().before(key),
        at < lines.len() ==> !lines[at].key().before(key),
    ensures
        lines_before(lines, key) == at,
    decreases at,
{
    if at > 0 {
        assert(lines[0].key().before(key));
        let rest = lines.drop_first();
        assert forall|i: int| 0 <= i < at - 1 implies (#[trigger] rest[i]).key().before(key) by {
            assert(rest[i] == lines[i + 1]);
        }
        lemma_place(rest, key, at - 1);
    }
}

/// The lines before a place are at most all of them, and lines in the order of
/// the stream are split by it.
pub proof fn lemma_lines_before(lines: Seq<Placed>, key: LineKey)
    ensures
        0 <= lines_before(lines, key) <= lines.len(),
        forall|i: int|
            0 <= i < lines_before(lines, key) ==> (#[trigger] lines[i]).key().before(key),
        lines_before(lines, key) < lines.len() ==> !lines[lines_before(lines, key)].key().before(
            key,
        ),
    decreases lines.len(),
{
    if lines.len() > 0 && lines[0].key().before(key) {
        let rest = lines.drop_first();
        lemma_lines_before(rest, key);
        assert forall|i: int| 0 <= i < lines_before(lines, key) implies (
        #[trigger] lines[i]).key().before(key) by {
            if i > 0 {
                assert(rest[i - 1].key().before(key));
            }
        }
    }
}

/// A line of the list is found at its own place.
pub proof fn lemma_own_place(lines: Seq<Placed>, at: int)
    requires
        ids_ascend(lines),
        0 <= at < lines.len(),
    ensures
        lines_before(lines, lines[at].key()) == at,
        0 <= place_of(lines, lines[at].id) <= at,
        lines[place_of(lines, lines[at].id)].id == lines[at].id,
{
    lemma_place(lines, lines[at].key(), at);
    let first = first_key(lines[at].id);
    lemma_lines_before(lines, first);
    let p = lines_before(lines, first);
    if p > at {
        assert(lines[at].key().before(first));
    } else if p < at {
        assert(lines[p].key().before(lines[at].key()));
    }
}

proof fn lemma_numbered_from(entries: Seq<StoredLogLine>, from: LineKey, at: int)
    requires
        0 <= at <= entries.len(),
        forall|i: int| 0 <= i < at ==> (#[trigger] entries[i]).key().before(from),
        at < entries.len() ==> !entries[at].key().before(from),
    ensures
        numbered_from(entries, from) == entries.skip(at),
    decreases at,
{
    if at > 0 {
        assert(entries[0].key().before(from));
        let rest = entries.drop_first();
        assert forall|i: int| 0 <= i < at - 1 implies (#[trigger] rest[i]).key().before(from) by {
            assert(rest[i] == entries[i + 1]);
        }
        lemma_numbered_from(rest, from, at - 1);
        assert(rest.skip(at - 1) =~= entries.skip(at));
    } else {
        assert(entries.skip(0) =~= entries);
    }
}

impl View for ViewIndex {
    type V = Seq<Placed>;

    closed spec fn view(&self) -> Seq<Placed> {
        placed(self.entries@)
    }
}

impl ViewIndex {
    #[verifier::type_invariant]
    spec fn coherent(self) -> bool {
        &&& summed(self.entries@, self.base, self.next_cum)
        &&& self.next_cum <= 2 * WORN
    }

    /// The place of the stream from which the next mend resumes.
    pub closed spec fn resumes_at(&self) -> LineKey {
        self.next
    }

    /// Whether a sync with this key mends the index instead of rebuilding it.
    pub closed spec fn mends_for(&self, key: ViewKey) -> bool {
        self.built && self.key == key && self.next_cum <= WORN
    }

    /// What it was built against.
    pub closed spec fn built_for(&self) -> Option<ViewKey> {
        if self.built {
            Some(self.key)
        } else {
            None
        }
    }

    /// An index of nothing.
    pub fn new() -> (r: ViewIndex)
        ensures
            r@ == Seq::<Placed>::empty(),
            r.built_for() is None,
            forall|key: ViewKey| !#[trigger] r.mends_for(key),
            r.resumes_at() == first_key(LogId(0)),
    {
        let r = ViewIndex {
            entries: VecDeque::new(),
            base: 0,
            next_cum: 0,
            next: LineKey { id: LogId(0), nth: 0 },
            key: ViewKey { width: 0, filter: 0 },
            built: false,
        };
        assert(r@ =~= Seq::<Placed>::empty());
        r
    }

    /// Brings the index up to date with the store.
    ///
    /// Cheap in the common case, and a full rebuild only when the filter or the
    /// pane width has moved.
    pub fn sync<F: Fn(&StoredLogLine) -> bool>(
        &mut self,
        store: &LogStore,
        key: ViewKey,
        blanks: &BlankMarks,
        admits: F,
    )
        requires
            decides(admits),
        ensures
            final(self).built_for() == Some(key),
            forall|other: ViewKey| #[trigger] final(self).mends_for(other) ==> other == key,
            !old(self).mends_for(key) ==> {
                &&& final(self)@ == admitted(store@, blanks@, admits)
                &&& final(self).resumes_at() == place_after(store@, first_key(LogId(0)))
                &&& forall|i: int| 0 <= i < store@.len() ==> answered(admits, #[trigger] store@[i])
            },
            old(self).mends_for(key) && ascending(store@) ==> {
                let arrived = numbered_from(store@, old(self).resumes_at());
                &&& final(self)@ == still_held(old(self)@, store@) + admitted(
                    arrived,
                    blanks@,
                    admits,
                )
                &&& final(self).resumes_at() == place_after(arrived, old(self).resumes_at())
                &&& forall|i: int|
                    0 <= i < arrived.len() ==> answered(admits, #[trigger] arrived[i])
            },
    {
        proof {
            use_type_invariant(&*self);
        }
        let mend = self.built && self.key.width == key.width && self.key.filter == key.filter
            && self.next_cum <= WORN;
        assert(mend == self.mends_for(key));
        let mut entries: VecDeque<Indexed> = VecDeque::new();
        let mut base: u128 = 0;
        let mut next_cum: u128 = 0;
        let mut next: LineKey = LineKey { id: LogId(0), nth: 0 };
        let mut at: usize = 0;
        let ghost held = if mend {
            still_held(self@, store@)
        } else {
            Seq::<Placed>::empty()
        };
        assert(placed(entries@) =~= Seq::<Placed>::empty());
        if mend {
            base = self.base;
            next_cum = self.next_cum;
            next = self.next;
            let ghost before = self.entries@;
            let fresh = ViewIndex {
                entries: VecDeque::new(),
                base: 0,
                next_cum: 0,
                next: LineKey { id: LogId(0), nth: 0 },
                key,
                built: false,
            };
            let mut whole = fresh;
            std::mem::swap(&mut whole, self);
            entries = whole.entries;
            let oldest_key = if store.len() > 0 {
                Some(store.entry(0).line_key())
            } else {
                None
            };
            match oldest_key {
                Some(oldest) => {
                    while entries.len() > 0 && entries[0].key.is_before(&oldest)
                        invariant
                            summed(entries@, base, next_cum),
                            next_cum <= WORN,
                            from_oldest(placed(entries@), oldest) == from_oldest(
                                placed(before),
                                oldest,
                            ),
                        decreases entries@.len(),
                    {
                        proof {
                            lemma_rows_grow(placed(entries@), 1, entries@.len() as int);
                            assert(rows_before(placed(entries@), 1) == rows_before(
                                placed(entries@),
                                0,
                            ) + placed(entries@)[0].rows);
                            lemma_pop_front(entries@, base, next_cum);
                            assert(placed(entries@)[0].key().before(oldest));
                            assert(entries@.subrange(1, entries@.len() as int)
                                =~= entries@.drop_first());
                        }
                        let gone = entries.pop_front().unwrap();
                        base = gone.cum + gone.rows as u128;
                    }
                },
                None => {
                    entries = VecDeque::new();
                    base = next_cum;
                    assert(placed(entries@) =~= Seq::<Placed>::empty());
                },
            }
            at = store.first_at_least(next);
            assert(placed(entries@) == held);
        }
        let ghost resumed = next;
        let ghost start = at as int;
        proof {
            if mend && ascending(store@) {
                lemma_numbered_from(store@, resumed, at as int);
            }
            assert(store@.subrange(start, start) =~= Seq::<StoredLogLine>::empty());
            assert(placed(entries@) =~= held + admitted(
                store@.subrange(start, start),
                blanks@,
                admits,
            ));
        }
        let count: usize = store.len();
        let mut i: usize = at;
        while i < count
            invariant
                0 <= start <= i <= count,
                count == store@.len(),
                decides(admits),
                summed(entries@, base, next_cum),
                next_cum <= WORN + (i - start) * 0xffff_ffff,
                placed(entries@) == held + admitted(
                    store@.subrange(start, i as int),
                    blanks@,
                    admits,
                ),
                next == place_after(store@.subrange(start, i as int), resumed),
                forall|j: int| start <= j < i ==> answered(admits, #[trigger] store@[j]),
            decreases count - i,
        {
            let entry = store.entry(i);
            next = entry.line_key().next();
            proof {
                let seen = store@.subrange(start, i + 1);
                assert(seen.drop_last() =~= store@.subrange(start, i as int));
                assert(seen.last() == *entry);
            }
            if admits(entry) {
                let rows: u32 = rows_for(entry, blanks);
                proof {
                    lemma_push_back(entries@, base, next_cum, entry.key(), rows);
                    assert(lets(admits, *entry));
                    let seen = admitted(store@.subrange(start, i as int), blanks@, admits);
                    let new = Placed { id: entry.id, nth: entry.nth, rows };
                    assert((held + seen).push(new) =~= held + seen.push(new));
                }
                entries.push_back(Indexed { key: entry.line_key(), cum: next_cum, rows });
                next_cum = next_cum + rows as u128;
            } else {
                assert(!lets(admits, *entry));
            }
            i += 1;
        }
        proof {
            assert(store@.subrange(start, count as int) =~= store@.skip(start));
            assert(store@.skip(0) =~= store@);
            assert forall|j: int| 0 <= j < store@.skip(start).len() implies answered(
                admits,
                #[trigger] store@.skip(start)[j],
            ) by {
                assert(answered(admits, store@[start + j]));
            }
            assert(held + admitted(store@, blanks@, admits) =~= admitted(store@, blanks@, admits)
                || mend);
        }
        *self = ViewIndex { entries, base, next_cum, next, key, built: true };
    }

    /// Rows the admitted content takes. A count past `usize::MAX` reads as
    /// `usize::MAX`.
    pub fn total_rows(&self) -> (r: usize)
        ensures
            r as int == crate::style::at_most_usize(rows_in(self@)),
            rows_in(self@) >= 0,
    {
        proof {
            use_type_invariant(self);
            lemma_rows_grow(self@, 0, self@.len() as int);
        }
        let rows: u128 = self.next_cum - self.base;
        if rows > usize::MAX as u128 {
            usize::MAX
        } else {
            rows as usize
        }
    }

    fn first_at_least(&self, key: LineKey) -> (r: usize)
        ensures
            r <= self.entries@.len(),
            ids_ascend(self@) ==> r as int == lines_before(self@, key),
    {
        let mut low: usize = 0;
        let mut high: usize = self.entries.len();
        while low < high
            invariant
                low <= high <= self.entries@.len(),
                ids_ascend(self@) ==> (forall|i: int|
                    0 <= i < low ==> (#[trigger] self@[i]).key().before(key)),
                ids_ascend(self@) && high < self@.len() ==> !self@[high as int].key().before(key),
            decreases high - low,
        {
            let middle: usize = low + (high - low) / 2;
            assert(self@[middle as int].key() == self.entries@[middle as int].key);
            if self.entries[middle].key.is_before(&key) {
                low = middle + 1;
            } else {
                high = middle;
            }
        }
        proof {
            if ids_ascend(self@) {
                lemma_place(self@, key, low as int);
            }
        }
        low
    }

    /// Rows above the line `id`; a line that is not admitted reads as the next
    /// one that is. `None` when no admitted line is numbered `id` or above.
    pub fn rows_above(&self, id: LogId) -> (r: Option<usize>)
        ensures
            ids_ascend(self@) ==> r == (if place_of(self@, id) < self@.len() && rows_before(
                self@,
                place_of(self@, id),
            ) <= usize::MAX {
                Some(rows_before(self@, place_of(self@, id)) as usize)
            } else {
                None
            }),
            r matches Some(above) ==> above <= rows_in(self@),
    {
        proof {
            use_type_invariant(self);
        }
        let at: usize = self.first_at_least(LineKey { id, nth: 0 });
        if at < self.entries.len() {
            proof {
                lemma_rows_grow(self@, 0, at as int);
                lemma_rows_grow(self@, at as int, self@.len() as int);
            }
            let above: u128 = self.entries[at].cum - self.base;
            if above > usize::MAX as u128 {
                None
            } else {
                Some(above as usize)
            }
        } else {
            None
        }
    }

    /// The admitted lines from `id` onwards, in order.
    pub fn ids_from(&self, id: LogId) -> (r: Vec<LogId>)
        ensures
            r@.len() <= self@.len(),
            forall|i: int|
                0 <= i < r@.len() ==> #[trigger] r@[i] == self@[i + self@.len() - r@.len()].id,
            ids_ascend(self@) ==> r@.len() == self@.len() - place_of(self@, id),
    {
        let at: usize = self.first_at_least(LineKey { id, nth: 0 });
        let mut out: Vec<LogId> = Vec::new();
        let mut i: usize = at;
        while i < self.entries.len()
            invariant
                at <= i <= self.entries@.len(),
                out@.len() == i - at,
                forall|k: int| 0 <= k < out@.len() ==> #[trigger] out@[k] == self@[k + at].id,
            decreases self.entries@.len() - i,
        {
            assert(self@[i as int].id == self.entries@[i as int].key.id);
            out.push(self.entries[i].key.id);
            i += 1;
        }
        out
    }

    /// Where the admitted lines from a place of the stream onwards are, in
    /// order.
    pub fn keys_from(&self, key: LineKey) -> (r: Vec<LineKey>)
        ensures
            r@.len() <= self@.len(),
            forall|i: int|
                0 <= i < r@.len() ==> #[trigger] r@[i] == self@[i + self@.len() - r@.len()].key(),
            ids_ascend(self@) ==> r@.len() == self@.len() - lines_before(self@, key),
    {
        let at: usize = self.first_at_least(key);
        let mut out: Vec<LineKey> = Vec::new();
        let mut i: usize = at;
        while i < self.entries.len()
            invariant
                at <= i <= self.entries@.len(),
                out@.len() == i - at,
                forall|k: int| 0 <= k < out@.len() ==> #[trigger] out@[k] == self@[k + at].key(),
            decreases self.entries@.len() - i,
        {
            assert(self@[i as int].key() == self.entries@[i as int].key);
            out.push(self.entries[i].key);
            i += 1;
        }
        out
    }

    /// Which admitted line owns row `offset`, and how far into it that row is.
    /// A distance past `u16::MAX` reads as `u16::MAX`.
    pub fn line_at(&self, offset: usize) -> (r: Option<(LogId, u16)>)
        ensures
            r is None <==> self@.len() == 0,
            r matches Some((id, within)) ==> exists|at: int|
                {
                    &&& #[trigger] owns(self@, at, offset as int)
                    &&& id == self@[at].id
                    &&& within as int == (if offset - rows_before(self@, at) > u16::MAX {
                        u16::MAX as int
                    } else {
                        offset - rows_before(self@, at)
                    })
                },
    {
        match self.owner_at(offset) {
            Some((key, within)) => Some((key.id, within)),
            None => None,
        }
    }

    /// Where the admitted line that owns row `offset` is in the stream, and how
    /// far into it that row is. A distance past `u16::MAX` reads as `u16::MAX`.
    pub fn owner_at(&self, offset: usize) -> (r: Option<(LineKey, u16)>)
        ensures
            r is None <==> self@.len() == 0,
            r matches Some((key, within)) ==> exists|at: int|
                {
                    &&& #[trigger] owns(self@, at, offset as int)
                    &&& key == self@[at].key()
                    &&& within as int == (if offset - rows_before(self@, at) > u16::MAX {
                        u16::MAX as int
                    } else {
                        offset - rows_before(self@, at)
                    })
                },
    {
        proof {
            use_type_invariant(self);
        }
        if self.entries.len() == 0 {
            return None;
        }
        proof {
            lemma_rows_grow(self@, 0, self@.len() as int);
        }
        let want: u128 = self.base + offset as u128;
        let mut low: usize = 1;
        let mut high: usize = self.entries.len();
        while low < high
            invariant
                summed(self.entries@, self.base, self.next_cum),
                want == self.base + offset,
                1 <= low <= high <= self.entries@.len(),
                rows_before(self@, low - 1) <= offset,
                high < self@.len() ==> offset < rows_before(self@, high as int),
            decreases high - low,
        {
            let middle: usize = low + (high - low) / 2;
            if self.entries[middle].cum <= want {
                low = middle + 1;
            } else {
                high = middle;
            }
        }
        let at: usize = low - 1;
        let entry = self.entries[at];
        let far: u128 = want - entry.cum;
        let within: u16 = if far > 0xffff {
            0xffff
        } else {
            far as u16
        };
        assert(owns(self@, at as int, offset as int));
        Some((entry.key, within))
    }
}

proof fn lemma_admitted_append<F: Fn(&StoredLogLine) -> bool>(
    a: Seq<StoredLogLine>,
    b: Seq<StoredLogLine>,
    blanks: Map<LogId, u16>,
    admits: F,
)
    ensures
        admitted(a + b, blanks, admits) == admitted(a, blanks, admits) + admitted(
            b,
            blanks,
            admits,
        ),
    decreases b.len(),
{
    if b.len() == 0 {
        assert(a + b =~= a);
        assert(admitted(a, blanks, admits) + Seq::<Placed>::empty() =~= admitted(
            a,
            blanks,
            admits,
        ));
    } else {
        lemma_admitted_append(a, b.drop_last(), blanks, admits);
        assert((a + b).drop_last() =~= a + b.drop_last());
        assert(admitted(a + b, blanks, admits) =~= admitted(a, blanks, admits) + admitted(
            b,
            blanks,
            admits,
        ));
    }
}

/// Admitted lines are stored lines.
pub proof fn lemma_admitted_come_from<F: Fn(&StoredLogLine) -> bool>(
    entries: Seq<StoredLogLine>,
    blanks: Map<LogId, u16>,
    admits: F,
    k: int,
) -> (at: int)
    requires
        0 <= k < admitted(entries, blanks, admits).len(),
    ensures
        0 <= at < entries.len(),
        lets(admits, entries[at]),
        admitted(entries, blanks, admits)[k].key() == entries[at].key(),
        admitted(entries, blanks, admits)[k].rows as int == rows_of(entries[at], blanks),
    decreases entries.len(),
{
    let before = admitted(entries.drop_last(), blanks, admits);
    if k < before.len() {
        lemma_admitted_come_from(entries.drop_last(), blanks, admits, k)
    } else {
        entries.len() - 1
    }
}

/// Admitted lines of a store with ascending numbers ascend too.
pub proof fn lemma_admitted_ascend<F: Fn(&StoredLogLine) -> bool>(
    entries: Seq<StoredLogLine>,
    blanks: Map<LogId, u16>,
    admits: F,
)
    requires
        ascending(entries),
    ensures
        ids_ascend(admitted(entries, blanks, admits)),
    decreases entries.len(),
{
    if entries.len() > 0 {
        let rest = entries.drop_last();
        assert forall|i: int, j: int| 0 <= i < j < rest.len() implies (#[trigger] rest[i]).key().before(
            (#[trigger] rest[j]).key(),
        ) by {
            assert(entries[i].key().before(entries[j].key()));
        }
        lemma_admitted_ascend(rest, blanks, admits);
        let before = admitted(rest, blanks, admits);
        let all = admitted(entries, blanks, admits);
        assert forall|i: int, j: int| 0 <= i < j < all.len() implies (#[trigger] all[i]).key().before(
            (#[trigger] all[j]).key(),
        ) by {
            if j == before.len() {
                let at = lemma_admitted_come_from(rest, blanks, admits, i);
                assert(entries[at].key().before(entries[entries.len() - 1].key()));
            } else {
                assert(before[i].key().before(before[j].key()));
            }
        }
    }
}

proof fn lemma_from_oldest_drops(a: Seq<Placed>, b: Seq<Placed>, oldest: LineKey)
    requires
        forall|i: int| 0 <= i < a.len() ==> (#[trigger] a[i]).key().before(oldest),
        b.len() > 0 ==> !b[0].key().before(oldest),
    ensures
        from_oldest(a + b, oldest) == b,
    decreases a.len(),
{
    if a.len() == 0 {
        assert(a + b =~= b);
    } else {
        assert(a[0].key().before(oldest));
        let rest = a.drop_first();
        assert forall|i: int| 0 <= i < rest.len() implies (#[trigger] rest[i]).key().before(
            oldest,
        ) by {
            assert(rest[i] == a[i + 1]);
        }
        lemma_from_oldest_drops(rest, b, oldest);
        assert((a + b).drop_first() =~= rest + b);
    }
}

/// One state of the store is an older state with some of its first lines gone
/// and later lines appended, none of which the index has examined yet.
pub open spec fn follows(
    earlier: Seq<StoredLogLine>,
    later: Seq<StoredLogLine>,
    gone: int,
    resumed: LineKey,
) -> bool {
    let kept = earlier.len() - gone;
    &&& 0 <= gone <= earlier.len()
    &&& kept <= later.len()
    &&& later.take(kept) == earlier.skip(gone)
    &&& ascending(earlier)
    &&& ascending(later)
    &&& forall|i: int| 0 <= i < earlier.len() ==> (#[trigger] earlier[i]).key().before(resumed)
    &&& forall|i: int| kept <= i < later.len() ==> !(#[trigger] later[i]).key().before(resumed)
}

/// An index is mended only for the width and the filter it was built for: for
/// any others, and before it was built at all, it is built anew.
pub proof fn a_changed_key_rebuilds(index: ViewIndex, key: ViewKey)
    ensures
        index.mends_for(key) ==> index.built_for() == Some(key),
{
}

/// A mend lands where a rebuild would: dropping what left the store and
/// appending what arrived gives the list that walking the store gives.
pub proof fn mending_matches_rebuilding<F: Fn(&StoredLogLine) -> bool>(
    earlier: Seq<StoredLogLine>,
    later: Seq<StoredLogLine>,
    gone: int,
    resumed: LineKey,
    blanks: Map<LogId, u16>,
    admits: F,
)
    requires
        follows(earlier, later, gone, resumed),
    ensures
        still_held(admitted(earlier, blanks, admits), later) + admitted(
            numbered_from(later, resumed),
            blanks,
            admits,
        ) == admitted(later, blanks, admits),
{
    let left = earlier.take(gone);
    let kept = earlier.skip(gone);
    let count = earlier.len() - gone;
    let arrived = later.skip(count);
    assert(later =~= kept + arrived) by {
        assert(later =~= later.take(count) + later.skip(count));
    }
    lemma_admitted_append(kept, arrived, blanks, admits);
    assert forall|i: int| 0 <= i < count implies (#[trigger] later[i]).key().before(resumed) by {
        assert(later.take(count)[i] == later[i]);
        assert(kept[i] == earlier[i + gone]);
    }
    lemma_numbered_from(later, resumed, count);
    if later.len() > 0 {
        let oldest = later[0].key();
        assert(earlier =~= left + kept);
        lemma_admitted_append(left, kept, blanks, admits);
        let a = admitted(left, blanks, admits);
        let b = admitted(kept, blanks, admits);
        assert forall|i: int| 0 <= i < a.len() implies (#[trigger] a[i]).key().before(oldest) by {
            let at = lemma_admitted_come_from(left, blanks, admits, i);
            assert(left[at] == earlier[at]);
            if count > 0 {
                assert(later.take(count)[0] == later[0]);
                assert(kept[0] == earlier[gone]);
                assert(earlier[at].key().before(earlier[gone].key()));
            } else {
                assert(!later[0].key().before(resumed));
            }
        }
        if b.len() > 0 {
            let at = lemma_admitted_come_from(kept, blanks, admits, 0);
            assert(kept[at] == later[at]) by {
                assert(later.take(count)[at] == later[at]);
            }
            if at > 0 {
                assert(later[0].key().before(later[at].key()));
            }
        }
        lemma_from_oldest_drops(a, b, oldest);
        assert(still_held(admitted(earlier, blanks, admits), later) == b);
    } else {
        assert(arrived =~= Seq::<StoredLogLine>::empty());
        assert(kept =~= Seq::<StoredLogLine>::empty());
        assert(numbered_from(later, resumed) =~= Seq::<StoredLogLine>::empty());
        assert(Seq::<Placed>::empty() + Seq::<Placed>::empty() =~= Seq::<Placed>::empty());
    }
}

/// After a sync every stored line has been examined, so the next mend resumes
/// past all of them.
pub proof fn a_sync_examines_everything(
    later: Seq<StoredLogLine>,
    resumed: LineKey,
    i: int,
)
    requires
        ascending(later),
        0 <= i < later.len(),
        later.last().id.0 < u64::MAX,
    ensures
        later[i].key().before(place_after(later, first_key(LogId(0)))),
        numbered_from(later, resumed).len() > 0 ==> place_after(
            numbered_from(later, resumed),
            resumed,
        ) == place_after(later, first_key(LogId(0))),
        numbered_from(later, resumed).len() == 0 ==> later[i].key().before(resumed),
    decreases later.len(),
{
    if i < later.len() - 1 {
        assert(later[i].key().before(later[later.len() - 1].key()));
    }
    if later[0].key().before(resumed) {
        let rest = later.drop_first();
        if rest.len() > 0 {
            assert forall|a: int, b: int| 0 <= a < b < rest.len() implies (
            #[trigger] rest[a]).key().before((#[trigger] rest[b]).key()) by {
                assert(later[a + 1].key().before(later[b + 1].key()));
            }
            let k = if i > 0 {
                i - 1
            } else {
                0
            };
            a_sync_examines_everything(rest, resumed, k);
            assert(i > 0 ==> rest[i - 1] == later[i]);
        }
    }
}

/// Rows the admitted lines take, by walking the store.
pub open spec fn walked_rows<F: Fn(&StoredLogLine) -> bool>(
    entries: Seq<StoredLogLine>,
    blanks: Map<LogId, u16>,
    admits: F,
) -> int
    decreases entries.len(),
{
    if entries.len() == 0 {
        0
    } else {
        walked_rows(entries.drop_last(), blanks, admits) + if lets(admits, entries.last()) {
            rows_of(entries.last(), blanks)
        } else {
            0
        }
    }
}

/// The index counts the rows that walking the store counts.
pub proof fn the_index_agrees_with_walking_the_store<F: Fn(&StoredLogLine) -> bool>(
    entries: Seq<StoredLogLine>,
    blanks: Map<LogId, u16>,
    admits: F,
)
    ensures
        rows_in(admitted(entries, blanks, admits)) == walked_rows(entries, blanks, admits),
    decreases entries.len(),
{
    if entries.len() > 0 {
        the_index_agrees_with_walking_the_store(entries.drop_last(), blanks, admits);
        let before = admitted(entries.drop_last(), blanks, admits);
        let all = admitted(entries, blanks, admits);
        lemma_same_prefix(all, before, before.len() as int);
    }
}

/// Every row of the content has exactly one owner.
pub proof fn a_row_has_one_owner(lines: Seq<Placed>, offset: int, a: int, b: int)
    requires
        owns(lines, a, offset),
        owns(lines, b, offset),
    ensures
        a == b,
{
    if a < b {
        lemma_rows_grow(lines, a + 1, b);
    } else if b < a {
        lemma_rows_grow(lines, b + 1, a);
    }
}

/// A line takes the rows it was wrapped to and the blank rows under it.
pub proof fn a_line_takes_its_rows_and_its_blanks(entry: StoredLogLine, blanks: Map<LogId, u16>)
    requires
        1 <= entry.wrapped_rows,
        entry.wrapped_rows + blank_rows(blanks, entry.id) <= u32::MAX,
    ensures
        rows_of(entry, blanks) == entry.wrapped_rows + blank_rows(blanks, entry.id),
        rows_of(entry, blanks) >= 1,
{
}

proof fn lemma_admits<F: Fn(&StoredLogLine) -> bool>(
    entries: Seq<StoredLogLine>,
    blanks: Map<LogId, u16>,
    admits: F,
    i: int,
)
    requires
        0 <= i < entries.len(),
        lets(admits, entries[i]),
    ensures
        exists|k: int|
            0 <= k < admitted(entries, blanks, admits).len() && (#[trigger] admitted(
                entries,
                blanks,
                admits,
            )[k]).key() == entries[i].key(),
    decreases entries.len(),
{
    let front = entries.drop_last();
    let all = admitted(entries, blanks, admits);
    let before = admitted(front, blanks, admits);
    if i < front.len() {
        assert(front[i] == entries[i]);
        lemma_admits(front, blanks, admits, i);
        let k = choose|k: int|
            0 <= k < before.len() && (#[trigger] before[k]).key() == entries[i].key();
        assert(all[k] == before[k]);
    } else {
        assert(all.last().key() == entries[i].key());
    }
}

/// The index holds every stored line that is let through.
pub proof fn every_line_let_through_is_indexed<F: Fn(&StoredLogLine) -> bool>(
    entries: Seq<StoredLogLine>,
    blanks: Map<LogId, u16>,
    admits: F,
    i: int,
)
    requires
        0 <= i < entries.len(),
        lets(admits, entries[i]),
    ensures
        exists|k: int|
            0 <= k < admitted(entries, blanks, admits).len() && (#[trigger] admitted(
                entries,
                blanks,
                admits,
            )[k]).key() == entries[i].key(),
        admitted(entries, blanks, admits).len() <= entries.len(),
{
    lemma_admits(entries, blanks, admits, i);
    lemma_no_more(entries, blanks, admits);
}

proof fn lemma_no_more<F: Fn(&StoredLogLine) -> bool>(
    entries: Seq<StoredLogLine>,
    blanks: Map<LogId, u16>,
    admits: F,
)
    ensures
        admitted(entries, blanks, admits).len() <= entries.len(),
    decreases entries.len(),
{
    if entries.len() > 0 {
        lemma_no_more(entries.drop_last(), blanks, admits);
    }
}

} // verus!
