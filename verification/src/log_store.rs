//! The interface's copy of don's merged log stream.
//!
//! Every line lands here, unfiltered and unabridged; what the pane shows is a
//! view over it. Lines are kept under the numbers the stream gave them. Each is
//! parsed once and measured once, when it arrives, and measured again only when
//! the pane's width moves.
use crate::logs::{any_under, columns, count_wrapped_rows, first_under, row_count};
use crate::output::{FormattedLogLine, LogId};
use crate::style::{
    ansi_line_runs, cells_of_runs, lemma_cells_of_runs, parse_ansi_line, Cells, Line,
};
use crate::text::{chars_of, string_of};
use std::collections::VecDeque;
use vstd::prelude::*;

verus! {

/// How many lines the pane's store keeps.
pub const DEFAULT_CAPACITY: usize = 50_000;

/// How many of don's own diagnostics are kept.
pub const DEBUG_CAPACITY: usize = 5_000;

/// How far past its capacity the store grows to keep a scrolled reader's
/// place. Beyond this the reader's anchor is dropped like anything else.
pub const PINNED_OVERDRAFT: usize = 2;

/// Where a line is in the stream: its number, and how many lines before it came
/// under the same number, as the notice of a gap does with the line after it.
#[derive(Debug, Clone, Copy, PartialEq, Eq, Structural)]
pub struct LineKey {
    pub id: LogId,
    pub nth: u64,
}

impl LineKey {
    /// Whether a line is earlier in the stream than another.
    pub open spec fn before(self, other: LineKey) -> bool {
        self.id.0 < other.id.0 || (self.id.0 == other.id.0 && self.nth < other.nth)
    }

    /// Whether a line is earlier in the stream than another.
    pub fn is_before(&self, other: &LineKey) -> (r: bool)
        ensures
            r == self.before(*other),
    {
        self.id.0 < other.id.0 || (self.id.0 == other.id.0 && self.nth < other.nth)
    }

    /// The place right after this one.
    pub open spec fn after(self) -> LineKey {
        if self.nth < u64::MAX {
            LineKey { id: self.id, nth: (self.nth + 1) as u64 }
        } else if self.id.0 < u64::MAX {
            LineKey { id: LogId((self.id.0 + 1) as u64), nth: 0 }
        } else {
            self
        }
    }

    /// The place right after this one.
    pub fn next(&self) -> (r: LineKey)
        ensures
            r == self.after(),
    {
        if self.nth < u64::MAX {
            LineKey { id: self.id, nth: self.nth + 1 }
        } else if self.id.0 < u64::MAX {
            LineKey { id: LogId(self.id.0 + 1), nth: 0 }
        } else {
            *self
        }
    }
}

/// The first place under a number.
pub open spec fn first_key(id: LogId) -> LineKey {
    LineKey { id, nth: 0 }
}

/// One stored line: what don sent, parsed once, measured once.
#[derive(Debug)]
pub struct StoredLogLine {
    pub id: LogId,
    /// How many lines before it came under the same number.
    pub nth: u64,
    pub line: FormattedLogLine,
    /// The styled form.
    pub parsed: Line,
    /// Rows the line takes at the store's wrap width.
    pub wrapped_rows: usize,
    /// Columns the name prefix takes.
    pub prefix_cols: usize,
    /// The message as plain text, without the name prefix.
    pub message: String,
}

/// The cells that a line's bytes spell.
pub open spec fn bytes_cells(bytes: Seq<u8>) -> Cells {
    cells_of_runs(ansi_line_runs(bytes))
}

impl StoredLogLine {
    /// Where the line is in the stream.
    pub open spec fn key(&self) -> LineKey {
        LineKey { id: self.id, nth: self.nth }
    }

    /// Where the line is in the stream.
    pub fn line_key(&self) -> (r: LineKey)
        ensures
            r == self.key(),
    {
        LineKey { id: self.id, nth: self.nth }
    }

    /// What is known of every stored line: it holds what its bytes spell, the
    /// prefix is measured on its own, and the message is what follows it.
    pub open spec fn faithful(&self) -> bool {
        let cells = self.parsed.cells();
        &&& cells == bytes_cells(self.line.prefix@ + self.line.bytes@)
        &&& cells.len() <= usize::MAX
        &&& self.prefix_cols as int == bytes_cells(self.line.prefix@).len()
        &&& self.message@ == (if self.prefix_cols <= cells.len() {
            cells.text.skip(self.prefix_cols as int)
        } else {
            Seq::empty()
        })
    }

    /// The row count is the one for a pane of the given width; before a width
    /// is known every line counts as one row.
    pub open spec fn measured(&self, width: Option<u16>) -> bool {
        self.wrapped_rows as int == (match width {
            Some(width) => row_count(
                self.parsed.cells().len() as int,
                self.prefix_cols as int,
                columns(width),
            ),
            None => 1,
        })
    }

    /// Rows this line takes at the width the store last reflowed to.
    pub fn wrapped_rows(&self) -> (r: usize)
        ensures
            r == self.wrapped_rows,
    {
        self.wrapped_rows
    }

    /// Columns the process-name column takes on every row of this line.
    pub fn prefix_cols(&self) -> (r: usize)
        ensures
            r == self.prefix_cols,
    {
        self.prefix_cols
    }

    /// The message as plain text, without the name column.
    pub fn message_text(&self) -> (r: &str)
        ensures
            r@ == self.message@,
    {
        self.message.as_str()
    }
}

/// Numbers ascend, and lines under one number are counted up.
pub open spec fn ascending(entries: Seq<StoredLogLine>) -> bool {
    forall|i: int, j: int|
        0 <= i < j < entries.len() ==> (#[trigger] entries[i]).key().before(
            (#[trigger] entries[j]).key(),
        )
}

/// How many lines a store that a line is pushed to has under the line's number,
/// as far as they are the newest.
pub open spec fn nth_of(entries: Seq<StoredLogLine>, id: LogId) -> u64 {
    if entries.len() == 0 || entries.last().id != id {
        0
    } else if entries.last().nth == u64::MAX {
        u64::MAX
    } else {
        (entries.last().nth + 1) as u64
    }
}

/// The most lines a store of this capacity ever holds.
pub open spec fn ceiling(capacity: usize) -> int {
    if capacity * 2 > usize::MAX {
        usize::MAX as int
    } else {
        capacity * 2
    }
}

/// Whether the oldest line stays because a reader is looking at it or at what
/// follows it.
pub open spec fn holds_place(
    entries: Seq<StoredLogLine>,
    capacity: usize,
    pin: Option<LogId>,
) -> bool {
    &&& entries.len() < ceiling(capacity)
    &&& entries.len() > 0
    &&& match pin {
        Some(pin) => entries[0].id.0 >= pin.0,
        None => false,
    }
}

/// What is left of the store when it makes room for one more line.
pub open spec fn evicted(
    entries: Seq<StoredLogLine>,
    capacity: usize,
    pin: Option<LogId>,
) -> Seq<StoredLogLine>
    decreases entries.len(),
{
    if entries.len() > 0 && entries.len() >= capacity && !holds_place(entries, capacity, pin) {
        evicted(entries.drop_first(), capacity, pin)
    } else {
        entries
    }
}

/// A bounded, time-ordered buffer of the merged stream.
pub struct LogStore {
    entries: VecDeque<StoredLogLine>,
    capacity: usize,
    next_id: LogId,
    wrapped_at: Option<u16>,
    pin: Option<LogId>,
    name_column: usize,
}

impl View for LogStore {
    type V = Seq<StoredLogLine>;

    closed spec fn view(&self) -> Seq<StoredLogLine> {
        self.entries@
    }
}

/// Whether `after` is `before` with one more line: the line comes last, after
/// whatever had to go to make room for it.
pub open spec fn pushes(
    before: LogStore,
    after: LogStore,
    id: LogId,
    line: FormattedLogLine,
) -> bool {
    &&& after.same_settings(&before)
    &&& after.wrap_width() == before.wrap_width()
    &&& after.expected_id().0 == (if id.0 == u64::MAX {
        u64::MAX
    } else {
        (id.0 + 1) as u64
    })
    &&& before.limit() == 0 ==> after@ == before@ && after.prefix_column()
        == before.prefix_column()
    &&& before.limit() > 0 ==> {
        let new = after@.last();
        &&& after@ == evicted(before@, before.limit(), before.held_pin()).push(new)
        &&& new.id == id
        &&& new.nth == nth_of(before@, id)
        &&& new.line == line
        &&& new.faithful()
        &&& new.measured(before.wrap_width())
        &&& after.prefix_column() == (if new.prefix_cols > 0 {
            new.prefix_cols
        } else {
            before.prefix_column()
        })
    }
}

impl LogStore {
    #[verifier::type_invariant]
    spec fn coherent(self) -> bool {
        &&& forall|i: int|
            0 <= i < self.entries@.len() ==> (#[trigger] self.entries@[i]).faithful()
                && self.entries@[i].measured(self.wrapped_at)
        &&& self.entries@.len() <= ceiling(self.capacity)
    }

    /// The capacity it was made with.
    pub closed spec fn limit(&self) -> usize {
        self.capacity
    }

    /// The number the next line of the stream is expected to have.
    pub closed spec fn expected_id(&self) -> LogId {
        self.next_id
    }

    /// The width the row counts are for.
    pub closed spec fn wrap_width(&self) -> Option<u16> {
        self.wrapped_at
    }

    /// The oldest line a scrolled reader still needs.
    pub closed spec fn held_pin(&self) -> Option<LogId> {
        self.pin
    }

    /// The width of the last name column seen.
    pub closed spec fn prefix_column(&self) -> usize {
        self.name_column
    }

    /// Everything but the lines is the same.
    pub open spec fn same_settings(&self, other: &LogStore) -> bool {
        &&& self.limit() == other.limit()
        &&& self.held_pin() == other.held_pin()
    }

    /// A store with the given capacity. A capacity of 0 drops every push.
    pub fn with_capacity(capacity: usize) -> (r: LogStore)
        ensures
            r@ == Seq::<StoredLogLine>::empty(),
            r.limit() == capacity,
            r.expected_id() == LogId(0),
            r.wrap_width() is None,
            r.held_pin() is None,
            r.prefix_column() == 0,
    {
        LogStore {
            entries: VecDeque::new(),
            capacity,
            next_id: LogId(0),
            wrapped_at: None,
            pin: None,
            name_column: 0,
        }
    }

    /// Holds history from `pin` onward while the reader is scrolled back there;
    /// `None` while following.
    pub fn set_pin(&mut self, pin: Option<LogId>)
        ensures
            final(self)@ == old(self)@,
            final(self).held_pin() == pin,
            final(self).limit() == old(self).limit(),
            final(self).expected_id() == old(self).expected_id(),
            final(self).wrap_width() == old(self).wrap_width(),
            final(self).prefix_column() == old(self).prefix_column(),
    {
        proof {
            use_type_invariant(&*self);
        }
        self.pin = pin;
    }

    /// Stores a line under the number the stream gave it, making room first if
    /// the store is full.
    pub fn push(&mut self, id: LogId, line: FormattedLogLine)
        ensures
            pushes(*old(self), *final(self), id, line),
            final(self)@.len() <= ceiling(final(self).limit()),
    {
        proof {
            use_type_invariant(&*self);
        }
        self.next_id = LogId(id.0.saturating_add(1));
        if self.capacity == 0 {
            return;
        }
        let prefix = parse_ansi_line(line.prefix.as_slice());
        let prefix_text = prefix.text();
        let prefix_cols: usize = prefix_text.as_str().unicode_len();
        let mut joined: Vec<u8> = Vec::new();
        joined.extend_from_slice(line.prefix.as_slice());
        joined.extend_from_slice(line.bytes.as_slice());
        let parsed = parse_ansi_line(joined.as_slice());
        let text = parsed.text();
        let length: usize = text.as_str().unicode_len();
        proof {
            lemma_cells_of_runs(prefix.spans@);
            lemma_cells_of_runs(parsed.spans@);
            assert(joined@ =~= line.prefix@ + line.bytes@);
        }
        if prefix_cols > 0 {
            self.name_column = prefix_cols;
        }
        let wrapped_rows: usize = match self.wrapped_at {
            Some(width) => count_wrapped_rows(&parsed, prefix_cols, width),
            None => 1,
        };
        let message = if prefix_cols <= length {
            let letters = chars_of(text.as_str());
            let rest = string_of(&letters, prefix_cols, length);
            assert(rest@ =~= parsed.cells().text.skip(prefix_cols as int));
            rest
        } else {
            String::new()
        };
        let held: usize = self.entries.len();
        let nth: u64 = if held > 0 && self.entries[held - 1].id.0 == id.0 {
            self.entries[held - 1].nth.saturating_add(1)
        } else {
            0
        };
        let mut entries: VecDeque<StoredLogLine> = VecDeque::new();
        std::mem::swap(&mut entries, &mut self.entries);
        let ceiling_now: usize = self.capacity.saturating_add(self.capacity);
        let ghost before = entries@;
        while entries.len() >= self.capacity
            invariant
                self.capacity > 0,
                ceiling_now as int == ceiling(self.capacity),
                evicted(entries@, self.capacity, self.pin) == evicted(
                    before,
                    self.capacity,
                    self.pin,
                ),
                entries@.len() <= ceiling(self.capacity),
                forall|i: int|
                    0 <= i < entries@.len() ==> (#[trigger] entries@[i]).faithful()
                        && entries@[i].measured(self.wrapped_at),
            ensures
                entries@.len() < ceiling(self.capacity),
                entries@ == evicted(before, self.capacity, self.pin),
            decreases entries@.len(),
        {
            let holding = entries.len() < ceiling_now && match self.pin {
                Some(pin) => entries[0].id.0 >= pin.0,
                None => false,
            };
            if holding {
                break;
            }
            let _gone = entries.pop_front();
        }
        let ghost kept = entries@;
        let entry = StoredLogLine { id, nth, line, parsed, wrapped_rows, prefix_cols, message };
        entries.push_back(entry);
        assert(entries@.last() == entry);
        self.entries = entries;
    }

    /// Measures every line for a new pane width. Nothing happens when the width
    /// has not moved.
    pub fn reflow(&mut self, width: u16)
        ensures
            final(self).wrap_width() == Some(width),
            final(self).same_settings(old(self)),
            final(self).expected_id() == old(self).expected_id(),
            final(self).prefix_column() == old(self).prefix_column(),
            final(self)@.len() == old(self)@.len(),
            forall|i: int|
                0 <= i < final(self)@.len() ==> {
                    let now = #[trigger] final(self)@[i];
                    &&& now == (StoredLogLine { wrapped_rows: now.wrapped_rows, ..old(self)@[i] })
                    &&& now.measured(Some(width))
                },
    {
        proof {
            use_type_invariant(&*self);
        }
        match self.wrapped_at {
            Some(at) => {
                if at == width {
                    return;
                }
            },
            None => {},
        }
        let mut entries: VecDeque<StoredLogLine> = VecDeque::new();
        std::mem::swap(&mut entries, &mut self.entries);
        self.wrapped_at = Some(width);
        let ghost before = entries@;
        let count: usize = entries.len();
        let mut i: usize = 0;
        while i < count
            invariant
                i <= count,
                count == before.len(),
                entries@.len() == count,
                before.len() <= ceiling(self.capacity),
                forall|k: int| 0 <= k < before.len() ==> (#[trigger] before[k]).faithful(),
                forall|k: int| 0 <= k < count - i ==> #[trigger] entries@[k] == before[k + i],
                forall|k: int|
                    count - i <= k < count ==> {
                        let now = #[trigger] entries@[k];
                        &&& now == (StoredLogLine {
                            wrapped_rows: now.wrapped_rows,
                            ..before[k - (count - i)]
                        })
                        &&& now.measured(Some(width))
                    },
            decreases count - i,
        {
            let ghost turned = entries@;
            assert(entries@[0] == before[0 + i]);
            let old_entry = entries.pop_front().unwrap();
            let rows: usize = count_wrapped_rows(&old_entry.parsed, old_entry.prefix_cols, width);
            let entry = StoredLogLine { wrapped_rows: rows, ..old_entry };
            entries.push_back(entry);
            i += 1;
            assert forall|k: int| 0 <= k < count - i implies #[trigger] entries@[k] == before[k
                + i] by {
                assert(entries@[k] == turned[k + 1]);
            }
            assert forall|k: int| count - i <= k < count implies ({
                let now = #[trigger] entries@[k];
                &&& now == (StoredLogLine {
                    wrapped_rows: now.wrapped_rows,
                    ..before[k - (count - i)]
                })
                &&& now.measured(Some(width))
            }) by {
                if k < count - 1 {
                    assert(entries@[k] == turned[k + 1]);
                }
            }
        }
        assert forall|k: int| 0 <= k < entries@.len() implies (#[trigger] entries@[k]).faithful() by {
            assert(before[k].faithful());
        }
        self.entries = entries;
    }

    /// Everything held, oldest first.
    pub fn iter(&self) -> (r: Vec<&StoredLogLine>)
        ensures
            r@.len() == self@.len(),
            forall|i: int| 0 <= i < r@.len() ==> *(#[trigger] r@[i]) == self@[i],
    {
        self.rest(0)
    }

    fn rest(&self, at: usize) -> (r: Vec<&StoredLogLine>)
        requires
            at <= self@.len(),
        ensures
            r@.len() == self@.len() - at,
            forall|i: int| 0 <= i < r@.len() ==> *(#[trigger] r@[i]) == self@[i + at],
    {
        let mut out: Vec<&StoredLogLine> = Vec::new();
        let mut i: usize = at;
        while i < self.entries.len()
            invariant
                at <= i <= self.entries@.len(),
                out@.len() == i - at,
                forall|k: int| 0 <= k < out@.len() ==> *(#[trigger] out@[k]) == self.entries@[k + at],
            decreases self.entries@.len() - i,
        {
            out.push(&self.entries[i]);
            i += 1;
        }
        out
    }

    /// The line at a place, oldest first.
    pub fn entry(&self, i: usize) -> (r: &StoredLogLine)
        requires
            i < self@.len(),
        ensures
            *r == self@[i as int],
            r.faithful(),
            r.measured(self.wrap_width()),
    {
        proof {
            use_type_invariant(self);
        }
        &self.entries[i]
    }

    /// The oldest number still held.
    pub fn oldest_id(&self) -> (r: Option<LogId>)
        ensures
            r == (if self@.len() == 0 {
                None
            } else {
                Some(self@[0].id)
            }),
    {
        if self.entries.len() == 0 {
            None
        } else {
            Some(self.entries[0].id)
        }
    }

    /// The place of the first line that is not earlier in the stream than `from`.
    ///
    /// Numbers ascend, so this is a binary search.
    pub fn first_at_least(&self, from: LineKey) -> (r: usize)
        ensures
            r <= self@.len(),
            ascending(self@) ==> (forall|i: int|
                0 <= i < r ==> (#[trigger] self@[i]).key().before(from)),
            ascending(self@) ==> (forall|i: int|
                r <= i < self@.len() ==> !(#[trigger] self@[i]).key().before(from)),
    {
        let mut low: usize = 0;
        let mut high: usize = self.entries.len();
        while low < high
            invariant
                low <= high <= self.entries@.len(),
                ascending(self.entries@) ==> (forall|i: int|
                    0 <= i < low ==> (#[trigger] self.entries@[i]).key().before(from)),
                ascending(self.entries@) ==> (forall|i: int|
                    high <= i < self.entries@.len() ==> !(#[trigger] self.entries@[i]).key().before(
                        from,
                    )),
            decreases high - low,
        {
            let middle: usize = low + (high - low) / 2;
            if self.entries[middle].line_key().is_before(&from) {
                low = middle + 1;
            } else {
                high = middle;
            }
        }
        low
    }

    /// The line at a place of the stream, if it is still held.
    pub fn find(&self, key: LineKey) -> (r: Option<&StoredLogLine>)
        ensures
            match r {
                Some(entry) => {
                    &&& self@.contains(*entry)
                    &&& entry.key() == key
                    &&& entry.faithful()
                    &&& entry.measured(self.wrap_width())
                },
                None => ascending(self@) ==> (forall|i: int|
                    0 <= i < self@.len() ==> (#[trigger] self@[i]).key() != key),
            },
    {
        proof {
            use_type_invariant(self);
        }
        let at: usize = self.first_at_least(key);
        if at < self.entries.len() && self.entries[at].line_key() == key {
            assert(self@[at as int] == self.entries@[at as int]);
            Some(&self.entries[at])
        } else {
            assert forall|i: int| ascending(self@) && 0 <= i < self@.len() implies (
            #[trigger] self@[i]).key() != key by {
                if i > at {
                    assert(self@[at as int].key().before(self@[i].key()));
                }
            }
            None
        }
    }

    /// The lines numbered `from` and above, in order.
    pub fn iter_from(&self, from: LogId) -> (r: Vec<&StoredLogLine>)
        ensures
            r@.len() <= self@.len(),
            forall|i: int|
                0 <= i < r@.len() ==> *(#[trigger] r@[i]) == self@[i + self@.len() - r@.len()],
            ascending(self@) ==> (forall|i: int|
                0 <= i < self@.len() ==> ((#[trigger] self@[i]).id.0 >= from.0 <==> i
                    >= self@.len() - r@.len())),
    {
        let at: usize = self.first_at_least(LineKey { id: from, nth: 0 });
        self.rest(at)
    }

    /// The line stored under `id`, if it is still held; the first, where there
    /// are several.
    pub fn get(&self, id: LogId) -> (r: Option<&StoredLogLine>)
        ensures
            match r {
                Some(entry) => {
                    &&& self@.contains(*entry)
                    &&& entry.id == id
                    &&& entry.faithful()
                    &&& entry.measured(self.wrap_width())
                    &&& ascending(self@) ==> any_under(self@, id) && *entry == first_under(
                        self@,
                        id,
                    )
                },
                None => ascending(self@) ==> !any_under(self@, id),
            },
    {
        proof {
            use_type_invariant(self);
        }
        let at: usize = self.first_at_least(LineKey { id, nth: 0 });
        if at < self.entries.len() && self.entries[at].id.0 == id.0 {
            assert(self@[at as int] == self.entries@[at as int]);
            proof {
                if ascending(self@) {
                    assert(self@[at as int].id == id);
                    let first = choose|i: int| crate::logs::is_first_under(self@, id, i);
                    assert(crate::logs::is_first_under(self@, id, at as int));
                    if first < at {
                        assert(self@[first].key().before(first_key(id)));
                    } else if first > at {
                        assert(self@[at as int].id != id);
                    }
                }
            }
            Some(&self.entries[at])
        } else {
            assert forall|i: int| ascending(self@) && 0 <= i < self@.len() implies (
            #[trigger] self@[i]).id != id by {
                if i >= at {
                    assert(!self@[at as int].key().before(first_key(id)));
                    if i > at {
                        assert(self@[at as int].key().before(self@[i].key()));
                    }
                }
            }
            None
        }
    }

    /// The number the next line of the stream is expected to have.
    pub fn next_id(&self) -> (r: LogId)
        ensures
            r == self.expected_id(),
    {
        self.next_id
    }

    /// The number of the newest line held.
    pub fn latest_id(&self) -> (r: Option<LogId>)
        ensures
            r == (if self@.len() == 0 {
                None
            } else {
                Some(self@.last().id)
            }),
    {
        let n: usize = self.entries.len();
        if n == 0 {
            None
        } else {
            Some(self.entries[n - 1].id)
        }
    }

    /// How many lines are held.
    pub fn len(&self) -> (r: usize)
        ensures
            r == self@.len(),
            r <= ceiling(self.limit()),
    {
        proof {
            use_type_invariant(self);
        }
        self.entries.len()
    }
}

/// Making room only ever drops the oldest lines.
pub proof fn eviction_drops_a_prefix(
    entries: Seq<StoredLogLine>,
    capacity: usize,
    pin: Option<LogId>,
)
    ensures
        evicted(entries, capacity, pin).len() <= entries.len(),
        evicted(entries, capacity, pin) == entries.skip(
            entries.len() - evicted(entries, capacity, pin).len(),
        ),
    decreases entries.len(),
{
    if entries.len() > 0 && entries.len() >= capacity && !holds_place(entries, capacity, pin) {
        eviction_drops_a_prefix(entries.drop_first(), capacity, pin);
        let left = evicted(entries, capacity, pin);
        assert(entries.drop_first().skip(entries.len() - 1 - left.len()) =~= entries.skip(
            entries.len() - left.len(),
        ));
    } else {
        assert(entries.skip(0) =~= entries);
    }
}

/// While following, a push leaves the store at its capacity at most, however
/// far past it a pinned reader had let it grow.
pub proof fn following_drains_to_capacity(entries: Seq<StoredLogLine>, capacity: usize)
    requires
        capacity > 0,
    ensures
        evicted(entries, capacity, None).len() + 1 <= capacity,
        entries.len() >= capacity ==> evicted(entries, capacity, None).len() + 1 == capacity,
    decreases entries.len(),
{
    if entries.len() > 0 && entries.len() >= capacity {
        following_drains_to_capacity(entries.drop_first(), capacity);
    }
}

/// A pin holds everything from it onward: while the overdraft lasts, no line
/// numbered at or past the pin is dropped to make room.
pub proof fn a_pin_holds_what_follows_it(
    entries: Seq<StoredLogLine>,
    capacity: usize,
    pin: LogId,
    i: int,
)
    requires
        ascending(entries),
        entries.len() < ceiling(capacity),
        0 <= i < entries.len(),
        entries[i].id.0 >= pin.0,
    ensures
        evicted(entries, capacity, Some(pin)).contains(entries[i]),
    decreases entries.len(),
{
    if entries.len() >= capacity && !holds_place(entries, capacity, Some(pin)) {
        assert(i > 0);
        let rest = entries.drop_first();
        assert(rest[i - 1] == entries[i]);
        assert forall|a: int, b: int| 0 <= a < b < rest.len() implies (#[trigger] rest[a]).key().before(
            (#[trigger] rest[b]).key(),
        ) by {
            assert(entries[a + 1].key().before(entries[b + 1].key()));
        }
        a_pin_holds_what_follows_it(rest, capacity, pin, i - 1);
    }
}

/// A pin never forces anything out: with one, at least as much stays as
/// without.
pub proof fn a_pin_only_prevents_eviction(
    entries: Seq<StoredLogLine>,
    capacity: usize,
    pin: Option<LogId>,
)
    ensures
        evicted(entries, capacity, None).len() <= evicted(entries, capacity, pin).len(),
    decreases entries.len(),
{
    if entries.len() > 0 && entries.len() >= capacity {
        if holds_place(entries, capacity, pin) {
            eviction_drops_a_prefix(entries, capacity, None);
        } else {
            a_pin_only_prevents_eviction(entries.drop_first(), capacity, pin);
        }
    }
}

/// Numbers go on ascending when a line arrives under a number that is not below
/// the newest held: under the same number, as after the notice of a gap, it is
/// counted as the next line there.
pub proof fn a_later_line_keeps_numbers_ascending(
    entries: Seq<StoredLogLine>,
    capacity: usize,
    pin: Option<LogId>,
    new: StoredLogLine,
)
    requires
        ascending(entries),
        entries.len() > 0 ==> entries.last().id.0 <= new.id.0,
        entries.len() > 0 && entries.last().id == new.id ==> entries.last().nth < u64::MAX,
        new.nth == nth_of(entries, new.id),
    ensures
        ascending(evicted(entries, capacity, pin).push(new)),
{
    eviction_drops_a_prefix(entries, capacity, pin);
    let kept = evicted(entries, capacity, pin);
    let gone = entries.len() - kept.len();
    let all = kept.push(new);
    assert forall|i: int, j: int| 0 <= i < j < all.len() implies (#[trigger] all[i]).key().before(
        (#[trigger] all[j]).key(),
    ) by {
        assert(all[i] == entries[i + gone]);
        if j < kept.len() {
            assert(all[j] == entries[j + gone]);
        } else if i + gone < entries.len() - 1 {
            assert(entries[i + gone].key().before(entries[entries.len() - 1].key()));
        }
    }
}

/// A notice of a gap marks where the hole is, and the line after it, which comes
/// under the same number, is kept beside it and counted as the next.
pub proof fn a_gap_notice_keeps_the_line_after_it(
    before: LogStore,
    noted: LogStore,
    after: LogStore,
    resumed_at: LogId,
    notice: FormattedLogLine,
    line: FormattedLogLine,
)
    requires
        ascending(before@),
        before@.len() > 0 ==> before@.last().id.0 < resumed_at.0,
        before.limit() >= 2,
        pushes(before, noted, resumed_at, notice),
        pushes(noted, after, resumed_at, line),
    ensures
        ascending(after@),
        after@.len() >= 2,
        after@.last().line == line,
        after@.last().key() == (LineKey { id: resumed_at, nth: 1 }),
        after@[after@.len() - 2].line == notice,
        after@[after@.len() - 2].key() == first_key(resumed_at),
{
    let capacity = before.limit();
    let pin = before.held_pin();
    a_later_line_keeps_numbers_ascending(before@, capacity, pin, noted@.last());
    let kept = evicted(noted@, capacity, pin);
    eviction_drops_a_prefix(noted@, capacity, pin);
    a_pin_only_prevents_eviction(noted@, capacity, pin);
    following_drains_to_capacity(noted@, capacity);
    assert(kept.len() >= 1);
    assert(kept.last() == noted@.last());
    a_later_line_keeps_numbers_ascending(noted@, capacity, pin, after@.last());
}

/// No line is dropped while there is room for the next one.
pub proof fn nothing_is_dropped_while_there_is_room(
    entries: Seq<StoredLogLine>,
    capacity: usize,
    pin: Option<LogId>,
)
    requires
        entries.len() < capacity,
    ensures
        evicted(entries, capacity, pin) == entries,
{
}

/// Even for a reader who scrolled back, never more than twice the capacity is
/// held.
pub proof fn a_pin_holds_twice_the_capacity_at_most(
    entries: Seq<StoredLogLine>,
    capacity: usize,
    pin: Option<LogId>,
)
    requires
        capacity > 0,
        2 * capacity <= usize::MAX,
    ensures
        evicted(entries, capacity, pin).len() + 1 <= 2 * capacity,
    decreases entries.len(),
{
    if entries.len() > 0 && entries.len() >= capacity && !holds_place(entries, capacity, pin) {
        a_pin_holds_twice_the_capacity_at_most(entries.drop_first(), capacity, pin);
    }
}

/// A line that is filed is the last one, under its number, and what is left of
/// the lines before it stands before it unchanged.
pub proof fn a_filed_line_is_the_last(
    before: LogStore,
    after: LogStore,
    id: LogId,
    line: FormattedLogLine,
)
    requires
        pushes(before, after, id, line),
        before.limit() > 0,
    ensures
        after@.len() > 0,
        after@.last().id == id,
        after@.last().line == line,
        after@.drop_last() == before@.skip(before@.len() - (after@.len() - 1)),
        before@.len() < before.limit() ==> after@.drop_last() == before@,
        after.limit() == before.limit(),
        id.0 < u64::MAX ==> after.expected_id().0 == id.0 + 1,
{
    eviction_drops_a_prefix(before@, before.limit(), before.held_pin());
    let kept = evicted(before@, before.limit(), before.held_pin());
    assert(after@.drop_last() =~= kept);
}

/// A line's message is what follows its prefix, and the two together are the
/// whole line as it is drawn.
pub proof fn a_message_is_what_follows_the_prefix(entry: StoredLogLine)
    requires
        entry.faithful(),
        entry.prefix_cols <= entry.parsed.cells().len(),
    ensures
        entry.parsed.cells().text == entry.parsed.cells().text.take(entry.prefix_cols as int)
            + entry.message@,
        entry.prefix_cols + entry.message@.len() == entry.parsed.cells().len(),
{
    let text = entry.parsed.cells().text;
    assert(text =~= text.take(entry.prefix_cols as int) + text.skip(entry.prefix_cols as int));
}

/// Lines are in the order of their numbers, and lines of one number in the order
/// in which they came.
pub proof fn keys_are_ordered_by_number(a: LineKey, b: LineKey)
    ensures
        a.id.0 < b.id.0 ==> a.before(b) && !b.before(a),
        a.id == b.id && a.nth < b.nth ==> a.before(b) && !b.before(a),
        !a.before(a),
        a.nth < u64::MAX ==> a.before(a.after()) && a.after().id == a.id,
        !a.before(first_key(a.id)),
{
}

/// A line is measured by the rows it is wrapped to at the width that is set, and
/// as one row before any is.
pub proof fn a_line_is_measured_by_its_rows(entry: StoredLogLine, width: u16)
    ensures
        entry.measured(Some(width)) ==> entry.wrapped_rows as int == row_count(
            entry.parsed.cells().len() as int,
            entry.prefix_cols as int,
            columns(width),
        ),
        entry.measured(None) ==> entry.wrapped_rows == 1,
        DEFAULT_CAPACITY == 50_000 && DEBUG_CAPACITY == 5_000,
{
}

} // verus!
