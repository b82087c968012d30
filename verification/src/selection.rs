//! Text selection in the log pane, and getting it onto the clipboard.
//!
//! A selection is two places in the log: a line and a character offset into
//! that line's message. It is not two places on the screen, so nothing that
//! moves the text on screen moves the selection off it, and the name prefix
//! cannot be pointed at.
use crate::log_store::{ascending, first_key, LineKey, LogStore, StoredLogLine};
use crate::logs::{is_stored, keys_after, lemma_stored, stored_line, RowSource};
use crate::output::LogId;
use crate::style::at_most_usize;
use crate::text::{
    chars_of, is_white, join, joined, string_of, trim, trim_end, trimmed, trimmed_end,
    trimming_takes_white_space_only, trimming_the_end_keeps_the_start,
};
use crate::view_index::{
    ids_ascend, lemma_lines_before, lines_before, place_of, Placed, ViewIndex,
};
use vstd::prelude::*;
use vstd::string::StringSliceAdditionalSpecFns;

verus! {

/// One end of a selection: a line, and how far into its message.
#[derive(Debug, Clone, Copy, PartialEq, Eq, Structural)]
pub struct Point {
    pub id: LogId,
    pub offset: usize,
}

/// Reading order: earlier lines first, and within a line earlier characters.
pub open spec fn reads_before(a: Point, b: Point) -> bool {
    a.id.0 < b.id.0 || (a.id == b.id && a.offset < b.offset)
}

impl Point {
    /// The place a screen column on `row` points at.
    pub fn at(row: RowSource, column: usize) -> (r: Point)
        ensures
            r.id == row.id,
            r.offset as int == at_most_usize(row.offset_of(column as int)),
    {
        Point { id: row.id, offset: row.offset_at(column) }
    }

    /// Whether this place comes before another in reading order.
    pub fn is_before(self, other: Point) -> (r: bool)
        ensures
            r == reads_before(self, other),
    {
        self.id.0 < other.id.0 || (self.id.0 == other.id.0 && self.offset < other.offset)
    }
}

/// A drag in progress, or a finished selection.
#[derive(Debug, Clone, Copy, PartialEq, Eq, Structural)]
pub struct Selection {
    /// Where the drag started.
    pub anchor: Option<Point>,
    /// Where it is now.
    pub cursor: Option<Point>,
    /// Whether the button was released.
    pub settled: bool,
}

/// What a selection covers, from its earlier end to its later one; nothing for
/// a click that never became a drag.
pub open spec fn span_of(s: Selection) -> Option<(Point, Point)> {
    match (s.anchor, s.cursor) {
        (Some(a), Some(b)) => if a == b {
            None
        } else if reads_before(a, b) {
            Some((a, b))
        } else {
            Some((b, a))
        },
        _ => None,
    }
}

impl Selection {
    /// Nothing selected.
    pub open spec fn none() -> Selection {
        Selection { anchor: None, cursor: None, settled: false }
    }

    /// Starts a drag.
    pub fn begin(&mut self, at: Point)
        ensures
            *final(self) == (Selection { anchor: Some(at), cursor: Some(at), settled: false }),
    {
        self.anchor = Some(at);
        self.cursor = Some(at);
        self.settled = false;
    }

    /// Moves the loose end.
    pub fn extend(&mut self, to: Point)
        ensures
            *final(self) == (if old(self).anchor is Some {
                Selection { cursor: Some(to), ..*old(self) }
            } else {
                *old(self)
            }),
    {
        if self.anchor.is_some() {
            self.cursor = Some(to);
        }
    }

    /// The button came up.
    pub fn finish(&mut self)
        ensures
            *final(self) == (if old(self).anchor is Some {
                Selection { settled: true, ..*old(self) }
            } else {
                *old(self)
            }),
    {
        if self.anchor.is_some() {
            self.settled = true;
        }
    }

    /// Drops the selection.
    pub fn clear(&mut self)
        ensures
            *final(self) == Selection::none(),
    {
        *self = Selection { anchor: None, cursor: None, settled: false };
    }

    /// Whether nothing is selected.
    pub fn is_empty(&self) -> (r: bool)
        ensures
            r == (span_of(*self) is None),
    {
        self.span().is_none()
    }

    /// The ends in reading order, or `None` for a click that never became a
    /// drag.
    pub fn span(&self) -> (r: Option<(Point, Point)>)
        ensures
            r == span_of(*self),
    {
        match (self.anchor, self.cursor) {
            (Some(anchor), Some(cursor)) => {
                if anchor.id.0 == cursor.id.0 && anchor.offset == cursor.offset {
                    None
                } else if anchor.is_before(cursor) {
                    Some((anchor, cursor))
                } else {
                    Some((cursor, anchor))
                }
            },
            _ => None,
        }
    }

    /// Whether a character of the log falls inside the selection. Half-open at
    /// the end: the cell the pointer stopped on is not part of it.
    pub fn contains(&self, at: Point) -> (r: bool)
        ensures
            r == covers(*self, at),
    {
        match self.span() {
            Some((start, end)) => !at.is_before(start) && at.is_before(end),
            None => false,
        }
    }
}

impl Default for Selection {
    fn default() -> (r: Selection)
        ensures
            r == Selection::none(),
    {
        Selection { anchor: None, cursor: None, settled: false }
    }
}

/// Whether a selection covers a place.
pub open spec fn covers(s: Selection, at: Point) -> bool {
    match span_of(s) {
        Some((start, end)) => !reads_before(at, start) && reads_before(at, end),
        None => false,
    }
}

/// A drag covers the same text whichever end it started from.
pub proof fn a_drag_covers_the_same_either_way(a: Point, b: Point, settled: bool, at: Point)
    ensures
        covers(Selection { anchor: Some(a), cursor: Some(b), settled }, at) == covers(
            Selection { anchor: Some(b), cursor: Some(a), settled },
            at,
        ),
{
}

/// Punctuation that always ends a word.
pub open spec fn breaks_word(c: char) -> bool {
    ||| is_white(c)
    ||| c == '"'
    ||| c == '\''
    ||| c == '`'
    ||| c == '('
    ||| c == ')'
    ||| c == '['
    ||| c == ']'
    ||| c == '{'
    ||| c == '}'
    ||| c == '<'
    ||| c == '>'
    ||| c == ','
    ||| c == ';'
    ||| c == '='
    ||| c == '\\'
    ||| c == '|'
    ||| c == '&'
    ||| c == '!'
    ||| c == '?'
    ||| c == '*'
    ||| c == '^'
}

/// Whether a character always ends a word.
///
/// Given by exclusion: anything not listed here and not a joiner is part of a
/// word, so letters of every script are, and so are the marks that hold paths,
/// flags and identifiers together.
pub fn ends_word(c: char) -> (r: bool)
    ensures
        r == breaks_word(c),
{
    c.is_whitespace() || c == '"' || c == '\'' || c == '`' || c == '(' || c == ')' || c == '[' || c
        == ']' || c == '{' || c == '}' || c == '<' || c == '>' || c == ',' || c == ';' || c == '='
        || c == '\\' || c == '|' || c == '&' || c == '!' || c == '?' || c == '*' || c == '^'
}

/// Whether a character belongs to a word only between two word characters.
pub fn joins_word(c: char) -> (r: bool)
    ensures
        r == (c == '.' || c == ':'),
{
    c == '.' || c == ':'
}

/// A character that is part of a word by itself.
pub open spec fn is_solid(s: Seq<char>, at: int) -> bool {
    0 <= at < s.len() && !breaks_word(s[at]) && s[at] != '.' && s[at] != ':'
}

/// A character that is part of a word: a solid one, or a joiner between two
/// solid ones.
pub open spec fn in_word(s: Seq<char>, at: int) -> bool {
    ||| is_solid(s, at)
    ||| 0 <= at < s.len() && (s[at] == '.' || s[at] == ':') && !breaks_word(s[at]) && is_solid(
        s,
        at - 1,
    ) && is_solid(s, at + 1)
}

fn solid_at(chars: &Vec<char>, at: usize) -> (r: bool)
    ensures
        r == is_solid(chars@, at as int),
{
    at < chars.len() && !ends_word(chars[at]) && !joins_word(chars[at])
}

/// Whether the character at `at` is part of a word.
pub fn is_word_char(chars: &Vec<char>, at: usize) -> (r: bool)
    ensures
        r == in_word(chars@, at as int),
{
    if at >= chars.len() {
        return false;
    }
    if ends_word(chars[at]) {
        return false;
    }
    if !joins_word(chars[at]) {
        return true;
    }
    at > 0 && solid_at(chars, at - 1) && at + 1 < chars.len() && solid_at(chars, at + 1)
}

/// What kind of thing a character is, for the purpose of a double-click.
#[derive(Debug, Clone, Copy, PartialEq, Eq, Structural)]
pub enum Class {
    Space,
    Word,
    Punct,
}

/// The class of the character at a place.
pub open spec fn class_of(s: Seq<char>, at: int) -> Option<Class> {
    if !(0 <= at < s.len()) {
        None
    } else if is_white(s[at]) {
        Some(Class::Space)
    } else if in_word(s, at) {
        Some(Class::Word)
    } else {
        Some(Class::Punct)
    }
}

/// The class of the character at `at`, or `None` past the end.
pub fn class_at(chars: &Vec<char>, at: usize) -> (r: Option<Class>)
    ensures
        r == class_of(chars@, at as int),
{
    if at >= chars.len() {
        None
    } else if chars[at].is_whitespace() {
        Some(Class::Space)
    } else if is_word_char(chars, at) {
        Some(Class::Word)
    } else {
        Some(Class::Punct)
    }
}

fn has_class(chars: &Vec<char>, at: usize, class: Class) -> (r: bool)
    ensures
        r == (class_of(chars@, at as int) == Some(class)),
{
    match class_at(chars, at) {
        Some(found) => found == class,
        None => false,
    }
}

/// A maximal run of characters of one class around `offset`.
pub open spec fn is_run(s: Seq<char>, offset: int, start: int, end: int) -> bool {
    &&& 0 <= start <= offset < end <= s.len()
    &&& forall|i: int|
        start <= i < end ==> #[trigger] class_of(s, i) == class_of(s, offset)
    &&& start > 0 ==> class_of(s, start - 1) != class_of(s, offset)
    &&& class_of(s, end) != class_of(s, offset)
}

/// The half-open character range of the thing under `offset`, if there is one.
///
/// A double-click takes a maximal run of one class: the word under it, or the
/// punctuation. Past the end and on white space there is nothing to take.
pub fn word_at(message: &str, offset: usize) -> (r: Option<(usize, usize)>)
    ensures
        match r {
            Some((start, end)) => class_of(message@, offset as int) is Some && class_of(
                message@,
                offset as int,
            ) != Some(Class::Space) && is_run(
                message@,
                offset as int,
                start as int,
                end as int,
            ),
            None => class_of(message@, offset as int) is None || class_of(
                message@,
                offset as int,
            ) == Some(Class::Space),
        },
{
    let chars = chars_of(message);
    let class = match class_at(&chars, offset) {
        Some(class) => class,
        None => {
            return None;
        },
    };
    if class == Class::Space {
        return None;
    }
    let mut start: usize = offset;
    while start > 0 && has_class(&chars, start - 1, class)
        invariant
            start <= offset < chars@.len(),
            class_of(chars@, offset as int) == Some(class),
            forall|i: int| start <= i <= offset ==> #[trigger] class_of(chars@, i) == Some(class),
        decreases start,
    {
        start -= 1;
    }
    let count: usize = chars.len();
    let mut end: usize = offset + 1;
    while end < count && has_class(&chars, end, class)
        invariant
            count == chars@.len(),
            start <= offset < end <= chars@.len(),
            class_of(chars@, offset as int) == Some(class),
            forall|i: int| start <= i < end ==> #[trigger] class_of(chars@, i) == Some(class),
        decreases chars@.len() - end,
    {
        end += 1;
    }
    Some((start, end))
}

/// There is only one maximal run around a character.
pub proof fn a_run_is_unique(
    s: Seq<char>,
    offset: int,
    start_a: int,
    end_a: int,
    start_b: int,
    end_b: int,
)
    requires
        is_run(s, offset, start_a, end_a),
        is_run(s, offset, start_b, end_b),
    ensures
        start_a == start_b,
        end_a == end_b,
{
    if start_a < start_b {
        assert(class_of(s, start_b - 1) == class_of(s, offset));
    }
    if start_b < start_a {
        assert(class_of(s, start_a - 1) == class_of(s, offset));
    }
    if end_a < end_b {
        assert(class_of(s, end_a) == class_of(s, offset));
    }
    if end_b < end_a {
        assert(class_of(s, end_b) == class_of(s, offset));
    }
}

/// Where the part of a line's message that a selection takes begins and ends.
pub open spec fn part_bounds(len: int, id: LogId, start: Point, end: Point) -> (int, int) {
    let until = if id == end.id && end.offset < len {
        end.offset as int
    } else {
        len
    };
    let from = if id != start.id {
        0
    } else if start.offset < until {
        start.offset as int
    } else {
        until
    };
    (from, until)
}

/// The part of a line's message that a selection takes.
pub open spec fn taken_part(message: Seq<char>, id: LogId, start: Point, end: Point) -> Seq<char> {
    let (from, until) = part_bounds(message.len() as int, id, start, end);
    message.subrange(from, until)
}

/// What is lit up of a line is what is copied of it.
pub proof fn what_is_lit_is_what_is_taken(
    selection: Selection,
    message: Seq<char>,
    at: Point,
)
    requires
        at.offset < message.len(),
    ensures
        match span_of(selection) {
            Some((start, end)) => start.id.0 <= at.id.0 <= end.id.0 ==> {
                let (from, until) = part_bounds(message.len() as int, at.id, start, end);
                covers(selection, at) <==> from <= at.offset < until
            },
            None => !covers(selection, at),
        },
{
}

/// The listed lines up to those numbered `end`.
pub open spec fn up_to(keys: Seq<LineKey>, end: LogId) -> Seq<LineKey>
    decreases keys.len(),
{
    if keys.len() > 0 && keys[0].id.0 <= end.0 {
        seq![keys[0]] + up_to(keys.drop_first(), end)
    } else {
        Seq::empty()
    }
}

/// The parts that a selection takes of the listed lines.
pub open spec fn taken_parts(
    keys: Seq<LineKey>,
    entries: Seq<StoredLogLine>,
    start: Point,
    end: Point,
) -> Seq<Seq<char>>
    decreases keys.len(),
{
    if keys.len() == 0 {
        Seq::empty()
    } else {
        let before = taken_parts(keys.drop_last(), entries, start, end);
        if is_stored(entries, keys.last()) {
            before.push(
                taken_part(stored_line(entries, keys.last()).message@, keys.last().id, start, end),
            )
        } else {
            before
        }
    }
}

/// A list of lines without the blank ones at its end.
pub open spec fn without_blank_tail(lines: Seq<Seq<char>>) -> Seq<Seq<char>>
    decreases lines.len(),
{
    if lines.len() > 0 && trimmed(lines.last()).len() == 0 {
        without_blank_tail(lines.drop_last())
    } else {
        lines
    }
}

/// The text that a list of taken parts makes: each without the white space at
/// its end, one per line, and no blank lines at the end; nothing when nothing
/// is left.
pub open spec fn copied_text(lines: Seq<Seq<char>>) -> Option<Seq<char>> {
    let kept = without_blank_tail(lines);
    if kept.len() == 0 {
        None
    } else {
        Some(joined(Seq::new(kept.len(), |i: int| trimmed_end(kept[i])), seq!['\n']))
    }
}

proof fn lemma_place_by_key(a: Seq<Placed>, b: Seq<Placed>, key: LineKey)
    requires
        a.len() == b.len(),
        forall|i: int| 0 <= i < a.len() ==> (#[trigger] a[i]).key() == b[i].key(),
    ensures
        lines_before(a, key) == lines_before(b, key),
    decreases a.len(),
{
    if a.len() > 0 {
        assert(a[0].key() == b[0].key());
        let (rest_a, rest_b) = (a.drop_first(), b.drop_first());
        assert forall|i: int| 0 <= i < rest_a.len() implies (#[trigger] rest_a[i]).key()
            == rest_b[i].key() by {
            assert(a[i + 1].key() == b[i + 1].key());
        }
        lemma_place_by_key(rest_a, rest_b, key);
    }
}

proof fn lemma_parts_by_key(
    keys: Seq<LineKey>,
    a: Seq<StoredLogLine>,
    b: Seq<StoredLogLine>,
    start: Point,
    end: Point,
)
    requires
        ascending(a),
        a.len() == b.len(),
        forall|i: int|
            0 <= i < a.len() ==> (#[trigger] a[i]).key() == b[i].key() && a[i].message@
                == b[i].message@,
    ensures
        taken_parts(keys, a, start, end) == taken_parts(keys, b, start, end),
    decreases keys.len(),
{
    if keys.len() > 0 {
        lemma_parts_by_key(keys.drop_last(), a, b, start, end);
        let key = keys.last();
        assert(ascending(b)) by {
            assert forall|i: int, j: int| 0 <= i < j < b.len() implies (
            #[trigger] b[i]).key().before((#[trigger] b[j]).key()) by {
                assert(a[i].key().before(a[j].key()));
            }
        }
        if is_stored(a, key) {
            let i = choose|i: int| 0 <= i < a.len() && (#[trigger] a[i]).key() == key;
            assert(b[i].key() == key);
            assert(a.contains(a[i]) && b.contains(b[i]));
            lemma_stored(a, a[i]);
            lemma_stored(b, b[i]);
        } else if is_stored(b, key) {
            let i = choose|i: int| 0 <= i < b.len() && (#[trigger] b[i]).key() == key;
            assert(a[i].key() == key);
        }
    }
}

/// A selection names the same text whatever the width of the pane, the scroll
/// or the rows that lines take: only the lines' numbers and messages count.
pub proof fn a_copy_survives_a_resize(
    before: Seq<StoredLogLine>,
    after: Seq<StoredLogLine>,
    shown_before: Seq<Placed>,
    shown_after: Seq<Placed>,
    start: Point,
    end: Point,
)
    requires
        ascending(before),
        before.len() == after.len(),
        forall|i: int|
            0 <= i < before.len() ==> (#[trigger] before[i]).key() == after[i].key()
                && before[i].message@ == after[i].message@,
        shown_before.len() == shown_after.len(),
        forall|i: int|
            0 <= i < shown_before.len() ==> (#[trigger] shown_before[i]).key()
                == shown_after[i].key(),
    ensures
        ({
            let keys_before = keys_after(shown_before, place_of(shown_before, start.id));
            let keys_now = keys_after(shown_after, place_of(shown_after, start.id));
            copied_text(taken_parts(up_to(keys_before, end.id), before, start, end))
                == copied_text(taken_parts(up_to(keys_now, end.id), after, start, end))
        }),
{
    lemma_place_by_key(shown_before, shown_after, first_key(start.id));
    lemma_lines_before(shown_before, first_key(start.id));
    let keys_before = keys_after(shown_before, place_of(shown_before, start.id));
    let keys_now = keys_after(shown_after, place_of(shown_after, start.id));
    assert(keys_before =~= keys_now);
    lemma_parts_by_key(up_to(keys_before, end.id), before, after, start, end);
}

proof fn lemma_up_to(keys: Seq<LineKey>, end: LogId, n: int)
    requires
        0 <= n <= keys.len(),
        forall|i: int| 0 <= i < n ==> (#[trigger] keys[i]).id.0 <= end.0,
        n < keys.len() ==> keys[n].id.0 > end.0,
    ensures
        up_to(keys, end) == keys.take(n),
    decreases n,
{
    if n > 0 {
        assert(keys[0].id.0 <= end.0);
        let rest = keys.drop_first();
        assert forall|i: int| 0 <= i < n - 1 implies (#[trigger] rest[i]).id.0 <= end.0 by {
            assert(rest[i] == keys[i + 1]);
        }
        lemma_up_to(rest, end, n - 1);
        assert(seq![keys[0]] + rest.take(n - 1) =~= keys.take(n));
    } else {
        assert(keys.take(0) =~= Seq::<LineKey>::empty());
    }
}

/// The selected text, read from the store.
///
/// The index supplies which lines are admitted, so a filtered-out line inside
/// the span is skipped exactly as it is on screen; the width the pane is
/// wrapped at plays no part.
pub fn selected_text(selection: &Selection, index: &ViewIndex, store: &LogStore) -> (r: Option<
    String,
>)
    ensures
        span_of(*selection) is None ==> r is None,
        ids_ascend(index@) && ascending(store@) ==> (match span_of(*selection) {
            Some((start, end)) => {
                let keys = up_to(keys_after(index@, place_of(index@, start.id)), end.id);
                let text = copied_text(taken_parts(keys, store@, start, end));
                match r {
                    Some(r) => text == Some(r@),
                    None => text is None,
                }
            },
            None => true,
        }),
{
    let (start, end) = match selection.span() {
        Some(span) => span,
        None => {
            return None;
        },
    };
    let keys = index.keys_from(LineKey { id: start.id, nth: 0 });
    let ghost sound = ids_ascend(index@) && ascending(store@);
    proof {
        if sound {
            assert(keys@ =~= keys_after(index@, place_of(index@, start.id)));
        }
    }
    let mut lines: Vec<String> = Vec::new();
    let mut i: usize = 0;
    assert(keys@.take(0) =~= Seq::<LineKey>::empty());
    assert(crate::names::views(lines@) =~= Seq::<Seq<char>>::empty());
    while i < keys.len() && keys[i].id.0 <= end.id.0
        invariant
            i <= keys@.len(),
            sound ==> ascending(store@),
            forall|k: int| 0 <= k < i ==> (#[trigger] keys@[k]).id.0 <= end.id.0,
            sound ==> crate::names::views(lines@) == taken_parts(
                keys@.take(i as int),
                store@,
                start,
                end,
            ),
        decreases keys@.len() - i,
    {
        let key = keys[i];
        let id = key.id;
        let ghost before = lines@;
        proof {
            assert(keys@.take(i + 1).drop_last() =~= keys@.take(i as int));
            assert(keys@.take(i + 1).last() == key);
        }
        match store.find(key) {
            Some(entry) => {
                let message = chars_of(entry.message_text());
                let until: usize = if id.0 == end.id.0 && end.offset < message.len() {
                    end.offset
                } else {
                    message.len()
                };
                let from: usize = if id.0 != start.id.0 {
                    0
                } else if start.offset < until {
                    start.offset
                } else {
                    until
                };
                let part = string_of(&message, from, until);
                lines.push(part);
                proof {
                    if sound {
                        lemma_stored(store@, *entry);
                    }
                    assert(crate::names::views(lines@) =~= crate::names::views(before).push(part@));
                }
            },
            None => {},
        }
        i += 1;
    }
    proof {
        lemma_up_to(keys@, end.id, i as int);
    }
    let ghost all = crate::names::views(lines@);
    let mut go_on = true;
    while go_on
        invariant
            without_blank_tail(crate::names::views(lines@)) == without_blank_tail(all),
            !go_on ==> crate::names::views(lines@) == without_blank_tail(all),
        decreases
            lines@.len(),
            (if go_on {
                1int
            } else {
                0int
            }),
    {
        let count: usize = lines.len();
        if count == 0 {
            go_on = false;
        } else {
            let bare = trim(lines[count - 1].as_str());
            if bare.as_str().is_empty() {
                let ghost before = crate::names::views(lines@);
                let _blank = lines.pop();
                assert(crate::names::views(lines@) =~= before.drop_last());
            } else {
                go_on = false;
            }
        }
    }
    if lines.len() == 0 {
        return None;
    }
    let mut ends: Vec<String> = Vec::new();
    let mut k: usize = 0;
    while k < lines.len()
        invariant
            k <= lines@.len(),
            ends@.len() == k,
            forall|m: int| 0 <= m < k ==> (#[trigger] ends@[m])@ == trimmed_end(lines@[m]@),
        decreases lines@.len() - k,
    {
        ends.push(trim_end(lines[k].as_str()));
        k += 1;
    }
    proof {
        reveal_strlit("\n");
        assert("\n"@ =~= seq!['\n']);
        let kept = without_blank_tail(all);
        assert(crate::names::views(ends@) =~= Seq::new(
            kept.len(),
            |i: int| trimmed_end(kept[i]),
        ));
    }
    Some(join(&ends, "\n"))
}

/// The character that stands for six bits in base64's standard alphabet.
pub open spec fn base64_char(n: int) -> char {
    if n < 26 {
        (65 + n) as char
    } else if n < 52 {
        (71 + n) as char
    } else if n < 62 {
        (n - 4) as char
    } else if n == 62 {
        '+'
    } else {
        '/'
    }
}

/// The byte at a place, or zero past the end.
pub open spec fn byte_or_zero(bytes: Seq<u8>, i: int) -> int {
    if 0 <= i < bytes.len() {
        bytes[i] as int
    } else {
        0
    }
}

/// The four characters for the first three bytes, padded where there are
/// fewer.
pub open spec fn base64_group(bytes: Seq<u8>) -> Seq<char> {
    let triple = byte_or_zero(bytes, 0) * 65536 + byte_or_zero(bytes, 1) * 256 + byte_or_zero(
        bytes,
        2,
    );
    seq![
        base64_char(triple / 262144),
        base64_char(triple / 4096 % 64),
        if bytes.len() > 1 {
            base64_char(triple / 64 % 64)
        } else {
            '='
        },
        if bytes.len() > 2 {
            base64_char(triple % 64)
        } else {
            '='
        },
    ]
}

/// Base64 with the standard alphabet and padding.
pub open spec fn base64(bytes: Seq<u8>) -> Seq<char>
    decreases bytes.len(),
{
    if bytes.len() == 0 {
        Seq::empty()
    } else if bytes.len() <= 3 {
        base64_group(bytes)
    } else {
        base64_group(bytes.take(3)) + base64(bytes.skip(3))
    }
}

fn alphabet(n: u32) -> (r: char)
    requires
        n < 64,
    ensures
        r == base64_char(n as int),
{
    if n < 26 {
        (65 + n as u8) as char
    } else if n < 52 {
        (71 + n as u8) as char
    } else if n < 62 {
        (n as u8 - 4) as char
    } else if n == 62 {
        '+'
    } else {
        '/'
    }
}

/// Base64, standard alphabet with padding.
pub fn base64_encode(input: &[u8]) -> (r: String)
    ensures
        r@ == base64(input@),
{
    let mut out = String::new();
    let mut i: usize = 0;
    let n: usize = input.len();
    assert(input@.skip(0) =~= input@);
    while i < n
        invariant
            i <= n,
            n == input@.len(),
            base64(input@) == out@ + base64(input@.skip(i as int)),
        decreases n - i,
    {
        let left: usize = n - i;
        let b0: u32 = input[i] as u32;
        let b1: u32 = if left > 1 {
            input[i + 1] as u32
        } else {
            0
        };
        let b2: u32 = if left > 2 {
            input[i + 2] as u32
        } else {
            0
        };
        let triple: u32 = b0 * 65536 + b1 * 256 + b2;
        let ghost before = out@;
        out.push(alphabet(triple / 262144));
        out.push(alphabet(triple / 4096 % 64));
        out.push(
            if left > 1 {
                alphabet(triple / 64 % 64)
            } else {
                '='
            },
        );
        out.push(
            if left > 2 {
                alphabet(triple % 64)
            } else {
                '='
            },
        );
        proof {
            let rest = input@.skip(i as int);
            let group = if left <= 3 {
                rest
            } else {
                rest.take(3)
            };
            assert(group[0] == input@[i as int]);
            if left > 1 {
                assert(group[1] == input@[i + 1]);
            }
            if left > 2 {
                assert(group[2] == input@[i + 2]);
            }
            assert(out@ =~= before + base64_group(group));
            if left > 3 {
                assert(rest.skip(3) =~= input@.skip(i + 3));
                assert(before + (base64_group(group) + base64(input@.skip(i + 3))) =~= out@
                    + base64(input@.skip(i + 3)));
            } else {
                assert(input@.skip(n as int) =~= Seq::<u8>::empty());
                assert(before + base64_group(group) =~= out@ + base64(input@.skip(n as int)));
            }
        }
        i = if left > 3 {
            i + 3
        } else {
            n
        };
    }
    assert(input@.skip(n as int) =~= Seq::<u8>::empty());
    assert(out@ + Seq::<char>::empty() =~= out@);
    out
}

/// The escape that asks the terminal to put `text` on the system clipboard.
///
/// It is a request to the terminal, not a cell to paint, and goes down the same
/// path as the frames, so it works wherever the output goes.
pub fn copy_to_clipboard(text: &str) -> (r: String)
    ensures
        r@ == seq!['\x1b', ']', '5', '2', ';', 'c', ';'] + base64(text.spec_bytes()) + seq!['\x07'],
{
    let encoded = base64_encode(text.as_bytes());
    let mut out = String::new();
    out.push('\x1b');
    out.push(']');
    out.push('5');
    out.push('2');
    out.push(';');
    out.push('c');
    out.push(';');
    out.append(encoded.as_str());
    out.push('\x07');
    assert(out@ =~= seq!['\x1b', ']', '5', '2', ';', 'c', ';'] + base64(text.spec_bytes())
        + seq!['\x07']);
    out
}

/// Base64 writes four characters for every three bytes, rounded up.
pub proof fn base64_length(bytes: Seq<u8>)
    ensures
        base64(bytes).len() == (bytes.len() + 2) / 3 * 4,
    decreases bytes.len(),
{
    if bytes.len() > 3 {
        base64_length(bytes.skip(3));
    }
}

proof fn lemma_base64_char_distinct(a: int, b: int)
    requires
        0 <= a < 64,
        0 <= b < 64,
        base64_char(a) == base64_char(b),
    ensures
        a == b,
        base64_char(a) != '=',
{
}

proof fn lemma_sextets(x: int)
    requires
        0 <= x < 16777216,
    ensures
        x == (x / 262144) * 262144 + (x / 4096 % 64) * 4096 + (x / 64 % 64) * 64 + x % 64,
        0 <= x / 262144 < 64,
        0 <= x / 4096 % 64 < 64,
        0 <= x / 64 % 64 < 64,
        0 <= x % 64 < 64,
{
    assert(x / 4096 == (x / 64) / 64);
    assert(x / 262144 == (x / 4096) / 64);
}

proof fn lemma_triple(a: int, b: int, c: int, d: int, e: int, f: int)
    requires
        0 <= a < 256,
        0 <= b < 256,
        0 <= c < 256,
        0 <= d < 256,
        0 <= e < 256,
        0 <= f < 256,
        a * 65536 + b * 256 + c == d * 65536 + e * 256 + f,
    ensures
        a == d,
        b == e,
        c == f,
{
}

proof fn lemma_group_distinct(a: Seq<u8>, b: Seq<u8>)
    requires
        1 <= a.len() <= 3,
        1 <= b.len() <= 3,
        base64_group(a) == base64_group(b),
    ensures
        a == b,
{
    let a0 = byte_or_zero(a, 0);
    let a1 = byte_or_zero(a, 1);
    let a2 = byte_or_zero(a, 2);
    let b0 = byte_or_zero(b, 0);
    let b1 = byte_or_zero(b, 1);
    let b2 = byte_or_zero(b, 2);
    let x = a0 * 65536 + a1 * 256 + a2;
    let y = b0 * 65536 + b1 * 256 + b2;
    lemma_sextets(x);
    lemma_sextets(y);
    let p = base64_group(a);
    let q = base64_group(b);
    assert(p[0] == q[0] && p[1] == q[1] && p[2] == q[2] && p[3] == q[3]);
    lemma_base64_char_distinct(x / 262144, y / 262144);
    lemma_base64_char_distinct(x / 4096 % 64, y / 4096 % 64);
    lemma_base64_char_distinct(x / 64 % 64, x / 64 % 64);
    lemma_base64_char_distinct(y / 64 % 64, y / 64 % 64);
    lemma_base64_char_distinct(x % 64, x % 64);
    lemma_base64_char_distinct(y % 64, y % 64);
    assert(a.len() == b.len());
    if a.len() > 1 {
        lemma_base64_char_distinct(x / 64 % 64, y / 64 % 64);
    } else {
        assert(x / 64 % 64 == 0 && y / 64 % 64 == 0);
    }
    if a.len() > 2 {
        lemma_base64_char_distinct(x % 64, y % 64);
    } else {
        assert(x % 64 == 0 && y % 64 == 0);
    }
    lemma_triple(a0, a1, a2, b0, b1, b2);
    assert(a =~= b);
}

/// What went into base64 can be told from what came out.
pub proof fn base64_loses_nothing(a: Seq<u8>, b: Seq<u8>)
    requires
        base64(a) == base64(b),
    ensures
        a == b,
    decreases a.len(),
{
    base64_length(a);
    base64_length(b);
    if a.len() == 0 || b.len() == 0 {
        assert(a =~= b);
    } else {
        let p = if a.len() <= 3 {
            a
        } else {
            a.take(3)
        };
        let q = if b.len() <= 3 {
            b
        } else {
            b.take(3)
        };
        assert(base64(a).take(4) =~= base64_group(p));
        assert(base64(b).take(4) =~= base64_group(q));
        lemma_group_distinct(p, q);
        if a.len() > 3 {
            assert(base64(a).skip(4) =~= base64(a.skip(3)));
        }
        if b.len() > 3 {
            assert(base64(b).skip(4) =~= base64(b.skip(3)));
        }
        if a.len() > 3 && b.len() > 3 {
            base64_loses_nothing(a.skip(3), b.skip(3));
            assert(a =~= p + a.skip(3));
            assert(b =~= q + b.skip(3));
        }
    }
}

proof fn lemma_without_blank_tail(lines: Seq<Seq<char>>)
    ensures
        without_blank_tail(lines).len() <= lines.len(),
        without_blank_tail(lines) == lines.take(without_blank_tail(lines).len() as int),
        forall|i: int, j: int|
            without_blank_tail(lines).len() <= i < lines.len() && 0 <= j < lines[i].len()
                ==> is_white(#[trigger] lines[i][j]),
        without_blank_tail(lines).len() > 0 ==> exists|j: int|
            0 <= j < without_blank_tail(lines).last().len() && !is_white(
                #[trigger] without_blank_tail(lines).last()[j],
            ),
    decreases lines.len(),
{
    let kept = without_blank_tail(lines);
    if lines.len() > 0 {
        trimming_takes_white_space_only(lines.last());
        if trimmed(lines.last()).len() == 0 {
            let front = lines.drop_last();
            lemma_without_blank_tail(front);
            assert(front.take(kept.len() as int) =~= lines.take(kept.len() as int));
            assert forall|i: int, j: int|
                kept.len() <= i < lines.len() && 0 <= j < lines[i].len() implies is_white(
                #[trigger] lines[i][j],
            ) by {
                if i < front.len() {
                    assert(front[i][j] == lines[i][j]);
                }
            }
        } else {
            assert(lines.take(lines.len() as int) =~= lines);
            let last = lines.last();
            let from = choose|from: int|
                {
                    let until = from + trimmed(last).len();
                    &&& 0 <= from <= until <= last.len()
                    &&& trimmed(last) == #[trigger] last.subrange(from, from + trimmed(last).len())
                    &&& forall|i: int| 0 <= i < from || until <= i < last.len() ==> is_white(
                        #[trigger] last[i],
                    )
                };
            assert(trimmed(last)[0] == last[from]);
        }
    } else {
        assert(lines.take(0) =~= lines);
    }
}

/// A copy is the lines that were taken, one under the other. Each is copied from
/// its first character on, its indentation with it, and loses only white space at
/// its end; a line that does not end in white space is copied as it is. Lines
/// are left out only at the end, and only where they are blank; where nothing is
/// copied every line was blank.
pub proof fn a_copy_keeps_each_line_from_its_start(lines: Seq<Seq<char>>)
    ensures
        match copied_text(lines) {
            Some(text) => exists|ends: Seq<Seq<char>>|
                {
                    &&& 0 < ends.len() <= lines.len()
                    &&& #[trigger] joined(ends, seq!['\n']) == text
                    &&& forall|i: int|
                        0 <= i < ends.len() ==> (#[trigger] ends[i]).is_prefix_of(lines[i])
                    &&& forall|i: int|
                        0 <= i < ends.len() && (lines[i].len() == 0 || !is_white(lines[i].last()))
                            ==> #[trigger] ends[i] == lines[i]
                    &&& forall|i: int, j: int|
                        0 <= i < ends.len() && ends[i].len() <= j < lines[i].len() ==> is_white(
                            #[trigger] lines[i][j],
                        )
                    &&& forall|i: int|
                        0 <= i < ends.len() && (#[trigger] ends[i]).len() > 0 ==> !is_white(
                            ends[i].last(),
                        )
                    &&& ends.last().len() > 0
                    &&& forall|i: int, j: int|
                        ends.len() <= i < lines.len() && 0 <= j < lines[i].len() ==> is_white(
                            #[trigger] lines[i][j],
                        )
                },
            None => forall|i: int, j: int|
                0 <= i < lines.len() && 0 <= j < lines[i].len() ==> is_white(#[trigger] lines[i][j]),
        },
{
    let kept = without_blank_tail(lines);
    lemma_without_blank_tail(lines);
    if kept.len() > 0 {
        let ends = Seq::new(kept.len(), |i: int| trimmed_end(kept[i]));
        assert forall|i: int| 0 <= i < kept.len() implies {
            &&& kept[i] == lines[i]
            &&& (#[trigger] ends[i]).is_prefix_of(lines[i])
            &&& ends[i].len() > 0 ==> !is_white(ends[i].last())
            &&& lines[i].len() == 0 || !is_white(lines[i].last()) ==> ends[i] == lines[i]
            &&& forall|j: int| ends[i].len() <= j < lines[i].len() ==> is_white(
                #[trigger] lines[i][j],
            )
        } by {
            trimming_the_end_keeps_the_start(kept[i]);
        }
        assert forall|i: int, j: int|
            0 <= i < ends.len() && ends[i].len() <= j < lines[i].len() implies is_white(
            #[trigger] lines[i][j],
        ) by {
            assert(ends[i].is_prefix_of(lines[i]));
        }
        let n = kept.len() - 1;
        assert(ends[n] == trimmed_end(kept.last()));
        if ends[n].len() == 0 {
            let j = choose|j: int| 0 <= j < kept.last().len() && !is_white(#[trigger] kept.last()[j]);
            assert(is_white(lines[n][j]));
        }
        assert(joined(ends, seq!['\n']) == copied_text(lines)->0);
    }
}

/// Of a line inside the selection everything is taken; of the line that it
/// begins in what stands before it is left out, and of the line that it ends in
/// what stands from its end on.
pub proof fn only_the_outer_lines_are_cut(
    message: Seq<char>,
    id: LogId,
    start: Point,
    end: Point,
)
    ensures
        id != start.id && id != end.id ==> taken_part(message, id, start, end) == message,
        id == start.id && id != end.id && start.offset <= message.len() ==> taken_part(
            message,
            id,
            start,
            end,
        ) == message.skip(start.offset as int),
        id != start.id && id == end.id && end.offset <= message.len() ==> taken_part(
            message,
            id,
            start,
            end,
        ) == message.take(end.offset as int),
        id == start.id && id == end.id && start.offset <= end.offset <= message.len()
            ==> taken_part(message, id, start, end) == message.subrange(
            start.offset as int,
            end.offset as int,
        ),
{
    assert(message.subrange(0, message.len() as int) =~= message);
}

/// What is selected lies between where the drag began and where it is, whichever
/// reads first: every point of it is at or after the first of the two and before
/// the second, and it is never empty.
pub proof fn a_span_runs_from_the_earlier_end(s: Selection)
    ensures
        match span_of(s) {
            Some((start, end)) => {
                &&& start.id.0 < end.id.0 || (start.id == end.id && start.offset < end.offset)
                &&& s.anchor == Some(start) && s.cursor == Some(end) || s.anchor == Some(end)
                    && s.cursor == Some(start)
                &&& covers(s, start)
                &&& !covers(s, end)
            },
            None => s.anchor is None || s.cursor is None || s.anchor == s.cursor,
        },
{
}

proof fn lemma_taken(
    keys: Seq<LineKey>,
    entries: Seq<StoredLogLine>,
    start: Point,
    end: Point,
)
    requires
        forall|i: int| 0 <= i < keys.len() ==> is_stored(entries, #[trigger] keys[i]),
    ensures
        taken_parts(keys, entries, start, end).len() == keys.len(),
        forall|i: int|
            0 <= i < keys.len() ==> #[trigger] taken_parts(keys, entries, start, end)[i]
                == taken_part(stored_line(entries, keys[i]).message@, keys[i].id, start, end),
    decreases keys.len(),
{
    if keys.len() > 0 {
        let front = keys.drop_last();
        assert forall|i: int| 0 <= i < front.len() implies is_stored(
            entries,
            #[trigger] front[i],
        ) by {
            assert(front[i] == keys[i]);
        }
        lemma_taken(front, entries, start, end);
        let all = taken_parts(keys, entries, start, end);
        assert(is_stored(entries, keys[keys.len() - 1]));
        assert forall|i: int| 0 <= i < keys.len() implies #[trigger] all[i] == taken_part(
            stored_line(entries, keys[i]).message@,
            keys[i].id,
            start,
            end,
        ) by {
            if i < front.len() {
                assert(front[i] == keys[i]);
                assert(all[i] == taken_parts(front, entries, start, end)[i]);
            }
        }
    }
}

/// A selection takes one part from each line that is shown from its first line
/// to its last and still held, in the order in which they are shown.
pub proof fn a_part_is_taken_from_every_line(
    keys: Seq<LineKey>,
    entries: Seq<StoredLogLine>,
    start: Point,
    end: Point,
    i: int,
)
    requires
        forall|k: int| 0 <= k < keys.len() ==> is_stored(entries, #[trigger] keys[k]),
        0 <= i < keys.len(),
    ensures
        ({
            let parts = taken_parts(keys, entries, start, end);
            let message = stored_line(entries, keys[i]).message@;
            &&& parts.len() == keys.len()
            &&& keys[i].id != start.id && keys[i].id != end.id ==> parts[i] == message
            &&& keys[i].id == start.id && keys[i].id != end.id && start.offset <= message.len()
                ==> parts[i] == message.skip(start.offset as int)
            &&& keys[i].id != start.id && keys[i].id == end.id && end.offset <= message.len()
                ==> parts[i] == message.take(end.offset as int)
        }),
{
    lemma_taken(keys, entries, start, end);
    only_the_outer_lines_are_cut(
        stored_line(entries, keys[i]).message@,
        keys[i].id,
        start,
        end,
    );
}

/// A word is made of letters, digits and the marks that stand inside names and
/// paths; a dot or a colon belongs to it only between two of those. White space
/// is nobody's, and quotes and brackets are punctuation.
pub proof fn names_and_paths_are_words(s: Seq<char>, at: int)
    requires
        0 <= at < s.len(),
    ensures
        'a' <= s[at] <= 'z' || 'A' <= s[at] <= 'Z' || '0' <= s[at] <= '9' || s[at] == '_' || s[at]
            == '-' || s[at] == '/' ==> class_of(s, at) == Some(Class::Word),
        s[at] == ' ' || s[at] == '\t' ==> class_of(s, at) == Some(Class::Space),
        s[at] == '"' || s[at] == '\'' || s[at] == '(' || s[at] == ')' || s[at] == '[' || s[at]
            == ']' || s[at] == '{' || s[at] == '}' || s[at] == '<' || s[at] == '>' || s[at] == ','
            || s[at] == ';' || s[at] == '=' || s[at] == '`' || s[at] == '\\' || s[at] == '|' || s[at]
            == '&' || s[at] == '!' || s[at] == '?' || s[at] == '*' || s[at] == '^' ==> class_of(
            s,
            at,
        ) == Some(Class::Punct),
        (s[at] == '.' || s[at] == ':') && 0 < at < s.len() - 1 && ('a' <= s[at - 1] <= 'z' || '0'
            <= s[at - 1] <= '9') && ('a' <= s[at + 1] <= 'z' || '0' <= s[at + 1] <= '9')
            ==> class_of(s, at) == Some(Class::Word),
        (s[at] == '.' || s[at] == ':') && (at == 0 || at == s.len() - 1 || is_white(s[at - 1])
            || is_white(s[at + 1])) ==> class_of(s, at) == Some(Class::Punct),
        class_of(s, s.len() as int) is None,
{
}

/// The characters of the encoding are the capitals, the small letters, the
/// digits and two marks, in that order.
pub proof fn the_alphabet_is_in_its_order(n: int)
    requires
        0 <= n < 64,
    ensures
        n < 26 ==> base64_char(n) as int == 'A' as int + n,
        26 <= n < 52 ==> base64_char(n) as int == 'a' as int + (n - 26),
        52 <= n < 62 ==> base64_char(n) as int == '0' as int + (n - 52),
        n == 62 ==> base64_char(n) == '+',
        n == 63 ==> base64_char(n) == '/',
{
}

/// Lines are taken up to the one that the selection ends in and no further.
pub proof fn lines_are_taken_up_to_the_end(keys: Seq<LineKey>, end: LogId)
    ensures
        up_to(keys, end).is_prefix_of(keys),
        forall|i: int| 0 <= i < up_to(keys, end).len() ==> (#[trigger] up_to(keys, end)[i]).id.0
            <= end.0,
        up_to(keys, end).len() < keys.len() ==> keys[up_to(keys, end).len() as int].id.0 > end.0,
    decreases keys.len(),
{
    if keys.len() > 0 && keys[0].id.0 <= end.0 {
        let rest = keys.drop_first();
        lines_are_taken_up_to_the_end(rest, end);
        let taken = up_to(rest, end);
        let all = up_to(keys, end);
        assert forall|i: int| 0 <= i < all.len() implies #[trigger] all[i] == keys[i] && all[i].id.0
            <= end.0 by {
            if i > 0 {
                assert(all[i] == taken[i - 1]);
                assert(rest[i - 1] == keys[i]);
            }
        }
        if all.len() < keys.len() {
            assert(rest[taken.len() as int] == keys[all.len() as int]);
        }
    }
}

} // verus!
