//! The log pane's `/` search: which lines are shown, and what is lit up.
//!
//! Matching runs against the message, not the rendered row. A query is a
//! substring by default, because every state of a half-typed substring is a
//! valid one; it ignores case until it contains a capital. As a regex it may
//! not compile, and then everything is shown and the prompt says why.
//!
//! A line is shown exactly when something in it is lit up. Lowering the case may
//! lengthen a text, so each character of the lowered text is traced back to the
//! character it came from. A regex that finds nothing but empty matches lights
//! up the whole line; a line without text has nothing to light up and is not
//! shown.
use crate::text::{chars_of, code_point, string_of, trim, trimmed};
use std::collections::hash_map::DefaultHasher;
use std::hash::Hasher;
use vstd::prelude::*;
use vstd::utf8::{encode_utf8, encode_utf8_decode_utf8};

verus! {

/// How the query is interpreted.
#[derive(Debug, Clone, Copy, PartialEq, Eq, Structural)]
pub enum Mode {
    Substring,
    Regex,
}

/// Whether `char::is_uppercase` reports a capital for a character outside ASCII.
pub uninterp spec fn wide_capital(ch: char) -> bool;

/// `char::is_uppercase`: in ASCII the letters from `A` to `Z`; elsewhere the
/// answer depends on the character alone.
pub assume_specification[ char::is_uppercase ](ch: char) -> (r: bool)
    ensures
        (ch as int) < 0x80 ==> r == ('A' <= ch <= 'Z'),
        ch as int >= 0x80 ==> r == wide_capital(ch),
;

/// Whether a character is a capital.
pub open spec fn is_capital(ch: char) -> bool {
    if (ch as int) < 0x80 {
        'A' <= ch <= 'Z'
    } else {
        wide_capital(ch)
    }
}

/// Whether a text is ASCII.
pub open spec fn is_ascii(s: Seq<char>) -> bool {
    forall|i: int| 0 <= i < s.len() ==> (#[trigger] s[i]) as int <= 0x7f
}

/// An ASCII character with a capital lowered.
pub open spec fn ascii_lower(ch: char) -> char {
    if 'A' <= ch <= 'Z' {
        (ch as u32 + 32) as char
    } else {
        ch
    }
}

/// An ASCII text with its capitals lowered.
pub open spec fn ascii_lowered(s: Seq<char>) -> Seq<char> {
    Seq::new(s.len(), |i: int| ascii_lower(s[i]))
}

/// What `str::to_lowercase` makes of a text that is not ASCII.
pub uninterp spec fn wide_lower_case(s: Seq<char>) -> Seq<char>;

/// `str::to_lowercase`: of an ASCII text, the text with its capitals lowered;
/// of another the result depends on the text alone. Characters may be replaced
/// by several, but a text does not become empty.
pub assume_specification[ str::to_lowercase ](s: &str) -> (r: String)
    ensures
        is_ascii(s@) ==> r@ == ascii_lowered(s@),
        !is_ascii(s@) ==> r@ == wide_lower_case(s@),
        s@.len() > 0 ==> r@.len() > 0,
;

/// A text in lower case.
pub open spec fn lower_case(s: Seq<char>) -> Seq<char> {
    if is_ascii(s) {
        ascii_lowered(s)
    } else {
        wide_lower_case(s)
    }
}

/// What `char::to_lowercase` makes of a character outside ASCII.
pub uninterp spec fn wide_lower_char(ch: char) -> Seq<char>;

/// `char::to_lowercase`: one character or more; one for ASCII, elsewhere
/// depending on the character alone.
#[verifier::external_body]
fn lower_of(ch: char) -> (r: String)
    ensures
        (ch as int) < 0x80 ==> r@ == seq![ascii_lower(ch)],
        ch as int >= 0x80 ==> r@ == wide_lower_char(ch),
        r@.len() >= 1,
{
    ch.to_lowercase().to_string()
}

/// What a character becomes in lower case.
pub open spec fn lower_char(ch: char) -> Seq<char> {
    if (ch as int) < 0x80 {
        seq![ascii_lower(ch)]
    } else {
        wide_lower_char(ch)
    }
}

/// A compiled regular expression.
#[verifier::external_type_specification]
#[verifier::external_body]
pub struct ExRegex(regex::Regex);

/// What a compiled expression finds in each text: the byte ranges of its
/// successive non-overlapping matches.
pub uninterp spec fn regex_matches(re: regex::Regex) -> Map<Seq<char>, Seq<(usize, usize)>>;

/// What the expression compiled from a pattern finds in a text.
pub uninterp spec fn pattern_matches(
    pattern: Seq<char>,
    ignore_case: bool,
) -> Map<Seq<char>, Seq<(usize, usize)>>;

/// Why a pattern does not compile.
#[derive(Debug)]
pub enum PatternFault {
    /// It is not a regular expression: what is wrong with it.
    IllFormed(String),
    /// What it compiles to would be too big: what is said of that.
    TooBig(String),
}

/// What `regex` says is wrong with a pattern, if it is not a regular expression.
pub uninterp spec fn pattern_error(pattern: Seq<char>, ignore_case: bool) -> Option<Seq<char>>;

/// What is said of a pattern that compiles to more than the limit.
pub const TOO_BIG: &'static str = "Compiled regex exceeds size limit of 10485760 bytes.";

/// `regex::RegexBuilder::build` with `case_insensitive` set: what the compiled
/// expression finds, and what is wrong with a pattern that is not a regular
/// expression, depends on the pattern and the flag alone. A regular expression
/// may still be too big, which is always said in the same words; nothing is
/// claimed of which are, since sizes differ between machines.
#[verifier::external_body]
fn compile(pattern: &str, ignore_case: bool) -> (r: Result<regex::Regex, PatternFault>)
    ensures
        match r {
            Ok(re) => {
                &&& regex_matches(re) == pattern_matches(pattern@, ignore_case)
                &&& pattern_error(pattern@, ignore_case) is None
            },
            Err(PatternFault::IllFormed(text)) => pattern_error(pattern@, ignore_case) == Some(
                text@,
            ),
            Err(PatternFault::TooBig(text)) => {
                &&& pattern_error(pattern@, ignore_case) is None
                &&& text@ == TOO_BIG@
            },
        },
{
    let mut builder = regex::RegexBuilder::new(pattern);
    builder.case_insensitive(ignore_case).build().map_err(|e| match e {
        regex::Error::Syntax(text) => PatternFault::IllFormed(text),
        other => PatternFault::TooBig(other.to_string()),
    })
}

/// `regex::Regex::is_match`: whether the expression finds anything in a text.
#[verifier::external_body]
fn regex_finds(re: &regex::Regex, text: &str) -> (r: bool)
    ensures
        r == (regex_matches(*re)[text@].len() > 0),
{
    re.is_match(text)
}

/// Whether byte ranges lie in a text one after the other, with their ends
/// between characters.
pub open spec fn in_order(s: Seq<char>, ranges: Seq<(usize, usize)>) -> bool {
    &&& forall|i: int|
        0 <= i < ranges.len() ==> {
            &&& (#[trigger] ranges[i]).0 <= ranges[i].1
            &&& ranges[i].1 <= bytes_before(s, s.len() as int)
            &&& is_edge(s, ranges[i].0 as int)
            &&& is_edge(s, ranges[i].1 as int)
        }
    &&& forall|i: int, j: int|
        0 <= i < j < ranges.len() ==> (#[trigger] ranges[i]).1 <= (#[trigger] ranges[j]).0
}

/// `regex::Regex::find_iter`: the byte ranges of the matches in a text, which
/// follow one another without overlapping and end between characters.
#[verifier::external_body]
fn regex_ranges(re: &regex::Regex, text: &str) -> (r: Vec<(usize, usize)>)
    ensures
        r@ == regex_matches(*re)[text@],
        in_order(text@, r@),
{
    re.find_iter(text).map(|m| (m.start(), m.end())).collect()
}

/// Whether a query contains a capital.
pub open spec fn mentions_capital(s: Seq<char>) -> bool {
    exists|i: int| 0 <= i < s.len() && is_capital(#[trigger] s[i])
}

/// Whether a query contains a capital.
pub fn has_uppercase(query: &str) -> (r: bool)
    ensures
        r == mentions_capital(query@),
{
    let all = chars_of(query);
    let mut i: usize = 0;
    while i < all.len()
        invariant
            i <= all@.len(),
            all@ == query@,
            forall|k: int| 0 <= k < i ==> !is_capital(#[trigger] query@[k]),
        decreases all@.len() - i,
    {
        if all[i].is_uppercase() {
            assert(is_capital(query@[i as int]));
            return true;
        }
        i += 1;
    }
    false
}

/// A text or its lower case, as the case rule of a query asks.
pub open spec fn folded(s: Seq<char>, query: Seq<char>) -> Seq<char> {
    if mentions_capital(query) {
        s
    } else {
        lower_case(s)
    }
}

/// Whether `part` stands in `s` at a place.
pub open spec fn stands_at(s: Seq<char>, part: Seq<char>, at: int) -> bool {
    0 <= at && at + part.len() <= s.len() && s.subrange(at, at + part.len()) == part
}

/// Whether `part` stands in `s` anywhere.
pub open spec fn has_part(s: Seq<char>, part: Seq<char>) -> bool {
    exists|at: int| stands_at(s, part, at)
}

/// The first place at or after `from` where `part` stands in `s`.
pub open spec fn is_next(s: Seq<char>, part: Seq<char>, from: int, at: int) -> bool {
    &&& from <= at
    &&& stands_at(s, part, at)
    &&& forall|k: int| from <= k < at ==> !#[trigger] stands_at(s, part, k)
}

fn find_from(s: &Vec<char>, part: &Vec<char>, from: usize) -> (r: Option<usize>)
    requires
        from <= s@.len(),
    ensures
        match r {
            Some(at) => is_next(s@, part@, from as int, at as int),
            None => forall|k: int| from <= k ==> !#[trigger] stands_at(s@, part@, k),
        },
{
    let n: usize = s.len();
    let m: usize = part.len();
    if m > n {
        return None;
    }
    let mut at: usize = from;
    while at <= n - m
        invariant
            n == s@.len(),
            m == part@.len(),
            m <= n,
            from <= at <= n + 1,
            forall|k: int| from <= k < at ==> !#[trigger] stands_at(s@, part@, k),
        decreases n + 1 - at,
    {
        let mut j: usize = 0;
        while j < m && s[at + j] == part[j]
            invariant
                n == s@.len(),
                m == part@.len(),
                j <= m,
                at + m <= n,
                forall|k: int| 0 <= k < j ==> s@[at + k] == #[trigger] part@[k],
            decreases m - j,
        {
            j += 1;
        }
        if j == m {
            assert(s@.subrange(at as int, at + m) =~= part@);
            assert(stands_at(s@, part@, at as int));
            return Some(at);
        }
        proof {
            if stands_at(s@, part@, at as int) {
                assert(s@.subrange(at as int, at + m)[j as int] == part@[j as int]);
            }
        }
        at += 1;
    }
    assert forall|k: int| from <= k implies !#[trigger] stands_at(s@, part@, k) by {
        if k < at {
        } else {
            assert(k + m > n);
        }
    }
    None
}

/// Substring search, case-insensitive until the query contains a capital.
pub fn contains_smart_case(haystack: &str, needle: &str) -> (r: bool)
    ensures
        r == has_part(folded(haystack@, needle@), folded(needle@, needle@)),
{
    let (hay, pin) = fold(haystack, needle);
    let s = chars_of(hay.as_str());
    let part = chars_of(pin.as_str());
    match find_from(&s, &part, 0) {
        Some(at) => {
            assert(stands_at(s@, part@, at as int));
            true
        },
        None => {
            assert forall|k: int| !stands_at(s@, part@, k) by {
                if 0 <= k {
                    assert(!stands_at(s@, part@, k));
                }
            }
            false
        },
    }
}

fn fold(haystack: &str, needle: &str) -> (r: (String, String))
    ensures
        r.0@ == folded(haystack@, needle@),
        r.1@ == folded(needle@, needle@),
        needle@.len() > 0 ==> r.1@.len() > 0,
{
    if has_uppercase(needle) {
        (haystack.to_owned(), needle.to_owned())
    } else {
        (haystack.to_lowercase(), needle.to_lowercase())
    }
}

/// Bytes a character takes in UTF-8.
pub open spec fn char_width(ch: char) -> int {
    let code = ch as int;
    if code < 0x80 {
        1
    } else if code < 0x800 {
        2
    } else if code < 0x10000 {
        3
    } else {
        4
    }
}

fn width_of(ch: char) -> (r: usize)
    ensures
        r as int == char_width(ch),
        1 <= r <= 4,
{
    let code: u32 = code_point(ch);
    if code < 0x80 {
        1
    } else if code < 0x800 {
        2
    } else if code < 0x10000 {
        3
    } else {
        4
    }
}

/// Bytes of the first `n` characters.
pub open spec fn bytes_before(s: Seq<char>, n: int) -> int
    decreases n,
{
    if n <= 0 {
        0
    } else {
        bytes_before(s, n - 1) + char_width(s[n - 1])
    }
}

proof fn lemma_bytes_grow(s: Seq<char>, m: int, n: int)
    requires
        0 <= m <= n,
    ensures
        0 <= bytes_before(s, m),
        m <= bytes_before(s, m),
        bytes_before(s, m) + (n - m) <= bytes_before(s, n),
    decreases n,
{
    if m < n {
        lemma_bytes_grow(s, m, n - 1);
    } else if n > 0 {
        lemma_bytes_grow(s, m - 1, n - 1);
    }
}

proof fn lemma_bytes_drop_first(s: Seq<char>, n: int)
    requires
        0 <= n < s.len(),
    ensures
        bytes_before(s, n + 1) == char_width(s[0]) + bytes_before(s.drop_first(), n),
    decreases n,
{
    if n > 0 {
        lemma_bytes_drop_first(s, n - 1);
    } else {
        assert(bytes_before(s, 0) == 0);
    }
}

/// The bytes of a text are those of its characters.
pub proof fn lemma_bytes_encoded(s: Seq<char>)
    ensures
        encode_utf8(s).len() == bytes_before(s, s.len() as int),
    decreases s.len(),
{
    if s.len() > 0 {
        lemma_bytes_encoded(s.drop_first());
        lemma_bytes_drop_first(s, s.len() - 1);
        lemma_scalar_width(s[0]);
    }
}

proof fn lemma_scalar_width(ch: char)
    ensures
        vstd::utf8::encode_scalar(ch as u32).len() == char_width(ch),
{
}

/// How many bytes a text takes.
fn byte_length(s: &str) -> (r: usize)
    ensures
        r as int == bytes_before(s@, s@.len() as int),
{
    proof {
        lemma_bytes_encoded(s@);
    }
    s.as_bytes().len()
}

/// The non-overlapping places of `part` in `s` from `from` on, leftmost first,
/// as character ranges.
pub open spec fn is_all_places(
    s: Seq<char>,
    part: Seq<char>,
    from: int,
    found: Seq<int>,
) -> bool
    decreases found.len(),
{
    if found.len() == 0 {
        forall|k: int| from <= k ==> !#[trigger] stands_at(s, part, k)
    } else {
        is_next(s, part, from, found[0]) && is_all_places(
            s,
            part,
            found[0] + part.len(),
            found.drop_first(),
        )
    }
}

/// The character of a text that a character of its lower case came from. What
/// is past the end came from the last.
pub open spec fn origin_of(s: Seq<char>, at: int) -> int
    decreases s.len(),
{
    if s.len() <= 1 || at < lower_char(s[0]).len() {
        0
    } else {
        1 + origin_of(s.drop_first(), at - lower_char(s[0]).len())
    }
}

/// The character of a text that a character of the folded text came from.
pub open spec fn source_of(s: Seq<char>, query: Seq<char>, at: int) -> int {
    if mentions_capital(query) {
        at
    } else {
        origin_of(s, at)
    }
}

/// The characters of a text that the occurrences at the given places of the
/// folded text came from. A character that two of them share goes to the first.
pub open spec fn lit_up(s: Seq<char>, query: Seq<char>, found: Seq<int>) -> Seq<(int, int)>
    decreases found.len(),
{
    if found.len() == 0 {
        Seq::empty()
    } else {
        let before = lit_up(s, query, found.drop_last());
        let start = source_of(s, query, found.last());
        let to = source_of(s, query, found.last() + folded(query, query).len() - 1) + 1;
        let from = if before.len() > 0 && before.last().1 > start {
            before.last().1
        } else {
            start
        };
        if from < to {
            before.push((from, to))
        } else {
            before
        }
    }
}

/// The byte ranges of character ranges.
pub open spec fn byte_ranges(s: Seq<char>, lit: Seq<(int, int)>) -> Seq<(usize, usize)> {
    Seq::new(
        lit.len(),
        |i: int| (bytes_before(s, lit[i].0) as usize, bytes_before(s, lit[i].1) as usize),
    )
}

/// Whether character ranges lie in a text of `n` characters one after the
/// other, none of them empty.
pub open spec fn apart(lit: Seq<(int, int)>, n: int) -> bool {
    &&& forall|i: int| 0 <= i < lit.len() ==> 0 <= (#[trigger] lit[i]).0 < lit[i].1 <= n
    &&& forall|i: int, j: int|
        0 <= i < j < lit.len() ==> (#[trigger] lit[i]).1 <= (#[trigger] lit[j]).0
}

proof fn lemma_origin_bounds(s: Seq<char>, a: int, b: int)
    requires
        a <= b,
    ensures
        0 <= origin_of(s, a) <= origin_of(s, b),
        s.len() > 0 ==> origin_of(s, b) < s.len(),
    decreases s.len(),
{
    if s.len() > 1 {
        let k = lower_char(s[0]).len();
        lemma_origin_bounds(s.drop_first(), a - k, b - k);
        lemma_origin_bounds(s.drop_first(), b - k, b - k);
    }
}

proof fn lemma_source_grows(s: Seq<char>, query: Seq<char>, a: int, b: int)
    requires
        0 <= a <= b,
    ensures
        0 <= source_of(s, query, a) <= source_of(s, query, b),
{
    lemma_origin_bounds(s, a, b);
}

proof fn lemma_something_lit(s: Seq<char>, query: Seq<char>, found: Seq<int>)
    requires
        found.len() > 0,
        found[0] >= 0,
        folded(query, query).len() > 0,
    ensures
        lit_up(s, query, found).len() > 0,
    decreases found.len(),
{
    if found.len() == 1 {
        lemma_source_grows(s, query, found[0], found[0] + folded(query, query).len() - 1);
        assert(found.drop_last().len() == 0);
    } else {
        lemma_something_lit(s, query, found.drop_last());
    }
}

/// The character that each of the first `length` characters of the lower case
/// came from.
fn origins(all: &Vec<char>, length: usize) -> (r: Vec<usize>)
    requires
        all@.len() > 0 || length == 0,
    ensures
        r@.len() == length,
        forall|j: int| 0 <= j < length ==> (#[trigger] r@[j]) as int == origin_of(all@, j),
{
    let mut out: Vec<usize> = Vec::new();
    if length == 0 {
        return out;
    }
    let n: usize = all.len();
    let mut i: usize = 0;
    let mut base: usize = 0;
    let mut width: usize = chars_of(lower_of(all[0]).as_str()).len();
    let mut j: usize = 0;
    assert(all@.skip(0) =~= all@);
    while j < length
        invariant
            n == all@.len(),
            i < n,
            base <= j <= length,
            width as int == lower_char(all@[i as int]).len(),
            width >= 1,
            out@.len() == j,
            forall|k: int|
                base <= k ==> #[trigger] origin_of(all@, k) == i + origin_of(
                    all@.skip(i as int),
                    k - base,
                ),
            forall|k: int| 0 <= k < j ==> (#[trigger] out@[k]) as int == origin_of(all@, k),
        decreases length - j,
    {
        while i + 1 < n && j - base >= width
            invariant
                n == all@.len(),
                i < n,
                base <= j < length,
                width as int == lower_char(all@[i as int]).len(),
                width >= 1,
                forall|k: int|
                    base <= k ==> #[trigger] origin_of(all@, k) == i + origin_of(
                        all@.skip(i as int),
                        k - base,
                    ),
            decreases n - i,
        {
            let ghost before = base as int;
            base += width;
            proof {
                let rest = all@.skip(i as int);
                assert(rest.drop_first() =~= all@.skip(i + 1));
                assert(rest[0] == all@[i as int]);
                assert forall|k: int| base <= k implies #[trigger] origin_of(all@, k) == i + 1
                    + origin_of(all@.skip(i + 1), k - base) by {
                    assert(origin_of(all@, k) == i + origin_of(rest, k - before));
                }
            }
            i += 1;
            width = chars_of(lower_of(all[i]).as_str()).len();
        }
        proof {
            let rest = all@.skip(i as int);
            assert(rest[0] == all@[i as int]);
            assert(origin_of(all@, j as int) == i + origin_of(rest, j - base));
            assert(origin_of(rest, j - base) == 0);
        }
        out.push(i);
        j += 1;
    }
    out
}

/// The character that each character of the folded text came from.
fn sources(haystack: &Vec<char>, query: &str, length: usize) -> (r: Vec<usize>)
    requires
        length == folded(haystack@, query@).len(),
    ensures
        r@.len() == length,
        forall|j: int|
            0 <= j < length ==> (#[trigger] r@[j]) as int == source_of(haystack@, query@, j),
        forall|j: int| 0 <= j < length ==> #[trigger] r@[j] < haystack@.len(),
{
    if has_uppercase(query) {
        let mut out: Vec<usize> = Vec::new();
        let mut j: usize = 0;
        while j < length
            invariant
                j <= length,
                out@.len() == j,
                forall|k: int| 0 <= k < j ==> (#[trigger] out@[k]) as int == k,
            decreases length - j,
        {
            out.push(j);
            j += 1;
        }
        return out;
    }
    proof {
        if haystack@.len() == 0 {
            assert(is_ascii(haystack@));
            assert(ascii_lowered(haystack@).len() == 0);
        }
    }
    let out = origins(haystack, length);
    assert forall|j: int| 0 <= j < length implies #[trigger] out@[j] < haystack@.len() by {
        lemma_origin_bounds(haystack@, j, j);
    }
    out
}

/// The byte offset of each character and of the end.
fn offsets(all: &Vec<char>, total: usize) -> (r: Vec<usize>)
    requires
        total as int == bytes_before(all@, all@.len() as int),
    ensures
        r@.len() == all@.len() + 1,
        forall|k: int| 0 <= k <= all@.len() ==> (#[trigger] r@[k]) as int == bytes_before(all@, k),
{
    let mut out: Vec<usize> = Vec::new();
    let mut bytes: usize = 0;
    out.push(0);
    let mut i: usize = 0;
    while i < all.len()
        invariant
            i <= all@.len(),
            total as int == bytes_before(all@, all@.len() as int),
            bytes as int == bytes_before(all@, i as int),
            out@.len() == i + 1,
            forall|k: int| 0 <= k <= i ==> (#[trigger] out@[k]) as int == bytes_before(all@, k),
        decreases all@.len() - i,
    {
        proof {
            lemma_bytes_grow(all@, i + 1, all@.len() as int);
        }
        bytes += width_of(all[i]);
        out.push(bytes);
        i += 1;
    }
    out
}

/// Whether these are the byte ranges of every occurrence of a query, leftmost
/// first and without overlap.
pub open spec fn substring_found(
    message: Seq<char>,
    query: Seq<char>,
    bytes: Seq<(usize, usize)>,
) -> bool {
    if query.len() == 0 {
        bytes.len() == 0
    } else {
        exists|found: Seq<int>|
            {
                &&& is_all_places(folded(message, query), folded(query, query), 0, found)
                &&& apart(lit_up(message, query, found), message.len() as int)
                &&& bytes == byte_ranges(message, #[trigger] lit_up(message, query, found))
            }
    }
}

/// Byte ranges of every occurrence of `needle`, under the same case rule.
///
/// Lowering the case can change how many characters a text takes; the ranges
/// are those of the characters that an occurrence came from.
pub fn substring_ranges(haystack: &str, needle: &str) -> (r: Vec<(usize, usize)>)
    ensures
        substring_found(haystack@, needle@, r@),
{
    let mut out: Vec<(usize, usize)> = Vec::new();
    if needle.is_empty() {
        return out;
    }
    let (hay, pin) = fold(haystack, needle);
    let all = chars_of(haystack);
    let s = chars_of(hay.as_str());
    let part = chars_of(pin.as_str());
    let m: usize = part.len();
    let n: usize = s.len();
    let count: usize = all.len();
    let from_where = sources(&all, needle, n);
    let total: usize = byte_length(haystack);
    let edges = offsets(&all, total);
    let mut from: usize = 0;
    let mut last: usize = 0;
    let ghost mut found: Seq<int> = Seq::empty();
    let ghost mut lit: Seq<(int, int)> = Seq::empty();
    let mut more = true;
    assert(byte_ranges(haystack@, lit) =~= Seq::<(usize, usize)>::empty());
    while more
        invariant
            m == part@.len(),
            m > 0,
            n == s@.len(),
            count == all@.len(),
            all@ == haystack@,
            s@ == folded(haystack@, needle@),
            part@ == folded(needle@, needle@),
            from_where@.len() == s@.len(),
            forall|j: int|
                0 <= j < s@.len() ==> (#[trigger] from_where@[j]) as int == source_of(
                    haystack@,
                    needle@,
                    j,
                ),
            forall|j: int| 0 <= j < s@.len() ==> #[trigger] from_where@[j] < haystack@.len(),
            edges@.len() == all@.len() + 1,
            forall|k: int|
                0 <= k <= all@.len() ==> (#[trigger] edges@[k]) as int == bytes_before(all@, k),
            from <= s@.len(),
            last <= all@.len(),
            lit == lit_up(haystack@, needle@, found),
            last as int == (if lit.len() > 0 {
                lit.last().1
            } else {
                0
            }),
            apart(lit, haystack@.len() as int),
            out@ == byte_ranges(haystack@, lit),
            more ==> (forall|tail: Seq<int>|
                is_all_places(s@, part@, from as int, tail) ==> #[trigger] is_all_places(
                    s@,
                    part@,
                    0,
                    found + tail,
                )),
            !more ==> is_all_places(s@, part@, 0, found),
        decreases
            s@.len() - from,
            (if more {
                1int
            } else {
                0int
            }),
    {
        match find_from(&s, &part, from) {
            Some(at) => {
                assert(at + m <= n);
                let origin: usize = from_where[at];
                let start: usize = if origin > last {
                    origin
                } else {
                    last
                };
                let end: usize = from_where[at + m - 1] + 1;
                let ghost before = found;
                let ghost lit_before = lit;
                proof {
                    found = before.push(at as int);
                    assert(found.drop_last() =~= before);
                    lit = lit_up(haystack@, needle@, found);
                    assert(lit == (if start < end {
                        lit_before.push((start as int, end as int))
                    } else {
                        lit_before
                    }));
                }
                if start < end {
                    out.push((edges[start], edges[end]));
                    last = end;
                    proof {
                        assert(out@ =~= byte_ranges(haystack@, lit));
                        assert forall|i: int, j: int| 0 <= i < j < lit.len() implies (
                        #[trigger] lit[i]).1 <= (#[trigger] lit[j]).0 by {
                            if j == lit_before.len() {
                                if i < lit_before.len() - 1 {
                                    assert(lit_before[i].1 <= lit_before[lit_before.len() - 1].0);
                                }
                            } else {
                                assert(lit_before[i].1 <= lit_before[j].0);
                            }
                        }
                    }
                }
                proof {
                    assert forall|tail: Seq<int>|
                        is_all_places(s@, part@, at + m, tail) implies #[trigger] is_all_places(
                        s@,
                        part@,
                        0,
                        found + tail,
                    ) by {
                        let longer = seq![at as int] + tail;
                        assert(longer.drop_first() =~= tail);
                        assert(is_all_places(s@, part@, from as int, longer));
                        assert(is_all_places(s@, part@, 0, before + longer));
                        assert(before + longer =~= found + tail);
                    }
                }
                from = at + m;
            },
            None => {
                proof {
                    let none = Seq::<int>::empty();
                    assert(is_all_places(s@, part@, from as int, none));
                    assert(is_all_places(s@, part@, 0, found + none));
                    assert(found + none =~= found);
                }
                more = false;
            },
        }
    }
    out
}

/// How many characters end at or before a byte offset.
pub open spec fn chars_before(s: Seq<char>, offset: int) -> int
    decreases s.len(),
{
    if s.len() == 0 || bytes_before(s, s.len() as int) <= offset {
        s.len() as int
    } else {
        chars_before(s.drop_last(), offset)
    }
}

/// Whether a byte offset falls between two characters or at an end.
pub open spec fn is_edge(s: Seq<char>, offset: int) -> bool {
    bytes_before(s, chars_before(s, offset)) == offset
}

/// The characters that a byte range covers. An end inside a character makes
/// the range empty, at that character.
pub open spec fn char_range(s: Seq<char>, range: (usize, usize)) -> (int, int) {
    let start = chars_before(s, range.0 as int);
    (
        start,
        if range.0 <= range.1 && is_edge(s, range.0 as int) && is_edge(s, range.1 as int) {
            chars_before(s, range.1 as int)
        } else {
            start
        },
    )
}

proof fn lemma_chars_before(s: Seq<char>, offset: int, n: int)
    requires
        0 <= n <= s.len(),
        bytes_before(s, n) <= offset,
        n < s.len() ==> bytes_before(s, n + 1) > offset,
    ensures
        chars_before(s, offset) == n,
    decreases s.len(),
{
    lemma_bytes_grow(s, 0, n);
    if n < s.len() {
        lemma_bytes_grow(s, n + 1, s.len() as int);
        let t = s.drop_last();
        lemma_bytes_prefix(s, t, n);
        if n < t.len() {
            lemma_bytes_prefix(s, t, n + 1);
        }
        lemma_chars_before(t, offset, n);
    }
}

proof fn lemma_bytes_prefix(s: Seq<char>, t: Seq<char>, n: int)
    requires
        0 <= n <= s.len(),
        n <= t.len(),
        forall|i: int| 0 <= i < n ==> s[i] == t[i],
    ensures
        bytes_before(s, n) == bytes_before(t, n),
    decreases n,
{
    if n > 0 {
        lemma_bytes_prefix(s, t, n - 1);
    }
}

fn locate(all: &Vec<char>, offset: usize) -> (r: (usize, bool))
    ensures
        r.0 as int == chars_before(all@, offset as int),
        r.1 == is_edge(all@, offset as int),
        r.0 <= all@.len(),
{
    let mut n: usize = 0;
    let mut bytes: usize = 0;
    while n < all.len() && width_of(all[n]) <= offset - bytes
        invariant
            n <= all@.len(),
            bytes as int == bytes_before(all@, n as int),
            bytes <= offset,
        decreases all@.len() - n,
    {
        bytes += width_of(all[n]);
        n += 1;
    }
    proof {
        lemma_chars_before(all@, offset as int, n as int);
    }
    (n, bytes == offset)
}

/// Byte ranges to character ranges.
///
/// Columns of the pane are characters, so a byte range would land in the wrong
/// column the moment a line contains anything outside ASCII.
pub fn to_char_ranges(text: &str, ranges: &Vec<(usize, usize)>) -> (r: Vec<(usize, usize)>)
    ensures
        r@.len() == ranges@.len(),
        forall|i: int|
            0 <= i < r@.len() ==> {
                let want = char_range(text@, ranges@[i]);
                &&& (#[trigger] r@[i]).0 as int == want.0
                &&& r@[i].1 as int == want.1
            },
{
    let all = chars_of(text);
    let mut out: Vec<(usize, usize)> = Vec::new();
    let mut i: usize = 0;
    while i < ranges.len()
        invariant
            all@ == text@,
            i <= ranges@.len(),
            out@.len() == i,
            forall|k: int|
                0 <= k < i ==> {
                    let want = char_range(text@, ranges@[k]);
                    &&& (#[trigger] out@[k]).0 as int == want.0
                    &&& out@[k].1 as int == want.1
                },
        decreases ranges@.len() - i,
    {
        let (start, end) = ranges[i];
        let (first, first_edge) = locate(&all, start);
        let (last, last_edge) = locate(&all, end);
        let until: usize = if start <= end && first_edge && last_edge {
            last
        } else {
            first
        };
        out.push((first, until));
        i += 1;
    }
    out
}

/// The text after the last line break, the break at the very end aside.
pub open spec fn last_line(s: Seq<char>) -> Seq<char> {
    let body = if s.len() > 0 && s.last() == '\n' {
        s.drop_last()
    } else {
        s
    };
    after_break(body)
}

/// The text after the last line break.
pub open spec fn after_break(s: Seq<char>) -> Seq<char>
    decreases s.len(),
{
    if s.len() == 0 {
        s
    } else if s.last() == '\n' {
        Seq::empty()
    } else {
        after_break(s.drop_last()).push(s.last())
    }
}

/// What the prompt says of a pattern that does not compile: the last line of
/// the error, which is the useful one.
pub open spec fn prompt_text(error: Seq<char>) -> Seq<char> {
    if error.len() == 0 {
        trimmed("invalid pattern"@)
    } else {
        trimmed(last_line(error))
    }
}

/// What the prompt says of a pattern that does not compile.
#[verifier::rlimit(40)]
pub fn prompt_message(error: &str) -> (r: String)
    ensures
        r@ == prompt_text(error@),
{
    let all = chars_of(error);
    if all.len() == 0 {
        return trim("invalid pattern");
    }
    let to: usize = if all[all.len() - 1] == '\n' {
        all.len() - 1
    } else {
        all.len()
    };
    let mut from: usize = to;
    let ghost body = error@.take(to as int);
    proof {
        if to < all@.len() {
            assert(body =~= error@.drop_last());
        } else {
            assert(body =~= error@);
        }
        assert(body.take(to as int) =~= body);
        assert(after_break(body) =~= after_break(body.take(from as int)) + body.subrange(
            from as int,
            to as int,
        ));
    }
    while from > 0 && all[from - 1] != '\n'
        invariant
            from <= to <= all@.len(),
            all@ == error@,
            body == error@.take(to as int),
            after_break(body) == after_break(body.take(from as int)) + body.subrange(
                from as int,
                to as int,
            ),
        decreases from,
    {
        proof {
            let head = body.take(from as int);
            assert(head.drop_last() =~= body.take(from - 1));
            assert(head.last() == all@[from - 1]);
            assert(after_break(head) + body.subrange(from as int, to as int) =~= after_break(
                body.take(from - 1),
            ) + body.subrange(from - 1, to as int));
        }
        from -= 1;
    }
    let line = string_of(&all, from, to);
    proof {
        let head = body.take(from as int);
        if from > 0 {
            assert(head.last() == '\n');
        }
        assert(after_break(head) =~= Seq::<char>::empty());
        assert(line@ =~= body.subrange(from as int, to as int));
        assert(line@ =~= after_break(body));
    }
    trim(line.as_str())
}

/// The `/` search over the log pane.
pub struct LogSearch {
    query: String,
    editing: bool,
    mode: Mode,
    /// The compiled pattern, or what the prompt says of one that does not
    /// compile.
    compiled: Option<Result<regex::Regex, String>>,
}

/// The settings of a search: what was typed and how it is read.
pub struct SearchView {
    pub query: Seq<char>,
    pub editing: bool,
    pub mode: Mode,
    /// What the prompt says of the query, where it is a regex that did not
    /// compile.
    pub error: Option<Seq<char>>,
}

impl View for LogSearch {
    type V = SearchView;

    closed spec fn view(&self) -> SearchView {
        SearchView {
            query: self.query@,
            editing: self.editing,
            mode: self.mode,
            error: match self.compiled {
                Some(Err(message)) => Some(message@),
                _ => None,
            },
        }
    }
}

/// What the regex of a search finds in a message, as byte ranges.
pub open spec fn regex_found(search: SearchView, message: Seq<char>) -> Seq<(usize, usize)> {
    pattern_matches(search.query, !mentions_capital(search.query))[message]
}

/// Whether a search in this state lets a message through: everything while
/// nothing is searched for or the pattern is invalid, otherwise what contains
/// a match. A regex may match the empty text, but a message without text has
/// nothing to show for it.
pub open spec fn lets_through(search: SearchView, message: Seq<char>) -> bool {
    if search.query.len() == 0 || search.error is Some {
        true
    } else if search.mode == Mode::Regex {
        message.len() > 0 && regex_found(search, message).len() > 0
    } else {
        has_part(folded(message, search.query), folded(search.query, search.query))
    }
}

/// The non-empty ranges of a list, in order.
pub open spec fn non_empty(ranges: Seq<(usize, usize)>) -> Seq<(usize, usize)>
    decreases ranges.len(),
{
    if ranges.len() == 0 {
        Seq::empty()
    } else if ranges.last().0 == ranges.last().1 {
        non_empty(ranges.drop_last())
    } else {
        non_empty(ranges.drop_last()).push(ranges.last())
    }
}

/// What the writes into a hasher are for a search in this state.
pub open spec fn search_writes(search: SearchView) -> Seq<Seq<u8>> {
    seq![
        encode_utf8(search.query),
        seq![
            255u8,
            if search.mode == Mode::Regex {
                1u8
            } else {
                0u8
            },
            if search.error is Some {
                1u8
            } else {
                0u8
            },
        ],
    ]
}

impl SearchView {
    /// The search with another query.
    pub open spec fn typed(self, query: Seq<char>) -> SearchView {
        SearchView { query, ..self }
    }

    /// The search with its query read in another way.
    pub open spec fn read_as(self, mode: Mode) -> SearchView {
        SearchView { mode, ..self }
    }
}

/// The other way to read a query.
pub open spec fn other_mode(mode: Mode) -> Mode {
    match mode {
        Mode::Substring => Mode::Regex,
        Mode::Regex => Mode::Substring,
    }
}

/// What the prompt says of a query, given whether it compiles to more than the
/// limit: only a regex is compiled.
pub open spec fn told(query: Seq<char>, mode: Mode, too_big: bool) -> Option<Seq<char>> {
    if mode == Mode::Substring || query.len() == 0 {
        None
    } else {
        match pattern_error(query, !mentions_capital(query)) {
            Some(error) => Some(prompt_text(error)),
            None => if too_big {
                Some(prompt_text(TOO_BIG@))
            } else {
                None
            },
        }
    }
}

/// A search whose query was compiled again.
pub open spec fn retold(search: SearchView, too_big: bool) -> SearchView {
    SearchView { error: told(search.query, search.mode, too_big), ..search }
}

/// Character ranges as they are handed out.
pub open spec fn char_ranges(lit: Seq<(int, int)>) -> Seq<(usize, usize)> {
    Seq::new(lit.len(), |i: int| (lit[i].0 as usize, lit[i].1 as usize))
}

/// Character ranges as numbers.
pub open spec fn range_numbers(ranges: Seq<(usize, usize)>) -> Seq<(int, int)> {
    Seq::new(ranges.len(), |i: int| (ranges[i].0 as int, ranges[i].1 as int))
}

/// Whether these are the character ranges of a message that are lit up: none
/// while nothing is searched for or the pattern is invalid; the matches of a
/// regex, or all of a line in which it matches only the empty text; every
/// occurrence of a substring.
pub open spec fn lights(
    search: SearchView,
    message: Seq<char>,
    ranges: Seq<(usize, usize)>,
) -> bool {
    if search.query.len() == 0 || search.error is Some {
        ranges.len() == 0
    } else if search.mode == Mode::Regex {
        let found = regex_found(search, message);
        if message.len() == 0 || found.len() == 0 {
            ranges.len() == 0
        } else if non_empty(found).len() == 0 {
            ranges == char_ranges(seq![(0int, message.len() as int)])
        } else {
            in_chars(message, non_empty(found), ranges)
        }
    } else {
        exists|found: Seq<int>|
            {
                &&& is_all_places(
                    folded(message, search.query),
                    folded(search.query, search.query),
                    0,
                    found,
                )
                &&& ranges == char_ranges(#[trigger] lit_up(message, search.query, found))
            }
    }
}

/// What is kept of compiling a pattern: the expression, or what the prompt says
/// of the error.
pub fn settle_pattern(outcome: Result<regex::Regex, PatternFault>) -> (r: Result<
    regex::Regex,
    String,
>)
    ensures
        match (outcome, r) {
            (Ok(re), Ok(kept)) => kept == re,
            (Err(PatternFault::IllFormed(error)), Err(message)) => message@ == prompt_text(
                error@,
            ),
            (Err(PatternFault::TooBig(error)), Err(message)) => message@ == prompt_text(error@),
            _ => false,
        },
{
    match outcome {
        Ok(re) => Ok(re),
        Err(PatternFault::IllFormed(error)) => Err(prompt_message(error.as_str())),
        Err(PatternFault::TooBig(error)) => Err(prompt_message(error.as_str())),
    }
}

impl LogSearch {
    #[verifier::type_invariant]
    spec fn compiled_for_query(self) -> bool {
        &&& self.compiled is Some ==> self.mode == Mode::Regex && self.query@.len() > 0
        &&& self.mode == Mode::Regex && self.query@.len() > 0 ==> self.compiled is Some
        &&& (match self.compiled {
            Some(Ok(re)) => regex_matches(re) == pattern_matches(
                self.query@,
                !mentions_capital(self.query@),
            ),
            _ => true,
        })
    }

    /// No search.
    pub fn new() -> (r: LogSearch)
        ensures
            r@ == (SearchView {
                query: Seq::empty(),
                editing: false,
                mode: Mode::Substring,
                error: None,
            }),
    {
        LogSearch { query: String::new(), editing: false, mode: Mode::Substring, compiled: None }
    }

    /// Opens the prompt, keeping whatever was already being searched for.
    pub fn begin(&mut self)
        ensures
            final(self)@ == (SearchView { editing: true, ..old(self)@ }),
    {
        proof {
            use_type_invariant(&*self);
        }
        self.editing = true;
    }

    /// Leaves the prompt with the search still in force.
    pub fn confirm(&mut self)
        ensures
            final(self)@ == (SearchView { editing: false, ..old(self)@ }),
    {
        proof {
            use_type_invariant(&*self);
        }
        self.editing = false;
    }

    /// Leaves the prompt and stops searching.
    pub fn cancel(&mut self)
        ensures
            final(self)@ == (SearchView {
                query: Seq::empty(),
                editing: false,
                mode: old(self)@.mode,
                error: None,
            }),
    {
        let mode = self.mode;
        *self = LogSearch { query: String::new(), editing: false, mode, compiled: None };
    }

    /// Whether the prompt has the keyboard.
    pub fn editing(&self) -> (r: bool)
        ensures
            r == self@.editing,
    {
        self.editing
    }

    /// What was typed.
    pub fn query(&self) -> (r: &str)
        ensures
            r@ == self@.query,
    {
        self.query.as_str()
    }

    /// How the query is read.
    pub fn mode(&self) -> (r: Mode)
        ensures
            r == self@.mode,
    {
        self.mode
    }

    /// Whether a search is in force, being typed or already confirmed.
    pub fn is_active(&self) -> (r: bool)
        ensures
            r == (self@.query.len() > 0),
    {
        !self.query.as_str().is_empty()
    }

    /// Why the current pattern matches nothing, if it cannot.
    pub fn error(&self) -> (r: Option<&str>)
        ensures
            match (r, self@.error) {
                (Some(message), Some(error)) => message@ == error,
                (None, None) => true,
                _ => false,
            },
    {
        match &self.compiled {
            Some(Err(message)) => Some(message.as_str()),
            _ => None,
        }
    }

    fn compiled_query(query: &String, mode: Mode) -> (r: Option<Result<regex::Regex, String>>)
        ensures
            r is Some <==> mode == Mode::Regex && query@.len() > 0,
            r matches Some(Ok(re)) ==> regex_matches(re) == pattern_matches(
                query@,
                !mentions_capital(query@),
            ),
            r matches Some(Ok(re)) ==> pattern_error(query@, !mentions_capital(query@)) is None,
            exists|too_big: bool|
                #[trigger] told(query@, mode, too_big) == (match r {
                    Some(Err(message)) => Some(message@),
                    _ => None,
                }),
    {
        if mode == Mode::Substring || query.as_str().is_empty() {
            assert(told(query@, mode, false) is None);
            return None;
        }
        let ignore_case = !has_uppercase(query.as_str());
        let outcome = compile(query.as_str(), ignore_case);
        let ghost too_big = match &outcome {
            Err(PatternFault::TooBig(_)) => true,
            _ => false,
        };
        let r = settle_pattern(outcome);
        assert(told(query@, mode, too_big) == (match r {
            Err(message) => Some(message@),
            _ => None,
        }));
        Some(r)
    }

    /// One more character of the query.
    pub fn push(&mut self, c: char)
        ensures
            exists|too_big: bool|
                final(self)@ == #[trigger] retold(old(self)@.typed(old(self)@.query.push(c)), too_big),
    {
        let mut query = self.query.clone();
        query.push(c);
        let mode = self.mode;
        let compiled = LogSearch::compiled_query(&query, mode);
        let ghost too_big = choose|too_big: bool|
            #[trigger] told(query@, mode, too_big) == (match compiled {
                Some(Err(message)) => Some(message@),
                _ => None,
            });
        let ghost typed = self@.typed(query@);
        *self = LogSearch { query, editing: self.editing, mode, compiled };
        assert(self@ == retold(typed, too_big));
    }

    /// Takes the last character off the query. Says whether there was one, so
    /// that the key can mean something else on an empty query.
    pub fn backspace(&mut self) -> (r: bool)
        ensures
            r == (old(self)@.query.len() > 0),
            !r ==> final(self)@ == old(self)@,
            r ==> exists|too_big: bool|
                final(self)@ == #[trigger] retold(
                    old(self)@.typed(old(self)@.query.drop_last()),
                    too_big,
                ),
    {
        proof {
            use_type_invariant(&*self);
        }
        let mut query = self.query.clone();
        match query.pop() {
            Some(_) => {
                let mode = self.mode;
                let compiled = LogSearch::compiled_query(&query, mode);
                let ghost too_big = choose|too_big: bool|
                    #[trigger] told(query@, mode, too_big) == (match compiled {
                        Some(Err(message)) => Some(message@),
                        _ => None,
                    });
                let ghost typed = self@.typed(query@);
                *self = LogSearch { query, editing: self.editing, mode, compiled };
                assert(self@ == retold(typed, too_big));
                true
            },
            None => false,
        }
    }

    /// Swaps between substring and regex, keeping the query.
    pub fn toggle_mode(&mut self)
        ensures
            exists|too_big: bool|
                final(self)@ == #[trigger] retold(
                    old(self)@.read_as(other_mode(old(self)@.mode)),
                    too_big,
                ),
    {
        let mode = match self.mode {
            Mode::Substring => Mode::Regex,
            Mode::Regex => Mode::Substring,
        };
        let query = self.query.clone();
        let compiled = LogSearch::compiled_query(&query, mode);
        let ghost too_big = choose|too_big: bool|
            #[trigger] told(query@, mode, too_big) == (match compiled {
                Some(Err(message)) => Some(message@),
                _ => None,
            });
        let ghost swapped = self@.read_as(mode);
        *self = LogSearch { query, editing: self.editing, mode, compiled };
        assert(self@ == retold(swapped, too_big));
    }

    /// Whether `message` should be shown.
    pub fn admits(&self, message: &str) -> (r: bool)
        ensures
            r == lets_through(self@, message@),
    {
        proof {
            use_type_invariant(self);
        }
        if !self.is_active() {
            return true;
        }
        match &self.compiled {
            Some(Ok(re)) => !message.is_empty() && regex_finds(re, message),
            Some(Err(_)) => true,
            None => contains_smart_case(message, self.query.as_str()),
        }
    }

    /// Byte ranges of `message` that matched.
    fn byte_ranges(&self, message: &str) -> (r: Vec<(usize, usize)>)
        ensures
            self@.query.len() == 0 || self@.error is Some || message@.len() == 0 ==> r@.len()
                == 0,
            self@.query.len() > 0 && self@.error is None && self@.mode == Mode::Regex
                && message@.len() > 0 ==> {
                let found = regex_found(self@, message@);
                &&& in_order(message@, r@)
                &&& r@ == (if found.len() > 0 && non_empty(found).len() == 0 {
                    byte_ranges(message@, seq![(0int, message@.len() as int)])
                } else {
                    non_empty(found)
                })
            },
            self@.query.len() > 0 && self@.mode == Mode::Substring ==> substring_found(
                message@,
                self@.query,
                r@,
            ),
    {
        proof {
            use_type_invariant(self);
        }
        if !self.is_active() {
            return Vec::new();
        }
        match &self.compiled {
            Some(Ok(re)) => {
                if message.is_empty() {
                    return Vec::new();
                }
                let all = regex_ranges(re, message);
                let mut out: Vec<(usize, usize)> = Vec::new();
                let mut i: usize = 0;
                assert(all@.take(0) =~= Seq::<(usize, usize)>::empty());
                while i < all.len()
                    invariant
                        i <= all@.len(),
                        in_order(message@, all@),
                        out@ == non_empty(all@.take(i as int)),
                        in_order(message@, out@),
                        i < all@.len() ==> (forall|k: int|
                            0 <= k < out@.len() ==> (#[trigger] out@[k]).1 <= all@[i as int].0),
                    decreases all@.len() - i,
                {
                    let ghost before = out@;
                    proof {
                        assert(all@.take(i + 1).drop_last() =~= all@.take(i as int));
                        assert(all@.take(i + 1).last() == all@[i as int]);
                    }
                    if all[i].0 != all[i].1 {
                        out.push(all[i]);
                    }
                    proof {
                        if i + 1 < all@.len() {
                            assert(all@[i as int].1 <= all@[i + 1].0);
                        }
                        assert forall|a: int, b: int| 0 <= a < b < out@.len() implies (
                        #[trigger] out@[a]).1 <= (#[trigger] out@[b]).0 by {
                            if b < before.len() {
                                assert(before[a].1 <= before[b].0);
                            }
                        }
                    }
                    i += 1;
                }
                assert(all@.take(all@.len() as int) =~= all@);
                if out.len() == 0 && all.len() > 0 {
                    let total: usize = byte_length(message);
                    let whole = (0usize, total);
                    out.push(whole);
                    proof {
                        let n = message@.len() as int;
                        assert(bytes_before(message@, 0) == 0);
                        lemma_bytes_grow(message@, 0, n);
                        lemma_edge(message@, 0);
                        lemma_edge(message@, n);
                        assert(out@ =~= byte_ranges(message@, seq![(0int, n)]));
                    }
                }
                out
            },
            Some(Err(_)) => Vec::new(),
            None => {
                let out = substring_ranges(message, self.query.as_str());
                proof {
                    if message@.len() == 0 && out@.len() > 0 {
                        let lit = range_numbers(out@);
                        let found = choose|found: Seq<int>|
                            {
                                &&& is_all_places(
                                    folded(message@, self.query@),
                                    folded(self.query@, self.query@),
                                    0,
                                    found,
                                )
                                &&& apart(lit_up(message@, self.query@, found), 0)
                                &&& out@ == byte_ranges(
                                    message@,
                                    #[trigger] lit_up(message@, self.query@, found),
                                )
                            };
                        assert(lit_up(message@, self.query@, found)[0].0 < 0);
                    }
                }
                out
            },
        }
    }

    /// Character ranges of `message` that matched, for highlighting. They follow
    /// one another, and while something is searched for there are some exactly
    /// when the message is shown.
    pub fn match_ranges(&self, message: &str) -> (r: Vec<(usize, usize)>)
        ensures
            lights(self@, message@, r@),
            apart(range_numbers(r@), message@.len() as int),
            self@.query.len() > 0 && self@.error is None ==> (r@.len() > 0 <==> lets_through(
                self@,
                message@,
            )),
    {
        let bytes = self.byte_ranges(message);
        let _total: usize = byte_length(message);
        let r = to_char_ranges(message, &bytes);
        proof {
            let n = message@.len() as int;
            lemma_bytes_grow(message@, 0, n);
            if self@.query.len() == 0 || self@.error is Some {
            } else if self@.mode == Mode::Regex {
                let found = regex_found(self@, message@);
                if message@.len() > 0 {
                    lemma_no_more_than_all(found);
                    lemma_none_empty(found);
                    if found.len() > 0 && non_empty(found).len() == 0 {
                        assert(bytes_before(message@, 0) == 0);
                        lemma_edge(message@, 0);
                        lemma_edge(message@, n);
                        assert(bytes@[0] == (0usize, _total));
                        assert(r@ =~= char_ranges(seq![(0int, n)]));
                    } else {
                        lemma_ranges_apart(message@, bytes@, r@);
                    }
                }
            } else {
                let query = self@.query;
                let found = choose|found: Seq<int>|
                    {
                        &&& is_all_places(folded(message@, query), folded(query, query), 0, found)
                        &&& apart(lit_up(message@, query, found), n)
                        &&& bytes@ == byte_ranges(
                            message@,
                            #[trigger] lit_up(message@, query, found),
                        )
                    };
                let lit = lit_up(message@, query, found);
                assert forall|i: int| 0 <= i < r@.len() implies (#[trigger] r@[i]).0 as int
                    == lit[i].0 && r@[i].1 as int == lit[i].1 by {
                    lemma_edge(message@, lit[i].0);
                    lemma_edge(message@, lit[i].1);
                    lemma_bytes_grow(message@, lit[i].0, lit[i].1);
                    lemma_bytes_grow(message@, lit[i].1, n);
                    assert(bytes@[i] == (
                        bytes_before(message@, lit[i].0) as usize,
                        bytes_before(message@, lit[i].1) as usize,
                    ));
                }
                assert(r@ =~= char_ranges(lit));
                assert(range_numbers(r@) =~= lit);
                assert(lights(self@, message@, r@));
            }
            if self@.query.len() > 0 && self@.error is None {
                a_line_is_admitted_exactly_when_something_in_it_is_lit(self@, message@, r@);
            }
        }
        r
    }

    /// Feeds everything that admission depends on into a hasher.
    pub fn fingerprint(&self, hasher: &mut DefaultHasher)
        ensures
            final(hasher)@ == old(hasher)@ + search_writes(self@),
    {
        hasher.write(self.query.as_str().as_bytes());
        let mut rest: Vec<u8> = Vec::new();
        rest.push(255);
        rest.push(
            if self.mode == Mode::Regex {
                1
            } else {
                0
            },
        );
        rest.push(
            if self.error().is_some() {
                1
            } else {
                0
            },
        );
        hasher.write(rest.as_slice());
        proof {
            let last = search_writes(self@)[1];
            assert(rest@ =~= last);
            assert(hasher@ =~= old(hasher)@ + search_writes(self@));
        }
    }
}

impl Default for LogSearch {
    fn default() -> (r: LogSearch)
        ensures
            r@ == (SearchView {
                query: Seq::empty(),
                editing: false,
                mode: Mode::Substring,
                error: None,
            }),
    {
        LogSearch::new()
    }
}

/// Character ranges are those of byte ranges.
pub open spec fn in_chars(
    message: Seq<char>,
    bytes: Seq<(usize, usize)>,
    chars: Seq<(usize, usize)>,
) -> bool {
    &&& chars.len() == bytes.len()
    &&& forall|i: int|
        0 <= i < chars.len() ==> {
            let want = char_range(message, bytes[i]);
            &&& (#[trigger] chars[i]).0 as int == want.0
            &&& chars[i].1 as int == want.1
        }
}

/// The byte offset of a character is an edge, at that character.
proof fn lemma_edge(s: Seq<char>, n: int)
    requires
        0 <= n <= s.len(),
    ensures
        chars_before(s, bytes_before(s, n)) == n,
        is_edge(s, bytes_before(s, n)),
{
    lemma_chars_before(s, bytes_before(s, n), n);
}

proof fn lemma_chars_within(s: Seq<char>, offset: int)
    ensures
        0 <= chars_before(s, offset) <= s.len(),
    decreases s.len(),
{
    if s.len() > 0 && bytes_before(s, s.len() as int) > offset {
        lemma_chars_within(s.drop_last(), offset);
    }
}

/// A larger edge has more characters before it.
proof fn lemma_edges_grow(s: Seq<char>, a: int, b: int)
    requires
        is_edge(s, a),
        is_edge(s, b),
    ensures
        a < b ==> chars_before(s, a) < chars_before(s, b),
        a <= b ==> chars_before(s, a) <= chars_before(s, b),
{
    lemma_chars_within(s, a);
    lemma_chars_within(s, b);
    let m = chars_before(s, a);
    let n = chars_before(s, b);
    if n <= m {
        lemma_bytes_grow(s, n, m);
    }
}

proof fn lemma_none_empty(ranges: Seq<(usize, usize)>)
    ensures
        forall|i: int|
            0 <= i < non_empty(ranges).len() ==> (#[trigger] non_empty(ranges)[i]).0 != non_empty(
                ranges,
            )[i].1,
    decreases ranges.len(),
{
    if ranges.len() > 0 {
        lemma_none_empty(ranges.drop_last());
        let before = non_empty(ranges.drop_last());
        let all = non_empty(ranges);
        assert forall|i: int| 0 <= i < all.len() implies (#[trigger] all[i]).0 != all[i].1 by {
            if i < before.len() {
                assert(before[i].0 != before[i].1);
                assert(all[i] == before[i]);
            }
        }
    }
}

proof fn lemma_ranges_apart(
    s: Seq<char>,
    bytes: Seq<(usize, usize)>,
    chars: Seq<(usize, usize)>,
)
    requires
        in_order(s, bytes),
        in_chars(s, bytes, chars),
        forall|i: int| 0 <= i < bytes.len() ==> (#[trigger] bytes[i]).0 != bytes[i].1,
    ensures
        apart(range_numbers(chars), s.len() as int),
{
    let lit = range_numbers(chars);
    assert forall|i: int| 0 <= i < lit.len() implies 0 <= (#[trigger] lit[i]).0 < lit[i].1
        <= s.len() by {
        assert(chars[i].0 as int == char_range(s, bytes[i]).0);
        lemma_edges_grow(s, bytes[i].0 as int, bytes[i].1 as int);
        lemma_chars_within(s, bytes[i].1 as int);
    }
    assert forall|i: int, j: int| 0 <= i < j < lit.len() implies (#[trigger] lit[i]).1 <= (
    #[trigger] lit[j]).0 by {
        assert(chars[i].0 as int == char_range(s, bytes[i]).0);
        assert(chars[j].0 as int == char_range(s, bytes[j]).0);
        assert(bytes[i].1 <= bytes[j].0);
        lemma_edges_grow(s, bytes[i].1 as int, bytes[j].0 as int);
    }
}

proof fn lemma_no_more_than_all(ranges: Seq<(usize, usize)>)
    ensures
        non_empty(ranges).len() <= ranges.len(),
    decreases ranges.len(),
{
    if ranges.len() > 0 {
        lemma_no_more_than_all(ranges.drop_last());
    }
}

/// While something is searched for, a line is shown exactly when something in
/// it is lit up.
pub proof fn a_line_is_admitted_exactly_when_something_in_it_is_lit(
    search: SearchView,
    message: Seq<char>,
    ranges: Seq<(usize, usize)>,
)
    requires
        search.query.len() > 0,
        search.error is None,
        lights(search, message, ranges),
    ensures
        lets_through(search, message) <==> ranges.len() > 0,
{
    if search.mode == Mode::Regex {
        lemma_no_more_than_all(regex_found(search, message));
        return;
    }
    let hay = folded(message, search.query);
    let pin = folded(search.query, search.query);
    let found = choose|found: Seq<int>|
        {
            &&& is_all_places(hay, pin, 0, found)
            &&& ranges == char_ranges(#[trigger] lit_up(message, search.query, found))
        };
    if found.len() > 0 {
        assert(stands_at(hay, pin, found[0]));
        lemma_listed_not_empty(hay, pin, 0, found);
        lemma_something_lit(message, search.query, found);
    } else {
        assert forall|at: int| !stands_at(hay, pin, at) by {
            if 0 <= at {
                assert(!stands_at(hay, pin, at));
            }
        }
    }
}

/// Only the places of a text that is not empty can be listed: the empty one
/// stands everywhere.
proof fn lemma_listed_not_empty(s: Seq<char>, part: Seq<char>, from: int, found: Seq<int>)
    requires
        0 <= from <= s.len(),
        is_all_places(s, part, from, found),
    ensures
        part.len() > 0,
    decreases found.len(),
{
    if part.len() == 0 {
        assert(s.subrange(from, from) =~= part);
        assert(stands_at(s, part, from));
        if found.len() > 0 {
            lemma_listed_not_empty(s, part, found[0] + part.len(), found.drop_first());
        }
    }
}

proof fn lemma_ascii_origin(s: Seq<char>, at: int)
    requires
        is_ascii(s),
        0 <= at < s.len(),
    ensures
        origin_of(s, at) == at,
    decreases s.len(),
{
    assert(s[0] as int <= 0x7f);
    if at > 0 {
        let rest = s.drop_first();
        assert forall|i: int| 0 <= i < rest.len() implies (#[trigger] rest[i]) as int <= 0x7f by {
            assert(s[i + 1] as int <= 0x7f);
        }
        lemma_ascii_origin(rest, at - 1);
    }
}

proof fn lemma_ascii_bytes(s: Seq<char>, n: int)
    requires
        is_ascii(s),
        0 <= n <= s.len(),
    ensures
        bytes_before(s, n) == n,
    decreases n,
{
    if n > 0 {
        lemma_ascii_bytes(s, n - 1);
        assert(s[n - 1] as int <= 0x7f);
    }
}

/// The ranges of texts that start at some places and are all of one length.
pub open spec fn ranges_at(found: Seq<int>, length: int) -> Seq<(int, int)> {
    Seq::new(found.len(), |i: int| (found[i], found[i] + length))
}

proof fn lemma_ascii_lit(
    s: Seq<char>,
    query: Seq<char>,
    places: Seq<int>,
    from: int,
    rest: Seq<int>,
)
    requires
        is_ascii(s),
        is_ascii(query),
        query.len() > 0,
        lit_up(s, query, places) == ranges_at(places, query.len() as int),
        0 <= from,
        places.len() > 0 ==> places.last() + query.len() <= from,
        is_all_places(folded(s, query), folded(query, query), from, rest),
    ensures
        lit_up(s, query, places + rest) == ranges_at(places + rest, query.len() as int),
    decreases rest.len(),
{
    if rest.len() == 0 {
        assert(places + rest =~= places);
    } else {
        let hay = folded(s, query);
        let at = rest[0];
        let m = query.len() as int;
        assert(stands_at(hay, folded(query, query), at));
        let next = places.push(at);
        assert(next.drop_last() =~= places);
        lemma_ascii_origin(s, at);
        lemma_ascii_origin(s, at + m - 1);
        assert(lit_up(s, query, next) =~= ranges_at(next, m));
        lemma_ascii_lit(s, query, next, at + m, rest.drop_first());
        assert(next + rest.drop_first() =~= places + rest);
    }
}

/// An ASCII text as a query reads it: as it is where the query has a capital,
/// otherwise without regard to case.
pub open spec fn by_ascii_case(s: Seq<char>, query: Seq<char>) -> Seq<char> {
    if exists|i: int| 0 <= i < query.len() && 'A' <= #[trigger] query[i] <= 'Z' {
        s
    } else {
        ascii_lowered(s)
    }
}

/// In ASCII, the ranges are exactly the leftmost occurrences that do not
/// overlap, read without regard to case unless the query has a capital; there
/// are none exactly where the text does not contain the query.
pub proof fn ascii_ranges_are_the_occurrences(
    haystack: Seq<char>,
    needle: Seq<char>,
    bytes: Seq<(usize, usize)>,
)
    requires
        is_ascii(haystack),
        is_ascii(needle),
        needle.len() > 0,
        substring_found(haystack, needle, bytes),
    ensures
        exists|found: Seq<int>|
            #[trigger] is_all_places(
                by_ascii_case(haystack, needle),
                by_ascii_case(needle, needle),
                0,
                found,
            ) && bytes == char_ranges(ranges_at(found, needle.len() as int)),
        bytes.len() > 0 <==> has_part(folded(haystack, needle), folded(needle, needle)),
{
    let by_case = exists|i: int| 0 <= i < needle.len() && 'A' <= #[trigger] needle[i] <= 'Z';
    assert(by_ascii_case(haystack, needle) == folded(haystack, needle) && by_ascii_case(
        needle,
        needle,
    ) == folded(needle, needle)) by {
        if by_case {
            let i = choose|i: int| 0 <= i < needle.len() && 'A' <= #[trigger] needle[i] <= 'Z';
            assert(is_capital(needle[i]));
        }
        if mentions_capital(needle) {
            let i = choose|i: int| 0 <= i < needle.len() && is_capital(#[trigger] needle[i]);
            assert(needle[i] as int <= 0x7f);
        }
    }
    let hay = folded(haystack, needle);
    let pin = folded(needle, needle);
    let found = choose|found: Seq<int>|
        {
            &&& is_all_places(hay, pin, 0, found)
            &&& apart(lit_up(haystack, needle, found), haystack.len() as int)
            &&& bytes == byte_ranges(haystack, #[trigger] lit_up(haystack, needle, found))
        };
    let lit = lit_up(haystack, needle, found);
    let none = Seq::<int>::empty();
    assert(lit_up(haystack, needle, none) =~= ranges_at(none, needle.len() as int));
    lemma_ascii_lit(haystack, needle, none, 0, found);
    assert(none + found =~= found);
    assert forall|i: int| 0 <= i < bytes.len() implies #[trigger] bytes[i] == char_ranges(lit)[i] by {
        assert(lit[i].1 <= haystack.len());
        lemma_ascii_bytes(haystack, lit[i].0);
        lemma_ascii_bytes(haystack, lit[i].1);
    }
    assert(bytes =~= char_ranges(lit));
    assert(is_all_places(hay, pin, 0, found));
    if found.len() > 0 {
        assert(stands_at(hay, pin, found[0]));
    } else {
        assert forall|at: int| !stands_at(hay, pin, at) by {
            if 0 <= at {
                assert(!stands_at(hay, pin, at));
            }
        }
    }
}

/// A query that is not a regular expression is always refused as one, with what
/// is wrong with it; one that is, only for its size.
pub proof fn an_ill_formed_pattern_is_always_refused(search: SearchView, too_big: bool)
    requires
        search.mode == Mode::Regex,
        search.query.len() > 0,
    ensures
        match pattern_error(search.query, !mentions_capital(search.query)) {
            Some(error) => retold(search, too_big).error == Some(prompt_text(error)),
            None => retold(search, too_big).error is Some <==> too_big,
        },
{
}

/// An invalid pattern shows everything and lights nothing up, and so does no
/// search at all.
pub proof fn an_invalid_pattern_shows_everything(search: SearchView, message: Seq<char>)
    requires
        search.query.len() == 0 || search.error is Some,
    ensures
        lets_through(search, message),
        forall|ranges: Seq<(usize, usize)>| #[trigger]
            lights(search, message, ranges) ==> ranges.len() == 0,
{
}

/// What a search feeds into the fingerprint moves with everything admission
/// depends on: equal writes come from searches that admit the same lines.
pub proof fn the_fingerprint_moves_with_admission(a: SearchView, b: SearchView)
    requires
        search_writes(a) == search_writes(b),
    ensures
        a.query == b.query,
        a.mode == b.mode,
        a.error is Some <==> b.error is Some,
        forall|message: Seq<char>| lets_through(a, message) == lets_through(b, message),
{
    assert(search_writes(a)[0] == search_writes(b)[0]);
    assert(search_writes(a)[1] == search_writes(b)[1]);
    assert(search_writes(a)[1][1] == search_writes(b)[1][1]);
    assert(search_writes(a)[1][2] == search_writes(b)[1][2]);
    encode_utf8_decode_utf8(a.query);
    encode_utf8_decode_utf8(b.query);
}

/// Case counts only where the query holds a capital: then a line is let through
/// when it holds the query letter for letter, and otherwise when it holds it
/// whatever the case of its own letters.
pub proof fn case_counts_only_with_a_capital(search: SearchView, message: Seq<char>)
    requires
        search.mode == Mode::Substring,
        search.error is None,
        search.query.len() > 0,
        is_ascii(search.query),
        is_ascii(message),
    ensures
        (exists|i: int| 0 <= i < search.query.len() && 'A' <= #[trigger] search.query[i] <= 'Z')
            ==> (lets_through(search, message) <==> exists|at: int|
            0 <= at && at + search.query.len() <= message.len() && #[trigger] message.subrange(
                at,
                at + search.query.len(),
            ) == search.query),
        (forall|i: int|
            0 <= i < search.query.len() ==> !('A' <= #[trigger] search.query[i] <= 'Z')) ==> (
        lets_through(search, message) <==> exists|at: int|
            0 <= at && at + search.query.len() <= message.len() && #[trigger] ascii_lowered(
                message,
            ).subrange(at, at + search.query.len()) == search.query),
{
    let query = search.query;
    assert forall|i: int| 0 <= i < query.len() implies is_capital(#[trigger] query[i]) == ('A'
        <= query[i] <= 'Z') by {}
    let haystack = folded(message, query);
    let needle = folded(query, query);
    if mentions_capital(query) {
        if has_part(haystack, needle) {
            let at = choose|at: int| stands_at(haystack, needle, at);
            assert(message.subrange(at, at + query.len()) == query);
        }
        if exists|at: int|
            0 <= at && at + query.len() <= message.len() && #[trigger] message.subrange(
                at,
                at + query.len(),
            ) == query {
            let at = choose|at: int|
                0 <= at && at + query.len() <= message.len() && #[trigger] message.subrange(
                    at,
                    at + query.len(),
                ) == query;
            assert(stands_at(haystack, needle, at));
        }
    } else {
        assert forall|i: int| 0 <= i < query.len() implies !('A' <= #[trigger] query[i] <= 'Z') by {
            assert(!is_capital(query[i]));
        }
        assert(ascii_lowered(query) =~= query);
        let low = ascii_lowered(message);
        if has_part(haystack, needle) {
            let at = choose|at: int| stands_at(haystack, needle, at);
            assert(low.subrange(at, at + query.len()) == query);
        }
        if exists|at: int|
            0 <= at && at + query.len() <= message.len() && #[trigger] low.subrange(
                at,
                at + query.len(),
            ) == query {
            let at = choose|at: int|
                0 <= at && at + query.len() <= message.len() && #[trigger] low.subrange(
                    at,
                    at + query.len(),
                ) == query;
            assert(stands_at(haystack, needle, at));
        }
    }
}

/// Lowering a letter changes capitals only, and each to its own small letter.
pub proof fn lowering_changes_capitals_only(ch: char)
    ensures
        'A' <= ch <= 'Z' ==> ascii_lower(ch) as int == ch as int - 'A' as int + 'a' as int,
        !('A' <= ch <= 'Z') ==> ascii_lower(ch) == ch,
        ascii_lower(ascii_lower(ch)) == ascii_lower(ch),
{
}

/// A query is read as text or as a pattern, and changing the reading twice
/// changes nothing.
pub proof fn a_query_is_read_one_way_or_the_other(mode: Mode)
    ensures
        other_mode(mode) != mode,
        other_mode(other_mode(mode)) == mode,
        other_mode(Mode::Substring) == Mode::Regex,
{
}

/// A query that is read as text is never at fault.
pub proof fn plain_text_is_never_at_fault(search: SearchView, too_big: bool)
    requires
        search.mode == Mode::Substring || search.query.len() == 0,
    ensures
        retold(search, too_big).error is None,
        retold(search, too_big).query == search.query,
        retold(search, too_big).mode == search.mode,
{
}

/// What is said of a bad pattern is the last line of the complaint.
pub proof fn the_last_line_of_a_complaint_is_told(before: Seq<char>, line: Seq<char>)
    requires
        line.len() > 0,
        !line.contains('\n'),
    ensures
        last_line(before + seq!['\n'] + line) == line,
        last_line(before + seq!['\n'] + line + seq!['\n']) == line,
        prompt_text(before + seq!['\n'] + line) == trimmed(line),
{
    let text = before + seq!['\n'] + line;
    lemma_after_break(before, line);
    assert(text.last() == line.last());
    assert(line[line.len() - 1] == line.last());
    assert((text + seq!['\n']).drop_last() =~= text);
}

proof fn lemma_after_break(before: Seq<char>, line: Seq<char>)
    requires
        !line.contains('\n'),
    ensures
        after_break(before + seq!['\n'] + line) == line,
    decreases line.len(),
{
    let text = before + seq!['\n'] + line;
    if line.len() == 0 {
        assert(text.last() == '\n');
        assert(line =~= Seq::<char>::empty());
    } else {
        assert(line[line.len() - 1] == line.last());
        assert(text.last() == line.last());
        assert(text.drop_last() =~= before + seq!['\n'] + line.drop_last());
        assert forall|i: int| 0 <= i < line.drop_last().len() implies line.drop_last()[i]
            != '\n' by {
            assert(line[i] == line.drop_last()[i]);
        }
        lemma_after_break(before, line.drop_last());
        assert(line.drop_last().push(line.last()) =~= line);
    }
}

} // verus!
