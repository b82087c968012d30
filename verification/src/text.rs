//! Strings as sequences of characters.
//!
//! The view of a string is its sequence of `char`s. What std documents of the
//! few string and character functions used by the crate is stated here; the
//! rest (decimal numbers, ordering, trimming, joining) is written out and
//! proved.
use vstd::prelude::*;

verus! {

/// `String::push`: appends one character to the end.
pub assume_specification[ String::push ](s: &mut String, ch: char)
    ensures
        final(s)@ == old(s)@.push(ch),
;

/// `String::pop`: takes the last character off, or returns `None` and leaves
/// an empty string alone.
pub assume_specification[ String::pop ](s: &mut String) -> (r: Option<char>)
    ensures
        old(s)@.len() == 0 ==> r is None && final(s)@ == old(s)@,
        old(s)@.len() > 0 ==> r == Some(old(s)@.last()) && final(s)@ == old(s)@.drop_last(),
;

/// Whether `char::is_whitespace` reports white space for a character outside
/// ASCII.
pub uninterp spec fn wide_space(ch: char) -> bool;

/// `char::is_whitespace`: in ASCII the space, the tab, the two line breaks, the
/// vertical tab and the form feed; elsewhere the answer depends on the
/// character alone.
pub assume_specification[ char::is_whitespace ](ch: char) -> (r: bool)
    ensures
        (ch as int) < 0x80 ==> r == (ch == ' ' || 9 <= ch as int <= 13),
        ch as int >= 0x80 ==> r == wide_space(ch),
;

/// Whether a character is white space.
pub open spec fn is_white(ch: char) -> bool {
    if (ch as int) < 0x80 {
        ch == ' ' || 9 <= ch as int <= 13
    } else {
        wide_space(ch)
    }
}

/// The characters of a string, one by one.
pub fn chars_of(s: &str) -> (r: Vec<char>)
    ensures
        r@ == s@,
{
    let mut out: Vec<char> = Vec::new();
    for ch in it: s.chars()
        invariant
            it.seq() == s@,
            out@ == s@.take(it.index() as int),
    {
        out.push(ch);
    }
    out
}

/// The string that holds `chars[from..to]`.
pub fn string_of(chars: &Vec<char>, from: usize, to: usize) -> (r: String)
    requires
        from <= to <= chars@.len(),
    ensures
        r@ == chars@.subrange(from as int, to as int),
{
    let mut out = String::new();
    let mut i: usize = from;
    while i < to
        invariant
            from <= i <= to <= chars@.len(),
            out@ == chars@.subrange(from as int, i as int),
        decreases to - i,
    {
        out.push(chars[i]);
        i += 1;
    }
    out
}

/// Equality of two string slices, character by character.
pub fn same(a: &str, b: &str) -> (r: bool)
    ensures
        r == (a@ == b@),
{
    let x = a.to_owned();
    let y = b.to_owned();
    x == y
}


/// The character of a decimal digit.
pub open spec fn digit_char(d: nat) -> char {
    (48 + d) as char
}

/// A natural number in decimal, without leading zeros.
pub open spec fn decimal(n: nat) -> Seq<char>
    decreases n,
{
    if n < 10 {
        seq![digit_char(n)]
    } else {
        decimal(n / 10).push(digit_char(n % 10))
    }
}

/// An integer in decimal, with a minus sign when it is below zero.
pub open spec fn signed_decimal(n: int) -> Seq<char> {
    if n < 0 {
        seq!['-'] + decimal((-n) as nat)
    } else {
        decimal(n as nat)
    }
}

/// Appends a number in decimal.
pub fn push_decimal(out: &mut String, n: u64)
    ensures
        final(out)@ == old(out)@ + decimal(n as nat),
    decreases n,
{
    if n >= 10 {
        push_decimal(out, n / 10);
    }
    let digit: u8 = (n % 10) as u8;
    out.push((48 + digit) as char);
    assert(out@ =~= old(out)@ + decimal(n as nat));
}

/// A number in decimal.
pub fn decimal_string(n: u64) -> (r: String)
    ensures
        r@ == decimal(n as nat),
{
    let mut out = String::new();
    push_decimal(&mut out, n);
    assert(out@ =~= decimal(n as nat));
    out
}

/// A signed number in decimal.
pub fn signed_decimal_string(n: i64) -> (r: String)
    ensures
        r@ == signed_decimal(n as int),
{
    let mut out = String::new();
    if n < 0 {
        out.push('-');
        let magnitude: u64 = if n == i64::MIN {
            9_223_372_036_854_775_808
        } else {
            (-n) as u64
        };
        push_decimal(&mut out, magnitude);
        assert(out@ =~= seq!['-'] + decimal((-n) as nat));
    } else {
        push_decimal(&mut out, n as u64);
        assert(out@ =~= decimal(n as nat));
    }
    out
}

/// The code point of a character.
pub fn code_point(ch: char) -> (r: u32)
    ensures
        r as int == ch as int,
{
    ch as u32
}

/// Whether a character is an ASCII digit.
pub open spec fn is_digit(ch: char) -> bool {
    48 <= ch as int <= 57
}

/// The number that a run of digits writes in base ten.
pub open spec fn digits_value(s: Seq<char>) -> int
    decreases s.len(),
{
    if s.len() == 0 {
        0
    } else {
        digits_value(s.drop_last()) * 10 + (s.last() as int - 48)
    }
}

/// The text after an optional sign.
pub open spec fn unsigned_part(s: Seq<char>) -> Seq<char> {
    if s.len() > 0 && (s[0] == '-' || s[0] == '+') {
        s.drop_first()
    } else {
        s
    }
}

/// The 64-bit integer that a text writes: an optional sign, then digits and
/// nothing else, in range.
pub open spec fn parsed_int(s: Seq<char>) -> Option<int> {
    let body = unsigned_part(s);
    let value = if s.len() > 0 && s[0] == '-' {
        -digits_value(body)
    } else {
        digits_value(body)
    };
    if body.len() == 0 || exists|i: int| 0 <= i < body.len() && !is_digit(#[trigger] body[i]) {
        None
    } else if i64::MIN <= value <= i64::MAX {
        Some(value)
    } else {
        None
    }
}

proof fn lemma_digits_nonnegative(s: Seq<char>)
    requires
        forall|i: int| 0 <= i < s.len() ==> is_digit(#[trigger] s[i]),
    ensures
        digits_value(s) >= 0,
    decreases s.len(),
{
    if s.len() > 0 {
        assert forall|i: int| 0 <= i < s.drop_last().len() implies is_digit(
            #[trigger] s.drop_last()[i],
        ) by {
            assert(is_digit(s[i]));
        }
        lemma_digits_nonnegative(s.drop_last());
        assert(is_digit(s[s.len() - 1]));
    }
}

proof fn lemma_digits_grow(s: Seq<char>, n: int)
    requires
        0 <= n <= s.len(),
        forall|i: int| 0 <= i < s.len() ==> is_digit(#[trigger] s[i]),
    ensures
        digits_value(s.take(n)) <= digits_value(s),
    decreases s.len(),
{
    if n == s.len() {
        assert(s.take(n) =~= s);
    } else {
        let t = s.drop_last();
        assert forall|i: int| 0 <= i < t.len() implies is_digit(#[trigger] t[i]) by {
            assert(is_digit(s[i]));
        }
        lemma_digits_grow(t, n);
        lemma_digits_nonnegative(t);
        assert(t.take(n) =~= s.take(n));
        assert(is_digit(s[s.len() - 1]));
    }
}

/// Reads a 64-bit integer.
pub fn parse_int(s: &str) -> (r: Option<i64>)
    ensures
        match r {
            Some(n) => parsed_int(s@) == Some(n as int),
            None => parsed_int(s@) is None,
        },
{
    let all = chars_of(s);
    let negative = all.len() > 0 && all[0] == '-';
    let signed = all.len() > 0 && (all[0] == '-' || all[0] == '+');
    let start: usize = if signed { 1 } else { 0 };
    let ghost body = unsigned_part(s@);
    assert(body =~= s@.skip(start as int));
    if start >= all.len() {
        return None;
    }
    let mut total: u128 = 0;
    let mut huge = false;
    let mut i: usize = start;
    while i < all.len()
        invariant
            start <= i <= all@.len(),
            all@ == s@,
            body == unsigned_part(s@),
            body == s@.skip(start as int),
            forall|j: int| 0 <= j < i - start ==> is_digit(#[trigger] body[j]),
            !huge ==> total as int == digits_value(body.take(i - start)),
            !huge ==> total < 0x1_0000_0000_0000_0000_0000,
            huge ==> digits_value(body.take(i - start)) > 0x1_0000_0000_0000_0000,
        decreases all@.len() - i,
    {
        let code: u32 = code_point(all[i]);
        assert(body[i - start] == all@[i as int]);
        if code < 48 || code > 57 {
            assert(!is_digit(body[i - start]));
            return None;
        }
        proof {
            let next = body.take(i - start + 1);
            assert(next.drop_last() =~= body.take(i - start));
            assert(next.last() == body[i - start]);
            assert forall|j: int| 0 <= j < i - start + 1 implies is_digit(#[trigger] body[j]) by {}
        }
        if !huge {
            total = total * 10 + (code - 48) as u128;
            if total >= 0x1_0000_0000_0000_0000_0000 {
                huge = true;
            }
        }
        i += 1;
    }
    assert(body.take(all@.len() - start) =~= body);
    if negative {
        if huge || total > 9_223_372_036_854_775_808 {
            None
        } else if total == 9_223_372_036_854_775_808 {
            Some(i64::MIN)
        } else {
            Some(-(total as i64))
        }
    } else if huge || total > 9_223_372_036_854_775_807 {
        None
    } else {
        Some(total as i64)
    }
}

/// A text without the white space at its start.
pub open spec fn trimmed_start(s: Seq<char>) -> Seq<char>
    decreases s.len(),
{
    if s.len() > 0 && is_white(s[0]) {
        trimmed_start(s.drop_first())
    } else {
        s
    }
}

/// A text without the white space at its end.
pub open spec fn trimmed_end(s: Seq<char>) -> Seq<char>
    decreases s.len(),
{
    if s.len() > 0 && is_white(s.last()) {
        trimmed_end(s.drop_last())
    } else {
        s
    }
}

/// A text without the white space around it.
pub open spec fn trimmed(s: Seq<char>) -> Seq<char> {
    trimmed_end(trimmed_start(s))
}

/// A text that starts with something else keeps its start when it loses the
/// white space at its end, and ends in none.
pub proof fn lemma_trimmed_end(s: Seq<char>)
    requires
        s.len() > 0,
        !is_white(s[0]),
    ensures
        trimmed_end(s).len() > 0,
        trimmed_end(s)[0] == s[0],
        !is_white(trimmed_end(s).last()),
    decreases s.len(),
{
    if is_white(s.last()) {
        lemma_trimmed_end(s.drop_last());
    }
}

/// A copy of a text without the white space around it.
pub fn trim(s: &str) -> (r: String)
    ensures
        r@ == trimmed(s@),
{
    let all = chars_of(s);
    let mut from: usize = 0;
    assert(s@.skip(0) =~= s@);
    while from < all.len() && all[from].is_whitespace()
        invariant
            from <= all@.len(),
            all@ == s@,
            trimmed_start(s@.skip(from as int)) == trimmed_start(s@),
        decreases all@.len() - from,
    {
        assert(s@.skip(from as int).drop_first() =~= s@.skip(from + 1));
        from += 1;
    }
    let mut to: usize = all.len();
    assert(s@.subrange(from as int, to as int) =~= s@.skip(from as int));
    while from < to && all[to - 1].is_whitespace()
        invariant
            from <= to <= all@.len(),
            all@ == s@,
            trimmed_end(s@.subrange(from as int, to as int)) == trimmed(s@),
        decreases to,
    {
        assert(s@.subrange(from as int, to as int).drop_last() =~= s@.subrange(
            from as int,
            to - 1,
        ));
        to -= 1;
    }
    string_of(&all, from, to)
}

/// A copy of a text without the white space at its end.
pub fn trim_end(s: &str) -> (r: String)
    ensures
        r@ == trimmed_end(s@),
{
    let all = chars_of(s);
    let mut to: usize = all.len();
    assert(s@.take(to as int) =~= s@);
    while to > 0 && all[to - 1].is_whitespace()
        invariant
            to <= all@.len(),
            all@ == s@,
            trimmed_end(s@.take(to as int)) == trimmed_end(s@),
        decreases to,
    {
        assert(s@.take(to as int).drop_last() =~= s@.take(to - 1));
        to -= 1;
    }
    let r = string_of(&all, 0, to);
    assert(r@ =~= s@.take(to as int));
    r
}

/// The order of texts by code point, which is also the order of their UTF-8
/// bytes: a proper prefix comes first, otherwise the first difference decides.
pub open spec fn text_before(a: Seq<char>, b: Seq<char>) -> bool
    decreases a.len(),
{
    if b.len() == 0 {
        false
    } else if a.len() == 0 {
        true
    } else if a[0] != b[0] {
        (a[0] as int) < (b[0] as int)
    } else {
        text_before(a.drop_first(), b.drop_first())
    }
}

/// The order of texts is total.
pub proof fn lemma_text_order_total(a: Seq<char>, b: Seq<char>)
    ensures
        text_before(a, b) || text_before(b, a) || a == b,
        !(text_before(a, b) && text_before(b, a)),
        text_before(a, b) ==> a != b,
    decreases a.len(),
{
    if a.len() > 0 && b.len() > 0 && a[0] == b[0] {
        lemma_text_order_total(a.drop_first(), b.drop_first());
        if a.drop_first() == b.drop_first() {
            assert(a =~= seq![a[0]] + a.drop_first());
            assert(b =~= seq![b[0]] + b.drop_first());
        }
    } else if a.len() == 0 && b.len() == 0 {
        assert(a =~= b);
    }
}

/// The order of texts is transitive.
pub proof fn lemma_text_order_transitive(a: Seq<char>, b: Seq<char>, c: Seq<char>)
    requires
        text_before(a, b),
        text_before(b, c),
    ensures
        text_before(a, c),
    decreases a.len(),
{
    if a.len() > 0 && a[0] == b[0] && b[0] == c[0] {
        lemma_text_order_transitive(a.drop_first(), b.drop_first(), c.drop_first());
    }
}

/// Whether one text comes before another.
pub fn comes_before(a: &str, b: &str) -> (r: bool)
    ensures
        r == text_before(a@, b@),
{
    let x = chars_of(a);
    let y = chars_of(b);
    let mut i: usize = 0;
    assert(a@.skip(0) =~= a@ && b@.skip(0) =~= b@);
    while i < x.len() && i < y.len() && x[i] == y[i]
        invariant
            x@ == a@,
            y@ == b@,
            i <= x@.len(),
            i <= y@.len(),
            text_before(a@.skip(i as int), b@.skip(i as int)) == text_before(a@, b@),
        decreases x@.len() - i,
    {
        assert(a@.skip(i as int).drop_first() =~= a@.skip(i + 1));
        assert(b@.skip(i as int).drop_first() =~= b@.skip(i + 1));
        i += 1;
    }
    if i >= y.len() {
        false
    } else if i >= x.len() {
        true
    } else {
        code_point(x[i]) < code_point(y[i])
    }
}

/// Texts with a separator between each two.
pub open spec fn joined(parts: Seq<Seq<char>>, separator: Seq<char>) -> Seq<char>
    decreases parts.len(),
{
    if parts.len() == 0 {
        Seq::empty()
    } else if parts.len() == 1 {
        parts[0]
    } else {
        joined(parts.drop_last(), separator) + separator + parts.last()
    }
}

/// Joins texts with a separator.
pub fn join(parts: &Vec<String>, separator: &str) -> (r: String)
    ensures
        r@ == joined(crate::names::views(parts@), separator@),
{
    let mut out = String::new();
    let mut i: usize = 0;
    let ghost all = crate::names::views(parts@);
    assert(all.take(0) =~= Seq::<Seq<char>>::empty());
    while i < parts.len()
        invariant
            i <= parts@.len(),
            all == crate::names::views(parts@),
            out@ == joined(all.take(i as int), separator@),
        decreases parts@.len() - i,
    {
        if i > 0 {
            out.append(separator);
        }
        out.append(parts[i].as_str());
        proof {
            let next = all.take(i + 1);
            assert(next.drop_last() =~= all.take(i as int));
            assert(next.last() == parts@[i as int]@);
            assert(next.len() == i + 1);
            if i == 0 {
                assert(next[0] == parts@[0]@);
                assert(out@ =~= parts@[0]@);
            }
        }
        i += 1;
    }
    assert(all.take(parts@.len() as int) =~= all);
    out
}

/// Whether `s` ends with `suffix`.
pub open spec fn has_suffix(s: Seq<char>, suffix: Seq<char>) -> bool {
    suffix.len() <= s.len() && s.skip(s.len() - suffix.len()) == suffix
}

/// What is left of a text that ends with `suffix`, without it.
pub fn strip_suffix(s: &str, suffix: &str) -> (r: Option<String>)
    ensures
        match r {
            Some(rest) => has_suffix(s@, suffix@) && rest@ == s@.take(s@.len() - suffix@.len()),
            None => !has_suffix(s@, suffix@),
        },
{
    let all = chars_of(s);
    let tail = chars_of(suffix);
    if tail.len() > all.len() {
        return None;
    }
    let cut: usize = all.len() - tail.len();
    let end = string_of(&all, cut, all.len());
    assert(end@ =~= s@.skip(cut as int));
    if same(end.as_str(), suffix) {
        let rest = string_of(&all, 0, cut);
        assert(rest@ =~= s@.take(cut as int));
        Some(rest)
    } else {
        None
    }
}

/// Whether a text has another as a part.
pub open spec fn has_part(s: Seq<char>, part: Seq<char>) -> bool {
    exists|i: int|
        0 <= i <= s.len() - part.len() && #[trigger] s.subrange(i, i + part.len()) == part
}

/// Whether a text has another as a part.
pub fn contains(s: &str, part: &str) -> (r: bool)
    ensures
        r == has_part(s@, part@),
{
    let all = chars_of(s);
    let wanted = chars_of(part);
    let n: usize = wanted.len();
    let count: usize = all.len();
    if n > count {
        return false;
    }
    let last: usize = count - n;
    let mut i: usize = 0;
    while i <= last
        invariant
            i <= last + 1,
            last + n == count,
            count == all@.len(),
            n == wanted@.len(),
            all@ == s@,
            wanted@ == part@,
            forall|j: int| 0 <= j < i ==> #[trigger] s@.subrange(j, j + n) != part@,
        decreases last + 1 - i,
    {
        let mut k: usize = 0;
        while k < n && all[i + k] == wanted[k]
            invariant
                k <= n,
                i + n <= count,
                count == all@.len(),
                n == wanted@.len(),
                forall|j: int| 0 <= j < k ==> all@[i + j] == #[trigger] wanted@[j],
            ensures
                k <= n,
                forall|j: int| 0 <= j < k ==> all@[i + j] == #[trigger] wanted@[j],
                k < n ==> all@[i + k] != wanted@[k as int],
            decreases n - k,
        {
            k += 1;
        }
        if k == n {
            assert(s@.subrange(i as int, i + n) =~= part@);
            return true;
        }
        proof {
            assert(s@.subrange(i as int, i + n)[k as int] != part@[k as int]);
        }
        if i == last {
            return false;
        }
        i += 1;
    }
    false
}

/// To trim the end is to leave off white space there and nothing else: what is
/// left is the text from its first character on, and it does not end in white
/// space.
pub proof fn trimming_the_end_keeps_the_start(s: Seq<char>)
    ensures
        trimmed_end(s).len() <= s.len(),
        trimmed_end(s) == s.take(trimmed_end(s).len() as int),
        forall|i: int| trimmed_end(s).len() <= i < s.len() ==> is_white(#[trigger] s[i]),
        trimmed_end(s).len() > 0 ==> !is_white(trimmed_end(s).last()),
    decreases s.len(),
{
    if s.len() > 0 && is_white(s.last()) {
        let front = s.drop_last();
        trimming_the_end_keeps_the_start(front);
        let n = trimmed_end(s).len() as int;
        assert(front.take(n) =~= s.take(n));
        assert forall|i: int| n <= i < s.len() implies is_white(#[trigger] s[i]) by {
            if i < front.len() {
                assert(front[i] == s[i]);
            }
        }
    } else {
        assert(s.take(s.len() as int) =~= s);
    }
}

proof fn lemma_trimmed_start(s: Seq<char>)
    ensures
        trimmed_start(s).len() <= s.len(),
        trimmed_start(s) == s.skip(s.len() - trimmed_start(s).len()),
        forall|i: int|
            0 <= i < s.len() - trimmed_start(s).len() ==> is_white(#[trigger] s[i]),
        trimmed_start(s).len() > 0 ==> !is_white(trimmed_start(s)[0]),
    decreases s.len(),
{
    if s.len() > 0 && is_white(s[0]) {
        let rest = s.drop_first();
        lemma_trimmed_start(rest);
        let k = rest.len() - trimmed_start(rest).len();
        assert(rest.skip(k) =~= s.skip(k + 1));
        assert forall|i: int| 0 <= i < k + 1 implies is_white(#[trigger] s[i]) by {
            if i > 0 {
                assert(rest[i - 1] == s[i]);
            }
        }
    } else {
        assert(s.skip(0) =~= s);
    }
}

/// To trim a text is to leave off the white space around it: what is left stands
/// in it as one piece, neither begins nor ends in white space, and nothing but
/// white space stands before or after it.
pub proof fn trimming_takes_white_space_only(s: Seq<char>)
    ensures
        exists|from: int|
            {
                let until = from + trimmed(s).len();
                &&& 0 <= from <= until <= s.len()
                &&& trimmed(s) == #[trigger] s.subrange(from, from + trimmed(s).len())
                &&& forall|i: int| 0 <= i < from || until <= i < s.len() ==> is_white(
                    #[trigger] s[i],
                )
            },
        trimmed(s).len() > 0 ==> !is_white(trimmed(s)[0]) && !is_white(trimmed(s).last()),
{
    lemma_trimmed_start(s);
    let rest = trimmed_start(s);
    trimming_the_end_keeps_the_start(rest);
    let from = s.len() - rest.len();
    let n = trimmed(s).len() as int;
    assert(s.subrange(from, from + n) =~= trimmed(s));
    assert forall|i: int| 0 <= i < from || from + n <= i < s.len() implies is_white(
        #[trigger] s[i],
    ) by {
        if from + n <= i {
            assert(rest[i - from] == s[i]);
        }
    }
}

proof fn lemma_decimal(n: nat)
    ensures
        decimal(n).len() > 0,
        forall|i: int| 0 <= i < decimal(n).len() ==> is_digit(#[trigger] decimal(n)[i]),
        digits_value(decimal(n)) == n,
    decreases n,
{
    if n < 10 {
        let s = decimal(n);
        assert(s.drop_last() =~= Seq::<char>::empty());
        assert(digits_value(s.drop_last()) == 0);
    } else {
        lemma_decimal(n / 10);
        let s = decimal(n);
        assert(s.drop_last() =~= decimal(n / 10));
        assert forall|i: int| 0 <= i < s.len() implies is_digit(#[trigger] s[i]) by {
            if i < s.len() - 1 {
                assert(decimal(n / 10)[i] == s[i]);
            }
        }
    }
}

/// A number that is written out reads back as itself.
pub proof fn a_number_reads_back(n: int)
    requires
        i64::MIN <= n <= i64::MAX,
    ensures
        parsed_int(signed_decimal(n)) == Some(n),
{
    let s = signed_decimal(n);
    if n < 0 {
        lemma_decimal((-n) as nat);
        assert(unsigned_part(s) =~= decimal((-n) as nat));
    } else {
        lemma_decimal(n as nat);
        assert(is_digit(s[0]));
        assert(unsigned_part(s) =~= s);
    }
}

/// How many characters come before a part of a joined text.
pub open spec fn place_of_part(parts: Seq<Seq<char>>, separator: Seq<char>, i: int) -> int
    decreases i,
{
    if i <= 0 {
        0
    } else {
        place_of_part(parts, separator, i - 1) + parts[i - 1].len() + separator.len()
    }
}

/// A joined text holds each of its parts whole and in their order, with the
/// separator before each but the first, and ends with the last of them.
pub proof fn every_part_has_its_place(parts: Seq<Seq<char>>, separator: Seq<char>, i: int)
    requires
        0 <= i < parts.len(),
    ensures
        ({
            let text = joined(parts, separator);
            let at = place_of_part(parts, separator, i);
            &&& 0 <= at <= at + parts[i].len() <= text.len()
            &&& text.subrange(at, at + parts[i].len()) == parts[i]
            &&& i > 0 ==> at >= separator.len() && text.subrange(at - separator.len(), at)
                == separator
            &&& i == parts.len() - 1 ==> at + parts[i].len() == text.len()
        }),
    decreases parts.len(),
{
    let text = joined(parts, separator);
    let at = place_of_part(parts, separator, i);
    if parts.len() == 1 {
        assert(text.subrange(0, text.len() as int) =~= parts[0]);
    } else {
        let front = parts.drop_last();
        let before = joined(front, separator);
        if i < front.len() {
            every_part_has_its_place(front, separator, i);
            lemma_places(parts, separator, i);
            assert(front[i] == parts[i]);
            assert(text.subrange(at, at + parts[i].len()) =~= before.subrange(
                at,
                at + parts[i].len(),
            ));
            if i > 0 {
                assert(text.subrange(at - separator.len(), at) =~= before.subrange(
                    at - separator.len(),
                    at,
                ));
            }
        } else {
            let k = front.len() - 1;
            every_part_has_its_place(front, separator, k);
            lemma_places(parts, separator, k);
            assert(front[k] == parts[k]);
            assert(at == before.len() + separator.len());
            assert(text.subrange(at, at + parts[i].len()) =~= parts[i]);
            assert(text.subrange(at - separator.len(), at) =~= separator);
        }
    }
}

proof fn lemma_places(parts: Seq<Seq<char>>, separator: Seq<char>, i: int)
    requires
        0 <= i < parts.len() - 1,
    ensures
        place_of_part(parts.drop_last(), separator, i) == place_of_part(parts, separator, i),
    decreases i,
{
    if i > 0 {
        lemma_places(parts, separator, i - 1);
        assert(parts.drop_last()[i - 1] == parts[i - 1]);
    }
}

/// Text sorts as in a dictionary by the numbers of its characters: a text before
/// any that goes on after it, and otherwise by the first character in which two
/// texts differ.
pub proof fn text_sorts_by_its_first_difference(a: Seq<char>, b: Seq<char>, k: int)
    requires
        0 <= k <= a.len(),
        k <= b.len(),
        forall|i: int| 0 <= i < k ==> #[trigger] a[i] == b[i],
        k < a.len() && k < b.len() ==> a[k] != b[k],
    ensures
        k == a.len() && k < b.len() ==> text_before(a, b),
        k == b.len() ==> !text_before(a, b),
        k < a.len() && k < b.len() ==> (text_before(a, b) <==> (a[k] as int) < (b[k] as int)),
    decreases k,
{
    if k > 0 {
        assert(a[0] == b[0]);
        let x = a.drop_first();
        let y = b.drop_first();
        assert forall|i: int| 0 <= i < k - 1 implies #[trigger] x[i] == y[i] by {
            assert(a[i + 1] == b[i + 1]);
        }
        text_sorts_by_its_first_difference(x, y, k - 1);
    }
}

/// White space is the blank, the tab and the breaks of lines and pages among the
/// plain characters, and no letter, digit or mark.
pub proof fn what_white_space_is(ch: char)
    requires
        (ch as int) < 128,
    ensures
        ch == ' ' || ch == '\t' || ch == '\n' || ch == '\r' ==> is_white(ch),
        ch as int > 32 ==> !is_white(ch),
{
}

} // verus!
