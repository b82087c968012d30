//! Styled text: colours, spans, lines, and the terminal escapes they come from.
//!
//! A line is a list of spans. What a reader sees of it is its cells, one
//! character with one style each; two lines with the same cells look the same,
//! however they are cut into spans.
use crate::text::{chars_of, code_point, same};
use ansi_to_tui::IntoText;
use vstd::prelude::*;
use vstd::utf8::{decode_utf8, decode_utf8_encode_utf8, encode_utf8_valid_utf8, valid_utf8};

verus! {

/// A terminal colour.
#[derive(Debug, Clone, Copy, PartialEq, Eq, Structural)]
pub enum Color {
    Reset,
    Black,
    Red,
    Green,
    Yellow,
    Blue,
    Magenta,
    Cyan,
    Gray,
    DarkGray,
    LightRed,
    LightGreen,
    LightYellow,
    LightBlue,
    LightMagenta,
    LightCyan,
    White,
    Rgb(u8, u8, u8),
    Indexed(u8),
}

/// Emphasis bits of a style.
pub const BOLD: u16 = 1;

pub const DIM: u16 = 2;

pub const ITALIC: u16 = 4;

pub const UNDERLINED: u16 = 8;

pub const SLOW_BLINK: u16 = 16;

pub const REVERSED: u16 = 64;

pub const CROSSED_OUT: u16 = 256;

/// How a run of text is drawn.
#[derive(Debug, Clone, Copy, PartialEq, Eq, Structural)]
pub struct Style {
    pub fg: Option<Color>,
    pub bg: Option<Color>,
    /// Emphasis bits this style switches on.
    pub add_modifier: u16,
    /// Emphasis bits this style switches off.
    pub sub_modifier: u16,
}

impl Style {
    /// The style that changes nothing.
    pub open spec fn plain() -> Style {
        Style { fg: None, bg: None, add_modifier: 0, sub_modifier: 0 }
    }

    /// A style with a foreground colour alone.
    pub open spec fn with_fg(color: Color) -> Style {
        Style { fg: Some(color), bg: None, add_modifier: 0, sub_modifier: 0 }
    }

    /// This style with `bits` switched on.
    pub open spec fn with_bits(self, bits: u16) -> Style {
        Style {
            add_modifier: self.add_modifier | bits,
            sub_modifier: self.sub_modifier & !bits,
            ..self
        }
    }

    /// The style that changes nothing.
    pub fn new() -> (r: Style)
        ensures
            r == Style::plain(),
    {
        Style { fg: None, bg: None, add_modifier: 0, sub_modifier: 0 }
    }

    /// This style in another foreground colour.
    pub fn fg(self, color: Color) -> (r: Style)
        ensures
            r == (Style { fg: Some(color), ..self }),
    {
        Style { fg: Some(color), ..self }
    }

    /// This style on another background colour.
    pub fn bg(self, color: Color) -> (r: Style)
        ensures
            r == (Style { bg: Some(color), ..self }),
    {
        Style { bg: Some(color), ..self }
    }

    /// This style with emphasis bits switched on.
    pub fn add_modifier(self, bits: u16) -> (r: Style)
        ensures
            r == self.with_bits(bits),
    {
        Style {
            add_modifier: self.add_modifier | bits,
            sub_modifier: self.sub_modifier & !bits,
            ..self
        }
    }
}

impl Default for Style {
    fn default() -> (r: Style)
        ensures
            r == Style::plain(),
    {
        Style::new()
    }
}

/// A run of text in one style.
#[derive(Debug)]
pub struct Span {
    pub content: String,
    pub style: Style,
}

/// A line of styled text.
#[derive(Debug)]
pub struct Line {
    pub spans: Vec<Span>,
}

/// What a reader sees of a line: its characters, and the style of each.
#[verifier::ext_equal]
pub struct Cells {
    pub text: Seq<char>,
    pub styles: Seq<Style>,
}

impl Cells {
    /// Nothing.
    pub open spec fn none() -> Cells {
        Cells { text: Seq::empty(), styles: Seq::empty() }
    }

    /// A text in one style.
    pub open spec fn styled(text: Seq<char>, style: Style) -> Cells {
        Cells { text, styles: Seq::new(text.len(), |i: int| style) }
    }

    /// How many there are.
    pub open spec fn len(self) -> nat {
        self.text.len()
    }

    /// These, then those.
    pub open spec fn followed_by(self, other: Cells) -> Cells {
        Cells { text: self.text + other.text, styles: self.styles + other.styles }
    }

    /// The ones from `from` up to `to`.
    pub open spec fn cut(self, from: int, to: int) -> Cells {
        Cells { text: self.text.subrange(from, to), styles: self.styles.subrange(from, to) }
    }
}

/// A run of text in one style, as a reader of contracts sees it.
pub struct Run {
    pub text: Seq<char>,
    pub style: Style,
}

/// The cells of a list of spans, left to right.
pub open spec fn cells_of(spans: Seq<Span>) -> Cells
    decreases spans.len(),
{
    if spans.len() == 0 {
        Cells::none()
    } else {
        cells_of(spans.drop_last()).followed_by(
            Cells::styled(spans.last().content@, spans.last().style),
        )
    }
}

/// There is one style for every character.
pub proof fn lemma_cells_paired(spans: Seq<Span>)
    ensures
        cells_of(spans).styles.len() == cells_of(spans).text.len(),
    decreases spans.len(),
{
    if spans.len() > 0 {
        lemma_cells_paired(spans.drop_last());
    }
}

/// The runs of a list of spans.
pub open spec fn runs_of(spans: Seq<Span>) -> Seq<Run> {
    Seq::new(spans.len(), |i: int| Run { text: spans[i].content@, style: spans[i].style })
}

/// Appending a span appends its cells.
pub proof fn lemma_cells_push(spans: Seq<Span>, span: Span)
    ensures
        cells_of(spans.push(span)) == cells_of(spans).followed_by(
            Cells::styled(span.content@, span.style),
        ),
{
    assert(spans.push(span).drop_last() =~= spans);
}

/// The cells of two lists of spans in a row.
pub proof fn lemma_cells_append(a: Seq<Span>, b: Seq<Span>)
    ensures
        cells_of(a + b) == cells_of(a).followed_by(cells_of(b)),
    decreases b.len(),
{
    if b.len() == 0 {
        assert(a + b =~= a);
        assert(cells_of(a).followed_by(cells_of(b)) =~= cells_of(a));
    } else {
        lemma_cells_append(a, b.drop_last());
        assert((a + b).drop_last() =~= a + b.drop_last());
        assert(cells_of(a + b) =~= cells_of(a).followed_by(cells_of(b)));
    }
}

impl Span {
    /// Text in the plain style.
    pub fn raw(content: String) -> (r: Span)
        ensures
            r.content@ == content@,
            r.style == Style::plain(),
    {
        Span { content, style: Style::new() }
    }

    /// Text in a style.
    pub fn styled(content: String, style: Style) -> (r: Span)
        ensures
            r.content@ == content@,
            r.style == style,
    {
        Span { content, style }
    }

    /// A copy with the same text and style.
    pub fn copy(&self) -> (r: Span)
        ensures
            r.content@ == self.content@,
            r.style == self.style,
    {
        Span { content: self.content.clone(), style: self.style }
    }
}

impl Line {
    /// What a reader sees of the line.
    pub open spec fn cells(&self) -> Cells {
        cells_of(self.spans@)
    }

    /// The runs the line is cut into.
    pub open spec fn runs(&self) -> Seq<Run> {
        runs_of(self.spans@)
    }

    /// The line with nothing on it.
    pub fn empty() -> (r: Line)
        ensures
            r.spans@.len() == 0,
            r.cells() == Cells::none(),
    {
        Line { spans: Vec::new() }
    }

    /// How many characters the line holds.
    pub fn characters(&self) -> (r: u128)
        ensures
            r as int == self.cells().len(),
    {
        let mut total: u128 = 0;
        let mut i: usize = 0;
        assert(self.spans@.take(0) =~= Seq::<Span>::empty());
        while i < self.spans.len()
            invariant
                i <= self.spans@.len(),
                total as int == cells_of(self.spans@.take(i as int)).len(),
                total <= i as u128 * 0xffff_ffff_ffff_ffff,
            decreases self.spans@.len() - i,
        {
            let here: usize = self.spans[i].content.as_str().unicode_len();
            proof {
                assert(self.spans@.take(i + 1) =~= self.spans@.take(i as int).push(
                    self.spans@[i as int],
                ));
                lemma_cells_push(self.spans@.take(i as int), self.spans@[i as int]);
                assert(i as u128 * 0xffff_ffff_ffff_ffff + 0xffff_ffff_ffff_ffff
                    == (i + 1) as u128 * 0xffff_ffff_ffff_ffff) by (nonlinear_arith);
                assert((i + 1) as u128 * 0xffff_ffff_ffff_ffff
                    <= 0xffff_ffff_ffff_ffff * 0xffff_ffff_ffff_ffff) by (nonlinear_arith)
                    requires
                        i < usize::MAX,
                        usize::MAX <= 0xffff_ffff_ffff_ffff,
                ;
            }
            total += here as u128;
            i += 1;
        }
        assert(self.spans@.take(self.spans@.len() as int) =~= self.spans@);
        total
    }

    /// How many characters the line holds. A count past `usize::MAX` reads as
    /// `usize::MAX`.
    pub fn width(&self) -> (r: usize)
        ensures
            r as int == at_most_usize(self.cells().len() as int),
    {
        let total: u128 = self.characters();
        if total > usize::MAX as u128 {
            usize::MAX
        } else {
            total as usize
        }
    }

    /// The characters of the line, without their styles.
    pub fn text(&self) -> (r: String)
        ensures
            r@ == self.cells().text,
    {
        let mut out = String::new();
        let mut i: usize = 0;
        assert(self.spans@.take(0) =~= Seq::<Span>::empty());
        while i < self.spans.len()
            invariant
                i <= self.spans@.len(),
                out@ == cells_of(self.spans@.take(i as int)).text,
            decreases self.spans@.len() - i,
        {
            out.append(self.spans[i].content.as_str());
            proof {
                let span = self.spans@[i as int];
                assert(self.spans@.take(i + 1) =~= self.spans@.take(i as int).push(span));
                lemma_cells_push(self.spans@.take(i as int), span);
            }
            i += 1;
        }
        assert(self.spans@.take(self.spans@.len() as int) =~= self.spans@);
        out
    }

    /// A copy with the same spans.
    pub fn copy(&self) -> (r: Line)
        ensures
            r.runs() == self.runs(),
            r.cells() == self.cells(),
    {
        let mut spans: Vec<Span> = Vec::new();
        let mut i: usize = 0;
        assert(self.spans@.take(0) =~= Seq::<Span>::empty());
        while i < self.spans.len()
            invariant
                i <= self.spans@.len(),
                spans@.len() == i,
                forall|j: int|
                    0 <= j < i ==> spans@[j].content@ == self.spans@[j].content@ && spans@[j].style
                        == self.spans@[j].style,
                cells_of(spans@) == cells_of(self.spans@.take(i as int)),
            decreases self.spans@.len() - i,
        {
            proof {
                let span = self.spans@[i as int];
                assert(self.spans@.take(i + 1) =~= self.spans@.take(i as int).push(span));
                lemma_cells_push(self.spans@.take(i as int), span);
            }
            let ghost before = spans@;
            let next = self.spans[i].copy();
            spans.push(next);
            proof {
                lemma_cells_push(before, next);
            }
            i += 1;
        }
        assert(self.spans@.take(self.spans@.len() as int) =~= self.spans@);
        assert(runs_of(spans@) =~= runs_of(self.spans@));
        Line { spans }
    }
}

/// A count as a `usize`, the largest one standing for everything past it.
pub open spec fn at_most_usize(n: int) -> int {
    if n > usize::MAX {
        usize::MAX as int
    } else {
        n
    }
}

/// A run of text as the escape parser hands it over: the text, the names of
/// its foreground and background colours, and its emphasis bits.
#[derive(Debug)]
pub struct RawSpan {
    pub content: String,
    pub fg: Option<String>,
    pub bg: Option<String>,
    pub add_modifier: u16,
    pub sub_modifier: u16,
}

/// The characters of an optional string.
pub open spec fn optional_text(s: Option<String>) -> Option<Seq<char>> {
    match s {
        Some(s) => Some(s@),
        None => None,
    }
}

/// A raw span as plain values, in the order of its fields.
pub open spec fn raw_span_view(s: RawSpan) -> (
    Seq<char>,
    Option<Seq<char>>,
    Option<Seq<char>>,
    u16,
    u16,
) {
    (s.content@, optional_text(s.fg), optional_text(s.bg), s.add_modifier, s.sub_modifier)
}

/// Lines of raw spans as plain values.
pub open spec fn raw_lines_view(lines: Seq<Vec<RawSpan>>) -> Seq<
    Seq<(Seq<char>, Option<Seq<char>>, Option<Seq<char>>, u16, u16)>,
> {
    Seq::new(
        lines.len(),
        |i: int| Seq::new(lines[i]@.len(), |j: int| raw_span_view(lines[i]@[j])),
    )
}

/// What `ansi_to_tui`'s parser makes of bytes with terminal escapes: its lines
/// of spans, or nothing where it fails.
pub uninterp spec fn ansi_text(bytes: Seq<u8>) -> Option<
    Seq<Seq<(Seq<char>, Option<Seq<char>>, Option<Seq<char>>, u16, u16)>>,
>;

/// `ansi_to_tui::IntoText::into_text`: the styled lines that bytes with
/// terminal escapes spell. The result is a function of the bytes. Colours are
/// handed over by the names that ratatui's `Color` displays, emphasis by its
/// bits; the colour of an underline is left out.
#[verifier::external_body]
fn parse_escapes(bytes: &[u8]) -> (r: Option<Vec<Vec<RawSpan>>>)
    ensures
        match r {
            Some(lines) => ansi_text(bytes@) == Some(raw_lines_view(lines@)),
            None => ansi_text(bytes@) is None,
        },
{
    let text = bytes.into_text().ok()?;
    let raw = |s: ratatui::text::Span<'static>| RawSpan {
        content: s.content.into_owned(),
        fg: s.style.fg.map(|c| c.to_string()),
        bg: s.style.bg.map(|c| c.to_string()),
        add_modifier: s.style.add_modifier.bits(),
        sub_modifier: s.style.sub_modifier.bits(),
    };
    Some(text.lines.into_iter().map(|l| l.spans.into_iter().map(raw).collect()).collect())
}

/// Bytes read as UTF-8, with a replacement character for what is not.
pub uninterp spec fn lossy_text(bytes: Seq<u8>) -> Seq<char>;

/// `String::from_utf8_lossy`: the result is a function of the bytes, and for
/// UTF-8 it is the text that they encode.
#[verifier::external_body]
pub(crate) fn read_lossy(bytes: &[u8]) -> (r: String)
    ensures
        r@ == lossy_text(bytes@),
        valid_utf8(bytes@) ==> r@ == decode_utf8(bytes@),
{
    String::from_utf8_lossy(bytes).into_owned()
}

/// Where the first line break of a text stands; its length, if it has none.
pub open spec fn first_break(text: Seq<char>) -> int
    decreases text.len(),
{
    if text.len() == 0 || text[0] == '\n' {
        0
    } else {
        1 + first_break(text.drop_first())
    }
}

/// The lines of a text that are not empty. A carriage return before a line
/// break belongs to the break.
pub open spec fn filled_lines(text: Seq<char>) -> Seq<Seq<char>>
    decreases text.len(),
{
    if text.len() == 0 {
        Seq::empty()
    } else {
        let at = first_break(text);
        let line = if 0 < at < text.len() && text[at - 1] == '\r' {
            text.take(at - 1)
        } else {
            text.take(at)
        };
        let first = if line.len() == 0 {
            Seq::<Seq<char>>::empty()
        } else {
            seq![line]
        };
        if 0 <= at < text.len() {
            first + filled_lines(text.skip(at + 1))
        } else {
            first
        }
    }
}

/// `ratatui::text::Text::raw`: an unstyled span for each line of the text that
/// is not empty.
#[verifier::external_body]
fn cut_raw_text(text: &str) -> (r: Vec<String>)
    ensures
        crate::names::views(r@) == filled_lines(text@),
{
    let text = ratatui::text::Text::raw(text);
    let lines = text.lines.into_iter().flat_map(|line| line.spans);
    lines.map(|span| span.content.into_owned()).collect()
}

/// The value of a hexadecimal digit in upper case.
pub open spec fn hex_value(ch: char) -> int {
    let code = ch as int;
    if 48 <= code <= 57 {
        code - 48
    } else if 65 <= code <= 70 {
        code - 55
    } else {
        0
    }
}

/// The colour that a name stands for: one of the sixteen names, `Reset`, a `#`
/// with six hexadecimal digits, or an index of up to three digits. Anything
/// else reads as `Reset`.
pub open spec fn color_named(name: Seq<char>) -> Color {
    if name == "Black"@ {
        Color::Black
    } else if name == "Red"@ {
        Color::Red
    } else if name == "Green"@ {
        Color::Green
    } else if name == "Yellow"@ {
        Color::Yellow
    } else if name == "Blue"@ {
        Color::Blue
    } else if name == "Magenta"@ {
        Color::Magenta
    } else if name == "Cyan"@ {
        Color::Cyan
    } else if name == "Gray"@ {
        Color::Gray
    } else if name == "DarkGray"@ {
        Color::DarkGray
    } else if name == "LightRed"@ {
        Color::LightRed
    } else if name == "LightGreen"@ {
        Color::LightGreen
    } else if name == "LightYellow"@ {
        Color::LightYellow
    } else if name == "LightBlue"@ {
        Color::LightBlue
    } else if name == "LightMagenta"@ {
        Color::LightMagenta
    } else if name == "LightCyan"@ {
        Color::LightCyan
    } else if name == "White"@ {
        Color::White
    } else if name.len() == 7 && name[0] == '#' {
        Color::Rgb(
            (hex_value(name[1]) * 16 + hex_value(name[2])) as u8,
            (hex_value(name[3]) * 16 + hex_value(name[4])) as u8,
            (hex_value(name[5]) * 16 + hex_value(name[6])) as u8,
        )
    } else {
        match crate::text::parsed_int(name) {
            Some(n) => if 0 <= n <= 255 {
                Color::Indexed(n as u8)
            } else {
                Color::Reset
            },
            None => Color::Reset,
        }
    }
}

fn hex_digit(ch: char) -> (r: u8)
    ensures
        r as int == hex_value(ch),
        r < 16,
{
    let code: u32 = code_point(ch);
    if 48 <= code && code <= 57 {
        (code - 48) as u8
    } else if 65 <= code && code <= 70 {
        (code - 55) as u8
    } else {
        0
    }
}

/// The colour that a name stands for.
pub fn color_from_name(name: &str) -> (r: Color)
    ensures
        r == color_named(name@),
{
    if same(name, "Black") {
        Color::Black
    } else if same(name, "Red") {
        Color::Red
    } else if same(name, "Green") {
        Color::Green
    } else if same(name, "Yellow") {
        Color::Yellow
    } else if same(name, "Blue") {
        Color::Blue
    } else if same(name, "Magenta") {
        Color::Magenta
    } else if same(name, "Cyan") {
        Color::Cyan
    } else if same(name, "Gray") {
        Color::Gray
    } else if same(name, "DarkGray") {
        Color::DarkGray
    } else if same(name, "LightRed") {
        Color::LightRed
    } else if same(name, "LightGreen") {
        Color::LightGreen
    } else if same(name, "LightYellow") {
        Color::LightYellow
    } else if same(name, "LightBlue") {
        Color::LightBlue
    } else if same(name, "LightMagenta") {
        Color::LightMagenta
    } else if same(name, "LightCyan") {
        Color::LightCyan
    } else if same(name, "White") {
        Color::White
    } else {
        let all = chars_of(name);
        if all.len() == 7 && all[0] == '#' {
            Color::Rgb(
                hex_digit(all[1]) * 16 + hex_digit(all[2]),
                hex_digit(all[3]) * 16 + hex_digit(all[4]),
                hex_digit(all[5]) * 16 + hex_digit(all[6]),
            )
        } else {
            match crate::text::parse_int(name) {
                Some(n) => if 0 <= n && n <= 255 {
                    Color::Indexed(n as u8)
                } else {
                    Color::Reset
                },
                None => Color::Reset,
            }
        }
    }
}

/// The colour of an optional name.
pub open spec fn optional_color(name: Option<Seq<char>>) -> Option<Color> {
    match name {
        Some(name) => Some(color_named(name)),
        None => None,
    }
}

/// The run that a raw span stands for.
pub open spec fn run_of_raw(
    raw: (Seq<char>, Option<Seq<char>>, Option<Seq<char>>, u16, u16),
) -> Run {
    Run {
        text: raw.0,
        style: Style {
            fg: optional_color(raw.1),
            bg: optional_color(raw.2),
            add_modifier: raw.3,
            sub_modifier: raw.4,
        },
    }
}

/// The runs of several raw lines, one line after the other.
pub open spec fn runs_of_raw_lines(
    lines: Seq<Seq<(Seq<char>, Option<Seq<char>>, Option<Seq<char>>, u16, u16)>>,
) -> Seq<Run>
    decreases lines.len(),
{
    if lines.len() == 0 {
        Seq::empty()
    } else {
        runs_of_raw_lines(lines.drop_last()) + lines.last().map_values(
            |raw: (Seq<char>, Option<Seq<char>>, Option<Seq<char>>, u16, u16)| run_of_raw(raw),
        )
    }
}

fn named_color(name: &Option<String>) -> (r: Option<Color>)
    ensures
        r == optional_color(optional_text(*name)),
{
    match name {
        Some(name) => Some(color_from_name(name.as_str())),
        None => None,
    }
}

/// Joins parsed lines into one: an entry of the log is one logical line, and a
/// break inside it only comes from a newline that slipped through.
pub fn join_raw_lines(lines: &Vec<Vec<RawSpan>>) -> (r: Line)
    ensures
        r.runs() == runs_of_raw_lines(raw_lines_view(lines@)),
{
    let mut spans: Vec<Span> = Vec::new();
    let mut i: usize = 0;
    let ghost all = raw_lines_view(lines@);
    assert(all.take(0) =~= Seq::empty());
    assert(runs_of(spans@) =~= Seq::<Run>::empty());
    while i < lines.len()
        invariant
            i <= lines@.len(),
            all == raw_lines_view(lines@),
            runs_of(spans@) == runs_of_raw_lines(all.take(i as int)),
        decreases lines@.len() - i,
    {
        let line = &lines[i];
        let ghost before = runs_of(spans@);
        let ghost here = all[i as int].map_values(
            |raw: (Seq<char>, Option<Seq<char>>, Option<Seq<char>>, u16, u16)| run_of_raw(raw),
        );
        let mut j: usize = 0;
        assert(before + here.take(0) =~= before);
        while j < line.len()
            invariant
                i < lines@.len(),
                line == &lines@[i as int],
                j <= line@.len(),
                all == raw_lines_view(lines@),
                here == all[i as int].map_values(
                    |raw: (Seq<char>, Option<Seq<char>>, Option<Seq<char>>, u16, u16)|
                        run_of_raw(raw),
                ),
                runs_of(spans@) == before + here.take(j as int),
            decreases line@.len() - j,
        {
            let raw = &line[j];
            let style = Style {
                fg: named_color(&raw.fg),
                bg: named_color(&raw.bg),
                add_modifier: raw.add_modifier,
                sub_modifier: raw.sub_modifier,
            };
            let ghost so_far = spans@;
            let next = Span::styled(raw.content.clone(), style);
            spans.push(next);
            proof {
                assert(all[i as int][j as int] == raw_span_view(line@[j as int]));
                assert(here[j as int] == run_of_raw(raw_span_view(line@[j as int])));
                assert(here[j as int].text == next.content@);
                assert(here[j as int].style == next.style);
                assert(runs_of(spans@) =~= runs_of(so_far).push(here[j as int]));
                assert(here.take(j + 1) =~= here.take(j as int).push(here[j as int]));
                assert(runs_of(spans@) =~= before + here.take(j + 1));
            }
            j += 1;
        }
        proof {
            assert(here.take(here.len() as int) =~= here);
            assert(all.take(i + 1).drop_last() =~= all.take(i as int));
        }
        i += 1;
    }
    assert(all.take(lines@.len() as int) =~= all);
    Line { spans }
}

/// The runs of an entry's bytes: what the escape parser makes of them, or the
/// text as it stands where the parser fails, all on one line. The parser leaves
/// out what is not UTF-8 without a word, which counts as a failure here.
pub open spec fn ansi_line_runs(bytes: Seq<u8>) -> Seq<Run> {
    match ansi_text(bytes) {
        Some(lines) => if valid_utf8(bytes) {
            runs_of_raw_lines(lines)
        } else {
            plain_runs(filled_lines(lossy_text(bytes)))
        },
        None => plain_runs(filled_lines(lossy_text(bytes))),
    }
}

/// Runs without a style.
pub open spec fn plain_runs(parts: Seq<Seq<char>>) -> Seq<Run> {
    Seq::new(parts.len(), |i: int| Run { text: parts[i], style: Style::plain() })
}

/// Joins parts of a text, without a style, on one line.
pub fn join_plain(parts: &Vec<String>) -> (r: Line)
    ensures
        r.runs() == plain_runs(crate::names::views(parts@)),
{
    let mut spans: Vec<Span> = Vec::new();
    let mut i: usize = 0;
    while i < parts.len()
        invariant
            i <= parts@.len(),
            spans@.len() == i,
            forall|j: int|
                0 <= j < i ==> spans@[j].content@ == parts@[j]@ && spans@[j].style
                    == Style::plain(),
        decreases parts@.len() - i,
    {
        spans.push(Span::raw(parts[i].clone()));
        i += 1;
    }
    proof {
        let cut = crate::names::views(parts@);
        assert forall|j: int| 0 <= j < parts@.len() implies cut[j] == parts@[j]@ by {}
        assert(runs_of(spans@) =~= plain_runs(cut));
    }
    Line { spans }
}

fn same_bytes(a: &[u8], b: &[u8]) -> (r: bool)
    ensures
        r == (a@ == b@),
{
    if a.len() != b.len() {
        return false;
    }
    let mut i: usize = 0;
    while i < a.len()
        invariant
            i <= a@.len(),
            a@.len() == b@.len(),
            forall|j: int| 0 <= j < i ==> a@[j] == b@[j],
        decreases a@.len() - i,
    {
        if a[i] != b[i] {
            return false;
        }
        i += 1;
    }
    assert(a@ =~= b@);
    true
}

/// Parses bytes with terminal escapes into one styled line.
///
/// Where the parser fails the bytes are shown as lossy text: a garbled line is
/// better than a silent one.
pub fn parse_ansi_line(bytes: &[u8]) -> (r: Line)
    ensures
        r.runs() == ansi_line_runs(bytes@),
{
    let lossy = read_lossy(bytes);
    proof {
        encode_utf8_valid_utf8(lossy@);
        if valid_utf8(bytes@) {
            decode_utf8_encode_utf8(bytes@);
        }
    }
    if same_bytes(lossy.as_str().as_bytes(), bytes) {
        match parse_escapes(bytes) {
            Some(lines) => {
                return join_raw_lines(&lines);
            },
            None => {},
        }
    }
    join_plain(&cut_raw_text(lossy.as_str()))
}

/// The cells of a list of runs.
pub open spec fn cells_of_runs(runs: Seq<Run>) -> Cells
    decreases runs.len(),
{
    if runs.len() == 0 {
        Cells::none()
    } else {
        cells_of_runs(runs.drop_last()).followed_by(
            Cells::styled(runs.last().text, runs.last().style),
        )
    }
}

/// The cells of a line are those of its runs.
pub proof fn lemma_cells_of_runs(spans: Seq<Span>)
    ensures
        cells_of(spans) == cells_of_runs(runs_of(spans)),
    decreases spans.len(),
{
    if spans.len() > 0 {
        lemma_cells_of_runs(spans.drop_last());
        assert(runs_of(spans).drop_last() =~= runs_of(spans.drop_last()));
    }
}

/// Where a character of a span stands among the cells of the line.
pub proof fn lemma_cell_at(spans: Seq<Span>, i: int, j: int)
    requires
        0 <= i < spans.len(),
        0 <= j < spans[i].content@.len(),
    ensures
        cells_of(spans.take(i)).len() + j < cells_of(spans).len(),
        cells_of(spans).text[cells_of(spans.take(i)).len() + j] == spans[i].content@[j],
        cells_of(spans).styles[cells_of(spans.take(i)).len() + j] == spans[i].style,
    decreases spans.len(),
{
    lemma_cells_paired(spans);
    lemma_cells_paired(spans.drop_last());
    if i == spans.len() - 1 {
        assert(spans.take(i) =~= spans.drop_last());
    } else {
        lemma_cell_at(spans.drop_last(), i, j);
        assert(spans.drop_last().take(i) =~= spans.take(i));
    }
}

/// Each modifier has a bit of its own, so that none stands for another.
pub proof fn each_modifier_has_its_bit()
    ensures
        BOLD == 1 && DIM == 2 && ITALIC == 4 && UNDERLINED == 8 && SLOW_BLINK == 16 && REVERSED == 64
            && CROSSED_OUT == 256,
{
}

/// A style that is given bits has them and keeps its colors.
pub proof fn a_style_has_the_bits_it_is_given(style: Style, bits: u16)
    ensures
        style.with_bits(bits).fg == style.fg,
        style.with_bits(bits).bg == style.bg,
        style.with_bits(bits).add_modifier & bits == bits,
        style.with_bits(bits).sub_modifier & bits == 0,
        style.with_bits(bits).with_bits(bits) == style.with_bits(bits),
{
    let a = style.add_modifier;
    let b = style.sub_modifier;
    assert((a | bits) & bits == bits) by (bit_vector);
    assert((b & !bits) & bits == 0) by (bit_vector);
    assert((a | bits) | bits == a | bits) by (bit_vector);
    assert((b & !bits) & !bits == b & !bits) by (bit_vector);
}

/// Cells that follow others come after them, each with its style.
pub proof fn cells_follow_in_order(a: Cells, b: Cells, i: int)
    requires
        a.styles.len() == a.text.len(),
        b.styles.len() == b.text.len(),
    ensures
        a.followed_by(b).len() == a.len() + b.len(),
        0 <= i < a.len() ==> a.followed_by(b).text[i] == a.text[i] && a.followed_by(b).styles[i]
            == a.styles[i],
        0 <= i < b.len() ==> a.followed_by(b).text[a.len() + i] == b.text[i] && a.followed_by(
            b,
        ).styles[a.len() + i] == b.styles[i],
{
}

/// A hexadecimal digit is read by its value.
pub proof fn a_digit_is_read_by_its_value(ch: char)
    ensures
        '0' <= ch <= '9' ==> hex_value(ch) == ch as int - '0' as int,
        'A' <= ch <= 'F' ==> hex_value(ch) == ch as int - 'A' as int + 10,
        0 <= hex_value(ch) < 16,
{
}

/// A color written as six hexadecimal digits is read as those three numbers, two
/// digits each: red, green and blue.
pub proof fn a_color_is_read_as_it_is_written(name: Seq<char>)
    requires
        name.len() == 7,
        name[0] == '#',
    ensures
        color_named(name) == Color::Rgb(
            (hex_value(name[1]) * 16 + hex_value(name[2])) as u8,
            (hex_value(name[3]) * 16 + hex_value(name[4])) as u8,
            (hex_value(name[5]) * 16 + hex_value(name[6])) as u8,
        ),
{
    reveal_strlit("Black");
    reveal_strlit("Red");
    reveal_strlit("Green");
    reveal_strlit("Yellow");
    reveal_strlit("Blue");
    reveal_strlit("Magenta");
    reveal_strlit("Cyan");
    reveal_strlit("Gray");
    reveal_strlit("DarkGray");
    reveal_strlit("LightRed");
    reveal_strlit("LightGreen");
    reveal_strlit("LightYellow");
    reveal_strlit("LightBlue");
    reveal_strlit("LightMagenta");
    reveal_strlit("LightCyan");
    reveal_strlit("White");
    assert("Magenta"@[0] != '#');
    assert("Black"@.len() != 7 && "Red"@.len() != 7 && "Green"@.len() != 7 && "Yellow"@.len() != 7
        && "Blue"@.len() != 7 && "Cyan"@.len() != 7 && "Gray"@.len() != 7 && "DarkGray"@.len() != 7
        && "LightRed"@.len() != 7 && "LightGreen"@.len() != 7 && "LightYellow"@.len() != 7
        && "LightBlue"@.len() != 7 && "LightMagenta"@.len() != 7 && "LightCyan"@.len() != 7
        && "White"@.len() != 7);
}

} // verus!
