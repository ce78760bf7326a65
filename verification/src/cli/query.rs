//! The lines that show the captures of a query.

use vstd::prelude::*;
use vstd::string::StringSliceAdditionalSpecFns;
use crate::cli::edit::{find_separator, separator_at, Point};
use crate::cli::format::{slice_chars, str_chars};
use crate::cli::layout::{
    format_pos, number_left, number_right, push_number_left, push_number_right, span_text,
};
use crate::cli::report::{padded_left, push_padded_left};
use crate::cli::style::{prefix_text, push_prefix, push_suffix, suffix_text, Colors, Paint};
use crate::text::{decimal, decimal_digits, push_chars, push_decimal, push_text};

verus! {

/// A capture of a query: the pattern that matched, the capture with its
/// index and name, where the captured node lies, and its text.
#[derive(Debug)]
pub struct Capture {
    pub pattern_index: usize,
    pub capture_index: u32,
    pub name: String,
    pub start: Point,
    pub end: Point,
    pub text: String,
}

pub struct CaptureModel {
    pub pattern_index: int,
    pub capture_index: int,
    pub name: Seq<char>,
    pub start: Point,
    pub end: Point,
    pub text: Seq<char>,
}

impl View for Capture {
    type V = CaptureModel;

    open spec fn view(&self) -> CaptureModel {
        CaptureModel {
            pattern_index: self.pattern_index as int,
            capture_index: self.capture_index as int,
            name: self.name@,
            start: self.start,
            end: self.end,
            text: self.text@,
        }
    }
}

/// The greatest length in bytes among the first `k` names.
pub open spec fn longest_name(names: Seq<Seq<char>>, k: int) -> int
    decreases k,
{
    if k <= 0 {
        0
    } else {
        let before = longest_name(names, k - 1);
        let this = vstd::utf8::encode_utf8(names[k - 1]).len() as int;
        if this > before {
            this
        } else {
            before
        }
    }
}

/// The names of `names`.
pub open spec fn names_model(names: Seq<String>) -> Seq<Seq<char>> {
    Seq::new(names.len(), |i: int| names[i]@)
}

/// The length in bytes of the longest name of a capture.
pub fn max_capture_name_len(names: &Vec<String>) -> (width: usize)
    ensures
        width as int == longest_name(names_model(names@), names@.len() as int),
{
    let mut width: usize = 0;
    let mut k: usize = 0;
    while k < names.len()
        invariant
            k <= names@.len(),
            width as int == longest_name(names_model(names@), k as int),
        decreases names@.len() - k,
    {
        let this = names[k].as_str().as_bytes().len();
        assert(names_model(names@)[k as int] == names@[k as int]@);
        if this > width {
            width = this;
        }
        k += 1;
    }
    width
}

/// How often `needle` stands among the first `k` bytes of `haystack`.
pub open spec fn occurrences(haystack: Seq<u8>, needle: u8, k: int) -> int
    decreases k,
{
    if k <= 0 {
        0
    } else {
        occurrences(haystack, needle, k - 1) + if haystack[k - 1] == needle {
            1int
        } else {
            0int
        }
    }
}

/// Has `bytecount::count` count a byte in a slice: as its documentation
/// says, the result is the number of times the byte occurs in the slice.
#[verifier::external_body]
fn count_byte(haystack: &[u8], needle: u8) -> (count: usize)
    ensures
        count as int == occurrences(haystack@, needle, haystack@.len() as int),
{
    bytecount::count(haystack, needle)
}

/// The number of line feeds in `source_code`.
pub fn count_line_feeds(source_code: &[u8]) -> (count: usize)
    ensures
        count as int == occurrences(source_code@, 10u8, source_code@.len() as int),
{
    count_byte(source_code, 10u8)
}

/// The width that positions are given in a text of `lines_count` lines: that
/// of a span whose lines have as many digits as the number of lines and
/// whose columns have three.
pub open spec fn position_width(lines_count: nat) -> int {
    2 * (decimal(lines_count).len() as int) + 11
}

/// The width that positions are given in a text of `lines_count` lines.
pub fn pos_align(lines_count: usize) -> (width: usize)
    ensures
        width as int == position_width(lines_count as nat),
{
    let digits = decimal_digits(lines_count as u64);
    let count = digits.len();
    proof {
        crate::text::lemma_decimal_is_short(lines_count as nat);
    }
    2 * count + 11
}

/// The first line of `text`: what stands before its first line feed, without
/// a carriage return that stands directly before that line feed.
pub open spec fn first_text_line(text: Seq<char>) -> Seq<char> {
    let at = separator_at(text, '\n', 0);
    if 0 < at < text.len() && text[at - 1] == '\r' {
        text.take(at - 1)
    } else {
        text.take(at)
    }
}

/// The first line of `text`.
pub fn first_line_of(text: &Vec<char>) -> (line: Vec<char>)
    ensures
        line@ == first_text_line(text@),
{
    let at = find_separator(text, '\n', 0);
    let line = if 0 < at && at < text.len() && text[at - 1] == '\r' {
        slice_chars(text, 0, at - 1)
    } else {
        slice_chars(text, 0, at)
    };
    assert(line@ =~= first_text_line(text@));
    line
}

/// The text of a capture as it is shown: between backticks, and, for a
/// capture that spans lines, its first line only, with three dots behind it.
pub open spec fn shown_capture_text(colors: Colors, text: Seq<char>, multiline: bool) -> Seq<char> {
    prefix_text(colors.backtick) + "`"@ + prefix_text(colors.text) + (if multiline {
        first_text_line(text)
    } else {
        text
    }) + prefix_text(colors.backtick) + "`"@ + suffix_text() + if multiline {
        "..."@
    } else {
        Seq::empty()
    }
}

/// Appends the text of a capture as it is shown.
fn push_shown_capture(out: &mut String, colors: &Colors, text: &str, multiline: bool)
    ensures
        final(out)@ == old(out)@ + shown_capture_text(*colors, text@, multiline),
{
    push_prefix(out, &colors.backtick);
    push_text(out, "`");
    push_prefix(out, &colors.text);
    let ghost first = out@;
    assert(first =~= old(out)@ + (prefix_text(colors.backtick) + "`"@ + prefix_text(colors.text)));
    if multiline {
        let line = first_line_of(&str_chars(text));
        push_chars(out, &line);
    } else {
        push_text(out, text);
    }
    let ghost second = out@;
    push_prefix(out, &colors.backtick);
    push_text(out, "`");
    push_suffix(out, &colors.backtick);
    let ghost third = out@;
    assert(third =~= second + (prefix_text(colors.backtick) + "`"@ + suffix_text()));
    if multiline {
        push_text(out, "...");
    } else {
        assert(out@ =~= third + Seq::<char>::empty());
    }
    assert(out@ =~= old(out)@ + shown_capture_text(*colors, text@, multiline));
}

/// How the pattern and the capture are numbered in a line: the index of the
/// pattern in `paint`, right in `width` places, a colon, and the index of the
/// capture, left in three places.
pub open spec fn indices_text(
    colors: Colors,
    paint: Paint,
    width: int,
    pattern_index: int,
    capture_index: int,
) -> Seq<char> {
    prefix_text(paint) + number_right(pattern_index as nat, width) + prefix_text(colors.text)
        + ":"@ + prefix_text(colors.nonterm) + number_left(capture_index as nat, 3)
}

/// Appends how the pattern and the capture are numbered.
fn push_indices(
    out: &mut String,
    colors: &Colors,
    paint: &Paint,
    width: usize,
    pattern_index: usize,
    capture_index: u32,
)
    ensures
        final(out)@ == old(out)@ + indices_text(
            *colors,
            *paint,
            width as int,
            pattern_index as int,
            capture_index as int,
        ),
{
    push_prefix(out, paint);
    push_number_right(out, pattern_index, width);
    push_prefix(out, &colors.text);
    let ghost first = out@;
    assert(first =~= old(out)@ + (prefix_text(*paint) + number_right(
        pattern_index as nat,
        width as int,
    ) + prefix_text(colors.text)));
    push_text(out, ":");
    push_prefix(out, &colors.nonterm);
    push_number_left(out, capture_index as usize, 3);
    assert(out@ =~= first + (":"@ + prefix_text(colors.nonterm) + number_left(
        capture_index as nat,
        3,
    )));
    assert(out@ =~= old(out)@ + indices_text(
        *colors,
        *paint,
        width as int,
        pattern_index as int,
        capture_index as int,
    ));
}

/// How a capture is laid out in its line.
#[derive(Clone, Copy, Debug, PartialEq, Eq, Structural)]
pub struct RowLayout {
    /// The width of the position.
    pub pos_align: usize,
    /// The paint of the index of the pattern.
    pub pattern_paint: Paint,
    /// The width of the index of the pattern.
    pub pattern_width: usize,
    /// Whether a blank stands before the name of the capture.
    pub name_pad: bool,
    /// The width of the name of the capture, with the blank before it.
    pub name_width: usize,
}

/// The name of a capture as it is shown: with a blank before it where the
/// layout asks for one, and at least as wide as the layout says.
pub open spec fn shown_name(layout: RowLayout, name: Seq<char>) -> Seq<char> {
    padded_left(
        (if layout.name_pad {
            " "@
        } else {
            Seq::empty()
        }) + name,
        layout.name_width as int,
    )
}

/// The paint of a position: the first paint of positions where it starts on
/// another line than the one seen last, the second otherwise.
pub open spec fn position_paint(colors: Colors, start: Point, last_row: int) -> Paint {
    if start.row != last_row {
        colors.pos1
    } else {
        colors.pos2
    }
}

/// The start of the line for a capture: its position in its paint, as wide
/// as the layout says.
pub open spec fn row_position_text(
    colors: Colors,
    layout: RowLayout,
    capture: CaptureModel,
    last_row: int,
) -> Seq<char> {
    prefix_text(position_paint(colors, capture.start, last_row)) + padded_left(
        span_text(capture.start, capture.end, 3, false),
        layout.pos_align as int,
    )
}

/// The indices of the pattern and of the capture in the line for a capture.
pub open spec fn row_indices_text(colors: Colors, layout: RowLayout, capture: CaptureModel) -> Seq<
    char,
> {
    " "@ + indices_text(
        colors,
        layout.pattern_paint,
        layout.pattern_width as int,
        capture.pattern_index,
        capture.capture_index,
    )
}

/// The name of the capture in the line for a capture, in the paint of bytes.
pub open spec fn row_name_text(colors: Colors, layout: RowLayout, capture: CaptureModel) -> Seq<
    char,
> {
    " "@ + prefix_text(colors.bytes) + shown_name(layout, capture.name)
}

/// The end of the line for a capture: its text, of which the first line
/// only is shown where the capture ends on a later line than it starts.
pub open spec fn row_capture_text(colors: Colors, capture: CaptureModel) -> Seq<char> {
    " "@ + shown_capture_text(colors, capture.text, capture.end.row > capture.start.row) + "\n"@
}

/// The line for a capture: its position, the indices of the pattern and of
/// the capture, the name of the capture, and its text.
pub open spec fn capture_row_text(
    colors: Colors,
    layout: RowLayout,
    capture: CaptureModel,
    last_row: int,
) -> Seq<char> {
    row_position_text(colors, layout, capture, last_row) + row_indices_text(
        colors,
        layout,
        capture,
    ) + row_name_text(colors, layout, capture) + row_capture_text(colors, capture)
}

/// Appends the name of a capture as it is shown.
fn push_shown_name(out: &mut String, layout: &RowLayout, name: &str)
    ensures
        final(out)@ == old(out)@ + shown_name(*layout, name@),
{
    let mut padded = String::new();
    if layout.name_pad {
        push_text(&mut padded, " ");
    }
    push_text(&mut padded, name);
    assert(padded@ =~= (if layout.name_pad {
        " "@
    } else {
        Seq::empty()
    }) + name@);
    push_padded_left(out, padded.as_str(), layout.name_width);
}

/// Appends the start of the line for a capture.
fn push_row_position(
    out: &mut String,
    colors: &Colors,
    layout: &RowLayout,
    capture: &Capture,
    last_row: &mut usize,
)
    ensures
        final(out)@ == old(out)@ + row_position_text(
            *colors,
            *layout,
            capture@,
            *old(last_row) as int,
        ),
        *final(last_row) == capture.start.row,
{
    let (position, paint, multiline) = format_pos(capture.start, capture.end, last_row, colors);
    push_prefix(out, &paint);
    push_padded_left(out, position.as_str(), layout.pos_align);
    assert(out@ =~= old(out)@ + (prefix_text(paint) + padded_left(
        span_text(capture.start, capture.end, 3, false),
        layout.pos_align as int,
    )));
}

/// Appends the indices in the line for a capture.
fn push_row_indices(out: &mut String, colors: &Colors, layout: &RowLayout, capture: &Capture)
    ensures
        final(out)@ == old(out)@ + row_indices_text(*colors, *layout, capture@),
{
    push_text(out, " ");
    push_indices(
        out,
        colors,
        &layout.pattern_paint,
        layout.pattern_width,
        capture.pattern_index,
        capture.capture_index,
    );
    assert(out@ =~= old(out)@ + row_indices_text(*colors, *layout, capture@));
}

/// Appends the name in the line for a capture.
fn push_row_name(out: &mut String, colors: &Colors, layout: &RowLayout, capture: &Capture)
    ensures
        final(out)@ == old(out)@ + row_name_text(*colors, *layout, capture@),
{
    push_text(out, " ");
    push_prefix(out, &colors.bytes);
    push_shown_name(out, layout, capture.name.as_str());
    assert(out@ =~= old(out)@ + row_name_text(*colors, *layout, capture@));
}

/// Appends the end of the line for a capture.
fn push_row_capture(out: &mut String, colors: &Colors, capture: &Capture)
    ensures
        final(out)@ == old(out)@ + row_capture_text(*colors, capture@),
{
    push_text(out, " ");
    push_shown_capture(out, colors, capture.text.as_str(), capture.end.row > capture.start.row);
    push_text(out, "\n");
    assert(out@ =~= old(out)@ + row_capture_text(*colors, capture@));
}

/// Appends the line for a capture, and notes the line on which it starts.
pub fn push_capture_row(
    out: &mut String,
    colors: &Colors,
    layout: &RowLayout,
    capture: &Capture,
    last_row: &mut usize,
)
    ensures
        final(out)@ == old(out)@ + capture_row_text(
            *colors,
            *layout,
            capture@,
            *old(last_row) as int,
        ),
        *final(last_row) == capture.start.row,
{
    push_row_position(out, colors, layout, capture, last_row);
    let ghost a = out@;
    push_row_indices(out, colors, layout, capture);
    let ghost b = out@;
    push_row_name(out, colors, layout, capture);
    let ghost c = out@;
    push_row_capture(out, colors, capture);
    proof {
        let part_a = row_position_text(*colors, *layout, capture@, *old(last_row) as int);
        let part_b = row_indices_text(*colors, *layout, capture@);
        let part_c = row_name_text(*colors, *layout, capture@);
        let part_d = row_capture_text(*colors, capture@);
        assert(a == old(out)@ + part_a);
        assert(b == a + part_b);
        assert(c == b + part_c);
        assert(out@ == c + part_d);
        assert((((old(out)@ + part_a) + part_b) + part_c) + part_d =~= old(out)@ + (part_a + part_b + part_c + part_d));
    }
}

/// The layout of a capture among all captures in their order: the index of
/// the pattern in the paint of fields, two places wide, and the name as wide
/// as the longest.
pub fn ordered_layout(colors: &Colors, pos_align: usize, max_capture_name_len: usize) -> (layout:
    RowLayout)
    ensures
        layout == (RowLayout {
            pos_align,
            pattern_paint: colors.field,
            pattern_width: 2,
            name_pad: false,
            name_width: max_capture_name_len,
        }),
{
    RowLayout {
        pos_align,
        pattern_paint: colors.field,
        pattern_width: 2,
        name_pad: false,
        name_width: max_capture_name_len,
    }
}

/// The layout of a capture within its match: the index of the pattern three
/// places wide, in the paint of fields for the first capture that is shown
/// and in the second paint of positions for the others, whose names stand
/// one blank further in; the name one wider than the longest, if that fits.
pub fn match_layout(colors: &Colors, pos_align: usize, max_capture_name_len: usize, first: bool) -> (layout:
    RowLayout)
    requires
        max_capture_name_len < usize::MAX,
    ensures
        layout == (RowLayout {
            pos_align,
            pattern_paint: if first {
                colors.field
            } else {
                colors.pos2
            },
            pattern_width: 3,
            name_pad: !first,
            name_width: (max_capture_name_len + 1) as usize,
        }),
{
    RowLayout {
        pos_align,
        pattern_paint: if first {
            colors.field
        } else {
            colors.pos2
        },
        pattern_width: 3,
        name_pad: !first,
        name_width: max_capture_name_len + 1,
    }
}

/// What is said of a match without captures.
pub open spec fn hidden_match_text(id: nat) -> Seq<char> {
    "Hidden match with id: "@ + decimal(id)
        + "\nYou need to specify al least one capture to have an output for it\n"@
}

/// The matches without captures that have been spoken of, by their ids.
pub struct HiddenMatches {
    pub seen: Vec<u32>,
}

impl HiddenMatches {
    /// No match has been spoken of.
    pub fn new() -> (r: HiddenMatches)
        ensures
            r.seen@.len() == 0,
    {
        HiddenMatches { seen: Vec::new() }
    }

    /// Notes the match `id`. Returns what is to be said of it: something the
    /// first time, nothing from then on.
    pub fn note(&mut self, id: u32) -> (said: Option<String>)
        ensures
            old(self).seen@.contains(id) ==> said is None && final(self).seen@ == old(self).seen@,
            !old(self).seen@.contains(id) ==> final(self).seen@ == old(self).seen@.push(id) && (
            said matches Some(text) && text@ == hidden_match_text(id as nat)),
    {
        let mut k: usize = 0;
        while k < self.seen.len()
            invariant
                k <= self.seen@.len(),
                self.seen@ == old(self).seen@,
                forall|j: int| 0 <= j < k ==> self.seen@[j] != id,
            decreases self.seen@.len() - k,
        {
            if self.seen[k] == id {
                return None;
            }
            k += 1;
        }
        assert(!old(self).seen@.contains(id));
        self.seen.push(id);
        let mut text = String::new();
        push_text(&mut text, "Hidden match with id: ");
        push_decimal(&mut text, id as usize);
        push_text(&mut text, "\nYou need to specify al least one capture to have an output for it\n");
        assert(text@ =~= hidden_match_text(id as nat));
        Some(text)
    }
}

} // verus!
