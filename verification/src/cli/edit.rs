//! Edits of the source text: how they are written on the command line, and
//! what they do to the text and to positions in it.
use vstd::prelude::*;
use vstd::string::StringSliceAdditionalSpecFns;
use crate::cli::error::{CliError, CliErrorModel};
use crate::cli::format::{slice_chars, spells, str_chars};

verus! {

/// A place in a text: a line and a column in it, both counted from zero, the
/// column in bytes.
#[derive(Clone, Copy, Debug, PartialEq, Eq, Structural)]
pub struct Point {
    pub row: usize,
    pub column: usize,
}

/// Whether `a` stands before `b`.
pub open spec fn point_lt(a: Point, b: Point) -> bool {
    a.row < b.row || (a.row == b.row && a.column < b.column)
}

impl Point {
    pub fn new(row: usize, column: usize) -> (p: Point)
        ensures
            p == (Point { row, column }),
    {
        Point { row, column }
    }

    /// Whether this point stands before `other`.
    pub fn precedes(&self, other: &Point) -> (b: bool)
        ensures
            b == point_lt(*self, *other),
    {
        self.row < other.row || (self.row == other.row && self.column < other.column)
    }
}

/// An edit: at the byte `position`, `deleted_length` bytes leave and
/// `inserted_text` comes in.
#[derive(Debug, PartialEq, Eq)]
pub struct Edit {
    pub position: usize,
    pub deleted_length: usize,
    pub inserted_text: Vec<u8>,
}

/// How many parses there were, and how many of them went well.
#[derive(Clone, Copy, Debug, Default, PartialEq, Eq)]
pub struct Stats {
    pub successful_parses: usize,
    pub total_parses: usize,
}

/// What an edit does to positions: where it starts, where what it deletes
/// ended, and where what it inserts ends, each as a byte offset and as a
/// point.
#[derive(Clone, Copy, Debug, PartialEq, Eq, Structural)]
pub struct EditPositions {
    pub start_byte: usize,
    pub old_end_byte: usize,
    pub new_end_byte: usize,
    pub start_position: Point,
    pub old_end_position: Point,
    pub new_end_position: Point,
}

/// The line and the column of the byte offset `offset` of `input`: every
/// line feed before the offset starts a line.
pub open spec fn position_at(input: Seq<u8>, offset: int) -> (int, int)
    decreases offset,
{
    if offset <= 0 {
        (0, 0)
    } else {
        let (row, column) = position_at(input, offset - 1);
        if input[offset - 1] == 10 {
            (row + 1, 0)
        } else {
            (row, column + 1)
        }
    }
}

pub proof fn lemma_position_bounded(input: Seq<u8>, offset: int)
    requires
        0 <= offset,
    ensures
        0 <= position_at(input, offset).0,
        0 <= position_at(input, offset).1,
        position_at(input, offset).0 + position_at(input, offset).1 <= offset,
    decreases offset,
{
    if offset > 0 {
        lemma_position_bounded(input, offset - 1);
    }
}

/// Whether the place `(row, column)` stands behind `p`.
pub open spec fn behind(place: (int, int), p: Point) -> bool {
    place.0 > p.row || (place.0 == p.row && place.1 > p.column)
}

/// The first byte offset at or behind `from` such that the place just behind
/// that byte stands behind `p`; the length of the input where there is none.
pub open spec fn offset_of(input: Seq<u8>, p: Point, from: int) -> int
    decreases input.len() - from,
{
    if from < 0 || from >= input.len() {
        input.len() as int
    } else if behind(position_at(input, from + 1), p) {
        from
    } else {
        offset_of(input, p, from + 1)
    }
}

/// The point of the byte offset `offset` of `input`.
pub fn position_for_offset(input: &Vec<u8>, offset: usize) -> (p: Point)
    requires
        offset <= input@.len(),
    ensures
        (p.row as int, p.column as int) == position_at(input@, offset as int),
{
    let mut row: usize = 0;
    let mut column: usize = 0;
    let mut i: usize = 0;
    while i < offset
        invariant
            i <= offset <= input@.len(),
            (row as int, column as int) == position_at(input@, i as int),
        decreases offset - i,
    {
        proof {
            lemma_position_bounded(input@, i as int);
        }
        if input[i] == 10 {
            row += 1;
            column = 0;
        } else {
            column += 1;
        }
        i += 1;
    }
    Point { row, column }
}

/// The byte offset of the point `position` in `input`: the first byte behind
/// which the place stands behind `position`, or the length of the input.
pub fn offset_for_position(input: &Vec<u8>, position: Point) -> (offset: usize)
    ensures
        offset as int == offset_of(input@, position, 0),
        offset <= input@.len(),
{
    let mut row: usize = 0;
    let mut column: usize = 0;
    let mut i: usize = 0;
    while i < input.len()
        invariant
            i <= input@.len(),
            (row as int, column as int) == position_at(input@, i as int),
            offset_of(input@, position, 0) == offset_of(input@, position, i as int),
        decreases input@.len() - i,
    {
        proof {
            lemma_position_bounded(input@, i as int);
        }
        if input[i] == 10 {
            row += 1;
            column = 0;
        } else {
            column += 1;
        }
        if row > position.row || (row == position.row && column > position.column) {
            return i;
        }
        i += 1;
    }
    input.len()
}

/// `buf` from the byte `i` on, with a line feed in place of each backslash
/// followed by `n`. A backslash followed by another byte stays with that
/// byte; a backslash at the end stays.
pub open spec fn unescaped(buf: Seq<u8>, i: int) -> Seq<u8>
    decreases buf.len() - i,
{
    if i < 0 || i >= buf.len() {
        Seq::empty()
    } else if buf[i] == 92 && i + 1 < buf.len() {
        if buf[i + 1] == 110 {
            seq![10u8] + unescaped(buf, i + 2)
        } else {
            seq![92u8, buf[i + 1]] + unescaped(buf, i + 2)
        }
    } else {
        seq![buf[i]] + unescaped(buf, i + 1)
    }
}

/// `buf` with a line feed in place of each backslash followed by `n`.
pub fn unescape_lf(buf: &[u8]) -> (out: Vec<u8>)
    ensures
        out@ == unescaped(buf@, 0),
{
    let mut out: Vec<u8> = Vec::new();
    let len = buf.len();
    let mut i: usize = 0;
    assert(out@ + unescaped(buf@, 0) =~= unescaped(buf@, 0));
    while i < len
        invariant
            i <= len,
            len == buf@.len(),
            out@ + unescaped(buf@, i as int) == unescaped(buf@, 0),
        decreases len - i,
    {
        let ghost before = out@;
        let c = buf[i];
        if c == 92 && len - i > 1 {
            let next = buf[i + 1];
            if next == 110 {
                out.push(10);
                assert(out@ + unescaped(buf@, i + 2) =~= before + unescaped(buf@, i as int));
            } else {
                out.push(92);
                out.push(next);
                assert(out@ + unescaped(buf@, i + 2) =~= before + unescaped(buf@, i as int));
            }
            i += 2;
        } else {
            out.push(c);
            assert(out@ + unescaped(buf@, i + 1) =~= before + unescaped(buf@, i as int));
            i += 1;
        }
    }
    assert(out@ + unescaped(buf@, len as int) =~= out@);
    out
}

/// The number that the digit `c` stands for, if `c` is a digit.
pub open spec fn digit_value(c: char) -> Option<int> {
    if 48 <= c as int <= 57 {
        Some(c as int - 48)
    } else {
        None
    }
}

/// The number that the first `k` of `digits` write in base ten, if they are
/// digits and the number fits a `usize`.
pub open spec fn digits_value(digits: Seq<char>, k: int) -> Option<int>
    decreases k,
{
    if k <= 0 {
        Some(0)
    } else {
        match digits_value(digits, k - 1) {
            None => None,
            Some(n) => match digit_value(digits[k - 1]) {
                None => None,
                Some(d) => if n * 10 + d <= usize::MAX {
                    Some(n * 10 + d)
                } else {
                    None
                },
            },
        }
    }
}

/// The number that `text` writes: digits in base ten, with or without a
/// plus sign before them; nothing where there is no digit, where another
/// character stands, or where the number does not fit.
pub open spec fn number_of(text: Seq<char>) -> Option<int> {
    let digits = if text.len() > 0 && text[0] == '+' {
        text.skip(1)
    } else {
        text
    };
    if digits.len() == 0 {
        None
    } else {
        digits_value(digits, digits.len() as int)
    }
}

pub proof fn lemma_digits_failure_stays(digits: Seq<char>, k: int, m: int)
    requires
        0 <= k <= m,
        digits_value(digits, k) is None,
    ensures
        digits_value(digits, m) is None,
    decreases m - k,
{
    if k < m {
        lemma_digits_failure_stays(digits, k, m - 1);
    }
}

/// The code point of `c`.
fn char_code(c: char) -> (code: u32)
    ensures
        code as int == c as int,
{
    c as u32
}

/// The number that the characters `text` write.
pub fn parse_number(text: &Vec<char>) -> (r: Option<usize>)
    ensures
        match number_of(text@) {
            Some(n) => r == Some(n as usize) && 0 <= n <= usize::MAX,
            None => r is None,
        },
{
    let start: usize = if text.len() > 0 && text[0] == '+' {
        1
    } else {
        0
    };
    let digits = slice_chars(text, start, text.len());
    assert(digits@ =~= if text@.len() > 0 && text@[0] == '+' {
        text@.skip(1)
    } else {
        text@
    });
    if digits.len() == 0 {
        return None;
    }
    let mut n: usize = 0;
    let mut k: usize = 0;
    while k < digits.len()
        invariant
            k <= digits@.len(),
            digits@.len() > 0,
            number_of(text@) == digits_value(digits@, digits@.len() as int),
            digits_value(digits@, k as int) == Some(n as int),
        decreases digits@.len() - k,
    {
        let c: char = digits[k];
        let code = char_code(c);
        if code < 48 || code > 57 {
            proof {
                assert(digit_value(c) is None);
                assert(digits_value(digits@, k + 1) is None);
                lemma_digits_failure_stays(digits@, k + 1, digits@.len() as int);
            }
            return None;
        }
        let d = (code - 48) as usize;
        assert(digit_value(c) == Some(d as int));
        if n > (usize::MAX - d) / 10 {
            proof {
                assert(n * 10 + d > usize::MAX) by (nonlinear_arith)
                    requires
                        n > (usize::MAX - d) / 10,
                        d <= 9,
                ;
                assert(digits_value(digits@, k + 1) is None);
                lemma_digits_failure_stays(digits@, k + 1, digits@.len() as int);
            }
            return None;
        }
        assert(n * 10 + d <= usize::MAX) by (nonlinear_arith)
            requires
                n <= (usize::MAX - d) / 10,
                d <= 9,
        ;
        n = n * 10 + d;
        k += 1;
    }
    Some(n)
}

/// The place of the first `sep` in `text` at or behind `from`; the length of
/// the text where there is none.
pub open spec fn separator_at(text: Seq<char>, sep: char, from: int) -> int
    decreases text.len() - from,
{
    if from < 0 || from >= text.len() {
        text.len() as int
    } else if text[from] == sep {
        from
    } else {
        separator_at(text, sep, from + 1)
    }
}

/// The place of the first `sep` in `text` at or behind `from`.
pub fn find_separator(text: &Vec<char>, sep: char, from: usize) -> (at: usize)
    requires
        from <= text@.len(),
    ensures
        at as int == separator_at(text@, sep, from as int),
        from <= at <= text@.len(),
{
    let mut i = from;
    while i < text.len() && text[i] != sep
        invariant
            from <= i <= text@.len(),
            separator_at(text@, sep, from as int) == separator_at(text@, sep, i as int),
        decreases text@.len() - i,
    {
        i += 1;
    }
    i
}

/// The point that `text` writes as a line and a column with `sep` between
/// them; what follows a second `sep` is not read.
pub open spec fn point_of(text: Seq<char>, sep: char) -> Option<(int, int)> {
    let first = separator_at(text, sep, 0);
    if first >= text.len() {
        None
    } else {
        let second = separator_at(text, sep, first + 1);
        match number_of(text.subrange(0, first)) {
            None => None,
            Some(row) => match number_of(text.subrange(first + 1, second)) {
                None => None,
                Some(column) => Some((row, column)),
            },
        }
    }
}

/// The byte offset that `position` names in `source`: a line and a column
/// with a comma or a colon between them, a dollar sign for the end, or a
/// number of bytes.
pub open spec fn edit_position(source: Seq<u8>, position: Seq<char>) -> Option<int> {
    if separator_at(position, ',', 0) < position.len() {
        match point_of(position, ',') {
            Some((row, column)) => Some(
                offset_of(source, Point { row: row as usize, column: column as usize }, 0),
            ),
            None => None,
        }
    } else if separator_at(position, ':', 0) < position.len() {
        match point_of(position, ':') {
            Some((row, column)) => Some(
                offset_of(source, Point { row: row as usize, column: column as usize }, 0),
            ),
            None => None,
        }
    } else if position == "$"@ {
        Some(source.len() as int)
    } else {
        number_of(position)
    }
}

/// The edit that the three texts describe, if they describe one.
pub open spec fn edit_of(
    source: Seq<u8>,
    position: Seq<char>,
    deleted_length: Seq<char>,
    inserted_bytes: Seq<u8>,
) -> Option<(int, int, Seq<u8>)> {
    match edit_position(source, position) {
        None => None,
        Some(at) => match number_of(deleted_length) {
            None => None,
            Some(deleted) => Some((at, deleted, unescaped(inserted_bytes, 0))),
        },
    }
}

/// The point that `text` writes with `sep` between line and column.
fn parse_point(text: &Vec<char>, sep: char) -> (r: Option<Point>)
    ensures
        match point_of(text@, sep) {
            Some((row, column)) => r == Some(Point { row: row as usize, column: column as usize })
                && 0 <= row <= usize::MAX && 0 <= column <= usize::MAX,
            None => r is None,
        },
{
    let first = find_separator(text, sep, 0);
    if first >= text.len() {
        return None;
    }
    let second = find_separator(text, sep, first + 1);
    let row = match parse_number(&slice_chars(text, 0, first)) {
        Some(row) => row,
        None => {
            return None;
        },
    };
    let column = match parse_number(&slice_chars(text, first + 1, second)) {
        Some(column) => column,
        None => {
            return None;
        },
    };
    Some(Point { row, column })
}

/// The byte offset that `position` names in `source`.
fn parse_edit_position(source_code: &Vec<u8>, position: &Vec<char>) -> (r: Option<usize>)
    ensures
        match edit_position(source_code@, position@) {
            Some(at) => r == Some(at as usize) && 0 <= at <= usize::MAX,
            None => r is None,
        },
{
    if find_separator(position, ',', 0) < position.len() {
        match parse_point(position, ',') {
            Some(point) => Some(offset_for_position(source_code, point)),
            None => None,
        }
    } else if find_separator(position, ':', 0) < position.len() {
        match parse_point(position, ':') {
            Some(point) => Some(offset_for_position(source_code, point)),
            None => None,
        }
    } else if spells(position, "$") {
        Some(source_code.len())
    } else {
        parse_number(position)
    }
}

/// The edit of `source_code` that the three texts describe: where it
/// happens, how many bytes it deletes, and the text it inserts, in which a
/// backslash followed by `n` stands for a line feed.
pub fn create_edit(
    source_code: &Vec<u8>,
    position: &str,
    deleted_length: &str,
    inserted_text: &str,
) -> (r: Result<Edit, CliError>)
    ensures
        match edit_of(source_code@, position@, deleted_length@, inserted_text.spec_bytes()) {
            Some((at, deleted, inserted)) => r matches Ok(edit) && edit.position == at
                && edit.deleted_length == deleted && edit.inserted_text@ == inserted,
            None => r matches Err(e) && e@ == (CliErrorModel::InvalidEdit {
                position: position@,
                deleted_length: deleted_length@,
                inserted_text: inserted_text@,
            }),
        },
{
    let at = parse_edit_position(source_code, &str_chars(position));
    let deleted = parse_number(&str_chars(deleted_length));
    match (at, deleted) {
        (Some(at), Some(deleted)) => Ok(
            Edit {
                position: at,
                deleted_length: deleted,
                inserted_text: unescape_lf(inserted_text.as_bytes()),
            },
        ),
        _ => Err(
            CliError::InvalidEdit {
                position: position.to_owned(),
                deleted_length: deleted_length.to_owned(),
                inserted_text: inserted_text.to_owned(),
            },
        ),
    }
}

/// The text `input` with the bytes that `edit` deletes replaced by those it
/// inserts.
pub open spec fn edited(input: Seq<u8>, position: int, deleted: int, inserted: Seq<u8>) -> Seq<u8> {
    input.take(position) + inserted + input.skip(position + deleted)
}

/// Carries out `edit` on `input` and returns what it does to positions. The
/// bytes that the edit deletes lie in the input.
pub fn perform_edit(input: &mut Vec<u8>, edit: &Edit) -> (positions: EditPositions)
    requires
        edit.position + edit.deleted_length <= old(input)@.len(),
        old(input)@.len() - edit.deleted_length + edit.inserted_text@.len() <= usize::MAX,
    ensures
        final(input)@ == edited(
            old(input)@,
            edit.position as int,
            edit.deleted_length as int,
            edit.inserted_text@,
        ),
        positions.start_byte == edit.position,
        positions.old_end_byte == edit.position + edit.deleted_length,
        positions.new_end_byte == edit.position + edit.inserted_text@.len(),
        (positions.start_position.row as int, positions.start_position.column as int)
            == position_at(old(input)@, edit.position as int),
        (positions.old_end_position.row as int, positions.old_end_position.column as int)
            == position_at(old(input)@, edit.position + edit.deleted_length),
        (positions.new_end_position.row as int, positions.new_end_position.column as int)
            == position_at(final(input)@, edit.position + edit.inserted_text@.len()),
{
    let length = input.len();
    let start_byte = edit.position;
    let old_end_byte = edit.position + edit.deleted_length;
    let new_end_byte = edit.position + edit.inserted_text.len();
    let start_position = position_for_offset(input, start_byte);
    let old_end_position = position_for_offset(input, old_end_byte);
    let mut out: Vec<u8> = Vec::new();
    let mut i: usize = 0;
    while i < start_byte
        invariant
            i <= start_byte <= input@.len(),
            input@ == old(input)@,
            out@ == input@.take(i as int),
        decreases start_byte - i,
    {
        out.push(input[i]);
        assert(out@ =~= input@.take(i + 1));
        i += 1;
    }
    let mut j: usize = 0;
    while j < edit.inserted_text.len()
        invariant
            j <= edit.inserted_text@.len(),
            input@ == old(input)@,
            out@ == input@.take(start_byte as int) + edit.inserted_text@.take(j as int),
        decreases edit.inserted_text@.len() - j,
    {
        out.push(edit.inserted_text[j]);
        assert(out@ =~= input@.take(start_byte as int) + edit.inserted_text@.take(j + 1));
        j += 1;
    }
    assert(edit.inserted_text@.take(edit.inserted_text@.len() as int) =~= edit.inserted_text@);
    let mut k: usize = old_end_byte;
    while k < input.len()
        invariant
            old_end_byte <= k <= input@.len(),
            input@ == old(input)@,
            out@ == input@.take(start_byte as int) + edit.inserted_text@ + input@.subrange(
                old_end_byte as int,
                k as int,
            ),
        decreases input@.len() - k,
    {
        out.push(input[k]);
        assert(out@ =~= input@.take(start_byte as int) + edit.inserted_text@ + input@.subrange(
            old_end_byte as int,
            k + 1,
        ));
        k += 1;
    }
    assert(input@.subrange(old_end_byte as int, input@.len() as int) =~= input@.skip(
        old_end_byte as int,
    ));
    *input = out;
    let new_end_position = position_for_offset(input, new_end_byte);
    EditPositions {
        start_byte,
        old_end_byte,
        new_end_byte,
        start_position,
        old_end_position,
        new_end_position,
    }
}

} // verus!
