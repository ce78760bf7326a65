//! Texts taken apart: into lines, and without what surrounds them.

use vstd::prelude::*;
use crate::cli::format::slice_chars;

verus! {

/// What is taken away around a text.
#[derive(Clone, Copy, Debug, PartialEq, Eq, Structural)]
pub enum Trim {
    /// White space.
    Blanks,
    /// Double quotes.
    Quotes,
}

/// Whether `c` is white space: a blank, a control character from the
/// tabulator to the carriage return, the next line character, or one of the
/// spaces and separators beyond the Latin letters.
pub open spec fn is_white_space(c: char) -> bool {
    let code = c as int;
    ||| code == 0x20
    ||| 0x09 <= code <= 0x0d
    ||| code == 0x85
    ||| code == 0xa0
    ||| code == 0x1680
    ||| 0x2000 <= code <= 0x200a
    ||| code == 0x2028
    ||| code == 0x2029
    ||| code == 0x202f
    ||| code == 0x205f
    ||| code == 0x3000
}

/// Whether `c` is taken away.
pub open spec fn is_trimmed(kind: Trim, c: char) -> bool {
    match kind {
        Trim::Blanks => is_white_space(c),
        Trim::Quotes => c == '"',
    }
}

/// The place of the first character at or behind `from` that stays.
pub open spec fn lead_end(kind: Trim, text: Seq<char>, from: int) -> int
    decreases text.len() - from,
{
    if from < 0 || from >= text.len() {
        text.len() as int
    } else if !is_trimmed(kind, text[from]) {
        from
    } else {
        lead_end(kind, text, from + 1)
    }
}

/// The place behind the last character before `k` that stays.
pub open spec fn trail_start(kind: Trim, text: Seq<char>, k: int) -> int
    decreases k,
{
    if k <= 0 {
        0
    } else if !is_trimmed(kind, text[k - 1]) {
        k
    } else {
        trail_start(kind, text, k - 1)
    }
}

/// `text` without what is taken away at its start and at its end.
pub open spec fn trimmed(kind: Trim, text: Seq<char>) -> Seq<char> {
    let from = lead_end(kind, text, 0);
    let to = trail_start(kind, text, text.len() as int);
    if from >= to {
        Seq::empty()
    } else {
        text.subrange(from, to)
    }
}

/// Whether `c` is taken away.
pub fn trims(kind: Trim, c: char) -> (b: bool)
    ensures
        b == is_trimmed(kind, c),
{
    match kind {
        Trim::Blanks => {
            let code = c as u32;
            code == 0x20 || (0x09 <= code && code <= 0x0d) || code == 0x85 || code == 0xa0 || code
                == 0x1680 || (0x2000 <= code && code <= 0x200a) || code == 0x2028 || code == 0x2029
                || code == 0x202f || code == 0x205f || code == 0x3000
        },
        Trim::Quotes => c == '"',
    }
}

/// `text` without what is taken away at its start and at its end.
pub fn trim(kind: Trim, text: &Vec<char>) -> (out: Vec<char>)
    ensures
        out@ == trimmed(kind, text@),
{
    let count = text.len();
    let mut from: usize = 0;
    while from < count && trims(kind, text[from])
        invariant
            from <= count,
            count == text@.len(),
            lead_end(kind, text@, 0) == lead_end(kind, text@, from as int),
        decreases count - from,
    {
        from += 1;
    }
    let mut to: usize = count;
    while to > 0 && trims(kind, text[to - 1])
        invariant
            to <= count,
            count == text@.len(),
            trail_start(kind, text@, count as int) == trail_start(kind, text@, to as int),
        decreases to,
    {
        to -= 1;
    }
    if from >= to {
        Vec::new()
    } else {
        slice_chars(text, from, to)
    }
}

/// `line` without the carriage return at its end.
pub open spec fn without_cr(line: Seq<char>) -> Seq<char> {
    if line.len() > 0 && line.last() == '\r' {
        line.drop_last()
    } else {
        line
    }
}

/// The lines of the first `k` characters of `text`, the last of them still
/// open: a line feed closes a line, without the carriage return before it,
/// and opens the next; every other character goes to the open line.
pub open spec fn lines_open(text: Seq<char>, k: int) -> Seq<Seq<char>>
    decreases k,
{
    if k <= 0 {
        seq![Seq::empty()]
    } else {
        let before = lines_open(text, k - 1);
        if text[k - 1] == '\n' {
            before.drop_last().push(without_cr(before.last())).push(Seq::empty())
        } else {
            before.drop_last().push(before.last().push(text[k - 1]))
        }
    }
}

/// The lines of `text`: an open line at the end counts only if it holds
/// something.
pub open spec fn text_lines(text: Seq<char>) -> Seq<Seq<char>> {
    let all = lines_open(text, text.len() as int);
    if all.last().len() == 0 {
        all.drop_last()
    } else {
        all
    }
}

/// The texts of `lines`.
pub open spec fn lines_model(lines: Seq<Vec<char>>) -> Seq<Seq<char>> {
    Seq::new(lines.len(), |i: int| lines[i]@)
}

/// The lines of `text`.
pub fn split_lines(text: &Vec<char>) -> (lines: Vec<Vec<char>>)
    ensures
        lines_model(lines@) == text_lines(text@),
{
    let mut lines: Vec<Vec<char>> = Vec::new();
    let mut open: Vec<char> = Vec::new();
    let mut k: usize = 0;
    assert(lines_model(lines@).push(open@) =~= lines_open(text@, 0));
    while k < text.len()
        invariant
            k <= text@.len(),
            lines_open(text@, k as int) == lines_model(lines@).push(open@),
        decreases text@.len() - k,
    {
        let ghost before = lines_open(text@, k as int);
        let ghost closed = lines_model(lines@);
        assert(before.drop_last() =~= closed);
        assert(before.last() == open@);
        let c = text[k];
        if c == '\n' {
            let count = open.len();
            let line = if count > 0 && open[count - 1] == '\r' {
                slice_chars(&open, 0, count - 1)
            } else {
                slice_chars(&open, 0, count)
            };
            assert(line@ =~= without_cr(open@));
            lines.push(line);
            open = Vec::new();
            assert(lines_model(lines@) =~= closed.push(without_cr(before.last())));
            assert(lines_model(lines@).push(open@) =~= lines_open(text@, k + 1));
        } else {
            open.push(c);
            assert(lines_model(lines@).push(open@) =~= lines_open(text@, k + 1));
        }
        k += 1;
    }
    let ghost all = lines_open(text@, text@.len() as int);
    assert(all.last() == open@);
    assert(all.drop_last() =~= lines_model(lines@));
    if open.len() > 0 {
        lines.push(open);
        assert(lines_model(lines@) =~= all);
    }
    lines
}

} // verus!
