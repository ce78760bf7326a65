//! The lines that report on a parse and on the captures of a query.

use vstd::prelude::*;
use vstd::string::StringSliceAdditionalSpecFns;
use crate::cli::cst::{NodeInfo, NodeInfoModel};
use crate::cli::edit::{find_separator, separator_at, Point};
use crate::cli::format::{slice_chars, str_chars};
use crate::cli::layout::{
    number_left, number_right, push_number_left, push_number_right, push_spaces, push_span,
    span_text, spaces,
};
use crate::cli::style::{prefix_text, push_prefix, push_suffix, suffix_text, Colors, Paint};
use crate::text::{decimal, decimal_digits, push_chars, push_decimal, push_text};

verus! {

/// `text` with blanks behind it up to the width `width`.
pub open spec fn padded_left(text: Seq<char>, width: int) -> Seq<char> {
    text + spaces(width - text.len())
}

/// Appends `text` with blanks behind it up to the width `width`.
pub fn push_padded_left(out: &mut String, text: &str, width: usize)
    ensures
        final(out)@ == old(out)@ + padded_left(text@, width as int),
{
    let count = text.unicode_len();
    push_text(out, text);
    if count < width {
        push_spaces(out, width - count);
    } else {
        assert(spaces(width - text@.len()) =~= Seq::<char>::empty());
    }
    assert(out@ =~= old(out)@ + padded_left(text@, width as int));
}

/// The first `k` characters of `kind` with each line feed written as a
/// backslash and the letter `n`.
pub open spec fn line_feeds_written(kind: Seq<char>, k: int) -> Seq<char>
    decreases k,
{
    if k <= 0 {
        Seq::empty()
    } else {
        line_feeds_written(kind, k - 1) + if kind[k - 1] == '\n' {
            "\\n"@
        } else {
            seq![kind[k - 1]]
        }
    }
}

/// How the node with the first error is named: its kind, and before it, for
/// a missing node, the word `MISSING`; the kind of a missing anonymous node
/// stands between quotes with its line feeds written out.
pub open spec fn error_name_text(node: NodeInfoModel) -> Seq<char> {
    if node.is_missing {
        if node.is_named {
            "MISSING "@ + node.kind
        } else {
            "MISSING \""@ + line_feeds_written(node.kind, node.kind.len() as int) + "\""@
        }
    } else {
        node.kind
    }
}

/// Where a node lies: line and column of its start and of its end, each pair
/// between square brackets.
pub open spec fn error_place_text(start: Point, end: Point) -> Seq<char> {
    " ["@ + decimal(start.row as nat) + ", "@ + decimal(start.column as nat) + "] - ["@ + decimal(
        end.row as nat,
    ) + ", "@ + decimal(end.column as nat) + "])"@
}

/// What the report on a parse says of the first error: behind a tab and
/// between round brackets, its name and its place.
pub open spec fn error_text(first_error: Option<NodeInfoModel>) -> Seq<char> {
    match first_error {
        Some(node) => "\t("@ + error_name_text(node) + error_place_text(node.start, node.end),
        None => Seq::empty(),
    }
}

/// The start of a report on a parse: where the input came from, at least
/// `width` wide, a tab, and the time that the parse took.
pub open spec fn timing_text(origin: Seq<char>, duration_ms: nat, width: int) -> Seq<char> {
    padded_left(origin, width) + "\t"@ + decimal(duration_ms) + " ms"@
}

/// The report on a parse: the timing and, where the tree holds an error, the
/// first one.
pub open spec fn summary_text(
    origin: Seq<char>,
    duration_ms: nat,
    width: int,
    first_error: Option<NodeInfoModel>,
) -> Seq<char> {
    timing_text(origin, duration_ms, width) + error_text(first_error) + "\n"@
}

/// The report on a parse that ran out of time.
pub open spec fn timed_out_text(origin: Seq<char>, duration_ms: nat, width: int) -> Seq<char> {
    timing_text(origin, duration_ms, width) + " (timed out)\n"@
}

/// Whether a parse is reported on: it found an error or its time is asked
/// for, and the tree was not written in the tree format.
pub fn shows_summary(found_error: bool, print_time: bool, cst_output: bool) -> (shown: bool)
    ensures
        shown == ((found_error || print_time) && !cst_output),
{
    (found_error || print_time) && !cst_output
}

/// Appends the start of a report on a parse.
fn push_timing(out: &mut String, origin: &str, duration_ms: u64, width: usize)
    ensures
        final(out)@ == old(out)@ + timing_text(origin@, duration_ms as nat, width as int),
{
    push_padded_left(out, origin, width);
    push_text(out, "\t");
    let digits = decimal_digits(duration_ms);
    push_chars(out, &digits);
    push_text(out, " ms");
    assert(out@ =~= old(out)@ + timing_text(origin@, duration_ms as nat, width as int));
}

/// Appends the kind `kind` with its line feeds written out.
fn push_line_feeds_written(out: &mut String, kind: &Vec<char>)
    ensures
        final(out)@ == old(out)@ + line_feeds_written(kind@, kind@.len() as int),
{
    let mut k: usize = 0;
    assert(out@ =~= old(out)@ + line_feeds_written(kind@, 0));
    while k < kind.len()
        invariant
            k <= kind@.len(),
            out@ == old(out)@ + line_feeds_written(kind@, k as int),
        decreases kind@.len() - k,
    {
        let ghost before = out@;
        if kind[k] == '\n' {
            push_text(out, "\\n");
        } else {
            let one = slice_chars(kind, k, k + 1);
            assert(one@ =~= seq![kind@[k as int]]);
            push_chars(out, &one);
        }
        assert(out@ =~= old(out)@ + line_feeds_written(kind@, k + 1));
        k += 1;
    }
}

/// Appends how the node with the first error is named.
fn push_error_name(out: &mut String, node: &NodeInfo)
    ensures
        final(out)@ == old(out)@ + error_name_text(node@),
{
    if node.is_missing {
        if node.is_named {
            push_text(out, "MISSING ");
            push_text(out, node.kind.as_str());
            assert(out@ =~= old(out)@ + ("MISSING "@ + node@.kind));
        } else {
            push_text(out, "MISSING \"");
            let kind = crate::text::string_chars(&node.kind);
            push_line_feeds_written(out, &kind);
            push_text(out, "\"");
            assert(out@ =~= old(out)@ + ("MISSING \""@ + line_feeds_written(
                node@.kind,
                node@.kind.len() as int,
            ) + "\""@));
        }
    } else {
        push_text(out, node.kind.as_str());
    }
}

/// Appends where a node lies.
fn push_error_place(out: &mut String, start: Point, end: Point)
    ensures
        final(out)@ == old(out)@ + error_place_text(start, end),
{
    push_text(out, " [");
    push_decimal(out, start.row);
    push_text(out, ", ");
    push_decimal(out, start.column);
    push_text(out, "] - [");
    let ghost first = out@;
    assert(first =~= old(out)@ + (" ["@ + decimal(start.row as nat) + ", "@ + decimal(
        start.column as nat,
    ) + "] - ["@));
    push_decimal(out, end.row);
    push_text(out, ", ");
    push_decimal(out, end.column);
    push_text(out, "])");
    assert(out@ =~= first + (decimal(end.row as nat) + ", "@ + decimal(end.column as nat)
        + "])"@));
    assert(out@ =~= old(out)@ + error_place_text(start, end));
}

/// Appends what the report says of the first error.
fn push_error(out: &mut String, first_error: Option<&NodeInfo>)
    ensures
        final(out)@ == old(out)@ + error_text(
            match first_error {
                Some(node) => Some(node@),
                None => None,
            },
        ),
{
    match first_error {
        Some(node) => {
            push_text(out, "\t(");
            push_error_name(out, node);
            push_error_place(out, node.start, node.end);
            assert(out@ =~= old(out)@ + ("\t("@ + error_name_text(node@) + error_place_text(
                node.start,
                node.end,
            )));
        },
        None => {
            assert(out@ =~= old(out)@ + Seq::<char>::empty());
        },
    }
}

/// The report on a parse of the input that came from `origin` and took
/// `duration_ms` milliseconds.
pub fn parse_summary(origin: &str, duration_ms: u64, width: usize, first_error: Option<&NodeInfo>) -> (text:
    String)
    ensures
        text@ == summary_text(
            origin@,
            duration_ms as nat,
            width as int,
            match first_error {
                Some(node) => Some(node@),
                None => None,
            },
        ),
{
    let mut out = String::new();
    push_timing(&mut out, origin, duration_ms, width);
    let ghost first = out@;
    push_error(&mut out, first_error);
    let ghost second = out@;
    push_text(&mut out, "\n");
    proof {
        let found = match first_error {
            Some(node) => Some(node@),
            None => None,
        };
        let part_a = timing_text(origin@, duration_ms as nat, width as int);
        let part_b = error_text(found);
        assert(first =~= part_a);
        assert(second == first + part_b);
        assert(out@ =~= part_a + part_b + "\n"@);
    }
    out
}

/// The report on a parse that ran out of time.
pub fn timed_out_summary(origin: &str, duration_ms: u64, width: usize) -> (text: String)
    ensures
        text@ == timed_out_text(origin@, duration_ms as nat, width as int),
{
    let mut out = String::new();
    push_timing(&mut out, origin, duration_ms, width);
    push_text(&mut out, " (timed out)\n");
    assert(out@ =~= timed_out_text(origin@, duration_ms as nat, width as int));
    out
}

/// Where the snippet with the number `number` came from.
pub fn snippet_origin(number: usize) -> (text: String)
    ensures
        text@ == "Snippet #"@ + decimal(number as nat),
{
    let mut out = String::new();
    push_text(&mut out, "Snippet #");
    push_decimal(&mut out, number);
    assert(out@ =~= "Snippet #"@ + decimal(number as nat));
    out
}

/// The paint of the name of an input.
pub open spec fn name_paint() -> Paint {
    Paint { red: 38, green: 166, blue: 154, bold: false }
}

/// The line that heads the output for one of several inputs: where the
/// input came from, in the paint of names.
pub open spec fn heading_text(origin: Seq<char>) -> Seq<char> {
    prefix_text(name_paint()) + origin + suffix_text() + "\n"@
}

/// The line that heads the output for the input that came from `origin`.
pub fn input_heading(origin: &str) -> (text: String)
    ensures
        text@ == heading_text(origin@),
{
    let paint = Paint { red: 38, green: 166, blue: 154, bold: false };
    let mut out = String::new();
    push_prefix(&mut out, &paint);
    push_text(&mut out, origin);
    push_suffix(&mut out, &paint);
    push_text(&mut out, "\n");
    assert(out@ =~= heading_text(origin@));
    out
}

} // verus!
