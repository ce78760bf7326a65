//! The source text with its lines numbered, as it is shown before a tree.

use vstd::prelude::*;
use vstd::string::StringSliceAdditionalSpecFns;
use crate::cli::layout::{number_left, push_number_left};
use crate::cli::style::{blue_prefix, blue_prefix_text, blue_suffix, suffix_text};
use crate::text::push_text;

verus! {

/// What stands before a line: its number in plain blue, filled with blanks to
/// two places, and a blank.
pub open spec fn line_head(number: nat) -> Seq<char> {
    blue_prefix_text() + number_left(number, 2) + suffix_text() + " "@
}

/// The bytes from `from` on with their lines numbered from `number`. `fresh`
/// says that a line starts at `from`. Each line is headed by its number and
/// ends in a line feed, also the last one; nothing follows a line feed that
/// ends the bytes.
pub open spec fn numbered_from(bytes: Seq<u8>, from: int, number: nat, fresh: bool) -> Seq<u8>
    decreases bytes.len() - from,
{
    if from < 0 || from >= bytes.len() {
        if fresh {
            Seq::empty()
        } else {
            seq![10u8]
        }
    } else {
        let head = if fresh {
            vstd::utf8::encode_utf8(line_head(number))
        } else {
            Seq::empty()
        };
        if bytes[from] == 10u8 {
            head + seq![10u8] + numbered_from(bytes, from + 1, number + 1, true)
        } else {
            head + seq![bytes[from]] + numbered_from(bytes, from + 1, number, false)
        }
    }
}

/// The source text as it is shown: an empty line, then the lines, the first
/// with the number `offset`.
pub open spec fn rendered_text(offset: nat, bytes: Seq<u8>) -> Seq<u8> {
    seq![10u8] + numbered_from(bytes, 0, offset, true)
}

/// Appends what stands before the line with the number `number`.
fn push_line_head(out: &mut Vec<u8>, number: usize)
    ensures
        final(out)@ == old(out)@ + vstd::utf8::encode_utf8(line_head(number as nat)),
{
    let mut head = blue_prefix();
    push_number_left(&mut head, number, 2);
    let suffix = blue_suffix();
    push_text(&mut head, suffix.as_str());
    push_text(&mut head, " ");
    assert(head@ =~= line_head(number as nat));
    out.extend_from_slice(head.as_str().as_bytes());
    assert(out@ =~= old(out)@ + vstd::utf8::encode_utf8(line_head(number as nat)));
}

/// The source text with its lines numbered from `offset`.
pub fn render_text(offset: usize, source_code: &[u8]) -> (out: Vec<u8>)
    requires
        offset + source_code@.len() <= usize::MAX,
    ensures
        out@ == rendered_text(offset as nat, source_code@),
{
    let mut out: Vec<u8> = Vec::new();
    out.push(10u8);
    let count = source_code.len();
    let mut pos: usize = 0;
    let mut number = offset;
    let mut fresh = true;
    assert(out@ =~= seq![10u8]);
    while pos < count
        invariant
            count == source_code@.len(),
            pos <= count,
            number <= offset + pos,
            offset + count <= usize::MAX,
            rendered_text(offset as nat, source_code@) == out@ + numbered_from(
                source_code@,
                pos as int,
                number as nat,
                fresh,
            ),
        decreases count - pos,
    {
        let ghost before = out@;
        let ghost rest = numbered_from(source_code@, pos as int, number as nat, fresh);
        if fresh {
            push_line_head(&mut out, number);
        }
        let byte = source_code[pos];
        out.push(byte);
        if byte == 10u8 {
            number += 1;
            fresh = true;
        } else {
            fresh = false;
        }
        pos += 1;
        assert(before + rest =~= out@ + numbered_from(
            source_code@,
            pos as int,
            number as nat,
            fresh,
        ));
    }
    if !fresh {
        out.push(10u8);
    }
    assert(out@ =~= rendered_text(offset as nat, source_code@));
    out
}

} // verus!
