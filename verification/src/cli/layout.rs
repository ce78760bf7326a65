//! Pieces of the text output: numbers in columns, positions, the source text
//! with line numbers, the changed ranges, and the tree as XML.
use vstd::prelude::*;
use vstd::string::StringSliceAdditionalSpecFns;
use crate::cli::edit::Point;
use crate::cli::style::{
    blue_prefix, blue_prefix_text, blue_suffix, prefix_text, push_prefix, push_suffix,
    suffix_text, Colors, Paint,
};
use crate::text::{decimal, decimal_digits, push_chars, push_decimal, push_text};

verus! {

/// `count` blanks.
pub open spec fn spaces(count: int) -> Seq<char>
    decreases count,
{
    if count <= 0 {
        Seq::empty()
    } else {
        spaces(count - 1) + " "@
    }
}

/// `n` in base ten, with blanks behind it up to the width `width`.
pub open spec fn number_left(n: nat, width: int) -> Seq<char> {
    decimal(n) + spaces(width - decimal(n).len())
}

/// `n` in base ten, with blanks before it up to the width `width`.
pub open spec fn number_right(n: nat, width: int) -> Seq<char> {
    spaces(width - decimal(n).len()) + decimal(n)
}

/// Appends `count` blanks.
pub fn push_spaces(out: &mut String, count: usize)
    ensures
        final(out)@ == old(out)@ + spaces(count as int),
{
    let mut k: usize = 0;
    assert(out@ =~= old(out)@ + spaces(0));
    while k < count
        invariant
            k <= count,
            out@ == old(out)@ + spaces(k as int),
        decreases count - k,
    {
        push_text(out, " ");
        assert(out@ =~= old(out)@ + spaces(k + 1));
        k += 1;
    }
}

/// Appends `n`, with blanks behind it up to the width `width`.
pub fn push_number_left(out: &mut String, n: usize, width: usize)
    ensures
        final(out)@ == old(out)@ + number_left(n as nat, width as int),
{
    let digits = decimal_digits(n as u64);
    push_chars(out, &digits);
    if digits.len() < width {
        push_spaces(out, width - digits.len());
    } else {
        assert(spaces(width - digits@.len()) =~= Seq::<char>::empty());
    }
    assert(out@ =~= old(out)@ + number_left(n as nat, width as int));
}

/// Appends `n`, with blanks before it up to the width `width`.
pub fn push_number_right(out: &mut String, n: usize, width: usize)
    ensures
        final(out)@ == old(out)@ + number_right(n as nat, width as int),
{
    let digits = decimal_digits(n as u64);
    if digits.len() < width {
        push_spaces(out, width - digits.len());
    } else {
        assert(spaces(width - digits@.len()) =~= Seq::<char>::empty());
    }
    push_chars(out, &digits);
    assert(out@ =~= old(out)@ + number_right(n as nat, width as int));
}

/// A span as line and column of its start and of its end, with the columns
/// at least `width` wide where `both` is set, and only the first one
/// otherwise.
pub open spec fn span_text(start: Point, end: Point, width: int, both: bool) -> Seq<char> {
    decimal(start.row as nat) + ":"@ + number_left(start.column as nat, width) + " - "@ + decimal(
        end.row as nat,
    ) + ":"@ + if both {
        number_left(end.column as nat, width)
    } else {
        decimal(end.column as nat)
    }
}

/// Appends a span.
pub fn push_span(out: &mut String, start: Point, end: Point, width: usize, both: bool)
    ensures
        final(out)@ == old(out)@ + span_text(start, end, width as int, both),
{
    push_decimal(out, start.row);
    push_text(out, ":");
    push_number_left(out, start.column, width);
    push_text(out, " - ");
    push_decimal(out, end.row);
    push_text(out, ":");
    if both {
        push_number_left(out, end.column, width);
    } else {
        push_decimal(out, end.column);
    }
    assert(out@ =~= old(out)@ + span_text(start, end, width as int, both));
}

/// How the position of a capture is written: the span, the paint (the first
/// paint of positions where the capture starts on another line than the one
/// seen last, the second otherwise), and whether the capture spans lines.
pub fn format_pos(start: Point, end: Point, last_row: &mut usize, colors: &Colors) -> (r: (
    String,
    Paint,
    bool,
))
    ensures
        r.0@ == span_text(start, end, 3, false),
        r.1 == if start.row != *old(last_row) {
            colors.pos1
        } else {
            colors.pos2
        },
        r.2 == (end.row > start.row),
        *final(last_row) == start.row,
{
    let paint = if start.row != *last_row {
        *last_row = start.row;
        colors.pos1
    } else {
        colors.pos2
    };
    let mut text = String::new();
    push_span(&mut text, start, end, 3, false);
    assert(text@ =~= span_text(start, end, 3, false));
    (text, paint, end.row > start.row)
}

/// A range of the text that changed between two parses.
#[derive(Clone, Copy, Debug, PartialEq, Eq, Structural)]
pub struct ChangedRange {
    pub start_byte: usize,
    pub end_byte: usize,
    pub start_point: Point,
    pub end_point: Point,
}

/// The line for one changed range: its span in the paint of tokens, then its
/// bytes in the paint of bytes.
pub open spec fn changed_range_text(colors: Colors, range: ChangedRange) -> Seq<char> {
    prefix_text(colors.term) + span_text(range.start_point, range.end_point, 2, true) + " "@
        + prefix_text(colors.bytes) + number_right(range.start_byte as nat, 3) + ":"@ + decimal(
        range.end_byte as nat,
    ) + suffix_text() + "\n"@
}

/// The lines for the first `k` changed ranges.
pub open spec fn changed_ranges_text(colors: Colors, ranges: Seq<ChangedRange>, k: int) -> Seq<char>
    decreases k,
{
    if k <= 0 {
        "\n"@
    } else {
        changed_ranges_text(colors, ranges, k - 1) + changed_range_text(colors, ranges[k - 1])
    }
}

/// Appends the line for one changed range.
fn push_changed_range(out: &mut String, colors: &Colors, range: ChangedRange)
    ensures
        final(out)@ == old(out)@ + changed_range_text(*colors, range),
{
    push_prefix(out, &colors.term);
    push_span(out, range.start_point, range.end_point, 2, true);
    push_text(out, " ");
    let ghost first = out@;
    assert(first =~= old(out)@ + (prefix_text(colors.term) + span_text(
        range.start_point,
        range.end_point,
        2,
        true,
    ) + " "@));
    push_prefix(out, &colors.bytes);
    push_number_right(out, range.start_byte, 3);
    push_text(out, ":");
    push_decimal(out, range.end_byte);
    push_suffix(out, &colors.nonterm);
    push_text(out, "\n");
    assert(out@ =~= first + (prefix_text(colors.bytes) + number_right(
        range.start_byte as nat,
        3,
    ) + ":"@ + decimal(range.end_byte as nat) + suffix_text() + "\n"@));
    assert(out@ =~= old(out)@ + changed_range_text(*colors, range));
}

/// The changed ranges, one on a line, behind an empty line.
pub fn render_changed_ranges(changed_ranges: &Vec<ChangedRange>) -> (text: String)
    ensures
        text@ == changed_ranges_text(
            crate::cli::style::standard_colors(),
            changed_ranges@,
            changed_ranges@.len() as int,
        ),
{
    let c = Colors::new();
    let mut out = String::new();
    push_text(&mut out, "\n");
    assert(out@ =~= changed_ranges_text(c, changed_ranges@, 0));
    let mut k: usize = 0;
    while k < changed_ranges.len()
        invariant
            k <= changed_ranges@.len(),
            c == crate::cli::style::standard_colors(),
            out@ == changed_ranges_text(c, changed_ranges@, k as int),
        decreases changed_ranges@.len() - k,
    {
        push_changed_range(&mut out, &c, changed_ranges[k]);
        k += 1;
    }
    out
}

/// How a character of text is written in XML: the ampersand and the angle
/// brackets by their names, any other character as it is.
pub open spec fn xml_char(c: char) -> Seq<char> {
    if c == '&' {
        "&amp;"@
    } else if c == '<' {
        "&lt;"@
    } else if c == '>' {
        "&gt;"@
    } else {
        seq![c]
    }
}

/// The first `k` characters of `text` as they are written in XML.
pub open spec fn xml_text(text: Seq<char>, k: int) -> Seq<char>
    decreases k,
{
    if k <= 0 {
        Seq::empty()
    } else {
        xml_text(text, k - 1) + xml_char(text[k - 1])
    }
}

/// Has `html_escape::encode_text` write `text` for use between tags: as its
/// documentation says, every ampersand and angle bracket is replaced by its
/// entity, and nothing else is changed.
#[verifier::external_body]
pub(crate) fn encode_text(text: &str) -> (s: String)
    ensures
        s@ == xml_text(text@, text@.len() as int),
{
    html_escape::encode_text(text).into_owned()
}

/// Writes a tree as XML, event by event of a walk through it: each named
/// node is an element called after its kind, and a node without children
/// holds its text. What is written gathers in `out`.
#[derive(Debug)]
pub struct XmlRenderer {
    pub out: String,
    pub needs_newline: bool,
    pub indent_level: usize,
    pub tags: Vec<String>,
}

/// The attribute that names the field of a node, where it has one.
pub open spec fn field_attribute(field_name: Option<Seq<char>>) -> Seq<char> {
    match field_name {
        Some(name) => " type=\""@ + name + "\""@,
        None => Seq::empty(),
    }
}

/// The opening tag of a named node at the depth `level`, on a line of its
/// own where something was written before.
pub open spec fn open_tag_text(
    needs_newline: bool,
    level: int,
    kind: Seq<char>,
    field_name: Option<Seq<char>>,
) -> Seq<char> {
    (if needs_newline {
        "\n"@
    } else {
        Seq::empty()
    }) + crate::cli::s_expression::blanks(level) + "<"@ + kind + field_attribute(field_name)
        + ">"@
}

impl XmlRenderer {
    /// A renderer that has written nothing, at the top of the tree.
    pub fn new() -> (r: XmlRenderer)
        ensures
            r.out@ == Seq::<char>::empty(),
            !r.needs_newline,
            r.indent_level == 0,
            r.tags@.len() == 0,
    {
        XmlRenderer { out: String::new(), needs_newline: false, indent_level: 0, tags: Vec::new() }
    }

    /// The walk comes to a node: a named node is opened.
    pub fn enter(&mut self, named: bool, kind: &str, field_name: Option<&str>)
        ensures
            final(self).indent_level == old(self).indent_level,
            if named {
                &&& final(self).out@ == old(self).out@ + open_tag_text(
                    old(self).needs_newline,
                    old(self).indent_level as int,
                    kind@,
                    crate::cli::s_expression::option_text(field_name),
                )
                &&& final(self).needs_newline
                &&& final(self).tags@.len() == old(self).tags@.len() + 1
                &&& final(self).tags@.last()@ == kind@
                &&& final(self).tags@.drop_last() == old(self).tags@
            } else {
                &&& final(self).out@ == old(self).out@
                &&& final(self).needs_newline == old(self).needs_newline
                &&& final(self).tags@ == old(self).tags@
            },
    {
        if named {
            let ghost start = self.out@;
            if self.needs_newline {
                push_text(&mut self.out, "\n");
            }
            let ghost after_line = self.out@;
            let mut k: usize = 0;
            assert(self.out@ =~= after_line + crate::cli::s_expression::blanks(0));
            while k < self.indent_level
                invariant
                    k <= self.indent_level,
                    self.indent_level == old(self).indent_level,
                    self.tags@ == old(self).tags@,
                    self.out@ == after_line + crate::cli::s_expression::blanks(k as int),
                decreases self.indent_level - k,
            {
                push_text(&mut self.out, "  ");
                assert(self.out@ =~= after_line + crate::cli::s_expression::blanks(k + 1));
                k += 1;
            }
            push_text(&mut self.out, "<");
            push_text(&mut self.out, kind);
            let ghost before_field = self.out@;
            match field_name {
                Some(name) => {
                    push_text(&mut self.out, " type=\"");
                    push_text(&mut self.out, name);
                    push_text(&mut self.out, "\"");
                },
                None => {},
            }
            assert(self.out@ =~= before_field + field_attribute(
                crate::cli::s_expression::option_text(field_name),
            ));
            push_text(&mut self.out, ">");
            self.tags.push(kind.to_owned());
            self.needs_newline = true;
            assert(self.out@ =~= start + open_tag_text(
                old(self).needs_newline,
                old(self).indent_level as int,
                kind@,
                crate::cli::s_expression::option_text(field_name),
            ));
            assert(self.tags@.drop_last() =~= old(self).tags@);
        }
    }

    /// The walk goes down to the first child.
    pub fn descend(&mut self)
        requires
            old(self).indent_level < usize::MAX,
        ensures
            final(self).indent_level == old(self).indent_level + 1,
            final(self).out@ == old(self).out@,
            final(self).needs_newline == old(self).needs_newline,
            final(self).tags@ == old(self).tags@,
    {
        self.indent_level += 1;
    }

    /// The node has no child: its text is written.
    pub fn leaf_text(&mut self, value: &str)
        ensures
            final(self).out@ == old(self).out@ + xml_text(value@, value@.len() as int),
            final(self).indent_level == old(self).indent_level,
            final(self).needs_newline == old(self).needs_newline,
            final(self).tags@ == old(self).tags@,
    {
        let encoded = encode_text(value);
        self.out.append(encoded.as_str());
    }

    /// The walk leaves a node: a named node is closed with the tag that
    /// opened it. A named node that is left was entered.
    pub fn leave(&mut self, named: bool)
        requires
            named ==> old(self).tags@.len() > 0,
        ensures
            final(self).indent_level == old(self).indent_level,
            if named {
                &&& final(self).out@ == old(self).out@ + "</"@ + old(self).tags@.last()@ + ">\n"@
                &&& final(self).needs_newline
                &&& final(self).tags@ == old(self).tags@.drop_last()
            } else {
                &&& final(self).out@ == old(self).out@
                &&& final(self).needs_newline == old(self).needs_newline
                &&& final(self).tags@ == old(self).tags@
            },
    {
        if named {
            let tag = self.tags.pop().unwrap();
            push_text(&mut self.out, "</");
            push_text(&mut self.out, tag.as_str());
            push_text(&mut self.out, ">\n");
            self.needs_newline = true;
        }
    }

    /// The walk comes back to the parent.
    pub fn ascend(&mut self)
        requires
            old(self).indent_level > 0,
        ensures
            final(self).indent_level == old(self).indent_level - 1,
            final(self).out@ == old(self).out@,
            final(self).needs_newline == old(self).needs_newline,
            final(self).tags@ == old(self).tags@,
    {
        self.indent_level -= 1;
    }
}

} // verus!
