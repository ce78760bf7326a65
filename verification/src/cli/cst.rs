//! The tree written one node to a line, with positions in a column before
//! it, marks for errors and changes, and the text of the leaves.
use vstd::prelude::*;
use vstd::string::StringSliceAdditionalSpecFns;
use vstd::utf8::encode_utf8;
use crate::cli::edit::Point;
use crate::cli::escape::{
    char_escapes, escape_chars, escape_invisible_symbols, invisible_escapes, translated,
};
use crate::cli::format::{chars_to_string, slice_chars, str_chars, CstFlags};
use crate::cli::layout::{
    number_left, number_right, push_number_left, push_number_right, push_spaces, spaces,
};
use crate::cli::scope_range::{checked, given_by_points, option_ranges, NodeRangeCheck, ScopeRange};
use crate::cli::style::{
    painted_text, prefix_text, push_painted, push_prefix, push_suffix, suffix_text, Colors, Paint,
};
use crate::text::{decimal, push_decimal, push_text};

verus! {

/// What the renderer reads of a node. `is_new` says that the node was not
/// there before the edits; `text` is the text of the node, given where the
/// renderer asks for it.
#[derive(Debug, PartialEq, Eq)]
pub struct NodeInfo {
    pub kind: String,
    pub is_named: bool,
    pub is_error: bool,
    pub is_extra: bool,
    pub is_missing: bool,
    pub has_error: bool,
    pub has_changes: bool,
    pub is_new: bool,
    pub child_count: usize,
    pub start_byte: usize,
    pub end_byte: usize,
    pub start: Point,
    pub end: Point,
    pub field_name: Option<String>,
    pub text: Option<String>,
}

pub struct NodeInfoModel {
    pub kind: Seq<char>,
    pub is_named: bool,
    pub is_error: bool,
    pub is_extra: bool,
    pub is_missing: bool,
    pub has_error: bool,
    pub has_changes: bool,
    pub is_new: bool,
    pub child_count: int,
    pub start_byte: int,
    pub end_byte: int,
    pub start: Point,
    pub end: Point,
    pub field_name: Option<Seq<char>>,
    pub text: Option<Seq<char>>,
}

impl View for NodeInfo {
    type V = NodeInfoModel;

    open spec fn view(&self) -> NodeInfoModel {
        NodeInfoModel {
            kind: self.kind@,
            is_named: self.is_named,
            is_error: self.is_error,
            is_extra: self.is_extra,
            is_missing: self.is_missing,
            has_error: self.has_error,
            has_changes: self.has_changes,
            is_new: self.is_new,
            child_count: self.child_count as int,
            start_byte: self.start_byte as int,
            end_byte: self.end_byte as int,
            start: self.start,
            end: self.end,
            field_name: crate::rules::string_option_model(self.field_name),
            text: crate::rules::string_option_model(self.text),
        }
    }
}

/// Whether the node is marked as changed: it has changes or is new.
pub open spec fn is_modified(node: NodeInfoModel) -> bool {
    node.has_changes || node.is_new
}

/// Whether the node is marked as faulty: it holds an error, is one, or is
/// missing.
pub open spec fn is_faulty(node: NodeInfoModel) -> bool {
    node.has_error || node.is_error || node.is_missing
}

/// The marks before a node: one in the paint of errors where it holds an
/// error or is one, one in the paint of edits where it has changes, else one
/// in the paint of new nodes where it is new.
pub open spec fn dot_marks_text(colors: Colors, node: NodeInfoModel) -> Seq<char> {
    (if node.has_error || node.is_error {
        painted_text(colors.error, "•"@)
    } else {
        Seq::empty()
    }) + (if node.has_changes {
        painted_text(colors.edit, "•"@)
    } else if node.is_new {
        painted_text(colors.renewed, "•"@)
    } else {
        Seq::empty()
    })
}

/// The width of the column of positions: fifteen, or twenty where byte
/// positions are shown.
pub open spec fn column_width(flags: CstFlags) -> int {
    if flags.show_byte_positions {
        20
    } else {
        15
    }
}

/// The indentation of a node at the depth `level`: two for each level, the
/// shift of the root, and the width of the column of positions.
pub open spec fn base_indent(flags: CstFlags, shift: int, level: int) -> int {
    shift + level * 2 + column_width(flags)
}

/// The indentation less one for each mark that the node carries.
pub open spec fn own_indent(flags: CstFlags, shift: int, level: int, node: NodeInfoModel) -> int {
    base_indent(flags, shift, level) - (if is_modified(node) {
        1int
    } else {
        0int
    }) - (if is_faulty(node) {
        1int
    } else {
        0int
    })
}

/// The position of a node: lines and columns of its start and end.
pub open spec fn position_text(node: NodeInfoModel) -> Seq<char> {
    decimal(node.start.row as nat) + ":"@ + number_left(node.start.column as nat, 2) + " - "@
        + decimal(node.end.row as nat) + ":"@ + number_left(node.end.column as nat, 2)
}

/// The byte positions of a node.
pub open spec fn bytes_text(node: NodeInfoModel) -> Seq<char> {
    number_right(node.start_byte as nat, 4) + ":"@ + number_left(node.end_byte as nat, 2)
}

/// The number of blanks behind positions of the length `written` in an
/// indentation of `indent`: what is left of the indentation, or one where
/// the positions are longer.
pub open spec fn blanks_left(indent: int, written: int) -> int {
    if indent >= written {
        indent - written
    } else {
        1
    }
}

/// What the positions of a node take before the blanks: the position, in
/// the first paint of positions where the node starts on another line than
/// the node before it and in the second otherwise, and the bytes in their
/// paint where they are shown.
pub open spec fn positions_text(colors: Colors, flags: CstFlags, last_line: int, node: NodeInfoModel)
    -> Seq<char> {
    let paint = if last_line != node.start.row {
        colors.pos1
    } else {
        colors.pos2
    };
    prefix_text(paint) + position_text(node) + suffix_text() + if flags.show_byte_positions {
        prefix_text(colors.bytes) + bytes_text(node) + suffix_text()
    } else {
        Seq::empty()
    }
}

/// How many characters the positions of a node take, the paints not counted.
pub open spec fn positions_width(flags: CstFlags, node: NodeInfoModel) -> int {
    position_text(node).len() + if flags.show_byte_positions {
        bytes_text(node).len() as int
    } else {
        0
    }
}

/// The blanks before a node: behind its positions, what is left of its
/// indentation; its whole indentation where positions are not shown.
pub open spec fn blanks_text(flags: CstFlags, indent: int, node: NodeInfoModel) -> Seq<char> {
    if flags.show_positions {
        spaces(blanks_left(indent, positions_width(flags, node)))
    } else {
        spaces(indent)
    }
}

/// What stands before a node: its positions, where they are shown, blanks up
/// to its indentation, and its marks.
pub open spec fn indent_text(
    colors: Colors,
    flags: CstFlags,
    shift: int,
    level: int,
    last_line: int,
    node: NodeInfoModel,
) -> Seq<char> {
    (if flags.show_positions {
        positions_text(colors, flags, last_line, node)
    } else {
        Seq::empty()
    }) + blanks_text(flags, own_indent(flags, shift, level, node), node) + dot_marks_text(
        colors,
        node,
    )
}

/// Whether the line feed at the end of `value` is written out: `pad` is not
/// zero and `value` ends with a line feed.
pub open spec fn cuts_line_feed(value: Seq<char>, pad: int) -> bool {
    pad > 0 && value.len() > 0 && value.last() == '\n'
}

/// The opening backtick and the text `shown` in the paint of text, with its
/// invisible characters written out.
pub open spec fn leaf_open_text(colors: Colors, shown: Seq<char>) -> Seq<char> {
    prefix_text(colors.backtick) + "`"@ + painted_text(
        colors.text,
        translated(invisible_escapes(), shown, shown.len() as int),
    )
}

/// The line feed written out in the paint of line feeds, where `cut` is set.
pub open spec fn leaf_cut_text(colors: Colors, cut: bool) -> Seq<char> {
    if cut {
        prefix_text(colors.lf) + "\\n"@
    } else {
        Seq::empty()
    }
}

/// The closing backtick.
pub open spec fn leaf_close_text(colors: Colors) -> Seq<char> {
    prefix_text(colors.backtick) + "`"@ + suffix_text()
}

/// The text of a leaf between backticks, behind `pad` blanks; a line feed at
/// its end is written out in the paint of line feeds, unless `pad` is zero.
pub open spec fn leaf_text(colors: Colors, value: Seq<char>, pad: int) -> Seq<char> {
    let cut = cuts_line_feed(value, pad);
    let shown = if cut {
        value.drop_last()
    } else {
        value
    };
    spaces(pad) + leaf_open_text(colors, shown) + leaf_cut_text(colors, cut) + leaf_close_text(
        colors,
    )
}

fn push_leaf_open(out: &mut String, colors: &Colors, shown: &Vec<char>)
    ensures
        final(out)@ == old(out)@ + leaf_open_text(*colors, shown@),
{
    let text = chars_to_string(shown);
    let escaped = escape_invisible_symbols(text.as_str());
    push_prefix(out, &colors.backtick);
    push_text(out, "`");
    push_painted(out, &colors.text, escaped.as_str());
    assert(out@ =~= old(out)@ + leaf_open_text(*colors, shown@));
}

fn push_leaf_cut(out: &mut String, colors: &Colors, cut: bool)
    ensures
        final(out)@ == old(out)@ + leaf_cut_text(*colors, cut),
{
    if cut {
        push_prefix(out, &colors.lf);
        push_text(out, "\\n");
        assert(out@ =~= old(out)@ + leaf_cut_text(*colors, cut));
    } else {
        assert(out@ =~= old(out)@ + leaf_cut_text(*colors, cut));
    }
}

fn push_leaf_close(out: &mut String, colors: &Colors)
    ensures
        final(out)@ == old(out)@ + leaf_close_text(*colors),
{
    push_prefix(out, &colors.backtick);
    push_text(out, "`");
    push_suffix(out, &colors.backtick);
    assert(out@ =~= old(out)@ + leaf_close_text(*colors));
}

/// Appends the text of a leaf between backticks, behind `pad_size` blanks.
fn push_leaf_text(out: &mut String, colors: &Colors, value: &Vec<char>, pad_size: usize)
    ensures
        final(out)@ == old(out)@ + leaf_text(*colors, value@, pad_size as int),
{
    let cut = pad_size > 0 && value.len() > 0 && value[value.len() - 1] == '\n';
    let shown = if cut {
        slice_chars(value, 0, value.len() - 1)
    } else {
        slice_chars(value, 0, value.len())
    };
    assert(shown@ =~= if cut {
        value@.drop_last()
    } else {
        value@
    });
    push_spaces(out, pad_size);
    let ghost a = out@;
    push_leaf_open(out, colors, &shown);
    let ghost b = out@;
    push_leaf_cut(out, colors, cut);
    let ghost c = out@;
    push_leaf_close(out, colors);
    proof {
        let part_a = spaces(pad_size as int);
        let part_b = leaf_open_text(*colors, shown@);
        let part_c = leaf_cut_text(*colors, cut);
        let part_d = leaf_close_text(*colors);
        assert(leaf_text(*colors, value@, pad_size as int) == part_a + part_b + part_c + part_d);
        assert(out@ == ((old(out)@ + part_a) + part_b + part_c) + part_d);
        assert(((old(out)@ + part_a) + part_b + part_c) + part_d =~= old(out)@ + (part_a + part_b + part_c + part_d));
    }
}

/// The place behind the first line feed of `value`, counted from `from`;
/// the length of `value` where there is none.
pub open spec fn line_end(value: Seq<char>, from: int) -> int
    decreases value.len() - from,
{
    if from < 0 || from >= value.len() {
        value.len() as int
    } else if value[from] == '\n' {
        from + 1
    } else {
        line_end(value, from + 1)
    }
}

/// The position of one line of the text of a leaf: the line, the column at
/// which it starts, and its length in bytes.
pub open spec fn line_position_text(row: int, column: int, line: Seq<char>) -> Seq<char> {
    decimal(row as nat) + ":"@ + number_left(column as nat, 2) + " - "@ + decimal(row as nat)
        + ":"@ + decimal(encode_utf8(line).len())
}

/// Whether `value` goes on behind its first line.
pub open spec fn splits(value: Seq<char>) -> bool {
    0 < line_end(value, 0) < value.len()
}

/// The first line of `value`, with its line feed; all of `value` where it
/// does not go on.
pub open spec fn first_line(value: Seq<char>) -> Seq<char> {
    if splits(value) {
        value.take(line_end(value, 0))
    } else {
        value
    }
}

/// What follows the first line of `value`.
pub open spec fn after_first_line(value: Seq<char>) -> Seq<char> {
    if splits(value) {
        value.skip(line_end(value, 0))
    } else {
        Seq::empty()
    }
}

/// Whether more lines are written behind the first line of `value`: the
/// text goes on, and what follows is not the same text as the first line.
pub open spec fn continues(value: Seq<char>) -> bool {
    splits(value) && first_line(value) != after_first_line(value)
}

/// The position of a line of the text of a leaf, where positions are shown:
/// a line behind the first starts in the column zero.
pub open spec fn shown_line_position(
    flags: CstFlags,
    row: int,
    column: int,
    multiline: bool,
    line: Seq<char>,
) -> Seq<char> {
    if flags.show_positions {
        line_position_text(
            row,
            if multiline {
                0
            } else {
                column
            },
            line,
        )
    } else {
        Seq::empty()
    }
}

/// The blanks behind a position of the length `written`: what is left of
/// the indentation, and two.
pub open spec fn line_pad(indent_base: int, written: int) -> int {
    (if indent_base >= written {
        indent_base - written
    } else {
        0
    }) + 2
}

/// A line of the text of a leaf on a line of its own, behind its position.
pub open spec fn own_line_text(
    colors: Colors,
    paint: Paint,
    position: Seq<char>,
    line: Seq<char>,
    pad: int,
) -> Seq<char> {
    "\n"@ + painted_text(paint, position) + leaf_text(colors, line, pad)
}

/// The paint of the position of a line: the second paint of positions for
/// the first line, the first for the others.
pub open spec fn line_paint(colors: Colors, multiline: bool) -> Paint {
    if multiline {
        colors.pos1
    } else {
        colors.pos2
    }
}

/// The line after `row`.
pub open spec fn next_row(row: int) -> int {
    if row < usize::MAX {
        row + 1
    } else {
        row
    }
}

/// The text of a leaf, line by line. A text of one line follows the node on
/// its line. The lines of a longer text stand on lines of their own, each
/// behind its position. A line that equals all that follows it ends the
/// text.
pub open spec fn lines_text(
    colors: Colors,
    flags: CstFlags,
    indent_base: int,
    column: int,
    value: Seq<char>,
    row: int,
    multiline: bool,
) -> Seq<char>
    decreases value.len(),
{
    let line = first_line(value);
    let position = shown_line_position(flags, row, column, multiline, line);
    let pad = line_pad(indent_base, position.len() as int);
    if continues(value) {
        own_line_text(colors, line_paint(colors, multiline), position, line, pad) + lines_text(
            colors,
            flags,
            indent_base,
            column,
            after_first_line(value),
            next_row(row),
            true,
        )
    } else if multiline {
        own_line_text(colors, line_paint(colors, multiline), position, line, pad)
    } else {
        leaf_text(colors, line, 1)
    }
}

/// The paint of a node: that of errors, of extras, of rules or of tokens.
pub open spec fn node_paint(colors: Colors, node: NodeInfoModel) -> Paint {
    if node.is_error {
        colors.error
    } else if node.is_extra {
        colors.extra
    } else if node.is_named {
        colors.nonterm
    } else {
        colors.term
    }
}

/// Whether the text of the node is shown: the node is named, has no child
/// or is an error whose text is always shown, and is not empty.
pub open spec fn shows_text(flags: CstFlags, node: NodeInfoModel) -> bool {
    node.is_named && (node.child_count == 0 || (node.is_error
        && flags.always_show_full_error_captures)) && node.end_byte > node.start_byte
}

/// What is written before the kind of a node: that it is missing, and its
/// field.
pub open spec fn node_head_text(colors: Colors, node: NodeInfoModel) -> Seq<char> {
    (if node.is_missing {
        painted_text(colors.missing, "MISSING: "@)
    } else {
        Seq::empty()
    }) + match node.field_name {
        Some(name) => painted_text(colors.field, name) + ": "@,
        None => Seq::empty(),
    }
}

/// The kind of an anonymous node: between quotes, unless the flags ask
/// otherwise, with its special characters written out.
pub open spec fn anonymous_kind_text(flags: CstFlags, kind: Seq<char>) -> Seq<char> {
    let escaped = translated(char_escapes(), kind, kind.len() as int);
    if flags.unquoted_anonymous {
        escaped
    } else {
        "\""@ + escaped + "\""@
    }
}

/// The text that follows the kind of a named node: for a node whose text
/// is shown and given, its text line by line.
pub open spec fn shown_text(
    colors: Colors,
    flags: CstFlags,
    indent_base: int,
    node: NodeInfoModel,
) -> Seq<char> {
    match node.text {
        Some(value) => if shows_text(flags, node) {
            lines_text(
                colors,
                flags,
                indent_base,
                node.start.column as int,
                value,
                node.start.row as int,
                false,
            )
        } else {
            Seq::empty()
        },
        None => Seq::empty(),
    }
}

/// A named node behind its head: its kind in its paint, and its text.
pub open spec fn named_text(
    colors: Colors,
    flags: CstFlags,
    indent_base: int,
    node: NodeInfoModel,
) -> Seq<char> {
    painted_text(node_paint(colors, node), node.kind) + shown_text(
        colors,
        flags,
        indent_base,
        node,
    )
}

/// An anonymous node behind its head: that it is an error, and its kind in
/// its paint.
pub open spec fn anonymous_text(colors: Colors, flags: CstFlags, node: NodeInfoModel) -> Seq<char> {
    (if node.is_error {
        painted_text(colors.error, "ERROR: "@)
    } else {
        Seq::empty()
    }) + painted_text(node_paint(colors, node), anonymous_kind_text(flags, node.kind))
}

/// A node: what is written before its kind, then the node as a named or as
/// an anonymous one.
pub open spec fn node_text(
    colors: Colors,
    flags: CstFlags,
    indent_base: int,
    node: NodeInfoModel,
) -> Seq<char> {
    node_head_text(colors, node) + if node.is_named {
        named_text(colors, flags, indent_base, node)
    } else {
        anonymous_text(colors, flags, node)
    }
}

/// Writes the tree one node to a line, event by event of a walk through it.
/// What is written gathers in `out`.
#[derive(Debug)]
pub struct CstRenderer {
    pub out: String,
    pub color: Colors,
    pub indent: usize,
    pub indent_base: usize,
    pub indent_level: usize,
    pub indent_shift: usize,
    pub last_line_no: usize,
    pub limit_ranges: Option<Vec<ScopeRange>>,
    pub flags: CstFlags,
}

/// Whether `after` is `before` but for what is written.
pub open spec fn same_but_out(before: CstRenderer, after: CstRenderer) -> bool {
    &&& after.color == before.color
    &&& after.indent == before.indent
    &&& after.indent_base == before.indent_base
    &&& after.indent_level == before.indent_level
    &&& after.indent_shift == before.indent_shift
    &&& after.last_line_no == before.last_line_no
    &&& after.limit_ranges == before.limit_ranges
    &&& after.flags == before.flags
}

/// The greatest depth and shift that the renderer lays out.
pub const MAX_DEPTH: usize = 0x3fff_ffff;

impl CstRenderer {
    /// The renderer fits the arithmetic of the layout, and its ranges are
    /// given by points.
    pub open spec fn well_formed(&self) -> bool {
        &&& self.indent_level <= MAX_DEPTH
        &&& self.indent_shift <= MAX_DEPTH
        &&& option_ranges(self.limit_ranges) matches Some(list) ==> given_by_points(list)
    }

    /// A renderer that has written nothing, at the top of the tree.
    pub fn new(flags: CstFlags) -> (r: CstRenderer)
        ensures
            r.out@ == Seq::<char>::empty(),
            r.color == crate::cli::style::standard_colors(),
            r.indent == 0 && r.indent_base == 0 && r.indent_level == 0 && r.indent_shift == 0,
            r.last_line_no == usize::MAX,
            r.limit_ranges is None,
            r.flags == flags,
            r.well_formed(),
    {
        CstRenderer {
            out: String::new(),
            color: Colors::new(),
            indent: 0,
            indent_base: 0,
            indent_level: 0,
            indent_shift: 0,
            last_line_no: usize::MAX,
            limit_ranges: None,
            flags,
        }
    }

    /// The renderer limited to `ranges`.
    pub fn limit_ranges(self, ranges: Option<Vec<ScopeRange>>) -> (r: CstRenderer)
        requires
            self.well_formed(),
            option_ranges(ranges) matches Some(list) ==> given_by_points(list),
        ensures
            r.limit_ranges == ranges,
            r.out@ == self.out@,
            r.flags == self.flags,
            r.color == self.color,
            r.indent_level == self.indent_level,
            r.indent_shift == self.indent_shift,
            r.last_line_no == self.last_line_no,
            r.well_formed(),
    {
        CstRenderer {
            out: self.out,
            color: self.color,
            indent: self.indent,
            indent_base: self.indent_base,
            indent_level: self.indent_level,
            indent_shift: self.indent_shift,
            last_line_no: self.last_line_no,
            limit_ranges: ranges,
            flags: self.flags,
        }
    }

    /// Whether the node is marked as changed, and whether as faulty.
    pub fn node_mods(node: &NodeInfo) -> (r: (bool, bool))
        ensures
            r.0 == is_modified(node@),
            r.1 == is_faulty(node@),
    {
        (node.has_changes || node.is_new, node.has_error || node.is_error || node.is_missing)
    }

    /// Whether nodes that are not named are written too.
    pub fn show_all(&self) -> (b: bool)
        ensures
            b,
    {
        true
    }

    /// Whether the renderer asks for the text of the node.
    pub fn wants_text(&self, node: &NodeInfo) -> (b: bool)
        ensures
            b == shows_text(self.flags, node@),
    {
        node.is_named && (node.child_count == 0 || (node.is_error
            && self.flags.always_show_full_error_captures)) && node.end_byte > node.start_byte
    }

    /// Writes the marks of a node.
    pub fn render_dot_marks(&mut self, node: &NodeInfo)
        ensures
            final(self).out@ == old(self).out@ + dot_marks_text(old(self).color, node@),
            same_but_out(*old(self), *final(self)),
    {
        let ghost start = self.out@;
        if node.has_error || node.is_error {
            push_painted(&mut self.out, &self.color.error, "•");
        }
        let ghost middle = self.out@;
        if node.has_changes {
            push_painted(&mut self.out, &self.color.edit, "•");
        } else if node.is_new {
            push_painted(&mut self.out, &self.color.renewed, "•");
        }
        assert(self.out@ =~= start + dot_marks_text(self.color, node@));
    }

    /// Writes the end of a line.
    pub fn lf(&mut self)
        ensures
            final(self).out@ == old(self).out@ + "\n"@,
            same_but_out(*old(self), *final(self)),
    {
        push_text(&mut self.out, "\n");
    }

    /// The walk goes down to a child.
    pub fn on_child(&mut self)
        requires
            old(self).indent_level < MAX_DEPTH,
        ensures
            final(self).indent_level == old(self).indent_level + 1,
            final(self).out@ == old(self).out@,
            final(self).color == old(self).color,
            final(self).indent_shift == old(self).indent_shift,
            final(self).last_line_no == old(self).last_line_no,
            final(self).limit_ranges == old(self).limit_ranges,
            final(self).flags == old(self).flags,
    {
        self.indent_level += 1;
    }

    /// The walk comes back to the parent.
    pub fn on_parent(&mut self)
        requires
            old(self).indent_level > 0,
        ensures
            final(self).indent_level == old(self).indent_level - 1,
            final(self).out@ == old(self).out@,
            final(self).color == old(self).color,
            final(self).indent_shift == old(self).indent_shift,
            final(self).last_line_no == old(self).last_line_no,
            final(self).limit_ranges == old(self).limit_ranges,
            final(self).flags == old(self).flags,
    {
        self.indent_level -= 1;
    }

    /// Writes the text of a leaf between backticks, behind `pad_size` blanks.
    pub fn render_node_text(&mut self, value: &Vec<char>, pad_size: usize)
        ensures
            final(self).out@ == old(self).out@ + leaf_text(
                old(self).color,
                value@,
                pad_size as int,
            ),
            same_but_out(*old(self), *final(self)),
    {
        push_leaf_text(&mut self.out, &self.color, value, pad_size);
    }
}

/// The position of a node, as text.
fn make_position(node: &NodeInfo) -> (text: String)
    ensures
        text@ == position_text(node@),
{
    let mut text = String::new();
    push_decimal(&mut text, node.start.row);
    push_text(&mut text, ":");
    push_number_left(&mut text, node.start.column, 2);
    push_text(&mut text, " - ");
    push_decimal(&mut text, node.end.row);
    push_text(&mut text, ":");
    push_number_left(&mut text, node.end.column, 2);
    assert(text@ =~= position_text(node@));
    text
}

/// The byte positions of a node, as text.
fn make_bytes(node: &NodeInfo) -> (text: String)
    ensures
        text@ == bytes_text(node@),
{
    let mut text = String::new();
    push_number_right(&mut text, node.start_byte, 4);
    push_text(&mut text, ":");
    push_number_left(&mut text, node.end_byte, 2);
    assert(text@ =~= bytes_text(node@));
    text
}

/// Appends the positions of a node; returns how many characters they take.
fn push_positions(
    out: &mut String,
    colors: &Colors,
    flags: &CstFlags,
    last_line: usize,
    node: &NodeInfo,
) -> (width: usize)
    ensures
        final(out)@ == old(out)@ + positions_text(*colors, *flags, last_line as int, node@),
        width as int == positions_width(*flags, node@) || (width == usize::MAX
            && positions_width(*flags, node@) > usize::MAX),
{
    let paint = if last_line != node.start.row {
        colors.pos1
    } else {
        colors.pos2
    };
    let position = make_position(node);
    let mut width = position.as_str().unicode_len();
    push_prefix(out, &paint);
    out.append(position.as_str());
    push_suffix(out, &paint);
    let ghost first = out@;
    assert(first =~= old(out)@ + (prefix_text(paint) + position_text(node@) + suffix_text()));
    if flags.show_byte_positions {
        let bytes = make_bytes(node);
        let more = bytes.as_str().unicode_len();
        width = if more <= usize::MAX - width {
            width + more
        } else {
            usize::MAX
        };
        push_prefix(out, &colors.bytes);
        out.append(bytes.as_str());
        push_suffix(out, &colors.bytes);
        assert(out@ =~= first + (prefix_text(colors.bytes) + bytes_text(node@) + suffix_text()));
    }
    assert(out@ =~= old(out)@ + positions_text(*colors, *flags, last_line as int, node@));
    width
}

/// Appends the marks of a node.
fn push_dot_marks(out: &mut String, colors: &Colors, node: &NodeInfo)
    ensures
        final(out)@ == old(out)@ + dot_marks_text(*colors, node@),
{
    if node.has_error || node.is_error {
        push_painted(out, &colors.error, "•");
    }
    if node.has_changes {
        push_painted(out, &colors.edit, "•");
    } else if node.is_new {
        push_painted(out, &colors.renewed, "•");
    }
    assert(out@ =~= old(out)@ + dot_marks_text(*colors, node@));
}

/// The indentation of a node at the depth `level`, less one for each mark.
fn indent_of(flags: &CstFlags, shift: usize, level: usize, node: &NodeInfo) -> (indent: usize)
    requires
        shift <= MAX_DEPTH,
        level <= MAX_DEPTH,
    ensures
        indent as int == own_indent(*flags, shift as int, level as int, node@),
{
    let width: usize = if flags.show_byte_positions {
        20
    } else {
        15
    };
    let mut indent = shift + level * 2 + width;
    if node.has_changes || node.is_new {
        indent -= 1;
    }
    if node.has_error || node.is_error || node.is_missing {
        indent -= 1;
    }
    indent
}

/// Appends the positions of a node, where they are shown, and the blanks
/// before the node.
fn push_positions_and_blanks(
    out: &mut String,
    colors: &Colors,
    flags: &CstFlags,
    indent: usize,
    last_line: usize,
    node: &NodeInfo,
)
    requires
        indent < usize::MAX,
    ensures
        final(out)@ == old(out)@ + ((if flags.show_positions {
            positions_text(*colors, *flags, last_line as int, node@)
        } else {
            Seq::empty()
        }) + blanks_text(*flags, indent as int, node@)),
{
    if flags.show_positions {
        let written = push_positions(out, colors, flags, last_line, node);
        let ghost first = out@;
        let left = if indent >= written {
            indent - written
        } else {
            1
        };
        assert(left as int == blanks_left(indent as int, positions_width(*flags, node@)));
        push_spaces(out, left);
        assert(blanks_text(*flags, indent as int, node@) == spaces(left as int));
        assert(out@ == first + spaces(left as int));
        assert(out@ =~= old(out)@ + (positions_text(*colors, *flags, last_line as int, node@)
            + blanks_text(*flags, indent as int, node@)));
    } else {
        push_spaces(out, indent);
        assert(out@ =~= old(out)@ + (Seq::<char>::empty() + blanks_text(
            *flags,
            indent as int,
            node@,
        )));
    }
}

/// Appends what stands before a node at the depth `level`.
fn push_indent(
    out: &mut String,
    colors: &Colors,
    flags: &CstFlags,
    shift: usize,
    level: usize,
    last_line: usize,
    node: &NodeInfo,
)
    requires
        shift <= MAX_DEPTH,
        level <= MAX_DEPTH,
    ensures
        final(out)@ == old(out)@ + indent_text(
            *colors,
            *flags,
            shift as int,
            level as int,
            last_line as int,
            node@,
        ),
{
    let indent = indent_of(flags, shift, level, node);
    push_positions_and_blanks(out, colors, flags, indent, last_line, node);
    push_dot_marks(out, colors, node);
    assert(out@ =~= old(out)@ + indent_text(
        *colors,
        *flags,
        shift as int,
        level as int,
        last_line as int,
        node@,
    ));
}

/// The position of one line of the text of a leaf, as text.
fn make_line_position(row: usize, column: usize, line: &Vec<char>) -> (text: String)
    ensures
        text@ == line_position_text(row as int, column as int, line@),
{
    let content = chars_to_string(line);
    let length = content.as_str().as_bytes().len();
    let mut text = String::new();
    push_decimal(&mut text, row);
    push_text(&mut text, ":");
    push_number_left(&mut text, column, 2);
    push_text(&mut text, " - ");
    push_decimal(&mut text, row);
    push_text(&mut text, ":");
    push_decimal(&mut text, length);
    assert(text@ =~= line_position_text(row as int, column as int, line@));
    text
}

/// The place behind the first line feed of `value`.
fn find_line_end(value: &Vec<char>) -> (end: usize)
    ensures
        end as int == line_end(value@, 0),
        end <= value@.len(),
{
    let mut i: usize = 0;
    while i < value.len() && value[i] != '\n'
        invariant
            i <= value@.len(),
            line_end(value@, 0) == line_end(value@, i as int),
        decreases value@.len() - i,
    {
        i += 1;
    }
    if i < value.len() {
        i + 1
    } else {
        i
    }
}

/// Whether two lists of characters are the same text.
fn same_chars(a: &Vec<char>, b: &Vec<char>) -> (r: bool)
    ensures
        r == (a@ == b@),
{
    if a.len() != b.len() {
        return false;
    }
    let mut i: usize = 0;
    while i < a.len()
        invariant
            i <= a@.len(),
            a@.len() == b@.len(),
            forall|k: int| 0 <= k < i ==> a@[k] == b@[k],
        decreases a@.len() - i,
    {
        if a[i] != b[i] {
            return false;
        }
        i += 1;
    }
    assert(a@ =~= b@);
    true
}

/// Appends one line of the text of a leaf on a line of its own, behind its
/// position.
fn push_own_line(
    out: &mut String,
    colors: &Colors,
    paint: &Paint,
    position: &String,
    line: &Vec<char>,
    pad: usize,
)
    ensures
        final(out)@ == old(out)@ + own_line_text(*colors, *paint, position@, line@, pad as int),
{
    push_text(out, "\n");
    push_painted(out, paint, position.as_str());
    push_leaf_text(out, colors, line, pad);
    assert(out@ =~= old(out)@ + own_line_text(*colors, *paint, position@, line@, pad as int));
}

/// The first line of `value`, what follows it, and whether more lines are
/// written behind it.
fn split_first_line(value: &Vec<char>) -> (r: (Vec<char>, Vec<char>, bool))
    ensures
        r.0@ == first_line(value@),
        r.1@ == after_first_line(value@),
        r.2 == continues(value@),
        r.2 ==> r.1@.len() < value@.len(),
{
    let end = find_line_end(value);
    if 0 < end && end < value.len() {
        let line = slice_chars(value, 0, end);
        let tail = slice_chars(value, end, value.len());
        assert(line@ =~= value@.take(end as int));
        assert(tail@ =~= value@.skip(end as int));
        let more = !same_chars(&line, &tail);
        (line, tail, more)
    } else {
        let line = slice_chars(value, 0, value.len());
        assert(line@ =~= value@);
        (line, Vec::new(), false)
    }
}

/// The position of a line of the text of a leaf, where positions are shown,
/// and the blanks behind it.
fn make_shown_line_position(
    flags: &CstFlags,
    indent_base: usize,
    row: usize,
    column: usize,
    multiline: bool,
    line: &Vec<char>,
) -> (r: (String, usize))
    requires
        indent_base <= usize::MAX - 2,
    ensures
        r.0@ == shown_line_position(*flags, row as int, column as int, multiline, line@),
        r.1 as int == line_pad(indent_base as int, r.0@.len() as int),
{
    let position = if flags.show_positions {
        make_line_position(
            row,
            if multiline {
                0
            } else {
                column
            },
            line,
        )
    } else {
        String::new()
    };
    let written = position.as_str().unicode_len();
    let pad = if indent_base >= written {
        indent_base - written
    } else {
        0
    };
    (position, pad + 2)
}

/// Appends the text of a leaf, line by line.
fn push_lines(
    out: &mut String,
    colors: &Colors,
    flags: &CstFlags,
    indent_base: usize,
    column: usize,
    value: Vec<char>,
    row: usize,
)
    requires
        indent_base <= usize::MAX - 2,
    ensures
        final(out)@ == old(out)@ + lines_text(
            *colors,
            *flags,
            indent_base as int,
            column as int,
            value@,
            row as int,
            false,
        ),
{
    let ghost wanted = lines_text(
        *colors,
        *flags,
        indent_base as int,
        column as int,
        value@,
        row as int,
        false,
    );
    let mut rest = value;
    let mut row = row;
    let mut multiline = false;
    let mut done = false;
    assert(out@ + wanted =~= old(out)@ + wanted);
    while !done
        invariant
            indent_base <= usize::MAX - 2,
            !done ==> out@ + lines_text(
                *colors,
                *flags,
                indent_base as int,
                column as int,
                rest@,
                row as int,
                multiline,
            ) == old(out)@ + wanted,
            done ==> out@ == old(out)@ + wanted,
        decreases rest@.len(), if done { 0int } else { 1int },
    {
        let ghost before = out@;
        let ghost remaining = lines_text(
            *colors,
            *flags,
            indent_base as int,
            column as int,
            rest@,
            row as int,
            multiline,
        );
        let (line, tail, more) = split_first_line(&rest);
        let (position, pad) = make_shown_line_position(
            flags,
            indent_base,
            row,
            column,
            multiline,
            &line,
        );
        let paint = if multiline {
            colors.pos1
        } else {
            colors.pos2
        };
        if more {
            push_own_line(out, colors, &paint, &position, &line, pad);
            let following_row = if row < usize::MAX {
                row + 1
            } else {
                row
            };
            proof {
                let following = lines_text(
                    *colors,
                    *flags,
                    indent_base as int,
                    column as int,
                    tail@,
                    following_row as int,
                    true,
                );
                assert(remaining == own_line_text(*colors, paint, position@, line@, pad as int)
                    + following);
                assert(out@ + following =~= before + remaining);
            }
            rest = tail;
            row = following_row;
            multiline = true;
        } else {
            if multiline {
                push_own_line(out, colors, &paint, &position, &line, pad);
            } else {
                push_leaf_text(out, colors, &line, 1);
            }
            assert(out@ =~= before + remaining);
            done = true;
        }
    }
}

/// Appends what is written before the kind of a node.
fn push_node_head(out: &mut String, colors: &Colors, node: &NodeInfo)
    ensures
        final(out)@ == old(out)@ + node_head_text(*colors, node@),
{
    if node.is_missing {
        push_painted(out, &colors.missing, "MISSING: ");
    }
    let ghost first = out@;
    match &node.field_name {
        Some(name) => {
            push_painted(out, &colors.field, name.as_str());
            push_text(out, ": ");
            assert(out@ =~= first + (painted_text(colors.field, name@) + ": "@));
        },
        None => {},
    }
    assert(out@ =~= old(out)@ + node_head_text(*colors, node@));
}

/// The paint of a node.
fn paint_of(colors: &Colors, node: &NodeInfo) -> (paint: Paint)
    ensures
        paint == node_paint(*colors, node@),
{
    if node.is_error {
        colors.error
    } else if node.is_extra {
        colors.extra
    } else if node.is_named {
        colors.nonterm
    } else {
        colors.term
    }
}

/// The kind of an anonymous node, as it is written.
fn make_anonymous_kind(flags: &CstFlags, kind: &String) -> (text: String)
    ensures
        text@ == anonymous_kind_text(*flags, kind@),
{
    let escaped = escape_chars(kind.as_str());
    if flags.unquoted_anonymous {
        escaped
    } else {
        let mut text = String::new();
        push_text(&mut text, "\"");
        text.append(escaped.as_str());
        push_text(&mut text, "\"");
        assert(text@ =~= anonymous_kind_text(*flags, kind@));
        text
    }
}

/// Appends the text that follows the kind of a named node.
fn push_shown_text(
    out: &mut String,
    colors: &Colors,
    flags: &CstFlags,
    indent_base: usize,
    node: &NodeInfo,
)
    requires
        indent_base <= usize::MAX - 2,
    ensures
        final(out)@ == old(out)@ + shown_text(*colors, *flags, indent_base as int, node@),
{
    let shows = node.is_named && (node.child_count == 0 || (node.is_error
        && flags.always_show_full_error_captures)) && node.end_byte > node.start_byte;
    match &node.text {
        Some(value) => {
            if shows {
                push_lines(
                    out,
                    colors,
                    flags,
                    indent_base,
                    node.start.column,
                    crate::text::string_chars(value),
                    node.start.row,
                );
            } else {
                assert(out@ =~= old(out)@ + Seq::<char>::empty());
            }
        },
        None => {
            assert(out@ =~= old(out)@ + Seq::<char>::empty());
        },
    }
}

/// Appends a named node behind its head.
fn push_named(
    out: &mut String,
    colors: &Colors,
    flags: &CstFlags,
    indent_base: usize,
    node: &NodeInfo,
)
    requires
        indent_base <= usize::MAX - 2,
    ensures
        final(out)@ == old(out)@ + named_text(*colors, *flags, indent_base as int, node@),
{
    let paint = paint_of(colors, node);
    push_painted(out, &paint, node.kind.as_str());
    let ghost first = out@;
    push_shown_text(out, colors, flags, indent_base, node);
    assert(out@ =~= old(out)@ + (painted_text(paint, node@.kind) + shown_text(
        *colors,
        *flags,
        indent_base as int,
        node@,
    )));
}

/// Appends an anonymous node behind its head.
fn push_anonymous(out: &mut String, colors: &Colors, flags: &CstFlags, node: &NodeInfo)
    ensures
        final(out)@ == old(out)@ + anonymous_text(*colors, *flags, node@),
{
    let paint = paint_of(colors, node);
    if node.is_error {
        push_painted(out, &colors.error, "ERROR: ");
    }
    let ghost marked = out@;
    let kind = make_anonymous_kind(flags, &node.kind);
    push_painted(out, &paint, kind.as_str());
    assert(out@ =~= old(out)@ + ((if node@.is_error {
        painted_text(colors.error, "ERROR: "@)
    } else {
        Seq::empty()
    }) + painted_text(paint, anonymous_kind_text(*flags, node@.kind))));
}

/// Appends a node.
fn push_node(out: &mut String, colors: &Colors, flags: &CstFlags, indent_base: usize, node: &NodeInfo)
    requires
        indent_base <= usize::MAX - 2,
    ensures
        final(out)@ == old(out)@ + node_text(*colors, *flags, indent_base as int, node@),
{
    push_node_head(out, colors, node);
    let ghost head = out@;
    if node.is_named {
        push_named(out, colors, flags, indent_base, node);
        assert(out@ =~= old(out)@ + (node_head_text(*colors, node@) + named_text(
            *colors,
            *flags,
            indent_base as int,
            node@,
        )));
    } else {
        push_anonymous(out, colors, flags, node);
        assert(out@ =~= old(out)@ + (node_head_text(*colors, node@) + anonymous_text(
            *colors,
            *flags,
            node@,
        )));
    }
}

/// What a visit of a node on the way down writes, given what the test
/// against the ranges says: the empty line, and, unless the row is hidden,
/// what stands before the node, the node, and the end of the line.
pub open spec fn visit_text(
    colors: Colors,
    flags: CstFlags,
    shift: int,
    level: int,
    last_line: int,
    check: NodeRangeCheck,
    node: NodeInfoModel,
) -> Seq<char> {
    (if check.draw_extra_lf {
        "\n"@
    } else {
        Seq::empty()
    }) + if check.hide_row {
        Seq::empty()
    } else {
        indent_text(colors, flags, shift, level, last_line, node) + node_text(
            colors,
            flags,
            base_indent(flags, shift, level),
            node,
        ) + "\n"@
    }
}

impl CstRenderer {
    /// Writes what stands before a node, and notes its indentation and,
    /// where positions are shown, its line.
    pub fn indent(&mut self, node: &NodeInfo)
        requires
            old(self).well_formed(),
        ensures
            final(self).out@ == old(self).out@ + indent_text(
                old(self).color,
                old(self).flags,
                old(self).indent_shift as int,
                old(self).indent_level as int,
                old(self).last_line_no as int,
                node@,
            ),
            final(self).indent_base as int == base_indent(
                old(self).flags,
                old(self).indent_shift as int,
                old(self).indent_level as int,
            ),
            final(self).indent as int == own_indent(
                old(self).flags,
                old(self).indent_shift as int,
                old(self).indent_level as int,
                node@,
            ),
            final(self).last_line_no == if old(self).flags.show_positions {
                node.start.row
            } else {
                old(self).last_line_no
            },
            final(self).color == old(self).color,
            final(self).flags == old(self).flags,
            final(self).indent_level == old(self).indent_level,
            final(self).indent_shift == old(self).indent_shift,
            final(self).limit_ranges == old(self).limit_ranges,
    {
        let width: usize = if self.flags.show_byte_positions {
            20
        } else {
            15
        };
        self.indent_base = self.indent_shift + self.indent_level * 2 + width;
        self.indent = self.indent_base;
        if node.has_changes || node.is_new {
            self.indent -= 1;
        }
        if node.has_error || node.is_error || node.is_missing {
            self.indent -= 1;
        }
        push_indent(
            &mut self.out,
            &self.color,
            &self.flags,
            self.indent_shift,
            self.indent_level,
            self.last_line_no,
            node,
        );
        if self.flags.show_positions {
            self.last_line_no = node.start.row;
        }
    }

    /// Writes a node: its kind in its paint, with what goes before it, and
    /// the text of a leaf.
    pub fn node(&mut self, node: &NodeInfo)
        requires
            old(self).indent_base <= usize::MAX - 2,
        ensures
            final(self).out@ == old(self).out@ + node_text(
                old(self).color,
                old(self).flags,
                old(self).indent_base as int,
                node@,
            ),
            same_but_out(*old(self), *final(self)),
    {
        push_node(&mut self.out, &self.color, &self.flags, self.indent_base, node);
    }

    /// Writes a node on a line of its own: what stands before it, the node,
    /// and the end of the line.
    fn write_row(&mut self, node: &NodeInfo)
        requires
            old(self).well_formed(),
        ensures
            final(self).out@ == old(self).out@ + (indent_text(
                old(self).color,
                old(self).flags,
                old(self).indent_shift as int,
                old(self).indent_level as int,
                old(self).last_line_no as int,
                node@,
            ) + node_text(
                old(self).color,
                old(self).flags,
                base_indent(
                    old(self).flags,
                    old(self).indent_shift as int,
                    old(self).indent_level as int,
                ),
                node@,
            ) + "\n"@),
            final(self).last_line_no == if old(self).flags.show_positions {
                node.start.row
            } else {
                old(self).last_line_no
            },
            final(self).color == old(self).color,
            final(self).flags == old(self).flags,
            final(self).indent_level == old(self).indent_level,
            final(self).indent_shift == old(self).indent_shift,
            final(self).limit_ranges == old(self).limit_ranges,
    {
        self.indent(node);
        let ghost a = self.out@;
        self.node(node);
        let ghost b = self.out@;
        self.lf();
        proof {
            let part_a = indent_text(
                old(self).color,
                old(self).flags,
                old(self).indent_shift as int,
                old(self).indent_level as int,
                old(self).last_line_no as int,
                node@,
            );
            let part_b = node_text(
                old(self).color,
                old(self).flags,
                base_indent(
                    old(self).flags,
                    old(self).indent_shift as int,
                    old(self).indent_level as int,
                ),
                node@,
            );
            assert(a == old(self).out@ + part_a);
            assert(b == a + part_b);
            assert(self.out@ == b + "\n"@);
            assert(((old(self).out@ + part_a) + part_b) + "\n"@ =~= old(self).out@ + (part_a + part_b + "\n"@));
        }
    }

    /// A visit of a node. On the way down the node is tested against the
    /// ranges and, unless its row is hidden, written on a line of its own; on
    /// the way back nothing is written.
    #[verifier::rlimit(50)]
    pub fn on_visit(&mut self, node: &NodeInfo, traversed: bool)
        requires
            old(self).well_formed(),
        ensures
            final(self).well_formed(),
            final(self).color == old(self).color,
            final(self).flags == old(self).flags,
            final(self).indent_level == old(self).indent_level,
            final(self).indent_shift == old(self).indent_shift,
            traversed ==> final(self).out@ == old(self).out@ && final(self).limit_ranges == old(
                self,
            ).limit_ranges && final(self).last_line_no == old(self).last_line_no,
            !traversed ==> ({
                let (ranges, check) = checked(
                    option_ranges(old(self).limit_ranges),
                    node.start,
                    node.end,
                );
                &&& option_ranges(final(self).limit_ranges) == ranges
                &&& final(self).out@ == old(self).out@ + visit_text(
                    old(self).color,
                    old(self).flags,
                    old(self).indent_shift as int,
                    old(self).indent_level as int,
                    old(self).last_line_no as int,
                    check,
                    node@,
                )
                &&& final(self).last_line_no == if !check.hide_row
                    && old(self).flags.show_positions {
                    node.start.row
                } else {
                    old(self).last_line_no
                }
            }),
    {
        if !traversed {
            let ghost given = option_ranges(self.limit_ranges);
            let check = NodeRangeCheck::check(&mut self.limit_ranges, node.start, node.end);
            proof {
                lemma_checked_keeps_points(given, node.start, node.end);
            }
            let ghost start = self.out@;
            if check.draw_extra_lf {
                self.lf();
            }
            let ghost after_line = self.out@;
            let ghost line = if check.draw_extra_lf {
                "\n"@
            } else {
                Seq::<char>::empty()
            };
            assert(after_line =~= start + line);
            if check.hide_row {
                assert(after_line =~= start + (line + Seq::<char>::empty()));
            } else {
                self.write_row(node);
                proof {
                    let row = indent_text(
                        old(self).color,
                        old(self).flags,
                        old(self).indent_shift as int,
                        old(self).indent_level as int,
                        old(self).last_line_no as int,
                        node@,
                    ) + node_text(
                        old(self).color,
                        old(self).flags,
                        base_indent(
                            old(self).flags,
                            old(self).indent_shift as int,
                            old(self).indent_level as int,
                        ),
                        node@,
                    ) + "\n"@;
                    assert(self.out@ == after_line + row);
                    assert((start + line) + row =~= start + (line + row));
                }
            }
        }
    }

    /// The visit of the root: the whole tree is shifted by one for each mark
    /// that the root carries, and the root is visited.
    pub fn on_root(&mut self, node: &NodeInfo)
        requires
            old(self).well_formed(),
            old(self).indent_shift <= MAX_DEPTH - 2,
        ensures
            final(self).well_formed(),
            final(self).indent_shift == old(self).indent_shift + (if is_modified(node@) {
                1int
            } else {
                0int
            }) + (if is_faulty(node@) {
                1int
            } else {
                0int
            }),
            final(self).indent_level == old(self).indent_level,
            final(self).flags == old(self).flags,
            final(self).color == old(self).color,
            ({
                let (ranges, check) = checked(
                    option_ranges(old(self).limit_ranges),
                    node.start,
                    node.end,
                );
                &&& option_ranges(final(self).limit_ranges) == ranges
                &&& final(self).out@ == old(self).out@ + visit_text(
                    old(self).color,
                    old(self).flags,
                    final(self).indent_shift as int,
                    old(self).indent_level as int,
                    old(self).last_line_no as int,
                    check,
                    node@,
                )
            }),
    {
        let (modified, error) = CstRenderer::node_mods(node);
        if modified {
            self.indent_shift += 1;
        }
        if error {
            self.indent_shift += 1;
        }
        self.on_visit(node, false);
    }
}

/// Ranges given by points stay so when a node is tested against them.
pub proof fn lemma_checked_keeps_points(
    ranges: Option<Seq<ScopeRange>>,
    node_start: Point,
    node_end: Point,
)
    requires
        ranges matches Some(list) ==> given_by_points(list),
    ensures
        checked(ranges, node_start, node_end).0 matches Some(list) ==> given_by_points(list),
{
    match ranges {
        Some(list) => {
            if list.len() > 0 {
                let rest = list.drop_last();
                assert forall|i: int| 0 <= i < rest.len() implies (#[trigger] rest[i] is Range
                    || rest[i] is Node) by {
                    assert(rest[i] == list[i]);
                }
                assert(list[list.len() - 1] is Range || list[list.len() - 1] is Node);
                let last = crate::cli::scope_range::settled_last(list.last(), node_start, node_end);
                let kept = rest.push(last);
                assert forall|i: int| 0 <= i < kept.len() implies (#[trigger] kept[i] is Range
                    || kept[i] is Node) by {
                    if i < rest.len() {
                        assert(kept[i] == rest[i]);
                    }
                }
            }
        },
        None => {},
    }
}

} // verus!
