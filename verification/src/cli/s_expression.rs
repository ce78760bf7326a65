//! The tree written as nested parentheses: each node as its kind, with its
//! position where that is asked for, and its children laid out inside it.
use vstd::prelude::*;
use crate::cli::edit::Point;
use crate::cli::format::SExpressionFlags;
use crate::text::{decimal, push_decimal, push_text};

verus! {

/// Writes a tree as nested parentheses, event by event of a walk through it.
/// What is written gathers in `out`.
#[derive(Debug)]
pub struct SExpressionRenderer {
    pub out: String,
    pub indent_level: usize,
    pub flags: SExpressionFlags,
}

/// The first `k` of the blanks before a node at the depth `level`.
pub open spec fn blanks(k: int) -> Seq<char>
    decreases k,
{
    if k <= 0 {
        Seq::empty()
    } else {
        blanks(k - 1) + "  "@
    }
}

/// What stands before a node at the depth `level`: one blank where all is
/// written on one line, two for each level otherwise.
pub open spec fn indent_text(flags: SExpressionFlags, level: int) -> Seq<char> {
    if flags.one_line {
        " "@
    } else {
        blanks(level)
    }
}

/// The end of a line; nothing where all is written on one line.
pub open spec fn line_end_text(flags: SExpressionFlags) -> Seq<char> {
    if flags.one_line {
        Seq::empty()
    } else {
        "\n"@
    }
}

/// A position, as line and column between brackets.
pub open spec fn point_text(p: Point) -> Seq<char> {
    "["@ + decimal(p.row as nat) + ", "@ + decimal(p.column as nat) + "]"@
}

/// The name of the field of a node, where it has one, with a colon.
pub open spec fn field_prefix(field_name: Option<Seq<char>>) -> Seq<char> {
    match field_name {
        Some(name) => name + ": "@,
        None => Seq::empty(),
    }
}

/// The points at which a node starts and ends, where positions are shown.
pub open spec fn positions_text(flags: SExpressionFlags, start: Point, end: Point) -> Seq<char> {
    if flags.show_positions {
        " "@ + point_text(start) + " - "@ + point_text(end)
    } else {
        Seq::empty()
    }
}

/// The opening of a node: its field, a parenthesis, its kind, and, where
/// positions are shown, the points at which it starts and ends.
pub open spec fn node_text(
    flags: SExpressionFlags,
    kind: Seq<char>,
    field_name: Option<Seq<char>>,
    start: Point,
    end: Point,
) -> Seq<char> {
    field_prefix(field_name) + "("@ + kind + positions_text(flags, start, end)
}

/// Appends a position.
fn push_point(out: &mut String, p: Point)
    ensures
        final(out)@ == old(out)@ + point_text(p),
{
    push_text(out, "[");
    push_decimal(out, p.row);
    push_text(out, ", ");
    push_decimal(out, p.column);
    push_text(out, "]");
    assert(out@ =~= old(out)@ + point_text(p));
}

/// Appends the points at which a node starts and ends, where positions are
/// shown.
fn push_positions(out: &mut String, flags: SExpressionFlags, start: Point, end: Point)
    ensures
        final(out)@ == old(out)@ + positions_text(flags, start, end),
{
    if flags.show_positions {
        push_text(out, " ");
        push_point(out, start);
        push_text(out, " - ");
        push_point(out, end);
        assert(out@ =~= old(out)@ + positions_text(flags, start, end));
    } else {
        assert(out@ =~= old(out)@ + positions_text(flags, start, end));
    }
}

/// Appends the name of the field of a node, where it has one.
fn push_field_prefix(out: &mut String, field_name: Option<&str>)
    ensures
        final(out)@ == old(out)@ + field_prefix(option_text(field_name)),
{
    match field_name {
        Some(name) => {
            push_text(out, name);
            push_text(out, ": ");
            assert(out@ =~= old(out)@ + field_prefix(option_text(field_name)));
        },
        None => {
            assert(out@ =~= old(out)@ + field_prefix(option_text(field_name)));
        },
    }
}

/// What a visit of a node writes: nothing for a node that is not named;
/// the closing parenthesis when the node is left; otherwise the end of the
/// line before, the indentation, and the opening of the node.
pub open spec fn visit_text(
    flags: SExpressionFlags,
    level: int,
    named: bool,
    traversed: bool,
    kind: Seq<char>,
    field_name: Option<Seq<char>>,
    start: Point,
    end: Point,
) -> Seq<char> {
    if !named {
        Seq::empty()
    } else if traversed {
        ")"@
    } else {
        line_end_text(flags) + indent_text(flags, level) + node_text(
            flags,
            kind,
            field_name,
            start,
            end,
        )
    }
}

pub open spec fn option_text(field_name: Option<&str>) -> Option<Seq<char>> {
    match field_name {
        Some(name) => Some(name@),
        None => None,
    }
}

impl SExpressionRenderer {
    /// A renderer that has written nothing, at the top of the tree.
    pub fn new(flags: SExpressionFlags) -> (r: SExpressionRenderer)
        ensures
            r.out@ == Seq::<char>::empty(),
            r.indent_level == 0,
            r.flags == flags,
    {
        SExpressionRenderer { out: String::new(), indent_level: 0, flags }
    }

    /// The walk goes down to a child.
    pub fn on_child(&mut self)
        requires
            old(self).indent_level < usize::MAX,
        ensures
            final(self).indent_level == old(self).indent_level + 1,
            final(self).out@ == old(self).out@,
            final(self).flags == old(self).flags,
    {
        self.indent_level += 1;
    }

    /// The walk comes back to the parent.
    pub fn on_parent(&mut self)
        requires
            old(self).indent_level > 0,
        ensures
            final(self).indent_level == old(self).indent_level - 1,
            final(self).out@ == old(self).out@,
            final(self).flags == old(self).flags,
    {
        self.indent_level -= 1;
    }

    /// Writes what stands before a node at the current depth.
    pub fn indent(&mut self)
        ensures
            final(self).out@ == old(self).out@ + indent_text(
                old(self).flags,
                old(self).indent_level as int,
            ),
            final(self).indent_level == old(self).indent_level,
            final(self).flags == old(self).flags,
    {
        if self.flags.one_line {
            push_text(&mut self.out, " ");
        } else {
            let ghost start = self.out@;
            let mut k: usize = 0;
            assert(self.out@ =~= start + blanks(0));
            while k < self.indent_level
                invariant
                    k <= self.indent_level,
                    self.indent_level == old(self).indent_level,
                    self.flags == old(self).flags,
                    start == old(self).out@,
                    self.out@ == start + blanks(k as int),
                decreases self.indent_level - k,
            {
                push_text(&mut self.out, "  ");
                assert(self.out@ =~= start + blanks(k + 1));
                k += 1;
            }
        }
    }

    /// Writes the opening of a node.
    pub fn node(&mut self, kind: &str, field_name: Option<&str>, start: Point, end: Point)
        ensures
            final(self).out@ == old(self).out@ + node_text(
                old(self).flags,
                kind@,
                option_text(field_name),
                start,
                end,
            ),
            final(self).indent_level == old(self).indent_level,
            final(self).flags == old(self).flags,
    {
        push_field_prefix(&mut self.out, field_name);
        push_text(&mut self.out, "(");
        push_text(&mut self.out, kind);
        push_positions(&mut self.out, self.flags, start, end);
        assert(self.out@ =~= old(self).out@ + node_text(
            old(self).flags,
            kind@,
            option_text(field_name),
            start,
            end,
        ));
    }

    /// Writes the closing parenthesis of a node.
    pub fn close_brace(&mut self)
        ensures
            final(self).out@ == old(self).out@ + ")"@,
            final(self).indent_level == old(self).indent_level,
            final(self).flags == old(self).flags,
    {
        push_text(&mut self.out, ")");
    }

    /// Writes the end of a line, unless all is written on one line. Returns
    /// whether what is written should now be flushed.
    pub fn lf(&mut self) -> (flush: bool)
        ensures
            final(self).out@ == old(self).out@ + line_end_text(old(self).flags),
            flush == (!old(self).flags.one_line && old(self).flags.extra.line_flush),
            final(self).indent_level == old(self).indent_level,
            final(self).flags == old(self).flags,
    {
        if !self.flags.one_line {
            push_text(&mut self.out, "\n");
            self.flags.extra.line_flush
        } else {
            assert(self.out@ =~= old(self).out@ + line_end_text(old(self).flags));
            false
        }
    }

    /// Whether nodes that are not named are written too.
    pub fn show_all(&self) -> (b: bool)
        ensures
            !b,
    {
        false
    }

    /// A visit of a node: on the way down its opening is written on a line
    /// of its own, on the way back its closing parenthesis.
    pub fn on_visit(
        &mut self,
        named: bool,
        traversed: bool,
        kind: &str,
        field_name: Option<&str>,
        start: Point,
        end: Point,
    )
        ensures
            final(self).out@ == old(self).out@ + visit_text(
                old(self).flags,
                old(self).indent_level as int,
                named,
                traversed,
                kind@,
                option_text(field_name),
                start,
                end,
            ),
            final(self).indent_level == old(self).indent_level,
            final(self).flags == old(self).flags,
    {
        if named || self.show_all() {
            if traversed {
                self.close_brace();
            } else {
                self.lf();
                self.indent();
                self.node(kind, field_name, start, end);
                assert(self.out@ =~= old(self).out@ + visit_text(
                    old(self).flags,
                    old(self).indent_level as int,
                    named,
                    traversed,
                    kind@,
                    option_text(field_name),
                    start,
                    end,
                ));
            }
        } else {
            assert(self.out@ =~= old(self).out@ + Seq::<char>::empty());
        }
    }

    /// The end of the walk: the last line is ended.
    pub fn on_end(&mut self)
        ensures
            final(self).out@ == old(self).out@ + "\n"@,
            final(self).indent_level == old(self).indent_level,
            final(self).flags == old(self).flags,
    {
        push_text(&mut self.out, "\n");
    }
}

} // verus!
