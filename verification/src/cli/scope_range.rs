//! The ranges to which the output of a tree is limited, as they are written
//! on the command line, and the test of a node against them.
//!
//! A range is written as one or two points. A point is a line, or a line and
//! a column with a colon between them. Two points are the start and the end.
//! One point alone is the end of a range from the start of the text; with a
//! dash behind it, it is the start of a range to the end of the text; with an
//! at sign behind it, it names the node that starts there. The words `error`
//! and `error-path` stand alone.
use vstd::prelude::*;
use crate::cli::edit::{number_of, parse_number, point_lt, separator_at, find_separator, Point};
use crate::cli::error::{CliError, CliErrorModel};
use crate::cli::format::{chars_to_string, slice_chars, spells, str_chars};

verus! {

/// What the output is limited to: the nodes that start in a range, the node
/// that starts at a point, the paths to the errors, or the errors.
#[derive(Clone, Copy, Debug, PartialEq, Eq, Structural)]
pub enum ScopeRange {
    Range { start: Point, end: Point },
    Node { start: Point },
    ErrorPath,
    Error,
}

/// The end of the text, as a point.
pub open spec fn far_point() -> Point {
    Point { row: usize::MAX, column: usize::MAX }
}

/// The start of the text, as a point.
pub open spec fn origin() -> Point {
    Point { row: 0, column: 0 }
}

/// The point that `text` writes: a line, or a line and a column with a colon
/// between them; the text at fault where a number is none.
pub open spec fn written_point(text: Seq<char>) -> Result<Point, Seq<char>> {
    let colon = separator_at(text, ':', 0);
    if colon < text.len() {
        match number_of(text.subrange(0, colon)) {
            None => Err(text.subrange(0, colon)),
            Some(row) => match number_of(text.subrange(colon + 1, text.len() as int)) {
                None => Err(text.subrange(colon + 1, text.len() as int)),
                Some(column) => Ok(Point { row: row as usize, column: column as usize }),
            },
        }
    } else {
        match number_of(text) {
            None => Err(text),
            Some(row) => Ok(Point { row: row as usize, column: 0 }),
        }
    }
}

/// Whether `text` ends with the character `c`.
pub open spec fn ends_with(text: Seq<char>, c: char) -> bool {
    text.len() > 0 && text.last() == c
}

/// The range that one point alone writes.
pub open spec fn single_range(text: Seq<char>) -> Result<ScopeRange, CliErrorModel> {
    if ends_with(text, '-') {
        let point = text.drop_last();
        if ends_with(point, '@') {
            Err(CliErrorModel::DashWithAt(point))
        } else {
            match written_point(point) {
                Ok(start) => Ok(ScopeRange::Range { start, end: far_point() }),
                Err(t) => Err(CliErrorModel::InvalidNumber(t)),
            }
        }
    } else if ends_with(text, '@') {
        let point = text.drop_last();
        if ends_with(point, '-') {
            Err(CliErrorModel::DashWithAt(point))
        } else {
            match written_point(point) {
                Ok(start) => Ok(ScopeRange::Node { start }),
                Err(t) => Err(CliErrorModel::InvalidNumber(t)),
            }
        }
    } else {
        match written_point(text) {
            Ok(end) => Ok(ScopeRange::Range { start: origin(), end }),
            Err(t) => Err(CliErrorModel::InvalidNumber(t)),
        }
    }
}

/// The range that two points write.
pub open spec fn double_range(first: Seq<char>, second: Seq<char>) -> Result<
    ScopeRange,
    CliErrorModel,
> {
    match written_point(first) {
        Err(t) => Err(CliErrorModel::InvalidNumber(t)),
        Ok(start) => match written_point(second) {
            Err(t) => Err(CliErrorModel::InvalidNumber(t)),
            Ok(end) => Ok(ScopeRange::Range { start, end }),
        },
    }
}

/// The range that the texts of `input` write, where `alone` says that no
/// other range is given. The first text is there.
pub open spec fn written_range(input: Seq<Seq<char>>, alone: bool) -> Result<
    ScopeRange,
    CliErrorModel,
> {
    if input[0] == "error"@ {
        if input.len() == 1 && alone {
            Ok(ScopeRange::Error)
        } else {
            Err(CliErrorModel::ErrorRangeNotAlone)
        }
    } else if input[0] == "error-path"@ {
        if input.len() == 1 && alone {
            Ok(ScopeRange::ErrorPath)
        } else {
            Err(CliErrorModel::ErrorPathRangeNotAlone)
        }
    } else if input.len() == 1 {
        single_range(input[0])
    } else {
        double_range(input[0], input[1])
    }
}

/// The ranges that the first `k` of `inputs` write, or what is wrong with
/// the first that writes none.
pub open spec fn written_ranges(inputs: Seq<Seq<Seq<char>>>, k: int) -> Result<
    Seq<ScopeRange>,
    CliErrorModel,
>
    decreases k,
{
    if k <= 0 {
        Ok(Seq::empty())
    } else {
        match written_ranges(inputs, k - 1) {
            Err(e) => Err(e),
            Ok(ranges) => match written_range(inputs[k - 1], inputs.len() == 1) {
                Ok(r) => Ok(ranges.push(r)),
                Err(e) => Err(e),
            },
        }
    }
}

/// Where a range starts; the start of the text for the ranges named by a
/// word.
pub open spec fn start_of(range: ScopeRange) -> Point {
    match range {
        ScopeRange::Range { start, .. } => start,
        ScopeRange::Node { start } => start,
        _ => origin(),
    }
}

/// The first place at or behind `j` whose range starts before `range`.
pub open spec fn place_for(ranges: Seq<ScopeRange>, range: ScopeRange, j: int) -> int
    decreases ranges.len() - j,
{
    if j < 0 || j >= ranges.len() {
        ranges.len() as int
    } else if point_lt(start_of(ranges[j]), start_of(range)) {
        j
    } else {
        place_for(ranges, range, j + 1)
    }
}

/// The first `k` of `ranges` ordered by their start, the latest first;
/// ranges with the same start keep their order.
pub open spec fn latest_first(ranges: Seq<ScopeRange>, k: int) -> Seq<ScopeRange>
    decreases k,
{
    if k <= 0 {
        Seq::empty()
    } else {
        let known = latest_first(ranges, k - 1);
        known.insert(place_for(known, ranges[k - 1], 0), ranges[k - 1])
    }
}

/// The ranges that `inputs` write, the latest first.
pub open spec fn parsed_ranges(inputs: Seq<Seq<Seq<char>>>) -> Result<
    Seq<ScopeRange>,
    CliErrorModel,
> {
    match written_ranges(inputs, inputs.len() as int) {
        Err(e) => Err(e),
        Ok(ranges) => Ok(latest_first(ranges, ranges.len() as int)),
    }
}

pub open spec fn texts_model(texts: Seq<String>) -> Seq<Seq<char>> {
    Seq::new(texts.len(), |i: int| texts[i]@)
}

pub open spec fn inputs_model(inputs: Seq<Vec<String>>) -> Seq<Seq<Seq<char>>> {
    Seq::new(inputs.len(), |i: int| texts_model(inputs[i]@))
}

/// The point that `text` writes.
fn parse_point(text: &Vec<char>) -> (r: Result<Point, CliError>)
    ensures
        match written_point(text@) {
            Ok(p) => r == Ok::<Point, CliError>(p),
            Err(t) => r matches Err(e) && e@ == CliErrorModel::InvalidNumber(t),
        },
{
    let colon = find_separator(text, ':', 0);
    if colon < text.len() {
        let row_text = slice_chars(text, 0, colon);
        let column_text = slice_chars(text, colon + 1, text.len());
        match parse_number(&row_text) {
            None => Err(CliError::InvalidNumber(chars_to_string(&row_text))),
            Some(row) => match parse_number(&column_text) {
                None => Err(CliError::InvalidNumber(chars_to_string(&column_text))),
                Some(column) => Ok(Point { row, column }),
            },
        }
    } else {
        match parse_number(text) {
            None => Err(CliError::InvalidNumber(chars_to_string(text))),
            Some(row) => Ok(Point { row, column: 0 }),
        }
    }
}

/// Whether `text` ends with `c`.
fn text_ends_with(text: &Vec<char>, c: char) -> (b: bool)
    ensures
        b == ends_with(text@, c),
{
    text.len() > 0 && text[text.len() - 1] == c
}

/// The range that one point alone writes.
fn parse_single(text: &Vec<char>) -> (r: Result<ScopeRange, CliError>)
    ensures
        match single_range(text@) {
            Ok(range) => r == Ok::<ScopeRange, CliError>(range),
            Err(e) => r matches Err(x) && x@ == e,
        },
{
    if text_ends_with(text, '-') {
        let point = slice_chars(text, 0, text.len() - 1);
        assert(point@ =~= text@.drop_last());
        if text_ends_with(&point, '@') {
            Err(CliError::DashWithAt(chars_to_string(&point)))
        } else {
            match parse_point(&point) {
                Ok(start) => Ok(
                    ScopeRange::Range {
                        start,
                        end: Point { row: usize::MAX, column: usize::MAX },
                    },
                ),
                Err(e) => Err(e),
            }
        }
    } else if text_ends_with(text, '@') {
        let point = slice_chars(text, 0, text.len() - 1);
        assert(point@ =~= text@.drop_last());
        if text_ends_with(&point, '-') {
            Err(CliError::DashWithAt(chars_to_string(&point)))
        } else {
            match parse_point(&point) {
                Ok(start) => Ok(ScopeRange::Node { start }),
                Err(e) => Err(e),
            }
        }
    } else {
        match parse_point(text) {
            Ok(end) => Ok(ScopeRange::Range { start: Point { row: 0, column: 0 }, end }),
            Err(e) => Err(e),
        }
    }
}

/// The range that the texts of `input` write.
fn parse_range(input: &Vec<String>, alone: bool) -> (r: Result<ScopeRange, CliError>)
    requires
        input@.len() > 0,
    ensures
        match written_range(texts_model(input@), alone) {
            Ok(range) => r == Ok::<ScopeRange, CliError>(range),
            Err(e) => r matches Err(x) && x@ == e,
        },
{
    let ghost texts = texts_model(input@);
    assert(texts[0] == input@[0]@);
    let first = crate::text::string_chars(&input[0]);
    if spells(&first, "error") {
        if input.len() == 1 && alone {
            Ok(ScopeRange::Error)
        } else {
            Err(CliError::ErrorRangeNotAlone)
        }
    } else if spells(&first, "error-path") {
        if input.len() == 1 && alone {
            Ok(ScopeRange::ErrorPath)
        } else {
            Err(CliError::ErrorPathRangeNotAlone)
        }
    } else if input.len() == 1 {
        parse_single(&first)
    } else {
        assert(texts[1] == input@[1]@);
        let second = crate::text::string_chars(&input[1]);
        match parse_point(&first) {
            Err(e) => Err(e),
            Ok(start) => match parse_point(&second) {
                Err(e) => Err(e),
                Ok(end) => Ok(ScopeRange::Range { start, end }),
            },
        }
    }
}

pub proof fn lemma_written_ranges_error_stays(inputs: Seq<Seq<Seq<char>>>, k: int, m: int)
    requires
        0 <= k <= m,
        written_ranges(inputs, k) is Err,
    ensures
        written_ranges(inputs, m) == written_ranges(inputs, k),
    decreases m - k,
{
    if k < m {
        lemma_written_ranges_error_stays(inputs, k, m - 1);
    }
}

/// Where a range starts.
fn range_start(range: &ScopeRange) -> (p: Point)
    ensures
        p == start_of(*range),
{
    match range {
        ScopeRange::Range { start, .. } => *start,
        ScopeRange::Node { start } => *start,
        _ => Point { row: 0, column: 0 },
    }
}

impl ScopeRange {
    /// The ranges that `inputs` write, ordered by their start, the latest
    /// first. Each entry of `inputs` holds one text or two.
    pub fn parse_inputs(inputs: &Vec<Vec<String>>) -> (r: Result<Vec<ScopeRange>, CliError>)
        requires
            forall|i: int| 0 <= i < inputs@.len() ==> (#[trigger] inputs@[i])@.len() > 0,
        ensures
            match parsed_ranges(inputs_model(inputs@)) {
                Ok(ranges) => r matches Ok(v) && v@ == ranges,
                Err(e) => r matches Err(x) && x@ == e,
            },
    {
        let ghost all = inputs_model(inputs@);
        let mut ranges: Vec<ScopeRange> = Vec::new();
        let mut k: usize = 0;
        while k < inputs.len()
            invariant
                k <= inputs@.len(),
                all == inputs_model(inputs@),
                forall|i: int| 0 <= i < inputs@.len() ==> (#[trigger] inputs@[i])@.len() > 0,
                written_ranges(all, k as int) == Ok::<Seq<ScopeRange>, CliErrorModel>(ranges@),
            decreases inputs@.len() - k,
        {
            assert(all[k as int] == texts_model(inputs@[k as int]@));
            match parse_range(&inputs[k], inputs.len() == 1) {
                Ok(range) => {
                    ranges.push(range);
                },
                Err(e) => {
                    proof {
                        assert(written_ranges(all, k + 1) is Err);
                        lemma_written_ranges_error_stays(all, k + 1, all.len() as int);
                    }
                    return Err(e);
                },
            }
            k += 1;
        }
        let mut sorted: Vec<ScopeRange> = Vec::new();
        let mut i: usize = 0;
        while i < ranges.len()
            invariant
                i <= ranges@.len(),
                sorted@ == latest_first(ranges@, i as int),
            decreases ranges@.len() - i,
        {
            let range = ranges[i];
            let start = range_start(&range);
            let ghost wanted = place_for(sorted@, range, 0);
            let mut j: usize = 0;
            while j < sorted.len() && !range_start(&sorted[j]).precedes(&start)
                invariant
                    j <= sorted@.len(),
                    start == start_of(range),
                    wanted == place_for(sorted@, range, j as int),
                decreases sorted@.len() - j,
            {
                j += 1;
            }
            sorted.insert(j, range);
            i += 1;
        }
        Ok(sorted)
    }
}

/// What the test of a node against the ranges says: whether its row is
/// hidden, and whether an empty line is drawn before it.
#[derive(Clone, Copy, Debug, PartialEq, Eq, Structural)]
pub struct NodeRangeCheck {
    pub hide_row: bool,
    pub draw_extra_lf: bool,
}

/// Whether every range is given by points.
pub open spec fn given_by_points(ranges: Seq<ScopeRange>) -> bool {
    forall|i: int|
        0 <= i < ranges.len() ==> (#[trigger] ranges[i] is Range || ranges[i] is Node)
}

/// The last range once the node that starts at `node_start` is seen: a range
/// that names the node starting at a point becomes, at the first node that
/// starts at or behind that point, the range of that node.
pub open spec fn settled_last(last: ScopeRange, node_start: Point, node_end: Point) -> ScopeRange {
    match last {
        ScopeRange::Node { start } => if !point_lt(node_start, start) {
            ScopeRange::Range { start, end: node_end }
        } else {
            last
        },
        _ => last,
    }
}

/// The end of a range: for a range that still names a node, its start.
pub open spec fn end_of(range: ScopeRange) -> Point {
    match range {
        ScopeRange::Range { end, .. } => end,
        ScopeRange::Node { start } => start,
        _ => origin(),
    }
}

/// What the test of the node from `node_start` to `node_end` against the
/// ranges says, and the ranges afterwards. The last range is the one that is
/// open. The row is hidden where no range is left, where the node starts
/// before the open range or not before its end, and, once the open range is
/// passed, where the node starts before the next one. A range that is passed
/// is dropped, and an empty line is drawn where another range is left.
pub open spec fn checked(ranges: Option<Seq<ScopeRange>>, node_start: Point, node_end: Point) -> (
    Option<Seq<ScopeRange>>,
    NodeRangeCheck,
) {
    match ranges {
        None => (None, NodeRangeCheck { hide_row: false, draw_extra_lf: false }),
        Some(list) => if list.len() == 0 {
            (Some(list), NodeRangeCheck { hide_row: true, draw_extra_lf: false })
        } else {
            let last = settled_last(list.last(), node_start, node_end);
            let rest = list.drop_last();
            let outside = point_lt(node_start, start_of(last)) || !point_lt(
                node_start,
                end_of(last),
            );
            let passed = !point_lt(node_start, end_of(last));
            let before_next = passed && rest.len() > 0 && point_lt(
                node_start,
                start_of(rest.last()),
            );
            (
                Some(
                    if passed {
                        rest
                    } else {
                        rest.push(last)
                    },
                ),
                NodeRangeCheck {
                    hide_row: outside || before_next,
                    draw_extra_lf: passed && rest.len() > 0,
                },
            )
        },
    }
}

pub open spec fn option_ranges(ranges: Option<Vec<ScopeRange>>) -> Option<Seq<ScopeRange>> {
    match ranges {
        Some(v) => Some(v@),
        None => None,
    }
}

impl NodeRangeCheck {
    /// Tests the node from `node_start` to `node_end` against the ranges.
    /// Every range is given by points.
    pub fn check(limit_ranges: &mut Option<Vec<ScopeRange>>, node_start: Point, node_end: Point)
        -> (r: NodeRangeCheck)
        requires
            option_ranges(*old(limit_ranges)) matches Some(list) ==> given_by_points(list),
        ensures
            (option_ranges(*final(limit_ranges)), r) == checked(
                option_ranges(*old(limit_ranges)),
                node_start,
                node_end,
            ),
    {
        let mut hide_row = false;
        let mut draw_extra_lf = false;
        let taken = limit_ranges.take();
        match taken {
            None => {},
            Some(mut ranges) => {
                let ghost list = ranges@;
                if ranges.len() == 0 {
                    hide_row = true;
                } else {
                    let n = ranges.len();
                    let listed = ranges[n - 1];
                    let last = match listed {
                        ScopeRange::Node { start } => if !node_start.precedes(&start) {
                            ScopeRange::Range { start, end: node_end }
                        } else {
                            listed
                        },
                        _ => listed,
                    };
                    let range_start = range_start(&last);
                    let range_end = match last {
                        ScopeRange::Range { end, .. } => end,
                        ScopeRange::Node { start } => start,
                        _ => Point { row: 0, column: 0 },
                    };
                    if node_start.precedes(&range_start) || !node_start.precedes(&range_end) {
                        hide_row = true;
                    }
                    let passed = !node_start.precedes(&range_end);
                    if passed {
                        if n > 1 {
                            draw_extra_lf = true;
                            let next_start = crate::cli::scope_range::range_start(&ranges[n - 2]);
                            if node_start.precedes(&next_start) {
                                hide_row = true;
                            }
                        }
                        ranges.pop();
                        assert(ranges@ =~= list.drop_last());
                    } else {
                        ranges.set(n - 1, last);
                        assert(ranges@ =~= list.drop_last().push(last));
                    }
                    assert(n > 1 ==> list.drop_last().last() == list[n - 2]);
                }
                *limit_ranges = Some(ranges);
            },
        }
        NodeRangeCheck { hide_row, draw_extra_lf }
    }
}

/// The point of the node that the open range names, where the open range
/// still names a node.
pub open spec fn open_point(ranges: Option<Seq<ScopeRange>>) -> Option<Point> {
    match ranges {
        Some(list) => if list.len() > 0 {
            match list.last() {
                ScopeRange::Node { start } => Some(start),
                _ => None,
            }
        } else {
            None
        },
        None => None,
    }
}

/// The ranges once the node that the open range names has been looked for:
/// where it was found, the open range is the range of that node.
pub open spec fn scoped(ranges: Option<Seq<ScopeRange>>, found: Option<(Point, Point)>) -> Option<
    Seq<ScopeRange>,
> {
    match (ranges, open_point(ranges), found) {
        (Some(list), Some(_), Some((start, end))) => Some(
            list.drop_last().push(ScopeRange::Range { start, end }),
        ),
        _ => ranges,
    }
}

impl NodeRangeCheck {
    /// The point at which the node that the open range names is to be looked
    /// for; nothing where the open range names no node.
    pub fn open_node_point(limit_ranges: &Option<Vec<ScopeRange>>) -> (point: Option<Point>)
        ensures
            point == open_point(option_ranges(*limit_ranges)),
    {
        match limit_ranges {
            Some(ranges) => {
                if ranges.len() > 0 {
                    match ranges[ranges.len() - 1] {
                        ScopeRange::Node { start } => Some(start),
                        _ => None,
                    }
                } else {
                    None
                }
            },
            None => None,
        }
    }

    /// Tests the node from `node_start` to `node_end` against the ranges,
    /// after the node that the open range names has been looked for in the
    /// tree: `found` holds the start and the end of that node, if there is
    /// one.
    pub fn check_parent_scoped(
        limit_ranges: &mut Option<Vec<ScopeRange>>,
        found: Option<(Point, Point)>,
        node_start: Point,
        node_end: Point,
    ) -> (r: NodeRangeCheck)
        requires
            option_ranges(*old(limit_ranges)) matches Some(list) ==> given_by_points(list),
        ensures
            (option_ranges(*final(limit_ranges)), r) == checked(
                scoped(option_ranges(*old(limit_ranges)), found),
                node_start,
                node_end,
            ),
    {
        let open = NodeRangeCheck::open_node_point(limit_ranges);
        match (open, found) {
            (Some(_), Some((start, end))) => {
                let taken = limit_ranges.take();
                match taken {
                    Some(mut ranges) => {
                        let ghost list = ranges@;
                        let n = ranges.len();
                        ranges.set(n - 1, ScopeRange::Range { start, end });
                        assert(ranges@ =~= list.drop_last().push(ScopeRange::Range { start, end }));
                        *limit_ranges = Some(ranges);
                    },
                    None => {},
                }
            },
            _ => {},
        }
        NodeRangeCheck::check(limit_ranges, node_start, node_end)
    }
}

} // verus!
