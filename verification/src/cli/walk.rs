//! The walk through a tree, as the decisions between the moves of a cursor.
//!
//! The cursor belongs to the caller. The caller tries the move that the walk
//! names, reports whether the cursor moved, and hands the event that follows
//! to its visitor.

use vstd::prelude::*;
use crate::cli::edit::{point_lt, Point};

verus! {

/// A move of the cursor.
#[derive(Clone, Copy, Debug, PartialEq, Eq, Structural)]
pub enum Move {
    FirstChild,
    NextSibling,
    Parent,
}

/// What happens to a visitor on the way through the tree.
#[derive(Clone, Copy, Debug, PartialEq, Eq, Structural)]
pub enum Event {
    /// The cursor went down to a child.
    Child,
    /// The node under the cursor has no children.
    Leaf,
    /// The cursor went on to a sibling.
    Sibling,
    /// The cursor came back to a parent.
    Parent,
}

/// What the walk does next.
#[derive(Clone, Copy, Debug, PartialEq, Eq, Structural)]
pub enum Step {
    /// Try this move.
    Try(Move),
    /// Hand the event to the visitor, then visit the node under the cursor;
    /// the flag says whether the node has been walked through.
    Emit(Event, bool),
    /// The walk is over.
    End,
}

/// The move that is tried at a node: down, unless the node has been walked
/// through, and then on to its sibling.
pub open spec fn move_at(traversed: bool) -> Move {
    if traversed {
        Move::NextSibling
    } else {
        Move::FirstChild
    }
}

/// What follows a move. A move down gives a child, or shows the node to be
/// a leaf, which has then been walked through. A move on gives a sibling; if
/// there is none, the way back up is tried. A move up gives a parent that has
/// been walked through; if there is none, the walk is over.
pub open spec fn step_after(tried: Move, moved: bool) -> Step {
    match tried {
        Move::FirstChild => if moved {
            Step::Emit(Event::Child, false)
        } else {
            Step::Emit(Event::Leaf, true)
        },
        Move::NextSibling => if moved {
            Step::Emit(Event::Sibling, false)
        } else {
            Step::Try(Move::Parent)
        },
        Move::Parent => if moved {
            Step::Emit(Event::Parent, true)
        } else {
            Step::End
        },
    }
}

/// The move to try at a node.
pub fn first_move(traversed: bool) -> (m: Move)
    ensures
        m == move_at(traversed),
{
    if traversed {
        Move::NextSibling
    } else {
        Move::FirstChild
    }
}

/// What the walk does after the move `tried`, given whether the cursor moved.
pub fn after_move(tried: Move, moved: bool) -> (step: Step)
    ensures
        step == step_after(tried, moved),
{
    match tried {
        Move::FirstChild => if moved {
            Step::Emit(Event::Child, false)
        } else {
            Step::Emit(Event::Leaf, true)
        },
        Move::NextSibling => if moved {
            Step::Emit(Event::Sibling, false)
        } else {
            Step::Try(Move::Parent)
        },
        Move::Parent => if moved {
            Step::Emit(Event::Parent, true)
        } else {
            Step::End
        },
    }
}

/// A walk never tries more than two moves between two events: what follows
/// the move tried at a node is an event, or the way up, and what follows the
/// way up is an event or the end.
pub proof fn two_moves_reach_an_event(traversed: bool, moved: bool, moved_up: bool)
    ensures
        match step_after(move_at(traversed), moved) {
            Step::Emit(_, _) => true,
            Step::Try(next) => next == Move::Parent && !(step_after(next, moved_up) is Try),
            Step::End => false,
        },
{
}

/// A step of the search for the first error in a tree.
#[derive(Clone, Copy, Debug, PartialEq, Eq, Structural)]
pub enum SearchStep {
    /// The node under the cursor is the first error.
    Found,
    /// The error lies below: go down to the first child.
    Descend,
    /// There is no error here: go on to the next sibling.
    Advance,
}

/// Where the first error lies, seen from a node: at the node if it holds an
/// error and is one or is missing, below it if it holds one otherwise, and
/// further on if it holds none.
pub open spec fn search_step_at(has_error: bool, is_error: bool, is_missing: bool) -> SearchStep {
    if has_error {
        if is_error || is_missing {
            SearchStep::Found
        } else {
            SearchStep::Descend
        }
    } else {
        SearchStep::Advance
    }
}

/// The step of the search for the first error at a node.
pub fn error_search_step(has_error: bool, is_error: bool, is_missing: bool) -> (step: SearchStep)
    ensures
        step == search_step_at(has_error, is_error, is_missing),
{
    if has_error {
        if is_error || is_missing {
            SearchStep::Found
        } else {
            SearchStep::Descend
        }
    } else {
        SearchStep::Advance
    }
}

/// A step of the search for the node at a point, on the way down.
#[derive(Clone, Copy, Debug, PartialEq, Eq, Structural)]
pub enum SeekStep {
    /// The node under the cursor is the one.
    Take,
    /// Go down to the first child; without a child, the next sibling is the
    /// one.
    DownOrSibling,
    /// Go on to the next sibling.
    Along,
    /// Go down to the first child; without a child, the node under the
    /// cursor is the one.
    DownOrTake,
}

/// Whether the search for the node at `point` goes up from a node that
/// starts at `node_start`: it does until a node starts before the point.
pub open spec fn climbs_at(node_start: Point, point: Point) -> bool {
    !point_lt(node_start, point)
}

/// Where the node at `point` lies, seen on the way down from a node that
/// starts at `node_start` and whose next sibling, if it has one, starts at
/// `sibling_start`. A node that does not start before the point is the
/// one. Else the point lies below the node where its sibling starts behind
/// the point or where it has no sibling, and further along where the
/// sibling does not start behind it.
pub open spec fn seek_step_at(point: Point, node_start: Point, sibling_start: Option<Point>) -> SeekStep {
    if point_lt(node_start, point) {
        match sibling_start {
            Some(start) => if point_lt(point, start) {
                SeekStep::DownOrSibling
            } else {
                SeekStep::Along
            },
            None => SeekStep::DownOrTake,
        }
    } else {
        SeekStep::Take
    }
}

/// Whether the search for the node at `point` goes up from the node that
/// starts at `node_start`.
pub fn seek_climbs(node_start: Point, point: Point) -> (up: bool)
    ensures
        up == climbs_at(node_start, point),
{
    !node_start.precedes(&point)
}

/// The step of the search for the node at `point` on the way down.
pub fn seek_step(point: Point, node_start: Point, sibling_start: Option<Point>) -> (step: SeekStep)
    ensures
        step == seek_step_at(point, node_start, sibling_start),
{
    if node_start.precedes(&point) {
        match sibling_start {
            Some(start) => if point.precedes(&start) {
                SeekStep::DownOrSibling
            } else {
                SeekStep::Along
            },
            None => SeekStep::DownOrTake,
        }
    } else {
        SeekStep::Take
    }
}

} // verus!
