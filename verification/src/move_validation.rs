//! Legal moves: a figure slides any number of squares along a row or a
//! column, over squares it may be placed on.

use vstd::prelude::*;
use crate::board::{Axis2, Board, BoardView, Position};
use crate::figure::{Figure, FigureKind};

verus! {

/// Whether `figure` may be placed on `to`: the square is empty, and it is
/// neither an escape square nor the throne unless the figure is the King.
pub open spec fn placeable(board: BoardView, figure: Figure, to: Position) -> bool {
    &&& board.occupant(to) is None
    &&& ((!board.is_end(to) && board.throne_position != to) || figure.kind == FigureKind::King)
}

/// The coordinate of `position` along `axis`.
pub open spec fn coordinate(axis: Axis2, position: Position) -> int {
    match axis {
        Axis2::X => position.x as int,
        Axis2::Y => position.y as int,
    }
}

/// The number of squares of the board along `axis`.
pub open spec fn extent(board: BoardView, axis: Axis2) -> int {
    match axis {
        Axis2::X => board.cols as int,
        Axis2::Y => board.rows as int,
    }
}

/// The square `k` steps from `position` along `axis`, towards zero if
/// `backward`.
pub open spec fn step_square(position: Position, axis: Axis2, backward: bool, k: int) -> Position {
    let c = if backward {
        coordinate(axis, position) - k
    } else {
        coordinate(axis, position) + k
    };
    match axis {
        Axis2::X => Position { x: c as usize, y: position.y },
        Axis2::Y => Position { x: position.x, y: c as usize },
    }
}

/// The figure can slide `steps` squares in the given direction: they lie
/// before the end of the board, and the figure may be placed on each.
pub open spec fn reaches(board: BoardView, figure: Figure, axis: Axis2, backward: bool, steps: int) -> bool {
    &&& steps >= 1
    &&& if backward {
        steps <= coordinate(axis, figure.position)
    } else {
        coordinate(axis, figure.position) + steps < extent(board, axis)
    }
    &&& forall|k: int|
        1 <= k <= steps ==> placeable(board, figure, #[trigger] step_square(figure.position, axis, backward, k))
}

/// `to` is a legal destination of `figure`: the figure can slide to it in
/// one of the four directions.
pub open spec fn legal_destination(board: BoardView, figure: Figure, to: Position) -> bool {
    exists|axis: Axis2, backward: bool, steps: int| #[trigger]
        reaches(board, figure, axis, backward, steps) && to == step_square(
            figure.position,
            axis,
            backward,
            steps,
        )
}

/// `run` is the slide of `figure` in one direction: its squares in the
/// order of the steps, as far as the figure reaches.
pub open spec fn is_run(board: BoardView, figure: Figure, axis: Axis2, backward: bool, run: Seq<Position>) -> bool {
    &&& forall|k: int| 0 <= k < run.len() ==> #[trigger] run[k] == step_square(figure.position, axis, backward, k + 1)
    &&& forall|steps: int| 1 <= steps <= run.len() <==> #[trigger] reaches(board, figure, axis, backward, steps)
}

/// `all` is made of the four slides `left`, `right`, `up` and `down` of
/// `figure`, in this order.
pub open spec fn are_moves(
    board: BoardView,
    figure: Figure,
    left: Seq<Position>,
    right: Seq<Position>,
    up: Seq<Position>,
    down: Seq<Position>,
    all: Seq<Position>,
) -> bool {
    &&& is_run(board, figure, Axis2::X, true, left)
    &&& is_run(board, figure, Axis2::X, false, right)
    &&& is_run(board, figure, Axis2::Y, true, up)
    &&& is_run(board, figure, Axis2::Y, false, down)
    &&& all == left + right + up + down
}

/// `all` lists the legal destinations of `figure` in order: the slide to
/// the left, then to the right, then up, then down, each from the figure
/// outwards.
pub open spec fn moves_in_order(board: BoardView, figure: Figure, all: Seq<Position>) -> bool {
    exists|left: Seq<Position>, right: Seq<Position>, up: Seq<Position>, down: Seq<Position>| #[trigger]
        are_moves(board, figure, left, right, up, down, all)
}

/// A figure that is not the King never moves onto the throne or an escape
/// square.
pub proof fn lemma_soldier_avoids_throne_and_escapes(board: BoardView, figure: Figure, to: Position)
    requires
        figure.kind != FigureKind::King,
        legal_destination(board, figure, to),
    ensures
        to != board.throne_position,
        !board.is_end(to),
{
    let (axis, backward, steps) = choose|axis: Axis2, backward: bool, steps: int| #[trigger]
        reaches(board, figure, axis, backward, steps) && to == step_square(
            figure.position,
            axis,
            backward,
            steps,
        );
    assert(placeable(board, figure, step_square(figure.position, axis, backward, steps)));
}

/// The King moves onto any square of the board that it can slide to over
/// empty squares, the throne and the escape squares included.
pub proof fn lemma_king_moves_over_empty_squares(
    board: BoardView,
    king: Figure,
    axis: Axis2,
    backward: bool,
    steps: int,
)
    requires
        king.kind == FigureKind::King,
        steps >= 1,
        if backward {
            steps <= coordinate(axis, king.position)
        } else {
            coordinate(axis, king.position) + steps < extent(board, axis)
        },
        forall|k: int| 1 <= k <= steps ==> board.occupant(#[trigger] step_square(king.position, axis, backward, k)) is None,
    ensures
        legal_destination(board, king, step_square(king.position, axis, backward, steps)),
{
    assert(reaches(board, king, axis, backward, steps));
}

/// Returns the possible moves of a figure on a board: the squares it can
/// slide to, to the left, to the right, up and down.
pub fn possible_moves(board: &Board, figure: Figure) -> (result: Vec<Position>)
    ensures
        moves_in_order(board@, figure, result@),
        result@.no_duplicates(),
        forall|p: Position| result@.contains(p) <==> legal_destination(board@, figure, p),
{
    let mut result: Vec<Position> = Vec::new();
    let mut left = possible_moves_in_range(board, figure, Axis2::X, true);
    let mut right = possible_moves_in_range(board, figure, Axis2::X, false);
    let mut up = possible_moves_in_range(board, figure, Axis2::Y, true);
    let mut down = possible_moves_in_range(board, figure, Axis2::Y, false);
    let ghost r1 = left@;
    let ghost r2 = right@;
    let ghost r3 = up@;
    let ghost r4 = down@;
    result.append(&mut left);
    result.append(&mut right);
    result.append(&mut up);
    result.append(&mut down);
    proof {
        assert(result@ =~= r1 + r2 + r3 + r4);
        assert(are_moves(board@, figure, r1, r2, r3, r4, result@));
        lemma_runs_cover(board@, figure, r1, r2, r3, r4);
    }
    result
}

/// Which of the four slides the element `i` of their concatenation comes
/// from, and at which step.
proof fn lemma_part(r1: Seq<Position>, r2: Seq<Position>, r3: Seq<Position>, r4: Seq<Position>, i: int) -> (at: (int, int))
    requires
        0 <= i < (r1 + r2 + r3 + r4).len(),
    ensures
        0 <= at.0 < 4,
        at.0 == 0 ==> 0 <= at.1 < r1.len() && (r1 + r2 + r3 + r4)[i] == r1[at.1] && i == at.1,
        at.0 == 1 ==> 0 <= at.1 < r2.len() && (r1 + r2 + r3 + r4)[i] == r2[at.1] && i == r1.len() + at.1,
        at.0 == 2 ==> 0 <= at.1 < r3.len() && (r1 + r2 + r3 + r4)[i] == r3[at.1] && i == r1.len() + r2.len() + at.1,
        at.0 == 3 ==> 0 <= at.1 < r4.len() && (r1 + r2 + r3 + r4)[i] == r4[at.1] && i == r1.len() + r2.len()
            + r3.len() + at.1,
{
    if i < r1.len() {
        (0, i)
    } else if i < r1.len() + r2.len() {
        (1, i - r1.len())
    } else if i < r1.len() + r2.len() + r3.len() {
        (2, i - r1.len() - r2.len())
    } else {
        (3, i - r1.len() - r2.len() - r3.len())
    }
}

/// The four slides together hold each legal destination once, and nothing
/// else.
proof fn lemma_runs_cover(
    board: BoardView,
    figure: Figure,
    r1: Seq<Position>,
    r2: Seq<Position>,
    r3: Seq<Position>,
    r4: Seq<Position>,
)
    requires
        is_run(board, figure, Axis2::X, true, r1),
        is_run(board, figure, Axis2::X, false, r2),
        is_run(board, figure, Axis2::Y, true, r3),
        is_run(board, figure, Axis2::Y, false, r4),
    ensures
        (r1 + r2 + r3 + r4).no_duplicates(),
        forall|p: Position| (r1 + r2 + r3 + r4).contains(p) <==> legal_destination(board, figure, p),
{
    let all = r1 + r2 + r3 + r4;
    let from = figure.position;
    assert forall|k: int| 0 <= k < r1.len() implies (#[trigger] r1[k]).y == from.y && r1[k].x == from.x - (k + 1) by {
        assert(reaches(board, figure, Axis2::X, true, k + 1));
    }
    assert forall|k: int| 0 <= k < r2.len() implies (#[trigger] r2[k]).y == from.y && r2[k].x == from.x + (k + 1) by {
        assert(reaches(board, figure, Axis2::X, false, k + 1));
    }
    assert forall|k: int| 0 <= k < r3.len() implies (#[trigger] r3[k]).x == from.x && r3[k].y == from.y - (k + 1) by {
        assert(reaches(board, figure, Axis2::Y, true, k + 1));
    }
    assert forall|k: int| 0 <= k < r4.len() implies (#[trigger] r4[k]).x == from.x && r4[k].y == from.y + (k + 1) by {
        assert(reaches(board, figure, Axis2::Y, false, k + 1));
    }
    assert forall|i: int, j: int| 0 <= i < j < all.len() implies all[i] != all[j] by {
        let pi = lemma_part(r1, r2, r3, r4, i);
        let pj = lemma_part(r1, r2, r3, r4, j);
    }
    assert forall|p: Position| all.contains(p) implies legal_destination(board, figure, p) by {
        let i = choose|i: int| 0 <= i < all.len() && all[i] == p;
        let at = lemma_part(r1, r2, r3, r4, i);
        if at.0 == 0 {
            assert(reaches(board, figure, Axis2::X, true, at.1 + 1));
        } else if at.0 == 1 {
            assert(reaches(board, figure, Axis2::X, false, at.1 + 1));
        } else if at.0 == 2 {
            assert(reaches(board, figure, Axis2::Y, true, at.1 + 1));
        } else {
            assert(reaches(board, figure, Axis2::Y, false, at.1 + 1));
        }
    }
    assert forall|p: Position| legal_destination(board, figure, p) implies all.contains(p) by {
        let (axis, backward, steps) = choose|axis: Axis2, backward: bool, steps: int| #[trigger]
            reaches(board, figure, axis, backward, steps) && p == step_square(
                figure.position,
                axis,
                backward,
                steps,
            );
        if axis == Axis2::X && backward {
            assert(r1[steps - 1] == p);
            assert(all[steps - 1] == p);
        } else if axis == Axis2::X {
            assert(r2[steps - 1] == p);
            assert(all[r1.len() + steps - 1] == p);
        } else if backward {
            assert(r3[steps - 1] == p);
            assert(all[r1.len() + r2.len() + steps - 1] == p);
        } else {
            assert(r4[steps - 1] == p);
            assert(all[r1.len() + r2.len() + r3.len() + steps - 1] == p);
        }
    }
}

/// Walks from the figure's square along `axis`, towards zero if
/// `backward`, and collects the squares the figure can be placed on; the
/// walk stops at the first square it cannot be placed on, or at the end of
/// the board.
pub fn possible_moves_in_range(board: &Board, figure: Figure, axis: Axis2, backward: bool) -> (result: Vec<
    Position,
>)
    ensures
        is_run(board@, figure, axis, backward, result@),
{
    let position = figure.position;
    let start = match axis {
        Axis2::X => position.x,
        Axis2::Y => position.y,
    };
    let limit = match axis {
        Axis2::X => board.cols,
        Axis2::Y => board.rows,
    };
    let mut result: Vec<Position> = Vec::new();
    let mut k: usize = 1;
    loop
        invariant_except_break
            k == result@.len() + 1,
        invariant
            position == figure.position,
            start == coordinate(axis, position),
            limit == extent(board@, axis),
            forall|j: int| 0 <= j < result@.len() ==> #[trigger] result@[j] == step_square(
                position,
                axis,
                backward,
                j + 1,
            ),
            forall|j: int| 1 <= j < k ==> placeable(board@, figure, #[trigger] step_square(position, axis, backward, j)),
            k >= 2 ==> (if backward { k - 1 <= start } else { start + k - 1 < limit }),
        ensures
            is_run(board@, figure, axis, backward, result@),
        decreases usize::MAX - k,
    {
        let i = if backward {
            if k > start {
                assert(!reaches(board@, figure, axis, backward, k as int));
                break;
            }
            start - k
        } else {
            if start >= limit || k >= limit - start {
                assert(!reaches(board@, figure, axis, backward, k as int));
                break;
            }
            start + k
        };
        let targeted_position = match axis {
            Axis2::X => Position { x: i, y: position.y },
            Axis2::Y => Position { x: position.x, y: i },
        };
        assert(targeted_position == step_square(position, axis, backward, k as int));
        if can_be_placed_on(board, figure, targeted_position) {
            result.push(targeted_position);
        } else {
            assert(!reaches(board@, figure, axis, backward, k as int));
            break;
        }
        if k == usize::MAX {
            assert(!reaches(board@, figure, axis, backward, k + 1));
            break;
        }
        k += 1;
    }
    result
}

/// Validates whether a figure may be placed on a certain square.
pub fn can_be_placed_on(board: &Board, figure: Figure, to_position: Position) -> (allowed: bool)
    ensures
        allowed == placeable(board@, figure, to_position),
{
    let is_king = figure.kind == FigureKind::King;
    let target_contains_figure = board.figure_at(to_position).is_some();
    let target_is_end_pos = board.is_end_position(to_position);
    let target_is_throne = board.throne_position == to_position;
    !target_contains_figure && ((!target_is_end_pos && !target_is_throne) || is_king)
}

} // verus!
