//! Custodian capture: after a move, each enemy figure next to the moved
//! figure is taken if the square behind it is blocked; otherwise it may
//! still fall with a shieldwall.
//!
//! Surrounding the King is a win condition, not a capture.

use vstd::prelude::*;
use crate::board::{Board, BoardView, Position};
use crate::figure::{Figure, FigureKind, Side};
use crate::shieldwall_capturing::{
    along, edge_side_of, holds_side, in_wall, lemma_wall_members_share_side, on_line, runs_along_y, same_line,
    shieldwall, shieldwall_capture_check, shieldwall_victims,
};

verus! {

/// Asks for the capture check that follows a move.
#[derive(Debug, Copy, Clone, PartialEq, Eq, Structural)]
pub struct CaptureCheckEvent {
    /// The figure that was moved, on its new square.
    pub moved_figure: Figure,
}

/// Says that the capture check of a move is over.
#[derive(Debug, Copy, Clone, PartialEq, Eq, Structural)]
pub struct EndMoveEvent {
    pub capture_happened: bool,
}

/// Asks for a test whether the King is surrounded.
#[derive(Debug, Copy, Clone, PartialEq, Eq, Structural)]
pub struct KingSurroundedCheckEvent {
    /// The square of the King that an enemy moved next to.
    pub king_position: Position,
}

/// Whether `position` is blocked for `figure`: it holds an enemy of the
/// figure, or is an escape square, or is the empty throne.
pub open spec fn blocked(board: BoardView, figure: Figure, position: Position) -> bool {
    ||| (match board.occupant(position) {
        Some(other) => other.side != figure.side,
        None => false,
    })
    ||| board.is_end(position)
    ||| (board.throne_position == position && board.occupant(position) is None)
}

/// The coordinate as far beyond `through` as `from` is before it, if it
/// is a coordinate at all.
pub open spec fn reflected(from: usize, through: usize) -> Option<usize> {
    if 0 <= 2 * through - from <= usize::MAX {
        Some((2 * through - from) as usize)
    } else {
        None
    }
}

/// The square on the other side of `figure` from `moved`, if the grid of
/// coordinates reaches that far.
pub open spec fn mirrored(moved: Position, figure: Position) -> Option<Position> {
    match (reflected(moved.x, figure.x), reflected(moved.y, figure.y)) {
        (Some(x), Some(y)) => Some(Position { x, y }),
        _ => None,
    }
}

/// The custodian rule takes `figure`: it is an enemy of the moved figure,
/// not the King, and the square behind it is blocked for it.
pub open spec fn custodian_applies(board: BoardView, moved: Figure, figure: Figure) -> bool {
    &&& figure.side != moved.side
    &&& figure.kind != FigureKind::King
    &&& match mirrored(moved.position, figure.position) {
        Some(behind) => blocked(board, figure, behind),
        None => false,
    }
}

/// The squares emptied by the check of one neighbor `figure` of the moved
/// figure: none for a friend, its own square under the custodian rule,
/// else the victims of the shieldwall it stands in.
pub open spec fn removed_by(board: BoardView, moved: Figure, figure: Figure) -> Set<Position> {
    if figure.side == moved.side {
        Set::empty()
    } else if custodian_applies(board, moved, figure) {
        set![figure.position]
    } else {
        shieldwall_victims(board, figure.position)
    }
}

/// Whether the check of one neighbor counts as a capture.
pub open spec fn captures(board: BoardView, moved: Figure, figure: Figure) -> bool {
    figure.side != moved.side && (custodian_applies(board, moved, figure) || exists|p: Position|
        shieldwall_victims(board, figure.position).contains(p))
}

/// The board after the neighbors `figures` were checked one after the
/// other, each on the board that the checks before it left.
pub open spec fn after_checks(board: BoardView, moved: Figure, figures: Seq<Figure>) -> BoardView
    decreases figures.len(),
{
    if figures.len() == 0 {
        board
    } else {
        let before = after_checks(board, moved, figures.drop_last());
        before.without(removed_by(before, moved, figures.last()))
    }
}

/// Whether one of the checks of the neighbors `figures` was a capture.
pub open spec fn captured_in(board: BoardView, moved: Figure, figures: Seq<Figure>) -> bool
    decreases figures.len(),
{
    if figures.len() == 0 {
        false
    } else {
        captured_in(board, moved, figures.drop_last()) || captures(
            after_checks(board, moved, figures.drop_last()),
            moved,
            figures.last(),
        )
    }
}

/// The last enemy King among `figures`, if there is one.
pub open spec fn enemy_king_in(moved: Figure, figures: Seq<Figure>) -> Option<Position>
    decreases figures.len(),
{
    if figures.len() == 0 {
        None
    } else if figures.last().side != moved.side && figures.last().kind == FigureKind::King {
        Some(figures.last().position)
    } else {
        enemy_king_in(moved, figures.drop_last())
    }
}

/// `after` is what a capture check by a figure of `side` can leave of
/// `board`: the same ground, no square filled or changed, and every
/// figure of `side` and every King still in place.
pub open spec fn spares(after: BoardView, board: BoardView, side: Side) -> bool {
    &&& after.rows == board.rows
    &&& after.cols == board.cols
    &&& after.throne_position == board.throne_position
    &&& after.end_positions == board.end_positions
    &&& forall|p: Position| #[trigger] after.occupant(p) is None || after.occupant(p) == board.occupant(p)
    &&& forall|p: Position|
        (match #[trigger] board.occupant(p) {
            Some(f) => f.side == side || f.kind == FigureKind::King,
            None => false,
        }) ==> after.occupant(p) == board.occupant(p)
}

/// A capture check takes only enemies of the moved figure, and never a
/// King: whatever the neighbors `figures`, as long as each of them stands
/// on the board, the friends of the moved figure and every King stay
/// where they are, and no other square changes but by becoming empty.
pub proof fn lemma_checks_spare_friends_and_kings(board: BoardView, moved: Figure, figures: Seq<Figure>)
    requires
        board.wf(),
        forall|i: int| 0 <= i < figures.len() ==> board.occupant((#[trigger] figures[i]).position) == Some(figures[i]),
    ensures
        after_checks(board, moved, figures).wf(),
        spares(after_checks(board, moved, figures), board, moved.side),
    decreases figures.len(),
{
    if figures.len() > 0 {
        let front = figures.drop_last();
        assert forall|i: int| 0 <= i < front.len() implies board.occupant((#[trigger] front[i]).position) == Some(
            front[i],
        ) by {
            assert(front[i] == figures[i]);
        }
        lemma_checks_spare_friends_and_kings(board, moved, front);
        let before = after_checks(board, moved, front);
        let figure = figures.last();
        let gone = removed_by(before, moved, figure);
        let after = before.without(gone);
        assert(board.occupant(figure.position) == Some(figure));
        assert forall|p: Position| gone.contains(p) implies (match before.occupant(p) {
            Some(f) => f.side != moved.side && f.kind != FigureKind::King,
            None => true,
        }) by {
            assert(before.occupant(figure.position) is None || before.occupant(figure.position) == Some(figure));
            if figure.side != moved.side && !custodian_applies(before, moved, figure) {
                lemma_wall_members_share_side(before, figure.position, p);
            }
        }
        assert forall|p: Position| #[trigger] after.occupant(p) is None || after.occupant(p) == board.occupant(p) by {
            assert(before.occupant(p) is None || before.occupant(p) == board.occupant(p));
        }
        assert forall|p: Position|
            (match #[trigger] board.occupant(p) {
                Some(f) => f.side == moved.side || f.kind == FigureKind::King,
                None => false,
            }) implies after.occupant(p) == board.occupant(p) by {
            assert(before.occupant(p) == board.occupant(p));
        }
    }
}

/// The two squares lie next to each other in a row or a column.
pub open spec fn adjacent(a: Position, b: Position) -> bool {
    ||| (a.y == b.y && (a.x + 1 == b.x || b.x + 1 == a.x))
    ||| (a.x == b.x && (a.y + 1 == b.y || b.y + 1 == a.y))
}

/// Custodian capture. The moved figure stands on its square; next to it
/// stands an enemy that is not the King; and the square behind the enemy
/// is blocked for it. Then the capture check takes the enemy off the
/// board and leaves the square behind it as it was.
pub proof fn lemma_custodian_capture(board: BoardView, moved: Figure, enemy: Figure, behind: Position)
    requires
        board.wf(),
        board.occupant(moved.position) == Some(moved),
        board.occupant(enemy.position) == Some(enemy),
        board.neighbors(moved.position).contains(enemy),
        enemy.side != moved.side,
        enemy.kind != FigureKind::King,
        mirrored(moved.position, enemy.position) == Some(behind),
        blocked(board, enemy, behind),
    ensures
        after_checks(board, moved, board.neighbors(moved.position)).occupant(enemy.position) is None,
        after_checks(board, moved, board.neighbors(moved.position)).occupant(behind) == board.occupant(behind),
{
    let figures = board.neighbors(moved.position);
    lemma_neighbors_stand(board, moved.position);
    let i = choose|i: int| 0 <= i < figures.len() && figures[i] == enemy;
    assert(adjacent(moved.position, figures[i].position));
    lemma_square_behind_stays(board, moved, enemy, behind, figures);
    lemma_custodian_capture_within(board, moved, enemy, behind, figures, i);
}

/// Every figure among the neighbors of a square stands on the board.
pub proof fn lemma_neighbors_stand(board: BoardView, position: Position)
    requires
        board.wf(),
    ensures
        forall|i: int|
            0 <= i < board.neighbors(position).len() ==> board.occupant(
                (#[trigger] board.neighbors(position)[i]).position,
            ) == Some(board.neighbors(position)[i]),
        forall|i: int|
            0 <= i < board.neighbors(position).len() ==> adjacent(
                position,
                (#[trigger] board.neighbors(position)[i]).position,
            ),
{
    let left = Position { x: (position.x - 1) as usize, y: position.y };
    let right = Position { x: (position.x + 1) as usize, y: position.y };
    let up = Position { x: position.x, y: (position.y - 1) as usize };
    let down = Position { x: position.x, y: (position.y + 1) as usize };
    let figures = board.neighbors(position);
    assert forall|i: int| 0 <= i < figures.len() implies board.occupant((#[trigger] figures[i]).position) == Some(
        figures[i],
    ) by {
        let f = figures[i];
        assert(board.occupant(left) == Some(f) || board.occupant(right) == Some(f) || board.occupant(up) == Some(f)
            || board.occupant(down) == Some(f));
        assert(board.figures.contains_key(left) ==> board.figures[left].position == left);
        assert(board.figures.contains_key(right) ==> board.figures[right].position == right);
        assert(board.figures.contains_key(up) ==> board.figures[up].position == up);
        assert(board.figures.contains_key(down) ==> board.figures[down].position == down);
    }
    assert forall|i: int| 0 <= i < figures.len() implies adjacent(position, (#[trigger] figures[i]).position) by {
        let f = figures[i];
        assert(board.occupant(left) == Some(f) || board.occupant(right) == Some(f) || board.occupant(up) == Some(f)
            || board.occupant(down) == Some(f));
        assert(board.figures.contains_key(left) ==> board.figures[left].position == left);
        assert(board.figures.contains_key(right) ==> board.figures[right].position == right);
        assert(board.figures.contains_key(up) ==> board.figures[up].position == up);
        assert(board.figures.contains_key(down) ==> board.figures[down].position == down);
    }
}

/// The caught shieldwall around an enemy next to the moved figure does
/// not reach the square behind another figure next to the moved figure:
/// the two squares lie on no common line, or the moved figure stands
/// between them.
proof fn lemma_wall_misses_square_behind(
    board: BoardView,
    moved: Figure,
    start: Position,
    beside: Position,
    behind: Position,
)
    requires
        board.occupant(moved.position) == Some(moved),
        adjacent(moved.position, start),
        adjacent(moved.position, beside),
        start != beside,
        mirrored(moved.position, beside) == Some(behind),
        !holds_side(board, start, moved.side),
    ensures
        !shieldwall(board, start).contains(behind),
{
    if shieldwall(board, start).contains(behind) {
        let edge = edge_side_of(board, start)->Some_0;
        let side = board.figures[start].side;
        assert(same_line(edge, start, behind));
        assert(in_wall(board, edge, start, side, along(edge, behind)));
        let at = along(edge, moved.position);
        assert(on_line(edge, start, at) == moved.position);
        assert(holds_side(board, on_line(edge, start, at), side));
    }
}

/// The capture check leaves the square behind an enemy that the custodian
/// rule takes as it was.
proof fn lemma_square_behind_stays(
    board: BoardView,
    moved: Figure,
    enemy: Figure,
    behind: Position,
    figures: Seq<Figure>,
)
    requires
        board.wf(),
        board.occupant(moved.position) == Some(moved),
        board.occupant(enemy.position) == Some(enemy),
        adjacent(moved.position, enemy.position),
        enemy.side != moved.side,
        enemy.kind != FigureKind::King,
        mirrored(moved.position, enemy.position) == Some(behind),
        blocked(board, enemy, behind),
        forall|k: int| 0 <= k < figures.len() ==> board.occupant((#[trigger] figures[k]).position) == Some(figures[k]),
        forall|k: int| 0 <= k < figures.len() ==> adjacent(moved.position, (#[trigger] figures[k]).position),
    ensures
        after_checks(board, moved, figures).occupant(behind) == board.occupant(behind),
    decreases figures.len(),
{
    if figures.len() > 0 {
        let front = figures.drop_last();
        assert forall|k: int| 0 <= k < front.len() implies board.occupant((#[trigger] front[k]).position) == Some(
            front[k],
        ) && adjacent(moved.position, front[k].position) by {
            assert(front[k] == figures[k]);
        }
        lemma_square_behind_stays(board, moved, enemy, behind, front);
        lemma_checks_spare_friends_and_kings(board, moved, front);
        let before = after_checks(board, moved, front);
        let last = figures.last();
        let gone = removed_by(before, moved, last);
        assert(adjacent(moved.position, last.position));
        assert(board.occupant(last.position) == Some(last));
        assert(before.occupant(moved.position) == Some(moved));
        assert(before.occupant(last.position) is None || before.occupant(last.position) == Some(last));
        if last.side != moved.side {
            if custodian_applies(before, moved, last) {
                assert(last.position != behind);
            } else {
                if last.position == enemy.position {
                    assert(blocked(before, enemy, behind));
                    assert(false);
                } else {
                    lemma_wall_misses_square_behind(before, moved, last.position, enemy.position, behind);
                }
            }
        }
        assert(!gone.contains(behind));
    }
}

/// The capture check takes an enemy among the neighbors `figures` whose
/// square behind is blocked.
proof fn lemma_custodian_capture_within(
    board: BoardView,
    moved: Figure,
    enemy: Figure,
    behind: Position,
    figures: Seq<Figure>,
    i: int,
)
    requires
        board.wf(),
        board.occupant(enemy.position) == Some(enemy),
        forall|k: int| 0 <= k < figures.len() ==> board.occupant((#[trigger] figures[k]).position) == Some(figures[k]),
        0 <= i < figures.len(),
        figures[i] == enemy,
        enemy.side != moved.side,
        enemy.kind != FigureKind::King,
        mirrored(moved.position, enemy.position) == Some(behind),
        blocked(board, enemy, behind),
    ensures
        after_checks(board, moved, figures).occupant(enemy.position) is None,
    decreases figures.len(),
{
    let front = figures.drop_last();
    assert forall|k: int| 0 <= k < front.len() implies board.occupant((#[trigger] front[k]).position) == Some(
        front[k],
    ) by {
        assert(front[k] == figures[k]);
    }
    lemma_checks_spare_friends_and_kings(board, moved, front);
    let before = after_checks(board, moved, front);
    assert(before.occupant(behind) is None || before.occupant(behind) == board.occupant(behind));
    if !holds_side(board, behind, enemy.side) {
        assert(before.occupant(behind) == board.occupant(behind));
    } else {
        assert(board.is_end(behind));
    }
    if i == figures.len() - 1 {
        assert(blocked(before, enemy, behind));
        assert(custodian_applies(before, moved, enemy));
    } else {
        assert(front[i] == enemy);
        lemma_custodian_capture_within(board, moved, enemy, behind, front, i);
    }
}

/// Captures a figure: the square it stands on becomes empty.
pub fn capture(board: &mut Board, figure: Figure)
    requires
        old(board)@.wf(),
    ensures
        final(board)@.wf(),
        final(board)@ == old(board)@.without(set![figure.position]),
{
    let _ = board.remove(figure.position);
}

/// Reflects the coordinate `from` through `through`.
pub fn reflect(from: usize, through: usize) -> (beyond: Option<usize>)
    ensures
        beyond == reflected(from, through),
{
    if through >= from {
        let d = through - from;
        if d <= usize::MAX - through {
            Some(through + d)
        } else {
            None
        }
    } else {
        let d = from - through;
        if d <= through {
            Some(through - d)
        } else {
            None
        }
    }
}

/// Determines whether `position` on the board is blocked for `figure`.
///
/// A blocked position either
/// - contains an enemy of the figure,
/// - is an end position (an escape square), or
/// - is the empty throne.
pub fn is_blocked(board: &Board, figure: Figure, position: Position) -> (is_blocked: bool)
    ensures
        is_blocked == blocked(board@, figure, position),
{
    let other = board.figure_at(position);
    if let Some(other_figure) = other {
        if other_figure.side != figure.side {
            return true;
        }
    }
    if board.is_end_position(position) {
        return true;
    }
    if board.throne_position == position && other.is_none() {
        return true;
    }
    false
}

/// Checks the figures next to the moved figure, in the order left, right,
/// up, down, and takes those that are captured off the board.
///
/// A friend of the moved figure is left alone. An enemy King is never
/// taken, but the shieldwall it may stand in is checked and a test whether
/// it is surrounded is asked for. Any other enemy is taken if the square
/// behind it is blocked; if not, the shieldwall it may stand in is checked.
pub fn capture_check(board: &mut Board, event: CaptureCheckEvent) -> (outcome: (
    EndMoveEvent,
    Option<KingSurroundedCheckEvent>,
))
    requires
        old(board)@.wf(),
    ensures
        final(board)@.wf(),
        final(board)@ == after_checks(
            old(board)@,
            event.moved_figure,
            old(board)@.neighbors(event.moved_figure.position),
        ),
        outcome.0.capture_happened == captured_in(
            old(board)@,
            event.moved_figure,
            old(board)@.neighbors(event.moved_figure.position),
        ),
        outcome.1 == (match enemy_king_in(
            event.moved_figure,
            old(board)@.neighbors(event.moved_figure.position),
        ) {
            Some(p) => Some(KingSurroundedCheckEvent { king_position: p }),
            None => None,
        }),
{
    let moved_figure = event.moved_figure;
    let mut capture_happened = false;
    let mut king_check: Option<KingSurroundedCheckEvent> = None;
    let neighbors = board.get_neighbors(moved_figure.position);
    let n = neighbors.len();
    let mut i: usize = 0;
    while i < n
        invariant
            i <= n,
            n == neighbors@.len(),
            neighbors@ == old(board)@.neighbors(moved_figure.position),
            board@.wf(),
            board@ == after_checks(old(board)@, moved_figure, neighbors@.subrange(0, i as int)),
            capture_happened == captured_in(old(board)@, moved_figure, neighbors@.subrange(0, i as int)),
            king_check == (match enemy_king_in(moved_figure, neighbors@.subrange(0, i as int)) {
                Some(p) => Some(KingSurroundedCheckEvent { king_position: p }),
                None => None,
            }),
        decreases n - i,
    {
        let figure = neighbors[i];
        proof {
            let next = neighbors@.subrange(0, i as int + 1);
            assert(next.drop_last() =~= neighbors@.subrange(0, i as int));
            assert(next.last() == figure);
        }
        i += 1;
        // only enemies can be captured
        if figure.side == moved_figure.side {
            proof {
                assert(board@.figures =~= board@.without(Set::empty()).figures);
            }
            continue;
        }
        // the king can't be captured, but may be part of a shieldwall
        if figure.kind == FigureKind::King {
            let happened = shieldwall_capture_check(board, figure.position);
            capture_happened = capture_happened || happened;
            king_check = Some(KingSurroundedCheckEvent { king_position: figure.position });
            continue;
        }
        let behind = match (reflect(moved_figure.position.x, figure.position.x), reflect(
            moved_figure.position.y,
            figure.position.y,
        )) {
            (Some(x), Some(y)) => Some(Position { x, y }),
            _ => None,
        };
        let taken = match behind {
            Some(other_position) => is_blocked(board, figure, other_position),
            None => false,
        };
        if taken {
            capture(board, figure);
            capture_happened = true;
        } else {
            let happened = shieldwall_capture_check(board, figure.position);
            capture_happened = capture_happened || happened;
        }
    }
    proof {
        assert(neighbors@.subrange(0, n as int) =~= neighbors@);
    }
    (EndMoveEvent { capture_happened }, king_check)
}

} // verus!
