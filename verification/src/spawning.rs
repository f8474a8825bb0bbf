//! Setting a game up and taking it down: the board of the running game
//! and the figures that were put on it.

use vstd::prelude::*;
use crate::board::{Board, BoardView, Position};
use crate::figure::{Figure, Side};
use crate::moving::TurnTracker;
use crate::spawn_data::SimpleId;

verus! {

/// Asks for a board to be set up under the number `id`.
pub struct SpawnBoardEvent {
    pub id: SimpleId,
    pub board: Board,
}

/// The board of the running game, with its number and whose turn it is.
pub struct MainBoard {
    pub id: SimpleId,
    pub board: Board,
    pub turn_tracker: TurnTracker,
}

/// Asks for figures to be put on the board with the number `board_id`.
pub struct SpawnFiguresEvent {
    pub board_id: SimpleId,
    pub figures: Vec<Figure>,
}

/// The figures that were put on the board of the running game, by their
/// squares.
pub struct MainFigures {
    pub positions: Vec<Position>,
}

/// The board after `figures` were put on it one after the other.
pub open spec fn with_figures(board: BoardView, figures: Seq<Figure>) -> BoardView
    decreases figures.len(),
{
    if figures.len() == 0 {
        board
    } else {
        with_figures(board, figures.drop_last()).with_figure(figures.last())
    }
}

/// Sets up the board of a game. The Attacker moves first.
pub fn spawn_board(event: SpawnBoardEvent) -> (main_board: MainBoard)
    ensures
        main_board.id == event.id,
        main_board.board == event.board,
        main_board.turn_tracker.side == Side::Attacker,
{
    MainBoard { id: event.id, board: event.board, turn_tracker: TurnTracker { side: Side::Attacker } }
}

/// Takes the board of the running game away.
pub fn despawn_board(main_board: &mut Option<MainBoard>)
    requires
        *old(main_board) is Some,
    ensures
        *final(main_board) is None,
{
    *main_board = None;
}

/// Puts the figures of the event on the board, each on its square; a
/// figure that stood there before is replaced.
pub fn spawn_figures(main_board: &mut MainBoard, event: SpawnFiguresEvent) -> (main_figures: MainFigures)
    requires
        old(main_board).board@.wf(),
        event.board_id == old(main_board).id,
        forall|i: int| 0 <= i < event.figures@.len() ==> old(main_board).board@.on_board(
            (#[trigger] event.figures@[i]).position,
        ),
    ensures
        final(main_board).board@.wf(),
        final(main_board).board@ == with_figures(old(main_board).board@, event.figures@),
        final(main_board).id == old(main_board).id,
        final(main_board).turn_tracker == old(main_board).turn_tracker,
        main_figures.positions@.len() == event.figures@.len(),
        forall|i: int| 0 <= i < event.figures@.len() ==> main_figures.positions@[i] == (#[trigger] event.figures@[i]).position,
{
    let mut positions: Vec<Position> = Vec::new();
    let n = event.figures.len();
    let mut i: usize = 0;
    while i < n
        invariant
            i <= n,
            n == event.figures@.len(),
            main_board.board@.wf(),
            main_board.id == old(main_board).id,
            main_board.turn_tracker == old(main_board).turn_tracker,
            main_board.board@.rows == old(main_board).board@.rows,
            main_board.board@.cols == old(main_board).board@.cols,
            forall|k: int| 0 <= k < event.figures@.len() ==> old(main_board).board@.on_board(
                (#[trigger] event.figures@[k]).position,
            ),
            main_board.board@ == with_figures(old(main_board).board@, event.figures@.subrange(0, i as int)),
            positions@.len() == i,
            forall|k: int| 0 <= k < i ==> positions@[k] == (#[trigger] event.figures@[k]).position,
        decreases n - i,
    {
        let figure = event.figures[i];
        proof {
            let next = event.figures@.subrange(0, i as int + 1);
            assert(next.drop_last() =~= event.figures@.subrange(0, i as int));
            assert(next.last() == figure);
        }
        main_board.board.place(figure);
        positions.push(figure.position);
        i += 1;
    }
    proof {
        assert(event.figures@.subrange(0, n as int) =~= event.figures@);
    }
    MainFigures { positions }
}

/// Takes the figures that were put on the board off it again.
pub fn despawn_figures(main_board: &mut MainBoard, main_figures: MainFigures)
    requires
        old(main_board).board@.wf(),
    ensures
        final(main_board).board@.wf(),
        final(main_board).board@ == old(main_board).board@.without(main_figures.positions@.to_set()),
        final(main_board).id == old(main_board).id,
        final(main_board).turn_tracker == old(main_board).turn_tracker,
{
    let n = main_figures.positions.len();
    let mut i: usize = 0;
    proof {
        assert(main_board.board@.figures =~= main_board.board@.without(
            main_figures.positions@.subrange(0, 0).to_set(),
        ).figures);
    }
    while i < n
        invariant
            i <= n,
            n == main_figures.positions@.len(),
            main_board.board@.wf(),
            main_board.id == old(main_board).id,
            main_board.turn_tracker == old(main_board).turn_tracker,
            main_board.board@ == old(main_board).board@.without(
                main_figures.positions@.subrange(0, i as int).to_set(),
            ),
        decreases n - i,
    {
        let position = main_figures.positions[i];
        let _ = main_board.board.remove(position);
        proof {
            let seen = main_figures.positions@.subrange(0, i as int);
            let next = main_figures.positions@.subrange(0, i as int + 1);
            assert(next =~= seen.push(position));
            assert forall|p: Position| next.to_set().contains(p) <==> (seen.to_set().contains(p) || p == position) by {
                if next.contains(p) {
                    let k = choose|k: int| 0 <= k < next.len() && next[k] == p;
                    if k < seen.len() {
                        assert(seen[k] == p);
                    }
                }
                if seen.contains(p) {
                    let k = choose|k: int| 0 <= k < seen.len() && seen[k] == p;
                    assert(next[k] == p);
                }
                assert(next[i as int] == position);
            }
            assert(main_board.board@.figures =~= old(main_board).board@.without(next.to_set()).figures);
        }
        i += 1;
    }
    proof {
        assert(main_figures.positions@.subrange(0, n as int) =~= main_figures.positions@);
    }
}

} // verus!
