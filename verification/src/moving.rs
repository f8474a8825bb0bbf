//! The turn sequence: a move is validated, committed to the board, followed
//! by the capture check and the win conditions, and then the turn passes
//! to the other side, or the game ends.

use vstd::prelude::*;
use crate::board::{Axis2, Board, BoardView, Position, SetupError, position_in};
use crate::capturing::{
    CaptureCheckEvent, EndMoveEvent, after_checks, capture_check, captured_in,
    lemma_checks_spare_friends_and_kings, lemma_neighbors_stand,
};
use crate::figure::{Figure, FigureKind, Side};
use crate::move_validation::{
    legal_destination, moves_in_order, placeable, possible_moves, reaches, step_square,
};
use crate::win_conditions::{
    EndGameEvent, GameOutcome, GameState, KingOnCornerCheckEvent, OnGameTimerFinishedEvent, Reason,
    SurroundRule, evaluate_win_conditions, evaluated, game_timer_check, king_at, on_game_end, outcome_of,
};

verus! {

/// Whose turn it is.
#[derive(Debug, Copy, Clone, PartialEq, Eq, Structural)]
pub struct TurnTracker {
    pub side: Side,
}

impl TurnTracker {
    /// Passes the turn to the other side.
    pub fn next_turn(&mut self)
        ensures
            final(self).side == old(self).side.spec_opponent(),
    {
        match self.side {
            Side::Attacker => self.side = Side::Defender,
            Side::Defender => self.side = Side::Attacker,
        }
    }
}

/// Asks for a move, which is validated first.
#[derive(Debug, Copy, Clone, PartialEq, Eq, Structural)]
pub struct TryMoveFigureEvent {
    pub from: Position,
    pub to: Position,
    /// Whether the figure is to slide to its square rather than jump.
    pub slide: bool,
}

/// Asks for a move that was found valid to be committed to the board.
#[derive(Debug, Copy, Clone, PartialEq, Eq, Structural)]
pub struct MoveFigureEvent {
    pub from: Position,
    pub to: Position,
}

/// Says whose turn it is now; `None` when the game is over.
#[derive(Debug, Copy, Clone, PartialEq, Eq, Structural)]
pub struct IndicateTurnEvent {
    pub side: Option<Side>,
}

/// Why a move was rejected.
#[derive(Debug, Copy, Clone, PartialEq, Eq, Structural)]
pub enum MoveError {
    NoPieceAtSource,
    WrongSideToMove,
    IllegalDestination,
    GameAlreadyEnded,
}

/// What an accepted move did.
#[derive(Debug, Copy, Clone, PartialEq, Eq, Structural)]
pub struct MoveOutcome {
    pub capture_happened: bool,
    pub game_ended: bool,
}

/// One game: the board, whose turn it is, and how the game stands.
pub struct Game {
    pub board: Board,
    pub turn_tracker: TurnTracker,
    pub state: GameState,
    pub outcome: GameOutcome,
    pub rule: SurroundRule,
}

/// The board after the figure on `from` was put on `to`.
pub open spec fn shifted(board: BoardView, from: Position, to: Position) -> BoardView {
    board.without(set![from]).with_figure(Figure { position: to, ..board.figures[from] })
}

/// The board after the figure on `from` was moved to `to` and the capture
/// check was made around it.
pub open spec fn after_move(board: BoardView, from: Position, to: Position) -> BoardView {
    let moved = Figure { position: to, ..board.figures[from] };
    after_checks(shifted(board, from, to), moved, shifted(board, from, to).neighbors(to))
}

/// Whether the move from `from` to `to` captured anything.
pub open spec fn move_captures(board: BoardView, from: Position, to: Position) -> bool {
    let moved = Figure { position: to, ..board.figures[from] };
    captured_in(shifted(board, from, to), moved, shifted(board, from, to).neighbors(to))
}

/// Exactly one King stands on the board, and it is the Defender's.
pub open spec fn one_king(board: BoardView) -> bool {
    exists|k: Position| #[trigger]
        king_at(board, k) && forall|p: Position| #[trigger] king_square(board, p) ==> p == k
}

/// A King stands on `position`.
pub open spec fn king_square(board: BoardView, position: Position) -> bool {
    match board.occupant(position) {
        Some(f) => f.kind == FigureKind::King,
        None => false,
    }
}

/// A legal destination of a figure that stands on the board is an empty
/// square of the board, and not the figure's own.
pub proof fn lemma_legal_destination_is_free(board: BoardView, figure: Figure, to: Position)
    requires
        board.wf(),
        board.occupant(figure.position) is Some,
        legal_destination(board, figure, to),
    ensures
        board.on_board(to),
        board.occupant(to) is None,
        to != figure.position,
{
    let (axis, backward, steps) = choose|axis: Axis2, backward: bool, steps: int| #[trigger]
        reaches(board, figure, axis, backward, steps) && to == step_square(
            figure.position,
            axis,
            backward,
            steps,
        );
    assert(board.figures.contains_key(figure.position));
    assert(board.on_board(figure.position));
    assert(placeable(board, figure, step_square(figure.position, axis, backward, steps)));
}

/// Moving a figure to an empty square keeps the one King the one King.
pub proof fn lemma_move_keeps_one_king(board: BoardView, from: Position, to: Position)
    requires
        board.wf(),
        one_king(board),
        board.occupant(from) is Some,
        board.occupant(to) is None,
    ensures
        one_king(shifted(board, from, to)),
{
    let k = choose|k: Position| #[trigger]
        king_at(board, k) && forall|p: Position| #[trigger] king_square(board, p) ==> p == k;
    let after = shifted(board, from, to);
    let now = if k == from {
        to
    } else {
        k
    };
    assert(king_at(after, now));
    assert forall|p: Position| #[trigger] king_square(after, p) implies p == now by {
        if p == to {
            assert(king_square(board, from));
        } else {
            assert(king_square(board, p));
        }
    }
}

/// The capture check after a move keeps the one King the one King.
pub proof fn lemma_checks_keep_one_king(board: BoardView, moved: Figure, figures: Seq<Figure>)
    requires
        board.wf(),
        one_king(board),
        forall|i: int| 0 <= i < figures.len() ==> board.occupant((#[trigger] figures[i]).position) == Some(figures[i]),
    ensures
        one_king(after_checks(board, moved, figures)),
{
    let k = choose|k: Position| #[trigger]
        king_at(board, k) && forall|p: Position| #[trigger] king_square(board, p) ==> p == k;
    let after = after_checks(board, moved, figures);
    lemma_checks_spare_friends_and_kings(board, moved, figures);
    assert(after.occupant(k) == board.occupant(k));
    assert(king_at(after, k));
    assert forall|p: Position| #[trigger] king_square(after, p) implies p == k by {
        assert(after.occupant(p) is None || after.occupant(p) == board.occupant(p));
        assert(king_square(board, p));
    }
}

/// A whole move, with its capture check, keeps the one King the one King.
pub proof fn lemma_after_move_keeps_one_king(board: BoardView, from: Position, to: Position)
    requires
        board.wf(),
        one_king(board),
        board.occupant(from) is Some,
        board.occupant(to) is None,
        board.on_board(to),
    ensures
        one_king(after_move(board, from, to)),
{
    let moved = Figure { position: to, ..board.figures[from] };
    let after = shifted(board, from, to);
    lemma_move_keeps_one_king(board, from, to);
    assert(after.wf());
    lemma_neighbors_stand(after, to);
    lemma_checks_keep_one_king(after, moved, after.neighbors(to));
}

impl Game {
    /// The game's invariant: the board's own, exactly one King on the
    /// board, and the state is `End` exactly when the game was won.
    pub open spec fn wf(&self) -> bool {
        &&& self.board@.wf()
        &&& one_king(self.board@)
        &&& (self.state == GameState::End) == (self.outcome != GameOutcome::InProgress)
    }

    /// Why the move from `from` to `to` is rejected, if it is: the game
    /// is over, there is no figure on `from`, it is not that figure's
    /// turn, or `to` is no legal destination of it.
    pub open spec fn move_fault(&self, from: Position, to: Position) -> Option<MoveError> {
        if self.outcome != GameOutcome::InProgress {
            Some(MoveError::GameAlreadyEnded)
        } else {
            match self.board@.occupant(from) {
                None => Some(MoveError::NoPieceAtSource),
                Some(f) => if f.side != self.turn_tracker.side {
                    Some(MoveError::WrongSideToMove)
                } else if !legal_destination(self.board@, f, to) {
                    Some(MoveError::IllegalDestination)
                } else {
                    None
                },
            }
        }
    }

    /// The first fault of a board to start a game on: no Defender's King,
    /// or more than one King.
    pub open spec fn king_fault(board: BoardView) -> Option<SetupError> {
        if !exists|k: Position| #[trigger] king_at(board, k) {
            Some(SetupError::MissingKing)
        } else if !one_king(board) {
            Some(SetupError::DuplicateKing)
        } else {
            None
        }
    }

    /// Starts a game on `board`, with `side_with_initial_turn` to move
    /// first. The board must hold exactly one King, the Defender's.
    pub fn new(board: Board, side_with_initial_turn: Side, rule: SurroundRule) -> (made: Result<
        Game,
        SetupError,
    >)
        requires
            board@.wf(),
        ensures
            match made {
                Ok(game) => {
                    &&& Game::king_fault(board@) is None
                    &&& one_king(board@)
                    &&& game.wf()
                    &&& game.board == board
                    &&& game.turn_tracker.side == side_with_initial_turn
                    &&& game.rule == rule
                    &&& game.outcome == GameOutcome::InProgress
                },
                Err(e) => Game::king_fault(board@) == Some(e),
            },
    {
        let positions = board.positions();
        let mut kings: Vec<Position> = Vec::new();
        let mut defender_king = false;
        let mut i: usize = 0;
        while i < positions.len()
            invariant
                i <= positions@.len(),
                positions@.no_duplicates(),
                forall|p: Position| positions@.contains(p) <==> board@.occupant(p) is Some,
                kings@.no_duplicates(),
                forall|p: Position|
                    #![trigger kings@.contains(p)]
                    kings@.contains(p) <==> (positions@.subrange(0, i as int).contains(p) && king_square(board@, p)),
                forall|p: Position|
                    #![trigger positions@.subrange(0, i as int).contains(p)]
                    (positions@.subrange(0, i as int).contains(p) && king_square(board@, p)) ==> kings@.contains(p),
                defender_king == (exists|p: Position| #[trigger]
                    king_at(board@, p) && positions@.subrange(0, i as int).contains(p)),
            decreases positions@.len() - i,
        {
            let position = positions[i];
            let ghost seen = positions@.subrange(0, i as int);
            let ghost next = positions@.subrange(0, i as int + 1);
            let ghost kings_before = kings@;
            proof {
                assert(next =~= seen.push(position));
                assert(positions@.contains(position));
                assert(!seen.contains(position)) by {
                    if seen.contains(position) {
                        let k = choose|k: int| 0 <= k < seen.len() && seen[k] == position;
                        assert(positions@[k] == position);
                    }
                }
                assert forall|p: Position| next.contains(p) <==> (seen.contains(p) || p == position) by {
                    if next.contains(p) {
                        let k = choose|k: int| 0 <= k < next.len() && next[k] == p;
                        if k < seen.len() {
                            assert(seen[k] == p);
                        }
                    }
                    if seen.contains(p) {
                        let k = choose|k: int| 0 <= k < seen.len() && seen[k] == p;
                        assert(next[k] == p);
                    }
                    assert(next[i as int] == position);
                }
            }
            if let Some(figure) = board.figure_at(position) {
                if figure.kind == FigureKind::King {
                    let ghost before = kings@;
                    kings.push(position);
                    proof {
                        assert(!before.contains(position));
                        assert(kings@ =~= before.push(position));
                        assert(kings@[before.len() as int] == position);
                        assert forall|p: Position| kings@.contains(p) <==> (before.contains(p) || p == position) by {
                            if kings@.contains(p) {
                                let k = choose|k: int| 0 <= k < kings@.len() && kings@[k] == p;
                                if k < before.len() {
                                    assert(before[k] == p);
                                }
                            }
                            if before.contains(p) {
                                let k = choose|k: int| 0 <= k < before.len() && before[k] == p;
                                assert(kings@[k] == p);
                            }
                        }
                    }
                    if figure.side == Side::Defender {
                        defender_king = true;
                        assert(king_at(board@, position));
                    }
                }
            }
            proof {
                assert forall|p: Position|
                    kings@.contains(p) <==> (next.contains(p) && king_square(board@, p)) by {
                    if p == position {
                        assert(next.contains(p));
                        assert(!kings_before.contains(p));
                    } else {
                        assert(next.contains(p) == seen.contains(p));
                        assert(kings@.contains(p) == kings_before.contains(p));
                    }
                }
            }
            i += 1;
            proof {
                assert(positions@.subrange(0, i as int) =~= next);
            }
        }
        proof {
            assert(positions@.subrange(0, positions@.len() as int) =~= positions@);
        }
        if !defender_king {
            proof {
                assert forall|k: Position| !(#[trigger] king_at(board@, k)) by {
                    if king_at(board@, k) {
                        assert(positions@.contains(k));
                    }
                }
            }
            return Err(SetupError::MissingKing);
        }
        if kings.len() != 1 {
            proof {
                let d = choose|p: Position| #[trigger]
                    king_at(board@, p) && positions@.contains(p);
                if one_king(board@) {
                    let k = choose|k: Position| #[trigger]
                        king_at(board@, k) && forall|p: Position| #[trigger]
                            king_square(board@, p) ==> p == k;
                    assert(kings@.contains(d));
                    assert(kings@.len() >= 2);
                    assert(kings@.contains(kings@[0]));
                    assert(kings@.contains(kings@[1]));
                    assert(king_square(board@, kings@[0]));
                    assert(king_square(board@, kings@[1]));
                }
            }
            return Err(SetupError::DuplicateKing);
        }
        proof {
            let d = choose|p: Position| #[trigger]
                king_at(board@, p) && positions@.contains(p);
            assert(kings@.contains(d));
            let k0 = choose|k: int| 0 <= k < kings@.len() && kings@[k] == d;
            assert forall|p: Position| #[trigger] king_square(board@, p) implies p == d by {
                assert(positions@.contains(p));
                assert(kings@.contains(p));
                let k = choose|k: int| 0 <= k < kings@.len() && kings@[k] == p;
            }
        }
        Ok(
            Game {
                board,
                turn_tracker: TurnTracker { side: side_with_initial_turn },
                state: GameState::Playing,
                outcome: GameOutcome::InProgress,
                rule,
            },
        )
    }

    /// Validates and makes a move: moves the figure, checks for captures
    /// and for a win, and passes the turn on unless the game was won. A
    /// rejected move changes nothing.
    pub fn submit_move(&mut self, from: Position, to: Position) -> (made: Result<MoveOutcome, MoveError>)
        requires
            old(self).wf(),
        ensures
            final(self).wf(),
            match made {
                Err(e) => old(self).move_fault(from, to) == Some(e) && *final(self) == *old(self),
                Ok(done) => {
                    &&& old(self).move_fault(from, to) is None
                    &&& final(self).board@ == after_move(old(self).board@, from, to)
                    &&& final(self).rule == old(self).rule
                    &&& final(self).outcome == outcome_of(final(self).board@, old(self).rule)
                    &&& final(self).turn_tracker.side == (if final(self).outcome == GameOutcome::InProgress {
                        old(self).turn_tracker.side.spec_opponent()
                    } else {
                        old(self).turn_tracker.side
                    })
                    &&& done.capture_happened == move_captures(old(self).board@, from, to)
                    &&& done.game_ended == (final(self).outcome != GameOutcome::InProgress)
                },
            },
    {
        let event = match try_move_figure(self, TryMoveFigureEvent { from, to, slide: false }) {
            Ok(event) => event,
            Err(e) => {
                return Err(e);
            },
        };
        proof {
            lemma_legal_destination_is_free(self.board@, self.board@.figures[from], to);
            lemma_after_move_keeps_one_king(self.board@, from, to);
        }
        let (capture_check_event, _) = move_figure(&mut self.board, event);
        let (end_move_event, _) = capture_check(&mut self.board, capture_check_event);
        let outcome = evaluate_win_conditions(&self.board, self.rule);
        match outcome {
            GameOutcome::InProgress => {
                let _ = end_move(&mut self.turn_tracker, end_move_event);
            },
            GameOutcome::Won(winner, reason) => {
                on_game_end(EndGameEvent { winner, reason }, &mut self.state, &mut self.outcome);
            },
        }
        Ok(
            MoveOutcome {
                capture_happened: end_move_event.capture_happened,
                game_ended: outcome != GameOutcome::InProgress,
            },
        )
    }

    /// The squares that the figure on `position` can move to; `None` if
    /// the square is empty.
    pub fn legal_destinations(&self, position: Position) -> (moves: Option<Vec<Position>>)
        ensures
            match moves {
                None => self.board@.occupant(position) is None,
                Some(list) => {
                    &&& self.board@.occupant(position) is Some
                    &&& moves_in_order(self.board@, self.board@.figures[position], list@)
                    &&& list@.no_duplicates()
                    &&& forall|p: Position|
                        list@.contains(p) <==> legal_destination(self.board@, self.board@.figures[position], p)
                },
            },
    {
        match self.board.figure_at(position) {
            Some(figure) => Some(possible_moves(&self.board, figure)),
            None => None,
        }
    }

    /// The board, the side to move, and how the game stands.
    pub fn current_state(&self) -> (state: (&Board, Side, GameOutcome))
        ensures
            *state.0 == self.board,
            state.1 == self.turn_tracker.side,
            state.2 == self.outcome,
    {
        (&self.board, self.turn_tracker.side, self.outcome)
    }

    /// Evaluates the win conditions on the board as it stands. A game
    /// that is over stays as it is.
    pub fn check_win_conditions(&mut self) -> (outcome: GameOutcome)
        requires
            old(self).wf(),
        ensures
            final(self).wf(),
            final(self).board == old(self).board,
            final(self).turn_tracker == old(self).turn_tracker,
            final(self).rule == old(self).rule,
            outcome == final(self).outcome,
            final(self).outcome == evaluated(old(self).outcome, old(self).board@, old(self).rule),
    {
        if self.outcome != GameOutcome::InProgress {
            return self.outcome;
        }
        let outcome = evaluate_win_conditions(&self.board, self.rule);
        if let GameOutcome::Won(winner, reason) = outcome {
            on_game_end(EndGameEvent { winner, reason }, &mut self.state, &mut self.outcome);
        }
        outcome
    }

    /// The clock of a side ran out. If the game is still played and it is
    /// that side's turn, the other side wins; else nothing changes.
    pub fn clock_expired(&mut self, event: OnGameTimerFinishedEvent) -> (outcome: GameOutcome)
        requires
            old(self).wf(),
        ensures
            final(self).wf(),
            final(self).board == old(self).board,
            final(self).turn_tracker == old(self).turn_tracker,
            final(self).rule == old(self).rule,
            outcome == final(self).outcome,
            final(self).outcome == (if old(self).outcome == GameOutcome::InProgress && event.side == old(
                self,
            ).turn_tracker.side {
                GameOutcome::Won(event.side.spec_opponent(), Reason::OpponentClockExpired)
            } else {
                old(self).outcome
            }),
    {
        if self.outcome == GameOutcome::InProgress && event.side == self.turn_tracker.side {
            let end = game_timer_check(event);
            on_game_end(end, &mut self.state, &mut self.outcome);
        }
        self.outcome
    }
}

/// Validates a move: on a game that is still played, `from` must hold a
/// figure of the side to move, and `to` must be one of its possible moves.
pub fn try_move_figure(game: &Game, event: TryMoveFigureEvent) -> (checked: Result<MoveFigureEvent, MoveError>)
    ensures
        match checked {
            Ok(accepted) => game.move_fault(event.from, event.to) is None && accepted.from == event.from
                && accepted.to == event.to,
            Err(e) => game.move_fault(event.from, event.to) == Some(e),
        },
{
    if game.outcome != GameOutcome::InProgress {
        return Err(MoveError::GameAlreadyEnded);
    }
    let figure = match game.board.figure_at(event.from) {
        Some(f) => f,
        None => {
            return Err(MoveError::NoPieceAtSource);
        },
    };
    if figure.side != game.turn_tracker.side {
        return Err(MoveError::WrongSideToMove);
    }
    let moves = possible_moves(&game.board, figure);
    if position_in(&moves, event.to) {
        Ok(MoveFigureEvent { from: event.from, to: event.to })
    } else {
        Err(MoveError::IllegalDestination)
    }
}

/// Commits a valid move to the board: the figure on `from` stands on `to`
/// afterwards. Asks for the capture check around it and, if the King was
/// moved, for the test whether it has escaped.
pub fn move_figure(board: &mut Board, event: MoveFigureEvent) -> (next: (
    CaptureCheckEvent,
    Option<KingOnCornerCheckEvent>,
))
    requires
        old(board)@.wf(),
        old(board)@.occupant(event.from) is Some,
        old(board)@.occupant(event.to) is None,
        old(board)@.on_board(event.to),
    ensures
        final(board)@.wf(),
        final(board)@ == shifted(old(board)@, event.from, event.to),
        next.0.moved_figure == (Figure { position: event.to, ..old(board)@.figures[event.from] }),
        next.1 == (if next.0.moved_figure.side == Side::Defender && next.0.moved_figure.kind == FigureKind::King {
            Some(KingOnCornerCheckEvent { king_position: event.to })
        } else {
            None
        }),
{
    let taken = board.remove(event.from).unwrap();
    let figure = Figure { side: taken.side, kind: taken.kind, position: event.to };
    board.place(figure);
    let king_check = if figure.side == Side::Defender && figure.kind == FigureKind::King {
        Some(KingOnCornerCheckEvent { king_position: event.to })
    } else {
        None
    };
    (CaptureCheckEvent { moved_figure: figure }, king_check)
}

/// Ends a move: the turn passes to the other side.
pub fn end_move(turn_tracker: &mut TurnTracker, event: EndMoveEvent) -> (indicate: IndicateTurnEvent)
    ensures
        final(turn_tracker).side == old(turn_tracker).side.spec_opponent(),
        indicate.side == Some(final(turn_tracker).side),
{
    turn_tracker.next_turn();
    IndicateTurnEvent { side: Some(turn_tracker.side) }
}

} // verus!
