//! The win conditions: the King on an escape square, the King surrounded,
//! and a clock that ran out.

use vstd::prelude::*;
use crate::board::{Board, BoardView, Position};
use crate::figure::{Figure, FigureKind, Side};

verus! {

/// Whether a game is still played.
#[derive(Debug, Copy, Clone, PartialEq, Eq, Structural)]
pub enum GameState {
    Playing,
    End,
}

/// Which of the two readings of "the King is surrounded" a game uses.
#[derive(Debug, Copy, Clone, PartialEq, Eq, Structural)]
pub enum SurroundRule {
    /// Every square next to the King, as far as the board reaches, holds
    /// an Attacker.
    Strict,
    /// As `Strict`, but an empty escape square and the empty throne count
    /// like an Attacker.
    Extended,
}

/// Why a game was won.
#[derive(Debug, Copy, Clone, PartialEq, Eq, Structural)]
pub enum Reason {
    KingEscaped,
    KingSurrounded,
    OpponentClockExpired,
}

/// How a game stands: still played, or won by a side for a reason.
#[derive(Debug, Copy, Clone, PartialEq, Eq, Structural)]
pub enum GameOutcome {
    InProgress,
    Won(Side, Reason),
}

/// Asks for a test whether the King stands on an escape square.
#[derive(Debug, Copy, Clone, PartialEq, Eq, Structural)]
pub struct KingOnCornerCheckEvent {
    /// The square the King was moved to.
    pub king_position: Position,
}

/// Says that the clock of `side` ran out.
#[derive(Debug, Copy, Clone, PartialEq, Eq, Structural)]
pub struct OnGameTimerFinishedEvent {
    pub side: Side,
}

/// Says that the game is over and who won it.
#[derive(Debug, Copy, Clone, PartialEq, Eq, Structural)]
pub struct EndGameEvent {
    pub winner: Side,
    pub reason: Reason,
}

/// The Defender's King stands on `position`.
pub open spec fn king_at(board: BoardView, position: Position) -> bool {
    match board.occupant(position) {
        Some(f) => f.side == Side::Defender && f.kind == FigureKind::King,
        None => false,
    }
}

/// The King has escaped: it stands on an escape square.
pub open spec fn king_escaped(board: BoardView) -> bool {
    exists|p: Position| #[trigger] king_at(board, p) && board.is_end(p)
}

/// The square `position` next to the King helps to surround it: it holds
/// an Attacker, or, under the extended rule, is an empty escape square or
/// the empty throne.
pub open spec fn closes_in(board: BoardView, rule: SurroundRule, position: Position) -> bool {
    match board.occupant(position) {
        Some(f) => f.side == Side::Attacker,
        None => rule == SurroundRule::Extended && (board.is_end(position) || board.throne_position
            == position),
    }
}

/// A King on `king` would be surrounded: each of the four squares next to
/// it, as far as the board reaches, closes in on it.
pub open spec fn surrounded_at(board: BoardView, rule: SurroundRule, king: Position) -> bool {
    &&& king.x >= 1 ==> closes_in(board, rule, Position { x: (king.x - 1) as usize, y: king.y })
    &&& king.x + 1 < board.cols ==> closes_in(board, rule, Position { x: (king.x + 1) as usize, y: king.y })
    &&& king.y >= 1 ==> closes_in(board, rule, Position { x: king.x, y: (king.y - 1) as usize })
    &&& king.y + 1 < board.rows ==> closes_in(board, rule, Position { x: king.x, y: (king.y + 1) as usize })
}

/// The King is surrounded.
pub open spec fn king_surrounded(board: BoardView, rule: SurroundRule) -> bool {
    exists|p: Position| #[trigger] king_at(board, p) && surrounded_at(board, rule, p)
}

/// How a game on `board` stands by the two win conditions of the board:
/// the King's escape goes before its being surrounded.
pub open spec fn outcome_of(board: BoardView, rule: SurroundRule) -> GameOutcome {
    if king_escaped(board) {
        GameOutcome::Won(Side::Defender, Reason::KingEscaped)
    } else if king_surrounded(board, rule) {
        GameOutcome::Won(Side::Attacker, Reason::KingSurrounded)
    } else {
        GameOutcome::InProgress
    }
}

/// How a game stands after the win conditions were evaluated on `board`:
/// a game that was over stays as it was.
pub open spec fn evaluated(outcome: GameOutcome, board: BoardView, rule: SurroundRule) -> GameOutcome {
    if outcome == GameOutcome::InProgress {
        outcome_of(board, rule)
    } else {
        outcome
    }
}

/// With the King on an escape square, the Defender has won by escape.
pub proof fn lemma_king_on_escape_wins(board: BoardView, rule: SurroundRule, king: Position)
    requires
        king_at(board, king),
        board.is_end(king),
    ensures
        outcome_of(board, rule) == GameOutcome::Won(Side::Defender, Reason::KingEscaped),
{
}

/// With an Attacker on each of the four squares next to the only King,
/// which stands on no escape square, the Attacker has won, under the
/// strict rule and so under the extended one.
pub proof fn lemma_king_between_four_attackers_loses(board: BoardView, rule: SurroundRule, king: Position)
    requires
        king_at(board, king),
        forall|p: Position| #[trigger] king_at(board, p) ==> p == king,
        !board.is_end(king),
        king.x >= 1,
        king.y >= 1,
        king.x < usize::MAX,
        king.y < usize::MAX,
        attacker_at(board, Position { x: (king.x - 1) as usize, y: king.y }),
        attacker_at(board, Position { x: (king.x + 1) as usize, y: king.y }),
        attacker_at(board, Position { x: king.x, y: (king.y - 1) as usize }),
        attacker_at(board, Position { x: king.x, y: (king.y + 1) as usize }),
    ensures
        outcome_of(board, rule) == GameOutcome::Won(Side::Attacker, Reason::KingSurrounded),
{
    assert(surrounded_at(board, rule, king));
}

/// With an empty square next to the only King that is neither an escape
/// square nor the throne, and the King on no escape square, the game goes
/// on, under either rule.
pub proof fn lemma_king_with_open_side_plays_on(
    board: BoardView,
    rule: SurroundRule,
    king: Position,
    open: Position,
)
    requires
        king_at(board, king),
        forall|p: Position| #[trigger] king_at(board, p) ==> p == king,
        !board.is_end(king),
        board.on_board(open),
        board.occupant(open) is None,
        !board.is_end(open),
        open != board.throne_position,
        (open.y == king.y && (open.x + 1 == king.x || open.x == king.x + 1)) || (open.x == king.x && (open.y + 1
            == king.y || open.y == king.y + 1)),
    ensures
        outcome_of(board, rule) == GameOutcome::InProgress,
{
    assert(!closes_in(board, rule, open));
    assert(!surrounded_at(board, rule, king));
}

/// Evaluating the win conditions a second time on the same board changes
/// nothing.
pub proof fn lemma_evaluation_is_idempotent(outcome: GameOutcome, board: BoardView, rule: SurroundRule)
    ensures
        evaluated(evaluated(outcome, board, rule), board, rule) == evaluated(outcome, board, rule),
{
}

/// An Attacker stands on `position`.
pub open spec fn attacker_at(board: BoardView, position: Position) -> bool {
    match board.occupant(position) {
        Some(f) => f.side == Side::Attacker,
        None => false,
    }
}

/// Tests whether the King stands on an escape square; if so, the Defender
/// has won.
pub fn king_on_corner_check(board: &Board) -> (end: Option<EndGameEvent>)
    ensures
        end == (if king_escaped(board@) {
            Some(EndGameEvent { winner: Side::Defender, reason: Reason::KingEscaped })
        } else {
            None
        }),
{
    let positions = board.positions();
    let mut i: usize = 0;
    while i < positions.len()
        invariant
            i <= positions@.len(),
            forall|p: Position| positions@.contains(p) <==> board@.occupant(p) is Some,
            forall|k: int| 0 <= k < i ==> !(king_at(board@, #[trigger] positions@[k]) && board@.is_end(positions@[k])),
        decreases positions@.len() - i,
    {
        let position = positions[i];
        if let Some(figure) = board.figure_at(position) {
            if is_defender_king(figure) && board.is_end_position(position) {
                assert(king_at(board@, position) && board@.is_end(position));
                return Some(EndGameEvent { winner: Side::Defender, reason: Reason::KingEscaped });
            }
        }
        i += 1;
    }
    proof {
        assert forall|p: Position| !(#[trigger] king_at(board@, p) && board@.is_end(p)) by {
            if king_at(board@, p) {
                assert(positions@.contains(p));
            }
        }
    }
    None
}

/// Tests whether the King is surrounded under `rule`; if so, the Attacker
/// has won.
pub fn king_surrounded_check(board: &Board, rule: SurroundRule) -> (end: Option<EndGameEvent>)
    requires
        board@.wf(),
    ensures
        end == (if king_surrounded(board@, rule) {
            Some(EndGameEvent { winner: Side::Attacker, reason: Reason::KingSurrounded })
        } else {
            None
        }),
{
    let positions = board.positions();
    let mut i: usize = 0;
    while i < positions.len()
        invariant
            i <= positions@.len(),
            board@.wf(),
            forall|p: Position| positions@.contains(p) <==> board@.occupant(p) is Some,
            forall|k: int| 0 <= k < i ==> !(king_at(board@, #[trigger] positions@[k]) && surrounded_at(
                board@,
                rule,
                positions@[k],
            )),
        decreases positions@.len() - i,
    {
        let position = positions[i];
        proof {
            assert(positions@.contains(position));
        }
        if let Some(figure) = board.figure_at(position) {
            if is_defender_king(figure) && is_surrounded_at(board, rule, position) {
                assert(king_at(board@, position) && surrounded_at(board@, rule, position));
                return Some(EndGameEvent { winner: Side::Attacker, reason: Reason::KingSurrounded });
            }
        }
        i += 1;
    }
    proof {
        assert forall|p: Position| !(#[trigger] king_at(board@, p) && surrounded_at(board@, rule, p)) by {
            if king_at(board@, p) {
                assert(positions@.contains(p));
            }
        }
    }
    None
}

/// Whether `figure` is the Defender's King.
pub fn is_defender_king(figure: Figure) -> (king: bool)
    ensures
        king == (figure.side == Side::Defender && figure.kind == FigureKind::King),
{
    figure.side == Side::Defender && figure.kind == FigureKind::King
}

/// Whether the square `position` next to the King closes in on it.
pub fn neighbor_closes_in(board: &Board, rule: SurroundRule, position: Position) -> (closes: bool)
    ensures
        closes == closes_in(board@, rule, position),
{
    match board.figure_at(position) {
        Some(f) => f.side == Side::Attacker,
        None => rule == SurroundRule::Extended && (board.is_end_position(position) || board.throne_position
            == position),
    }
}

/// Whether a King on the occupied square `king` would be surrounded.
pub fn is_surrounded_at(board: &Board, rule: SurroundRule, king: Position) -> (surrounded: bool)
    requires
        board@.wf(),
        board@.on_board(king),
    ensures
        surrounded == surrounded_at(board@, rule, king),
{
    if king.x >= 1 && !neighbor_closes_in(board, rule, Position { x: king.x - 1, y: king.y }) {
        return false;
    }
    if king.x + 1 < board.cols && !neighbor_closes_in(board, rule, Position { x: king.x + 1, y: king.y }) {
        return false;
    }
    if king.y >= 1 && !neighbor_closes_in(board, rule, Position { x: king.x, y: king.y - 1 }) {
        return false;
    }
    if king.y + 1 < board.rows && !neighbor_closes_in(board, rule, Position { x: king.x, y: king.y + 1 }) {
        return false;
    }
    true
}

/// Evaluates the win conditions of the board: first the King's escape,
/// then its being surrounded.
pub fn evaluate_win_conditions(board: &Board, rule: SurroundRule) -> (outcome: GameOutcome)
    requires
        board@.wf(),
    ensures
        outcome == outcome_of(board@, rule),
{
    if let Some(end) = king_on_corner_check(board) {
        return GameOutcome::Won(end.winner, end.reason);
    }
    if let Some(end) = king_surrounded_check(board, rule) {
        return GameOutcome::Won(end.winner, end.reason);
    }
    GameOutcome::InProgress
}

/// The side whose clock ran out has lost: the other side wins.
pub fn game_timer_check(event: OnGameTimerFinishedEvent) -> (end: EndGameEvent)
    ensures
        end.winner == event.side.spec_opponent(),
        end.reason == Reason::OpponentClockExpired,
{
    if event.side == Side::Attacker {
        EndGameEvent { winner: Side::Defender, reason: Reason::OpponentClockExpired }
    } else {
        EndGameEvent { winner: Side::Attacker, reason: Reason::OpponentClockExpired }
    }
}

/// Ends the game: the state becomes `End`. The outcome is the winner of
/// the event, unless the game was over before, in which case nothing
/// changes.
pub fn on_game_end(event: EndGameEvent, game_state: &mut GameState, outcome: &mut GameOutcome)
    ensures
        *final(game_state) == GameState::End,
        *final(outcome) == (if *old(outcome) == GameOutcome::InProgress {
            GameOutcome::Won(event.winner, event.reason)
        } else {
            *old(outcome)
        }),
{
    if *outcome == GameOutcome::InProgress {
        *outcome = GameOutcome::Won(event.winner, event.reason);
    }
    *game_state = GameState::End;
}

} // verus!
