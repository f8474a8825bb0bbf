use hnefatafl::board::{Board, BoardOptions, Position, SetupError};
use hnefatafl::capturing::{CaptureCheckEvent, EndMoveEvent};
use hnefatafl::figure::{Figure, FigureKind, Side};
use hnefatafl::moving::{
    end_move, move_figure, try_move_figure, Game, IndicateTurnEvent, MoveError, MoveFigureEvent, MoveOutcome,
    TryMoveFigureEvent, TurnTracker,
};
use hnefatafl::win_conditions::{
    GameOutcome, GameState, KingOnCornerCheckEvent, OnGameTimerFinishedEvent, Reason, SurroundRule,
};

fn pos(x: usize, y: usize) -> Position {
    Position { x, y }
}

fn attacker(x: usize, y: usize) -> Figure {
    Figure { side: Side::Attacker, kind: FigureKind::Soldier, position: pos(x, y) }
}

fn defender(x: usize, y: usize) -> Figure {
    Figure { side: Side::Defender, kind: FigureKind::Soldier, position: pos(x, y) }
}

fn king(x: usize, y: usize) -> Figure {
    Figure { side: Side::Defender, kind: FigureKind::King, position: pos(x, y) }
}

fn board_with(figures: Vec<Figure>) -> Board {
    let o = BoardOptions {
        rows: 11,
        cols: 11,
        throne_position: pos(5, 5),
        end_positions: vec![pos(0, 0), pos(10, 0), pos(0, 10), pos(10, 10)],
        figures,
    };
    assert_eq!(o.check(), Ok(()));
    Board::new(o)
}

fn game_with(figures: Vec<Figure>, side: Side) -> Game {
    match Game::new(board_with(figures), side, SurroundRule::Strict) {
        Ok(game) => game,
        Err(e) => panic!("no game: {:?}", e),
    }
}

fn layout(game: &Game) -> Vec<(usize, usize, Side, FigureKind)> {
    let mut out: Vec<(usize, usize, Side, FigureKind)> = Vec::new();
    for p in game.board.positions() {
        if let Some(f) = game.board.figure_at(p) {
            out.push((p.x, p.y, f.side, f.kind));
        }
    }
    out.sort_by_key(|e| (e.0, e.1));
    out
}

#[test]
fn a_game_needs_exactly_one_king() {
    assert!(matches!(
        Game::new(board_with(vec![attacker(1, 1)]), Side::Attacker, SurroundRule::Strict),
        Err(SetupError::MissingKing)
    ));
    let attacker_king = Figure { side: Side::Attacker, kind: FigureKind::King, position: pos(2, 2) };
    assert!(matches!(
        Game::new(board_with(vec![attacker_king]), Side::Attacker, SurroundRule::Strict),
        Err(SetupError::MissingKing)
    ));
    assert!(matches!(
        Game::new(board_with(vec![king(5, 5), king(4, 4)]), Side::Attacker, SurroundRule::Strict),
        Err(SetupError::DuplicateKing)
    ));
    assert!(matches!(
        Game::new(board_with(vec![king(5, 5), attacker_king]), Side::Attacker, SurroundRule::Strict),
        Err(SetupError::DuplicateKing)
    ));
    let game = game_with(vec![king(5, 5), attacker(0, 3)], Side::Attacker);
    let state = game.current_state();
    assert_eq!(state.1, Side::Attacker);
    assert_eq!(state.2, GameOutcome::InProgress);
    assert_eq!(state.0.figure_at(pos(5, 5)), Some(king(5, 5)));
    assert_eq!(game.state, GameState::Playing);
}

#[test]
fn an_accepted_move_moves_the_figure_and_passes_the_turn() {
    let mut game = game_with(vec![king(5, 5), attacker(0, 3), defender(4, 4)], Side::Attacker);
    assert_eq!(
        game.submit_move(pos(0, 3), pos(7, 3)),
        Ok(MoveOutcome { capture_happened: false, game_ended: false })
    );
    assert_eq!(game.board.figure_at(pos(0, 3)), None);
    assert_eq!(game.board.figure_at(pos(7, 3)), Some(attacker(7, 3)));
    assert_eq!(game.turn_tracker.side, Side::Defender);
    assert_eq!(game.outcome, GameOutcome::InProgress);
    assert_eq!(
        game.submit_move(pos(4, 4), pos(4, 0)),
        Ok(MoveOutcome { capture_happened: false, game_ended: false })
    );
    assert_eq!(game.turn_tracker.side, Side::Attacker);
}

#[test]
fn rejected_moves_leave_the_game_as_it_was() {
    let mut game = game_with(vec![king(5, 5), attacker(0, 3), defender(4, 4), attacker(2, 3)], Side::Attacker);
    let before = layout(&game);
    assert_eq!(game.submit_move(pos(1, 1), pos(1, 2)), Err(MoveError::NoPieceAtSource));
    assert_eq!(game.submit_move(pos(4, 4), pos(4, 5)), Err(MoveError::WrongSideToMove));
    assert_eq!(game.submit_move(pos(0, 3), pos(1, 4)), Err(MoveError::IllegalDestination));
    assert_eq!(game.submit_move(pos(0, 3), pos(2, 3)), Err(MoveError::IllegalDestination));
    assert_eq!(game.submit_move(pos(0, 3), pos(3, 3)), Err(MoveError::IllegalDestination));
    assert_eq!(game.submit_move(pos(0, 3), pos(0, 3)), Err(MoveError::IllegalDestination));
    assert_eq!(game.submit_move(pos(0, 3), pos(0, 0)), Err(MoveError::IllegalDestination));
    assert_eq!(game.submit_move(pos(0, 3), pos(0, 11)), Err(MoveError::IllegalDestination));
    assert_eq!(layout(&game), before);
    assert_eq!(game.turn_tracker.side, Side::Attacker);
    assert_eq!(game.outcome, GameOutcome::InProgress);
}

#[test]
fn a_move_that_captures_says_so() {
    let mut game = game_with(vec![king(5, 5), attacker(0, 3), defender(4, 3), attacker(5, 3)], Side::Attacker);
    assert_eq!(
        game.submit_move(pos(0, 3), pos(3, 3)),
        Ok(MoveOutcome { capture_happened: true, game_ended: false })
    );
    assert_eq!(game.board.figure_at(pos(4, 3)), None);
    assert_eq!(game.board.figure_at(pos(5, 3)), Some(attacker(5, 3)));
    assert_eq!(game.board.figure_at(pos(3, 3)), Some(attacker(3, 3)));
    assert_eq!(game.turn_tracker.side, Side::Defender);
}

#[test]
fn the_king_reaching_a_corner_ends_the_game() {
    let mut game = game_with(vec![king(0, 5), attacker(7, 7)], Side::Defender);
    assert_eq!(
        game.submit_move(pos(0, 5), pos(0, 0)),
        Ok(MoveOutcome { capture_happened: false, game_ended: true })
    );
    assert_eq!(game.outcome, GameOutcome::Won(Side::Defender, Reason::KingEscaped));
    assert_eq!(game.state, GameState::End);
    assert_eq!(game.turn_tracker.side, Side::Defender);
    let before = layout(&game);
    assert_eq!(game.submit_move(pos(7, 7), pos(7, 8)), Err(MoveError::GameAlreadyEnded));
    assert_eq!(game.submit_move(pos(1, 1), pos(7, 8)), Err(MoveError::GameAlreadyEnded));
    assert_eq!(layout(&game), before);
    assert_eq!(game.check_win_conditions(), GameOutcome::Won(Side::Defender, Reason::KingEscaped));
}

#[test]
fn surrounding_the_king_ends_the_game() {
    let mut game = game_with(
        vec![king(3, 3), attacker(2, 3), attacker(4, 3), attacker(3, 2), attacker(3, 8)],
        Side::Attacker,
    );
    assert_eq!(
        game.submit_move(pos(3, 8), pos(3, 4)),
        Ok(MoveOutcome { capture_happened: false, game_ended: true })
    );
    assert_eq!(game.outcome, GameOutcome::Won(Side::Attacker, Reason::KingSurrounded));
    assert_eq!(game.submit_move(pos(3, 3), pos(3, 4)), Err(MoveError::GameAlreadyEnded));
}

#[test]
fn legal_destinations_of_a_square() {
    let game = game_with(vec![king(5, 5), attacker(4, 5), attacker(6, 5), attacker(5, 4)], Side::Attacker);
    assert_eq!(game.legal_destinations(pos(1, 1)), None);
    let moves = game.legal_destinations(pos(5, 5));
    assert_eq!(moves, Some(vec![pos(5, 6), pos(5, 7), pos(5, 8), pos(5, 9), pos(5, 10)]));
    let moves = game.legal_destinations(pos(5, 4)).unwrap_or(vec![]);
    assert_eq!(moves.len(), 5 + 5 + 4);
    assert!(!moves.contains(&pos(5, 5)));
}

#[test]
fn checking_the_win_conditions_twice_changes_nothing_more() {
    let mut game = game_with(vec![king(3, 3), attacker(2, 3)], Side::Attacker);
    assert_eq!(game.check_win_conditions(), GameOutcome::InProgress);
    assert_eq!(game.check_win_conditions(), GameOutcome::InProgress);
    assert_eq!(game.state, GameState::Playing);
    game.board.place(attacker(4, 3));
    game.board.place(attacker(3, 2));
    game.board.place(attacker(3, 4));
    let first = game.check_win_conditions();
    assert_eq!(first, GameOutcome::Won(Side::Attacker, Reason::KingSurrounded));
    assert_eq!(game.state, GameState::End);
    let second = game.check_win_conditions();
    assert_eq!(second, first);
    assert_eq!(game.state, GameState::End);
    assert_eq!(game.turn_tracker.side, Side::Attacker);
}

#[test]
fn a_clock_counts_only_on_its_side_s_turn() {
    let mut game = game_with(vec![king(5, 5), attacker(0, 3)], Side::Attacker);
    assert_eq!(game.clock_expired(OnGameTimerFinishedEvent { side: Side::Defender }), GameOutcome::InProgress);
    assert_eq!(
        game.clock_expired(OnGameTimerFinishedEvent { side: Side::Attacker }),
        GameOutcome::Won(Side::Defender, Reason::OpponentClockExpired)
    );
    assert_eq!(game.state, GameState::End);
    assert_eq!(
        game.clock_expired(OnGameTimerFinishedEvent { side: Side::Attacker }),
        GameOutcome::Won(Side::Defender, Reason::OpponentClockExpired)
    );
    assert_eq!(game.submit_move(pos(0, 3), pos(0, 4)), Err(MoveError::GameAlreadyEnded));
}

#[test]
fn validating_a_move() {
    let game = game_with(vec![king(5, 5), attacker(0, 3)], Side::Attacker);
    assert_eq!(
        try_move_figure(&game, TryMoveFigureEvent { from: pos(0, 3), to: pos(0, 9), slide: true }),
        Ok(MoveFigureEvent { from: pos(0, 3), to: pos(0, 9) })
    );
    assert_eq!(
        try_move_figure(&game, TryMoveFigureEvent { from: pos(0, 3), to: pos(0, 10), slide: false }),
        Err(MoveError::IllegalDestination)
    );
    assert_eq!(
        try_move_figure(&game, TryMoveFigureEvent { from: pos(5, 5), to: pos(5, 6), slide: false }),
        Err(MoveError::WrongSideToMove)
    );
}

#[test]
fn committing_a_move() {
    let mut board = board_with(vec![king(5, 5), attacker(0, 3)]);
    let next = move_figure(&mut board, MoveFigureEvent { from: pos(0, 3), to: pos(0, 9) });
    assert_eq!(next.0, CaptureCheckEvent { moved_figure: attacker(0, 9) });
    assert_eq!(next.1, None);
    assert_eq!(board.figure_at(pos(0, 3)), None);
    assert_eq!(board.figure_at(pos(0, 9)), Some(attacker(0, 9)));
    let next = move_figure(&mut board, MoveFigureEvent { from: pos(5, 5), to: pos(5, 0) });
    assert_eq!(next.0, CaptureCheckEvent { moved_figure: king(5, 0) });
    assert_eq!(next.1, Some(KingOnCornerCheckEvent { king_position: pos(5, 0) }));
    assert_eq!(board.figure_at(pos(5, 5)), None);
}

#[test]
fn the_turn_alternates() {
    let mut tracker = TurnTracker { side: Side::Attacker };
    tracker.next_turn();
    assert_eq!(tracker.side, Side::Defender);
    tracker.next_turn();
    assert_eq!(tracker.side, Side::Attacker);
    assert_eq!(
        end_move(&mut tracker, EndMoveEvent { capture_happened: true }),
        IndicateTurnEvent { side: Some(Side::Defender) }
    );
    assert_eq!(tracker.side, Side::Defender);
}
