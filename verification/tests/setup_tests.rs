use hnefatafl::board::{Board, BoardOptions, Position, SetupError};
use hnefatafl::figure::{Figure, FigureKind, Side};
use hnefatafl::moving::{Game, TurnTracker};
use hnefatafl::spawn_data::{
    find_mark, is_letter, load_game, parse_board, parse_figure, parse_figures, parse_number, place_all,
    spawn_hnefatafl, standard_end_positions, standard_starting_position, standard_structure, BoardId, ParseError,
    ParsedBoard, SimpleId, SpawnError,
};
use hnefatafl::spawning::{
    despawn_board, despawn_figures, spawn_board, spawn_figures, MainBoard, SpawnBoardEvent, SpawnFiguresEvent,
};
use hnefatafl::win_conditions::{GameOutcome, SurroundRule};

const STRUCTURE: &str = "\
40033333004\n\
00000300000\n\
00000000000\n\
30000200003\n\
30002220003\n\
33022122033\n\
30002220003\n\
30000200003\n\
00000000000\n\
00000300000\n\
40033333004";

const STARTING_POSITION: &str = "
a s 0 3
a s 0 4
a s 0 5
a s 0 6
a s 0 7
a s 1 5
a s 3 0
d s 3 5
a s 3 10
a s 4 0
d s 4 4
d s 4 5
d s 4 6
a s 4 10
a s 5 0
a s 5 1
d s 5 3
d s 5 4
d k 5 5
d s 5 6
d s 5 7
a s 5 9
a s 5 10
a s 6 0 
d s 6 4
d s 6 5
d s 6 6
a s 6 10
a s 7 0
d s 7 5
a s 7 10
a s 9 5
a s 10 3
a s 10 4
a s 10 5
a s 10 6
a s 10 7
";

fn pos(x: usize, y: usize) -> Position {
    Position { x, y }
}

fn empty_board() -> Board {
    let o = BoardOptions {
        rows: 11,
        cols: 11,
        throne_position: pos(5, 5),
        end_positions: vec![pos(0, 0), pos(10, 0), pos(0, 10), pos(10, 10)],
        figures: vec![],
    };
    assert_eq!(o.check(), Ok(()));
    Board::new(o)
}

#[test]
fn the_standard_grid_is_eleven_by_eleven() {
    let parsed = parse_board(STRUCTURE);
    match parsed {
        Ok(board) => {
            assert_eq!(board.rows, 11);
            assert_eq!(board.cols, 11);
            assert_eq!(board.structure.len(), 121);
            assert_eq!(board.structure[0], 4);
            assert_eq!(board.structure[3], 3);
            assert_eq!(board.structure[5 * 11 + 5], 1);
            assert_eq!(board.structure[5 * 11 + 4], 2);
            assert_eq!(board.structure[120], 4);
        }
        Err(e) => panic!("{:?}", e),
    }
}

#[test]
fn small_grids() {
    assert_eq!(parse_board("12\n34"), Ok(ParsedBoard { rows: 2, cols: 2, structure: vec![1, 2, 3, 4] }));
    assert_eq!(parse_board("12\n34\n"), Ok(ParsedBoard { rows: 2, cols: 2, structure: vec![1, 2, 3, 4] }));
    assert_eq!(parse_board("\n12\n34"), Ok(ParsedBoard { rows: 2, cols: 2, structure: vec![1, 2, 3, 4] }));
    assert_eq!(parse_board("907"), Ok(ParsedBoard { rows: 1, cols: 3, structure: vec![9, 0, 7] }));
    assert_eq!(parse_board(""), Ok(ParsedBoard { rows: 0, cols: 0, structure: vec![] }));
    assert_eq!(parse_board("\n"), Ok(ParsedBoard { rows: 0, cols: 0, structure: vec![] }));
}

#[test]
fn grids_with_faults() {
    assert_eq!(parse_board("12\n3"), Err(ParseError::InconsistentRowLength));
    assert_eq!(parse_board("12\n345\n67"), Err(ParseError::InconsistentRowLength));
    assert_eq!(parse_board("12\n\n34"), Err(ParseError::InconsistentRowLength));
    assert_eq!(parse_board("12\n3a"), Err(ParseError::InvalidCharacter));
    assert_eq!(parse_board("1 2"), Err(ParseError::InvalidCharacter));
    assert_eq!(parse_board("12\r\n34"), Err(ParseError::InvalidCharacter));
    assert_eq!(parse_board("12\n3\nx"), Err(ParseError::InconsistentRowLength));
    assert_eq!(parse_board("12\n3x\n"), Err(ParseError::InvalidCharacter));
    assert_eq!(parse_board("1\u{e9}"), Err(ParseError::InvalidCharacter));
}

#[test]
fn the_standard_start_has_thirty_seven_figures() {
    let board = empty_board();
    let figures = match parse_figures(STARTING_POSITION, &board) {
        Ok(figures) => figures,
        Err(e) => panic!("{:?}", e),
    };
    assert_eq!(figures.len(), 37);
    assert_eq!(figures[0], Figure { side: Side::Attacker, kind: FigureKind::Soldier, position: pos(0, 3) });
    assert_eq!(figures[18], Figure { side: Side::Defender, kind: FigureKind::King, position: pos(5, 5) });
    assert_eq!(figures[23], Figure { side: Side::Attacker, kind: FigureKind::Soldier, position: pos(6, 0) });
    assert_eq!(figures[36], Figure { side: Side::Attacker, kind: FigureKind::Soldier, position: pos(10, 7) });
    assert_eq!(figures.iter().filter(|f| f.side == Side::Attacker).count(), 24);
    assert_eq!(figures.iter().filter(|f| f.kind == FigureKind::King).count(), 1);
    let options = BoardOptions {
        rows: 11,
        cols: 11,
        throne_position: pos(5, 5),
        end_positions: vec![pos(0, 0), pos(10, 0), pos(0, 10), pos(10, 10)],
        figures,
    };
    assert_eq!(options.check(), Ok(()));
    let game = Game::new(Board::new(options), Side::Attacker, SurroundRule::Strict);
    match game {
        Ok(mut game) => {
            assert_eq!(game.outcome, GameOutcome::InProgress);
            assert_eq!(game.check_win_conditions(), GameOutcome::InProgress);
            assert_eq!(game.board.positions().len(), 37);
        }
        Err(e) => panic!("{:?}", e),
    }
}

#[test]
fn figure_lines() {
    let board = empty_board();
    assert_eq!(parse_figures("", &board), Ok(vec![]));
    assert_eq!(parse_figures("\n\n", &board), Ok(vec![]));
    assert_eq!(
        parse_figures("d k 5 5", &board),
        Ok(vec![Figure { side: Side::Defender, kind: FigureKind::King, position: pos(5, 5) }])
    );
    assert_eq!(
        parse_figures("a s 10 0\r\n\r\nd s +2 03 and more\n", &board),
        Ok(vec![
            Figure { side: Side::Attacker, kind: FigureKind::Soldier, position: pos(10, 0) },
            Figure { side: Side::Defender, kind: FigureKind::Soldier, position: pos(2, 3) },
        ])
    );
}

#[test]
fn figure_lines_with_faults() {
    let board = empty_board();
    assert_eq!(parse_figures("x s 1 1", &board), Err(ParseError::InvalidSide));
    assert_eq!(parse_figures("as 1 1", &board), Err(ParseError::InvalidSide));
    assert_eq!(parse_figures(" a s 1 1", &board), Err(ParseError::InvalidSide));
    assert_eq!(parse_figures("a", &board), Err(ParseError::NotEnoughTokens));
    assert_eq!(parse_figures("a q 1 1", &board), Err(ParseError::InvalidKind));
    assert_eq!(parse_figures("a  s 1 1", &board), Err(ParseError::InvalidKind));
    assert_eq!(parse_figures("a s", &board), Err(ParseError::NotEnoughTokens));
    assert_eq!(parse_figures("a s 1", &board), Err(ParseError::NotEnoughTokens));
    assert_eq!(parse_figures("a s x 1", &board), Err(ParseError::InvalidNumber));
    assert_eq!(parse_figures("a s 1 -1", &board), Err(ParseError::InvalidNumber));
    assert_eq!(parse_figures("a s 1 ", &board), Err(ParseError::InvalidNumber));
    assert_eq!(parse_figures("a s + 1", &board), Err(ParseError::InvalidNumber));
    assert_eq!(
        parse_figures("a s 1 99999999999999999999999999999999999999999", &board),
        Err(ParseError::InvalidNumber)
    );
    assert_eq!(parse_figures("a s 11 0", &board), Err(ParseError::OutOfBounds));
    assert_eq!(parse_figures("a s 0 11", &board), Err(ParseError::OutOfBounds));
    assert_eq!(parse_figures("a s 1 1\nd k 5 5\nd s 5", &board), Err(ParseError::NotEnoughTokens));
    assert_eq!(parse_figures("a s 1 1\nd z 5 5\nd s 5", &board), Err(ParseError::InvalidKind));
}

#[test]
fn parts_of_a_line() {
    let line = "a s 12 7".as_bytes();
    let board = empty_board();
    assert_eq!(find_mark(line, 0, line.len(), 32), 1);
    assert_eq!(find_mark(line, 2, line.len(), 32), 3);
    assert_eq!(find_mark(line, 7, line.len(), 32), 8);
    assert_eq!(find_mark(line, 0, line.len(), 10), 8);
    assert!(is_letter(line, 0, 1, 97));
    assert!(!is_letter(line, 0, 1, 100));
    assert!(!is_letter(line, 0, 2, 97));
    assert!(!is_letter(line, 0, 0, 97));
    assert_eq!(parse_number(line, 4, 6), Some(12));
    assert_eq!(parse_number(line, 4, 5), Some(1));
    assert_eq!(parse_number(line, 4, 4), None);
    assert_eq!(parse_number(line, 3, 6), None);
    assert_eq!(parse_number("18446744073709551615".as_bytes(), 0, 20), Some(18446744073709551615));
    assert_eq!(parse_number("18446744073709551616".as_bytes(), 0, 20), None);
    assert_eq!(parse_number("0000".as_bytes(), 0, 4), Some(0));
    assert_eq!(parse_figure(line, 0, line.len(), &board), Err(ParseError::OutOfBounds));
    assert_eq!(
        parse_figure(line, 0, 5, &board),
        Err(ParseError::NotEnoughTokens)
    );
}

#[test]
fn board_numbers_count_up() {
    let mut counter = BoardId::new();
    assert_eq!(counter.get(), SimpleId(0));
    assert_eq!(counter.get(), SimpleId(1));
    assert_eq!(counter.get(), SimpleId(2));
    assert_eq!(counter, BoardId(SimpleId(3)));
}

#[test]
fn setting_up_and_taking_down() {
    let mut counter = BoardId::new();
    let id = counter.get();
    let mut main_board = spawn_board(SpawnBoardEvent { id, board: empty_board() });
    assert_eq!(main_board.id, SimpleId(0));
    assert_eq!(main_board.turn_tracker, TurnTracker { side: Side::Attacker });
    let figures = match parse_figures(STARTING_POSITION, &main_board.board) {
        Ok(figures) => figures,
        Err(e) => panic!("{:?}", e),
    };
    let extra = Figure { side: Side::Defender, kind: FigureKind::Soldier, position: pos(8, 8) };
    main_board.board.place(extra);
    let main_figures = spawn_figures(&mut main_board, SpawnFiguresEvent { board_id: id, figures });
    assert_eq!(main_figures.positions.len(), 37);
    assert_eq!(main_figures.positions[18], pos(5, 5));
    assert_eq!(main_board.board.positions().len(), 38);
    assert_eq!(
        main_board.board.figure_at(pos(5, 5)),
        Some(Figure { side: Side::Defender, kind: FigureKind::King, position: pos(5, 5) })
    );
    despawn_figures(&mut main_board, main_figures);
    assert_eq!(main_board.board.positions(), vec![pos(8, 8)]);
    assert_eq!(main_board.board.figure_at(pos(8, 8)), Some(extra));
    let mut slot: Option<MainBoard> = Some(main_board);
    despawn_board(&mut slot);
    assert!(slot.is_none());
}

fn corners() -> Vec<Position> {
    vec![pos(0, 0), pos(10, 0), pos(0, 10), pos(10, 10)]
}

fn load(structure: &str, placement: &str, throne: Position, ends: Vec<Position>) -> Result<usize, SpawnError> {
    load_game(structure, placement, throne, ends, Side::Defender, SurroundRule::Strict)
        .map(|game| game.board.positions().len())
}

#[test]
fn the_standard_game() {
    assert_eq!(standard_structure(), STRUCTURE);
    assert_eq!(standard_end_positions(), corners());
    assert_eq!(load(standard_structure(), standard_starting_position(), pos(5, 5), corners()), Ok(37));
    let game = match spawn_hnefatafl(SurroundRule::Extended) {
        Ok(game) => game,
        Err(e) => panic!("{:?}", e),
    };
    assert_eq!(game.turn_tracker, TurnTracker { side: Side::Attacker });
    assert_eq!(game.rule, SurroundRule::Extended);
    assert_eq!(game.outcome, GameOutcome::InProgress);
    assert_eq!(game.board.rows, 11);
    assert_eq!(game.board.cols, 11);
    assert_eq!(game.board.throne_position, pos(5, 5));
    assert_eq!(game.board.end_positions, corners());
    assert_eq!(game.board.positions().len(), 37);
    assert_eq!(
        game.board.figure_at(pos(5, 5)),
        Some(Figure { side: Side::Defender, kind: FigureKind::King, position: pos(5, 5) })
    );
    assert_eq!(
        game.board.figure_at(pos(6, 0)),
        Some(Figure { side: Side::Attacker, kind: FigureKind::Soldier, position: pos(6, 0) })
    );
    assert_eq!(game.board.figure_at(pos(0, 0)), None);
}

#[test]
fn a_game_from_its_texts() {
    let loaded = load_game("000\n000\n000", "d k 1 1\na s 0 1", pos(1, 1), vec![pos(0, 0)], Side::Defender, SurroundRule::Strict);
    match loaded {
        Ok(game) => {
            assert_eq!(game.board.rows, 3);
            assert_eq!(game.board.cols, 3);
            assert_eq!(game.turn_tracker.side, Side::Defender);
            assert_eq!(game.rule, SurroundRule::Strict);
            assert_eq!(game.board.positions().len(), 2);
            assert_eq!(
                game.board.figure_at(pos(0, 1)),
                Some(Figure { side: Side::Attacker, kind: FigureKind::Soldier, position: pos(0, 1) })
            );
        }
        Err(e) => panic!("{:?}", e),
    }
}

#[test]
fn no_game_from_texts_at_fault() {
    let grid = "000\n000\n000";
    assert_eq!(load("00\n0", "d k 1 1", pos(1, 1), vec![]), Err(SpawnError::Text(ParseError::InconsistentRowLength)));
    assert_eq!(load("0x", "d k 1 1", pos(1, 1), vec![]), Err(SpawnError::Text(ParseError::InvalidCharacter)));
    assert_eq!(load("000", "d k 1 1", pos(1, 1), vec![]), Err(SpawnError::Board(SetupError::BoardTooSmall)));
    assert_eq!(load("", "d q 1 1", pos(1, 1), vec![pos(1, 1)]), Err(SpawnError::Board(SetupError::BoardTooSmall)));
    assert_eq!(load(grid, "d q 1 1", pos(1, 1), vec![pos(1, 1)]), Err(SpawnError::Board(SetupError::ThroneIsEscape)));
    assert_eq!(load(grid, "d q 1 1\nd k 1 1\nd s 1 1", pos(1, 1), vec![]), Err(SpawnError::Text(ParseError::InvalidKind)));
    assert_eq!(load(grid, "d k 1 1\nd s 1 3", pos(1, 1), vec![]), Err(SpawnError::Text(ParseError::OutOfBounds)));
    assert_eq!(load(grid, "d s 1 1\nd s 1 1", pos(1, 1), vec![]), Err(SpawnError::Board(SetupError::SquareTaken)));
    assert_eq!(load(grid, "d s 1 1\na s 1 2", pos(1, 1), vec![]), Err(SpawnError::Board(SetupError::MissingKing)));
    assert_eq!(load(grid, "", pos(1, 1), vec![]), Err(SpawnError::Board(SetupError::MissingKing)));
    assert_eq!(load(grid, "d k 1 1\nd k 1 2", pos(1, 1), vec![]), Err(SpawnError::Board(SetupError::DuplicateKing)));
    assert_eq!(load(grid, "d k 1 1\nd s 1 2", pos(1, 1), vec![]), Ok(2));
}

#[test]
fn figures_are_put_unless_two_share_a_square() {
    let a = Figure { side: Side::Attacker, kind: FigureKind::Soldier, position: pos(1, 1) };
    let b = Figure { side: Side::Defender, kind: FigureKind::Soldier, position: pos(2, 1) };
    let c = Figure { side: Side::Defender, kind: FigureKind::King, position: pos(1, 1) };
    let mut board = empty_board();
    assert!(place_all(&mut board, &vec![a, b]));
    assert_eq!(board.figure_at(pos(1, 1)), Some(a));
    assert_eq!(board.figure_at(pos(2, 1)), Some(b));
    assert_eq!(board.positions().len(), 2);
    let mut board = empty_board();
    assert!(!place_all(&mut board, &vec![a, b, c]));
    let mut board = empty_board();
    assert!(place_all(&mut board, &vec![]));
    assert_eq!(board.positions().len(), 0);
}
