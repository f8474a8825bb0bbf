use hnefatafl::board::{Axis2, Board, BoardOptions, Position};
use hnefatafl::figure::{Figure, FigureKind, Side};
use hnefatafl::move_validation::{can_be_placed_on, possible_moves, possible_moves_in_range};

fn pos(x: usize, y: usize) -> Position {
    Position { x, y }
}

fn soldier(side: Side, x: usize, y: usize) -> Figure {
    Figure { side, kind: FigureKind::Soldier, position: pos(x, y) }
}

fn king(x: usize, y: usize) -> Figure {
    Figure { side: Side::Defender, kind: FigureKind::King, position: pos(x, y) }
}

fn board_with(figures: Vec<Figure>) -> Board {
    let o = BoardOptions {
        rows: 11,
        cols: 11,
        throne_position: pos(5, 5),
        end_positions: vec![pos(0, 0), pos(10, 0), pos(0, 10), pos(10, 10)],
        figures,
    };
    assert_eq!(o.check(), Ok(()));
    Board::new(o)
}

fn sorted(list: Vec<Position>) -> Vec<(usize, usize)> {
    let mut out: Vec<(usize, usize)> = list.iter().map(|p| (p.x, p.y)).collect();
    out.sort();
    out
}

#[test]
fn soldier_on_the_edge_stops_before_the_corners() {
    let figure = soldier(Side::Attacker, 3, 0);
    let board = board_with(vec![figure]);
    let moves = possible_moves(&board, figure);
    let mut expected: Vec<(usize, usize)> = vec![(1, 0), (2, 0)];
    for x in 4..10 {
        expected.push((x, 0));
    }
    for y in 1..11 {
        expected.push((3, y));
    }
    expected.sort();
    assert_eq!(sorted(moves.clone()), expected);
    assert!(!moves.contains(&pos(0, 0)));
    assert!(!moves.contains(&pos(10, 0)));
}

#[test]
fn possible_moves_come_left_right_up_down() {
    let figure = soldier(Side::Defender, 2, 2);
    let board = board_with(vec![figure, soldier(Side::Attacker, 5, 2), soldier(Side::Attacker, 2, 4)]);
    assert_eq!(
        possible_moves(&board, figure),
        vec![pos(1, 2), pos(0, 2), pos(3, 2), pos(4, 2), pos(2, 1), pos(2, 0), pos(2, 3)]
    );
}

#[test]
fn soldier_does_not_pass_the_throne() {
    let figure = soldier(Side::Defender, 5, 3);
    let board = board_with(vec![figure]);
    let moves = possible_moves(&board, figure);
    assert!(moves.contains(&pos(5, 4)));
    assert!(!moves.contains(&pos(5, 5)));
    assert!(!moves.contains(&pos(5, 6)));
    assert_eq!(possible_moves_in_range(&board, figure, Axis2::Y, false), vec![pos(5, 4)]);
}

#[test]
fn king_moves_onto_the_throne_and_the_corners() {
    let figure = king(5, 0);
    let board = board_with(vec![figure]);
    let moves = possible_moves(&board, figure);
    assert!(moves.contains(&pos(0, 0)));
    assert!(moves.contains(&pos(10, 0)));
    assert!(moves.contains(&pos(5, 5)));
    assert!(moves.contains(&pos(5, 10)));
    assert_eq!(moves.len(), 20);
}

#[test]
fn king_does_not_move_onto_an_occupied_corner_or_throne() {
    let figure = king(5, 0);
    let board = board_with(vec![figure, soldier(Side::Attacker, 0, 0), soldier(Side::Defender, 5, 5)]);
    let moves = possible_moves(&board, figure);
    assert!(!moves.contains(&pos(0, 0)));
    assert!(moves.contains(&pos(1, 0)));
    assert!(!moves.contains(&pos(5, 5)));
    assert!(moves.contains(&pos(5, 4)));
}

#[test]
fn figures_are_not_jumped_over() {
    let figure = soldier(Side::Attacker, 0, 5);
    let board = board_with(vec![figure, soldier(Side::Attacker, 1, 5), soldier(Side::Defender, 0, 7)]);
    assert_eq!(sorted(possible_moves(&board, figure)), vec![(0, 1), (0, 2), (0, 3), (0, 4), (0, 6)]);
}

#[test]
fn a_boxed_in_figure_has_no_moves() {
    let figure = soldier(Side::Defender, 4, 4);
    let board = board_with(vec![
        figure,
        soldier(Side::Defender, 3, 4),
        soldier(Side::Defender, 5, 4),
        soldier(Side::Attacker, 4, 3),
        soldier(Side::Attacker, 4, 5),
    ]);
    assert_eq!(possible_moves(&board, figure), vec![]);
}

#[test]
fn runs_are_listed_step_by_step() {
    let figure = soldier(Side::Attacker, 4, 7);
    let board = board_with(vec![figure, soldier(Side::Defender, 1, 7)]);
    assert_eq!(possible_moves_in_range(&board, figure, Axis2::X, true), vec![pos(3, 7), pos(2, 7)]);
    assert_eq!(
        possible_moves_in_range(&board, figure, Axis2::X, false),
        vec![pos(5, 7), pos(6, 7), pos(7, 7), pos(8, 7), pos(9, 7), pos(10, 7)]
    );
    assert_eq!(possible_moves_in_range(&board, figure, Axis2::Y, false), vec![pos(4, 8), pos(4, 9), pos(4, 10)]);
    assert_eq!(possible_moves_in_range(&board, figure, Axis2::Y, true).len(), 7);
}

#[test]
fn a_figure_beyond_the_board_still_walks_towards_zero() {
    let figure = soldier(Side::Attacker, 12, 3);
    let board = board_with(vec![]);
    assert_eq!(possible_moves_in_range(&board, figure, Axis2::X, false), vec![]);
    assert_eq!(possible_moves_in_range(&board, figure, Axis2::X, true).len(), 12);
}

#[test]
fn placing_follows_the_special_squares() {
    let board = board_with(vec![soldier(Side::Attacker, 2, 2)]);
    let s = soldier(Side::Defender, 1, 1);
    let k = king(1, 1);
    assert!(can_be_placed_on(&board, s, pos(3, 3)));
    assert!(!can_be_placed_on(&board, s, pos(2, 2)));
    assert!(!can_be_placed_on(&board, k, pos(2, 2)));
    assert!(!can_be_placed_on(&board, s, pos(5, 5)));
    assert!(can_be_placed_on(&board, k, pos(5, 5)));
    assert!(!can_be_placed_on(&board, s, pos(0, 10)));
    assert!(can_be_placed_on(&board, k, pos(0, 10)));
}
