use hnefatafl::board::{Board, BoardOptions, Position};
use hnefatafl::figure::{Figure, FigureKind, Side};
use hnefatafl::moving::{TryMoveFigureEvent, TurnTracker};
use hnefatafl::player_interaction::{
    on_mouse_pressed, on_mouse_released, release_selected_figure, DespawnHighlightsEvent, MousePressed,
    ReleaseSelectedFigureEvent, SelectedFigure, Selection, SelectionIndicator, SelectionOptions,
    SpawnHighlightsEvent,
};

fn pos(x: usize, y: usize) -> Position {
    Position { x, y }
}

fn attacker(x: usize, y: usize) -> Figure {
    Figure { side: Side::Attacker, kind: FigureKind::Soldier, position: pos(x, y) }
}

fn defender(x: usize, y: usize) -> Figure {
    Figure { side: Side::Defender, kind: FigureKind::Soldier, position: pos(x, y) }
}

fn board() -> Board {
    let o = BoardOptions {
        rows: 11,
        cols: 11,
        throne_position: pos(5, 5),
        end_positions: vec![pos(0, 0), pos(10, 0), pos(0, 10), pos(10, 10)],
        figures: vec![attacker(1, 0), attacker(3, 0), attacker(1, 2), defender(4, 4)],
    };
    assert_eq!(o.check(), Ok(()));
    Board::new(o)
}

const UNLOCKED: SelectionOptions = SelectionOptions { selection_locked: false };
const ATTACKER_TURN: TurnTracker = TurnTracker { side: Side::Attacker };

#[test]
fn pressing_on_a_figure_of_the_side_to_move_selects_it() {
    let board = board();
    let mut selected = SelectedFigure { current: None };
    let mut indicator = SelectionIndicator { shown_at: None };
    let pressed = on_mouse_pressed(&UNLOCKED, &board, &ATTACKER_TURN, &mut selected, &mut indicator, Some(pos(1, 0)));
    assert_eq!(
        pressed,
        MousePressed {
            grabbed: Some(attacker(1, 0)),
            highlights: Some(SpawnHighlightsEvent { positions: vec![pos(2, 0), pos(1, 1)] }),
        }
    );
    assert_eq!(selected.current, Some(Selection { position: pos(1, 0), was_put_down_once: false }));
    assert_eq!(indicator.shown_at, Some(pos(1, 0)));
}

#[test]
fn pressing_again_on_the_selected_figure_only_grabs_it() {
    let board = board();
    let mut selected = SelectedFigure { current: Some(Selection { position: pos(1, 0), was_put_down_once: true }) };
    let mut indicator = SelectionIndicator { shown_at: Some(pos(1, 0)) };
    let pressed = on_mouse_pressed(&UNLOCKED, &board, &ATTACKER_TURN, &mut selected, &mut indicator, Some(pos(1, 0)));
    assert_eq!(pressed, MousePressed { grabbed: Some(attacker(1, 0)), highlights: None });
    assert_eq!(selected.current, Some(Selection { position: pos(1, 0), was_put_down_once: true }));
    let pressed = on_mouse_pressed(&UNLOCKED, &board, &ATTACKER_TURN, &mut selected, &mut indicator, Some(pos(3, 0)));
    assert_eq!(pressed.grabbed, Some(attacker(3, 0)));
    assert!(pressed.highlights.is_some());
    assert_eq!(selected.current, Some(Selection { position: pos(3, 0), was_put_down_once: false }));
    assert_eq!(indicator.shown_at, Some(pos(3, 0)));
}

#[test]
fn presses_that_select_nothing() {
    let board = board();
    let start = SelectedFigure { current: Some(Selection { position: pos(1, 2), was_put_down_once: false }) };
    let nothing = MousePressed { grabbed: None, highlights: None };
    let locked = SelectionOptions { selection_locked: true };
    let mut selected = start;
    let mut indicator = SelectionIndicator { shown_at: Some(pos(1, 2)) };
    assert_eq!(on_mouse_pressed(&locked, &board, &ATTACKER_TURN, &mut selected, &mut indicator, Some(pos(1, 0))), nothing);
    assert_eq!(on_mouse_pressed(&UNLOCKED, &board, &ATTACKER_TURN, &mut selected, &mut indicator, None), nothing);
    assert_eq!(on_mouse_pressed(&UNLOCKED, &board, &ATTACKER_TURN, &mut selected, &mut indicator, Some(pos(7, 7))), nothing);
    assert_eq!(on_mouse_pressed(&UNLOCKED, &board, &ATTACKER_TURN, &mut selected, &mut indicator, Some(pos(4, 4))), nothing);
    assert_eq!(selected, start);
    assert_eq!(indicator.shown_at, Some(pos(1, 2)));
}

#[test]
fn releasing_over_another_square_asks_for_a_move() {
    let start = SelectedFigure { current: Some(Selection { position: pos(1, 0), was_put_down_once: false }) };
    let mut selected = start;
    assert_eq!(
        on_mouse_released(&mut selected, Some(pos(2, 0)), true),
        (Some(TryMoveFigureEvent { from: pos(1, 0), to: pos(2, 0), slide: false }), None)
    );
    assert_eq!(
        on_mouse_released(&mut selected, Some(pos(9, 9)), false),
        (Some(TryMoveFigureEvent { from: pos(1, 0), to: pos(9, 9), slide: true }), None)
    );
    assert_eq!(selected, start);
}

#[test]
fn releasing_in_place_keeps_the_selection_once() {
    let mut selected = SelectedFigure { current: Some(Selection { position: pos(1, 0), was_put_down_once: false }) };
    assert_eq!(on_mouse_released(&mut selected, Some(pos(1, 0)), true), (None, None));
    assert_eq!(selected.current, Some(Selection { position: pos(1, 0), was_put_down_once: true }));
    assert_eq!(on_mouse_released(&mut selected, None, false), (None, Some(ReleaseSelectedFigureEvent {})));
    assert_eq!(selected.current, Some(Selection { position: pos(1, 0), was_put_down_once: true }));
    let mut none = SelectedFigure { current: None };
    assert_eq!(on_mouse_released(&mut none, Some(pos(1, 0)), true), (None, None));
    assert_eq!(none.current, None);
}

#[test]
fn giving_up_the_selection() {
    let mut selected = SelectedFigure { current: Some(Selection { position: pos(1, 0), was_put_down_once: true }) };
    let mut indicator = SelectionIndicator { shown_at: Some(pos(1, 0)) };
    assert_eq!(
        release_selected_figure(ReleaseSelectedFigureEvent {}, &mut selected, &mut indicator),
        DespawnHighlightsEvent {}
    );
    assert_eq!(selected.current, None);
    assert_eq!(indicator.shown_at, None);
}
