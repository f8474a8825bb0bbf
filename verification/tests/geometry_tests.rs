use hnefatafl::board::{Board, BoardOptions, Position};
use hnefatafl::figure::Side;
use hnefatafl::geometry::{FieldMeasures, Point};
use hnefatafl::moving::IndicateTurnEvent;
use hnefatafl::ui::{
    indicate_turn, setup_game_ui, side_in, timer_minutes_and_seconds, update_game_timer, GameTimer,
    SetupGameUiEvent,
};
use hnefatafl::win_conditions::OnGameTimerFinishedEvent;

const MEASURES: FieldMeasures = FieldMeasures { field_size: 50, border_width: 4 };

fn board(rows: usize, cols: usize) -> Board {
    let o = BoardOptions { rows, cols, throne_position: Position { x: 1, y: 1 }, end_positions: vec![], figures: vec![] };
    assert_eq!(o.check(), Ok(()));
    Board::new(o)
}

fn pos(x: usize, y: usize) -> Position {
    Position { x, y }
}

#[test]
fn points_fall_into_fields() {
    let grid = board(11, 11);
    assert_eq!(grid.world_to_board(MEASURES, Point { x: 0, y: 0 }), Some(pos(0, 0)));
    assert_eq!(grid.world_to_board(MEASURES, Point { x: 49, y: 53 }), Some(pos(0, 0)));
    assert_eq!(grid.world_to_board(MEASURES, Point { x: 54, y: 53 }), Some(pos(1, 0)));
    assert_eq!(grid.world_to_board(MEASURES, Point { x: 300, y: 120 }), Some(pos(5, 2)));
    assert_eq!(grid.world_to_board(MEASURES, Point { x: 589, y: 589 }), Some(pos(10, 10)));
    let wide = board(2, 7);
    assert_eq!(wide.world_to_board(MEASURES, Point { x: 373, y: 103 }), Some(pos(6, 1)));
    assert_eq!(wide.world_to_board(MEASURES, Point { x: 373, y: 104 }), None);
    assert_eq!(wide.world_to_board(MEASURES, Point { x: 374, y: 103 }), None);
}

#[test]
fn points_beyond_the_field_area_fall_into_no_field() {
    let grid = board(11, 11);
    assert_eq!(grid.world_to_board(MEASURES, Point { x: 590, y: 0 }), None);
    assert_eq!(grid.world_to_board(MEASURES, Point { x: 0, y: 590 }), None);
    assert_eq!(grid.world_to_board(MEASURES, Point { x: u128::MAX, y: u128::MAX }), None);
    let flat = FieldMeasures { field_size: 0, border_width: 0 };
    assert_eq!(grid.world_to_board(flat, Point { x: 0, y: 0 }), None);
    let lines = FieldMeasures { field_size: 0, border_width: 3 };
    assert_eq!(grid.world_to_board(lines, Point { x: 29, y: 0 }), Some(pos(9, 0)));
    assert_eq!(grid.world_to_board(lines, Point { x: 30, y: 0 }), None);
}

#[test]
fn fields_have_their_middle() {
    let grid = board(11, 11);
    assert_eq!(grid.board_to_world(MEASURES, pos(0, 0)), Point { x: 25, y: 25 });
    assert_eq!(grid.board_to_world(MEASURES, pos(5, 2)), Point { x: 295, y: 133 });
    assert_eq!(grid.board_to_world(MEASURES, pos(10, 10)), Point { x: 565, y: 565 });
}

#[test]
fn a_point_and_the_middle_of_its_field_share_the_field() {
    let grid = board(11, 11);
    for x in [0u128, 1, 49, 50, 53, 54, 107, 108, 300, 589] {
        for y in [0u128, 26, 53, 54, 400, 589] {
            let square = grid.world_to_board(MEASURES, Point { x, y });
            match square {
                Some(s) => {
                    assert_eq!(grid.world_to_board(MEASURES, grid.board_to_world(MEASURES, s)), Some(s))
                }
                None => panic!("{} {} should fall into a field", x, y),
            }
        }
    }
    for x in 0..11 {
        for y in 0..11 {
            let middle = grid.board_to_world(MEASURES, pos(x, y));
            assert_eq!(grid.world_to_board(MEASURES, middle), Some(pos(x, y)));
        }
    }
}

fn clocks() -> Vec<GameTimer> {
    vec![
        GameTimer { side: Side::Attacker, active: false, remaining: 0 },
        GameTimer { side: Side::Defender, active: false, remaining: 0 },
    ]
}

#[test]
fn clocks_are_set_and_started() {
    let mut timers = clocks();
    setup_game_ui(SetupGameUiEvent { side_with_initial_turn: Side::Attacker, timer_duration: 600_000 }, &mut timers);
    assert_eq!(
        timers,
        vec![
            GameTimer { side: Side::Attacker, active: false, remaining: 600_000 },
            GameTimer { side: Side::Defender, active: false, remaining: 600_000 },
        ]
    );
    indicate_turn(IndicateTurnEvent { side: Some(Side::Defender) }, &mut timers);
    assert_eq!(
        timers,
        vec![
            GameTimer { side: Side::Attacker, active: false, remaining: 600_000 },
            GameTimer { side: Side::Defender, active: true, remaining: 600_000 },
        ]
    );
    indicate_turn(IndicateTurnEvent { side: Some(Side::Attacker) }, &mut timers);
    assert!(timers[0].active);
    assert!(!timers[1].active);
    indicate_turn(IndicateTurnEvent { side: None }, &mut timers);
    assert!(!timers[0].active);
    assert!(!timers[1].active);
}

#[test]
fn only_the_active_clock_runs() {
    let mut timers = clocks();
    setup_game_ui(SetupGameUiEvent { side_with_initial_turn: Side::Attacker, timer_duration: 1_000 }, &mut timers);
    indicate_turn(IndicateTurnEvent { side: Some(Side::Attacker) }, &mut timers);
    assert_eq!(update_game_timer(&mut timers, 400), vec![]);
    assert_eq!(timers[0].remaining, 600);
    assert_eq!(timers[1].remaining, 1_000);
    assert_eq!(update_game_timer(&mut timers, 600), vec![OnGameTimerFinishedEvent { side: Side::Attacker }]);
    assert_eq!(timers[0].remaining, 0);
    assert_eq!(update_game_timer(&mut timers, 5_000), vec![OnGameTimerFinishedEvent { side: Side::Attacker }]);
    assert_eq!(timers[0].remaining, 0);
    assert_eq!(timers[1].remaining, 1_000);
    indicate_turn(IndicateTurnEvent { side: None }, &mut timers);
    assert_eq!(update_game_timer(&mut timers, 5_000), vec![]);
}

#[test]
fn a_side_with_two_clocks_is_told_once() {
    let mut timers = vec![
        GameTimer { side: Side::Defender, active: true, remaining: 10 },
        GameTimer { side: Side::Attacker, active: true, remaining: 30 },
        GameTimer { side: Side::Defender, active: true, remaining: 20 },
        GameTimer { side: Side::Attacker, active: false, remaining: 0 },
    ];
    assert_eq!(update_game_timer(&mut timers, 25), vec![OnGameTimerFinishedEvent { side: Side::Defender }]);
    assert_eq!(timers[1].remaining, 5);
    assert_eq!(
        update_game_timer(&mut timers, u64::MAX),
        vec![OnGameTimerFinishedEvent { side: Side::Defender }, OnGameTimerFinishedEvent { side: Side::Attacker }]
    );
    assert!(side_in(&vec![OnGameTimerFinishedEvent { side: Side::Defender }], Side::Defender));
    assert!(!side_in(&vec![OnGameTimerFinishedEvent { side: Side::Defender }], Side::Attacker));
}

#[test]
fn the_time_left_as_minutes_and_seconds() {
    let timer = |remaining| GameTimer { side: Side::Attacker, active: true, remaining };
    assert_eq!(timer_minutes_and_seconds(&timer(600_000)), (10, 0));
    assert_eq!(timer_minutes_and_seconds(&timer(599_999)), (9, 59));
    assert_eq!(timer_minutes_and_seconds(&timer(61_000)), (1, 1));
    assert_eq!(timer_minutes_and_seconds(&timer(999)), (0, 0));
}
