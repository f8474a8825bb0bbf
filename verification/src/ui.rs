//! The clocks of the two sides: which one runs, how much time is left,
//! and when one has run out.

use vstd::prelude::*;
use crate::figure::Side;
use crate::moving::IndicateTurnEvent;
use crate::win_conditions::OnGameTimerFinishedEvent;

verus! {

/// The clock of one side. It runs while it is active, and has run out
/// when no time is left.
#[derive(Debug, Copy, Clone, PartialEq, Eq, Structural)]
pub struct GameTimer {
    pub side: Side,
    pub active: bool,
    /// The time that is left, in milliseconds.
    pub remaining: u64,
}

/// Asks for the clocks to be set for a new game.
#[derive(Debug, Copy, Clone, PartialEq, Eq, Structural)]
pub struct SetupGameUiEvent {
    pub side_with_initial_turn: Side,
    /// The time each side gets, in milliseconds.
    pub timer_duration: u64,
}

/// The clock after `delta` milliseconds went by: an active clock loses
/// them, down to zero, and a stopped clock stays.
pub open spec fn ticked(timer: GameTimer, delta: u64) -> GameTimer {
    if timer.active {
        GameTimer {
            remaining: if timer.remaining >= delta {
                (timer.remaining - delta) as u64
            } else {
                0
            },
            ..timer
        }
    } else {
        timer
    }
}

/// The sides with an active clock that has run out, each once, in the
/// order of the clocks.
pub open spec fn finished_sides(timers: Seq<GameTimer>) -> Seq<Side>
    decreases timers.len(),
{
    if timers.len() == 0 {
        Seq::empty()
    } else {
        let before = finished_sides(timers.drop_last());
        let last = timers.last();
        if last.active && last.remaining == 0 && !before.contains(last.side) {
            before.push(last.side)
        } else {
            before
        }
    }
}

/// Sets every clock to the full time of the event.
pub fn setup_game_ui(event: SetupGameUiEvent, timers: &mut Vec<GameTimer>)
    ensures
        final(timers)@.len() == old(timers)@.len(),
        forall|i: int|
            0 <= i < old(timers)@.len() ==> #[trigger] final(timers)@[i] == (GameTimer {
                remaining: event.timer_duration,
                ..old(timers)@[i]
            }),
{
    let n = timers.len();
    let mut i: usize = 0;
    while i < n
        invariant
            i <= n,
            n == timers@.len(),
            n == old(timers)@.len(),
            forall|k: int|
                0 <= k < i ==> #[trigger] timers@[k] == (GameTimer {
                    remaining: event.timer_duration,
                    ..old(timers)@[k]
                }),
            forall|k: int| i <= k < n ==> #[trigger] timers@[k] == old(timers)@[k],
        decreases n - i,
    {
        let timer = timers[i];
        timers.set(i, GameTimer { side: timer.side, active: timer.active, remaining: event.timer_duration });
        i += 1;
    }
}

/// Starts the clock of the side whose turn it is and stops the other;
/// with nobody to move, every clock stops.
pub fn indicate_turn(event: IndicateTurnEvent, timers: &mut Vec<GameTimer>)
    ensures
        final(timers)@.len() == old(timers)@.len(),
        forall|i: int|
            0 <= i < old(timers)@.len() ==> #[trigger] final(timers)@[i] == (GameTimer {
                active: event.side == Some(old(timers)@[i].side),
                ..old(timers)@[i]
            }),
{
    let n = timers.len();
    let mut i: usize = 0;
    while i < n
        invariant
            i <= n,
            n == timers@.len(),
            n == old(timers)@.len(),
            forall|k: int|
                0 <= k < i ==> #[trigger] timers@[k] == (GameTimer {
                    active: event.side == Some(old(timers)@[k].side),
                    ..old(timers)@[k]
                }),
            forall|k: int| i <= k < n ==> #[trigger] timers@[k] == old(timers)@[k],
        decreases n - i,
    {
        let timer = timers[i];
        let active = match event.side {
            Some(side) => timer.side == side,
            None => false,
        };
        timers.set(i, GameTimer { side: timer.side, active, remaining: timer.remaining });
        i += 1;
    }
}

/// Lets `delta` milliseconds go by on the active clocks and tells which
/// sides have run out of time, each side once.
pub fn update_game_timer(timers: &mut Vec<GameTimer>, delta: u64) -> (finished: Vec<OnGameTimerFinishedEvent>)
    ensures
        final(timers)@.len() == old(timers)@.len(),
        forall|i: int| 0 <= i < old(timers)@.len() ==> #[trigger] final(timers)@[i] == ticked(old(timers)@[i], delta),
        finished@.len() == finished_sides(final(timers)@).len(),
        forall|i: int| 0 <= i < finished@.len() ==> (#[trigger] finished@[i]).side == finished_sides(final(timers)@)[i],
{
    let mut finished: Vec<OnGameTimerFinishedEvent> = Vec::new();
    let ghost mut sides: Seq<Side> = Seq::empty();
    let n = timers.len();
    let mut i: usize = 0;
    while i < n
        invariant
            i <= n,
            n == timers@.len(),
            n == old(timers)@.len(),
            forall|k: int| 0 <= k < i ==> #[trigger] timers@[k] == ticked(old(timers)@[k], delta),
            forall|k: int| i <= k < n ==> #[trigger] timers@[k] == old(timers)@[k],
            sides == finished_sides(timers@.take(i as int)),
            finished@.len() == sides.len(),
            forall|k: int| 0 <= k < finished@.len() ==> (#[trigger] finished@[k]).side == sides[k],
        decreases n - i,
    {
        let timer = timers[i];
        let ghost before = timers@;
        let next = if timer.active {
            GameTimer {
                side: timer.side,
                active: true,
                remaining: if timer.remaining >= delta {
                    timer.remaining - delta
                } else {
                    0
                },
            }
        } else {
            timer
        };
        timers.set(i, next);
        proof {
            assert(timers@.take(i as int) =~= before.take(i as int));
            assert(timers@.take(i as int + 1).drop_last() =~= timers@.take(i as int));
            assert(timers@.take(i as int + 1).last() == next);
        }
        let told = side_in(&finished, next.side);
        proof {
            if sides.contains(next.side) {
                let k = choose|k: int| 0 <= k < sides.len() && sides[k] == next.side;
                assert(finished@[k].side == next.side);
            }
            if told {
                let k = choose|k: int| 0 <= k < finished@.len() && (#[trigger] finished@[k]).side == next.side;
                assert(sides[k] == next.side);
            }
            assert(told == sides.contains(next.side));
        }
        if next.active && next.remaining == 0 && !told {
            finished.push(OnGameTimerFinishedEvent { side: next.side });
            proof {
                sides = sides.push(next.side);
            }
        }
        proof {
            assert(sides == finished_sides(timers@.take(i as int + 1)));
        }
        i += 1;
    }
    proof {
        assert(timers@.take(n as int) =~= timers@);
    }
    finished
}

/// Whether an event for `side` is in the list.
pub fn side_in(events: &Vec<OnGameTimerFinishedEvent>, side: Side) -> (found: bool)
    ensures
        found == (exists|i: int| 0 <= i < events@.len() && (#[trigger] events@[i]).side == side),
{
    let mut i: usize = 0;
    while i < events.len()
        invariant
            i <= events@.len(),
            forall|k: int| 0 <= k < i ==> (#[trigger] events@[k]).side != side,
        decreases events@.len() - i,
    {
        if events[i].side == side {
            return true;
        }
        i += 1;
    }
    false
}

/// The whole minutes and the seconds beyond them that are left on a
/// clock, for showing them as `MM:SS`.
pub fn timer_minutes_and_seconds(timer: &GameTimer) -> (shown: (u64, u64))
    ensures
        shown.0 == timer.remaining / 1000 / 60,
        shown.1 == timer.remaining / 1000 % 60,
        shown.0 * 60 + shown.1 == timer.remaining / 1000,
        shown.1 < 60,
{
    let remaining = timer.remaining / 1000;
    (remaining / 60, remaining % 60)
}

} // verus!
