//! Selecting a figure and letting it go: what a press and a release of
//! the mouse button on a square of the board lead to.

use vstd::prelude::*;
use crate::board::{Board, Position};
use crate::figure::Figure;
use crate::move_validation::{legal_destination, moves_in_order, possible_moves};
use crate::moving::{TryMoveFigureEvent, TurnTracker};

verus! {

/// Whether figures can be selected at the moment.
#[derive(Debug, Copy, Clone, PartialEq, Eq, Structural)]
pub struct SelectionOptions {
    pub selection_locked: bool,
}

/// A selected figure.
#[derive(Debug, Copy, Clone, PartialEq, Eq, Structural)]
pub struct Selection {
    /// The square of the selected figure.
    pub position: Position,
    /// Whether the figure was let go once since it was selected.
    pub was_put_down_once: bool,
}

/// The figure that is selected, if any.
#[derive(Debug, Copy, Clone, PartialEq, Eq, Structural)]
pub struct SelectedFigure {
    pub current: Option<Selection>,
}

/// The mark on the square of the selected figure.
#[derive(Debug, Copy, Clone, PartialEq, Eq, Structural)]
pub struct SelectionIndicator {
    /// The marked square; `None` while the mark is hidden.
    pub shown_at: Option<Position>,
}

/// Asks for the possible moves of the selected figure to be shown.
#[derive(Debug, Clone, PartialEq, Eq)]
pub struct SpawnHighlightsEvent {
    pub positions: Vec<Position>,
}

/// Asks for the shown possible moves to be taken away.
#[derive(Debug, Copy, Clone, PartialEq, Eq, Structural)]
pub struct DespawnHighlightsEvent {
}

/// Asks for the selection to be given up.
#[derive(Debug, Copy, Clone, PartialEq, Eq, Structural)]
pub struct ReleaseSelectedFigureEvent {
}

/// What a press of the mouse button led to.
#[derive(Debug, Clone, PartialEq, Eq)]
pub struct MousePressed {
    /// The figure that follows the mouse from now on.
    pub grabbed: Option<Figure>,
    /// The possible moves to show, if the selection changed.
    pub highlights: Option<SpawnHighlightsEvent>,
}

/// The figure that a press on `field` takes hold of: the figure on that
/// square, if selecting is not locked and it is that figure's turn.
pub open spec fn grabbed_by_press(
    options: SelectionOptions,
    board: crate::board::BoardView,
    turn: TurnTracker,
    field: Option<Position>,
) -> Option<Figure> {
    if options.selection_locked {
        None
    } else {
        match field {
            None => None,
            Some(p) => match board.occupant(p) {
                None => None,
                Some(f) => if f.side == turn.side {
                    Some(f)
                } else {
                    None
                },
            },
        }
    }
}

/// Selects the figure on the square `field` that the mouse was pressed
/// on; `None` stands for a press beside the board.
///
/// Nothing happens if selecting is locked, the square is empty, or the
/// figure is not of the side to move. Else the figure is grabbed. If it
/// was selected already the selection stays as it is; if not, it becomes
/// the selection, the mark goes to its square, and its possible moves are
/// handed out to be shown.
pub fn on_mouse_pressed(
    options: &SelectionOptions,
    board: &Board,
    turn_tracker: &TurnTracker,
    selected_figure: &mut SelectedFigure,
    indicator: &mut SelectionIndicator,
    field: Option<Position>,
) -> (pressed: MousePressed)
    ensures
        pressed.grabbed == grabbed_by_press(*options, board@, *turn_tracker, field),
        match pressed.grabbed {
            None => {
                &&& pressed.highlights is None
                &&& *final(selected_figure) == *old(selected_figure)
                &&& *final(indicator) == *old(indicator)
            },
            Some(figure) => if (old(selected_figure).current matches Some(selection) && selection.position
                == figure.position) {
                &&& pressed.highlights is None
                &&& *final(selected_figure) == *old(selected_figure)
                &&& *final(indicator) == *old(indicator)
            } else {
                &&& final(selected_figure).current == Some(
                    Selection { position: figure.position, was_put_down_once: false },
                )
                &&& final(indicator).shown_at == Some(figure.position)
                &&& pressed.highlights is Some
                &&& moves_in_order(board@, figure, pressed.highlights->Some_0.positions@)
                &&& pressed.highlights->Some_0.positions@.no_duplicates()
                &&& forall|p: Position|
                    pressed.highlights->Some_0.positions@.contains(p) <==> legal_destination(board@, figure, p)
            },
        },
{
    if options.selection_locked {
        return MousePressed { grabbed: None, highlights: None };
    }
    let selected_field = match field {
        Some(p) => p,
        None => {
            return MousePressed { grabbed: None, highlights: None };
        },
    };
    let figure = match board.figure_at(selected_field) {
        Some(f) => f,
        None => {
            return MousePressed { grabbed: None, highlights: None };
        },
    };
    if figure.side != turn_tracker.side {
        // it is the other side's turn so the figure can't be selected
        return MousePressed { grabbed: None, highlights: None };
    }
    assert(figure.position == selected_field);
    if let Some(selection) = selected_figure.current {
        if selection.position == selected_field {
            return MousePressed { grabbed: Some(figure), highlights: None };
        }
    }
    selected_figure.current = Some(Selection { position: selected_field, was_put_down_once: false });
    indicator.shown_at = Some(selected_field);
    let positions = possible_moves(board, figure);
    MousePressed { grabbed: Some(figure), highlights: Some(SpawnHighlightsEvent { positions }) }
}

/// Lets go of the selected figure over the square `field`; `None` stands
/// for a release beside the board.
///
/// Over another square than its own, a move to that square is asked for:
/// at once if the figure was `grabbed` and carried there, as a slide if
/// it was not. Else, if the figure is let go for the first time the
/// selection remains, and otherwise giving up the selection is asked for.
pub fn on_mouse_released(selected_figure: &mut SelectedFigure, field: Option<Position>, grabbed: bool) -> (released: (
    Option<TryMoveFigureEvent>,
    Option<ReleaseSelectedFigureEvent>,
))
    ensures
        match old(selected_figure).current {
            None => {
                &&& released.0 is None
                &&& released.1 is None
                &&& *final(selected_figure) == *old(selected_figure)
            },
            Some(selection) => if field is Some && field != Some(selection.position) {
                &&& released.0 == Some(
                    TryMoveFigureEvent { from: selection.position, to: field->Some_0, slide: !grabbed },
                )
                &&& released.1 is None
                &&& *final(selected_figure) == *old(selected_figure)
            } else {
                &&& released.0 is None
                &&& released.1 is Some == selection.was_put_down_once
                &&& final(selected_figure).current == Some(
                    Selection { position: selection.position, was_put_down_once: true },
                )
            },
        },
{
    let (from, was_put_down_once) = match selected_figure.current {
        Some(selection) => (selection.position, selection.was_put_down_once),
        None => {
            return (None, None);
        },
    };
    if let Some(to) = field {
        if from != to {
            return (Some(TryMoveFigureEvent { from, to, slide: !grabbed }), None);
        }
    }
    if was_put_down_once {
        (None, Some(ReleaseSelectedFigureEvent {  }))
    } else {
        selected_figure.current = Some(Selection { position: from, was_put_down_once: true });
        (None, None)
    }
}

/// Gives up the selection: no figure is selected, the mark is hidden, and
/// the shown possible moves are to be taken away.
pub fn release_selected_figure(
    event: ReleaseSelectedFigureEvent,
    selected_figure: &mut SelectedFigure,
    indicator: &mut SelectionIndicator,
) -> (despawn: DespawnHighlightsEvent)
    ensures
        final(selected_figure).current is None,
        final(indicator).shown_at is None,
{
    selected_figure.current = None;
    indicator.shown_at = None;
    DespawnHighlightsEvent {  }
}

} // verus!
