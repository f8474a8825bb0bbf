//! The board: its size, its special squares, and the figures on it.

use vstd::prelude::*;
use crate::figure::Figure;
use crate::figure_map::{FigureMap, figure_map_contents, figure_map_get, figure_map_insert, figure_map_keys, figure_map_new, figure_map_remove};

verus! {

/// One of the two directions of the grid.
#[derive(Debug, Copy, Clone, PartialEq, Eq, Hash, Structural)]
pub enum Axis2 {
    X,
    Y,
}

/// A square: column `x` and row `y`, both counted from zero.
#[derive(Debug, Copy, Clone, PartialEq, Eq, Hash, Structural)]
pub struct Position {
    pub x: usize,
    pub y: usize,
}

/// Why a board cannot be set up as asked.
#[derive(Debug, Copy, Clone, PartialEq, Eq, Structural)]
pub enum SetupError {
    /// Fewer than two rows or two columns.
    BoardTooSmall,
    /// The throne is also listed as an escape square.
    ThroneIsEscape,
    /// A figure is placed outside the grid.
    OutOfBoard,
    /// Two figures are placed on one square.
    SquareTaken,
    /// The board holds no King of the Defender.
    MissingKing,
    /// The board holds more than one King.
    DuplicateKing,
}

/// What a board is made from.
pub struct BoardOptions {
    pub rows: usize,
    pub cols: usize,
    pub throne_position: Position,
    pub end_positions: Vec<Position>,
    pub figures: Vec<Figure>,
}

/// The figure wrapped as a sequence of one, or the empty sequence.
pub open spec fn seq_of(figure: Option<Figure>) -> Seq<Figure> {
    match figure {
        Some(f) => seq![f],
        None => Seq::empty(),
    }
}

impl BoardOptions {
    /// The options describe a board: at least 2 x 2, the throne no escape
    /// square, every figure inside the grid, no two on one square.
    pub open spec fn valid(&self) -> bool {
        &&& self.rows >= 2
        &&& self.cols >= 2
        &&& !self.end_positions@.contains(self.throne_position)
        &&& forall|i: int| 0 <= i < self.figures@.len() ==>
                (#[trigger] self.figures@[i]).position.x < self.cols
                && self.figures@[i].position.y < self.rows
        &&& forall|i: int, j: int| 0 <= i < j < self.figures@.len() ==>
                (#[trigger] self.figures@[i]).position != (#[trigger] self.figures@[j]).position
    }

    /// The first fault of the options, in the order: size, throne, figures
    /// outside the grid, figures sharing a square.
    pub open spec fn fault(&self) -> Option<SetupError> {
        if self.rows < 2 || self.cols < 2 {
            Some(SetupError::BoardTooSmall)
        } else if self.end_positions@.contains(self.throne_position) {
            Some(SetupError::ThroneIsEscape)
        } else if exists|i: int| 0 <= i < self.figures@.len()
                && !((#[trigger] self.figures@[i]).position.x < self.cols
                && self.figures@[i].position.y < self.rows) {
            Some(SetupError::OutOfBoard)
        } else if exists|i: int, j: int| 0 <= i < j < self.figures@.len()
                && (#[trigger] self.figures@[i]).position == (#[trigger] self.figures@[j]).position {
            Some(SetupError::SquareTaken)
        } else {
            None
        }
    }

    /// Tests the options: `Ok` exactly when they are valid, else the first fault.
    pub fn check(&self) -> (outcome: Result<(), SetupError>)
        ensures
            outcome is Ok <==> self.valid(),
            outcome == (match self.fault() {
                Some(e) => Err::<(), SetupError>(e),
                None => Ok::<(), SetupError>(()),
            }),
    {
        if self.rows < 2 || self.cols < 2 {
            return Err(SetupError::BoardTooSmall);
        }
        if position_in(&self.end_positions, self.throne_position) {
            return Err(SetupError::ThroneIsEscape);
        }
        let n = self.figures.len();
        let mut i: usize = 0;
        while i < n
            invariant
                i <= n,
                n == self.figures@.len(),
                self.rows >= 2,
                self.cols >= 2,
                !self.end_positions@.contains(self.throne_position),
                forall|k: int| 0 <= k < i ==>
                    (#[trigger] self.figures@[k]).position.x < self.cols
                    && self.figures@[k].position.y < self.rows,
            decreases n - i,
        {
            let p = self.figures[i].position;
            if !(p.x < self.cols && p.y < self.rows) {
                assert(self.figures@[i as int].position == p);
                return Err(SetupError::OutOfBoard);
            }
            i += 1;
        }
        let mut j: usize = 0;
        while j < n
            invariant
                j <= n,
                n == self.figures@.len(),
                self.fault() != Some(SetupError::BoardTooSmall),
                self.fault() != Some(SetupError::ThroneIsEscape),
                self.fault() != Some(SetupError::OutOfBoard),
                forall|a: int, b: int| 0 <= a < b < j ==>
                    (#[trigger] self.figures@[a]).position != (#[trigger] self.figures@[b]).position,
            decreases n - j,
        {
            let mut k: usize = 0;
            while k < j
                invariant
                    k <= j,
                    j < n,
                    n == self.figures@.len(),
                    self.fault() != Some(SetupError::BoardTooSmall),
                    self.fault() != Some(SetupError::ThroneIsEscape),
                    self.fault() != Some(SetupError::OutOfBoard),
                    forall|a: int| 0 <= a < k ==>
                        (#[trigger] self.figures@[a]).position != self.figures@[j as int].position,
                decreases j - k,
            {
                if self.figures[k].position == self.figures[j].position {
                    assert(self.figures@[k as int].position == self.figures@[j as int].position);
                    return Err(SetupError::SquareTaken);
                }
                k += 1;
            }
            j += 1;
        }
        Ok(())
    }
}

/// Whether `position` occurs in `list`.
pub fn position_in(list: &Vec<Position>, position: Position) -> (found: bool)
    ensures
        found == list@.contains(position),
{
    let mut i: usize = 0;
    while i < list.len()
        invariant
            i <= list@.len(),
            forall|k: int| 0 <= k < i ==> list@[k] != position,
        decreases list@.len() - i,
    {
        if list[i] == position {
            return true;
        }
        i += 1;
    }
    false
}

/// The board of one game.
pub struct Board {
    pub rows: usize,
    pub cols: usize,
    pub throne_position: Position,
    pub end_positions: Vec<Position>,
    /// Square to figure; at most one figure per square.
    pub figures: FigureMap,
}

/// A board as a mathematical value: its size, its special squares, and the
/// figure on each occupied square.
pub struct BoardView {
    pub rows: usize,
    pub cols: usize,
    pub throne_position: Position,
    pub end_positions: Seq<Position>,
    pub figures: Map<Position, Figure>,
}

impl BoardView {
    /// The figure on `position`, if the square is occupied.
    pub open spec fn occupant(self, position: Position) -> Option<Figure> {
        if self.figures.contains_key(position) {
            Some(self.figures[position])
        } else {
            None
        }
    }

    /// Whether `position` is an escape square.
    pub open spec fn is_end(self, position: Position) -> bool {
        self.end_positions.contains(position)
    }

    /// Whether `position` lies inside the grid.
    pub open spec fn on_board(self, position: Position) -> bool {
        position.x < self.cols && position.y < self.rows
    }

    /// The board's invariant: at least 2 x 2, the throne no escape square,
    /// every figure inside the grid and recorded under its own square.
    pub open spec fn wf(self) -> bool {
        &&& self.rows >= 2
        &&& self.cols >= 2
        &&& !self.is_end(self.throne_position)
        &&& forall|p: Position| #[trigger]
            self.figures.contains_key(p) ==> self.on_board(p) && self.figures[p].position == p
    }

    /// The board with the squares in `gone` emptied.
    pub open spec fn without(self, gone: Set<Position>) -> BoardView {
        BoardView { figures: self.figures.remove_keys(gone), ..self }
    }

    /// The board with `figure` standing on its square.
    pub open spec fn with_figure(self, figure: Figure) -> BoardView {
        BoardView { figures: self.figures.insert(figure.position, figure), ..self }
    }

    /// The figures on the squares next to `position`, in the order left,
    /// right, up (row - 1), down (row + 1); squares outside the grid and
    /// empty squares give nothing.
    pub open spec fn neighbors(self, position: Position) -> Seq<Figure> {
        let left = if position.x >= 1 {
            self.occupant(Position { x: (position.x - 1) as usize, y: position.y })
        } else {
            None
        };
        let right = if position.x + 1 < self.cols {
            self.occupant(Position { x: (position.x + 1) as usize, y: position.y })
        } else {
            None
        };
        let up = if position.y >= 1 {
            self.occupant(Position { x: position.x, y: (position.y - 1) as usize })
        } else {
            None
        };
        let down = if position.y + 1 < self.rows {
            self.occupant(Position { x: position.x, y: (position.y + 1) as usize })
        } else {
            None
        };
        seq_of(left) + seq_of(right) + seq_of(up) + seq_of(down)
    }
}

impl View for Board {
    type V = BoardView;

    open spec fn view(&self) -> BoardView {
        BoardView {
            rows: self.rows,
            cols: self.cols,
            throne_position: self.throne_position,
            end_positions: self.end_positions@,
            figures: Map::new(
                |p: Position| figure_map_contents(self.figures).contains_key((p.x, p.y)),
                |p: Position|
                    Figure {
                        side: figure_map_contents(self.figures)[(p.x, p.y)].side,
                        kind: figure_map_contents(self.figures)[(p.x, p.y)].kind,
                        position: p,
                    },
            ),
        }
    }
}

impl Board {
    /// Creates a board from valid options.
    pub fn new(options: BoardOptions) -> (board: Board)
        requires
            options.valid(),
        ensures
            board@.wf(),
            board.rows == options.rows,
            board.cols == options.cols,
            board.throne_position == options.throne_position,
            board.end_positions@ == options.end_positions@,
            forall|i: int| 0 <= i < options.figures@.len() ==>
                board@.occupant((#[trigger] options.figures@[i]).position) == Some(options.figures@[i]),
            forall|p: Position| (#[trigger] board@.occupant(p)) is Some ==>
                exists|i: int| 0 <= i < options.figures@.len() && (#[trigger] options.figures@[i]).position == p,
    {
        let mut board = Board {
            rows: options.rows,
            cols: options.cols,
            throne_position: options.throne_position,
            end_positions: options.end_positions,
            figures: figure_map_new(),
        };
        let n = options.figures.len();
        let mut i: usize = 0;
        while i < n
            invariant
                i <= n,
                n == options.figures@.len(),
                options.valid(),
                board@.wf(),
                board.rows == options.rows,
                board.cols == options.cols,
                board.throne_position == options.throne_position,
                board.end_positions@ == options.end_positions@,
                forall|k: int| 0 <= k < i ==>
                    board@.occupant((#[trigger] options.figures@[k]).position) == Some(options.figures@[k]),
                forall|p: Position| (#[trigger] board@.occupant(p)) is Some ==>
                    exists|k: int| 0 <= k < i && (#[trigger] options.figures@[k]).position == p,
            decreases n - i,
        {
            let figure = options.figures[i];
            let ghost before = board@;
            board.place(figure);
            assert forall|p: Position| (#[trigger] board@.occupant(p)) is Some implies
                exists|k: int| 0 <= k < i + 1 && (#[trigger] options.figures@[k]).position == p by {
                if p == figure.position {
                    assert(options.figures@[i as int].position == p);
                } else {
                    assert(before.occupant(p) is Some);
                }
            }
            assert forall|k: int| 0 <= k < i + 1 implies
                board@.occupant((#[trigger] options.figures@[k]).position) == Some(options.figures@[k]) by {
                if k < i {
                    assert(before.occupant(options.figures@[k].position) == Some(options.figures@[k]));
                }
            }
            i += 1;
        }
        board
    }

    /// Determines whether `position` is on the board.
    pub fn is_on_board(&self, position: Position) -> (inside: bool)
        ensures
            inside == self@.on_board(position),
    {
        position.x < self.cols && position.y < self.rows
    }

    /// Whether `position` is one of the escape squares.
    pub fn is_end_position(&self, position: Position) -> (escape: bool)
        ensures
            escape == self@.is_end(position),
    {
        position_in(&self.end_positions, position)
    }

    /// The figure on `position`, if any.
    pub fn figure_at(&self, position: Position) -> (found: Option<Figure>)
        ensures
            found == self@.occupant(position),
    {
        match figure_map_get(&self.figures, (position.x, position.y)) {
            Some(t) => Some(Figure { side: t.side, kind: t.kind, position }),
            None => None,
        }
    }

    /// Puts `figure` on its square, replacing what stood there.
    pub fn place(&mut self, figure: Figure)
        requires
            old(self)@.wf(),
            old(self)@.on_board(figure.position),
        ensures
            final(self)@.wf(),
            final(self)@ == old(self)@.with_figure(figure),
    {
        let _ = figure_map_insert(&mut self.figures, (figure.position.x, figure.position.y), figure.figure_type());
        proof {
            assert(self@.figures =~= old(self)@.with_figure(figure).figures);
        }
    }

    /// Takes the figure on `position` off the board and returns it; an
    /// empty square stays empty.
    pub fn remove(&mut self, position: Position) -> (taken: Option<Figure>)
        requires
            old(self)@.wf(),
        ensures
            final(self)@.wf(),
            final(self)@ == old(self)@.without(set![position]),
            taken == old(self)@.occupant(position),
    {
        let before = figure_map_remove(&mut self.figures, (position.x, position.y));
        proof {
            assert(self@.figures =~= old(self)@.without(set![position]).figures);
        }
        match before {
            Some(t) => Some(Figure { side: t.side, kind: t.kind, position }),
            None => None,
        }
    }

    /// The occupied squares, each once, in no particular order.
    pub fn positions(&self) -> (result: Vec<Position>)
        ensures
            result@.no_duplicates(),
            forall|p: Position| result@.contains(p) <==> self@.occupant(p) is Some,
    {
        let keys = figure_map_keys(&self.figures);
        let mut result: Vec<Position> = Vec::new();
        let mut i: usize = 0;
        while i < keys.len()
            invariant
                i <= keys@.len(),
                result@.len() == i,
                forall|k: int| 0 <= k < i ==> (#[trigger] result@[k]).x == keys@[k].0 && result@[k].y == keys@[k].1,
            decreases keys@.len() - i,
        {
            let key = keys[i];
            result.push(Position { x: key.0, y: key.1 });
            i += 1;
        }
        proof {
            assert forall|a: int, b: int| 0 <= a < b < result@.len() implies result@[a] != result@[b] by {
                assert(keys@[a] != keys@[b]);
            }
            assert forall|p: Position| result@.contains(p) <==> self@.occupant(p) is Some by {
                if result@.contains(p) {
                    let k = choose|k: int| 0 <= k < result@.len() && result@[k] == p;
                    assert(keys@[k] == (p.x, p.y));
                    assert(keys@.contains((p.x, p.y)));
                }
                if self@.occupant(p) is Some {
                    assert(keys@.contains((p.x, p.y)));
                    let k = choose|k: int| 0 <= k < keys@.len() && keys@[k] == (p.x, p.y);
                    assert(result@[k] == p);
                }
            }
        }
        result
    }

    /// Gets the figures next to `position`: left, right, up, down.
    pub fn get_neighbors(&self, position: Position) -> (result: Vec<Figure>)
        requires
            self@.wf(),
        ensures
            result@ == self@.neighbors(position),
    {
        let mut result: Vec<Figure> = Vec::new();
        if position.x >= 1 {
            if let Some(f) = self.figure_at(Position { x: position.x - 1, y: position.y }) {
                result.push(f);
            }
        }
        if position.x < self.cols - 1 {
            if let Some(f) = self.figure_at(Position { x: position.x + 1, y: position.y }) {
                result.push(f);
            }
        }
        if position.y >= 1 {
            if let Some(f) = self.figure_at(Position { x: position.x, y: position.y - 1 }) {
                result.push(f);
            }
        }
        if position.y < self.rows - 1 {
            if let Some(f) = self.figure_at(Position { x: position.x, y: position.y + 1 }) {
                result.push(f);
            }
        }
        assert(result@ =~= self@.neighbors(position));
        result
    }
}

} // verus!
