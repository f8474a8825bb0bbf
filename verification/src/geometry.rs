//! Where the fields of a drawn board lie: from a point to the field it
//! falls in, and from a field to its middle.

use vstd::prelude::*;
use crate::board::{Board, BoardView, Position};

verus! {

/// A point of the drawn board, in whole units, measured from the
/// upper-left corner of the field area: `x` to the right, `y` downwards.
#[derive(Debug, Copy, Clone, PartialEq, Eq, Structural)]
pub struct Point {
    pub x: u128,
    pub y: u128,
}

/// The measures of the fields of a drawn board, in whole units.
#[derive(Debug, Copy, Clone, PartialEq, Eq, Structural)]
pub struct FieldMeasures {
    /// The width and height of a field.
    pub field_size: u32,
    /// The width of the border between two fields.
    pub border_width: u32,
}

impl FieldMeasures {
    /// The distance of two neighboring fields: a field and a border.
    pub open spec fn field_offset(self) -> int {
        self.field_size + self.border_width
    }
}

/// The width of the field area of the board: the columns with the borders
/// between them.
pub open spec fn width(board: BoardView, measures: FieldMeasures) -> int {
    board.cols * measures.field_offset() - measures.border_width
}

/// The height of the field area of the board: the rows with the borders
/// between them.
pub open spec fn height(board: BoardView, measures: FieldMeasures) -> int {
    board.rows * measures.field_offset() - measures.border_width
}

/// The field that `point` falls in: none outside the field area; a point
/// on the border between two fields counts to the field before that
/// border.
pub open spec fn square_of(board: BoardView, measures: FieldMeasures, point: Point) -> Option<Position> {
    if measures.field_offset() > 0 && point.x < width(board, measures) && point.y < height(board, measures) {
        Some(
            Position {
                x: (point.x as int / measures.field_offset()) as usize,
                y: (point.y as int / measures.field_offset()) as usize,
            },
        )
    } else {
        None
    }
}

/// The middle of the field `position`.
pub open spec fn point_of(measures: FieldMeasures, position: Position) -> Point {
    Point {
        x: (position.x * measures.field_offset() + measures.field_size / 2) as u128,
        y: (position.y * measures.field_offset() + measures.field_size / 2) as u128,
    }
}

impl Board {
    /// Converts a point to the field of the board it falls in.
    pub fn world_to_board(&self, measures: FieldMeasures, point: Point) -> (square: Option<Position>)
        ensures
            square == square_of(self@, measures, point),
            square matches Some(p) ==> self@.on_board(p),
    {
        let offset: u128 = measures.field_size as u128 + measures.border_width as u128;
        if offset == 0 {
            return None;
        }
        let border = measures.border_width as u128;
        let cols = self.cols as u128;
        let rows = self.rows as u128;
        assert(cols * offset <= 0xffff_ffff_ffff_ffff * 0x2_0000_0000) by (nonlinear_arith)
            requires
                cols <= 0xffff_ffff_ffff_ffff,
                offset <= 0x2_0000_0000,
        ;
        assert(rows * offset <= 0xffff_ffff_ffff_ffff * 0x2_0000_0000) by (nonlinear_arith)
            requires
                rows <= 0xffff_ffff_ffff_ffff,
                offset <= 0x2_0000_0000,
        ;
        let across = cols * offset;
        let down = rows * offset;
        if across < border || point.x >= across - border || down < border || point.y >= down - border {
            return None;
        }
        let x = point.x / offset;
        let y = point.y / offset;
        proof {
            lemma_field_index(point.x as int, cols as int, offset as int);
            lemma_field_index(point.y as int, rows as int, offset as int);
        }
        Some(Position { x: x as usize, y: y as usize })
    }

    /// Converts a field of the board to the point in its middle.
    pub fn board_to_world(&self, measures: FieldMeasures, position: Position) -> (point: Point)
        ensures
            point == point_of(measures, position),
    {
        let offset: u128 = measures.field_size as u128 + measures.border_width as u128;
        let x = position.x as u128;
        let y = position.y as u128;
        assert(x * offset <= 0xffff_ffff_ffff_ffff * 0x2_0000_0000) by (nonlinear_arith)
            requires
                x <= 0xffff_ffff_ffff_ffff,
                offset <= 0x2_0000_0000,
        ;
        assert(y * offset <= 0xffff_ffff_ffff_ffff * 0x2_0000_0000) by (nonlinear_arith)
            requires
                y <= 0xffff_ffff_ffff_ffff,
                offset <= 0x2_0000_0000,
        ;
        let half = (measures.field_size / 2) as u128;
        Point { x: x * offset + half, y: y * offset + half }
    }
}

/// A coordinate before the end of `count` fields of width `offset` falls
/// in one of these fields.
proof fn lemma_field_index(at: int, count: int, offset: int)
    requires
        0 <= at < count * offset,
        offset > 0,
    ensures
        0 <= at / offset < count,
{
    assert(0 <= at / offset < count) by (nonlinear_arith)
        requires
            0 <= at < count * offset,
            offset > 0,
    ;
}

/// The middle of the field with index `index` lies in that field, and,
/// for fields of some size, before the end of the field area if the field
/// is one of its `count` fields.
proof fn lemma_middle_of_field(index: int, count: int, field_size: int, border_width: int)
    requires
        0 <= index < count,
        field_size >= 0,
        border_width >= 0,
        field_size + border_width > 0,
    ensures
        (index * (field_size + border_width) + field_size / 2) / (field_size + border_width) == index,
        field_size > 0 ==> index * (field_size + border_width) + field_size / 2 < count * (field_size
            + border_width) - border_width,
{
    let offset = field_size + border_width;
    let half = field_size / 2;
    assert((index * offset + half) / offset == index) by (nonlinear_arith)
        requires
            0 <= half < offset,
            0 <= index,
    ;
    if field_size > 0 {
        assert(index * offset + half < count * offset - border_width) by (nonlinear_arith)
            requires
                0 <= index < count,
                0 <= half < field_size,
                offset == field_size + border_width,
                border_width >= 0,
        ;
    }
}

/// From a point to its field, to the middle of that field, and back to a
/// field leads to the same field: wherever a point falls in a field, the
/// middle of that field falls in it too.
pub proof fn lemma_field_round_trip(board: BoardView, measures: FieldMeasures, point: Point)
    requires
        square_of(board, measures, point) is Some,
    ensures
        square_of(board, measures, point_of(measures, square_of(board, measures, point)->Some_0)) == square_of(
            board,
            measures,
            point,
        ),
{
    let offset = measures.field_offset();
    let square = square_of(board, measures, point)->Some_0;
    let field_size = measures.field_size as int;
    let border_width = measures.border_width as int;
    assert(point.x < board.cols * offset) by (nonlinear_arith)
        requires
            point.x < board.cols * offset - border_width,
            border_width >= 0,
    ;
    assert(point.y < board.rows * offset) by (nonlinear_arith)
        requires
            point.y < board.rows * offset - border_width,
            border_width >= 0,
    ;
    lemma_field_index(point.x as int, board.cols as int, offset);
    lemma_field_index(point.y as int, board.rows as int, offset);
    let ix = point.x as int / offset;
    let iy = point.y as int / offset;
    assert(square.x == ix && square.y == iy);
    if field_size == 0 {
        lemma_on_a_border(point.x as int, board.cols as int, offset);
        lemma_on_a_border(point.y as int, board.rows as int, offset);
    }
    lemma_middle_of_field(ix, board.cols as int, field_size, border_width);
    lemma_middle_of_field(iy, board.rows as int, field_size, border_width);
    assert(ix * offset + field_size / 2 <= u128::MAX) by (nonlinear_arith)
        requires
            0 <= ix < board.cols,
            board.cols <= 0xffff_ffff_ffff_ffff,
            0 < offset <= 0x2_0000_0000,
            0 <= field_size / 2 <= 0x1_0000_0000,
    ;
    assert(iy * offset + field_size / 2 <= u128::MAX) by (nonlinear_arith)
        requires
            0 <= iy < board.rows,
            board.rows <= 0xffff_ffff_ffff_ffff,
            0 < offset <= 0x2_0000_0000,
            0 <= field_size / 2 <= 0x1_0000_0000,
    ;
}

/// With fields of no size, a point before the last border lies in a field
/// whose start lies before that border too.
proof fn lemma_on_a_border(at: int, count: int, border_width: int)
    requires
        0 <= at < count * border_width - border_width,
        border_width > 0,
    ensures
        (at / border_width) * border_width < count * border_width - border_width,
{
    assert((at / border_width) * border_width <= at) by (nonlinear_arith)
        requires
            0 <= at,
            border_width > 0,
    ;
}

} // verus!
