//! The numbers that boards are known by, and the text form of a game's
//! start: a grid of digits for the fields, a list of lines for the
//! figures.

use vstd::prelude::*;
use vstd::string::StringSliceAdditionalSpecFns;
use crate::board::{Board, BoardOptions, BoardView, Position, SetupError};
use crate::figure::{Figure, FigureKind, Side};
use crate::moving::Game;
use crate::spawning::with_figures;
use crate::win_conditions::{GameOutcome, SurroundRule};

verus! {

/// The number of a board.
#[derive(Debug, Copy, Clone, PartialEq, Eq, Hash, Structural)]
pub struct SimpleId(pub usize);

/// Hands out the numbers of the boards, counting up from zero.
#[derive(Debug, Copy, Clone, PartialEq, Eq, Structural)]
pub struct BoardId(pub SimpleId);

impl BoardId {
    /// The counter at its start: the next number is zero.
    pub fn new() -> (counter: BoardId)
        ensures
            counter.0.0 == 0,
    {
        BoardId(SimpleId(0))
    }

    /// Returns the next free number and counts on.
    pub fn get(&mut self) -> (id: SimpleId)
        requires
            old(self).0.0 < usize::MAX,
        ensures
            id == old(self).0,
            final(self).0.0 == old(self).0.0 + 1,
    {
        let result = self.0;
        self.0 = SimpleId(result.0 + 1);
        result
    }
}

/// Why a text does not describe a board or its figures.
#[derive(Debug, Copy, Clone, PartialEq, Eq, Structural)]
pub enum ParseError {
    /// A row of the grid is not as long as the first.
    InconsistentRowLength,
    /// The grid holds something else than digits and line ends.
    InvalidCharacter,
    /// A figure's line has fewer than four values.
    NotEnoughTokens,
    /// The first value of a line is neither `a` nor `d`.
    InvalidSide,
    /// The second value of a line is neither `k` nor `s`.
    InvalidKind,
    /// The column or the row of a line is no number.
    InvalidNumber,
    /// A figure is placed outside the board.
    OutOfBounds,
}

/// A grid of fields as read from a text: the digit of the field in column
/// `x` of row `y` stands at `y * cols + x` of `structure`.
#[derive(Debug, Clone, PartialEq, Eq)]
pub struct ParsedBoard {
    pub rows: usize,
    pub cols: usize,
    pub structure: Vec<u8>,
}

/// How far the reading of a grid has come: the rows that are complete,
/// their length, their digits, and the length of the row being read.
pub struct GridScan {
    pub rows: nat,
    pub cols: nat,
    pub cells: Seq<u8>,
    pub current: nat,
}

/// The line end.
pub open spec fn newline() -> u8 {
    10
}

/// Whether the byte is one of the digits `0` to `9`.
pub open spec fn is_digit(byte: u8) -> bool {
    48 <= byte <= 57
}

/// The row being read ends: the first row sets the length of all, each
/// later one must have it.
pub open spec fn row_complete(scan: GridScan) -> Result<GridScan, ParseError> {
    if scan.rows == 0 {
        Ok(GridScan { rows: 1, cols: scan.current, cells: scan.cells, current: 0 })
    } else if scan.current != scan.cols {
        Err(ParseError::InconsistentRowLength)
    } else {
        Ok(GridScan { rows: scan.rows + 1, cols: scan.cols, cells: scan.cells, current: 0 })
    }
}

/// The reading of `bytes` as a grid, byte by byte: a digit adds a field
/// to the row, a line end completes the row (a line end at the very start
/// is passed over), anything else is an error.
pub open spec fn grid_scan(bytes: Seq<u8>) -> Result<GridScan, ParseError>
    decreases bytes.len(),
{
    if bytes.len() == 0 {
        Ok(GridScan { rows: 0, cols: 0, cells: Seq::empty(), current: 0 })
    } else {
        match grid_scan(bytes.drop_last()) {
            Err(e) => Err(e),
            Ok(scan) => if bytes.last() == newline() {
                if bytes.len() == 1 {
                    Ok(scan)
                } else {
                    row_complete(scan)
                }
            } else if is_digit(bytes.last()) {
                Ok(
                    GridScan {
                        rows: scan.rows,
                        cols: scan.cols,
                        cells: scan.cells.push((bytes.last() - 48) as u8),
                        current: scan.current + 1,
                    },
                )
            } else {
                Err(ParseError::InvalidCharacter)
            },
        }
    }
}

/// The grid that `bytes` describe: a last row without a line end counts
/// too.
pub open spec fn grid_of(bytes: Seq<u8>) -> Result<GridScan, ParseError> {
    match grid_scan(bytes) {
        Err(e) => Err(e),
        Ok(scan) => if scan.current > 0 {
            row_complete(scan)
        } else {
            Ok(scan)
        },
    }
}

/// Reads a grid of fields: rows of digits, each row on a line of its own
/// and all of one length.
pub fn parse_board(data: &str) -> (parsed: Result<ParsedBoard, ParseError>)
    ensures
        match parsed {
            Ok(board) => {
                &&& grid_of(data.spec_bytes()) == Ok::<GridScan, ParseError>(
                    GridScan {
                        rows: board.rows as nat,
                        cols: board.cols as nat,
                        cells: board.structure@,
                        current: 0,
                    },
                )
                &&& board.structure@.len() == board.rows * board.cols
                &&& forall|i: int| 0 <= i < board.structure@.len() ==> board.structure@[i] <= 9
            },
            Err(e) => grid_of(data.spec_bytes()) == Err::<GridScan, ParseError>(e),
        },
{
    let bytes = data.as_bytes();
    let mut rows: usize = 0;
    let mut cols: usize = 0;
    let mut current: usize = 0;
    let mut structure: Vec<u8> = Vec::new();
    let mut i: usize = 0;
    while i < bytes.len()
        invariant
            i <= bytes@.len(),
            bytes@ == data.spec_bytes(),
            rows + current <= i,
            grid_scan(bytes@.take(i as int)) == Ok::<GridScan, ParseError>(
                GridScan { rows: rows as nat, cols: cols as nat, cells: structure@, current: current as nat },
            ),
            structure@.len() == rows * cols + current,
            forall|k: int| 0 <= k < structure@.len() ==> structure@[k] <= 9,
        decreases bytes@.len() - i,
    {
        let c = bytes[i];
        proof {
            assert(bytes@.take(i as int + 1).drop_last() =~= bytes@.take(i as int));
            assert(bytes@.take(i as int + 1).last() == c);
        }
        if c == 10 {
            if i != 0 {
                if rows == 0 {
                    cols = current;
                    assert(1 * cols == cols) by (nonlinear_arith);
                } else if current != cols {
                    proof {
                        assert(bytes@.take(bytes@.len() as int) =~= bytes@);
                        lemma_grid_error_stays(bytes@, i as int + 1);
                    }
                    return Err(ParseError::InconsistentRowLength);
                } else {
                    assert((rows + 1) * cols == rows * cols + cols) by (nonlinear_arith);
                }
                current = 0;
                rows += 1;
            } else {
                assert(rows * cols == 0) by (nonlinear_arith)
                    requires
                        rows == 0,
                ;
            }
        } else if 48 <= c && c <= 57 {
            structure.push(c - 48);
            current += 1;
        } else {
            proof {
                lemma_grid_error_stays(bytes@, i as int + 1);
            }
            return Err(ParseError::InvalidCharacter);
        }
        i += 1;
    }
    proof {
        assert(bytes@.take(bytes@.len() as int) =~= bytes@);
    }
    if current > 0 {
        if rows == 0 {
            cols = current;
            assert(1 * cols == cols) by (nonlinear_arith);
        } else if current != cols {
            return Err(ParseError::InconsistentRowLength);
        } else {
            assert((rows + 1) * cols == rows * cols + cols) by (nonlinear_arith);
        }
        rows += 1;
    }
    Ok(ParsedBoard { rows, cols, structure })
}

/// An error in the reading of a beginning of the bytes is the error of
/// the whole.
proof fn lemma_grid_error_stays(bytes: Seq<u8>, n: int)
    requires
        0 <= n <= bytes.len(),
        grid_scan(bytes.take(n)) is Err,
    ensures
        grid_scan(bytes) == grid_scan(bytes.take(n)),
        grid_of(bytes) == Err::<GridScan, ParseError>(grid_scan(bytes.take(n))->Err_0),
    decreases bytes.len() - n,
{
    if n == bytes.len() {
        assert(bytes.take(n) =~= bytes);
    } else {
        assert(bytes.take(n + 1).drop_last() =~= bytes.take(n));
        lemma_grid_error_stays(bytes, n + 1);
    }
}

/// The place of the first `mark` in `bytes`, or their length if there is
/// none.
pub open spec fn index_of(bytes: Seq<u8>, mark: u8) -> int
    decreases bytes.len(),
{
    if bytes.len() == 0 {
        0
    } else if bytes[0] == mark {
        0
    } else {
        1 + index_of(bytes.drop_first(), mark)
    }
}

/// The bytes before the first `mark`.
pub open spec fn head(bytes: Seq<u8>, mark: u8) -> Seq<u8> {
    bytes.take(index_of(bytes, mark))
}

/// The bytes after the first `mark`, if there is one.
pub open spec fn tail(bytes: Seq<u8>, mark: u8) -> Option<Seq<u8>> {
    if 0 <= index_of(bytes, mark) < bytes.len() {
        Some(bytes.skip(index_of(bytes, mark) + 1))
    } else {
        None
    }
}

/// The number that the digits so far stand for; `None` once a byte is no
/// digit or the number is too large for `usize`.
pub open spec fn digits_value(digits: Seq<u8>) -> Option<usize>
    decreases digits.len(),
{
    if digits.len() == 0 {
        Some(0)
    } else {
        match digits_value(digits.drop_last()) {
            None => None,
            Some(v) => if is_digit(digits.last()) && v * 10 + (digits.last() - 48) <= usize::MAX {
                Some((v * 10 + (digits.last() - 48)) as usize)
            } else {
                None
            },
        }
    }
}

/// The number that `token` stands for: one or more digits, after a `+`
/// or without one.
pub open spec fn number_of(token: Seq<u8>) -> Option<usize> {
    let digits = if token.len() > 0 && token[0] == 43 {
        token.skip(1)
    } else {
        token
    };
    if digits.len() == 0 {
        None
    } else {
        digits_value(digits)
    }
}

/// The figure that a line describes: side (`a` or `d`), kind (`k` or
/// `s`), column and row, with one space between them; what follows a
/// space after the row is not looked at. The figure must stand on the
/// board.
pub open spec fn figure_of_line(line: Seq<u8>, board: BoardView) -> Result<Figure, ParseError> {
    let space = 32u8;
    let side_token = head(line, space);
    if side_token != seq![97u8] && side_token != seq![100u8] {
        Err(ParseError::InvalidSide)
    } else if tail(line, space) is None {
        Err(ParseError::NotEnoughTokens)
    } else {
        let after_side = tail(line, space)->Some_0;
        let kind_token = head(after_side, space);
        if kind_token != seq![107u8] && kind_token != seq![115u8] {
            Err(ParseError::InvalidKind)
        } else if tail(after_side, space) is None {
            Err(ParseError::NotEnoughTokens)
        } else {
            let after_kind = tail(after_side, space)->Some_0;
            if number_of(head(after_kind, space)) is None {
                Err(ParseError::InvalidNumber)
            } else if tail(after_kind, space) is None {
                Err(ParseError::NotEnoughTokens)
            } else {
                let after_x = tail(after_kind, space)->Some_0;
                if number_of(head(after_x, space)) is None {
                    Err(ParseError::InvalidNumber)
                } else {
                    let position = Position {
                        x: number_of(head(after_kind, space))->Some_0,
                        y: number_of(head(after_x, space))->Some_0,
                    };
                    if !board.on_board(position) {
                        Err(ParseError::OutOfBounds)
                    } else {
                        Ok(
                            Figure {
                                side: if side_token == seq![97u8] {
                                    Side::Attacker
                                } else {
                                    Side::Defender
                                },
                                kind: if kind_token == seq![107u8] {
                                    FigureKind::King
                                } else {
                                    FigureKind::Soldier
                                },
                                position,
                            },
                        )
                    }
                }
            }
        }
    }
}

/// The line without the carriage return at its end, if it has one.
pub open spec fn without_return(line: Seq<u8>) -> Seq<u8> {
    if line.len() > 0 && line.last() == 13 {
        line.drop_last()
    } else {
        line
    }
}

/// The figures that the lines of `bytes` describe, in their order; empty
/// lines are passed over, and the first line at fault gives the error.
pub open spec fn figures_of(bytes: Seq<u8>, board: BoardView) -> Result<Seq<Figure>, ParseError>
    decreases bytes.len(),
{
    let line = without_return(head(bytes, newline()));
    let cut = index_of(bytes, newline());
    let rest = if 0 <= cut < bytes.len() {
        figures_of(bytes.skip(cut + 1), board)
    } else {
        Ok(Seq::empty())
    };
    if line.len() == 0 {
        rest
    } else {
        after(figure_of_line(line, board), rest)
    }
}

/// The figures of a text from the figure of its first line and those of
/// the rest.
pub open spec fn after(first: Result<Figure, ParseError>, rest: Result<Seq<Figure>, ParseError>) -> Result<
    Seq<Figure>,
    ParseError,
> {
    match first {
        Err(e) => Err(e),
        Ok(figure) => match rest {
            Err(e) => Err(e),
            Ok(figures) => Ok(seq![figure] + figures),
        },
    }
}

/// The figures read so far followed by those still to come.
pub open spec fn followed_by(read: Seq<Figure>, rest: Result<Seq<Figure>, ParseError>) -> Result<
    Seq<Figure>,
    ParseError,
> {
    match rest {
        Err(e) => Err(e),
        Ok(figures) => Ok(read + figures),
    }
}

/// The figures of the lines after the line that ends at `line_end`.
pub open spec fn following(bytes: Seq<u8>, line_end: int, board: BoardView) -> Result<Seq<Figure>, ParseError> {
    if line_end < bytes.len() {
        figures_of(bytes.subrange(line_end + 1, bytes.len() as int), board)
    } else {
        Ok(Seq::empty())
    }
}

/// The figures of the bytes from `i` on, told by the first line and the
/// rest.
proof fn lemma_first_line(bytes: Seq<u8>, i: int, line_end: int, text_end: int, board: BoardView)
    requires
        0 <= i <= line_end <= bytes.len(),
        line_end == i + index_of(bytes.subrange(i, bytes.len() as int), newline()),
        text_end == (if line_end > i && bytes[line_end - 1] == 13 {
            line_end - 1
        } else {
            line_end
        }),
    ensures
        figures_of(bytes.subrange(i, bytes.len() as int), board) == (if text_end > i {
            after(figure_of_line(bytes.subrange(i, text_end), board), following(bytes, line_end, board))
        } else {
            following(bytes, line_end, board)
        }),
{
    let n = bytes.len() as int;
    let rest = bytes.subrange(i, n);
    let line = head(rest, newline());
    assert(line =~= bytes.subrange(i, line_end));
    assert(without_return(line) =~= bytes.subrange(i, text_end));
    if line_end < n {
        assert(rest.skip(index_of(rest, newline()) + 1) =~= bytes.subrange(line_end + 1, n));
    }
}

/// Reading one more figure moves it from the rest to what was read.
proof fn lemma_read_on(read: Seq<Figure>, figure: Figure, rest: Result<Seq<Figure>, ParseError>)
    ensures
        followed_by(read, after(Ok(figure), rest)) == followed_by(read.push(figure), rest),
{
    if rest is Ok {
        assert(read + (seq![figure] + rest->Ok_0) =~= read.push(figure) + rest->Ok_0);
    }
}

/// Finds the first `mark` in the bytes from `from` up to `to`.
pub fn find_mark(bytes: &[u8], from: usize, to: usize, mark: u8) -> (end: usize)
    requires
        from <= to <= bytes@.len(),
    ensures
        from <= end <= to,
        end == from + index_of(bytes@.subrange(from as int, to as int), mark),
{
    let mut i: usize = from;
    while i < to
        invariant
            from <= i <= to,
            to <= bytes@.len(),
            from + index_of(bytes@.subrange(from as int, to as int), mark) == i + index_of(
                bytes@.subrange(i as int, to as int),
                mark,
            ),
        decreases to - i,
    {
        let ghost part = bytes@.subrange(i as int, to as int);
        if bytes[i] == mark {
            assert(part[0] == mark);
            return i;
        }
        proof {
            assert(part[0] != mark);
            assert(part.drop_first() =~= bytes@.subrange(i as int + 1, to as int));
        }
        i += 1;
    }
    i
}

/// Reads the number that the bytes from `from` up to `to` stand for.
pub fn parse_number(bytes: &[u8], from: usize, to: usize) -> (number: Option<usize>)
    requires
        from <= to <= bytes@.len(),
    ensures
        number == number_of(bytes@.subrange(from as int, to as int)),
{
    let ghost token = bytes@.subrange(from as int, to as int);
    let start = if from < to && bytes[from] == 43 {
        from + 1
    } else {
        from
    };
    proof {
        assert(from < to ==> token[0] == bytes@[from as int]);
        if start > from {
            assert(token.skip(1) =~= bytes@.subrange(start as int, to as int));
        }
    }
    if start == to {
        return None;
    }
    let ghost digits = bytes@.subrange(start as int, to as int);
    let mut value: usize = 0;
    let mut i: usize = start;
    proof {
        assert(digits.take(0) =~= Seq::<u8>::empty());
        if start == from {
            assert(token == digits);
        }
    }
    while i < to
        invariant
            start <= i <= to,
            to <= bytes@.len(),
            digits == bytes@.subrange(start as int, to as int),
            digits.len() > 0,
            number_of(bytes@.subrange(from as int, to as int)) == digits_value(digits),
            digits_value(digits.take(i - start)) == Some(value),
        decreases to - i,
    {
        let c = bytes[i];
        proof {
            assert(digits.take(i - start + 1).drop_last() =~= digits.take(i - start));
            assert(digits.take(i - start + 1).last() == c);
        }
        if !(48 <= c && c <= 57) {
            proof {
                assert(digits_value(digits.take(i - start + 1)) is None);
                lemma_digits_error_stays(digits, i - start + 1);
            }
            return None;
        }
        let d = (c - 48) as usize;
        if value > (usize::MAX - d) / 10 {
            proof {
                assert(value * 10 + d > usize::MAX);
                assert(digits_value(digits.take(i - start + 1)) is None);
                lemma_digits_error_stays(digits, i - start + 1);
            }
            return None;
        }
        value = value * 10 + d;
        i += 1;
    }
    proof {
        assert(digits.take(to - start) =~= digits);
    }
    Some(value)
}

/// Digits that stand for no number do not become a number by what
/// follows them.
proof fn lemma_digits_error_stays(digits: Seq<u8>, n: int)
    requires
        0 <= n <= digits.len(),
        digits_value(digits.take(n)) is None,
    ensures
        digits_value(digits) is None,
    decreases digits.len() - n,
{
    if n == digits.len() {
        assert(digits.take(n) =~= digits);
    } else {
        assert(digits.take(n + 1).drop_last() =~= digits.take(n));
        lemma_digits_error_stays(digits, n + 1);
    }
}

/// Whether the bytes from `from` up to `to` are the single byte `letter`.
pub fn is_letter(bytes: &[u8], from: usize, to: usize, letter: u8) -> (same: bool)
    requires
        from <= to <= bytes@.len(),
    ensures
        same == (bytes@.subrange(from as int, to as int) == seq![letter]),
{
    let ghost token = bytes@.subrange(from as int, to as int);
    if to - from == 1 && bytes[from] == letter {
        assert(token =~= seq![letter]);
        true
    } else {
        proof {
            if token == seq![letter] {
                assert(token.len() == 1);
                assert(token[0] == letter);
            }
        }
        false
    }
}

/// Reads the figure that the line from `from` up to `to` describes.
pub fn parse_figure(bytes: &[u8], from: usize, to: usize, board: &Board) -> (parsed: Result<Figure, ParseError>)
    requires
        from <= to <= bytes@.len(),
    ensures
        parsed == figure_of_line(bytes@.subrange(from as int, to as int), board@),
{
    let ghost line = bytes@.subrange(from as int, to as int);
    let side_end = find_mark(bytes, from, to, 32);
    proof {
        assert(head(line, 32) =~= bytes@.subrange(from as int, side_end as int));
    }
    let side = if is_letter(bytes, from, side_end, 97) {
        Side::Attacker
    } else if is_letter(bytes, from, side_end, 100) {
        Side::Defender
    } else {
        return Err(ParseError::InvalidSide);
    };
    if side_end == to {
        return Err(ParseError::NotEnoughTokens);
    }
    let kind_from = side_end + 1;
    let ghost after_side = bytes@.subrange(kind_from as int, to as int);
    let kind_end = find_mark(bytes, kind_from, to, 32);
    proof {
        assert(tail(line, 32)->Some_0 =~= after_side);
        assert(head(after_side, 32) =~= bytes@.subrange(kind_from as int, kind_end as int));
    }
    let kind = if is_letter(bytes, kind_from, kind_end, 107) {
        FigureKind::King
    } else if is_letter(bytes, kind_from, kind_end, 115) {
        FigureKind::Soldier
    } else {
        return Err(ParseError::InvalidKind);
    };
    if kind_end == to {
        return Err(ParseError::NotEnoughTokens);
    }
    let x_from = kind_end + 1;
    let ghost after_kind = bytes@.subrange(x_from as int, to as int);
    let x_end = find_mark(bytes, x_from, to, 32);
    proof {
        assert(tail(after_side, 32)->Some_0 =~= after_kind);
        assert(head(after_kind, 32) =~= bytes@.subrange(x_from as int, x_end as int));
    }
    let x = match parse_number(bytes, x_from, x_end) {
        Some(x) => x,
        None => {
            return Err(ParseError::InvalidNumber);
        },
    };
    if x_end == to {
        return Err(ParseError::NotEnoughTokens);
    }
    let y_from = x_end + 1;
    let ghost after_x = bytes@.subrange(y_from as int, to as int);
    let y_end = find_mark(bytes, y_from, to, 32);
    proof {
        assert(tail(after_kind, 32)->Some_0 =~= after_x);
        assert(head(after_x, 32) =~= bytes@.subrange(y_from as int, y_end as int));
    }
    let y = match parse_number(bytes, y_from, y_end) {
        Some(y) => y,
        None => {
            return Err(ParseError::InvalidNumber);
        },
    };
    let position = Position { x, y };
    if !board.is_on_board(position) {
        return Err(ParseError::OutOfBounds);
    }
    Ok(Figure { side, kind, position })
}

/// Reads the figures of a game's start: one figure per line, as side,
/// kind, column and row; empty lines are passed over.
pub fn parse_figures(data: &str, board: &Board) -> (parsed: Result<Vec<Figure>, ParseError>)
    ensures
        match parsed {
            Ok(figures) => {
                &&& figures_of(data.spec_bytes(), board@) == Ok::<Seq<Figure>, ParseError>(figures@)
                &&& forall|i: int| 0 <= i < figures@.len() ==> board@.on_board((#[trigger] figures@[i]).position)
            },
            Err(e) => figures_of(data.spec_bytes(), board@) == Err::<Seq<Figure>, ParseError>(e),
        },
{
    let bytes = data.as_bytes();
    let n = bytes.len();
    let mut result: Vec<Figure> = Vec::new();
    let mut i: usize = 0;
    let mut done = false;
    proof {
        assert(bytes@.subrange(0, n as int) =~= bytes@);
        assert(Seq::<Figure>::empty() + figures_of(bytes@, board@)->Ok_0 =~= figures_of(bytes@, board@)->Ok_0);
    }
    while !done
        invariant
            i <= n,
            n == bytes@.len(),
            bytes@ == data.spec_bytes(),
            !done ==> figures_of(bytes@, board@) == followed_by(
                result@,
                figures_of(bytes@.subrange(i as int, bytes@.len() as int), board@),
            ),
            done ==> figures_of(bytes@, board@) == Ok::<Seq<Figure>, ParseError>(result@),
            forall|k: int| 0 <= k < result@.len() ==> board@.on_board((#[trigger] result@[k]).position),
        decreases n - i + (if done { 0int } else { 1int }),
    {
        let ghost read = result@;
        let line_end = find_mark(bytes, i, n, 10);
        let text_end = if line_end > i && bytes[line_end - 1] == 13 {
            line_end - 1
        } else {
            line_end
        };
        proof {
            lemma_first_line(bytes@, i as int, line_end as int, text_end as int, board@);
        }
        if text_end > i {
            match parse_figure(bytes, i, text_end, board) {
                Ok(figure) => {
                    result.push(figure);
                    proof {
                        lemma_read_on(read, figure, following(bytes@, line_end as int, board@));
                    }
                },
                Err(e) => {
                    return Err(e);
                },
            }
        }
        if line_end < n {
            i = line_end + 1;
        } else {
            proof {
                assert(result@ + Seq::<Figure>::empty() =~= result@);
            }
            done = true;
        }
    }
    Ok(result)
}

/// Why a game cannot be started from its texts.
#[derive(Debug, Copy, Clone, PartialEq, Eq, Structural)]
pub enum SpawnError {
    /// One of the two texts is malformed.
    Text(ParseError),
    /// The texts describe no board to play on.
    Board(SetupError),
}

/// A board without figures.
pub open spec fn empty_ground(rows: usize, cols: usize, throne: Position, ends: Seq<Position>) -> BoardView {
    BoardView { rows, cols, throne_position: throne, end_positions: ends, figures: Map::empty() }
}

/// No two of the figures stand on one square.
pub open spec fn distinct_squares(figures: Seq<Figure>) -> bool {
    forall|i: int, j: int|
        0 <= i < j < figures.len() ==> (#[trigger] figures[i]).position != (#[trigger] figures[j]).position
}

/// The board that the two texts of a game's start describe, or the first
/// fault: of the grid, of the board's size and its special squares, of
/// the figures' lines, of two figures on one square, of the Kings.
pub open spec fn scenario(structure: Seq<u8>, placement: Seq<u8>, throne: Position, ends: Seq<Position>) -> Result<
    BoardView,
    SpawnError,
> {
    match grid_of(structure) {
        Err(e) => Err(SpawnError::Text(e)),
        Ok(grid) => if grid.rows < 2 || grid.cols < 2 {
            Err(SpawnError::Board(SetupError::BoardTooSmall))
        } else if ends.contains(throne) {
            Err(SpawnError::Board(SetupError::ThroneIsEscape))
        } else {
            let ground = empty_ground(grid.rows as usize, grid.cols as usize, throne, ends);
            match figures_of(placement, ground) {
                Err(e) => Err(SpawnError::Text(e)),
                Ok(figures) => if !distinct_squares(figures) {
                    Err(SpawnError::Board(SetupError::SquareTaken))
                } else {
                    match Game::king_fault(with_figures(ground, figures)) {
                        Some(e) => Err(SpawnError::Board(e)),
                        None => Ok(with_figures(ground, figures)),
                    }
                },
            }
        },
    }
}

/// Starts a game from its two texts: the grid of fields gives the size of
/// the board, the lines of figures what stands on it. No game is started
/// from texts at fault.
pub fn load_game(
    structure: &str,
    starting_position: &str,
    throne_position: Position,
    end_positions: Vec<Position>,
    side_with_initial_turn: Side,
    rule: SurroundRule,
) -> (loaded: Result<Game, SpawnError>)
    ensures
        match loaded {
            Ok(game) => {
                &&& scenario(structure.spec_bytes(), starting_position.spec_bytes(), throne_position, end_positions@)
                    == Ok::<BoardView, SpawnError>(game.board@)
                &&& game.wf()
                &&& game.turn_tracker.side == side_with_initial_turn
                &&& game.rule == rule
                &&& game.outcome == GameOutcome::InProgress
            },
            Err(e) => scenario(
                structure.spec_bytes(),
                starting_position.spec_bytes(),
                throne_position,
                end_positions@,
            ) == Err::<BoardView, SpawnError>(e),
        },
{
    let ghost ends = end_positions@;
    let parsed = match parse_board(structure) {
        Ok(parsed) => parsed,
        Err(e) => {
            return Err(SpawnError::Text(e));
        },
    };
    let options = BoardOptions {
        rows: parsed.rows,
        cols: parsed.cols,
        throne_position,
        end_positions,
        figures: Vec::new(),
    };
    match options.check() {
        Ok(()) => {},
        Err(e) => {
            return Err(SpawnError::Board(e));
        },
    }
    let mut board = Board::new(options);
    let ghost ground = empty_ground(parsed.rows, parsed.cols, throne_position, ends);
    proof {
        assert forall|p: Position| !board@.figures.contains_key(p) by {
            if board@.figures.contains_key(p) {
                assert(board@.occupant(p) is Some);
            }
        }
        assert(board@.figures =~= ground.figures);
    }
    let figures = match parse_figures(starting_position, &board) {
        Ok(figures) => figures,
        Err(e) => {
            return Err(SpawnError::Text(e));
        },
    };
    if !place_all(&mut board, &figures) {
        return Err(SpawnError::Board(SetupError::SquareTaken));
    }
    match Game::new(board, side_with_initial_turn, rule) {
        Ok(game) => Ok(game),
        Err(e) => Err(SpawnError::Board(e)),
    }
}

/// Puts the figures on the empty board, one after the other, unless two
/// of them are to stand on one square; tells whether all were put.
pub fn place_all(board: &mut Board, figures: &Vec<Figure>) -> (all_put: bool)
    requires
        old(board)@.wf(),
        forall|p: Position| old(board)@.occupant(p) is None,
        forall|k: int| 0 <= k < figures@.len() ==> old(board)@.on_board((#[trigger] figures@[k]).position),
    ensures
        all_put == distinct_squares(figures@),
        final(board)@.wf(),
        all_put ==> final(board)@ == with_figures(old(board)@, figures@),
{
    let ghost ground = board@;
    let n = figures.len();
    let mut i: usize = 0;
    proof {
        assert(figures@.take(0) =~= Seq::<Figure>::empty());
    }
    while i < n
        invariant
            i <= n,
            n == figures@.len(),
            ground == old(board)@,
            board@.wf(),
            forall|k: int| 0 <= k < figures@.len() ==> ground.on_board((#[trigger] figures@[k]).position),
            board@ == with_figures(ground, figures@.take(i as int)),
            board@.rows == ground.rows,
            board@.cols == ground.cols,
            distinct_squares(figures@.take(i as int)),
            forall|p: Position| (#[trigger] board@.occupant(p)) is Some ==> exists|k: int|
                0 <= k < i && (#[trigger] figures@[k]).position == p,
        decreases n - i,
    {
        let figure = figures[i];
        let ghost seen = figures@.take(i as int);
        let ghost next = figures@.take(i as int + 1);
        proof {
            assert(next.drop_last() =~= seen);
            assert(next.last() == figure);
        }
        if board.figure_at(figure.position).is_some() {
            proof {
                let k = choose|k: int| 0 <= k < i && (#[trigger] figures@[k]).position == figure.position;
                assert(figures@[k].position == figures@[i as int].position);
            }
            return false;
        }
        let ghost before = board@;
        board.place(figure);
        proof {
            assert forall|a: int, b: int| 0 <= a < b < next.len() implies (#[trigger] next[a]).position != (
            #[trigger] next[b]).position by {
                if b == i {
                    assert(next[a] == figures@[a]);
                    if next[a].position == figure.position {
                        assert(seen[a] == figures@[a]);
                        lemma_with_figures_holds(ground, seen, a);
                    }
                } else {
                    assert(seen[a] == next[a] && seen[b] == next[b]);
                }
            }
            assert forall|p: Position| (#[trigger] board@.occupant(p)) is Some implies exists|k: int|
                0 <= k < i + 1 && (#[trigger] figures@[k]).position == p by {
                if p == figure.position {
                    assert(figures@[i as int].position == p);
                } else {
                    assert(before.occupant(p) is Some);
                }
            }
        }
        i += 1;
    }
    proof {
        assert(figures@.take(n as int) =~= figures@);
    }
    true
}

/// Each of the figures that were put on a board stands on a square that
/// is occupied afterwards.
proof fn lemma_with_figures_holds(ground: BoardView, figures: Seq<Figure>, k: int)
    requires
        0 <= k < figures.len(),
    ensures
        with_figures(ground, figures).occupant(figures[k].position) is Some,
    decreases figures.len(),
{
    if k < figures.len() - 1 {
        assert(figures.drop_last()[k] == figures[k]);
        lemma_with_figures_holds(ground, figures.drop_last(), k);
    }
}

/// The fields of the standard board.
pub open spec fn spec_standard_structure() -> &'static str {
    "40033333004\n00000300000\n00000000000\n30000200003\n30002220003\n33022122033\n30002220003\n30000200003\n00000000000\n00000300000\n40033333004"
}

/// The fields of the standard board.
#[verifier::when_used_as_spec(spec_standard_structure)]
pub fn standard_structure() -> (text: &'static str)
    ensures
        text == spec_standard_structure(),
{
    "40033333004\n00000300000\n00000000000\n30000200003\n30002220003\n33022122033\n30002220003\n30000200003\n00000000000\n00000300000\n40033333004"
}

/// The figures of the standard game at its start.
pub open spec fn spec_standard_starting_position() -> &'static str {
    "a s 0 3\na s 0 4\na s 0 5\na s 0 6\na s 0 7\na s 1 5\na s 3 0\nd s 3 5\na s 3 10\na s 4 0\nd s 4 4\nd s 4 5\nd s 4 6\na s 4 10\na s 5 0\na s 5 1\nd s 5 3\nd s 5 4\nd k 5 5\nd s 5 6\nd s 5 7\na s 5 9\na s 5 10\na s 6 0\nd s 6 4\nd s 6 5\nd s 6 6\na s 6 10\na s 7 0\nd s 7 5\na s 7 10\na s 9 5\na s 10 3\na s 10 4\na s 10 5\na s 10 6\na s 10 7\n"
}

/// The figures of the standard game at its start.
#[verifier::when_used_as_spec(spec_standard_starting_position)]
pub fn standard_starting_position() -> (text: &'static str)
    ensures
        text == spec_standard_starting_position(),
{
    "a s 0 3\na s 0 4\na s 0 5\na s 0 6\na s 0 7\na s 1 5\na s 3 0\nd s 3 5\na s 3 10\na s 4 0\nd s 4 4\nd s 4 5\nd s 4 6\na s 4 10\na s 5 0\na s 5 1\nd s 5 3\nd s 5 4\nd k 5 5\nd s 5 6\nd s 5 7\na s 5 9\na s 5 10\na s 6 0\nd s 6 4\nd s 6 5\nd s 6 6\na s 6 10\na s 7 0\nd s 7 5\na s 7 10\na s 9 5\na s 10 3\na s 10 4\na s 10 5\na s 10 6\na s 10 7\n"
}

/// The four corners of a board of the standard size.
pub fn standard_end_positions() -> (ends: Vec<Position>)
    ensures
        ends@ == seq![
            Position { x: 0, y: 0 },
            Position { x: 10, y: 0 },
            Position { x: 0, y: 10 },
            Position { x: 10, y: 10 },
        ],
{
    let mut ends: Vec<Position> = Vec::new();
    ends.push(Position { x: 0, y: 0 });
    ends.push(Position { x: 10, y: 0 });
    ends.push(Position { x: 0, y: 10 });
    ends.push(Position { x: 10, y: 10 });
    proof {
        assert(ends@ =~= seq![
            Position { x: 0, y: 0 },
            Position { x: 10, y: 0 },
            Position { x: 0, y: 10 },
            Position { x: 10, y: 10 },
        ]);
    }
    ends
}

/// Starts the standard game of Hnefatafl: eleven by eleven fields, the
/// throne in the middle, the four corners to escape to, the Attacker to
/// move first.
pub fn spawn_hnefatafl(rule: SurroundRule) -> (loaded: Result<Game, SpawnError>)
    ensures
        match loaded {
            Ok(game) => {
                &&& scenario(
                    standard_structure().spec_bytes(),
                    standard_starting_position().spec_bytes(),
                    Position { x: 5, y: 5 },
                    seq![
                        Position { x: 0, y: 0 },
                        Position { x: 10, y: 0 },
                        Position { x: 0, y: 10 },
                        Position { x: 10, y: 10 },
                    ],
                ) == Ok::<BoardView, SpawnError>(game.board@)
                &&& game.wf()
                &&& game.turn_tracker.side == Side::Attacker
                &&& game.rule == rule
                &&& game.outcome == GameOutcome::InProgress
            },
            Err(e) => scenario(
                standard_structure().spec_bytes(),
                standard_starting_position().spec_bytes(),
                Position { x: 5, y: 5 },
                seq![
                    Position { x: 0, y: 0 },
                    Position { x: 10, y: 0 },
                    Position { x: 0, y: 10 },
                    Position { x: 10, y: 10 },
                ],
            ) == Err::<BoardView, SpawnError>(e),
        },
{
    load_game(
        standard_structure(),
        standard_starting_position(),
        Position { x: 5, y: 5 },
        standard_end_positions(),
        Side::Attacker,
        rule,
    )
}

} // verus!
