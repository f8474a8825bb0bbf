//! Shieldwall capture: a row of figures of one side along an edge of the
//! board, each pinned from the inside by an enemy, is taken as a whole.

use std::collections::VecDeque;
use vstd::prelude::*;
use crate::board::{Board, BoardView, Position, position_in};
use crate::capturing::capture;
use crate::figure::{Figure, FigureKind, Side};

verus! {

/// An edge of the board.
#[derive(Debug, Copy, Clone, PartialEq, Eq, Structural)]
pub enum EdgeSide {
    Left,
    Right,
    Top,
    Bottom,
}

/// The edge that `position` lies on, if any. A corner counts to the left or
/// right edge first.
pub open spec fn edge_side_of(board: BoardView, position: Position) -> Option<EdgeSide> {
    if position.x == 0 {
        Some(EdgeSide::Left)
    } else if position.x == board.cols - 1 {
        Some(EdgeSide::Right)
    } else if position.y == 0 {
        Some(EdgeSide::Top)
    } else if position.y == board.rows - 1 {
        Some(EdgeSide::Bottom)
    } else {
        None
    }
}

/// Whether `position` is a square of the given edge.
pub open spec fn lies_on(board: BoardView, edge: EdgeSide, position: Position) -> bool {
    match edge {
        EdgeSide::Left => position.x == 0,
        EdgeSide::Right => position.x == board.cols - 1,
        EdgeSide::Top => position.y == 0,
        EdgeSide::Bottom => position.y == board.rows - 1,
    }
}

/// The left and right edges run along the rows' numbers.
pub open spec fn runs_along_y(edge: EdgeSide) -> bool {
    edge == EdgeSide::Left || edge == EdgeSide::Right
}

/// The coordinate of `position` that varies along the edge.
pub open spec fn along(edge: EdgeSide, position: Position) -> int {
    if runs_along_y(edge) {
        position.y as int
    } else {
        position.x as int
    }
}

/// How many squares the edge has.
pub open spec fn line_len(board: BoardView, edge: EdgeSide) -> int {
    if runs_along_y(edge) {
        board.rows as int
    } else {
        board.cols as int
    }
}

/// The square on the line through `start` along the edge whose varying
/// coordinate is `t`.
pub open spec fn on_line(edge: EdgeSide, start: Position, t: int) -> Position {
    if runs_along_y(edge) {
        Position { x: start.x, y: t as usize }
    } else {
        Position { x: t as usize, y: start.y }
    }
}

/// Whether `position` is on the line through `start` along the edge.
pub open spec fn same_line(edge: EdgeSide, start: Position, position: Position) -> bool {
    if runs_along_y(edge) {
        position.x == start.x
    } else {
        position.y == start.y
    }
}

/// The square next to `position` towards the inside of the board.
pub open spec fn inward(edge: EdgeSide, position: Position) -> Position {
    match edge {
        EdgeSide::Left => Position { x: (position.x + 1) as usize, y: position.y },
        EdgeSide::Right => Position { x: (position.x - 1) as usize, y: position.y },
        EdgeSide::Top => Position { x: position.x, y: (position.y + 1) as usize },
        EdgeSide::Bottom => Position { x: position.x, y: (position.y - 1) as usize },
    }
}

/// The square holds a figure of `side`.
pub open spec fn holds_side(board: BoardView, position: Position, side: Side) -> bool {
    match board.occupant(position) {
        Some(f) => f.side == side,
        None => false,
    }
}

/// The square towards the inside holds an enemy of `side`.
pub open spec fn pinned(board: BoardView, edge: EdgeSide, position: Position, side: Side) -> bool {
    match board.occupant(inward(edge, position)) {
        Some(f) => f.side != side,
        None => false,
    }
}

/// A square beside a wall member along the edge is in order when it is
/// occupied or an escape square.
pub open spec fn closed_at(board: BoardView, position: Position) -> bool {
    board.occupant(position) is Some || board.is_end(position)
}

/// The square with coordinate `t` belongs to the wall that `start` stands
/// in: every square from `start` to it holds a figure of `side`.
pub open spec fn in_wall(board: BoardView, edge: EdgeSide, start: Position, side: Side, t: int) -> bool {
    &&& 0 <= t < line_len(board, edge)
    &&& forall|u: int|
        (t <= u <= along(edge, start) || along(edge, start) <= u <= t) ==> holds_side(
            board,
            #[trigger] on_line(edge, start, u),
            side,
        )
}

/// The wall member with coordinate `t` is caught: pinned from the inside,
/// and on both sides along the edge, as far as the board reaches, the next
/// square is occupied or an escape square.
pub open spec fn member_caught(board: BoardView, edge: EdgeSide, start: Position, side: Side, t: int) -> bool {
    &&& pinned(board, edge, on_line(edge, start, t), side)
    &&& t >= 1 ==> closed_at(board, on_line(edge, start, t - 1))
    &&& t + 1 < line_len(board, edge) ==> closed_at(board, on_line(edge, start, t + 1))
}

/// Every member of the wall that `start` stands in is caught.
pub open spec fn wall_caught(board: BoardView, edge: EdgeSide, start: Position, side: Side) -> bool {
    forall|t: int| #[trigger]
        in_wall(board, edge, start, side, t) ==> member_caught(board, edge, start, side, t)
}

/// The squares of the shieldwall that is caught around `start`, the King's
/// square included: empty unless `start` holds a figure on an edge and
/// every member of its wall is caught.
pub open spec fn shieldwall(board: BoardView, start: Position) -> Set<Position> {
    match (board.occupant(start), edge_side_of(board, start)) {
        (Some(f), Some(edge)) => if wall_caught(board, edge, start, f.side) {
            Set::new(
                |p: Position|
                    same_line(edge, start, p) && in_wall(board, edge, start, f.side, along(edge, p)),
            )
        } else {
            Set::empty()
        },
        _ => Set::empty(),
    }
}

/// The squares whose figures a shieldwall capture from `start` takes off
/// the board: the caught wall without the King.
pub open spec fn shieldwall_victims(board: BoardView, start: Position) -> Set<Position> {
    Set::new(
        |p: Position|
            shieldwall(board, start).contains(p) && (match board.occupant(p) {
                Some(f) => f.kind != FigureKind::King,
                None => false,
            }),
    )
}

/// Every square of a caught shieldwall holds a figure of the side of the
/// figure on `start`.
pub proof fn lemma_wall_members_share_side(board: BoardView, start: Position, member: Position)
    requires
        shieldwall(board, start).contains(member),
    ensures
        board.occupant(start) is Some,
        holds_side(board, member, board.figures[start].side),
{
    let side = board.figures[start].side;
    let edge = edge_side_of(board, start)->Some_0;
    assert(in_wall(board, edge, start, side, along(edge, member)));
    assert(on_line(edge, start, along(edge, member)) == member);
}

/// A wall along the top edge that is caught: the squares `first`..=`last`
/// of row 0 hold figures of one side, each with an enemy directly below,
/// and the wall ends on both sides at the edge of the board, at an enemy,
/// or at an empty escape square. Then the caught shieldwall around any of
/// its members is the whole wall, and a shieldwall capture from there
/// empties every square of the wall but the King's.
pub proof fn lemma_top_wall_is_caught(board: BoardView, side: Side, first: int, last: int, start: Position)
    requires
        board.wf(),
        0 <= first <= last < board.cols,
        start.y == 0,
        0 < start.x < board.cols - 1,
        first <= start.x <= last,
        forall|x: int|
            first <= x <= last ==> holds_side(board, #[trigger] on_line(EdgeSide::Top, start, x), side),
        forall|x: int|
            first <= x <= last ==> pinned(board, EdgeSide::Top, #[trigger] on_line(EdgeSide::Top, start, x), side),
        first >= 1 ==> !holds_side(board, on_line(EdgeSide::Top, start, first - 1), side) && closed_at(
            board,
            on_line(EdgeSide::Top, start, first - 1),
        ),
        last + 1 < board.cols ==> !holds_side(board, on_line(EdgeSide::Top, start, last + 1), side)
            && closed_at(board, on_line(EdgeSide::Top, start, last + 1)),
    ensures
        forall|p: Position| shieldwall(board, start).contains(p) <==> (p.y == 0 && first <= p.x <= last),
        forall|p: Position|
            shieldwall_victims(board, start).contains(p) <==> (p.y == 0 && first <= p.x <= last
                && board.figures[p].kind != FigureKind::King),
        forall|p: Position|
            p.y == 0 && first <= p.x <= last && board.figures[p].kind != FigureKind::King ==> (#[trigger] board.without(
                shieldwall_victims(board, start),
            ).occupant(p)) is None,
{
    let edge = EdgeSide::Top;
    assert(on_line(edge, start, start.x as int) == start);
    assert(holds_side(board, on_line(edge, start, start.x as int), side));
    assert(board.figures[start].side == side);
    assert forall|t: int| in_wall(board, edge, start, side, t) <==> first <= t <= last by {
        if in_wall(board, edge, start, side, t) {
            if t < first {
                assert(holds_side(board, on_line(edge, start, first - 1), side));
            }
            if t > last {
                assert(holds_side(board, on_line(edge, start, last + 1), side));
            }
        }
    }
    assert forall|t: int| #[trigger] in_wall(board, edge, start, side, t) implies member_caught(
        board,
        edge,
        start,
        side,
        t,
    ) by {
        assert(pinned(board, edge, on_line(edge, start, t), side));
        if t >= 1 && t > first {
            assert(holds_side(board, on_line(edge, start, t - 1), side));
        }
        if t + 1 < board.cols && t < last {
            assert(holds_side(board, on_line(edge, start, t + 1), side));
        }
    }
    assert(wall_caught(board, edge, start, side));
    assert forall|p: Position| shieldwall(board, start).contains(p) <==> (p.y == 0 && first <= p.x <= last) by {
        if p.y == 0 && first <= p.x <= last {
            assert(in_wall(board, edge, start, side, p.x as int));
        }
    }
    assert forall|p: Position|
        shieldwall_victims(board, start).contains(p) <==> (p.y == 0 && first <= p.x <= last && board.figures[p].kind
            != FigureKind::King) by {
        if p.y == 0 && first <= p.x <= last {
            assert(on_line(edge, start, p.x as int) == p);
            assert(holds_side(board, on_line(edge, start, p.x as int), side));
        }
    }
}

/// A wall with a member that no enemy pins from the inside is not caught:
/// nothing of it is captured.
pub proof fn lemma_unpinned_wall_stands(board: BoardView, start: Position, member: Position)
    requires
        board.occupant(start) is Some,
        edge_side_of(board, start) is Some,
        same_line(edge_side_of(board, start)->Some_0, start, member),
        in_wall(
            board,
            edge_side_of(board, start)->Some_0,
            start,
            board.figures[start].side,
            along(edge_side_of(board, start)->Some_0, member),
        ),
        !pinned(board, edge_side_of(board, start)->Some_0, member, board.figures[start].side),
    ensures
        shieldwall(board, start) == Set::<Position>::empty(),
        shieldwall_victims(board, start) =~= Set::<Position>::empty(),
{
    let edge = edge_side_of(board, start)->Some_0;
    let side = board.figures[start].side;
    let t = along(edge, member);
    assert(on_line(edge, start, t) == member);
    assert(!member_caught(board, edge, start, side, t));
}

/// The work queue after looking at the square `neighbor` beside a wall
/// member: a figure of `side` that was not visited yet is put in front.
pub open spec fn enqueue(
    board: BoardView,
    side: Side,
    visited: Seq<Position>,
    queue: Seq<Position>,
    neighbor: Position,
) -> Seq<Position> {
    if holds_side(board, neighbor, side) && !visited.contains(neighbor) {
        seq![neighbor] + queue
    } else {
        queue
    }
}

/// Performs a shieldwall capture check from the figure on `initial`: the
/// figures of the caught wall leave the board, all but the King.
///
/// Returns `true` if something was captured.
pub fn shieldwall_capture_check(board: &mut Board, initial: Position) -> (capture_happened: bool)
    requires
        old(board)@.wf(),
    ensures
        final(board)@.wf(),
        final(board)@ == old(board)@.without(shieldwall_victims(old(board)@, initial)),
        capture_happened == (exists|p: Position| shieldwall_victims(old(board)@, initial).contains(p)),
{
    let to_capture = determine_shieldwall_capture(initial, board);
    let mut capture_happened = false;
    let n = to_capture.len();
    let mut i: usize = 0;
    proof {
        let gone = Set::new(
            |p: Position|
                shieldwall_victims(board@, initial).contains(p) && to_capture@.subrange(0, 0).contains(p),
        );
        assert(board@.figures =~= board@.without(gone).figures);
    }
    while i < n
        invariant
            i <= n,
            n == to_capture@.len(),
            to_capture@.no_duplicates(),
            forall|p: Position| to_capture@.contains(p) <==> shieldwall(old(board)@, initial).contains(p),
            board@.wf(),
            old(board)@.wf(),
            board@ == old(board)@.without(
                Set::new(
                    |p: Position|
                        shieldwall_victims(old(board)@, initial).contains(p) && to_capture@.subrange(
                            0,
                            i as int,
                        ).contains(p),
                ),
            ),
            capture_happened == (exists|p: Position| shieldwall_victims(old(board)@, initial).contains(p)
                && to_capture@.subrange(0, i as int).contains(p)),
        decreases n - i,
    {
        let position = to_capture[i];
        let ghost seen = to_capture@.subrange(0, i as int);
        let ghost next = to_capture@.subrange(0, i as int + 1);
        proof {
            assert(next =~= seen.push(position));
            assert(to_capture@.contains(position));
            assert(!seen.contains(position));
            assert forall|p: Position| next.contains(p) <==> (seen.contains(p) || p == position) by {
                if next.contains(p) {
                    let k = choose|k: int| 0 <= k < next.len() && next[k] == p;
                    if k < seen.len() {
                        assert(seen[k] == p);
                    }
                }
                if seen.contains(p) {
                    let k = choose|k: int| 0 <= k < seen.len() && seen[k] == p;
                    assert(next[k] == p);
                }
                assert(next[i as int] == position);
            }
        }
        let ghost before = board@;
        proof {
            assert(before.occupant(position) == old(board)@.occupant(position));
        }
        if let Some(figure) = board.figure_at(position) {
            if figure.kind != FigureKind::King {
                capture(board, figure);
                capture_happened = true;
                assert(shieldwall_victims(old(board)@, initial).contains(position));
            }
        }
        proof {
            let gone = Set::new(
                |p: Position| shieldwall_victims(old(board)@, initial).contains(p) && next.contains(p),
            );
            assert(board@.figures =~= old(board)@.without(gone).figures);
        }
        i += 1;
    }
    proof {
        assert(to_capture@.subrange(0, n as int) =~= to_capture@);
        let gone = Set::new(
            |p: Position| shieldwall_victims(old(board)@, initial).contains(p) && to_capture@.contains(p),
        );
        assert(board@.figures =~= old(board)@.without(shieldwall_victims(old(board)@, initial)).figures);
    }
    capture_happened
}

/// Determines whether `position` is at the edge of the board, and on which
/// edge. A corner counts to the left or right edge.
pub fn determine_edge_side(board: &Board, position: Position) -> (edge: Option<EdgeSide>)
    requires
        board@.wf(),
    ensures
        edge == edge_side_of(board@, position),
        edge matches Some(e) ==> lies_on(board@, e, position),
{
    if position.x == 0 {
        return Some(EdgeSide::Left);
    }
    if position.x == board.cols - 1 {
        return Some(EdgeSide::Right);
    }
    if position.y == 0 {
        return Some(EdgeSide::Top);
    }
    if position.y == board.rows - 1 {
        return Some(EdgeSide::Bottom);
    }
    None
}

/// What the search knows of the visited squares: they are the squares
/// `a`..`b` of the line, `start` among them unless there is none yet, and
/// each holds a figure of `side` and is caught.
spec fn visited_inv(
    board: BoardView,
    edge: EdgeSide,
    start: Position,
    side: Side,
    a: int,
    b: int,
    visited: Seq<Position>,
) -> bool {
    let s = along(edge, start);
    &&& holds_side(board, start, side)
    &&& on_line(edge, start, s) == start
    &&& 0 <= a <= s
    &&& s <= b <= line_len(board, edge)
    &&& s < line_len(board, edge)
    &&& (a == b ==> a == s)
    &&& (a < b ==> s < b)
    &&& visited.len() == b - a
    &&& visited.no_duplicates()
    &&& forall|p: Position| #[trigger]
        visited.contains(p) ==> a <= along(edge, p) < b && p == on_line(edge, start, along(edge, p))
    &&& forall|t: int| a <= t < b ==> visited.contains(#[trigger] on_line(edge, start, t))
    &&& forall|t: int| a <= t < b ==> holds_side(board, #[trigger] on_line(edge, start, t), side)
    &&& forall|t: int| a <= t < b ==> #[trigger] member_caught(board, edge, start, side, t)
}

/// What the search knows of its queue: it holds exactly the unvisited wall
/// members next to the visited squares `a`..`b`, or `start` alone.
spec fn queue_inv(
    board: BoardView,
    edge: EdgeSide,
    start: Position,
    side: Side,
    a: int,
    b: int,
    queue: Seq<Position>,
) -> bool {
    &&& (a == b ==> queue == seq![start])
    &&& queue.no_duplicates()
    &&& forall|q: Position| #[trigger]
        queue.contains(q) ==> {
            &&& q == on_line(edge, start, along(edge, q))
            &&& (along(edge, q) == a - 1 || along(edge, q) == b)
            &&& 0 <= along(edge, q) < line_len(board, edge)
            &&& holds_side(board, q, side)
        }
    &&& (a < b && a >= 1 && holds_side(board, on_line(edge, start, a - 1), side)) ==> queue.contains(
        on_line(edge, start, a - 1),
    )
    &&& (a < b && b < line_len(board, edge) && holds_side(board, on_line(edge, start, b), side))
        ==> queue.contains(on_line(edge, start, b))
}

/// What the search knows after some steps.
spec fn search_inv(
    board: BoardView,
    edge: EdgeSide,
    start: Position,
    side: Side,
    a: int,
    b: int,
    visited: Seq<Position>,
    queue: Seq<Position>,
) -> bool {
    &&& visited_inv(board, edge, start, side, a, b, visited)
    &&& queue_inv(board, edge, start, side, a, b, queue)
}

/// The queue after the figure at its back was taken out and the two squares
/// beside it along the edge were looked at.
spec fn next_queue(
    board: BoardView,
    edge: EdgeSide,
    start: Position,
    side: Side,
    visited: Seq<Position>,
    queue: Seq<Position>,
) -> Seq<Position> {
    let t = along(edge, queue.last());
    let rest = queue.drop_last();
    let after_lower = if t >= 1 {
        enqueue(board, side, visited, rest, on_line(edge, start, t - 1))
    } else {
        rest
    };
    if t + 1 < line_len(board, edge) {
        enqueue(board, side, visited, after_lower, on_line(edge, start, t + 1))
    } else {
        after_lower
    }
}

proof fn lemma_drop_last(queue: Seq<Position>)
    requires
        queue.len() > 0,
        queue.no_duplicates(),
    ensures
        queue.drop_last().no_duplicates(),
        queue.contains(queue.last()),
        forall|p: Position| #[trigger]
            queue.drop_last().contains(p) <==> (queue.contains(p) && p != queue.last()),
{
    let rest = queue.drop_last();
    assert(queue[queue.len() - 1] == queue.last());
    assert forall|p: Position| #[trigger] rest.contains(p) <==> (queue.contains(p) && p != queue.last()) by {
        if rest.contains(p) {
            let k = choose|k: int| 0 <= k < rest.len() && rest[k] == p;
            assert(queue[k] == p);
        }
        if queue.contains(p) && p != queue.last() {
            let k = choose|k: int| 0 <= k < queue.len() && queue[k] == p;
            assert(rest[k] == p);
        }
    }
}

proof fn lemma_push(visited: Seq<Position>, position: Position)
    requires
        visited.no_duplicates(),
        !visited.contains(position),
    ensures
        visited.push(position).no_duplicates(),
        forall|p: Position| #[trigger]
            visited.push(position).contains(p) <==> (visited.contains(p) || p == position),
{
    let next = visited.push(position);
    assert(next[visited.len() as int] == position);
    assert forall|p: Position| #[trigger] next.contains(p) <==> (visited.contains(p) || p == position) by {
        if next.contains(p) {
            let k = choose|k: int| 0 <= k < next.len() && next[k] == p;
            if k < visited.len() {
                assert(visited[k] == p);
            }
        }
        if visited.contains(p) {
            let k = choose|k: int| 0 <= k < visited.len() && visited[k] == p;
            assert(next[k] == p);
        }
    }
}

proof fn lemma_enqueue(board: BoardView, side: Side, visited: Seq<Position>, queue: Seq<Position>, neighbor: Position)
    requires
        queue.no_duplicates(),
        !queue.contains(neighbor),
    ensures
        enqueue(board, side, visited, queue, neighbor).no_duplicates(),
        forall|p: Position| #[trigger]
            enqueue(board, side, visited, queue, neighbor).contains(p) <==> (queue.contains(p) || (p
                == neighbor && holds_side(board, neighbor, side) && !visited.contains(neighbor))),
{
    let next = enqueue(board, side, visited, queue, neighbor);
    if holds_side(board, neighbor, side) && !visited.contains(neighbor) {
        assert(next[0] == neighbor);
        assert forall|p: Position| #[trigger] next.contains(p) <==> (queue.contains(p) || p == neighbor) by {
            if next.contains(p) {
                let k = choose|k: int| 0 <= k < next.len() && next[k] == p;
                if k > 0 {
                    assert(queue[k - 1] == p);
                }
            }
            if queue.contains(p) {
                let k = choose|k: int| 0 <= k < queue.len() && queue[k] == p;
                assert(next[k + 1] == p);
            }
        }
        assert forall|i: int, j: int| 0 <= i < j < next.len() implies next[i] != next[j] by {
            if i == 0 {
                assert(queue[j - 1] == next[j]);
            } else {
                assert(queue[i - 1] == next[i]);
                assert(queue[j - 1] == next[j]);
            }
        }
    }
}

/// The figure at the back of the queue is a member of the wall.
proof fn lemma_search_front(
    board: BoardView,
    edge: EdgeSide,
    start: Position,
    side: Side,
    a: int,
    b: int,
    visited: Seq<Position>,
    queue: Seq<Position>,
)
    requires
        board.wf(),
        lies_on(board, edge, start),
        search_inv(board, edge, start, side, a, b, visited, queue),
        queue.len() > 0,
    ensures
        ({
            let q = queue.last();
            let t = along(edge, q);
            &&& q == on_line(edge, start, t)
            &&& (t == a - 1 || t == b)
            &&& 0 <= t < line_len(board, edge)
            &&& holds_side(board, q, side)
            &&& board.on_board(q)
            &&& lies_on(board, edge, q)
            &&& in_wall(board, edge, start, side, t)
            &&& a < b ==> visited.contains(on_line(edge, start, if t == b { t - 1 } else { t + 1 }))
        }),
{
    let q = queue.last();
    assert(queue[queue.len() - 1] == q);
    assert(queue.contains(q));
    assert(board.occupant(q) is Some);
    if a == b {
        assert(queue[0] == start);
    }
}

/// Visiting the figure at the back of the queue keeps what is known of the
/// visited squares.
proof fn lemma_visited_step(
    board: BoardView,
    edge: EdgeSide,
    start: Position,
    side: Side,
    a: int,
    b: int,
    visited: Seq<Position>,
    position: Position,
)
    requires
        visited_inv(board, edge, start, side, a, b, visited),
        position == on_line(edge, start, along(edge, position)),
        along(edge, position) == a - 1 || along(edge, position) == b,
        0 <= along(edge, position) < line_len(board, edge),
        a == b ==> position == start,
        holds_side(board, position, side),
        member_caught(board, edge, start, side, along(edge, position)),
    ensures
        along(edge, position) == b ==> visited_inv(board, edge, start, side, a, b + 1, visited.push(position)),
        along(edge, position) != b ==> visited_inv(board, edge, start, side, a - 1, b, visited.push(position)),
{
    let t = along(edge, position);
    let next_visited = visited.push(position);
    assert(!visited.contains(position));
    lemma_push(visited, position);
    let na = if t == b { a } else { a - 1 };
    let nb = if t == b { b + 1 } else { b };
    assert forall|u: int| na <= u < nb implies next_visited.contains(#[trigger] on_line(edge, start, u)) by {
        if u != t {
            assert(visited.contains(on_line(edge, start, u)));
        }
    }
    assert forall|u: int| na <= u < nb implies holds_side(board, #[trigger] on_line(edge, start, u), side) by {}
    assert forall|u: int| na <= u < nb implies #[trigger] member_caught(board, edge, start, side, u) by {}
}

/// Taking the figure at the back out of the queue and looking at the two
/// squares beside it keeps what is known of the queue.
proof fn lemma_queue_step(
    board: BoardView,
    edge: EdgeSide,
    start: Position,
    side: Side,
    a: int,
    b: int,
    visited: Seq<Position>,
    queue: Seq<Position>,
)
    requires
        board.wf(),
        lies_on(board, edge, start),
        search_inv(board, edge, start, side, a, b, visited, queue),
        queue.len() > 0,
    ensures
        along(edge, queue.last()) == b ==> queue_inv(
            board,
            edge,
            start,
            side,
            a,
            b + 1,
            next_queue(board, edge, start, side, visited, queue),
        ),
        along(edge, queue.last()) != b ==> queue_inv(
            board,
            edge,
            start,
            side,
            a - 1,
            b,
            next_queue(board, edge, start, side, visited, queue),
        ),
{
    let position = queue.last();
    let t = along(edge, position);
    let rest = queue.drop_last();
    let lower = on_line(edge, start, t - 1);
    let upper = on_line(edge, start, t + 1);
    let after_lower = if t >= 1 {
        enqueue(board, side, visited, rest, lower)
    } else {
        rest
    };
    let after_upper = if t + 1 < line_len(board, edge) {
        enqueue(board, side, visited, after_lower, upper)
    } else {
        after_lower
    };
    lemma_search_front(board, edge, start, side, a, b, visited, queue);
    lemma_drop_last(queue);
    if a == b {
        assert(rest =~= Seq::<Position>::empty());
    }
    if t >= 1 {
        assert(along(edge, lower) == t - 1);
        assert(!rest.contains(lower)) by {
            if rest.contains(lower) {
                assert(queue.contains(lower));
            }
        }
        lemma_enqueue(board, side, visited, rest, lower);
    }
    if t + 1 < line_len(board, edge) {
        assert(along(edge, upper) == t + 1);
        assert(!rest.contains(upper)) by {
            if rest.contains(upper) {
                assert(queue.contains(upper));
            }
        }
        assert(!after_lower.contains(upper));
        lemma_enqueue(board, side, visited, after_lower, upper);
    }
    let na = if t == b { a } else { a - 1 };
    let nb = if t == b { b + 1 } else { b };
    assert forall|q: Position| #[trigger] after_upper.contains(q) implies {
        &&& q == on_line(edge, start, along(edge, q))
        &&& (along(edge, q) == na - 1 || along(edge, q) == nb)
        &&& 0 <= along(edge, q) < line_len(board, edge)
        &&& holds_side(board, q, side)
    } by {
        if rest.contains(q) {
            assert(queue.contains(q));
            assert(along(edge, q) != t);
        }
    }
    if na >= 1 && holds_side(board, on_line(edge, start, na - 1), side) {
        if t == b {
            if a < b {
                assert(queue.contains(on_line(edge, start, a - 1)));
                assert(rest.contains(on_line(edge, start, a - 1)));
            } else {
                assert(!visited.contains(lower));
            }
        } else {
            assert(!visited.contains(lower));
        }
        assert(after_lower.contains(on_line(edge, start, na - 1)));
        assert(after_upper.contains(on_line(edge, start, na - 1)));
    }
    if nb < line_len(board, edge) && holds_side(board, on_line(edge, start, nb), side) {
        if t != b {
            assert(queue.contains(on_line(edge, start, b)));
            assert(rest.contains(on_line(edge, start, b)));
            assert(after_lower.contains(on_line(edge, start, b)));
        } else {
            assert(!visited.contains(upper));
        }
        assert(after_upper.contains(on_line(edge, start, nb)));
    }
}

/// When the queue is empty, the visited squares are the caught wall.
proof fn lemma_search_done(
    board: BoardView,
    edge: EdgeSide,
    start: Position,
    side: Side,
    a: int,
    b: int,
    visited: Seq<Position>,
)
    requires
        board.wf(),
        search_inv(board, edge, start, side, a, b, visited, Seq::<Position>::empty()),
    ensures
        wall_caught(board, edge, start, side),
        forall|p: Position|
            visited.contains(p) <==> (same_line(edge, start, p) && in_wall(
                board,
                edge,
                start,
                side,
                along(edge, p),
            )),
{
    let queue = Seq::<Position>::empty();
    assert(a < b) by {
        if a == b {
            assert(queue.len() == seq![start].len());
        }
    }
    assert forall|u: int| #[trigger] in_wall(board, edge, start, side, u) implies a <= u < b by {
        if u < a {
            assert(holds_side(board, on_line(edge, start, a - 1), side));
            assert(queue.contains(on_line(edge, start, a - 1)));
        }
        if u >= b {
            assert(holds_side(board, on_line(edge, start, b), side));
            assert(queue.contains(on_line(edge, start, b)));
        }
    }
    assert forall|p: Position|
        visited.contains(p) <==> (same_line(edge, start, p) && in_wall(
            board,
            edge,
            start,
            side,
            along(edge, p),
        )) by {
        if visited.contains(p) {
            assert(in_wall(board, edge, start, side, along(edge, p)));
        }
        if same_line(edge, start, p) && in_wall(board, edge, start, side, along(edge, p)) {
            assert(visited.contains(on_line(edge, start, along(edge, p))));
            assert(on_line(edge, start, along(edge, p)) == p);
        }
    }
}

/// Determines the squares whose figures stand in a caught shieldwall. The
/// search starts from the figure on `initial` and follows the edge.
pub fn determine_shieldwall_capture(initial: Position, board: &Board) -> (result: Vec<Position>)
    requires
        board@.wf(),
    ensures
        result@.no_duplicates(),
        forall|p: Position| result@.contains(p) <==> shieldwall(board@, initial).contains(p),
{
    let initial_figure = match board.figure_at(initial) {
        Some(f) => f,
        None => {
            return Vec::new();
        },
    };
    let edge = match determine_edge_side(board, initial) {
        Some(e) => e,
        None => {
            return Vec::new();
        },
    };
    let side = initial_figure.side;

    let mut to_check: VecDeque<Position> = VecDeque::new();
    let mut result: Vec<Position> = Vec::new();
    to_check.push_front(initial);

    let ghost mut a: int = along(edge, initial);
    let ghost mut b: int = along(edge, initial);
    proof {
        assert(to_check@ =~= seq![initial]);
        assert(on_line(edge, initial, along(edge, initial)) == initial);
        assert(board@.on_board(initial));
        assert(to_check@.no_duplicates());
        assert forall|q: Position| #[trigger] to_check@.contains(q) implies q == initial by {
            let k = choose|k: int| 0 <= k < to_check@.len() && to_check@[k] == q;
        }
    }

    while 0 < to_check.len()
        invariant
            board@.wf(),
            board@.occupant(initial) == Some(initial_figure),
            edge_side_of(board@, initial) == Some(edge),
            lies_on(board@, edge, initial),
            side == initial_figure.side,
            search_inv(board@, edge, initial, side, a, b, result@, to_check@),
        decreases line_len(board@, edge) - (b - a),
    {
        let ghost queue = to_check@;
        let ghost visited = result@;
        let position = to_check.pop_back().unwrap();
        let ghost t: int = along(edge, position);
        proof {
            assert(position == queue.last());
            assert(to_check@ =~= queue.drop_last());
            lemma_search_front(board@, edge, initial, side, a, b, visited, queue);
        }
        let figure = board.figure_at(position).unwrap();

        if !handle_non_axis_neighbor_position(board, figure, edge) {
            proof {
                assert(!member_caught(board@, edge, initial, side, t));
                assert(!wall_caught(board@, edge, initial, side));
            }
            return Vec::new();
        }
        let should_continue = match edge {
            EdgeSide::Left => handle_y_axis_neighbor_positions(position, board, figure, &result, &mut to_check),
            EdgeSide::Right => handle_y_axis_neighbor_positions(position, board, figure, &result, &mut to_check),
            EdgeSide::Top => handle_x_axis_neighbor_positions(position, board, figure, &result, &mut to_check),
            EdgeSide::Bottom => handle_x_axis_neighbor_positions(position, board, figure, &result, &mut to_check),
        };
        if !should_continue {
            proof {
                assert(!member_caught(board@, edge, initial, side, t));
                assert(!wall_caught(board@, edge, initial, side));
            }
            return Vec::new();
        }
        proof {
            assert(member_caught(board@, edge, initial, side, t));
            assert(to_check@ == next_queue(board@, edge, initial, side, visited, queue));
            lemma_visited_step(board@, edge, initial, side, a, b, visited, position);
            lemma_queue_step(board@, edge, initial, side, a, b, visited, queue);
        }
        result.push(position);
        proof {
            if t == b {
                b = b + 1;
            } else {
                a = a - 1;
            }
        }
    }
    proof {
        assert(to_check@ =~= Seq::<Position>::empty());
        lemma_search_done(board@, edge, initial, side, a, b, result@);
    }
    result
}

/// Handles the square towards the inside of the board beside `figure`,
/// which stands on the edge `edge_side`.
///
/// Returns `true` if that square holds an enemy of the figure, so that the
/// search goes on, and `false` if the wall is not caught.
pub fn handle_non_axis_neighbor_position(board: &Board, figure: Figure, edge_side: EdgeSide) -> (pinned_here: bool)
    requires
        board@.wf(),
        board@.on_board(figure.position),
        lies_on(board@, edge_side, figure.position),
    ensures
        pinned_here == pinned(board@, edge_side, figure.position, figure.side),
{
    let position = figure.position;
    let neighbor_position = match edge_side {
        EdgeSide::Left => Position { x: position.x + 1, y: position.y },
        EdgeSide::Right => Position { x: position.x - 1, y: position.y },
        EdgeSide::Top => Position { x: position.x, y: position.y + 1 },
        EdgeSide::Bottom => Position { x: position.x, y: position.y - 1 },
    };
    match board.figure_at(neighbor_position) {
        Some(neighbor_figure) => figure.side != neighbor_figure.side,
        None => false,
    }
}

/// Handles one square beside `figure` along the edge.
///
/// A figure of the same side that was not visited yet is put in front of
/// the work queue. Returns `true` if the square is occupied or an escape
/// square, and `false` if it is an ordinary empty square, which opens the
/// wall.
pub fn handle_axis_neighbor_position(
    neighbor_position: Position,
    board: &Board,
    figure: Figure,
    result: &Vec<Position>,
    to_check: &mut VecDeque<Position>,
) -> (should_continue: bool)
    ensures
        should_continue == closed_at(board@, neighbor_position),
        final(to_check)@ == enqueue(board@, figure.side, result@, old(to_check)@, neighbor_position),
{
    if let Some(neighbor_figure) = board.figure_at(neighbor_position) {
        if figure.side == neighbor_figure.side && !position_in(result, neighbor_position) {
            to_check.push_front(neighbor_position);
        }
        return true;
    }
    if board.is_end_position(neighbor_position) {
        return true;
    }
    false
}

/// Handles the squares left and right of `position`, as far as the board
/// reaches. Returns `false` as soon as one of them opens the wall.
pub fn handle_x_axis_neighbor_positions(
    position: Position,
    board: &Board,
    figure: Figure,
    result: &Vec<Position>,
    to_check: &mut VecDeque<Position>,
) -> (should_continue: bool)
    requires
        board@.wf(),
    ensures
        ({
            let left = Position { x: (position.x - 1) as usize, y: position.y };
            let right = Position { x: (position.x + 1) as usize, y: position.y };
            let left_closed = position.x >= 1 ==> closed_at(board@, left);
            let right_closed = position.x + 1 < board.cols ==> closed_at(board@, right);
            let after_left = if position.x >= 1 {
                enqueue(board@, figure.side, result@, old(to_check)@, left)
            } else {
                old(to_check)@
            };
            let after_right = if position.x + 1 < board.cols {
                enqueue(board@, figure.side, result@, after_left, right)
            } else {
                after_left
            };
            &&& should_continue == (left_closed && right_closed)
            &&& final(to_check)@ == (if left_closed { after_right } else { after_left })
        }),
{
    if position.x >= 1 {
        let should_continue = handle_axis_neighbor_position(
            Position { x: position.x - 1, y: position.y },
            board,
            figure,
            result,
            to_check,
        );
        if !should_continue {
            return false;
        }
    }
    if position.x < board.cols - 1 {
        let should_continue = handle_axis_neighbor_position(
            Position { x: position.x + 1, y: position.y },
            board,
            figure,
            result,
            to_check,
        );
        if !should_continue {
            return false;
        }
    }
    true
}

/// Handles the squares above and below `position`, as far as the board
/// reaches. Returns `false` as soon as one of them opens the wall.
pub fn handle_y_axis_neighbor_positions(
    position: Position,
    board: &Board,
    figure: Figure,
    result: &Vec<Position>,
    to_check: &mut VecDeque<Position>,
) -> (should_continue: bool)
    requires
        board@.wf(),
    ensures
        ({
            let up = Position { x: position.x, y: (position.y - 1) as usize };
            let down = Position { x: position.x, y: (position.y + 1) as usize };
            let up_closed = position.y >= 1 ==> closed_at(board@, up);
            let down_closed = position.y + 1 < board.rows ==> closed_at(board@, down);
            let after_up = if position.y >= 1 {
                enqueue(board@, figure.side, result@, old(to_check)@, up)
            } else {
                old(to_check)@
            };
            let after_down = if position.y + 1 < board.rows {
                enqueue(board@, figure.side, result@, after_up, down)
            } else {
                after_up
            };
            &&& should_continue == (up_closed && down_closed)
            &&& final(to_check)@ == (if up_closed { after_down } else { after_up })
        }),
{
    if position.y >= 1 {
        let should_continue = handle_axis_neighbor_position(
            Position { x: position.x, y: position.y - 1 },
            board,
            figure,
            result,
            to_check,
        );
        if !should_continue {
            return false;
        }
    }
    if position.y < board.rows - 1 {
        let should_continue = handle_axis_neighbor_position(
            Position { x: position.x, y: position.y + 1 },
            board,
            figure,
            result,
            to_check,
        );
        if !should_continue {
            return false;
        }
    }
    true
}

} // verus!
