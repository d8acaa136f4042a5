//! The board: a fixed 10 x 20 grid of cells, collision testing, merging a
//! piece into the grid, and full-row detection and removal.

use vstd::prelude::*;

use crate::piece::occupied;
use crate::piece::Piece;

verus! {

/// Number of columns of the board.
pub const BOARD_WIDTH: usize = 10;

/// Number of rows of the board.
pub const BOARD_HEIGHT: usize = 20;

/// A grid (board or shape matrix) as a sequence of rows of cells.
pub open spec fn grid(v: Vec<Vec<u8>>) -> Seq<Seq<u8>> {
    Seq::new(v@.len(), |i: int| v@[i]@)
}

/// A well-formed board: exactly `BOARD_HEIGHT` rows of `BOARD_WIDTH`
/// cells, and every cell holds `0` (empty) or a color id `1..=6`.
pub open spec fn board_wf(b: Seq<Seq<u8>>) -> bool {
    &&& b.len() == BOARD_HEIGHT
    &&& forall|r: int| 0 <= r < b.len() ==> (#[trigger] b[r]).len() == BOARD_WIDTH
    &&& forall|r: int, c: int|
        0 <= r < b.len() && 0 <= c < BOARD_WIDTH ==> #[trigger] b[r][c] <= 6
}

/// Board position `(bx, by)` blocks an occupied piece cell: it lies left
/// or right of the board, below its floor, or on a non-empty board cell.
/// Positions above the top edge (`by < 0`) never block by themselves.
pub open spec fn cell_blocked(b: Seq<Seq<u8>>, bx: int, by: int) -> bool {
    ||| bx < 0
    ||| bx >= BOARD_WIDTH
    ||| by >= BOARD_HEIGHT
    ||| (by >= 0 && b[by][bx] != 0)
}

/// A shape matrix placed with its top-left corner at `(x, y)` collides
/// with the board: some occupied cell maps to a blocked board position.
pub open spec fn spec_collides(shape: Seq<Seq<u8>>, x: int, y: int, b: Seq<Seq<u8>>) -> bool {
    exists|r: int, c: int| #[trigger]
        occupied(shape, r, c) && cell_blocked(b, x + c, y + r)
}

/// Every row of the shape matrix holds at most 4 cells, and there are at
/// most 4 rows: enough for position arithmetic to stay in range.
pub open spec fn shape_small(shape: Seq<Seq<u8>>) -> bool {
    &&& shape.len() <= 4
    &&& forall|r: int| 0 <= r < shape.len() ==> (#[trigger] shape[r]).len() <= 4
}

/// Does the shape matrix placed at `(x, y)` overlap the board or leave
/// its left, right or bottom bounds?
pub fn collides_at(shape: &Vec<Vec<u8>>, x: i32, y: i32, board: &Vec<Vec<u8>>) -> (r: bool)
    requires
        shape_small(grid(*shape)),
        board_wf(grid(*board)),
    ensures
        r == spec_collides(grid(*shape), x as int, y as int, grid(*board)),
{
    let rows = shape.len();
    for r in 0..rows
        invariant
            rows == shape@.len(),
            shape_small(grid(*shape)),
            board_wf(grid(*board)),
            forall|rr: int, cc: int|
                #[trigger] occupied(grid(*shape), rr, cc) && rr < r ==> !cell_blocked(
                    grid(*board),
                    x + cc,
                    y + rr,
                ),
    {
        let cols = shape[r].len();
        for c in 0..cols
            invariant
                rows == shape@.len(),
                r < rows,
                cols == shape@[r as int]@.len(),
                shape_small(grid(*shape)),
                board_wf(grid(*board)),
                forall|rr: int, cc: int|
                    #[trigger] occupied(grid(*shape), rr, cc) && rr < r ==> !cell_blocked(
                        grid(*board),
                        x + cc,
                        y + rr,
                    ),
                forall|cc: int|
                    #[trigger] occupied(grid(*shape), r as int, cc) && cc < c ==> !cell_blocked(
                        grid(*board),
                        x + cc,
                        y + r,
                    ),
        {
            proof {
                assert(grid(*shape)[r as int].len() <= 4);
            }
            if shape[r][c] != 0 {
                let bx: i64 = x as i64 + c as i64;
                let by: i64 = y as i64 + r as i64;
                if bx < 0 || bx >= BOARD_WIDTH as i64 || by >= BOARD_HEIGHT as i64 {
                    assert(occupied(grid(*shape), r as int, c as int));
                    return true;
                }
                if by >= 0 {
                    proof {
                        assert(grid(*board)[by as int].len() == BOARD_WIDTH);
                    }
                    if board[by as usize][bx as usize] != 0 {
                        assert(occupied(grid(*shape), r as int, c as int));
                        return true;
                    }
                }
            }
        }
    }
    false
}

/// Does the piece, at its own position, overlap the board or leave its
/// bounds?  `width` and `height` are the board's fixed dimensions.
pub fn collides(piece: &Piece, board: &Vec<Vec<u8>>, width: usize, height: usize) -> (r: bool)
    requires
        shape_small(grid(piece.shape)),
        board_wf(grid(*board)),
        width == BOARD_WIDTH,
        height == BOARD_HEIGHT,
    ensures
        r == spec_collides(piece.shape_view(), piece.x as int, piece.y as int, grid(*board)),
{
    collides_at(&piece.shape, piece.x, piece.y, board)
}

/// Board position `(bx, by)` is covered by an occupied cell of the shape
/// matrix placed with its top-left corner at `(x, y)`.
pub open spec fn covers(shape: Seq<Seq<u8>>, x: int, y: int, bx: int, by: int) -> bool {
    occupied(shape, by - y, bx - x)
}

/// The board after the shape matrix placed at `(x, y)` is stamped into it
/// with color `color`: covered cells take the color, others keep theirs.
pub open spec fn merged(
    b: Seq<Seq<u8>>,
    shape: Seq<Seq<u8>>,
    x: int,
    y: int,
    color: u8,
) -> Seq<Seq<u8>> {
    Seq::new(
        b.len(),
        |by: int|
            Seq::new(
                b[by].len(),
                |bx: int|
                    if covers(shape, x, y, bx, by) {
                        color
                    } else {
                        b[by][bx]
                    },
            ),
    )
}

/// Writes one cell of the board.
pub fn set_cell(board: &mut Vec<Vec<u8>>, by: usize, bx: usize, v: u8)
    requires
        by < old(board)@.len(),
        bx < old(board)@[by as int]@.len(),
    ensures
        grid(*final(board)) == grid(*old(board)).update(
            by as int,
            grid(*old(board))[by as int].update(bx as int, v),
        ),
{
    let mut row: Vec<u8> = Vec::new();
    board.set_and_swap(by, &mut row);
    row.set(bx, v);
    board.set_and_swap(by, &mut row);
    proof {
        assert(grid(*board) =~~= grid(*old(board)).update(
            by as int,
            grid(*old(board))[by as int].update(bx as int, v),
        ));
    }
}

/// Copies a board row cell by cell.
pub fn clone_row(row: &Vec<u8>) -> (r: Vec<u8>)
    ensures
        r@ == row@,
{
    let mut out: Vec<u8> = Vec::new();
    let n = row.len();
    for i in 0..n
        invariant
            n == row@.len(),
            out@.len() == i,
            forall|k: int| 0 <= k < i ==> out@[k] == row@[k],
    {
        out.push(row[i]);
    }
    assert(out@ =~= row@);
    out
}

/// Builds one fully empty board row.
pub fn make_empty_row() -> (r: Vec<u8>)
    ensures
        r@ == empty_row(),
{
    let row: Vec<u8> = vec![0u8, 0u8, 0u8, 0u8, 0u8, 0u8, 0u8, 0u8, 0u8, 0u8];
    assert(row@ =~= empty_row());
    row
}

/// Once a piece touches the left wall — some occupied cell sits in
/// column 0 — the position one column further left collides on every
/// board, so a left move from the wall is a no-op however often it is
/// repeated.
pub proof fn lemma_left_wall_blocks(p: Piece, b: Seq<Seq<u8>>)
    requires
        exists|r: int, c: int| #[trigger] occupied(p.shape_view(), r, c) && p.x + c == 0,
    ensures
        spec_collides(p.shape_view(), p.x - 1, p.y as int, b),
{
    let (r0, c0) = choose|r: int, c: int| #[trigger]
        occupied(p.shape_view(), r, c) && p.x + c == 0;
    assert(occupied(p.shape_view(), r0, c0) && cell_blocked(b, p.x - 1 + c0, p.y + r0));
}

/// Board position `(bx, by)` is covered by an occupied shape cell that a
/// row-major scan has already passed: a cell in a row before `rr`, or in
/// row `rr` before column `cc`.
pub open spec fn covers_before(
    shape: Seq<Seq<u8>>,
    x: int,
    y: int,
    bx: int,
    by: int,
    rr: int,
    cc: int,
) -> bool {
    covers(shape, x, y, bx, by) && (by - y < rr || (by - y == rr && bx - x < cc))
}

/// Every cell of the row is occupied.
pub open spec fn row_full(row: Seq<u8>) -> bool {
    forall|i: int| 0 <= i < row.len() ==> #[trigger] row[i] != 0
}

/// The indices of the full rows among the first `n` rows of the board, in
/// scan order (top to bottom).
pub open spec fn full_rows(b: Seq<Seq<u8>>, n: int) -> Seq<usize>
    decreases n,
{
    if n <= 0 {
        Seq::empty()
    } else if row_full(b[n - 1]) {
        full_rows(b, n - 1).push((n - 1) as usize)
    } else {
        full_rows(b, n - 1)
    }
}

/// A fully empty board row.
pub open spec fn empty_row() -> Seq<u8> {
    Seq::new(BOARD_WIDTH as nat, |i: int| 0u8)
}

/// Is every cell of the row occupied?
pub fn row_full_exec(row: &Vec<u8>) -> (r: bool)
    ensures
        r == row_full(row@),
{
    let n = row.len();
    for i in 0..n
        invariant
            n == row@.len(),
            forall|k: int| 0 <= k < i ==> #[trigger] row@[k] != 0,
    {
        if row[i] == 0 {
            return false;
        }
    }
    true
}

/// Does the list of row indices contain `y`?
pub fn contains_row(lines: &Vec<usize>, y: usize) -> (r: bool)
    ensures
        r == lines@.contains(y),
{
    let n = lines.len();
    for i in 0..n
        invariant
            n == lines@.len(),
            forall|k: int| 0 <= k < i ==> #[trigger] lines@[k] != y,
    {
        if lines[i] == y {
            return true;
        }
    }
    false
}

/// The scan of the first `n` rows lists at most `n` full rows, each with
/// an index below `n`, in strictly increasing order.
pub proof fn lemma_full_rows_sorted(b: Seq<Seq<u8>>, n: int)
    requires
        0 <= n <= usize::MAX,
    ensures
        full_rows(b, n).len() <= n,
        forall|i: int| 0 <= i < full_rows(b, n).len() ==> #[trigger] full_rows(b, n)[i] < n,
        forall|i: int, j: int|
            0 <= i < j < full_rows(b, n).len() ==> full_rows(b, n)[i] < full_rows(b, n)[j],
    decreases n,
{
    if n > 0 {
        lemma_full_rows_sorted(b, n - 1);
        assert forall|i: int| 0 <= i < full_rows(b, n).len() implies #[trigger] full_rows(b, n)[i]
            < n by {
            if i < full_rows(b, n - 1).len() {
                assert(full_rows(b, n)[i] == full_rows(b, n - 1)[i]);
            }
        }
        assert forall|i: int, j: int| 0 <= i < j < full_rows(b, n).len() implies full_rows(b, n)[i]
            < full_rows(b, n)[j] by {
            if row_full(b[n - 1]) && j == full_rows(b, n - 1).len() {
                assert(full_rows(b, n)[i] == full_rows(b, n - 1)[i]);
                assert(full_rows(b, n - 1)[i] < n - 1);
                assert(full_rows(b, n)[j] == ((n - 1) as usize));
            } else {
                assert(full_rows(b, n)[i] == full_rows(b, n - 1)[i]);
                assert(full_rows(b, n)[j] == full_rows(b, n - 1)[j]);
            }
        }
    }
}

/// The rows kept by a clear are rows of the original board: there are at
/// most `n` of them, and each equals some row among the first `n`.
pub proof fn lemma_rows_kept_rows(b: Seq<Seq<u8>>, cleared: Seq<usize>, n: int)
    requires
        n >= 0,
    ensures
        rows_kept(b, cleared, n).len() <= n,
        forall|i: int|
            0 <= i < rows_kept(b, cleared, n).len() ==> exists|j: int|
                0 <= j < n && #[trigger] rows_kept(b, cleared, n)[i] == b[j],
    decreases n,
{
    if n > 0 {
        lemma_rows_kept_rows(b, cleared, n - 1);
        assert forall|i: int| 0 <= i < rows_kept(b, cleared, n).len() implies exists|j: int|
            0 <= j < n && #[trigger] rows_kept(b, cleared, n)[i] == b[j] by {
            if i < rows_kept(b, cleared, n - 1).len() {
                assert(rows_kept(b, cleared, n)[i] == rows_kept(b, cleared, n - 1)[i]);
                let j = choose|j: int|
                    0 <= j < n - 1 && #[trigger] rows_kept(b, cleared, n - 1)[i] == b[j];
                assert(rows_kept(b, cleared, n)[i] == b[j]);
            } else {
                assert(rows_kept(b, cleared, n)[i] == b[n - 1]);
            }
        }
    }
}

/// The rows among the first `n` of the board whose index is not listed in
/// `cleared`, in their original order.
pub open spec fn rows_kept(b: Seq<Seq<u8>>, cleared: Seq<usize>, n: int) -> Seq<Seq<u8>>
    decreases n,
{
    if n <= 0 {
        Seq::empty()
    } else if cleared.contains((n - 1) as usize) {
        rows_kept(b, cleared, n - 1)
    } else {
        rows_kept(b, cleared, n - 1).push(b[n - 1])
    }
}

/// The board after the rows listed in `cleared` are removed: the kept
/// rows slide to the bottom, preserving their order, and one fully empty
/// row enters at the top for each removed row.
pub open spec fn cleared_board(b: Seq<Seq<u8>>, cleared: Seq<usize>) -> Seq<Seq<u8>> {
    let kept = rows_kept(b, cleared, b.len() as int);
    Seq::new((b.len() - kept.len()) as nat, |i: int| empty_row()) + kept
}

} // verus!
