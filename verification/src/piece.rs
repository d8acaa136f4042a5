//! Pieces: rectangular 0/1 shape matrices with a board position and a
//! color, the catalog of the seven canonical shapes, and rotation.

use vstd::prelude::*;

use crate::board::grid;

verus! {

/// A falling piece: a rectangular 0/1 occupancy matrix, the board
/// coordinates of the matrix's top-left corner (`y` may be negative while
/// a piece still hangs above the visible board), and a color id `1..=6`.
pub struct Piece {
    pub shape: Vec<Vec<u8>>,
    pub x: i32,
    pub y: i32,
    pub color: u8,
}

/// A well-formed shape matrix: rectangular, between 1 and 4 cells on each
/// side, every cell a 0/1 flag, and at least one cell occupied.
pub open spec fn shape_wf(shape: Seq<Seq<u8>>) -> bool {
    &&& 1 <= shape.len() <= 4
    &&& 1 <= shape[0].len() <= 4
    &&& forall|r: int| 0 <= r < shape.len() ==> (#[trigger] shape[r]).len() == shape[0].len()
    &&& forall|r: int, c: int|
        0 <= r < shape.len() && 0 <= c < shape[0].len() ==> #[trigger] shape[r][c] <= 1
    &&& exists|r: int, c: int|
        0 <= r < shape.len() && 0 <= c < shape[0].len() && #[trigger] shape[r][c] == 1
}

/// Cell `(r, c)` of the shape matrix exists and is occupied.
pub open spec fn occupied(shape: Seq<Seq<u8>>, r: int, c: int) -> bool {
    &&& 0 <= r < shape.len()
    &&& 0 <= c < shape[r].len()
    &&& shape[r][c] != 0
}

impl Piece {
    /// The shape matrix as a sequence of rows.
    pub open spec fn shape_view(self) -> Seq<Seq<u8>> {
        grid(self.shape)
    }

    /// The piece's shape matrix is well formed.
    pub open spec fn wf(self) -> bool {
        shape_wf(self.shape_view())
    }

    /// The color id identifies one of the six colors.
    pub open spec fn color_ok(self) -> bool {
        1 <= self.color <= 6
    }

    /// Every occupied cell maps to a column inside the board and to a row
    /// below the board's top overflow area and above its floor.  Rows may
    /// still be negative: a piece may hang above the visible board.
    pub open spec fn in_bounds(self) -> bool {
        forall|r: int, c: int|
            occupied(self.shape_view(), r, c) ==> 0 <= self.x + c < crate::board::BOARD_WIDTH
                && self.y + r < crate::board::BOARD_HEIGHT
    }
}

/// The shape matrix rotated a quarter turn clockwise: cell `(r, c)` of the
/// input lands at `(c, rows - 1 - r)` of the output.
pub open spec fn rotated_cw(shape: Seq<Seq<u8>>) -> Seq<Seq<u8>> {
    Seq::new(
        shape[0].len(),
        |i: int| Seq::new(shape.len(), |j: int| shape[shape.len() - 1 - j][i]),
    )
}

/// The shape matrix rotated a quarter turn counter-clockwise: cell
/// `(r, c)` of the input lands at `(cols - 1 - c, r)` of the output.
pub open spec fn rotated_ccw(shape: Seq<Seq<u8>>) -> Seq<Seq<u8>> {
    Seq::new(
        shape[0].len(),
        |i: int| Seq::new(shape.len(), |j: int| shape[j][shape[0].len() - 1 - i]),
    )
}

/// The shape matrix is rectangular and non-empty.
pub open spec fn rectangular(shape: Seq<Seq<u8>>) -> bool {
    &&& shape.len() >= 1
    &&& shape[0].len() >= 1
    &&& forall|r: int| 0 <= r < shape.len() ==> (#[trigger] shape[r]).len() == shape[0].len()
}

/// Rotating clockwise and then counter-clockwise (or the other way round)
/// restores the original shape matrix.
pub proof fn lemma_rotate_round_trip(shape: Seq<Seq<u8>>)
    requires
        rectangular(shape),
    ensures
        rotated_ccw(rotated_cw(shape)) == shape,
        rotated_cw(rotated_ccw(shape)) == shape,
{
    assert(rotated_ccw(rotated_cw(shape)) =~~= shape);
    assert(rotated_cw(rotated_ccw(shape)) =~~= shape);
}

/// A quarter turn keeps a shape matrix well formed.
pub proof fn lemma_rotate_wf(shape: Seq<Seq<u8>>)
    requires
        shape_wf(shape),
    ensures
        shape_wf(rotated_cw(shape)),
        shape_wf(rotated_ccw(shape)),
{
    let rows = shape.len() as int;
    let cols = shape[0].len() as int;
    let (r0, c0) = choose|r: int, c: int|
        0 <= r < shape.len() && 0 <= c < shape[0].len() && #[trigger] shape[r][c] == 1;
    assert(rotated_cw(shape)[c0][rows - 1 - r0] == 1);
    assert(rotated_ccw(shape)[cols - 1 - c0][r0] == 1);
}

/// The seven canonical shape matrices, in catalog order:
/// I, O, T, L, J, S, Z.
pub open spec fn spec_catalog() -> Seq<Seq<Seq<u8>>> {
    seq![
        seq![seq![1u8, 1u8, 1u8, 1u8]],
        seq![seq![1u8, 1u8], seq![1u8, 1u8]],
        seq![seq![1u8, 1u8, 1u8], seq![0u8, 1u8, 0u8]],
        seq![seq![1u8, 1u8, 1u8], seq![1u8, 0u8, 0u8]],
        seq![seq![1u8, 1u8, 1u8], seq![0u8, 0u8, 1u8]],
        seq![seq![1u8, 1u8, 0u8], seq![0u8, 1u8, 1u8]],
        seq![seq![0u8, 1u8, 1u8], seq![1u8, 1u8, 0u8]],
    ]
}

/// A vector of shape matrices, row by row, as nested sequences.
pub open spec fn shapes_view(v: Vec<Vec<Vec<u8>>>) -> Seq<Seq<Seq<u8>>> {
    Seq::new(v@.len(), |i: int| grid(v@[i]))
}

/// Every catalog shape is a well-formed shape matrix.
pub proof fn lemma_catalog_wf()
    ensures
        forall|k: int| 0 <= k < spec_catalog().len() ==> #[trigger] shape_wf(spec_catalog()[k]),
{
    assert forall|k: int| 0 <= k < spec_catalog().len() implies #[trigger] shape_wf(
        spec_catalog()[k],
    ) by {
        let s = spec_catalog()[k];
        if k == 0 {
            assert(s[0][0] == 1);
        } else if k == 1 {
            assert(s[0][0] == 1);
        } else if k == 2 {
            assert(s[0][0] == 1);
        } else if k == 3 {
            assert(s[0][0] == 1);
        } else if k == 4 {
            assert(s[0][0] == 1);
        } else if k == 5 {
            assert(s[0][0] == 1);
        } else {
            assert(s[0][1] == 1);
        }
    }
}

/// The owned table of the seven canonical shapes, in catalog order.
pub fn catalog() -> (r: Vec<Vec<Vec<u8>>>)
    ensures
        shapes_view(r) == spec_catalog(),
{
    let shapes: Vec<Vec<Vec<u8>>> = vec![
        vec![vec![1u8, 1u8, 1u8, 1u8]],
        vec![vec![1u8, 1u8], vec![1u8, 1u8]],
        vec![vec![1u8, 1u8, 1u8], vec![0u8, 1u8, 0u8]],
        vec![vec![1u8, 1u8, 1u8], vec![1u8, 0u8, 0u8]],
        vec![vec![1u8, 1u8, 1u8], vec![0u8, 0u8, 1u8]],
        vec![vec![1u8, 1u8, 0u8], vec![0u8, 1u8, 1u8]],
        vec![vec![0u8, 1u8, 1u8], vec![1u8, 1u8, 0u8]],
    ];
    proof {
        assert forall|k: int| 0 <= k < 7 implies shapes_view(shapes)[k] == spec_catalog()[k] by {
            assert(shapes_view(shapes)[k] =~~= spec_catalog()[k]);
        }
        assert(shapes_view(shapes) =~= spec_catalog());
    }
    shapes
}

/// Copies a shape matrix cell by cell.
pub fn clone_shape(s: &Vec<Vec<u8>>) -> (r: Vec<Vec<u8>>)
    ensures
        grid(r) == grid(*s),
{
    let mut out: Vec<Vec<u8>> = Vec::new();
    let n = s.len();
    for i in 0..n
        invariant
            n == s@.len(),
            out@.len() == i,
            forall|k: int| 0 <= k < i ==> grid(out)[k] == grid(*s)[k],
    {
        let mut row: Vec<u8> = Vec::new();
        let m = s[i].len();
        for j in 0..m
            invariant
                n == s@.len(),
                i < n,
                m == s@[i as int]@.len(),
                row@.len() == j,
                forall|l: int| 0 <= l < j ==> row@[l] == s@[i as int]@[l],
        {
            row.push(s[i][j]);
        }
        assert(row@ =~= grid(*s)[i as int]);
        out.push(row);
    }
    assert(grid(out) =~= grid(*s));
    out
}

/// Produces the shape matrix turned a quarter turn: clockwise when
/// `direction` is `1`, counter-clockwise otherwise.
pub fn rotate(shape: &Vec<Vec<u8>>, direction: i32) -> (r: Vec<Vec<u8>>)
    requires
        rectangular(grid(*shape)),
    ensures
        direction == 1 ==> grid(r) == rotated_cw(grid(*shape)),
        direction != 1 ==> grid(r) == rotated_ccw(grid(*shape)),
{
    let rows = shape.len();
    let cols = shape[0].len();
    let ghost target = if direction == 1 {
        rotated_cw(grid(*shape))
    } else {
        rotated_ccw(grid(*shape))
    };
    let mut out: Vec<Vec<u8>> = Vec::new();
    for i in 0..cols
        invariant
            rectangular(grid(*shape)),
            rows == shape@.len(),
            cols == shape@[0]@.len(),
            target == (if direction == 1 {
                rotated_cw(grid(*shape))
            } else {
                rotated_ccw(grid(*shape))
            }),
            out@.len() == i,
            forall|k: int| 0 <= k < i ==> grid(out)[k] == target[k],
    {
        let mut row: Vec<u8> = Vec::new();
        for j in 0..rows
            invariant
                rectangular(grid(*shape)),
                rows == shape@.len(),
                cols == shape@[0]@.len(),
                i < cols,
                target == (if direction == 1 {
                    rotated_cw(grid(*shape))
                } else {
                    rotated_ccw(grid(*shape))
                }),
                row@.len() == j,
                forall|l: int| 0 <= l < j ==> row@[l] == target[i as int][l],
        {
            proof {
                assert(grid(*shape)[(rows - 1 - j) as int].len() == grid(*shape)[0].len());
                assert(grid(*shape)[j as int].len() == grid(*shape)[0].len());
            }
            if direction == 1 {
                row.push(shape[rows - 1 - j][i]);
            } else {
                row.push(shape[j][cols - 1 - i]);
            }
        }
        assert(row@ =~= target[i as int]);
        out.push(row);
    }
    assert(grid(out) =~= target);
    out
}

} // verus!
