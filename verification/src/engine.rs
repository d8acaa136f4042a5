//! The game engine: owns the board, the falling and queued pieces, score
//! and statistics, and answers the command surface (move, rotate, drop,
//! pause, clear-animation tick).

use vstd::prelude::*;

use crate::board::board_wf;
use crate::board::cleared_board;
use crate::board::clone_row;
use crate::board::contains_row;
use crate::board::covers;
use crate::board::lemma_rows_kept_rows;
use crate::board::rows_kept;
use crate::board::covers_before;
use crate::board::empty_row;
use crate::board::full_rows;
use crate::board::grid;
use crate::board::lemma_full_rows_sorted;
use crate::board::make_empty_row;
use crate::board::merged;
use crate::board::row_full_exec;
use crate::board::set_cell;
use crate::board::shape_small;
use crate::board::spec_collides;
use crate::board::BOARD_HEIGHT;
use crate::board::BOARD_WIDTH;
use crate::piece::catalog;
use crate::piece::clone_shape;
use crate::piece::lemma_catalog_wf;
use crate::piece::occupied;
use crate::piece::shape_wf;
use crate::piece::shapes_view;
use crate::piece::spec_catalog;
use crate::piece::Piece;

verus! {

/// The clear animation runs this long, in thousandths of a time unit.
pub const CLEAR_DURATION_MS: u32 = 300;

/// The falling-block game engine.
pub struct Tetris {
    pub board: Vec<Vec<u8>>,
    pub width: usize,
    pub height: usize,
    pub current_piece: Option<Piece>,
    pub next_piece: Piece,
    pub score: u32,
    pub game_over: bool,
    pub paused: bool,
    pub cleared_lanes: u32,
    pub tetris_count: u32,
    pub triple_count: u32,
    pub double_count: u32,
    pub single_count: u32,
    pub clearing_lines: Vec<usize>,
    pub clearing_animation_progress: u32,
}

/// Saturating addition on `u32` values, as a mathematical function.
pub open spec fn sat_add_u32(a: int, b: int) -> int {
    if a + b > u32::MAX {
        u32::MAX as int
    } else {
        a + b
    }
}

/// `a + b` clipped to `u32::MAX`.
pub fn sat_add(a: u32, b: u32) -> (r: u32)
    ensures
        r as int == sat_add_u32(a as int, b as int),
{
    if a > u32::MAX - b {
        u32::MAX
    } else {
        a + b
    }
}

impl Tetris {
    /// The engine's consistency invariant: fixed board dimensions, a well
    /// formed board, well formed in-range pieces, pending clear rows
    /// strictly ordered and on the board, and animation progress inside
    /// the clear duration (zero while no clear is pending).
    pub open spec fn wf(self) -> bool {
        &&& self.width == BOARD_WIDTH
        &&& self.height == BOARD_HEIGHT
        &&& board_wf(grid(self.board))
        &&& match self.current_piece {
            Some(p) => p.wf() && p.in_bounds() && p.color_ok(),
            None => true,
        }
        &&& self.next_piece.wf()
        &&& self.next_piece.in_bounds()
        &&& self.next_piece.color_ok()
        &&& forall|i: int|
            0 <= i < self.clearing_lines@.len() ==> #[trigger] self.clearing_lines@[i]
                < BOARD_HEIGHT
        &&& forall|i: int, j: int|
            0 <= i < j < self.clearing_lines@.len() ==> self.clearing_lines@[i]
                < self.clearing_lines@[j]
        &&& self.clearing_animation_progress < CLEAR_DURATION_MS
        &&& self.clearing_lines@.len() == 0 ==> self.clearing_animation_progress == 0
    }

    /// A clear animation is pending: some rows are marked for removal.
    pub open spec fn clearing(self) -> bool {
        self.clearing_lines@.len() > 0
    }
}

/// The index a piece is generated from: the explicit test index when one
/// is supplied, the first catalog entry otherwise.
pub open spec fn chosen_idx(test_idx: Option<usize>) -> int {
    match test_idx {
        Some(i) => i as int,
        None => 0,
    }
}

/// The piece the engine spawns on its own: the first catalog shape at its
/// initial anchor.
pub open spec fn fresh_piece(p: Piece) -> bool {
    &&& p.shape_view() == spec_catalog()[0]
    &&& p.x == 2
    &&& p.y == 0
    &&& p.color == 1
}

/// The score awarded for clearing `n` rows at once.
pub open spec fn line_award(n: int) -> int {
    if n == 1 {
        100
    } else if n == 2 {
        300
    } else if n == 3 {
        600
    } else if n == 4 {
        1000
    } else {
        0
    }
}

/// The outcome of locking the active piece: its cells are merged into
/// the board, full rows are detected, marked and awarded, the queued
/// piece is promoted, a fresh piece is queued, and the game ends exactly
/// when the promoted piece already collides on the merged board.
pub open spec fn lock_step(pre: Tetris, post: Tetris) -> bool {
    match pre.current_piece {
        None => false,
        Some(p) => {
            let b2 = merged(grid(pre.board), p.shape_view(), p.x as int, p.y as int, p.color);
            let fr = full_rows(b2, BOARD_HEIGHT as int);
            &&& grid(post.board) == b2
            &&& post.clearing_lines@ == fr
            &&& post.clearing_animation_progress == 0
            &&& post.score == sat_add_u32(pre.score as int, line_award(fr.len() as int))
            &&& post.cleared_lanes == (if fr.len() > 0 {
                sat_add_u32(pre.cleared_lanes as int, fr.len() as int)
            } else {
                pre.cleared_lanes as int
            })
            &&& post.single_count == (if fr.len() == 1 {
                sat_add_u32(pre.single_count as int, 1)
            } else {
                pre.single_count as int
            })
            &&& post.double_count == (if fr.len() == 2 {
                sat_add_u32(pre.double_count as int, 1)
            } else {
                pre.double_count as int
            })
            &&& post.triple_count == (if fr.len() == 3 {
                sat_add_u32(pre.triple_count as int, 1)
            } else {
                pre.triple_count as int
            })
            &&& post.tetris_count == (if fr.len() == 4 {
                sat_add_u32(pre.tetris_count as int, 1)
            } else {
                pre.tetris_count as int
            })
            &&& post.current_piece == Some(pre.next_piece)
            &&& fresh_piece(post.next_piece)
            &&& post.game_over == spec_collides(
                pre.next_piece.shape_view(),
                pre.next_piece.x as int,
                pre.next_piece.y as int,
                b2,
            )
            &&& post.paused == pre.paused
            &&& post.width == pre.width
            &&& post.height == pre.height
        },
    }
}

/// A fully empty board.
pub open spec fn empty_board() -> Seq<Seq<u8>> {
    Seq::new(BOARD_HEIGHT as nat, |i: int| empty_row())
}

/// A well-formed, in-range piece sits in columns `-3..=9` and no lower
/// than row 19: some cell within the 4 x 4 matrix is occupied and maps
/// into the board's columns and above its floor.
pub proof fn lemma_piece_pos_range(p: Piece)
    requires
        p.wf(),
        p.in_bounds(),
    ensures
        -3 <= p.x <= 9,
        p.y <= 19,
{
    let s = p.shape_view();
    let (r0, c0) = choose|r: int, c: int|
        0 <= r < s.len() && 0 <= c < s[0].len() && #[trigger] s[r][c] == 1;
    assert(occupied(s, r0, c0));
}

/// A placement that does not collide keeps every occupied cell inside
/// the board's columns and above its floor.
pub proof fn lemma_no_collide_in_bounds(p: Piece, b: Seq<Seq<u8>>)
    requires
        !spec_collides(p.shape_view(), p.x as int, p.y as int, b),
    ensures
        p.in_bounds(),
{
    assert forall|r: int, c: int| occupied(p.shape_view(), r, c) implies 0 <= p.x + c
        < BOARD_WIDTH && p.y + r < BOARD_HEIGHT by {
        assert(!(occupied(p.shape_view(), r, c) && crate::board::cell_blocked(
            b,
            p.x + c,
            p.y + r,
        )));
    }
}

/// A well-formed shape matrix is small enough for position arithmetic.
pub proof fn lemma_wf_small(s: Seq<Seq<u8>>)
    requires
        shape_wf(s),
    ensures
        shape_small(s),
{
}

impl Tetris {
    /// Builds the piece for catalog entry `test_idx` (or the first entry
    /// when none is given): the entry's shape at its initial anchor
    /// `x = 4 - cols / 2`, `y = 0`, with color `(index mod 6) + 1`.
    pub fn create_piece(shapes: &Vec<Vec<Vec<u8>>>, test_idx: Option<usize>) -> (p: Piece)
        requires
            shapes@.len() > 0,
            match test_idx {
                Some(i) => i < shapes@.len(),
                None => true,
            },
            forall|k: int| 0 <= k < shapes@.len() ==> shape_wf(#[trigger] shapes_view(*shapes)[k]),
        ensures
            p.shape_view() == shapes_view(*shapes)[chosen_idx(test_idx)],
            p.x == 4 - shapes_view(*shapes)[chosen_idx(test_idx)][0].len() as int / 2,
            p.y == 0,
            p.color == (chosen_idx(test_idx) % 6) + 1,
            p.wf(),
            p.in_bounds(),
            p.color_ok(),
    {
        let idx = match test_idx {
            Some(i) => i,
            None => 0,
        };
        let color = ((idx % 6) + 1) as u8;
        let shape = clone_shape(&shapes[idx]);
        proof {
            assert(grid(shape) == shapes_view(*shapes)[idx as int]);
            assert(shape_wf(grid(shape)));
        }
        let cols = shape[0].len();
        let x = 4 - (cols as i32) / 2;
        let p = Piece { shape, x, y: 0, color };
        proof {
            let s = p.shape_view();
            assert(1 <= cols <= 4);
            assert(2 <= p.x <= 4) by {
                assert(cols as i32 / 2 == cols as int / 2);
            }
            assert forall|r: int, c: int| occupied(s, r, c) implies 0 <= p.x + c < BOARD_WIDTH
                && p.y + r < BOARD_HEIGHT by {
                assert(s[r].len() == s[0].len());
                assert(c <= 3);
                assert(p.x + c <= 4 - cols as int / 2 + cols - 1);
            }
        }
        p
    }

    /// Builds a fresh engine: an empty board, no active piece, the first
    /// catalog piece queued as next, zeroed score and statistics, and no
    /// pending clear.
    pub fn new() -> (t: Tetris)
        ensures
            t.wf(),
            grid(t.board) == empty_board(),
            t.width == BOARD_WIDTH,
            t.height == BOARD_HEIGHT,
            t.current_piece is None,
            fresh_piece(t.next_piece),
            t.score == 0,
            t.game_over == false,
            t.paused == false,
            t.cleared_lanes == 0,
            t.tetris_count == 0,
            t.triple_count == 0,
            t.double_count == 0,
            t.single_count == 0,
            t.clearing_lines@.len() == 0,
            t.clearing_animation_progress == 0,
    {
        let mut board: Vec<Vec<u8>> = Vec::new();
        let h = BOARD_HEIGHT;
        for i in 0..h
            invariant
                h == BOARD_HEIGHT,
                board@.len() == i,
                forall|k: int| 0 <= k < i ==> (#[trigger] board@[k])@ == empty_row(),
        {
            board.push(make_empty_row());
        }
        assert(grid(board) =~= empty_board());
        let shapes = catalog();
        proof {
            lemma_catalog_wf();
            assert(shapes@.len() == shapes_view(shapes).len());
            assert(spec_catalog().len() == 7);
        }
        let next_piece = Tetris::create_piece(&shapes, None);
        proof {
            assert(spec_catalog()[0][0].len() == 4);
        }
        Tetris {
            board,
            width: BOARD_WIDTH,
            height: BOARD_HEIGHT,
            current_piece: None,
            next_piece,
            score: 0,
            game_over: false,
            paused: false,
            cleared_lanes: 0,
            tetris_count: 0,
            triple_count: 0,
            double_count: 0,
            single_count: 0,
            clearing_lines: Vec::new(),
            clearing_animation_progress: 0,
        }
    }

    /// The current score.
    pub fn get_score(&self) -> (r: u32)
        ensures
            r == self.score,
    {
        self.score
    }

    /// Has the game reached its terminal state?
    pub fn is_game_over(&self) -> (r: bool)
        ensures
            r == self.game_over,
    {
        self.game_over
    }

    /// Total number of rows cleared over the session.
    pub fn get_cleared_lanes(&self) -> (r: u32)
        ensures
            r == self.cleared_lanes,
    {
        self.cleared_lanes
    }

    /// Number of four-row clears.
    pub fn get_tetris_count(&self) -> (r: u32)
        ensures
            r == self.tetris_count,
    {
        self.tetris_count
    }

    /// Number of three-row clears.
    pub fn get_triple_count(&self) -> (r: u32)
        ensures
            r == self.triple_count,
    {
        self.triple_count
    }

    /// Number of two-row clears.
    pub fn get_double_count(&self) -> (r: u32)
        ensures
            r == self.double_count,
    {
        self.double_count
    }

    /// Number of one-row clears.
    pub fn get_single_count(&self) -> (r: u32)
        ensures
            r == self.single_count,
    {
        self.single_count
    }

    /// Is the engine paused?
    pub fn is_paused(&self) -> (r: bool)
        ensures
            r == self.paused,
    {
        self.paused
    }

    /// Pauses the engine.  A no-op once the game is over.
    pub fn pause(&mut self)
        requires
            old(self).wf(),
        ensures
            final(self).wf(),
            old(self).game_over ==> *final(self) == *old(self),
            !old(self).game_over ==> (*final(self) == Tetris { paused: true, ..(*old(self)) }),
    {
        if self.game_over {
            return ;
        }
        self.paused = true;
    }

    /// Stamps the active piece's occupied cells into the board with the
    /// piece's color.  Cells above the board's top edge are skipped.  A
    /// piece whose color id is not `1..=6` is refused: the board is left
    /// untouched (fail-soft).  Without an active piece, a no-op.
    pub fn merge(&mut self)
        requires
            board_wf(grid(old(self).board)),
            match old(self).current_piece {
                Some(p) => p.in_bounds() && shape_small(p.shape_view()),
                None => true,
            },
        ensures
            (*final(self) == Tetris { board: final(self).board, ..(*old(self)) }),
            board_wf(grid(final(self).board)),
            match old(self).current_piece {
                None => grid(final(self).board) == grid(old(self).board),
                Some(p) => {
                    if p.color == 0 || p.color >= 7 {
                        grid(final(self).board) == grid(old(self).board)
                    } else {
                        grid(final(self).board) == merged(
                            grid(old(self).board),
                            p.shape_view(),
                            p.x as int,
                            p.y as int,
                            p.color,
                        )
                    }
                },
            },
    {
        let (shape, px, py, color) = match &self.current_piece {
            Some(piece) => (clone_shape(&piece.shape), piece.x, piece.y, piece.color),
            None => {
                return ;
            },
        };
        if color == 0 || color >= 7 {
            return ;
        }
        let ghost p = old(self).current_piece->Some_0;
        let ghost b0 = grid(old(self).board);
        let rows = shape.len();
        for r in 0..rows
            invariant
                (*self == Tetris { board: self.board, ..(*old(self)) }),
                rows == shape@.len(),
                grid(shape) == p.shape_view(),
                px == p.x && py == p.y && color == p.color,
                1 <= color <= 6,
                p.in_bounds(),
                shape_small(p.shape_view()),
                b0 == grid(old(self).board),
                board_wf(b0),
                grid(self.board).len() == b0.len(),
                forall|i: int|
                    0 <= i < b0.len() ==> (#[trigger] grid(self.board)[i]).len() == b0[i].len(),
                forall|by: int, bx: int|
                    0 <= by < BOARD_HEIGHT && 0 <= bx < BOARD_WIDTH ==> #[trigger] grid(
                        self.board,
                    )[by][bx] == (if covers_before(
                        p.shape_view(),
                        px as int,
                        py as int,
                        bx,
                        by,
                        r as int,
                        0,
                    ) {
                        color
                    } else {
                        b0[by][bx]
                    }),
        {
            let cols = shape[r].len();
            proof {
                assert(p.shape_view()[r as int].len() <= 4);
            }
            for c in 0..cols
                invariant
                    (*self == Tetris { board: self.board, ..(*old(self)) }),
                    rows == shape@.len(),
                    r < rows,
                    cols == shape@[r as int]@.len(),
                    cols <= 4,
                    grid(shape) == p.shape_view(),
                    px == p.x && py == p.y && color == p.color,
                    1 <= color <= 6,
                    p.in_bounds(),
                    shape_small(p.shape_view()),
                    b0 == grid(old(self).board),
                    board_wf(b0),
                    grid(self.board).len() == b0.len(),
                    forall|i: int|
                        0 <= i < b0.len() ==> (#[trigger] grid(self.board)[i]).len()
                            == b0[i].len(),
                    forall|by: int, bx: int|
                        0 <= by < BOARD_HEIGHT && 0 <= bx < BOARD_WIDTH ==> #[trigger] grid(
                            self.board,
                        )[by][bx] == (if covers_before(
                            p.shape_view(),
                            px as int,
                            py as int,
                            bx,
                            by,
                            r as int,
                            c as int,
                        ) {
                            color
                        } else {
                            b0[by][bx]
                        }),
            {
                let ghost prevg = grid(self.board);
                if shape[r][c] != 0 {
                    proof {
                        assert(occupied(p.shape_view(), r as int, c as int));
                    }
                    let by64: i64 = py as i64 + r as i64;
                    if by64 >= 0 && by64 < BOARD_HEIGHT as i64 {
                        let bx64: i64 = px as i64 + c as i64;
                        let by = by64 as usize;
                        let bx = bx64 as usize;
                        proof {
                            assert(0 <= p.x + c < BOARD_WIDTH);
                            assert(grid(self.board)[by as int].len() == b0[by as int].len());
                        }
                        set_cell(&mut self.board, by, bx, color);
                    }
                }
                proof {
                    assert forall|by2: int, bx2: int|
                        0 <= by2 < BOARD_HEIGHT && 0 <= bx2 < BOARD_WIDTH implies #[trigger] grid(
                        self.board,
                    )[by2][bx2] == (if covers_before(
                        p.shape_view(),
                        px as int,
                        py as int,
                        bx2,
                        by2,
                        r as int,
                        c + 1 as int,
                    ) {
                        color
                    } else {
                        b0[by2][bx2]
                    }) by {
                        let s = p.shape_view();
                        if by2 == py + r && bx2 == px + c && occupied(s, r as int, c as int) {
                            assert(covers(s, px as int, py as int, bx2, by2));
                            assert(grid(self.board)[by2][bx2] == color);
                        } else {
                            assert(grid(self.board)[by2][bx2] == prevg[by2][bx2]);
                            assert(covers_before(s, px as int, py as int, bx2, by2, r as int, c + 1)
                                == covers_before(s, px as int, py as int, bx2, by2, r as int, c as int));
                        }
                    }
                }
            }
            proof {
                assert forall|by2: int, bx2: int|
                    covers_before(p.shape_view(), px as int, py as int, bx2, by2, r as int, cols as int)
                        == covers_before(
                        p.shape_view(),
                        px as int,
                        py as int,
                        bx2,
                        by2,
                        r + 1 as int,
                        0,
                    ) by {}
            }
        }
        proof {
            let s = p.shape_view();
            assert forall|by2: int, bx2: int|
                covers_before(s, px as int, py as int, bx2, by2, rows as int, 0) == covers(
                s,
                px as int,
                py as int,
                bx2,
                by2,
            ) by {}
            assert(grid(self.board) =~~= merged(b0, s, px as int, py as int, color));
        }
    }

    /// Detects full rows and marks them for the clear animation.  While
    /// rows are already pending, a no-op: detection never re-runs during
    /// a clear.  Otherwise every full row's index enters `clearing_lines`
    /// in scan order, the animation restarts, the cleared-lane total
    /// grows by the count, and score and exactly one per-size counter are
    /// awarded by that count: 100 for a single, 300 for a double, 600 for
    /// a triple, 1000 for a tetris, nothing otherwise.
    pub fn clear_lines(&mut self)
        requires
            old(self).wf(),
        ensures
            final(self).wf(),
            old(self).clearing() ==> *final(self) == *old(self),
            !old(self).clearing() ==> {
                let fr = full_rows(grid(old(self).board), BOARD_HEIGHT as int);
                &&& final(self).clearing_lines@ == fr
                &&& final(self).clearing_animation_progress == 0
                &&& final(self).score == sat_add_u32(
                    old(self).score as int,
                    line_award(fr.len() as int),
                )
                &&& final(self).cleared_lanes == (if fr.len() > 0 {
                    sat_add_u32(old(self).cleared_lanes as int, fr.len() as int)
                } else {
                    old(self).cleared_lanes as int
                })
                &&& final(self).single_count == (if fr.len() == 1 {
                    sat_add_u32(old(self).single_count as int, 1)
                } else {
                    old(self).single_count as int
                })
                &&& final(self).double_count == (if fr.len() == 2 {
                    sat_add_u32(old(self).double_count as int, 1)
                } else {
                    old(self).double_count as int
                })
                &&& final(self).triple_count == (if fr.len() == 3 {
                    sat_add_u32(old(self).triple_count as int, 1)
                } else {
                    old(self).triple_count as int
                })
                &&& final(self).tetris_count == (if fr.len() == 4 {
                    sat_add_u32(old(self).tetris_count as int, 1)
                } else {
                    old(self).tetris_count as int
                })
                &&& final(self).board == old(self).board
                &&& final(self).current_piece == old(self).current_piece
                &&& final(self).next_piece == old(self).next_piece
                &&& final(self).paused == old(self).paused
                &&& final(self).game_over == old(self).game_over
                &&& final(self).width == old(self).width
                &&& final(self).height == old(self).height
            },
    {
        if self.clearing_lines.len() > 0 {
            return ;
        }
        let mut lines: Vec<usize> = Vec::new();
        let h = self.height;
        for y in 0..h
            invariant
                h == BOARD_HEIGHT,
                self.wf(),
                *self == *old(self),
                lines@ == full_rows(grid(self.board), y as int),
        {
            proof {
                assert(grid(self.board)[y as int].len() == BOARD_WIDTH);
            }
            if row_full_exec(&self.board[y]) {
                lines.push(y);
            }
        }
        let n = lines.len();
        proof {
            lemma_full_rows_sorted(grid(self.board), BOARD_HEIGHT as int);
        }
        if n > 0 {
            self.clearing_lines = lines;
            self.clearing_animation_progress = 0;
            self.cleared_lanes = sat_add(self.cleared_lanes, n as u32);
            if n == 4 {
                self.tetris_count = sat_add(self.tetris_count, 1);
                self.score = sat_add(self.score, 1000);
            } else if n == 3 {
                self.triple_count = sat_add(self.triple_count, 1);
                self.score = sat_add(self.score, 600);
            } else if n == 2 {
                self.double_count = sat_add(self.double_count, 1);
                self.score = sat_add(self.score, 300);
            } else if n == 1 {
                self.single_count = sat_add(self.single_count, 1);
                self.score = sat_add(self.score, 100);
            }
        }
    }

    /// Promotes the queued piece to the active slot and queues a freshly
    /// generated piece, when no piece is active yet; idempotent once one
    /// is.  A no-op while paused or once the game is over.
    pub fn start(&mut self)
        requires
            old(self).wf(),
        ensures
            final(self).wf(),
            old(self).game_over || old(self).paused || old(self).current_piece is Some
                ==> *final(self) == *old(self),
            !(old(self).game_over || old(self).paused || old(self).current_piece is Some) ==> {
                &&& final(self).current_piece == Some(old(self).next_piece)
                &&& fresh_piece(final(self).next_piece)
                &&& (*final(self) == Tetris {
                    current_piece: final(self).current_piece,
                    next_piece: final(self).next_piece,
                    ..(*old(self))
                })
            },
    {
        if self.game_over || self.paused {
            return ;
        }
        if self.current_piece.is_some() {
            return ;
        }
        let shapes = catalog();
        proof {
            lemma_catalog_wf();
            assert(shapes@.len() == shapes_view(shapes).len());
            assert(spec_catalog().len() == 7);
        }
        let mut fresh = Tetris::create_piece(&shapes, None);
        proof {
            assert(spec_catalog()[0][0].len() == 4);
        }
        core::mem::swap(&mut self.next_piece, &mut fresh);
        self.current_piece = Some(fresh);
    }

    /// Locks the active piece: merge, detect and award clears, promote
    /// the queued piece, queue a fresh one, and test the promoted piece
    /// for an immediate collision, which ends the game.
    fn lock_current(&mut self)
        requires
            old(self).wf(),
            !old(self).game_over,
            !old(self).clearing(),
            old(self).current_piece is Some,
        ensures
            final(self).wf(),
            lock_step(*old(self), *final(self)),
    {
        proof {
            let p = old(self).current_piece->Some_0;
            lemma_wf_small(p.shape_view());
        }
        self.merge();
        self.clear_lines();
        let shapes = catalog();
        proof {
            lemma_catalog_wf();
            assert(shapes@.len() == shapes_view(shapes).len());
            assert(spec_catalog().len() == 7);
        }
        let mut fresh = Tetris::create_piece(&shapes, None);
        proof {
            assert(spec_catalog()[0][0].len() == 4);
        }
        core::mem::swap(&mut self.next_piece, &mut fresh);
        self.current_piece = Some(fresh);
        let go = match &self.current_piece {
            Some(piece) => {
                proof {
                    lemma_wf_small(piece.shape_view());
                }
                crate::board::collides_at(&piece.shape, piece.x, piece.y, &self.board)
            },
            None => false,
        };
        if go {
            self.game_over = true;
        }
    }

    /// Advances the active piece one row down.  When the piece cannot
    /// fall, it locks (merge, clear detection, promotion, spawn) and the
    /// call returns `false` exactly when the game ends on the spawn.
    /// Returns `true` while paused, while a clear is pending, or without
    /// an active piece; returns `false` without effect once the game is
    /// over.
    pub fn move_down(&mut self) -> (r: bool)
        requires
            old(self).wf(),
        ensures
            final(self).wf(),
            old(self).game_over ==> *final(self) == *old(self) && r == false,
            !old(self).game_over && old(self).paused ==> *final(self) == *old(self) && r == true,
            !old(self).game_over && !old(self).paused && old(self).clearing() ==> *final(self)
                == *old(self) && r == true,
            !old(self).game_over && !old(self).paused && !old(self).clearing() ==> match old(
                self,
            ).current_piece {
                None => *final(self) == *old(self) && r == true,
                Some(p) => {
                    if !spec_collides(p.shape_view(), p.x as int, p.y + 1, grid(old(self).board)) {
                        &&& (*final(self) == Tetris {
                            current_piece: Some(Piece { y: (p.y + 1) as i32, ..p }),
                            ..(*old(self))
                        })
                        &&& r == true
                    } else {
                        &&& lock_step(*old(self), *final(self))
                        &&& r == !final(self).game_over
                    }
                },
            },
    {
        if self.game_over {
            return false;
        }
        if self.paused {
            return true;
        }
        if self.clearing_lines.len() > 0 {
            return true;
        }
        match &mut self.current_piece {
            Some(piece) => {
                proof {
                    lemma_wf_small(piece.shape_view());
                    lemma_piece_pos_range(*piece);
                }
                if !crate::board::collides_at(&piece.shape, piece.x, piece.y + 1, &self.board) {
                    piece.y = piece.y + 1;
                    proof {
                        lemma_no_collide_in_bounds(*piece, grid(self.board));
                    }
                    return true;
                }
            },
            None => {
                return true;
            },
        }
        self.lock_current();
        !self.game_over
    }

    /// Moves the active piece one column left, unless the new position
    /// collides.  A no-op while paused, while a clear is pending, or
    /// once the game is over.
    pub fn move_left(&mut self)
        requires
            old(self).wf(),
        ensures
            final(self).wf(),
            old(self).game_over || old(self).paused || old(self).clearing() ==> *final(self)
                == *old(self),
            !(old(self).game_over || old(self).paused || old(self).clearing()) ==> match old(
                self,
            ).current_piece {
                None => *final(self) == *old(self),
                Some(p) => {
                    if spec_collides(p.shape_view(), p.x - 1, p.y as int, grid(old(self).board)) {
                        *final(self) == *old(self)
                    } else {
                        (*final(self) == Tetris {
                            current_piece: Some(Piece { x: (p.x - 1) as i32, ..p }),
                            ..(*old(self))
                        })
                    }
                },
            },
    {
        if self.game_over || self.paused {
            return ;
        }
        if self.clearing_lines.len() > 0 {
            return ;
        }
        match &mut self.current_piece {
            Some(piece) => {
                proof {
                    lemma_wf_small(piece.shape_view());
                    lemma_piece_pos_range(*piece);
                }
                if !crate::board::collides_at(&piece.shape, piece.x - 1, piece.y, &self.board) {
                    piece.x = piece.x - 1;
                    proof {
                        lemma_no_collide_in_bounds(*piece, grid(self.board));
                    }
                }
            },
            None => {},
        }
    }

    /// Moves the active piece one column right, unless the new position
    /// collides.  A no-op while paused, while a clear is pending, or
    /// once the game is over.
    pub fn move_right(&mut self)
        requires
            old(self).wf(),
        ensures
            final(self).wf(),
            old(self).game_over || old(self).paused || old(self).clearing() ==> *final(self)
                == *old(self),
            !(old(self).game_over || old(self).paused || old(self).clearing()) ==> match old(
                self,
            ).current_piece {
                None => *final(self) == *old(self),
                Some(p) => {
                    if spec_collides(p.shape_view(), p.x + 1, p.y as int, grid(old(self).board)) {
                        *final(self) == *old(self)
                    } else {
                        (*final(self) == Tetris {
                            current_piece: Some(Piece { x: (p.x + 1) as i32, ..p }),
                            ..(*old(self))
                        })
                    }
                },
            },
    {
        if self.game_over || self.paused {
            return ;
        }
        if self.clearing_lines.len() > 0 {
            return ;
        }
        match &mut self.current_piece {
            Some(piece) => {
                proof {
                    lemma_wf_small(piece.shape_view());
                    lemma_piece_pos_range(*piece);
                }
                if !crate::board::collides_at(&piece.shape, piece.x + 1, piece.y, &self.board) {
                    piece.x = piece.x + 1;
                    proof {
                        lemma_no_collide_in_bounds(*piece, grid(self.board));
                    }
                }
            },
            None => {},
        }
    }

    /// Rotates the active piece a quarter turn counter-clockwise, unless
    /// the rotated shape collides at the current anchor, in which case
    /// the shape is kept.  A no-op while paused, while a clear is
    /// pending, or once the game is over.
    pub fn rotate_left(&mut self)
        requires
            old(self).wf(),
        ensures
            final(self).wf(),
            old(self).game_over || old(self).paused || old(self).clearing() ==> *final(self)
                == *old(self),
            !(old(self).game_over || old(self).paused || old(self).clearing()) ==> match old(
                self,
            ).current_piece {
                None => *final(self) == *old(self),
                Some(p) => {
                    let ns = crate::piece::rotated_ccw(p.shape_view());
                    if spec_collides(ns, p.x as int, p.y as int, grid(old(self).board)) {
                        *final(self) == *old(self)
                    } else {
                        &&& match final(self).current_piece {
                            Some(q) => q.shape_view() == ns && q.x == p.x && q.y == p.y && q.color
                                == p.color,
                            None => false,
                        }
                        &&& (*final(self) == Tetris {
                            current_piece: final(self).current_piece,
                            ..(*old(self))
                        })
                    }
                },
            },
    {
        if self.game_over || self.paused {
            return ;
        }
        if self.clearing_lines.len() > 0 {
            return ;
        }
        match &mut self.current_piece {
            Some(piece) => {
                let ns = crate::piece::rotate(&piece.shape, -1);
                proof {
                    crate::piece::lemma_rotate_wf(piece.shape_view());
                    lemma_wf_small(grid(ns));
                }
                if !crate::board::collides_at(&ns, piece.x, piece.y, &self.board) {
                    piece.shape = ns;
                    proof {
                        lemma_no_collide_in_bounds(*piece, grid(self.board));
                    }
                }
            },
            None => {},
        }
    }

    /// Rotates the active piece a quarter turn clockwise, unless the
    /// rotated shape collides at the current anchor, in which case the
    /// shape is kept.  A no-op while paused, while a clear is pending,
    /// or once the game is over.
    pub fn rotate_right(&mut self)
        requires
            old(self).wf(),
        ensures
            final(self).wf(),
            old(self).game_over || old(self).paused || old(self).clearing() ==> *final(self)
                == *old(self),
            !(old(self).game_over || old(self).paused || old(self).clearing()) ==> match old(
                self,
            ).current_piece {
                None => *final(self) == *old(self),
                Some(p) => {
                    let ns = crate::piece::rotated_cw(p.shape_view());
                    if spec_collides(ns, p.x as int, p.y as int, grid(old(self).board)) {
                        *final(self) == *old(self)
                    } else {
                        &&& match final(self).current_piece {
                            Some(q) => q.shape_view() == ns && q.x == p.x && q.y == p.y && q.color
                                == p.color,
                            None => false,
                        }
                        &&& (*final(self) == Tetris {
                            current_piece: final(self).current_piece,
                            ..(*old(self))
                        })
                    }
                },
            },
    {
        if self.game_over || self.paused {
            return ;
        }
        if self.clearing_lines.len() > 0 {
            return ;
        }
        match &mut self.current_piece {
            Some(piece) => {
                let ns = crate::piece::rotate(&piece.shape, 1);
                proof {
                    crate::piece::lemma_rotate_wf(piece.shape_view());
                    lemma_wf_small(grid(ns));
                }
                if !crate::board::collides_at(&ns, piece.x, piece.y, &self.board) {
                    piece.shape = ns;
                    proof {
                        lemma_no_collide_in_bounds(*piece, grid(self.board));
                    }
                }
            },
            None => {},
        }
    }

    /// Drops the active piece to the lowest position at which the next
    /// row down would collide, then locks it there (merge, clear
    /// detection, promotion, spawn).  The game-over outcome is not
    /// returned; it is observable through `is_game_over`.  A no-op while
    /// paused, while a clear is pending, or once the game is over.
    pub fn drop(&mut self)
        requires
            old(self).wf(),
        ensures
            final(self).wf(),
            old(self).game_over || old(self).paused || old(self).clearing() ==> *final(self)
                == *old(self),
            !(old(self).game_over || old(self).paused || old(self).clearing()) ==> match old(
                self,
            ).current_piece {
                None => *final(self) == *old(self),
                Some(p) => exists|fy: int|
                    {
                        &&& p.y <= fy <= 19
                        &&& #[trigger] spec_collides(
                            p.shape_view(),
                            p.x as int,
                            fy + 1,
                            grid(old(self).board),
                        )
                        &&& forall|j: int|
                            p.y <= j < fy ==> !#[trigger] spec_collides(
                                p.shape_view(),
                                p.x as int,
                                j + 1,
                                grid(old(self).board),
                            )
                        &&& lock_step(
                            Tetris {
                                current_piece: Some(Piece { y: fy as i32, ..p }),
                                ..(*old(self))
                            },
                            *final(self),
                        )
                    },
            },
    {
        if self.game_over || self.paused {
            return ;
        }
        if self.clearing_lines.len() > 0 {
            return ;
        }
        match &mut self.current_piece {
            Some(piece) => {
                proof {
                    lemma_wf_small(piece.shape_view());
                    lemma_piece_pos_range(*piece);
                }
                let ghost p0 = *piece;
                let ghost b = grid(self.board);
                let mut temp_y = piece.y;
                loop
                    invariant_except_break
                        piece.wf(),
                        piece.in_bounds(),
                        shape_small(piece.shape_view()),
                        board_wf(b),
                        b == grid(self.board),
                        p0 == *piece,
                        p0.y <= temp_y <= 19,
                        temp_y == p0.y || !spec_collides(
                            p0.shape_view(),
                            p0.x as int,
                            temp_y as int,
                            b,
                        ),
                        forall|j: int|
                            p0.y <= j < temp_y ==> !#[trigger] spec_collides(
                                p0.shape_view(),
                                p0.x as int,
                                j + 1,
                                b,
                            ),
                    ensures
                        p0 == *piece,
                        b == grid(self.board),
                        p0.y <= temp_y <= 19,
                        spec_collides(p0.shape_view(), p0.x as int, temp_y + 1, b),
                        temp_y == p0.y || !spec_collides(
                            p0.shape_view(),
                            p0.x as int,
                            temp_y as int,
                            b,
                        ),
                        forall|j: int|
                            p0.y <= j < temp_y ==> !#[trigger] spec_collides(
                                p0.shape_view(),
                                p0.x as int,
                                j + 1,
                                b,
                            ),
                    decreases 19 - temp_y,
                {
                    if crate::board::collides_at(&piece.shape, piece.x, temp_y + 1, &self.board) {
                        break ;
                    }
                    proof {
                        let s = p0.shape_view();
                        let (r0, c0) = choose|r: int, c: int|
                            0 <= r < s.len() && 0 <= c < s[0].len() && #[trigger] s[r][c] == 1;
                        assert(occupied(s, r0, c0));
                        assert(!crate::board::cell_blocked(b, p0.x + c0, temp_y + 1 + r0));
                    }
                    temp_y = temp_y + 1;
                }
                piece.y = temp_y;
                proof {
                    let q = *piece;
                    assert forall|r: int, c: int| occupied(q.shape_view(), r, c) implies 0 <= q.x
                        + c < BOARD_WIDTH && q.y + r < BOARD_HEIGHT by {
                        if temp_y == p0.y {
                            assert(p0.in_bounds());
                        } else {
                            assert(!(occupied(q.shape_view(), r, c) && crate::board::cell_blocked(
                                b,
                                q.x + c,
                                q.y + r,
                            )));
                        }
                    }
                }
            },
            None => {
                return ;
            },
        }
        self.lock_current();
    }

    /// Advances the clear animation by `delta_ms` thousandths of a time
    /// unit.  A no-op while no clear is pending or once the game is
    /// over.  When the accumulated progress reaches the clear duration,
    /// the marked rows leave the board, the rows above slide down in
    /// order, one fully empty row enters at the top for each removed
    /// row, and the pending set and the progress reset.
    pub fn update_clearing_animation(&mut self, delta_ms: u32)
        requires
            old(self).wf(),
        ensures
            final(self).wf(),
            old(self).game_over ==> *final(self) == *old(self),
            !old(self).game_over && !old(self).clearing() ==> *final(self) == *old(self),
            !old(self).game_over && old(self).clearing() && old(self).clearing_animation_progress
                + delta_ms < CLEAR_DURATION_MS ==> (*final(self) == Tetris {
                clearing_animation_progress: (old(self).clearing_animation_progress
                    + delta_ms) as u32,
                ..(*old(self))
            }),
            !old(self).game_over && old(self).clearing() && old(self).clearing_animation_progress
                + delta_ms >= CLEAR_DURATION_MS ==> {
                &&& grid(final(self).board) == cleared_board(
                    grid(old(self).board),
                    old(self).clearing_lines@,
                )
                &&& final(self).clearing_lines@.len() == 0
                &&& final(self).clearing_animation_progress == 0
                &&& (*final(self) == Tetris {
                    board: final(self).board,
                    clearing_lines: final(self).clearing_lines,
                    clearing_animation_progress: 0,
                    ..(*old(self))
                })
            },
    {
        if self.game_over {
            return ;
        }
        if self.clearing_lines.len() == 0 {
            return ;
        }
        let remaining = CLEAR_DURATION_MS - self.clearing_animation_progress;
        if delta_ms < remaining {
            self.clearing_animation_progress = self.clearing_animation_progress + delta_ms;
            return ;
        }
        let ghost b0 = grid(self.board);
        let ghost cl = self.clearing_lines@;
        let mut kept: Vec<Vec<u8>> = Vec::new();
        let h = self.height;
        for y in 0..h
            invariant
                h == BOARD_HEIGHT,
                self.wf(),
                *self == *old(self),
                b0 == grid(self.board),
                cl == self.clearing_lines@,
                grid(kept) == rows_kept(b0, cl, y as int),
        {
            if !contains_row(&self.clearing_lines, y) {
                proof {
                    assert(grid(self.board)[y as int].len() == BOARD_WIDTH);
                }
                let row = clone_row(&self.board[y]);
                kept.push(row);
                proof {
                    assert(grid(kept) =~= rows_kept(b0, cl, y + 1));
                }
            }
        }
        proof {
            lemma_rows_kept_rows(b0, cl, BOARD_HEIGHT as int);
        }
        let mut nb: Vec<Vec<u8>> = Vec::new();
        let pad = BOARD_HEIGHT - kept.len();
        for i in 0..pad
            invariant
                pad == BOARD_HEIGHT - kept@.len(),
                nb@.len() == i,
                forall|k: int| 0 <= k < i ==> (#[trigger] nb@[k])@ == empty_row(),
        {
            nb.push(make_empty_row());
        }
        nb.append(&mut kept);
        self.board = nb;
        self.clearing_lines = Vec::new();
        self.clearing_animation_progress = 0;
        proof {
            assert(grid(self.board) =~~= cleared_board(b0, cl));
            assert forall|i: int| 0 <= i < grid(self.board).len() implies (#[trigger] grid(
                self.board,
            )[i]).len() == BOARD_WIDTH && forall|c: int|
                0 <= c < BOARD_WIDTH ==> grid(self.board)[i][c] <= 6 by {
                if i >= pad {
                    let kk = rows_kept(b0, cl, BOARD_HEIGHT as int);
                    assert(grid(self.board)[i] == kk[i - pad]);
                    let j = choose|j: int|
                        0 <= j < BOARD_HEIGHT && #[trigger] kk[i - pad] == b0[j];
                    assert(b0[j].len() == BOARD_WIDTH);
                }
            }
        }
    }

    /// Resumes the engine.  A no-op once the game is over.
    pub fn unpause(&mut self)
        requires
            old(self).wf(),
        ensures
            final(self).wf(),
            old(self).game_over ==> *final(self) == *old(self),
            !old(self).game_over ==> (*final(self) == Tetris { paused: false, ..(*old(self)) }),
    {
        if self.game_over {
            return ;
        }
        self.paused = false;
    }
}

} // verus!
