use tetris::collides;
use tetris::piece::catalog;
use tetris::rotate;
use tetris::Piece;
use tetris::Tetris;

fn empty_engine() -> Tetris {
    Tetris::new()
}

#[test]
fn rotate_round_trip_all_catalog_shapes() {
    let shapes = catalog();
    for shape in &shapes {
        let cw_then_ccw = rotate(&rotate(shape, 1), -1);
        assert_eq!(&cw_then_ccw, shape);
        let ccw_then_cw = rotate(&rotate(shape, -1), 1);
        assert_eq!(&ccw_then_cw, shape);
    }
}

#[test]
fn rotate_clockwise_maps_cells() {
    let shape = vec![vec![1, 1, 1], vec![1, 0, 0]];
    assert_eq!(rotate(&shape, 1), vec![vec![1, 1], vec![0, 1], vec![0, 1]]);
    assert_eq!(rotate(&shape, -1), vec![vec![1, 0], vec![1, 0], vec![1, 1]]);
}

#[test]
fn collides_reports_walls_floor_and_overlap() {
    let engine = empty_engine();
    let mut piece = Piece {
        shape: vec![vec![1, 1]],
        x: 0,
        y: 0,
        color: 1,
    };
    assert!(!collides(&piece, &engine.board, 10, 20));
    piece.x = -1;
    assert!(collides(&piece, &engine.board, 10, 20));
    piece.x = 9;
    assert!(collides(&piece, &engine.board, 10, 20));
    piece.x = 8;
    assert!(!collides(&piece, &engine.board, 10, 20));
    piece.y = 20;
    assert!(collides(&piece, &engine.board, 10, 20));
    piece.y = 19;
    assert!(!collides(&piece, &engine.board, 10, 20));
    // A piece above the top edge does not collide by itself.
    piece.y = -1;
    assert!(!collides(&piece, &engine.board, 10, 20));
    // Overlap with an occupied cell.
    let mut engine = empty_engine();
    engine.board[5][3] = 2;
    let overlapping = Piece {
        shape: vec![vec![1, 1]],
        x: 3,
        y: 5,
        color: 1,
    };
    assert!(collides(&overlapping, &engine.board, 10, 20));
    let beside = Piece {
        shape: vec![vec![1, 1]],
        x: 4,
        y: 5,
        color: 1,
    };
    assert!(!collides(&beside, &engine.board, 10, 20));
}

#[test]
fn detect_twice_does_not_double_award() {
    let mut engine = empty_engine();
    engine.board[19] = vec![1; 10];
    engine.clear_lines();
    assert_eq!(engine.score, 100);
    assert_eq!(engine.single_count, 1);
    assert_eq!(engine.cleared_lanes, 1);
    // Re-entrant detection while rows are pending must change nothing.
    engine.clear_lines();
    assert_eq!(engine.score, 100);
    assert_eq!(engine.single_count, 1);
    assert_eq!(engine.cleared_lanes, 1);
    assert_eq!(engine.clearing_lines, vec![19]);
}

#[test]
fn four_row_clear_awards_tetris() {
    let mut engine = empty_engine();
    for y in 16..20 {
        engine.board[y] = vec![3; 10];
    }
    engine.clear_lines();
    assert_eq!(engine.clearing_lines, vec![16, 17, 18, 19]);
    assert_eq!(engine.score, 1000);
    assert_eq!(engine.tetris_count, 1);
    assert_eq!(engine.cleared_lanes, 4);
    engine.update_clearing_animation(300);
    assert!(engine.clearing_lines.is_empty());
    for y in 0..20 {
        assert_eq!(engine.board[y], vec![0; 10]);
    }
}

#[test]
fn double_and_triple_awards() {
    let mut engine = empty_engine();
    engine.board[18] = vec![1; 10];
    engine.board[19] = vec![2; 10];
    engine.clear_lines();
    assert_eq!(engine.score, 300);
    assert_eq!(engine.double_count, 1);
    engine.update_clearing_animation(300);

    let mut engine = empty_engine();
    engine.board[17] = vec![1; 10];
    engine.board[18] = vec![1; 10];
    engine.board[19] = vec![1; 10];
    engine.clear_lines();
    assert_eq!(engine.score, 600);
    assert_eq!(engine.triple_count, 1);
}

#[test]
fn clear_shifts_rows_down_in_order() {
    let mut engine = empty_engine();
    engine.board[17][2] = 4;
    engine.board[19] = vec![1; 10];
    engine.clear_lines();
    engine.update_clearing_animation(300);
    // Row 17's content slid down one row; a fresh empty row entered on top.
    assert_eq!(engine.board[18][2], 4);
    assert_eq!(engine.board[17][2], 0);
    assert_eq!(engine.board[0], vec![0; 10]);
    assert_eq!(engine.board.len(), 20);
}

#[test]
fn partial_animation_progress_accumulates() {
    let mut engine = empty_engine();
    engine.board[19] = vec![1; 10];
    engine.clear_lines();
    engine.update_clearing_animation(100);
    assert_eq!(engine.clearing_lines, vec![19]);
    assert_eq!(engine.clearing_animation_progress, 100);
    engine.update_clearing_animation(150);
    assert_eq!(engine.clearing_animation_progress, 250);
    assert!(!engine.clearing_lines.is_empty());
    engine.update_clearing_animation(50);
    assert!(engine.clearing_lines.is_empty());
    assert_eq!(engine.clearing_animation_progress, 0);
}

#[test]
fn animation_tick_without_pending_rows_is_noop() {
    let mut engine = empty_engine();
    engine.update_clearing_animation(300);
    assert_eq!(engine.clearing_animation_progress, 0);
    assert_eq!(engine.board[19], vec![0; 10]);
}

#[test]
fn merge_refuses_out_of_range_color() {
    let mut engine = empty_engine();
    engine.current_piece = Some(Piece {
        shape: vec![vec![1, 1]],
        x: 4,
        y: 19,
        color: 0,
    });
    engine.merge();
    assert_eq!(engine.board[19], vec![0; 10]);
    engine.current_piece = Some(Piece {
        shape: vec![vec![1, 1]],
        x: 4,
        y: 19,
        color: 7,
    });
    engine.merge();
    assert_eq!(engine.board[19], vec![0; 10]);
    engine.current_piece = Some(Piece {
        shape: vec![vec![1, 1]],
        x: 4,
        y: 19,
        color: 6,
    });
    engine.merge();
    assert_eq!(engine.board[19][4], 6);
    assert_eq!(engine.board[19][5], 6);
}

#[test]
fn move_right_stops_at_right_wall() {
    let mut engine = empty_engine();
    engine.current_piece = Some(Piece {
        shape: vec![vec![1, 1]],
        x: 4,
        y: 0,
        color: 1,
    });
    for _ in 0..10 {
        engine.move_right();
    }
    assert_eq!(engine.current_piece.as_ref().unwrap().x, 8);
}

#[test]
fn paused_engine_ignores_movement() {
    let mut engine = empty_engine();
    engine.current_piece = Some(Piece {
        shape: vec![vec![1, 1]],
        x: 4,
        y: 0,
        color: 1,
    });
    engine.pause();
    assert!(engine.is_paused());
    engine.move_left();
    engine.move_right();
    engine.rotate_left();
    engine.rotate_right();
    assert!(engine.move_down());
    engine.drop();
    let piece = engine.current_piece.as_ref().unwrap();
    assert_eq!(piece.x, 4);
    assert_eq!(piece.y, 0);
    assert_eq!(piece.shape, vec![vec![1, 1]]);
    engine.unpause();
    assert!(!engine.is_paused());
    engine.move_left();
    assert_eq!(engine.current_piece.as_ref().unwrap().x, 3);
}

#[test]
fn game_over_is_terminal() {
    let mut engine = empty_engine();
    for i in 0..8 {
        engine.board[0][i] = 1;
    }
    engine.current_piece = Some(Piece {
        shape: vec![vec![1, 1]],
        x: 8,
        y: 0,
        color: 1,
    });
    engine.drop();
    assert!(engine.is_game_over());
    // Subsequent soft drops report failure and change nothing.
    assert!(!engine.move_down());
    assert!(!engine.move_down());
    let x_before = engine.current_piece.as_ref().unwrap().x;
    engine.move_left();
    assert_eq!(engine.current_piece.as_ref().unwrap().x, x_before);
    let score_before = engine.get_score();
    engine.drop();
    assert_eq!(engine.get_score(), score_before);
}

#[test]
fn start_promotes_queued_piece_once() {
    let mut engine = empty_engine();
    assert!(engine.current_piece.is_none());
    engine.start();
    let promoted = engine.current_piece.as_ref().unwrap();
    // The queued piece was the I-piece generated at construction.
    assert_eq!(promoted.shape, vec![vec![1, 1, 1, 1]]);
    assert_eq!(promoted.x, 2);
    assert_eq!(promoted.y, 0);
    assert_eq!(promoted.color, 1);
    // Idempotent once a piece is active.
    engine.start();
    assert_eq!(engine.current_piece.as_ref().unwrap().y, 0);
    assert_eq!(engine.next_piece.shape, vec![vec![1, 1, 1, 1]]);
}

#[test]
fn new_engine_is_empty_and_idle() {
    let engine = Tetris::new();
    assert_eq!(engine.width, 10);
    assert_eq!(engine.height, 20);
    assert_eq!(engine.board.len(), 20);
    for row in &engine.board {
        assert_eq!(row, &vec![0; 10]);
    }
    assert!(engine.current_piece.is_none());
    assert_eq!(engine.get_score(), 0);
    assert!(!engine.is_game_over());
    assert!(!engine.is_paused());
    assert_eq!(engine.get_cleared_lanes(), 0);
    assert_eq!(engine.get_single_count(), 0);
    assert_eq!(engine.get_double_count(), 0);
    assert_eq!(engine.get_triple_count(), 0);
    assert_eq!(engine.get_tetris_count(), 0);
    assert!(engine.clearing_lines.is_empty());
    assert_eq!(engine.clearing_animation_progress, 0);
}

#[test]
fn locking_awards_score_at_detection_time() {
    let mut engine = empty_engine();
    // Fill row 19 except the two rightmost columns.
    for i in 0..8 {
        engine.board[19][i] = 1;
    }
    engine.current_piece = Some(Piece {
        shape: vec![vec![1, 1]],
        x: 8,
        y: 19,
        color: 2,
    });
    // The piece cannot fall further: it locks and row 19 fills.
    assert!(engine.move_down());
    assert_eq!(engine.clearing_lines, vec![19]);
    assert_eq!(engine.get_score(), 100);
    assert_eq!(engine.get_single_count(), 1);
    assert_eq!(engine.get_double_count(), 0);
    assert_eq!(engine.get_cleared_lanes(), 1);
    // Score was granted at detection; finishing the animation adds nothing.
    engine.update_clearing_animation(300);
    assert_eq!(engine.get_score(), 100);
    assert_eq!(engine.board[19][0], 0);
}

#[test]
fn movement_blocked_while_clearing() {
    let mut engine = empty_engine();
    engine.board[19] = vec![5; 10];
    engine.clear_lines();
    engine.current_piece = Some(Piece {
        shape: vec![vec![1, 1]],
        x: 4,
        y: 0,
        color: 1,
    });
    engine.move_left();
    engine.move_right();
    engine.rotate_left();
    engine.rotate_right();
    assert!(engine.move_down());
    engine.drop();
    let piece = engine.current_piece.as_ref().unwrap();
    assert_eq!(piece.x, 4);
    assert_eq!(piece.y, 0);
    assert_eq!(piece.shape, vec![vec![1, 1]]);
}

#[test]
fn create_piece_color_aliases_index_six() {
    let shapes = catalog();
    let first = Tetris::create_piece(&shapes, Some(0));
    let last = Tetris::create_piece(&shapes, Some(6));
    assert_eq!(first.color, 1);
    // (6 mod 6) + 1 aliases the seventh shape to the first color.
    assert_eq!(last.color, 1);
    let third = Tetris::create_piece(&shapes, Some(2));
    assert_eq!(third.color, 3);
    assert_eq!(third.x, 3);
    assert_eq!(third.shape, vec![vec![1, 1, 1], vec![0, 1, 0]]);
}

#[test]
fn rotate_commands_round_trip_on_open_board() {
    let mut engine = empty_engine();
    let original_shape = vec![vec![1, 1, 1], vec![0, 1, 0]];
    engine.current_piece = Some(Piece {
        shape: original_shape.clone(),
        x: 4,
        y: 5,
        color: 3,
    });
    engine.rotate_right();
    engine.rotate_left();
    assert_eq!(engine.current_piece.as_ref().unwrap().shape, original_shape);
    engine.rotate_left();
    engine.rotate_right();
    assert_eq!(engine.current_piece.as_ref().unwrap().shape, original_shape);
}

#[test]
fn piece_above_top_edge_falls_in() {
    let mut engine = empty_engine();
    engine.current_piece = Some(Piece {
        shape: vec![vec![1, 1], vec![1, 1]],
        x: 4,
        y: -1,
        color: 2,
    });
    assert!(engine.move_down());
    assert_eq!(engine.current_piece.as_ref().unwrap().y, 0);
}

#[test]
fn hard_drop_lands_on_floor() {
    let mut engine = empty_engine();
    engine.current_piece = Some(Piece {
        shape: vec![vec![1, 1], vec![1, 1]],
        x: 4,
        y: 0,
        color: 2,
    });
    engine.drop();
    // The two-row piece locked with its lower row on the floor.
    assert_eq!(engine.board[19][4], 2);
    assert_eq!(engine.board[19][5], 2);
    assert_eq!(engine.board[18][4], 2);
    assert_eq!(engine.board[17][4], 0);
    assert!(!engine.is_game_over());
    // The queued piece was promoted and a new one queued.
    assert!(engine.current_piece.is_some());
}
