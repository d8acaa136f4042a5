use tetris::Piece;
use tetris::Tetris;

fn setup_tetris() -> Tetris {
    let width = 10;
    let height = 20;
    let board = vec![vec![0; width]; height];
    let shapes = vec![
        vec![vec![1, 1, 1, 1]],             // I
        vec![vec![1, 1], vec![1, 1]],       // O
        vec![vec![1, 1, 1], vec![0, 1, 0]], // T
    ];
    Tetris {
        board,
        width,
        height,
        current_piece: None,
        next_piece: Tetris::create_piece(&shapes, Some(0)),
        score: 0,
        game_over: false,
        paused: false,
        cleared_lanes: 0,
        tetris_count: 0,
        triple_count: 0,
        double_count: 0,
        single_count: 0,
        clearing_lines: Vec::new(),
        clearing_animation_progress: 0,
    }
}

#[test]
fn test_create_piece() {
    let shapes = vec![vec![vec![1, 1, 1, 1]]];
    let piece = Tetris::create_piece(&shapes, Some(0));
    assert_eq!(piece.shape, vec![vec![1, 1, 1, 1]]);
    assert_eq!(piece.x, 2);
    assert_eq!(piece.y, 0);
    assert_eq!(piece.color, 1);
}

#[test]
fn test_move_left() {
    let mut tetris = setup_tetris();
    tetris.current_piece = Some(Piece {
        shape: vec![vec![1, 1]],
        x: 4,
        y: 0,
        color: 1,
    });
    tetris.move_left();
    assert_eq!(tetris.current_piece.as_ref().unwrap().x, 3);
    for _ in 0..3 {
        tetris.move_left();
    }
    assert_eq!(tetris.current_piece.as_ref().unwrap().x, 0);
    tetris.move_left();
    assert_eq!(tetris.current_piece.as_ref().unwrap().x, 0);
}

#[test]
fn test_move_down_and_merge() {
    let mut tetris = setup_tetris();
    tetris.current_piece = Some(Piece {
        shape: vec![vec![1, 1]],
        x: 4,
        y: 18,
        color: 1,
    });
    assert!(tetris.move_down());
    assert_eq!(tetris.current_piece.as_ref().unwrap().y, 19);
    assert!(tetris.move_down());
    assert!(tetris.current_piece.is_some());
    assert_eq!(tetris.board[19][4], 1);
    assert_eq!(tetris.board[19][5], 1);
}

#[test]
fn test_rotate_right() {
    let mut tetris = setup_tetris();
    tetris.current_piece = Some(Piece {
        shape: vec![vec![1, 1, 1], vec![0, 1, 0]],
        x: 4,
        y: 0,
        color: 1,
    });
    tetris.rotate_right();
    let expected_shape = vec![vec![0, 1], vec![1, 1], vec![0, 1]];
    assert_eq!(tetris.current_piece.as_ref().unwrap().shape, expected_shape);
}

#[test]
fn test_clear_lines() {
    let mut tetris = setup_tetris();
    // Clear 1 line
    tetris.board[19] = vec![1; 10];
    tetris.clear_lines();
    assert_eq!(tetris.clearing_lines, vec![19]);
    assert_eq!(tetris.score, 100);
    assert_eq!(tetris.cleared_lanes, 1);
    assert_eq!(tetris.single_count, 1);
    assert_eq!(tetris.double_count, 0);
    assert_eq!(tetris.triple_count, 0);
    assert_eq!(tetris.tetris_count, 0);

    // Finish animation (0.3 time units = 300 thousandths)
    tetris.update_clearing_animation(300);
    assert!(tetris.clearing_lines.is_empty());
    assert_eq!(tetris.board[19], vec![0; 10]);
    assert_eq!(tetris.board[0], vec![0; 10]);
}

#[test]
fn test_game_over() {
    let mut tetris = setup_tetris();
    for i in 0..8 {
        tetris.board[0][i] = 1;
    }
    tetris.current_piece = Some(Piece {
        shape: vec![vec![1, 1]],
        x: 8,
        y: 0,
        color: 1,
    });
    tetris.drop();
    assert!(tetris.is_game_over());
}
