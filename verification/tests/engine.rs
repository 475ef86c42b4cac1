use tetris_core::board::show_cells;
use tetris_core::board::Board;
use tetris_core::board::CellState;
use tetris_core::board::CellState::E;
use tetris_core::board::CellState::F;
use tetris_core::tetromino::detect_collision;
use tetris_core::tetromino::drop_tetro;
use tetris_core::tetromino::Collision::Block;
use tetris_core::tetromino::Collision::Bottom;
use tetris_core::tetromino::Shape;
use tetris_core::tetromino::Tetromino;

#[test]
fn detect_collision_test() {
    let mut board = Board::default();
    board.placed = [[E; 10]; 20];
    board.placed[18] = [F; 10];
    let tetro = Tetromino {
        structure: Shape::Square.get_structure(),
        queue: Vec::new(),
        progress: 1,
        shift: 3,
    };
    let tetro2 = Tetromino {
        structure: Shape::Straight.get_structure(),
        queue: Vec::new(),
        progress: 1,
        shift: 3,
    };
    let tetro3 = Tetromino {
        structure: Shape::L.get_structure(),
        queue: Vec::new(),
        progress: 19,
        shift: 3,
    };

    assert_eq!(Some(Block), detect_collision(&board, &tetro));
    assert_eq!(Some(Block), detect_collision(&board, &tetro2));
    assert_eq!(Some(Bottom), detect_collision(&board, &tetro3));
}

fn catalog() -> [(Shape, [[CellState; 4]; 4]); 7] {
    [
        (
            Shape::Straight,
            [[E, E, E, E], [E, E, E, E], [E, E, E, E], [F, F, F, F]],
        ),
        (
            Shape::Square,
            [[E, E, E, E], [E, E, E, E], [E, F, F, E], [E, F, F, E]],
        ),
        (
            Shape::T,
            [[E, E, E, E], [E, E, E, E], [E, F, E, E], [F, F, F, E]],
        ),
        (
            Shape::L,
            [[E, E, E, E], [E, F, F, E], [E, F, E, E], [E, F, E, E]],
        ),
        (
            Shape::Skew,
            [[E, E, E, E], [E, E, E, E], [F, F, E, E], [E, F, F, E]],
        ),
        (
            Shape::LMir,
            [[E, E, E, E], [E, F, F, E], [E, E, F, E], [E, E, F, E]],
        ),
        (
            Shape::SkewMir,
            [[E, E, E, E], [E, E, E, E], [E, F, F, E], [F, F, E, E]],
        ),
    ]
}

#[test]
fn shape_structures_match_catalog() {
    for (shape, expected) in catalog() {
        assert_eq!(expected, shape.get_structure());
    }
}

#[test]
fn bag_draws_all_seven_without_repeat() {
    let mut tetro = Tetromino {
        structure: Shape::Straight.get_structure(),
        queue: Vec::new(),
        progress: 0,
        shift: 3,
    };
    let mut drawn: Vec<[[CellState; 4]; 4]> = Vec::new();
    for _ in 0..7 {
        tetro.next_tetro();
        drawn.push(tetro.structure);
    }
    assert!(tetro.queue.is_empty());
    // every catalog pattern shows up exactly once among the seven draws
    for (_, expected) in catalog() {
        let count = drawn.iter().filter(|st| **st == expected).count();
        assert_eq!(1, count);
    }
}

#[test]
fn new_spawns_with_defaults() {
    let tetro = Tetromino::new();
    assert_eq!(0, tetro.progress);
    assert_eq!(3, tetro.shift);
    assert_eq!(6, tetro.queue.len());
    let known = catalog()
        .iter()
        .any(|(_, expected)| *expected == tetro.structure);
    assert!(known);
}

#[test]
fn board_default_is_empty() {
    let board = Board::default();
    for r in 0..20 {
        for c in 0..10 {
            assert_eq!(E, board.placed[r][c]);
            assert_eq!(E, board.state[r][c]);
        }
    }
}

#[test]
fn drop_without_collision_advances() {
    let mut board = Board::default();
    let mut tetro = Tetromino {
        structure: Shape::Square.get_structure(),
        queue: Vec::new(),
        progress: 0,
        shift: 3,
    };
    drop_tetro(&mut board, &mut tetro);
    assert_eq!(1, tetro.progress);
    assert_eq!(3, tetro.shift);
    assert_eq!(Shape::Square.get_structure(), tetro.structure);
    assert!(tetro.queue.is_empty());
    for r in 0..20 {
        for c in 0..10 {
            assert_eq!(E, board.placed[r][c]);
        }
    }
}

#[test]
fn commit_resets_piece_and_fills_cells() {
    let mut board = Board::default();
    let mut tetro = Tetromino {
        structure: Shape::Square.get_structure(),
        queue: Vec::new(),
        progress: 18,
        shift: 3,
    };
    // advancing to progress 19 pushes the square's lowest cells past the
    // bottom, so this tick commits the piece at progress 18
    drop_tetro(&mut board, &mut tetro);

    assert_eq!(0, tetro.progress);
    assert_eq!(3, tetro.shift);
    assert_eq!(6, tetro.queue.len());
    let known = catalog()
        .iter()
        .any(|(_, expected)| *expected == tetro.structure);
    assert!(known);

    // the square occupied rows 0..2 at columns 4..6: exactly those cells of
    // `placed` are filled now
    for r in 0..20 {
        for c in 0..10 {
            let expected = if (r == 0 || r == 1) && (c == 4 || c == 5) {
                F
            } else {
                E
            };
            assert_eq!(expected, board.placed[r][c], "row {} col {}", r, c);
        }
    }
}

#[test]
fn view_overlays_piece_on_empty_board() {
    let mut board = Board::default();
    let tetro = Tetromino {
        structure: Shape::Square.get_structure(),
        queue: Vec::new(),
        progress: 0,
        shift: 3,
    };
    show_cells(&mut board, &tetro);
    for r in 0..20 {
        for c in 0..10 {
            let expected = if (r == 18 || r == 19) && (c == 4 || c == 5) {
                F
            } else {
                E
            };
            assert_eq!(expected, board.state[r][c], "row {} col {}", r, c);
            assert_eq!(E, board.placed[r][c]);
        }
    }
}

#[test]
fn out_of_range_shift_reports_collision() {
    let board = Board::default();
    let tetro = Tetromino {
        structure: Shape::L.get_structure(),
        queue: Vec::new(),
        progress: 0,
        shift: 9,
    };
    assert_eq!(Some(Block), detect_collision(&board, &tetro));
    let far = Tetromino {
        structure: Shape::Straight.get_structure(),
        queue: Vec::new(),
        progress: 0,
        shift: 1000,
    };
    assert_eq!(Some(Block), detect_collision(&board, &far));
}
