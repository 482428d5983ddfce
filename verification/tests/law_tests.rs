use togail::board::{Board, DropOutcome, Move, Rotation, SpawnOutcome};
use togail::display::{board_to_pixels, map_key, should_quit, Key, BLACK, WHITE};
use togail::game::{get_gravity, get_score, Game, GameState, ROWS_PER_LEVEL};
use togail::random::{get_random_shape_type, make_new_state};
use togail::shape::{rotate_shape, Orientation, Position, Shape, ShapeType};
use togail::{Input, COLS, GRAVITY_TICK, ROWS};

const ALL_TYPES: [ShapeType; 7] = [
    ShapeType::I,
    ShapeType::O,
    ShapeType::T,
    ShapeType::S,
    ShapeType::Z,
    ShapeType::J,
    ShapeType::L,
];

const ALL_ORIENTATIONS: [Orientation; 4] = [
    Orientation::North,
    Orientation::East,
    Orientation::South,
    Orientation::West,
];

fn piece_cells_on_board(board: &Board) -> Vec<(usize, usize)> {
    let shape = board.shape.unwrap();
    let pos = board.shape_position.unwrap();
    shape
        .cells_at(pos)
        .iter()
        .map(|c| {
            assert!(c.x >= 0 && (c.x as usize) < COLS);
            assert!(c.y >= 0 && (c.y as usize) < ROWS);
            (c.x as usize, c.y as usize)
        })
        .collect()
}

#[test]
fn four_quarter_turns_give_the_cells_back_in_order() {
    for t in ALL_TYPES {
        let cells = t.shape_cells();
        let size = t.shape_size();
        let back = rotate_shape(rotate_shape(rotate_shape(rotate_shape(cells, size), size), size), size);
        assert_eq!(back, cells);
    }
}

#[test]
fn one_quarter_turn_of_a_cell_has_the_exact_formula() {
    let turned = rotate_shape(
        [Position::new(0, 0), Position::new(1, 0), Position::new(2, 1), Position::new(0, 2)],
        3,
    );
    assert_eq!(
        turned,
        [Position::new(2, 0), Position::new(2, 1), Position::new(1, 2), Position::new(0, 0)]
    );
}

#[test]
fn clockwise_then_anti_clockwise_gives_the_same_shape() {
    for t in ALL_TYPES {
        for o in ALL_ORIENTATIONS {
            let shape = Shape::new(t, o);
            let mut turned = shape;
            turned.rotate_clockwise();
            turned.rotate_anti_clockwise();
            assert_eq!(turned, shape);
            let mut back = shape;
            back.rotate_anti_clockwise();
            back.rotate_clockwise();
            assert_eq!(back, shape);
        }
    }
}

#[test]
fn every_piece_covers_four_distinct_cells_of_its_box() {
    for t in ALL_TYPES {
        let size = t.shape_size() as isize;
        for o in ALL_ORIENTATIONS {
            let cells = Shape::new(t, o).get_cells();
            for i in 0..4 {
                assert!(0 <= cells[i].x && cells[i].x < size);
                assert!(0 <= cells[i].y && cells[i].y < size);
                for j in 0..i {
                    assert_ne!(cells[i], cells[j]);
                }
            }
        }
    }
}

#[test]
fn cells_at_adds_the_position_to_each_cell() {
    let shape = Shape::new(ShapeType::L, Orientation::East);
    let cells = shape.get_cells();
    let placed = shape.cells_at(Position::new(4, 7));
    for i in 0..4 {
        assert_eq!(placed[i], Position::new(cells[i].x + 4, cells[i].y + 7));
    }
    assert_eq!(Position::new(1, 2) + Position::new(-3, 5), Position::new(-2, 7));
}

#[test]
fn generator_never_reaches_zero() {
    let mut state = 0;
    for _ in 0..1000 {
        state = make_new_state(state);
        assert_ne!(state, 0);
    }
}

#[test]
fn generator_step_has_the_exact_xorshift_value() {
    assert_eq!(make_new_state(1), 1082269761);
    assert_eq!(make_new_state(0), make_new_state(1));
    let mut state = 1;
    let shape = get_random_shape_type(&mut state);
    assert_eq!(state, 1082269761);
    assert_eq!(1082269761u64 % 7, 6);
    assert_eq!(shape, ShapeType::O);
}

#[test]
fn pieces_spawn_centred_on_the_top_row() {
    let mut board = Board::default();
    assert_eq!(board.add_new_shape(ShapeType::I), SpawnOutcome::Spawned);
    assert_eq!(board.shape_position, Some(Position::new(3, 0)));
    let mut board = Board::default();
    board.add_new_shape(ShapeType::O);
    assert_eq!(board.shape_position, Some(Position::new(4, 0)));
    let mut board = Board::default();
    board.add_new_shape(ShapeType::T);
    assert_eq!(board.shape_position, Some(Position::new(3, 0)));
    assert_eq!(board.shape.unwrap().orientation, Orientation::North);
}

#[test]
fn moves_keep_the_piece_on_free_cells_and_the_ghost_where_it_would_land() {
    let mut board = Board::default();
    board.cells[ROWS - 1] = [true; COLS];
    board.cells[ROWS - 1][4] = false;
    board.cells[10][0] = true;
    board.add_new_shape(ShapeType::J);
    let moves = [
        Move::Left,
        Move::Left,
        Move::Left,
        Move::Left,
        Move::Drop,
        Move::Right,
        Move::Drop,
        Move::Right,
        Move::Right,
        Move::Right,
        Move::Right,
        Move::Right,
        Move::Right,
        Move::Right,
    ];
    for (k, m) in moves.iter().enumerate() {
        if k % 3 == 0 {
            board.rotate_shape(Rotation::Clockwise);
        }
        board.move_shape(*m);
        for (x, y) in piece_cells_on_board(&board) {
            assert!(!board.cells[y][x]);
        }
        let mut dropped = board;
        dropped.hard_drop();
        assert_eq!(dropped.shape_position, board.ghost_position);
        assert_eq!(dropped.drop_shape(), DropOutcome::Landed);
    }
}

#[test]
fn a_step_left_is_undone_by_a_step_right() {
    let mut board = Board::default();
    board.add_new_shape(ShapeType::S);
    let before = board;
    board.move_shape(Move::Left);
    assert_ne!(board, before);
    board.move_shape(Move::Right);
    assert_eq!(board, before);
    board.move_shape(Move::Right);
    board.move_shape(Move::Left);
    assert_eq!(board, before);
}

#[test]
fn clearing_rows_twice_clears_nothing_more() {
    let mut board = Board::default();
    board.cells[ROWS - 1] = [true; COLS];
    board.cells[ROWS - 2][3] = true;
    board.cells[ROWS - 3] = [true; COLS];
    board.cells[ROWS - 4][7] = true;
    assert_eq!(board.count_full_rows(), 2);
    assert_eq!(board.check_rows(), 2);
    let once = board;
    assert_eq!(board.count_full_rows(), 0);
    assert_eq!(board.check_rows(), 0);
    assert_eq!(board, once);
    let mut expected = [[false; COLS]; ROWS];
    expected[ROWS - 1][3] = true;
    expected[ROWS - 2][7] = true;
    assert_eq!(board.cells, expected);
}

#[test]
fn merging_settles_what_was_shown() {
    let mut board = Board::default();
    board.cells[ROWS - 1][0] = true;
    board.add_new_shape(ShapeType::L);
    board.hard_drop();
    let shown = board.render_cells();
    board.merge_shape();
    assert_eq!(board.cells, shown);
    assert!(board.shape.is_none());
    assert!(board.get_ghost().is_none());
}

#[test]
fn merge_without_position_changes_nothing() {
    let mut board = Board::default();
    board.shape = Some(Shape::new(ShapeType::T, Orientation::North));
    let before = board;
    board.merge_shape();
    assert_eq!(board, before);
}

#[test]
fn rotation_checks_say_when_a_move_can_be_computed() {
    let mut board = Board::default();
    assert!(!board.can_move(Move::Left));
    assert!(!board.can_rotate(Rotation::Clockwise));
    board.add_new_shape(ShapeType::T);
    assert!(board.can_move(Move::Left));
    assert!(board.can_rotate(Rotation::AntiClockwise));
    board.shape_position = Some(Position::new(isize::MAX, 0));
    assert!(!board.can_move(Move::Right));
    assert!(!board.can_rotate(Rotation::Clockwise));
    assert!(!board.piece_is_on_board());
    assert!(!board.is_well_formed());
}

#[test]
fn gravity_has_exact_values_and_decreases_with_level() {
    assert_eq!(get_gravity(0), GRAVITY_TICK);
    assert_eq!(get_gravity(1), 850);
    assert_eq!(get_gravity(2), 722);
    assert_eq!(get_gravity(3), 613);
    let mut previous = get_gravity(0);
    for level in 1..60 {
        let g = get_gravity(level);
        assert!(g <= previous);
        if previous > 0 {
            assert!(g < previous);
        }
        previous = g;
    }
    assert_eq!(get_gravity(100), 0);
}

#[test]
fn score_scales_with_level_exactly() {
    assert_eq!(get_score(9, 4), 8000);
    assert_eq!(get_score(4, 3), 2500);
    assert_eq!(get_score(7, 0), 0);
}

#[test]
fn new_at_level_sets_rows_and_gravity() {
    let game = Game::new_at_level(5, 2);
    assert_eq!(game.level, 2);
    assert_eq!(game.cleared_rows, 2 * ROWS_PER_LEVEL);
    assert_eq!(game.gravity_tick, 722);
    assert_eq!(game.shape_state, 5);
    assert_eq!(game.state, GameState::MakeNewShape);
    let game = Game::new(77);
    assert_eq!(game.shape_state, 77);
    assert_eq!(game.level, 0);
}

#[test]
fn game_over_keeps_board_and_score() {
    let mut game = Game::default();
    game.tick(&[], 1);
    game.state = GameState::GameOver;
    game.score = 300;
    let frame_before = game.get_frame().board;
    game.tick(&[Input::Left, Input::HardDrop, Input::Pause], 5000);
    assert_eq!(game.state, GameState::GameOver);
    assert_eq!(game.get_frame().board, frame_before);
    assert_eq!(game.score, 300);
    assert!(game.input_buffer.is_empty());
}

#[test]
fn score_and_cleared_rows_never_decrease_over_a_game() {
    let mut game = Game::new(12345);
    let mut score = game.score;
    let mut rows = game.cleared_rows;
    let pattern = [Input::Left, Input::RotateCw, Input::Right, Input::HardDrop, Input::SoftDrop];
    for k in 0..3000 {
        let inputs = [pattern[k % pattern.len()]];
        assert!(game.tick_is_defined(&inputs, 40));
        game.tick(&inputs, 40);
        assert!(game.score >= score);
        assert!(game.cleared_rows >= rows);
        assert!(!game.input_buffer.contains(&Input::Quit));
        assert!(game.board.is_well_formed());
        assert_eq!(game.gravity_tick, get_gravity(game.level));
        score = game.score;
        rows = game.cleared_rows;
    }
    assert_eq!(game.state, GameState::GameOver);
}

#[test]
fn clearing_a_row_scores_and_levels_up() {
    let mut game = Game::default();
    game.cleared_rows = ROWS_PER_LEVEL - 1;
    game.board.cells[ROWS - 1] = [true; COLS];
    game.state = GameState::CheckRows;
    game.tick(&[], 1);
    assert_eq!(game.score, 100);
    assert_eq!(game.cleared_rows, ROWS_PER_LEVEL);
    assert_eq!(game.state, GameState::CheckLevel);
    game.tick(&[], 1);
    assert_eq!(game.level, 1);
    assert_eq!(game.gravity_tick, 850);
    assert_eq!(game.state, GameState::MakeNewShape);
}

#[test]
fn pause_without_resume_keeps_the_board() {
    let mut game = Game::default();
    game.tick(&[], 1);
    game.tick(&[Input::Pause], 1);
    assert_eq!(game.state, GameState::Pause);
    let board = game.board;
    game.tick(&[Input::Left, Input::HardDrop], 5000);
    assert_eq!(game.state, GameState::Pause);
    assert_eq!(game.board, board);
    assert!(game.input_buffer.is_empty());
}

#[test]
fn inputs_wait_in_the_buffer_between_input_steps() {
    let mut game = Game::default();
    game.tick(&[], 1);
    game.state = GameState::DropShape;
    game.tick(&[Input::Left, Input::Right], 1);
    assert_eq!(game.input_buffer, vec![Input::Left, Input::Right]);
    game.state = GameState::MakeNewShape;
    game.tick(&[Input::Pause, Input::Left], 1);
    assert_eq!(game.input_buffer, vec![Input::Pause]);
}

#[test]
fn drop_step_resets_the_clock_and_lands_at_the_bottom() {
    let mut game = Game::default();
    game.tick(&[], 1);
    game.board.hard_drop();
    game.clock = 500;
    assert_eq!(game.drop_shape(), GameState::MergeShape);
    assert_eq!(game.clock, 0);
}

#[test]
fn quit_in_the_input_step_is_not_defined() {
    let mut game = Game::default();
    game.tick(&[], 1);
    assert!(game.tick_is_defined(&[Input::Left], 1));
    assert!(!game.tick_is_defined(&[Input::Quit], 1));
    assert!(game.tick_is_defined(&[Input::Pause, Input::Quit], 1));
    assert!(!game.tick_is_defined(&[], u32::MAX));
    let empty = Game {
        state: GameState::TakeInput,
        ..Default::default()
    };
    assert!(!empty.tick_is_defined(&[Input::Left], 1));
    assert!(empty.tick_is_defined(&[], 1));
}

#[test]
fn too_many_full_rows_at_once_are_not_defined() {
    let mut game = Game::default();
    for r in 0..5 {
        game.board.cells[ROWS - 1 - r] = [true; COLS];
    }
    game.state = GameState::CheckRows;
    assert!(!game.tick_is_defined(&[], 1));
    game.board.cells[ROWS - 5] = [false; COLS];
    assert!(game.tick_is_defined(&[], 1));
}

#[test]
fn frame_shows_the_ghost_cells() {
    let mut game = Game::default();
    game.tick(&[], 1);
    let frame = game.get_frame();
    let ghost = frame.ghost_piece.unwrap();
    let shape = game.board.shape.unwrap();
    let expected = shape.cells_at(game.board.ghost_position.unwrap());
    for i in 0..4 {
        assert_eq!(ghost[i], (expected[i].x as usize, expected[i].y as usize));
    }
}

#[test]
fn pixels_of_a_zero_scale_are_empty_and_quit_is_found_anywhere() {
    let board = [[true; COLS]; ROWS];
    assert!(board_to_pixels(&board, 0).is_empty());
    let mut board = [[false; COLS]; ROWS];
    board[ROWS - 1][COLS - 1] = true;
    let pixels = board_to_pixels(&board, 2);
    let width = COLS * 2;
    assert_eq!(pixels[(2 * ROWS - 1) * width + 2 * COLS - 1], WHITE);
    assert_eq!(pixels[(2 * ROWS - 3) * width + 2 * COLS - 1], BLACK);
    assert!(should_quit(&[Input::Pause, Input::Pause, Input::Quit]));
    assert!(!should_quit(&[Input::Pause]));
}

#[test]
fn unknown_and_unbound_keys_give_no_input() {
    assert!(map_key(Key::Unknown).is_none());
    assert!(map_key(Key::Count).is_none());
    assert!(map_key(Key::Enter).is_none());
    assert_eq!(map_key(Key::Q), Some(Input::Quit));
}
