use togail::shape::{rotate_shape, Orientation, Position, Shape, ShapeType};

// ── cell counts ──────────────────────────────────────────────────────────

fn assert_positions_equal(a: &[Position], b: &[Position]) {
    assert_eq!(a.len(), b.len());
    assert!(b.iter().all(|it| a.contains(it)));
}

#[test]
fn i_piece_has_four_cells() {
    let shape = Shape::new(ShapeType::I, Orientation::North);
    let cells = shape.get_cells();
    assert_eq!(cells.len(), 4);
}

#[test]
fn o_piece_has_four_cells() {
    let shape = Shape::new(ShapeType::O, Orientation::North);
    let cells = shape.get_cells();
    assert_eq!(cells.len(), 4);
}

#[test]
fn t_piece_has_four_cells() {
    let shape = Shape::new(ShapeType::T, Orientation::North);
    let cells = shape.get_cells();
    assert_eq!(cells.len(), 4);
}

#[test]
fn s_piece_has_four_cells() {
    let shape = Shape::new(ShapeType::S, Orientation::North);
    let cells = shape.get_cells();
    assert_eq!(cells.len(), 4);
}

#[test]
fn z_piece_has_four_cells() {
    let shape = Shape::new(ShapeType::Z, Orientation::North);
    let cells = shape.get_cells();
    assert_eq!(cells.len(), 4);
}

#[test]
fn j_piece_has_four_cells() {
    let shape = Shape::new(ShapeType::J, Orientation::North);
    let cells = shape.get_cells();
    assert_eq!(cells.len(), 4);
}

#[test]
fn l_piece_has_four_cells() {
    let shape = Shape::new(ShapeType::L, Orientation::North);
    let cells = shape.get_cells();
    assert_eq!(cells.len(), 4);
}

// ── north orientation ────────────────────────────────────────────────────

#[test]
fn i_piece_north_is_vertical_line() {
    let shape = Shape::new(ShapeType::I, Orientation::North);
    let expected_positions = [
        Position::new(2, 0),
        Position::new(2, 1),
        Position::new(2, 2),
        Position::new(2, 3),
    ];
    assert_positions_equal(&shape.get_cells(), &expected_positions);
}

#[test]
fn o_piece_north_is_two_by_two_square() {
    let shape = Shape::new(ShapeType::O, Orientation::North);
    let expected_positions = [
        Position::new(0, 0),
        Position::new(1, 0),
        Position::new(0, 1),
        Position::new(1, 1),
    ];
    assert_positions_equal(&shape.get_cells(), &expected_positions);
}

#[test]
fn t_piece_north_is_t_shape() {
    let shape = Shape::new(ShapeType::T, Orientation::North);
    let expected_positions = [
        Position::new(1, 0),
        Position::new(0, 1),
        Position::new(1, 1),
        Position::new(2, 1),
    ];
    assert_positions_equal(&shape.get_cells(), &expected_positions);
}

#[test]
fn s_piece_north_is_s_shape() {
    let shape = Shape::new(ShapeType::S, Orientation::North);
    let expected_positions = [
        Position::new(1, 0),
        Position::new(2, 0),
        Position::new(0, 1),
        Position::new(1, 1),
    ];
    assert_positions_equal(&shape.get_cells(), &expected_positions);
}

#[test]
fn z_piece_north_is_z_shape() {
    let shape = Shape::new(ShapeType::Z, Orientation::North);
    let expected_positions = [
        Position::new(0, 0),
        Position::new(1, 0),
        Position::new(1, 1),
        Position::new(2, 1),
    ];
    assert_positions_equal(&shape.get_cells(), &expected_positions);
}

#[test]
fn j_piece_north_is_j_shape() {
    let shape = Shape::new(ShapeType::J, Orientation::North);
    let expected_positions = [
        Position::new(1, 0),
        Position::new(1, 1),
        Position::new(1, 2),
        Position::new(0, 2),
    ];
    assert_positions_equal(&shape.get_cells(), &expected_positions);
}

#[test]
fn l_piece_north_is_l_shape() {
    let shape = Shape::new(ShapeType::L, Orientation::North);
    let expected_positions = [
        Position::new(1, 0),
        Position::new(1, 1),
        Position::new(1, 2),
        Position::new(2, 2),
    ];
    assert_positions_equal(&shape.get_cells(), &expected_positions);
}

// ── rotation ─────────────────────────────────────────────────────────────

#[test]
fn rotating_i_four_times_does_not_change_shape() {
    let shape = Shape::new(ShapeType::I, Orientation::North);
    let shape_cells = shape.get_cells();
    let shape_size = ShapeType::I.shape_size();
    let new_cells = rotate_shape(
        rotate_shape(
            rotate_shape(rotate_shape(shape_cells, shape_size), shape_size),
            shape_size,
        ),
        shape_size,
    );
    assert_positions_equal(&new_cells, &shape_cells);
}

#[test]
fn rotating_i_east_gives_horizontal_line() {
    let shape = Shape::new(ShapeType::I, Orientation::East);
    let expected_positions = [
        Position::new(3, 2),
        Position::new(2, 2),
        Position::new(1, 2),
        Position::new(0, 2),
    ];
    let obs = shape.get_cells();
    assert_positions_equal(&obs, &expected_positions);
}

#[test]
fn rotating_i_south_gives_vertical_line_again() {
    let shape = Shape::new(ShapeType::I, Orientation::South);
    let expected_positions = [
        Position::new(1, 0),
        Position::new(1, 1),
        Position::new(1, 2),
        Position::new(1, 3),
    ];
    let obs = shape.get_cells();
    assert_positions_equal(&obs, &expected_positions);
}

#[test]
fn rotating_i_west_gives_horizontal_line_again() {
    let shape = Shape::new(ShapeType::I, Orientation::West);
    let expected_positions = [
        Position::new(0, 1),
        Position::new(1, 1),
        Position::new(2, 1),
        Position::new(3, 1),
    ];
    let obs = shape.get_cells();
    assert_positions_equal(&obs, &expected_positions);
}

#[test]
fn rotating_o_four_times_does_not_change_shape_any_time() {
    let shape_type = ShapeType::O;
    let shape_size = shape_type.shape_size();
    let shape = Shape::new(shape_type, Orientation::North);
    let shape_cells = shape.get_cells();
    let first_rotation = rotate_shape(shape_cells, shape_size);
    let second_rotation = rotate_shape(first_rotation, shape_size);
    let third_rotation = rotate_shape(second_rotation, shape_size);
    let forth_rotation = rotate_shape(third_rotation, shape_size);
    assert_positions_equal(&first_rotation, &shape_cells);
    assert_positions_equal(&second_rotation, &first_rotation);
    assert_positions_equal(&third_rotation, &second_rotation);
    assert_positions_equal(&forth_rotation, &third_rotation);
}

#[test]
fn rotating_z_four_times_does_not_change_shape() {
    let shape_type = ShapeType::Z;
    let shape_size = shape_type.shape_size();
    let shape = Shape::new(ShapeType::Z, Orientation::North);
    let shape_cells = shape.get_cells();
    let new_cells = rotate_shape(
        rotate_shape(
            rotate_shape(rotate_shape(shape_cells, shape_size), shape_size),
            shape_size,
        ),
        shape_size,
    );
    assert_positions_equal(&new_cells, &shape_cells);
}

#[test]
fn rotating_z_east_gives_right_cells() {
    let shape_type = ShapeType::Z;
    let shape = Shape::new(shape_type, Orientation::East);
    let expected_positions = [
        Position::new(2, 0),
        Position::new(1, 1),
        Position::new(2, 1),
        Position::new(1, 2),
    ];
    let obs = shape.get_cells();
    assert_positions_equal(&obs, &expected_positions);
}

#[test]
fn rotating_z_south_gives_right_cells() {
    let shape_type = ShapeType::Z;
    let shape = Shape::new(shape_type, Orientation::South);
    let expected_positions = [
        Position::new(0, 1),
        Position::new(1, 1),
        Position::new(1, 2),
        Position::new(2, 2),
    ];
    let obs = shape.get_cells();
    assert_positions_equal(&obs, &expected_positions);
}

#[test]
fn rotating_z_west_gives_right_cells() {
    let shape_type = ShapeType::Z;
    let shape = Shape::new(shape_type, Orientation::West);
    let expected_positions = [
        Position::new(1, 0),
        Position::new(0, 1),
        Position::new(1, 1),
        Position::new(0, 2),
    ];
    let obs = shape.get_cells();
    assert_positions_equal(&obs, &expected_positions);
}

#[test]
fn rotating_s_east_gives_right_cells() {
    let shape = Shape::new(ShapeType::S, Orientation::East);
    let expected = [
        Position::new(1, 0),
        Position::new(1, 1),
        Position::new(2, 1),
        Position::new(2, 2),
    ];
    assert_positions_equal(&shape.get_cells(), &expected);
}

#[test]
fn rotating_s_south_gives_right_cells() {
    let shape = Shape::new(ShapeType::S, Orientation::South);
    let expected = [
        Position::new(0, 2),
        Position::new(1, 1),
        Position::new(1, 2),
        Position::new(2, 1),
    ];
    assert_positions_equal(&shape.get_cells(), &expected);
}

#[test]
fn rotating_s_west_gives_right_cells() {
    let shape = Shape::new(ShapeType::S, Orientation::West);
    let expected = [
        Position::new(0, 0),
        Position::new(0, 1),
        Position::new(1, 1),
        Position::new(1, 2),
    ];
    assert_positions_equal(&shape.get_cells(), &expected);
}

#[test]
fn rotating_t_east_gives_right_cells() {
    let shape = Shape::new(ShapeType::T, Orientation::East);
    let expected = [
        Position::new(1, 0),
        Position::new(1, 1),
        Position::new(1, 2),
        Position::new(2, 1),
    ];
    assert_positions_equal(&shape.get_cells(), &expected);
}

#[test]
fn rotating_t_south_gives_right_cells() {
    let shape = Shape::new(ShapeType::T, Orientation::South);
    let expected = [
        Position::new(0, 1),
        Position::new(1, 1),
        Position::new(1, 2),
        Position::new(2, 1),
    ];
    assert_positions_equal(&shape.get_cells(), &expected);
}

#[test]
fn rotating_t_west_gives_right_cells() {
    let shape = Shape::new(ShapeType::T, Orientation::West);
    let expected = [
        Position::new(0, 1),
        Position::new(1, 0),
        Position::new(1, 1),
        Position::new(1, 2),
    ];
    assert_positions_equal(&shape.get_cells(), &expected);
}

#[test]
fn rotating_j_east_gives_right_cells() {
    let shape = Shape::new(ShapeType::J, Orientation::East);
    let expected = [
        Position::new(0, 0),
        Position::new(0, 1),
        Position::new(1, 1),
        Position::new(2, 1),
    ];
    assert_positions_equal(&shape.get_cells(), &expected);
}

#[test]
fn rotating_j_south_gives_right_cells() {
    let shape = Shape::new(ShapeType::J, Orientation::South);
    let expected = [
        Position::new(1, 0),
        Position::new(1, 1),
        Position::new(1, 2),
        Position::new(2, 0),
    ];
    assert_positions_equal(&shape.get_cells(), &expected);
}

#[test]
fn rotating_j_west_gives_right_cells() {
    let shape = Shape::new(ShapeType::J, Orientation::West);
    let expected = [
        Position::new(0, 1),
        Position::new(1, 1),
        Position::new(2, 1),
        Position::new(2, 2),
    ];
    assert_positions_equal(&shape.get_cells(), &expected);
}

#[test]
fn rotating_l_east_gives_right_cells() {
    let shape = Shape::new(ShapeType::L, Orientation::East);
    let expected = [
        Position::new(0, 1),
        Position::new(0, 2),
        Position::new(1, 1),
        Position::new(2, 1),
    ];
    assert_positions_equal(&shape.get_cells(), &expected);
}

#[test]
fn rotating_l_south_gives_right_cells() {
    let shape = Shape::new(ShapeType::L, Orientation::South);
    let expected = [
        Position::new(0, 0),
        Position::new(1, 0),
        Position::new(1, 1),
        Position::new(1, 2),
    ];
    assert_positions_equal(&shape.get_cells(), &expected);
}

#[test]
fn rotating_l_west_gives_right_cells() {
    let shape = Shape::new(ShapeType::L, Orientation::West);
    let expected = [
        Position::new(0, 1),
        Position::new(1, 1),
        Position::new(2, 0),
        Position::new(2, 1),
    ];
    assert_positions_equal(&shape.get_cells(), &expected);
}
