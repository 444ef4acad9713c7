use sprite_video_renderer::sprite::{Direction, sprite_cell};

#[test]
fn sheet_column_indices() {
    assert_eq!(Direction::Down.column_index(), 1);
    assert_eq!(Direction::Up.column_index(), 4);
    assert_eq!(Direction::Left.column_index(), 6);
    assert_eq!(Direction::Right.column_index(), 8);
}

#[test]
fn short_sheet_column_indices() {
    assert_eq!(Direction::Down.column_index_short(), 0);
    assert_eq!(Direction::Up.column_index_short(), 1);
    assert_eq!(Direction::Left.column_index_short(), 2);
    assert_eq!(Direction::Right.column_index_short(), 3);
}

#[test]
fn direction_follows_the_dominant_axis() {
    assert_eq!(Direction::from_movement(5, 0), Direction::Right);
    assert_eq!(Direction::from_movement(-5, 1), Direction::Left);
    assert_eq!(Direction::from_movement(0, 5), Direction::Down);
    assert_eq!(Direction::from_movement(1, -5), Direction::Up);
    // The vertical axis breaks ties.
    assert_eq!(Direction::from_movement(3, 3), Direction::Down);
    assert_eq!(Direction::from_movement(0, 0), Direction::Up);
}

#[test]
fn sprite_cells_follow_the_sheet_grid() {
    // A 16x16 sprite every 17 pixels, the grid starting at (9, 34).
    let cell = sprite_cell(2, Direction::Left);
    assert_eq!((cell.x, cell.y), (9 + 17 * 6, 34 + 17 * 2));
    assert_eq!((cell.width, cell.height), (16, 16));
    let cell = sprite_cell(0, Direction::Down);
    assert_eq!((cell.x, cell.y), (26, 34));
}
