use particle_interference::pixelate::fit_to_brightness;
use particle_interference::pixelate::pixelate_frame;
use particle_interference::pixelate::Rect;

fn square(x: i32, y: i32, side: i32) -> Rect {
    Rect { x, y, width: side, height: side }
}

#[test]
fn squares_tile_the_frame_row_by_row() {
    assert_eq!(
        pixelate_frame(4, 4, 2, 0),
        Some(vec![square(0, 0, 2), square(2, 0, 2), square(0, 2, 2), square(2, 2, 2)])
    );
    assert_eq!(
        pixelate_frame(6, 2, 2, 0),
        Some(vec![square(0, 0, 2), square(2, 0, 2), square(4, 0, 2)])
    );
}

#[test]
fn only_whole_squares_are_laid_out() {
    assert_eq!(
        pixelate_frame(5, 3, 2, 0),
        Some(vec![square(0, 0, 2), square(2, 0, 2)])
    );
    assert_eq!(pixelate_frame(1, 1, 2, 0), Some(Vec::new()));
    assert_eq!(pixelate_frame(0, 0, 1, 0), Some(Vec::new()));
    assert_eq!(pixelate_frame(-4, 10, 2, 0), Some(Vec::new()));
    assert_eq!(pixelate_frame(2, 2, 2, 0), Some(vec![square(0, 0, 2)]));
}

#[test]
fn spacing_moves_the_squares_apart() {
    assert_eq!(
        pixelate_frame(8, 3, 2, 1),
        Some(vec![square(0, 0, 2), square(3, 0, 2), square(6, 0, 2)])
    );
    assert_eq!(
        pixelate_frame(5, 5, 2, 1),
        Some(vec![square(0, 0, 2), square(3, 0, 2), square(0, 3, 2), square(3, 3, 2)])
    );
    // A negative spacing lets the squares overlap.
    assert_eq!(
        pixelate_frame(4, 2, 2, -1),
        Some(vec![square(0, 0, 2), square(1, 0, 2), square(2, 0, 2)])
    );
}

#[test]
fn there_is_no_grid_without_a_positive_size_and_stride() {
    assert_eq!(pixelate_frame(10, 10, 0, 1), None);
    assert_eq!(pixelate_frame(10, 10, -1, 5), None);
    assert_eq!(pixelate_frame(10, 10, 2, -2), None);
    assert_eq!(pixelate_frame(10, 10, 2, -3), None);
    assert_eq!(pixelate_frame(10, 10, i32::MIN, i32::MIN), None);
    assert_eq!(pixelate_frame(10, 10, i32::MAX, i32::MIN), None);
}

#[test]
fn grid_at_the_ends_of_the_range() {
    assert_eq!(
        pixelate_frame(i32::MAX, i32::MAX, i32::MAX, i32::MAX),
        Some(vec![square(0, 0, i32::MAX)])
    );
    assert_eq!(
        pixelate_frame(i32::MAX, 1, i32::MAX - 1, 0).map(|cells| cells.len()),
        Some(0)
    );
    assert_eq!(
        pixelate_frame(i32::MAX, 1, 1, i32::MAX - 2),
        Some(vec![square(0, 0, 1), square(i32::MAX - 1, 0, 1)])
    );
    assert_eq!(
        pixelate_frame(i32::MAX, 1, 1, i32::MAX - 1),
        Some(vec![square(0, 0, 1)])
    );
}

#[test]
fn a_black_cell_keeps_its_side_and_a_white_one_shrinks_to_a_pixel() {
    let cell = square(20, 30, 10);
    assert_eq!(fit_to_brightness(cell, 0), square(15, 25, 10));
    assert_eq!(fit_to_brightness(cell, 255), square(20, 30, 1));
}

#[test]
fn fitted_side_follows_the_brightness() {
    let cell = square(100, 100, 10);
    // side = 1 + ((255 - brightness) * 9) / 255
    assert_eq!(fit_to_brightness(cell, 128), square(98, 98, 5));
    assert_eq!(fit_to_brightness(cell, 127), square(98, 98, 5));
    assert_eq!(fit_to_brightness(cell, 1), square(96, 96, 9));
    assert_eq!(fit_to_brightness(cell, 254), square(100, 100, 1));
    assert_eq!(fit_to_brightness(cell, 226), square(99, 99, 2));
    assert_eq!(fit_to_brightness(cell, 227), square(100, 100, 1));
    assert_eq!(fit_to_brightness(square(0, 0, 1), 0), square(0, 0, 1));
    assert_eq!(fit_to_brightness(square(0, 0, 1), 200), square(0, 0, 1));
}

#[test]
fn fitted_square_of_the_largest_cell() {
    let cell = square(0, 0, i32::MAX);
    assert_eq!(
        fit_to_brightness(cell, 0),
        square(-(i32::MAX / 2), -(i32::MAX / 2), i32::MAX)
    );
    assert_eq!(fit_to_brightness(cell, 255), square(0, 0, 1));
}
