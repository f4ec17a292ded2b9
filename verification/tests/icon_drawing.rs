use mysql_tray_controller::icon::{
    circle_fits, circle_pixels, darken, downsample_fits_check, downsample_rgba, lighten, pixel_offset,
    rounded_rect_fits_check, rounded_rect_pixels, status_icon_shapes, status_symbol_shapes,
    Shape, CANVAS_SIZE, ICON_SCALE, ICON_SIZE,
};
use mysql_tray_controller::state::MySqlState;

#[test]
fn lighten_saturates() {
    assert_eq!(lighten([46, 204, 113, 255], 38), [84, 242, 151, 255]);
    assert_eq!(lighten([241, 196, 15, 200], 38), [255, 234, 53, 200]);
}

#[test]
fn darken_saturates() {
    assert_eq!(darken([46, 204, 113, 255], 12), [34, 192, 101, 255]);
    assert_eq!(darken([5, 12, 200, 7], 12), [0, 0, 188, 7]);
}

#[test]
fn pixel_offsets() {
    assert_eq!(pixel_offset(128, 0, 0), Some(0));
    assert_eq!(pixel_offset(128, 3, 2), Some((2 * 128 + 3) * 4));
    assert_eq!(pixel_offset(128, 127, 127), Some((127 * 128 + 127) * 4));
    assert_eq!(pixel_offset(128, 128, 0), None);
    assert_eq!(pixel_offset(128, 0, 128), None);
    assert_eq!(pixel_offset(128, -1, 5), None);
    assert_eq!(pixel_offset(128, 5, -1), None);
    assert_eq!(pixel_offset(u32::MAX, 0, 0), None);
}

#[test]
fn small_circles() {
    assert_eq!(circle_pixels(5, 5, 0), vec![(5, 5)]);
    assert_eq!(circle_pixels(5, 5, 1), vec![(5, 4), (4, 5), (5, 5), (6, 5), (5, 6)]);
    assert!(circle_pixels(5, 5, -1).is_empty());
}

#[test]
fn circle_of_radius_three() {
    let pixels = circle_pixels(0, 0, 3);
    assert_eq!(pixels.len(), 29);
    for (x, y) in &pixels {
        assert!(x * x + y * y <= 9);
    }
    let mut sorted = pixels.clone();
    sorted.sort_by_key(|&(x, y)| (y, x));
    assert_eq!(sorted, pixels);
}

#[test]
fn square_corners_with_zero_radius() {
    let pixels = rounded_rect_pixels(1, 1, 3, 2, 0);
    assert_eq!(pixels, vec![(1, 1), (2, 1), (3, 1), (1, 2), (2, 2), (3, 2)]);
}

#[test]
fn rounded_corners_are_cut() {
    let pixels = rounded_rect_pixels(0, 0, 4, 4, 2);
    assert_eq!(pixels.len(), 13);
    assert!(!pixels.contains(&(0, 0)));
    assert!(!pixels.contains(&(4, 4)));
    assert!(pixels.contains(&(2, 0)));
    assert!(pixels.contains(&(0, 2)));
    assert!(pixels.contains(&(1, 1)));
}

#[test]
fn empty_rectangle() {
    assert!(rounded_rect_pixels(5, 0, 4, 3, 1).is_empty());
}

#[test]
fn fit_checks() {
    assert!(circle_fits(98, 99, 27));
    assert!(!circle_fits(i32::MAX, 0, 1));
    assert!(!circle_fits(0, 0, 40_000));
    assert!(rounded_rect_fits_check(89, 90, 107, 108, 3));
    assert!(!rounded_rect_fits_check(0, 0, 4, 4, 3));
    assert!(rounded_rect_fits_check(5, 0, 4, 3, 100));
}

#[test]
fn downsample_averages_blocks() {
    // A 2x2 canvas shrunk by 2 into a single pixel.
    let source = vec![
        10, 20, 30, 255, 20, 30, 40, 255, //
        30, 40, 50, 0, 41, 50, 60, 1,
    ];
    assert_eq!(downsample_rgba(&source, 2, 1, 2), vec![25, 35, 45, 127]);
}

#[test]
fn downsample_keeps_pixel_order() {
    // A 4x4 canvas with a distinct value per pixel, shrunk by 2 into 2x2.
    let mut source = Vec::new();
    for y in 0..4u8 {
        for x in 0..4u8 {
            let v = y * 4 + x;
            source.extend_from_slice(&[v, v, v, 255]);
        }
    }
    let output = downsample_rgba(&source, 4, 2, 2);
    // Blocks: (0,1,4,5) -> 2, (2,3,6,7) -> 4, (8,9,12,13) -> 10, (10,11,14,15) -> 12
    assert_eq!(
        output,
        vec![2, 2, 2, 255, 4, 4, 4, 255, 10, 10, 10, 255, 12, 12, 12, 255]
    );
}

#[test]
fn downsample_of_full_canvas() {
    let source = vec![200u8; (CANVAS_SIZE * CANVAS_SIZE * 4) as usize];
    let output = downsample_rgba(&source, CANVAS_SIZE, ICON_SIZE, ICON_SCALE);
    assert_eq!(output.len(), (ICON_SIZE * ICON_SIZE * 4) as usize);
    assert!(output.iter().all(|&b| b == 200));
    assert_eq!(downsample_rgba(&[], 0, 0, 0), Vec::<u8>::new());
}

#[test]
fn dark_canvas_with_huge_blocks() {
    let side: u32 = 4105;
    let source = vec![0u8; (side * side * 4) as usize];
    assert!(downsample_fits_check(&source, side, 1, side));
    assert_eq!(downsample_rgba(&source, side, 1, side), vec![0, 0, 0, 0]);
}

#[test]
fn overflowing_block_sums_are_refused() {
    let side: u32 = 4105;
    let source = vec![255u8; (side * side * 4) as usize];
    assert!(!downsample_fits_check(&source, side, 1, side));
    let side: u32 = 4104;
    let source = vec![255u8; (side * side * 4) as usize];
    assert!(downsample_fits_check(&source, side, 1, side));
}

#[test]
fn short_canvas_is_refused() {
    assert!(!downsample_fits_check(&[0u8; 15], 2, 1, 2));
    assert!(downsample_fits_check(&[0u8; 16], 2, 1, 2));
    assert!(!downsample_fits_check(&[0u8; 16], 2, 1, 0));
}

fn symbol_kinds(state: &MySqlState) -> Vec<&'static str> {
    status_symbol_shapes(state)
        .iter()
        .map(|s| match s {
            Shape::Database { .. } => "database",
            Shape::Ellipse { .. } => "ellipse",
            Shape::Arc { .. } => "arc",
            Shape::RoundedRect { .. } => "rect",
            Shape::Circle { .. } => "circle",
            Shape::ThickLine { .. } => "line",
        })
        .collect()
}

#[test]
fn status_symbols() {
    assert_eq!(symbol_kinds(&MySqlState::Running), vec!["line", "line"]);
    assert_eq!(symbol_kinds(&MySqlState::Stopped), vec!["rect"]);
    assert_eq!(symbol_kinds(&MySqlState::Pending), vec!["circle", "circle", "circle"]);
    assert_eq!(symbol_kinds(&MySqlState::Paused), vec!["rect", "rect"]);
    assert_eq!(symbol_kinds(&MySqlState::NotFound), vec!["rect", "circle"]);
    assert_eq!(symbol_kinds(&MySqlState::Error("x".to_string())), vec!["rect", "circle"]);
}

#[test]
fn icon_uses_the_state_color() {
    let shapes = status_icon_shapes(&MySqlState::Running);
    assert_eq!(shapes.len(), 11);
    match shapes[2] {
        Shape::Database { left, top, right, bottom, ellipse_height, color } => {
            assert_eq!((left, top, right, bottom, ellipse_height), (20, 21, 107, 107, 22));
            assert_eq!(color, [46, 204, 113, 255]);
        }
        _ => panic!("third shape should be the coloured drum"),
    }
    match shapes[3] {
        Shape::Ellipse { color, .. } => assert_eq!(color, [84, 242, 151, 255]),
        _ => panic!("fourth shape should be the lit top"),
    }
    match shapes[8] {
        Shape::Circle { center_x, center_y, radius, color } => {
            assert_eq!((center_x, center_y, radius), (98, 99, 21));
            assert_eq!(color, [34, 192, 101, 255]);
        }
        _ => panic!("ninth shape should be the badge"),
    }
}

#[test]
fn integer_shapes_of_every_icon_fit() {
    for state in [MySqlState::Running, MySqlState::Stopped, MySqlState::Paused, MySqlState::Pending, MySqlState::NotFound] {
        for shape in status_icon_shapes(&state) {
            match shape {
                Shape::Circle { center_x, center_y, radius, .. } => {
                    assert!(circle_fits(center_x, center_y, radius))
                }
                Shape::RoundedRect { left, top, right, bottom, radius, .. } => {
                    assert!(rounded_rect_fits_check(left, top, right, bottom, radius))
                }
                _ => {}
            }
        }
    }
}
