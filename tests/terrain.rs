use terrain_gradient::geometry::{
    max_coord, min_coord, overlap_area, rect_from_subpixel, PixelRect, CELL_AREA, SUBDIV,
};
use terrain_gradient::grid::HeightGrid;
use terrain_gradient::raster::quantize;
use terrain_gradient::slope::SlopeVector;

fn grid(side: usize, cells: Vec<i32>) -> HeightGrid {
    HeightGrid::new(side, cells).expect("cell count matches side")
}

fn grid_from(f: impl Fn(usize, usize) -> i32, side: usize) -> HeightGrid {
    let mut cells = Vec::new();
    for j in 0..side {
        for i in 0..side {
            cells.push(f(i, j));
        }
    }
    grid(side, cells)
}

#[test]
fn rect_is_unit_square_around_centre() {
    let r = rect_from_subpixel(300, -40);
    assert_eq!(r, PixelRect { xmin: 172, xmax: 428, ymin: -168, ymax: 88 });
}

#[test]
fn min_and_max_pick_the_right_side() {
    assert_eq!(max_coord(3, -7), 3);
    assert_eq!(max_coord(-7, 3), 3);
    assert_eq!(min_coord(3, -7), -7);
    assert_eq!(min_coord(-7, 3), -7);
    assert_eq!(max_coord(5, 5), 5);
}

#[test]
fn overlap_is_symmetric() {
    let a = rect_from_subpixel(100, 30);
    let b = rect_from_subpixel(260, -50);
    assert_eq!(overlap_area(&a, &b), overlap_area(&b, &a));
    assert_eq!(overlap_area(&a, &b), 96 * 176);
}

#[test]
fn overlap_of_neighbours_is_zero() {
    let a = rect_from_subpixel(512, 512);
    assert_eq!(overlap_area(&a, &rect_from_subpixel(512 + SUBDIV, 512)), 0);
    assert_eq!(overlap_area(&a, &rect_from_subpixel(512, 512 + SUBDIV)), 0);
    assert_eq!(overlap_area(&a, &rect_from_subpixel(512 - SUBDIV, 512)), 0);
}

#[test]
fn overlap_with_itself_is_one_cell() {
    let a = rect_from_subpixel(77, -1234);
    assert_eq!(overlap_area(&a, &a), CELL_AREA);
    assert_eq!(CELL_AREA, SUBDIV * SUBDIV);
}

#[test]
fn overlap_of_half_shifted_squares_is_half_a_cell() {
    let a = rect_from_subpixel(0, 0);
    let b = rect_from_subpixel(128, 0);
    assert_eq!(overlap_area(&a, &b), CELL_AREA / 2);
}

#[test]
fn overlap_disjoint_on_both_axes_is_zero() {
    let a = rect_from_subpixel(0, 0);
    let b = rect_from_subpixel(1000, 1000);
    assert_eq!(overlap_area(&a, &b), 0);
}

#[test]
fn grid_with_wrong_cell_count_is_refused() {
    assert!(HeightGrid::new(3, vec![0; 8]).is_none());
    assert!(HeightGrid::new(2, vec![0; 5]).is_none());
    assert!(HeightGrid::new(0, vec![]).is_some());
    let g = grid(2, vec![1, 2, 3, 4]);
    assert_eq!(g.side(), 2);
}

#[test]
fn sample_at_cell_centre_is_cell_height() {
    let g = grid(3, vec![1, 2, 3, 4, 5, 6, 7, 8, 9]);
    for j in 0..3i64 {
        for i in 0..3i64 {
            let expected = (j * 3 + i + 1) * CELL_AREA;
            assert_eq!(g.get_subpixel_value(i * SUBDIV, j * SUBDIV), expected);
        }
    }
}

#[test]
fn sample_on_equal_block_is_the_shared_value() {
    let g = grid(2, vec![5, 5, 5, 5]);
    for (x, y) in [(64, 64), (192, 64), (64, 192), (192, 192)] {
        assert_eq!(g.get_subpixel_value(x, y), 5 * CELL_AREA);
    }
}

#[test]
fn sample_between_four_cells_blends_by_area() {
    let g = grid(2, vec![0, 10, 20, 30]);
    assert_eq!(g.get_subpixel_value(128, 128), 60 * 128 * 128);
    // A quarter of the way along x, three quarters along y.
    let expected = 0 * 192 * 64 + 10 * 64 * 64 + 20 * 192 * 192 + 30 * 64 * 192;
    assert_eq!(g.get_subpixel_value(64, 192), expected);
}

#[test]
fn sample_between_two_cells_blends_by_area() {
    let g = grid(2, vec![0, 10, 20, 30]);
    assert_eq!(g.get_subpixel_value(128, 0), 10 * 128 * 256);
    assert_eq!(g.get_subpixel_value(256, 64), (10 * 192 + 30 * 64) * 256);
}

#[test]
fn flat_grid_has_no_slope() {
    let g = grid_from(|_, _| 7, 5);
    for (x, y) in [(256, 256), (512, 768), (300, 400), (700, 256)] {
        let v = g.get_slope_vector(x, y);
        assert_eq!(v, SlopeVector { vx: 0, vy: 0 });
        assert_eq!(v.magnitude(), 0);
        assert!(!v.has_direction());
    }
}

#[test]
fn rising_x_grid_slopes_toward_minus_x() {
    let g = grid_from(|i, _| 3 * i as i32, 6);
    for j in 1..5i64 {
        for i in 1..5i64 {
            let v = g.get_slope_vector(i * SUBDIV, j * SUBDIV);
            assert_eq!(v, SlopeVector { vx: -6 * CELL_AREA, vy: 0 });
            let angle = (v.vy as f64).atan2(v.vx as f64);
            assert!((angle - std::f64::consts::PI).abs() < 1e-9);
        }
    }
    let v = g.get_slope_vector(300, 500);
    assert!(v.vx < 0);
    assert_eq!(v.vy, 0);
}

#[test]
fn peak_slopes_point_away() {
    let rows = [[0, 0, 0, 0], [0, 10, 0, 0], [0, 0, 0, 0], [0, 0, 0, 0]];
    let g = grid(4, rows.iter().flatten().copied().collect());
    // Right of the peak: downhill is +x.
    let right = g.get_slope_vector(2 * SUBDIV, SUBDIV);
    assert_eq!(right, SlopeVector { vx: 10 * CELL_AREA, vy: 0 });
    assert_eq!(right.magnitude(), 10 * CELL_AREA as u64);
    // Below the peak: downhill is +y.
    let below = g.get_slope_vector(SUBDIV, 2 * SUBDIV);
    assert_eq!(below, SlopeVector { vx: 0, vy: 10 * CELL_AREA });
    assert!(below.has_direction());
    // Diagonal from the peak: every neighbour is level.
    let diagonal = g.get_slope_vector(2 * SUBDIV, 2 * SUBDIV);
    assert_eq!(diagonal.magnitude(), 0);
    // On the peak: every neighbour is lower by the same amount.
    let top = g.get_slope_vector(SUBDIV, SUBDIV);
    assert_eq!(top, SlopeVector { vx: 0, vy: 0 });
}

#[test]
fn magnitude_rounds_length_down() {
    let v = SlopeVector { vx: 3, vy: -4 };
    assert_eq!(v.magnitude_squared(), 25);
    assert_eq!(v.magnitude(), 5);
    assert_eq!(SlopeVector { vx: 1, vy: 1 }.magnitude(), 1);
    assert_eq!(SlopeVector { vx: 0, vy: 8 }.magnitude(), 8);
    assert!(SlopeVector { vx: 0, vy: -1 }.has_direction());
}

#[test]
fn magnitude_of_extreme_vector() {
    let v = SlopeVector { vx: i64::MIN, vy: i64::MIN };
    assert_eq!(v.magnitude_squared(), 1u128 << 127);
    assert_eq!(v.magnitude(), 13043817825332782212);
}

#[test]
fn quantize_saturates() {
    assert_eq!(quantize(300, 1), 255);
    assert_eq!(quantize(-5, 1), 0);
    assert_eq!(quantize(1000, 256), 3);
    assert_eq!(quantize(255 * 256 + 255, 256), 255);
    assert_eq!(quantize(0, 7), 0);
}
