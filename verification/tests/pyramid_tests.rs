use deep_rtin::error::{get_index, get_triangle_error};
use deep_rtin::get_errors;
use deep_rtin::heightmap::{get_height, HeightGrid};
use deep_rtin::rtin::{Triangle, Vector2u32};

fn v(x: u32, y: u32) -> Vector2u32 {
    Vector2u32 { x, y }
}

fn grid(samples: Vec<u16>, side: u32) -> HeightGrid {
    HeightGrid::new(samples, side).expect("valid height grid")
}

#[test]
fn height_grid_new_rejects_wrong_sample_count() {
    assert!(HeightGrid::new(vec![0u16; 15], 4).is_none());
    assert!(HeightGrid::new(vec![0u16; 16], 4).is_some());
}

#[test]
fn height_grid_new_rejects_non_power_of_two() {
    assert!(HeightGrid::new(vec![0u16; 36], 6).is_none());
    assert!(HeightGrid::new(vec![0u16; 9], 3).is_none());
}

#[test]
fn height_grid_new_rejects_degenerate_sides() {
    assert!(HeightGrid::new(vec![0u16; 1], 1).is_none());
    assert!(HeightGrid::new(vec![0u16; 0], 0).is_none());
}

#[test]
fn get_height_reads_and_clamps() {
    let hm = grid(vec![10, 20, 30, 40], 2);
    assert_eq!(hm.width(), 2);
    assert_eq!(hm.height(), 2);
    assert_eq!(get_height(&hm, v(0, 0)), 10);
    assert_eq!(get_height(&hm, v(1, 0)), 20);
    assert_eq!(get_height(&hm, v(0, 1)), 30);
    assert_eq!(get_height(&hm, v(1, 1)), 40);
    // one-past-the-border coordinates clamp to the last row and column
    assert_eq!(get_height(&hm, v(2, 0)), 20);
    assert_eq!(get_height(&hm, v(0, 2)), 30);
    assert_eq!(get_height(&hm, v(2, 2)), 40);
}

#[test]
fn get_index_row_major() {
    assert_eq!(get_index(5, v(0, 0)), 0);
    assert_eq!(get_index(5, v(4, 0)), 4);
    assert_eq!(get_index(5, v(0, 1)), 5);
    assert_eq!(get_index(5, v(3, 2)), 13);
}

#[test]
fn triangle_error_is_doubled_interpolation_deviation() {
    let hm = grid(vec![10, 20, 30, 40], 2);
    // hypotenuse from (0,0) to (2,2): endpoint samples clamp to 10 and 40,
    // midpoint (1,1) samples 40: |10 + 40 - 2*40| = 30
    let t = Triangle { id: 0, a: v(0, 0), b: v(2, 2), c: v(2, 0) };
    assert_eq!(get_triangle_error(&hm, t, v(1, 1)), 30);
}

#[test]
fn pyramid_exact_values_two_by_two() {
    let hm = grid(vec![10, 20, 30, 40], 2);
    let errors = get_errors(&hm);
    assert_eq!(errors, vec![0, 10, 0, 20, 30, 20, 0, 10, 0]);
}

#[test]
fn pyramid_flat_is_all_zero() {
    let hm = grid(vec![500u16; 64], 8);
    let errors = get_errors(&hm);
    assert_eq!(errors.len(), 81);
    assert!(errors.iter().all(|&e| e == 0));
}
