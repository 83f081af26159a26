use deep_rtin::heightmap::HeightGrid;
use deep_rtin::rtin::Vector2u32;
use deep_rtin::{get_errors, get_triangles};

fn v(x: u32, y: u32) -> Vector2u32 {
    Vector2u32 { x, y }
}

fn spike_grid() -> HeightGrid {
    // flat 8x8 terrain except for one elevation spike at the center vertex
    let side: u32 = 8;
    let mut samples = vec![1000u16; (side * side) as usize];
    samples[(4 * side + 4) as usize] = 60000;
    HeightGrid::new(samples, side).expect("valid height grid")
}

#[test]
fn flat_extraction_collapses_to_roots() {
    let hm = HeightGrid::new(vec![123u16; 16], 4).expect("valid height grid");
    let errors = get_errors(&hm);
    for threshold in [0u32, 1, 1000, u32::MAX] {
        let triangles = get_triangles(threshold, &errors, 5);
        assert_eq!(triangles.len(), 2);
        assert_eq!(triangles[0].id, 1);
        assert_eq!((triangles[0].a, triangles[0].b, triangles[0].c), (v(4, 4), v(0, 0), v(0, 4)));
        assert_eq!(triangles[1].id, 0);
        assert_eq!((triangles[1].a, triangles[1].b, triangles[1].c), (v(0, 0), v(4, 4), v(4, 0)));
    }
}

#[test]
fn zero_threshold_fully_refines() {
    // a 4x4 grid whose every subdividable midpoint has a positive error
    let samples: Vec<u16> = vec![
        0, 77, 308, 693, 143, 253, 517, 935, 572, 715, 1012, 396, 220, 396, 726, 143,
    ];
    let hm = HeightGrid::new(samples, 4).expect("valid height grid");
    let errors = get_errors(&hm);
    let triangles = get_triangles(0, &errors, 5);
    assert_eq!(triangles.len(), 32);
    // every emitted triangle is minimal: apex one step from each endpoint
    for t in triangles.iter() {
        let size = t.a.x.abs_diff(t.c.x) + t.a.y.abs_diff(t.c.y);
        assert_eq!(size, 1);
    }
}

#[test]
fn zero_threshold_two_by_two() {
    let hm = HeightGrid::new(vec![10, 20, 30, 40], 2).expect("valid height grid");
    let errors = get_errors(&hm);
    let triangles = get_triangles(0, &errors, 3);
    assert_eq!(triangles.len(), 8);
    let ids: Vec<u32> = triangles.iter().map(|t| t.id).collect();
    assert_eq!(ids, vec![13, 9, 11, 7, 12, 8, 10, 6]);
}

#[test]
fn spike_threshold_below_peak_refines_center() {
    let hm = spike_grid();
    let errors = get_errors(&hm);
    // the peak recorded error is |1000 + 1000 - 2*60000| = 118000
    assert_eq!(errors.iter().copied().max(), Some(118000));
    let triangles = get_triangles(117999, &errors, 9);
    assert_eq!(triangles.len(), 4);
    // all four triangles are finer than a root and meet at the spike
    for t in triangles.iter() {
        assert_eq!(t.c, v(4, 4));
    }
}

#[test]
fn spike_threshold_above_peak_collapses() {
    let hm = spike_grid();
    let errors = get_errors(&hm);
    let triangles = get_triangles(118000, &errors, 9);
    assert_eq!(triangles.len(), 2);
    assert_eq!(triangles[0].id, 1);
    assert_eq!(triangles[1].id, 0);
}

#[test]
fn spike_lower_threshold_refines_further() {
    let hm = spike_grid();
    let errors = get_errors(&hm);
    let triangles = get_triangles(58999, &errors, 9);
    assert_eq!(triangles.len(), 40);
}
