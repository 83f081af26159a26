use deep_rtin::error::get_triangle_error;
use deep_rtin::heightmap::HeightGrid;
use deep_rtin::mesh::generate_mesh_data;
use deep_rtin::rtin::{
    get_first_triangle_index, get_left_child_triangle_index, get_right_child_triangle_index,
    get_triangle_and_midpoint_vector,
};
use deep_rtin::u32_extensions::log_2;
use deep_rtin::{get_errors, get_triangles};

fn spike_grid() -> HeightGrid {
    let side: u32 = 8;
    let mut samples = vec![1000u16; (side * side) as usize];
    samples[(4 * side + 4) as usize] = 60000;
    HeightGrid::new(samples, side).expect("valid height grid")
}

#[test]
fn flat_mesh_is_two_triangles_four_vertices() {
    let hm = HeightGrid::new(vec![7u16; 16], 4).expect("valid height grid");
    let errors = get_errors(&hm);
    let triangles = get_triangles(10, &errors, 5);
    let (vertices, indices) = generate_mesh_data(&hm, &triangles);
    assert_eq!(indices.len(), 2);
    assert_eq!(vertices.len(), 4);
    let got: Vec<(u32, u16, u32)> = vertices.iter().map(|p| (p.x, p.height, p.z)).collect();
    assert_eq!(got, vec![(4, 7, 4), (0, 7, 0), (0, 7, 4), (4, 7, 0)]);
    assert_eq!((indices[0].a, indices[0].b, indices[0].c), (0, 1, 2));
    assert_eq!((indices[1].a, indices[1].b, indices[1].c), (1, 0, 3));
}

#[test]
fn mesh_indices_are_always_valid() {
    let hm = spike_grid();
    let errors = get_errors(&hm);
    for threshold in [0u32, 58999, 117999, 118000] {
        let triangles = get_triangles(threshold, &errors, 9);
        let (vertices, indices) = generate_mesh_data(&hm, &triangles);
        assert_eq!(indices.len(), triangles.len());
        for triple in indices.iter() {
            assert!((triple.a as usize) < vertices.len());
            assert!((triple.b as usize) < vertices.len());
            assert!((triple.c as usize) < vertices.len());
        }
        assert!(vertices.len() <= 81);
    }
}

#[test]
fn mesh_vertices_deduplicate_corners() {
    let hm = spike_grid();
    let errors = get_errors(&hm);
    let triangles = get_triangles(58999, &errors, 9);
    let (vertices, indices) = generate_mesh_data(&hm, &triangles);

    // each distinct corner appears exactly once in the vertex buffer
    let mut seen = vec![false; 81];
    let mut distinct = 0usize;
    for t in triangles.iter() {
        for corner in [t.a, t.b, t.c] {
            let p = (corner.y * 9 + corner.x) as usize;
            if !seen[p] {
                seen[p] = true;
                distinct += 1;
            }
        }
    }
    assert_eq!(vertices.len(), distinct);
    for j1 in 0..vertices.len() {
        for j2 in (j1 + 1)..vertices.len() {
            assert!(
                (vertices[j1].x, vertices[j1].z) != (vertices[j2].x, vertices[j2].z),
                "duplicate vertex for one grid position"
            );
        }
    }

    // and each index triple resolves to its triangle's corners
    for (t, triple) in triangles.iter().zip(indices.iter()) {
        for (corner, slot) in [(t.a, triple.a), (t.b, triple.b), (t.c, triple.c)] {
            let vertex = &vertices[slot as usize];
            assert_eq!((vertex.x, vertex.z), (corner.x, corner.y));
        }
    }
}

fn subtree_max_error(hm: &HeightGrid, id: u32, grid_size: u32, last_level_index: u32) -> u32 {
    let (t, m) = get_triangle_and_midpoint_vector(id, grid_size);
    let local = get_triangle_error(hm, t, m);
    if id - 2 >= last_level_index {
        local
    } else {
        local
            .max(subtree_max_error(hm, get_left_child_triangle_index(id), grid_size, last_level_index))
            .max(subtree_max_error(hm, get_right_child_triangle_index(id), grid_size, last_level_index))
    }
}

#[test]
fn error_pyramid_matches_brute_force() {
    // the max-combined value stored at each vertex equals a direct
    // recomputation of the maximum error over the triangles resolving there
    let hm = spike_grid();
    let side: u32 = 8;
    let grid_size = side + 1;
    let errors = get_errors(&hm);

    let triangle_count = 2 * side * side - 2;
    let last_level_index = get_first_triangle_index(log_2(side) * 2 - 1);

    let mut expected = vec![0u32; (grid_size * grid_size) as usize];
    for index in 0..triangle_count {
        let id = index + 2;
        let (_, m) = get_triangle_and_midpoint_vector(id, grid_size);
        let p = (m.y * grid_size + m.x) as usize;
        let subtree = subtree_max_error(&hm, id, grid_size, last_level_index);
        if subtree > expected[p] {
            expected[p] = subtree;
        }
    }
    assert_eq!(errors, expected);
}

#[test]
fn full_pipeline_spike_collapse_and_refine() {
    let hm = spike_grid();
    let (vertices, indices) = deep_rtin::generate_mesh_with_rtin(&hm, 118000);
    assert_eq!(indices.len(), 2);
    assert_eq!(vertices.len(), 4);
    let (vertices, indices) = deep_rtin::generate_mesh_with_rtin(&hm, 117999);
    assert_eq!(indices.len(), 4);
    // the four children share the two square corners, the two remaining
    // root corners and the center spike vertex
    assert_eq!(vertices.len(), 5);
    assert!(vertices.iter().any(|p| (p.x, p.z) == (4, 4) && p.height == 60000));
}
