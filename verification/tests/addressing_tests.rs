use deep_rtin::rtin::{
    generate_bottom_left_triangle, generate_left_triangle, generate_right_triangle,
    generate_top_right_triangle, get_first_triangle_index, get_left_child_triangle_index,
    get_level_by_id, get_right_child_triangle_index, get_triangle_and_midpoint_vector,
    get_triangle_by_id, Triangle, Vector2u32,
};

fn v(x: u32, y: u32) -> Vector2u32 {
    Vector2u32 { x, y }
}

#[test]
fn child_index_formulas() {
    assert_eq!(get_left_child_triangle_index(0), 4);
    assert_eq!(get_right_child_triangle_index(0), 2);
    assert_eq!(get_left_child_triangle_index(1), 5);
    assert_eq!(get_right_child_triangle_index(1), 3);
    assert_eq!(get_left_child_triangle_index(4), 12);
    assert_eq!(get_right_child_triangle_index(4), 8);
}

#[test]
fn first_triangle_index_values() {
    assert_eq!(get_first_triangle_index(0), 0);
    assert_eq!(get_first_triangle_index(1), 2);
    assert_eq!(get_first_triangle_index(2), 6);
    assert_eq!(get_first_triangle_index(3), 14);
    assert_eq!(get_first_triangle_index(4), 30);
}

#[test]
fn level_values() {
    assert_eq!(get_level_by_id(2), 0);
    assert_eq!(get_level_by_id(3), 0);
    assert_eq!(get_level_by_id(4), 1);
    assert_eq!(get_level_by_id(7), 1);
    assert_eq!(get_level_by_id(8), 2);
    assert_eq!(get_level_by_id(15), 2);
    assert_eq!(get_level_by_id(16), 3);
}

#[test]
fn root_triangles() {
    let bl = generate_bottom_left_triangle(5);
    assert_eq!(bl.id, 1);
    assert_eq!(bl.a, v(4, 4));
    assert_eq!(bl.b, v(0, 0));
    assert_eq!(bl.c, v(0, 4));

    let tr = generate_top_right_triangle(5);
    assert_eq!(tr.id, 0);
    assert_eq!(tr.a, v(0, 0));
    assert_eq!(tr.b, v(4, 4));
    assert_eq!(tr.c, v(4, 0));
}

#[test]
fn bisection_corner_roles() {
    // the apex becomes a hypotenuse endpoint and the midpoint the new apex
    let bl = generate_bottom_left_triangle(5);
    let left = generate_left_triangle(bl);
    assert_eq!(left.id, 5);
    assert_eq!(left.a, v(0, 4));
    assert_eq!(left.b, v(4, 4));
    assert_eq!(left.c, v(2, 2));

    let right = generate_right_triangle(bl);
    assert_eq!(right.id, 3);
    assert_eq!(right.a, v(0, 0));
    assert_eq!(right.b, v(0, 4));
    assert_eq!(right.c, v(2, 2));
}

#[test]
fn triangle_by_id_small() {
    let t = get_triangle_by_id(2, 5);
    assert_eq!((t.a, t.b, t.c), (v(4, 4), v(0, 0), v(0, 4)));
    let t = get_triangle_by_id(3, 5);
    assert_eq!((t.a, t.b, t.c), (v(0, 0), v(4, 4), v(4, 0)));
    let t = get_triangle_by_id(4, 5);
    assert_eq!((t.a, t.b, t.c), (v(0, 0), v(0, 4), v(2, 2)));
    let (t, m) = get_triangle_and_midpoint_vector(4, 5);
    assert_eq!((t.a, t.b, t.c), (v(0, 0), v(0, 4), v(2, 2)));
    assert_eq!(m, v(0, 2));
}

fn collect_bisect_tree(t: Triangle, nodes: &mut Vec<Triangle>) {
    nodes.push(t);
    let a = t.a.x.abs_diff(t.c.x) + t.a.y.abs_diff(t.c.y);
    if a > 1 {
        collect_bisect_tree(generate_left_triangle(t), nodes);
        collect_bisect_tree(generate_right_triangle(t), nodes);
    }
}

#[test]
fn addressing_round_trip() {
    // every id the pyramid processes resolves, through the bit walk, to a
    // triangle the top-down bisection derives independently
    let side: u32 = 4;
    let grid_size = side + 1;
    let triangle_count = 2 * side * side - 2;

    let mut nodes = Vec::new();
    collect_bisect_tree(generate_bottom_left_triangle(grid_size), &mut nodes);
    collect_bisect_tree(generate_top_right_triangle(grid_size), &mut nodes);

    for index in 0..triangle_count {
        let t = get_triangle_by_id(index + 2, grid_size);
        let matches: Vec<&Triangle> = nodes
            .iter()
            .filter(|n| n.a == t.a && n.b == t.b && n.c == t.c)
            .collect();
        assert_eq!(matches.len(), 1, "id {} has no unique bisection twin", index + 2);
        assert_eq!(matches[0].id, t.id);
    }

    // and conversely, each bisection triangle is recovered from its id: the
    // two id spaces differ by a constant offset per root
    for node in nodes.iter() {
        let lookup = node.id + if node.id % 2 == 0 { 3 } else { 1 };
        assert_eq!(get_triangle_by_id(lookup, grid_size), *node);
    }
}
