use formats::geometry::{triangulate_polygon, triangulate_sector, walls_to_polygons};

#[test]
fn one_triangle() {
    let walls = vec![(0usize, 1usize), (1, 2), (2, 0)];
    let polys = walls_to_polygons(&walls);
    assert_eq!(polys, vec![vec![0usize, 1, 2]]);
}

#[test]
fn reordered_walls_give_the_same_polygon() {
    let walls = vec![(1usize, 2usize), (0, 1), (2, 0)];
    let polys = walls_to_polygons(&walls);
    assert_eq!(polys, vec![vec![0usize, 1, 2]]);
}

#[test]
fn two_interleaved_triangles_sort_by_minimum_vertex() {
    let walls = vec![(3usize, 4usize), (0, 1), (4, 5), (1, 2), (5, 3), (2, 0)];
    let polys = walls_to_polygons(&walls);
    assert_eq!(polys, vec![vec![0usize, 1, 2], vec![3usize, 4, 5]]);
}

#[test]
fn polygon_is_rotated_to_minimum_vertex() {
    let walls = vec![(5usize, 2usize), (2, 7), (7, 5)];
    let polys = walls_to_polygons(&walls);
    assert_eq!(polys, vec![vec![2usize, 7, 5]]);
}

#[test]
fn duplicate_wall_still_closes_a_contour() {
    // Both vertices of the second wall were already seen; it cannot open
    // or extend a contour, but it may close one.
    let walls = vec![(0usize, 1usize), (1, 0)];
    let polys = walls_to_polygons(&walls);
    assert_eq!(polys, vec![vec![0usize, 1]]);
}

#[test]
fn duplicate_wall_does_not_reopen() {
    // After the square closes, the duplicate wall matches nothing and
    // must not spawn a new contour.
    let walls = vec![(0usize, 1usize), (1, 2), (2, 3), (3, 0), (0, 1)];
    let polys = walls_to_polygons(&walls);
    assert_eq!(polys, vec![vec![0usize, 1, 2, 3]]);
}

#[test]
fn open_contour_yields_no_polygon() {
    let walls = vec![(0usize, 1usize), (1, 2)];
    let polys = walls_to_polygons(&walls);
    assert_eq!(polys, Vec::<Vec<usize>>::new());
}

#[test]
fn fan_triangulation_of_a_square() {
    let poly = vec![0usize, 1, 2, 3];
    let tris = triangulate_polygon(&poly);
    assert_eq!(tris, vec![(0usize, 1usize, 2usize), (0, 2, 3)]);
}

#[test]
fn fan_triangulation_of_a_triangle() {
    let poly = vec![4usize, 6, 5];
    assert_eq!(triangulate_polygon(&poly), vec![(4usize, 6usize, 5usize)]);
}

#[test]
fn degenerate_polygons_have_no_triangles() {
    assert_eq!(triangulate_polygon(&vec![0usize, 1]), Vec::<(usize, usize, usize)>::new());
}

#[test]
fn sector_triangulation_flips_winding() {
    // The square's walls run one way; the floor fan is built over the
    // reversed contour.
    let walls = vec![(0usize, 1usize), (1, 2), (2, 3), (3, 0)];
    let tris = triangulate_sector(&walls);
    assert_eq!(tris, vec![(0usize, 3usize, 2usize), (0, 2, 1)]);
}
