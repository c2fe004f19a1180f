use wireframe::mesh::{Face, Object};
use wireframe::visibility::face_visible;

fn triangle() -> Object {
    Object::parse(b"v 0 0 0\nv 1 0 0\nv 0 1 0\nf 1 2 3\n").unwrap()
}

#[test]
fn triangle_in_view_draws_three_edges() {
    let m = triangle();
    let edges = m.visible_edges(&[false, false, false]);
    assert_eq!(edges, vec![(0, 1), (1, 2), (2, 0)]);
}

#[test]
fn all_clipped_face_draws_nothing() {
    let m = triangle();
    assert!(m.visible_edges(&[true, true, true]).is_empty());
}

#[test]
fn one_visible_vertex_draws_whole_face() {
    let m = triangle();
    for flags in [[false, true, true], [true, false, true], [true, true, false], [false, false, true]] {
        assert_eq!(m.visible_edges(&flags), vec![(0, 1), (1, 2), (2, 0)]);
    }
}

#[test]
fn missing_flags_count_as_clipped() {
    let m = triangle();
    assert!(m.visible_edges(&[]).is_empty());
    assert_eq!(m.visible_edges(&[false]).len(), 3);
    assert!(!face_visible(Face { a: 5, b: 6, c: 7 }, &[false, false]));
}

#[test]
fn faces_are_drawn_in_order() {
    let text = b"v 0 0 0\nv 1 0 0\nv 0 1 0\nv 1 1 0\nf 1 2 3\nf 2 4 3\nf 4 1 2\n";
    let m = Object::parse(text).unwrap();
    let edges = m.visible_edges(&[true, true, true, false]);
    assert_eq!(edges, vec![(1, 3), (3, 2), (2, 1), (3, 0), (0, 1), (1, 3)]);
}

#[test]
fn end_to_end_triangle_draws_three_lines() {
    let m = Object::parse(b"v 0 0 0\nv 1 0 0\nv 0 1 0\nf 1 2 3\n").unwrap();
    assert_eq!(m.num_points(), 3);
    assert_eq!(m.faces(), &[Face { a: 0, b: 1, c: 2 }][..]);
    // All three vertices lie in front of a camera at (0, 0, -5) looking along +z.
    let clipped = vec![false; m.num_points()];
    assert_eq!(m.visible_edges(&clipped).len(), 3);
}
