//! Which meshes can be converted, and what is reported of the others.

use obj2smd::mesh_parser::process_file;
use obj2smd::numeral::Numeral;
use obj2smd::obj_file::{Face, FaceComponents, Float3, GroupSpan, ObjFile, ValidationError};

fn read(text: &str) -> ObjFile {
    process_file(text.to_string()).unwrap()
}

fn point() -> Float3 {
    Float3 { x: Numeral::zero(), y: Numeral::zero(), z: Numeral::zero() }
}

fn corner(vertex: usize, texture: usize, normal: usize) -> FaceComponents {
    FaceComponents { vertex, texture, normal }
}

fn face(corners: &[(usize, usize, usize)]) -> Face {
    Face { components: corners.iter().map(|c| corner(c.0, c.1, c.2)).collect() }
}

/// A mesh with so many vertices, texture coordinates and normals, one group
/// over all the faces, and the faces given.
fn mesh(vertices: usize, textures: usize, normals: usize, faces: Vec<Face>) -> ObjFile {
    let count = faces.len();
    ObjFile {
        faces,
        vertices: (0..vertices).map(|_| point()).collect(),
        normals: (0..normals).map(|_| point()).collect(),
        texture_coordinates: (0..textures).map(|_| point()).collect(),
        groups: vec![GroupSpan { name: "all".to_string(), start: 0, end: count }],
    }
}

const CUBE_POINTS: &str = "v 0 0 0\nv 0 0 1\nv 0 1 0\nv 0 1 1\nv 1 0 0\nv 1 0 1\nv 1 1 0\nv 1 1 1\n\
vn 0 0 1\nvn 0 0 -1\nvn 0 1 0\nvn 0 -1 0\nvn 1 0 0\nvn -1 0 0\n";

#[test]
fn a_mesh_of_triangles_with_references_in_range_is_valid() {
    let m = mesh(
        3,
        2,
        1,
        vec![face(&[(1, 1, 1), (2, 2, 1), (3, 0, 1)]), face(&[(3, 0, 0), (1, 0, 0), (0, 0, 0)])],
    );
    assert!(m.is_valid());
    assert_eq!(Vec::<ValidationError>::new(), m.validate());
}

#[test]
fn a_mesh_without_faces_is_valid() {
    let m = mesh(1, 0, 1, vec![]);
    assert!(m.is_valid());
    assert_eq!(Vec::<ValidationError>::new(), m.validate());
}

#[test]
fn texture_coordinates_are_optional() {
    let m = mesh(3, 0, 1, vec![face(&[(1, 0, 1), (2, 0, 1), (3, 0, 1)])]);
    assert!(m.is_valid());
}

#[test]
fn a_mesh_needs_vertices_normals_and_groups() {
    let triangle = || face(&[(0, 0, 0), (0, 0, 0), (0, 0, 0)]);

    let m = mesh(0, 1, 1, vec![triangle()]);
    assert!(!m.is_valid());
    assert_eq!(vec![ValidationError::NoVertices], m.validate());

    let m = mesh(1, 1, 0, vec![triangle()]);
    assert!(!m.is_valid());
    assert_eq!(vec![ValidationError::NoNormals], m.validate());

    let mut m = mesh(1, 1, 1, vec![triangle()]);
    m.groups.clear();
    assert!(!m.is_valid());
    assert_eq!(vec![ValidationError::NoGroups], m.validate());

    let mut m = mesh(0, 0, 0, vec![]);
    m.groups.clear();
    assert!(!m.is_valid());
    assert_eq!(
        vec![ValidationError::NoVertices, ValidationError::NoNormals, ValidationError::NoGroups],
        m.validate()
    );
}

#[test]
fn a_mesh_without_groups_is_invalid_whatever_else_it_holds() {
    let m = read(&format!("{}f 1//1 2//1 3//1\nf 1//2 3//2 4//2\n", CUBE_POINTS));
    assert_eq!(8, m.vertices.len());
    assert_eq!(0, m.groups.len());
    assert!(!m.is_valid());
    assert_eq!(vec![ValidationError::NoGroups], m.validate());
}

#[test]
fn a_face_of_more_than_three_corners_fails_the_rule_of_triangles() {
    let m = mesh(
        4,
        0,
        1,
        vec![
            face(&[(1, 0, 1), (2, 0, 1), (3, 0, 1)]),
            face(&[(1, 0, 1), (2, 0, 1), (3, 0, 1), (4, 0, 1)]),
            face(&[(1, 0, 1), (2, 0, 1), (3, 0, 1), (4, 0, 1), (1, 0, 1)]),
        ],
    );
    assert!(!m.is_valid());
    assert_eq!(
        vec![
            ValidationError::NotTriangulated { face: 1 },
            ValidationError::NotTriangulated { face: 2 }
        ],
        m.validate()
    );
}

#[test]
fn a_face_of_fewer_than_three_corners_fails_the_rule_of_triangles() {
    let m = mesh(4, 0, 1, vec![face(&[(1, 0, 1), (2, 0, 1)]), face(&[])]);
    assert!(!m.is_valid());
    assert_eq!(
        vec![
            ValidationError::NotTriangulated { face: 0 },
            ValidationError::NotTriangulated { face: 1 }
        ],
        m.validate()
    );
}

#[test]
fn a_mesh_of_squares_is_refused_for_its_squares() {
    let text = format!(
        "{}g main\nf 1//2 3//2 7//2 5//2\nf 1//6 2//6 4//6 3//6\nf 3//3 4//3 8//3 7//3\n\
         f 5//5 7//5 8//5 6//5\nf 1//4 5//4 6//4 2//4\nf 2//1 6//1 8//1 4//1\n",
        CUBE_POINTS
    );
    let m = read(&text);
    assert_eq!(6, m.faces.len());
    assert!(!m.is_valid());
    let report = m.validate();
    assert_eq!(6, report.len());
    for (k, found) in report.iter().enumerate() {
        assert_eq!(ValidationError::NotTriangulated { face: k }, *found);
    }
}

#[test]
fn a_reference_beyond_the_vertices_is_reported_with_its_face() {
    let text = format!("{}g main\nf 1//1 2//1 3//1\nf 1//1 999//1 3//1\nf 4//1 5//1 6//1\n", CUBE_POINTS);
    let m = read(&text);
    assert_eq!(8, m.vertices.len());
    assert!(!m.is_valid());
    assert_eq!(vec![ValidationError::IndexOutOfRange { face: 1 }], m.validate());
}

#[test]
fn each_kind_of_reference_is_held_to_its_own_list() {
    let single = |c: (usize, usize, usize)| {
        mesh(3, 2, 1, vec![face(&[(1, 1, 1), c, (1, 1, 1)])])
    };
    assert!(single((3, 2, 1)).is_valid());
    assert!(!single((4, 2, 1)).is_valid());
    assert!(!single((3, 3, 1)).is_valid());
    assert!(!single((3, 2, 2)).is_valid());
    assert_eq!(vec![ValidationError::IndexOutOfRange { face: 0 }], single((3, 2, 2)).validate());
}

#[test]
fn a_reference_to_the_last_entry_is_in_range_and_the_next_is_not() {
    let m = mesh(8, 0, 6, vec![face(&[(8, 0, 6), (1, 0, 1), (8, 0, 6)])]);
    assert!(m.is_valid());
    let m = mesh(8, 0, 6, vec![face(&[(9, 0, 6), (1, 0, 1), (8, 0, 6)])]);
    assert!(!m.is_valid());
    let m = mesh(8, 0, 6, vec![face(&[(8, 0, 6), (1, 0, 1), (8, 0, 7)])]);
    assert!(!m.is_valid());
    let m = mesh(8, 0, 6, vec![face(&[(8, 1, 6), (1, 0, 1), (8, 0, 6)])]);
    assert!(!m.is_valid());
}

#[test]
fn every_corner_of_a_face_is_held_to_the_lists() {
    for at in 0..3 {
        let mut corners = [(1, 0, 1), (1, 0, 1), (1, 0, 1)];
        corners[at] = (2, 0, 1);
        let m = mesh(1, 0, 1, vec![face(&corners)]);
        assert!(!m.is_valid(), "corner {}", at);
        assert_eq!(vec![ValidationError::IndexOutOfRange { face: 0 }], m.validate());
    }
}

#[test]
fn a_face_is_checked_against_the_lists_it_is_given() {
    let points = |n: usize| -> Vec<Float3> { (0..n).map(|_| point()).collect() };
    let triangle = face(&[(2, 1, 3), (1, 0, 1), (0, 0, 0)]);
    assert!(triangle.is_triangulated());
    assert!(triangle.is_valid(&points(2), &points(1), &points(3)));
    assert!(!triangle.is_valid(&points(1), &points(1), &points(3)));
    assert!(!triangle.is_valid(&points(2), &points(0), &points(3)));
    assert!(!triangle.is_valid(&points(2), &points(1), &points(2)));
    let square = face(&[(1, 0, 1), (1, 0, 1), (1, 0, 1), (1, 0, 1)]);
    assert!(!square.is_triangulated());
    assert!(!square.is_valid(&points(2), &points(1), &points(3)));
}

#[test]
fn everything_that_is_wrong_is_reported_in_order() {
    let mut m = mesh(
        2,
        0,
        0,
        vec![
            face(&[(1, 0, 0), (2, 0, 0), (1, 0, 0)]),
            face(&[(1, 0, 0), (2, 0, 0), (3, 0, 0), (1, 0, 0)]),
            face(&[(1, 0, 1), (2, 0, 0), (1, 0, 0)]),
            face(&[(1, 0, 0)]),
        ],
    );
    m.groups.clear();
    assert_eq!(
        vec![
            ValidationError::NoNormals,
            ValidationError::NoGroups,
            ValidationError::NotTriangulated { face: 1 },
            ValidationError::IndexOutOfRange { face: 1 },
            ValidationError::IndexOutOfRange { face: 2 },
            ValidationError::NotTriangulated { face: 3 },
        ],
        m.validate()
    );
    assert!(!m.is_valid());
}
