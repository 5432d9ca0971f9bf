//! The reader on whole files: cubes and spheres as modelling programs write
//! them.

use obj2smd::mesh_parser::process_file;
use obj2smd::obj_file::ObjFile;

/// A unit cube of twelve triangles in one group.
fn cube() -> String {
    let text = "\
# cube.obj
#

v 0.0 0.0 0.0
v 0.0 0.0 1.0
v 0.0 1.0 0.0
v 0.0 1.0 1.0
v 1.0 0.0 0.0
v 1.0 0.0 1.0
v 1.0 1.0 0.0
v 1.0 1.0 1.0

vn 0.0 0.0 1.0
vn 0.0 0.0 -1.0
vn 0.0 1.0 0.0
vn 0.0 -1.0 0.0
vn 1.0 0.0 0.0
vn -1.0 0.0 0.0

g main
f 1//2 7//2 5//2
f 1//2 3//2 7//2
f 1//6 4//6 3//6
f 1//6 2//6 4//6
f 3//3 8//3 7//3
f 3//3 4//3 8//3
f 5//5 7//5 8//5
f 5//5 8//5 6//5
f 1//4 5//4 6//4
f 1//4 6//4 2//4
f 2//1 6//1 8//1
f 2//1 8//1 4//1
";
    text.to_string()
}

/// A cube with a vertex, a texture coordinate and a normal of its own for
/// each corner of each side, and a group that is declared and left empty.
fn cube_with_texture() -> String {
    let sides: [([f64; 3], [[f64; 3]; 4]); 6] = [
        ([0.0, 0.0, 1.0], [[0.0, 0.0, 1.0], [1.0, 0.0, 1.0], [1.0, 1.0, 1.0], [0.0, 1.0, 1.0]]),
        ([0.0, 0.0, -1.0], [[0.0, 0.0, 0.0], [0.0, 1.0, 0.0], [1.0, 1.0, 0.0], [1.0, 0.0, 0.0]]),
        ([0.0, 1.0, 0.0], [[0.0, 1.0, 0.0], [0.0, 1.0, 1.0], [1.0, 1.0, 1.0], [1.0, 1.0, 0.0]]),
        ([0.0, -1.0, 0.0], [[0.0, 0.0, 0.0], [1.0, 0.0, 0.0], [1.0, 0.0, 1.0], [0.0, 0.0, 1.0]]),
        ([1.0, 0.0, 0.0], [[1.0, 0.0, 0.0], [1.0, 1.0, 0.0], [1.0, 1.0, 1.0], [1.0, 0.0, 1.0]]),
        ([-1.0, 0.0, 0.0], [[0.0, 0.0, 0.0], [0.0, 0.0, 1.0], [0.0, 1.0, 1.0], [0.0, 1.0, 0.0]]),
    ];
    let corners: [[f64; 2]; 4] = [[0.0, 0.0], [1.0, 0.0], [1.0, 1.0], [0.0, 1.0]];
    let mut text = String::from("# cube.2.obj\n");
    for (_, points) in sides.iter() {
        for p in points.iter() {
            text.push_str(&format!("v {:.6} {:.6} {:.6}\n", p[0], p[1], p[2]));
        }
    }
    for _ in sides.iter() {
        for c in corners.iter() {
            text.push_str(&format!("vt {:.6} {:.6} {:.6}\n", c[0], c[1], 0.0));
        }
    }
    for (normal, _) in sides.iter() {
        for _ in 0..4 {
            text.push_str(&format!("vn {:.6} {:.6} {:.6}\n", normal[0], normal[1], normal[2]));
        }
    }
    text.push_str("g default\n");
    text.push_str("g cube\n");
    for side in 0..6 {
        let a = 4 * side + 1;
        let (b, c, d) = (a + 1, a + 2, a + 3);
        text.push_str(&format!("f {0}/{0}/{0} {1}/{1}/{1} {2}/{2}/{2}\n", a, b, c));
        text.push_str(&format!("f {0}/{0}/{0} {1}/{1}/{1} {2}/{2}/{2}\n", a, c, d));
    }
    text
}

/// A cube as Blender writes it: an object in place of a group, and squares.
fn blender_cube() -> String {
    let text = "\
# Blender v2.79 (sub 0) OBJ File: ''
# www.blender.org
mtllib blender.cube.mtl
o Cube
v 1.000000 -1.000000 -1.000000
v 1.000000 -1.000000 1.000000
v -1.000000 -1.000000 1.000000
v -1.000000 -1.000000 -1.000000
v 1.000000 1.000000 -0.999999
v 0.999999 1.000000 1.000001
v -1.000000 1.000000 1.000000
v -1.000000 1.000000 -1.000000
vn 0.0000 -1.0000 0.0000
vn 0.0000 1.0000 0.0000
vn 1.0000 0.0000 0.0000
vn -0.0000 -0.0000 1.0000
vn -1.0000 -0.0000 -0.0000
vn 0.0000 0.0000 -1.0000
usemtl Material
s off
f 1//1 2//1 3//1 4//1
f 5//2 8//2 7//2 6//2
f 1//3 5//3 6//3 2//3
f 2//4 6//4 7//4 3//4
f 3//5 7//5 8//5 4//5
f 5//6 1//6 4//6 8//6
";
    text.to_string()
}

/// The same cube cut into triangles, with a group for the object and one
/// for its material.
fn blender_cube_triangulated() -> String {
    let text = "\
# Blender v2.79 (sub 0) OBJ File: ''
# www.blender.org
mtllib blender.cube.triangulated.mtl
o Cube
v 1.000000 -1.000000 -1.000000
v 1.000000 -1.000000 1.000000
v -1.000000 -1.000000 1.000000
v -1.000000 -1.000000 -1.000000
v 1.000000 1.000000 -0.999999
v 0.999999 1.000000 1.000001
v -1.000000 1.000000 1.000000
v -1.000000 1.000000 -1.000000
vn 0.0000 -1.0000 0.0000
vn 0.0000 1.0000 0.0000
vn 1.0000 0.0000 0.0000
vn -0.0000 -0.0000 1.0000
vn -1.0000 -0.0000 -0.0000
vn 0.0000 0.0000 -1.0000
g Cube
g Cube_Material
usemtl Material
s off
f 2//1 4//1 1//1
f 8//2 6//2 5//2
f 5//3 2//3 1//3
f 6//4 3//4 2//4
f 3//5 8//5 4//5
f 1//6 8//6 5//6
f 2//1 3//1 4//1
f 8//2 7//2 6//2
f 5//3 6//3 2//3
f 6//4 7//4 3//4
f 3//5 7//5 8//5
f 1//6 4//6 8//6
";
    text.to_string()
}

/// The points of a sphere of 32 segments and 16 rings: the top, fifteen
/// rings of 32, the bottom.
fn sphere_points() -> String {
    let mut text = String::new();
    text.push_str("v 0.000000 1.000000 0.000000\n");
    for ring in 1..16 {
        let polar = std::f64::consts::PI * (ring as f64) / 16.0;
        for segment in 0..32 {
            let around = 2.0 * std::f64::consts::PI * (segment as f64) / 32.0;
            text.push_str(
                &format!(
                    "v {:.6} {:.6} {:.6}\n",
                    polar.sin() * around.cos(),
                    polar.cos(),
                    polar.sin() * around.sin()
                ),
            );
        }
    }
    text.push_str("v 0.000000 -1.000000 0.000000\n");
    text
}

fn sphere_normals(count: usize) -> String {
    let mut text = String::new();
    for k in 0..count {
        let turn = 2.0 * std::f64::consts::PI * (k as f64) / (count as f64);
        text.push_str(&format!("vn {:.4} {:.4} {:.4}\n", turn.cos(), 0.0, turn.sin()));
    }
    text
}

/// The point of ring `ring` (1 to 15) and segment `segment`, as a face
/// refers to it.
fn on_ring(ring: usize, segment: usize) -> usize {
    2 + 32 * (ring - 1) + segment % 32
}

/// The faces of the sphere: a fan of triangles at each end, bands of squares
/// in between, each square cut in two if `triangles` is set. Face `k` uses
/// normal `k % normals + 1`.
fn sphere_faces(triangles: bool, normals: usize) -> String {
    let mut faces: Vec<Vec<usize>> = Vec::new();
    for s in 0..32 {
        faces.push(vec![1, on_ring(1, s + 1), on_ring(1, s)]);
    }
    for ring in 1..15 {
        for s in 0..32 {
            let (a, b) = (on_ring(ring, s), on_ring(ring, s + 1));
            let (c, d) = (on_ring(ring + 1, s + 1), on_ring(ring + 1, s));
            if triangles {
                faces.push(vec![a, b, c]);
                faces.push(vec![a, c, d]);
            } else {
                faces.push(vec![a, b, c, d]);
            }
        }
    }
    for s in 0..32 {
        faces.push(vec![482, on_ring(15, s), on_ring(15, s + 1)]);
    }
    let mut text = String::new();
    for (k, face) in faces.iter().enumerate() {
        text.push('f');
        for point in face.iter() {
            text.push_str(&format!(" {}//{}", point, k % normals + 1));
        }
        text.push('\n');
    }
    text
}

fn blender_sphere() -> String {
    let mut text = String::from("# Blender v2.79 (sub 0) OBJ File: ''\no Sphere\n");
    text.push_str(&sphere_points());
    text.push_str(&sphere_normals(512));
    text.push_str("g Sphere\ns off\n");
    text.push_str(&sphere_faces(false, 512));
    text
}

fn blender_sphere_triangulated() -> String {
    let mut text = String::from("# Blender v2.79 (sub 0) OBJ File: ''\no Sphere\n");
    text.push_str(&sphere_points());
    text.push_str(&sphere_normals(528));
    text.push_str("g Sphere\ns off\n");
    text.push_str(&sphere_faces(true, 528));
    text
}

fn read(contents: String) -> ObjFile {
    process_file(contents).unwrap()
}

#[test]
fn mesh_parser_should_have_8_vertices() {
    assert_eq!(8, read(cube()).vertices.len());
    assert_eq!(24, read(cube_with_texture()).vertices.len());
    assert_eq!(8, read(blender_cube()).vertices.len());
    assert_eq!(8, read(blender_cube_triangulated()).vertices.len());
}

#[test]
fn mesh_parser_should_have_0_texture_coordinates() {
    assert_eq!(0, read(cube()).texture_coordinates.len());
    assert_eq!(0, read(blender_cube()).texture_coordinates.len());
    assert_eq!(0, read(blender_cube_triangulated()).texture_coordinates.len());
    assert_eq!(0, read(blender_sphere()).texture_coordinates.len());
    assert_eq!(0, read(blender_sphere_triangulated()).texture_coordinates.len());
}

#[test]
fn should_have_24_texture_coordinates() {
    let tmp = read(cube_with_texture());

    assert_eq!(24, tmp.texture_coordinates.len());
}

#[test]
fn mesh_parser_should_have_1_groups() {
    let tmp = read(cube());

    println!("{:?}", tmp.groups);

    assert_eq!(1, tmp.groups.len());
    assert_eq!(1, read(blender_sphere()).groups.len());
    assert_eq!(1, read(blender_sphere_triangulated()).groups.len());
}

#[test]
fn should_have_1_group_validating_span() {
    let tmp = read(cube());

    let span = &tmp.groups[0];

    assert_eq!(0, span.start);
    assert_eq!(12, span.end);
}

#[test]
fn mesh_parser_should_have_2_groups() {
    assert_eq!(2, read(cube_with_texture()).groups.len());
    assert_eq!(2, read(blender_cube_triangulated()).groups.len());
}

#[test]
fn should_have_0_groups() {
    let tmp = read(blender_cube());

    assert_eq!(0, tmp.groups.len());
}

#[test]
fn mesh_parser_should_have_2_group_validating_span_1() {
    let tmp = read(cube_with_texture());
    let span = &tmp.groups[0];
    assert_eq!(0, span.start);
    assert_eq!(0, span.end);

    let tmp = read(blender_cube_triangulated());
    let span = &tmp.groups[0];
    assert_eq!(0, span.start);
    assert_eq!(0, span.end);

    let tmp = read(blender_sphere());
    let span = &tmp.groups[0];
    assert_eq!(0, span.start);
    assert_eq!(512, span.end);

    let tmp = read(blender_sphere_triangulated());
    let span = &tmp.groups[0];
    assert_eq!(0, span.start);
    assert_eq!(960, span.end);
}

#[test]
fn mesh_parser_should_have_2_group_validating_span_2() {
    let tmp = read(cube_with_texture());
    let span = &tmp.groups[1];
    assert_eq!(0, span.start);
    assert_eq!(12, span.end);

    let tmp = read(blender_cube_triangulated());
    let span = &tmp.groups[1];
    assert_eq!(0, span.start);
    assert_eq!(12, span.end);
}

#[test]
fn mesh_parser_should_have_6_normals() {
    assert_eq!(6, read(cube()).normals.len());
    assert_eq!(24, read(cube_with_texture()).normals.len());
    assert_eq!(6, read(blender_cube()).normals.len());
    assert_eq!(6, read(blender_cube_triangulated()).normals.len());
}

#[test]
fn mesh_parser_should_have_12_faces() {
    assert_eq!(12, read(cube()).faces.len());
    assert_eq!(12, read(cube_with_texture()).faces.len());
    assert_eq!(12, read(blender_cube_triangulated()).faces.len());
}

#[test]
fn should_have_6_faces() {
    let tmp = read(blender_cube());

    assert_eq!(6, tmp.faces.len());
}

#[test]
fn mesh_parser_is_valid_mesh() {
    assert!(read(cube()).is_valid());
    assert!(read(cube_with_texture()).is_valid());
    assert!(read(blender_cube_triangulated()).is_valid());
    assert!(read(blender_sphere_triangulated()).is_valid());
}

#[test]
fn mesh_parser_is_not_valid_mesh() {
    assert!(!read(blender_cube()).is_valid());
    assert!(!read(blender_sphere()).is_valid());
}

#[test]
fn mesh_parser_should_have_482_vertices() {
    assert_eq!(482, read(blender_sphere()).vertices.len());
    assert_eq!(482, read(blender_sphere_triangulated()).vertices.len());
}

#[test]
fn should_have_512_normals() {
    let tmp = read(blender_sphere());

    assert_eq!(512, tmp.normals.len());
}

#[test]
fn should_have_512_faces() {
    let tmp = read(blender_sphere());

    assert_eq!(512, tmp.faces.len());
}

#[test]
fn should_have_528_normals() {
    let tmp = read(blender_sphere_triangulated());

    assert_eq!(528, tmp.normals.len());
}

#[test]
fn should_have_528_faces() {
    let tmp = read(blender_sphere_triangulated());

    assert_eq!(960, tmp.faces.len());
}
