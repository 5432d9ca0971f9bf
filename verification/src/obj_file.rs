//! The mesh document: what an OBJ file holds, and the rules that a mesh must
//! meet before it can be converted.

use vstd::prelude::*;
use crate::numeral::Numeral;

verus! {

/// A point, a direction or a texture coordinate: three numerals.
#[derive(Debug)]
pub struct Float3 {
    pub x: Numeral,
    pub y: Numeral,
    pub z: Numeral,
}

/// What a `Float3` stands for: the text of its three numerals.
pub struct Point3 {
    pub x: Seq<char>,
    pub y: Seq<char>,
    pub z: Seq<char>,
}

impl View for Float3 {
    type V = Point3;

    open spec fn view(&self) -> Point3 {
        Point3 { x: self.x@, y: self.y@, z: self.z@ }
    }
}

impl Clone for Float3 {
    fn clone(&self) -> (copy: Self)
        ensures
            copy@ == self@,
    {
        Float3 { x: self.x.clone(), y: self.y.clone(), z: self.z.clone() }
    }
}

/// One corner of a face: where its position, its texture coordinate and its
/// normal stand in the lists of the mesh, counted from one. Zero says that
/// the corner has none.
#[derive(Debug, Clone, Copy, PartialEq, Eq, Structural)]
pub struct FaceComponents {
    pub vertex: usize,
    pub texture: usize,
    pub normal: usize,
}

/// A polygon: its corners in the order in which the file lists them.
#[derive(Debug)]
pub struct Face {
    pub components: Vec<FaceComponents>,
}

impl View for Face {
    type V = Seq<FaceComponents>;

    open spec fn view(&self) -> Seq<FaceComponents> {
        self.components@
    }
}

impl Clone for Face {
    fn clone(&self) -> (copy: Self)
        ensures
            copy@ == self@,
    {
        let mut components: Vec<FaceComponents> = Vec::new();
        for i in 0..self.components.len()
            invariant
                components@ == self.components@.take(i as int),
        {
            components.push(self.components[i]);
        }
        Face { components }
    }
}

/// A named group and the faces that belong to it: those at the positions
/// from `start` up to, but not including, `end`.
#[derive(Debug)]
pub struct GroupSpan {
    pub name: String,
    pub start: usize,
    pub end: usize,
}

/// What a `GroupSpan` stands for.
pub struct GroupRange {
    pub name: Seq<char>,
    pub start: int,
    pub end: int,
}

impl View for GroupSpan {
    type V = GroupRange;

    open spec fn view(&self) -> GroupRange {
        GroupRange { name: self.name@, start: self.start as int, end: self.end as int }
    }
}

impl Clone for GroupSpan {
    fn clone(&self) -> (copy: Self)
        ensures
            copy@ == self@,
    {
        GroupSpan { name: self.name.clone(), start: self.start, end: self.end }
    }
}

/// A mesh as read from an OBJ file.
#[derive(Debug)]
pub struct ObjFile {
    pub faces: Vec<Face>,
    pub vertices: Vec<Float3>,
    pub normals: Vec<Float3>,
    pub texture_coordinates: Vec<Float3>,
    pub groups: Vec<GroupSpan>,
}

/// What an `ObjFile` stands for.
pub struct MeshDocument {
    pub faces: Seq<Seq<FaceComponents>>,
    pub vertices: Seq<Point3>,
    pub normals: Seq<Point3>,
    pub texture_coordinates: Seq<Point3>,
    pub groups: Seq<GroupRange>,
}

impl View for ObjFile {
    type V = MeshDocument;

    open spec fn view(&self) -> MeshDocument {
        MeshDocument {
            faces: self.faces@.map_values(|f: Face| f@),
            vertices: self.vertices@.map_values(|p: Float3| p@),
            normals: self.normals@.map_values(|p: Float3| p@),
            texture_coordinates: self.texture_coordinates@.map_values(|p: Float3| p@),
            groups: self.groups@.map_values(|g: GroupSpan| g@),
        }
    }
}

/// Why a mesh cannot be converted.
#[derive(Debug, Clone, Copy, PartialEq, Eq, Structural)]
pub enum ValidationError {
    /// The mesh has no vertex.
    NoVertices,
    /// The mesh has no normal.
    NoNormals,
    /// The mesh has no group.
    NoGroups,
    /// The face at this position does not have three corners.
    NotTriangulated { face: usize },
    /// A corner of the face at this position refers to a vertex, a texture
    /// coordinate or a normal beyond the end of its list.
    IndexOutOfRange { face: usize },
}

/// Each reference of the corner is absent or lies within its list, the
/// lists having the given lengths.
pub open spec fn corner_fits(
    c: FaceComponents,
    vertices: nat,
    texture_coordinates: nat,
    normals: nat,
) -> bool {
    c.vertex <= vertices && c.texture <= texture_coordinates && c.normal <= normals
}

spec fn vertices_fit(face: Seq<FaceComponents>, vertices: nat) -> bool {
    forall|k: int| 0 <= k < face.len() ==> (#[trigger] face[k]).vertex <= vertices
}

spec fn textures_fit(face: Seq<FaceComponents>, texture_coordinates: nat) -> bool {
    forall|k: int| 0 <= k < face.len() ==> (#[trigger] face[k]).texture <= texture_coordinates
}

spec fn normals_fit(face: Seq<FaceComponents>, normals: nat) -> bool {
    forall|k: int| 0 <= k < face.len() ==> (#[trigger] face[k]).normal <= normals
}

/// Every corner of the face fits.
pub open spec fn face_fits(
    face: Seq<FaceComponents>,
    vertices: nat,
    texture_coordinates: nat,
    normals: nat,
) -> bool {
    forall|k: int|
        0 <= k < face.len() ==> corner_fits(
            #[trigger] face[k],
            vertices,
            texture_coordinates,
            normals,
        )
}

impl MeshDocument {
    /// The face at position `i` fits the lists of this mesh.
    pub open spec fn face_in_range(self, i: int) -> bool {
        face_fits(
            self.faces[i],
            self.vertices.len(),
            self.texture_coordinates.len(),
            self.normals.len(),
        )
    }

    /// The mesh can be converted: it has vertices, normals and groups, and
    /// each face is a triangle whose corners fit. Texture coordinates are
    /// optional.
    pub open spec fn valid(self) -> bool {
        &&& self.vertices.len() > 0
        &&& self.normals.len() > 0
        &&& self.groups.len() > 0
        &&& forall|i: int|
            0 <= i < self.faces.len() ==> (#[trigger] self.faces[i]).len() == 3
                && self.face_in_range(i)
    }

    /// What is wrong with the mesh as a whole.
    pub open spec fn general_violations(self) -> Seq<ValidationError> {
        (if self.vertices.len() == 0 {
            seq![ValidationError::NoVertices]
        } else {
            Seq::empty()
        }) + (if self.normals.len() == 0 {
            seq![ValidationError::NoNormals]
        } else {
            Seq::empty()
        }) + (if self.groups.len() == 0 {
            seq![ValidationError::NoGroups]
        } else {
            Seq::empty()
        })
    }

    /// What is wrong with the face at position `i`.
    pub open spec fn face_violations(self, i: int) -> Seq<ValidationError> {
        (if self.faces[i].len() != 3 {
            seq![ValidationError::NotTriangulated { face: i as usize }]
        } else {
            Seq::empty()
        }) + (if !self.face_in_range(i) {
            seq![ValidationError::IndexOutOfRange { face: i as usize }]
        } else {
            Seq::empty()
        })
    }

    /// What is wrong with the mesh as a whole and with its first `n` faces.
    pub open spec fn violations_upto(self, n: int) -> Seq<ValidationError>
        decreases n,
    {
        if n <= 0 {
            self.general_violations()
        } else {
            self.violations_upto(n - 1) + self.face_violations(n - 1)
        }
    }

    /// Everything that is wrong with the mesh: first with the mesh as a
    /// whole, then face by face.
    pub open spec fn violations(self) -> Seq<ValidationError> {
        self.violations_upto(self.faces.len() as int)
    }
}

impl Face {
    /// Whether the face is a triangle whose corners fit the lists given.
    pub fn is_valid(
        &self,
        vertices: &Vec<Float3>,
        texture_coordinates: &Vec<Float3>,
        normals: &Vec<Float3>,
    ) -> (r: bool)
        ensures
            r == (self@.len() == 3 && face_fits(
                self@,
                vertices@.len(),
                texture_coordinates@.len(),
                normals@.len(),
            )),
    {
        self.is_triangulated() && self.vertices_exist(vertices) && self.normals_exist(normals)
            && self.texture_coordinates_exist(texture_coordinates)
    }

    /// Whether the face has three corners.
    pub fn is_triangulated(&self) -> (r: bool)
        ensures
            r == (self@.len() == 3),
    {
        self.components.len() == 3
    }

    fn vertices_exist(&self, vertices: &Vec<Float3>) -> (r: bool)
        ensures
            r == vertices_fit(self@, vertices@.len()),
    {
        for k in 0..self.components.len()
            invariant
                vertices_fit(self@.take(k as int), vertices@.len()),
        {
            if self.components[k].vertex > vertices.len() {
                return false;
            }
        }
        assert(self@.take(self@.len() as int) == self@);
        true
    }

    fn normals_exist(&self, normals: &Vec<Float3>) -> (r: bool)
        ensures
            r == normals_fit(self@, normals@.len()),
    {
        for k in 0..self.components.len()
            invariant
                normals_fit(self@.take(k as int), normals@.len()),
        {
            if self.components[k].normal > normals.len() {
                return false;
            }
        }
        assert(self@.take(self@.len() as int) == self@);
        true
    }

    fn texture_coordinates_exist(&self, texture_coordinates: &Vec<Float3>) -> (r: bool)
        ensures
            r == textures_fit(self@, texture_coordinates@.len()),
    {
        for k in 0..self.components.len()
            invariant
                textures_fit(self@.take(k as int), texture_coordinates@.len()),
        {
            if self.components[k].texture > texture_coordinates.len() {
                return false;
            }
        }
        assert(self@.take(self@.len() as int) == self@);
        true
    }
}

impl ObjFile {
    /// Whether the mesh can be converted.
    pub fn is_valid(&self) -> (r: bool)
        ensures
            r == self@.valid(),
    {
        self.vertices_are_valid() && self.normals_are_valid()
            && self.texture_coordinates_are_valid() && self.has_groups() && self.faces_are_valid()
    }

    /// Everything that keeps the mesh from being converted; nothing, if it
    /// can be.
    pub fn validate(&self) -> (report: Vec<ValidationError>)
        ensures
            report@ == self@.violations(),
            (report@.len() == 0) == self@.valid(),
    {
        let mut report: Vec<ValidationError> = Vec::new();
        if !self.vertices_are_valid() {
            report.push(ValidationError::NoVertices);
        }
        if !self.normals_are_valid() {
            report.push(ValidationError::NoNormals);
        }
        if !self.has_groups() {
            report.push(ValidationError::NoGroups);
        }
        for i in 0..self.faces.len()
            invariant
                report@ == self@.violations_upto(i as int),
        {
            let face = &self.faces[i];
            if !face.is_triangulated() {
                report.push(ValidationError::NotTriangulated { face: i });
            }
            if !(face.vertices_exist(&self.vertices) && face.normals_exist(&self.normals)
                && face.texture_coordinates_exist(&self.texture_coordinates)) {
                report.push(ValidationError::IndexOutOfRange { face: i });
            }
        }
        proof {
            lemma_no_violations_iff_valid(*self);
        }
        report
    }

    fn has_groups(&self) -> (r: bool)
        ensures
            r == (self@.groups.len() > 0),
    {
        self.groups.len() > 0
    }

    fn vertices_are_valid(&self) -> (r: bool)
        ensures
            r == (self@.vertices.len() > 0),
    {
        self.vertices.len() > 0
    }

    fn normals_are_valid(&self) -> (r: bool)
        ensures
            r == (self@.normals.len() > 0),
    {
        self.normals.len() > 0
    }

    /// A mesh may do without texture coordinates.
    fn texture_coordinates_are_valid(&self) -> (r: bool)
        ensures
            r,
    {
        true
    }

    fn faces_are_valid(&self) -> (r: bool)
        ensures
            r == (forall|i: int|
                0 <= i < self@.faces.len() ==> (#[trigger] self@.faces[i]).len() == 3
                    && self@.face_in_range(i)),
    {
        for i in 0..self.faces.len()
            invariant
                forall|j: int|
                    0 <= j < i ==> (#[trigger] self@.faces[j]).len() == 3 && self@.face_in_range(j),
        {
            assert(self@.faces[i as int] == self.faces[i as int]@);
            if !self.faces[i].is_valid(
                &self.vertices,
                &self.texture_coordinates,
                &self.normals,
            ) {
                return false;
            }
        }
        true
    }
}

/// The report of `validate` is empty exactly for the meshes that
/// `is_valid` accepts.
pub proof fn lemma_no_violations_iff_valid(mesh: ObjFile)
    ensures
        (mesh@.violations().len() == 0) == mesh@.valid(),
{
    let m = mesh@;
    lemma_violations_upto(m, m.faces.len() as int);
}

/// The report on the first `n` faces is empty exactly if the mesh as a whole
/// and each of these faces is in order.
proof fn lemma_violations_upto(m: MeshDocument, n: int)
    requires
        0 <= n <= m.faces.len(),
    ensures
        (m.violations_upto(n).len() == 0) == (m.vertices.len() > 0 && m.normals.len() > 0
            && m.groups.len() > 0 && forall|i: int|
            0 <= i < n ==> (#[trigger] m.faces[i]).len() == 3 && m.face_in_range(i)),
    decreases n,
{
    if n > 0 {
        lemma_violations_upto(m, n - 1);
    }
}

/// A mesh that has vertices, normals and groups, and whose faces are all
/// triangles with every reference absent or within its list, is valid, and
/// nothing is reported of it.
pub proof fn lemma_sound_mesh_is_valid(mesh: ObjFile)
    requires
        mesh@.vertices.len() > 0,
        mesh@.normals.len() > 0,
        mesh@.groups.len() > 0,
        forall|i: int| 0 <= i < mesh@.faces.len() ==> (#[trigger] mesh@.faces[i]).len() == 3,
        forall|i: int, k: int|
            0 <= i < mesh@.faces.len() && 0 <= k < mesh@.faces[i].len() ==> ({
                let corner = #[trigger] mesh@.faces[i][k];
                &&& corner.vertex <= mesh@.vertices.len()
                &&& corner.texture <= mesh@.texture_coordinates.len()
                &&& corner.normal <= mesh@.normals.len()
            }),
    ensures
        mesh@.valid(),
        mesh@.violations() == Seq::<ValidationError>::empty(),
{
    lemma_no_violations_iff_valid(mesh);
}

/// A mesh with a face of more than three corners is invalid, and the report
/// says of that face that it is no triangle.
pub proof fn lemma_polygon_is_reported(mesh: ObjFile, face: int)
    requires
        0 <= face < mesh@.faces.len(),
        mesh@.faces[face].len() > 3,
    ensures
        !mesh@.valid(),
        mesh@.violations().contains((ValidationError::NotTriangulated { face: face as usize })),
{
    let m = mesh@;
    let found = m.face_violations(face);
    assert(found[0] == ValidationError::NotTriangulated { face: face as usize });
    lemma_face_violations_are_reported(m, face, m.faces.len() as int, 0);
}

/// A mesh with a face that refers beyond the end of a list is invalid, and
/// the report says so of that face.
pub proof fn lemma_stray_reference_is_reported(mesh: ObjFile, face: int)
    requires
        0 <= face < mesh@.faces.len(),
        !mesh@.face_in_range(face),
    ensures
        !mesh@.valid(),
        mesh@.violations().contains((ValidationError::IndexOutOfRange { face: face as usize })),
{
    let m = mesh@;
    let found = m.face_violations(face);
    let at = found.len() - 1;
    assert(found[at] == ValidationError::IndexOutOfRange { face: face as usize });
    lemma_face_violations_are_reported(m, face, m.faces.len() as int, at);
}

/// A mesh without groups is invalid, whatever else it holds, and the report
/// says that it has none.
pub proof fn lemma_mesh_without_groups_is_invalid(mesh: ObjFile)
    requires
        mesh@.groups.len() == 0,
    ensures
        !mesh@.valid(),
        mesh@.violations().contains(ValidationError::NoGroups),
{
    let m = mesh@;
    let general = m.general_violations();
    let at = general.len() - 1;
    assert(general[at] == ValidationError::NoGroups);
    lemma_general_violations_are_reported(m, m.faces.len() as int, at);
}

/// What is wrong with the mesh as a whole stays in the report, whatever is
/// found of the faces.
proof fn lemma_general_violations_are_reported(m: MeshDocument, n: int, at: int)
    requires
        0 <= n,
        0 <= at < m.general_violations().len(),
    ensures
        at < m.violations_upto(n).len(),
        m.violations_upto(n)[at] == m.general_violations()[at],
    decreases n,
{
    if n > 0 {
        lemma_general_violations_are_reported(m, n - 1, at);
    }
}

/// What is wrong with a face is in the report once the report has come to
/// that face.
proof fn lemma_face_violations_are_reported(m: MeshDocument, face: int, n: int, at: int)
    requires
        0 <= face < n,
        0 <= at < m.face_violations(face).len(),
    ensures
        m.violations_upto(n).contains(m.face_violations(face)[at]),
    decreases n,
{
    let found = m.face_violations(face)[at];
    if face == n - 1 {
        let before = m.violations_upto(n - 1);
        assert(m.violations_upto(n)[before.len() + at] == found);
    } else {
        lemma_face_violations_are_reported(m, face, n - 1, at);
        let before = m.violations_upto(n - 1);
        let i = choose|i: int| 0 <= i < before.len() && before[i] == found;
        assert(m.violations_upto(n)[i] == found);
    }
}

} // verus!
