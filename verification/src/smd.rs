//! The SMD document: triangles with their groups, made from a mesh and
//! written out as text.

use vstd::prelude::*;
use crate::conversion::viewed;
use crate::numeral::Numeral;
use crate::obj_file::{FaceComponents, Float3, GroupRange, MeshDocument, ObjFile, Point3};
use crate::text::{decimal, push_decimal, push_text, string_of};

verus! {

/// A corner of a triangle: position, normal and texture coordinate.
#[derive(Debug)]
pub struct Float8 {
    pub u: Numeral,
    pub v: Numeral,
    pub x: Numeral,
    pub y: Numeral,
    pub z: Numeral,
    pub x_norm: Numeral,
    pub y_norm: Numeral,
    pub z_norm: Numeral,
}

/// What a `Float8` stands for: the text of its eight numerals.
pub struct SmdVertex {
    pub u: Seq<char>,
    pub v: Seq<char>,
    pub x: Seq<char>,
    pub y: Seq<char>,
    pub z: Seq<char>,
    pub x_norm: Seq<char>,
    pub y_norm: Seq<char>,
    pub z_norm: Seq<char>,
}

impl View for Float8 {
    type V = SmdVertex;

    open spec fn view(&self) -> SmdVertex {
        SmdVertex {
            u: self.u@,
            v: self.v@,
            x: self.x@,
            y: self.y@,
            z: self.z@,
            x_norm: self.x_norm@,
            y_norm: self.y_norm@,
            z_norm: self.z_norm@,
        }
    }
}

impl Clone for Float8 {
    fn clone(&self) -> (copy: Self)
        ensures
            copy@ == self@,
    {
        Float8 {
            u: self.u.clone(),
            v: self.v.clone(),
            x: self.x.clone(),
            y: self.y.clone(),
            z: self.z.clone(),
            x_norm: self.x_norm.clone(),
            y_norm: self.y_norm.clone(),
            z_norm: self.z_norm.clone(),
        }
    }
}

/// A triangle: the image that covers it, the position of its group in the
/// list of groups, and its corners.
#[derive(Debug)]
pub struct SMDEntry {
    pub image_name: String,
    pub group: usize,
    pub points: Vec<Float8>,
}

/// What an `SMDEntry` stands for.
pub struct SmdTriangle {
    pub image_name: Seq<char>,
    pub group: nat,
    pub points: Seq<SmdVertex>,
}

impl View for SMDEntry {
    type V = SmdTriangle;

    open spec fn view(&self) -> SmdTriangle {
        SmdTriangle {
            image_name: self.image_name@,
            group: self.group as nat,
            points: self.points@.map_values(|p: Float8| p@),
        }
    }
}

impl Clone for SMDEntry {
    fn clone(&self) -> (copy: Self)
        ensures
            copy@ == self@,
    {
        let mut points: Vec<Float8> = Vec::new();
        for i in 0..self.points.len()
            invariant
                points@.map_values(|p: Float8| p@) == self.points@.map_values(|p: Float8| p@).take(
                    i as int,
                ),
        {
            let ghost before = points@.map_values(|p: Float8| p@);
            let point = self.points[i].clone();
            points.push(point);
            assert(points@.map_values(|p: Float8| p@) == before.push(point@));
        }
        assert(self@.points.take(self.points@.len() as int) == self@.points);
        SMDEntry { image_name: self.image_name.clone(), group: self.group, points }
    }
}

/// An SMD document: the names of the groups and the triangles.
#[derive(Debug)]
pub struct SMD {
    pub groups: Vec<String>,
    pub entries: Vec<SMDEntry>,
}

/// What an `SMD` stands for.
pub struct SmdDocument {
    pub groups: Seq<Seq<char>>,
    pub entries: Seq<SmdTriangle>,
}

impl View for SMD {
    type V = SmdDocument;

    open spec fn view(&self) -> SmdDocument {
        SmdDocument {
            groups: self.groups@.map_values(|g: String| g@),
            entries: self.entries@.map_values(|e: SMDEntry| e@),
        }
    }
}

/// A copy of a list of names.
fn copy_names(names: &Vec<String>) -> (copy: Vec<String>)
    ensures
        copy@.map_values(|g: String| g@) == names@.map_values(|g: String| g@),
{
    let ghost all = names@.map_values(|g: String| g@);
    let mut copy: Vec<String> = Vec::new();
    for i in 0..names.len()
        invariant
            all == names@.map_values(|g: String| g@),
            copy@.map_values(|g: String| g@) == all.take(i as int),
    {
        let ghost before = copy@.map_values(|g: String| g@);
        let name = names[i].clone();
        copy.push(name);
        assert(copy@.map_values(|g: String| g@) == before.push(name@));
    }
    assert(all.take(all.len() as int) == all);
    copy
}

impl Clone for SMD {
    fn clone(&self) -> (copy: Self)
        ensures
            copy@ == self@,
    {
        let groups = copy_names(&self.groups);
        let mut entries: Vec<SMDEntry> = Vec::new();
        for i in 0..self.entries.len()
            invariant
                entries@.map_values(|e: SMDEntry| e@) == self@.entries.take(i as int),
        {
            let ghost before = entries@.map_values(|e: SMDEntry| e@);
            let entry = self.entries[i].clone();
            entries.push(entry);
            assert(entries@.map_values(|e: SMDEntry| e@) == before.push(entry@));
        }
        assert(self@.entries.take(self.entries@.len() as int) == self@.entries);
        SMD { groups, entries }
    }
}

/// The image that covers every triangle.
pub open spec fn image_name() -> Seq<char> {
    "test.tga"@
}

/// The numeral zero.
pub open spec fn zero() -> Seq<char> {
    seq!['0']
}

/// What an absent reference stands for.
pub open spec fn origin() -> Point3 {
    Point3 { x: zero(), y: zero(), z: zero() }
}

/// The entry of `list` that `reference` names, counting from one; the origin
/// for the reference zero, which names none.
pub open spec fn resolve(list: Seq<Point3>, reference: usize) -> Point3 {
    if reference == 0 {
        origin()
    } else {
        list[reference - 1]
    }
}

/// The corner of a triangle that a corner of a face describes: the position
/// from the vertices, the normal from the normals, and the first two of the
/// three numbers of the texture coordinate.
pub open spec fn vertex_of(mesh: MeshDocument, corner: FaceComponents) -> SmdVertex {
    let position = resolve(mesh.vertices, corner.vertex);
    let normal = resolve(mesh.normals, corner.normal);
    let texture = resolve(mesh.texture_coordinates, corner.texture);
    SmdVertex {
        u: texture.x,
        v: texture.y,
        x: position.x,
        y: position.y,
        z: position.z,
        x_norm: normal.x,
        y_norm: normal.y,
        z_norm: normal.z,
    }
}

/// The group of the face at position `face`: the position of the last of
/// `groups` that holds the face, or zero if none does.
pub open spec fn group_of(groups: Seq<GroupRange>, face: int) -> nat
    decreases groups.len(),
{
    if groups.len() == 0 {
        0
    } else if groups.last().start <= face < groups.last().end {
        (groups.len() - 1) as nat
    } else {
        group_of(groups.drop_last(), face)
    }
}

/// The triangle that the face at position `face` becomes.
pub open spec fn triangle_of(mesh: MeshDocument, face: int) -> SmdTriangle {
    SmdTriangle {
        image_name: image_name(),
        group: group_of(mesh.groups, face),
        points: mesh.faces[face].map_values(|c: FaceComponents| vertex_of(mesh, c)),
    }
}

/// The SMD document that a mesh becomes: its groups by name and a triangle
/// for each face, both in the order of the mesh.
pub open spec fn smd_of(mesh: MeshDocument) -> SmdDocument {
    SmdDocument {
        groups: mesh.groups.map_values(|g: GroupRange| g.name),
        entries: Seq::new(mesh.faces.len(), |i: int| triangle_of(mesh, i)),
    }
}

fn resolve_point(list: &Vec<Float3>, reference: usize) -> (p: Float3)
    requires
        reference <= list.len(),
    ensures
        p@ == resolve(list@.map_values(|p: Float3| p@), reference),
{
    if reference == 0 {
        Float3 { x: Numeral::zero(), y: Numeral::zero(), z: Numeral::zero() }
    } else {
        list[reference - 1].clone()
    }
}

/// For each face of the mesh, the group that it belongs to.
fn groups_of_faces(obj: &ObjFile) -> (of_face: Vec<usize>)
    ensures
        of_face@.len() == obj.faces@.len(),
        forall|i: int|
            0 <= i < of_face@.len() ==> #[trigger] of_face@[i] == group_of(obj@.groups, i),
{
    let n = obj.faces.len();
    let mut of_face: Vec<usize> = Vec::new();
    while of_face.len() < n
        invariant
            n == obj.faces@.len(),
            of_face@.len() <= n,
            forall|i: int| 0 <= i < of_face@.len() ==> #[trigger] of_face@[i] == 0,
        decreases n - of_face.len(),
    {
        of_face.push(0);
    }
    let ghost groups = obj@.groups;
    for k in 0..obj.groups.len()
        invariant
            n == obj.faces@.len(),
            groups == obj@.groups,
            of_face@.len() == n,
            forall|i: int|
                0 <= i < n ==> #[trigger] of_face@[i] == group_of(groups.take(k as int), i),
    {
        let span = &obj.groups[k];
        let stop = if span.end < n {
            span.end
        } else {
            n
        };
        let ghost before = of_face@;
        proof {
            assert(groups.take(k + 1).drop_last() == groups.take(k as int));
        }
        let mut face = span.start;
        while face < stop
            invariant
                stop <= n,
                span.start <= face,
                face <= stop || face == span.start,
                before.len() == n,
                of_face@.len() == n,
                forall|i: int|
                    0 <= i < n ==> #[trigger] of_face@[i] == (if span.start <= i < face {
                        k
                    } else {
                        before[i]
                    }),
            decreases stop - face,
        {
            of_face.set(face, k);
            face += 1;
        }
    }
    proof {
        assert(groups.take(groups.len() as int) == groups);
    }
    of_face
}

/// Converts a valid mesh to an SMD document.
pub fn convert_obj(obj: &ObjFile) -> (smd: SMD)
    requires
        obj@.valid(),
    ensures
        smd@ == smd_of(obj@),
        obj@.faces.len() > 0 ==> smd@.valid(),
{
    proof {
        if obj@.faces.len() > 0 {
            lemma_converted_mesh_is_valid(*obj);
        }
    }
    let mut groups: Vec<String> = Vec::new();
    for k in 0..obj.groups.len()
        invariant
            groups@.map_values(|g: String| g@) == obj@.groups.map_values(
                |g: GroupRange| g.name,
            ).take(k as int),
    {
        let ghost before = groups@.map_values(|g: String| g@);
        let name = obj.groups[k].name.clone();
        groups.push(name);
        assert(groups@.map_values(|g: String| g@) == before.push(name@));
    }
    proof {
        let names = obj@.groups.map_values(|g: GroupRange| g.name);
        assert(names.take(names.len() as int) == names);
    }
    let of_face = groups_of_faces(obj);
    let mut entries: Vec<SMDEntry> = Vec::new();
    for i in 0..obj.faces.len()
        invariant
            obj@.valid(),
            of_face@.len() == obj.faces@.len(),
            forall|j: int|
                0 <= j < of_face@.len() ==> #[trigger] of_face@[j] == group_of(obj@.groups, j),
            entries@.len() == i,
            forall|j: int| 0 <= j < i ==> (#[trigger] entries@[j])@ == triangle_of(obj@, j),
    {
        let face = &obj.faces[i];
        let mut points: Vec<Float8> = Vec::new();
        for k in 0..face.components.len()
            invariant
                obj@.face_in_range(i as int),
                obj@.faces[i as int] == face@,
                points@.len() == k,
                forall|j: int|
                    0 <= j < k ==> (#[trigger] points@[j])@ == vertex_of(obj@, face@[j]),
        {
            let corner = face.components[k];
            let position = resolve_point(&obj.vertices, corner.vertex);
            let normal = resolve_point(&obj.normals, corner.normal);
            let texture = resolve_point(&obj.texture_coordinates, corner.texture);
            points.push(
                Float8 {
                    u: texture.x,
                    v: texture.y,
                    x: position.x,
                    y: position.y,
                    z: position.z,
                    x_norm: normal.x,
                    y_norm: normal.y,
                    z_norm: normal.z,
                },
            );
        }
        let entry = SMDEntry { image_name: "test.tga".to_owned(), group: of_face[i], points };
        assert(entry@.points == triangle_of(obj@, i as int).points);
        entries.push(entry);
    }
    let smd = SMD { groups, entries };
    assert(smd@.entries == smd_of(obj@).entries);
    smd
}

/// Why an SMD document cannot be written.
#[derive(Debug, Clone, Copy, PartialEq, Eq, Structural)]
pub enum SmdError {
    /// The document has no triangle.
    Empty,
    /// The entry at this position, the first of its kind, has no image name
    /// or does not have three corners.
    InvalidEntry { entry: usize },
}

impl SmdTriangle {
    /// The triangle names an image and has three corners.
    pub open spec fn valid(self) -> bool {
        self.image_name.len() > 0 && self.points.len() == 3
    }
}

impl SmdDocument {
    /// The document has a triangle, and each of its triangles is valid.
    pub open spec fn valid(self) -> bool {
        &&& self.entries.len() > 0
        &&& forall|i: int| 0 <= i < self.entries.len() ==> (#[trigger] self.entries[i]).valid()
    }
}

/// The eight numbers of a corner, with a tab between each two: position,
/// normal, texture coordinate.
pub open spec fn vertex_text(p: SmdVertex) -> Seq<char> {
    p.x + seq!['\t'] + p.y + seq!['\t'] + p.z + seq!['\t'] + p.x_norm + seq!['\t'] + p.y_norm
        + seq!['\t'] + p.z_norm + seq!['\t'] + p.u + seq!['\t'] + p.v
}

/// The line of a corner: a tab, the group, a tab, the numbers of the corner.
pub open spec fn vertex_line(group: nat, p: SmdVertex) -> Seq<char> {
    seq!['\t'] + decimal(group) + seq!['\t'] + vertex_text(p) + seq!['\n']
}

/// The block of a triangle: the line of its image, then the lines of its
/// three corners.
pub open spec fn triangle_text(t: SmdTriangle) -> Seq<char> {
    t.image_name + seq!['\n'] + vertex_line(t.group, t.points[0]) + vertex_line(
        t.group,
        t.points[1],
    ) + vertex_line(t.group, t.points[2])
}

/// The line of a group in the list of nodes, which begins with the end of
/// the line before: the position of the group, its name in quotes, and -1 in
/// place of a parent, each after a tab.
pub open spec fn node_text(index: int, name: Seq<char>) -> Seq<char> {
    "\n\t"@ + decimal(index as nat) + "\t\""@ + name + "\"\t-1"@
}

/// The list of nodes: a line for each group.
pub open spec fn nodes_text(groups: Seq<Seq<char>>) -> Seq<char> {
    Seq::new(groups.len(), |i: int| node_text(i, groups[i])).flatten()
}

/// The blocks of the triangles, one after the other.
pub open spec fn triangles_text(entries: Seq<SmdTriangle>) -> Seq<char> {
    entries.map_values(|t: SmdTriangle| triangle_text(t)).flatten()
}

/// The text of an SMD document: the version, the nodes, a skeleton of one
/// frame in which the first node rests at the origin, and the triangles.
pub open spec fn document_text(d: SmdDocument) -> Seq<char> {
    "version 1\nnodes"@ + nodes_text(d.groups)
        + "\nend\nskeleton\ntime 0\n\t0 0.000000 0.000000 0.000000 0.000000 0.000000 0.000000\nend\ntriangles\n"@
        + triangles_text(d.entries) + "end\n"@
}

/// The position of the first triangle that is not valid.
pub open spec fn first_invalid(entries: Seq<SmdTriangle>) -> Option<usize>
    decreases entries.len(),
{
    if entries.len() == 0 {
        None
    } else if first_invalid(entries.drop_last()) is Some {
        first_invalid(entries.drop_last())
    } else if !entries.last().valid() {
        Some((entries.len() - 1) as usize)
    } else {
        None
    }
}

/// What writing a document gives: its text, if the document is valid, and
/// else what keeps it from being written.
pub open spec fn written(d: SmdDocument) -> Result<Seq<char>, SmdError> {
    if d.entries.len() == 0 {
        Err(SmdError::Empty)
    } else {
        match first_invalid(d.entries) {
            Some(entry) => Err(SmdError::InvalidEntry { entry }),
            None => Ok(document_text(d)),
        }
    }
}

/// There is a first invalid triangle exactly if some triangle is invalid,
/// and the triangles before it are valid.
pub proof fn lemma_first_invalid(entries: Seq<SmdTriangle>)
    requires
        entries.len() <= usize::MAX,
    ensures
        first_invalid(entries) is None <==> forall|i: int|
            0 <= i < entries.len() ==> (#[trigger] entries[i]).valid(),
        first_invalid(entries) matches Some(at) ==> at < entries.len() && !entries[at as int].valid()
            && forall|i: int| 0 <= i < at ==> (#[trigger] entries[i]).valid(),
    decreases entries.len(),
{
    if entries.len() > 0 {
        lemma_first_invalid(entries.drop_last());
        assert forall|i: int| 0 <= i < entries.len() - 1 implies entries[i]
            == entries.drop_last()[i] by {}
        if first_invalid(entries.drop_last()) is None {
            assert(forall|i: int|
                0 <= i < entries.len() - 1 ==> (#[trigger] entries.drop_last()[i]).valid());
        }
    }
}

/// The documents that are written are the valid ones.
pub proof fn lemma_valid_documents_are_written(smd: SMD)
    ensures
        written(smd@) is Ok <==> smd@.valid(),
        smd@.valid() ==> written(smd@) == Ok::<Seq<char>, SmdError>(document_text(smd@)),
{
    assert(smd@.entries.len() == smd.entries.len());
    lemma_first_invalid(smd@.entries);
}

/// An invalid triangle among the first `n` is the first among them all.
proof fn lemma_invalid_stays(entries: Seq<SmdTriangle>, n: int)
    requires
        0 <= n <= entries.len(),
        first_invalid(entries.take(n)) is Some,
    ensures
        first_invalid(entries) == first_invalid(entries.take(n)),
    decreases entries.len() - n,
{
    if n < entries.len() {
        assert(entries.take(n + 1).drop_last() == entries.take(n));
        lemma_invalid_stays(entries, n + 1);
    } else {
        assert(entries.take(n) == entries);
    }
}

fn push_vertex(out: &mut Vec<char>, p: &Float8)
    ensures
        final(out)@ == old(out)@ + vertex_text(p@),
{
    push_text(out, p.x.as_str());
    out.push('\t');
    push_text(out, p.y.as_str());
    out.push('\t');
    push_text(out, p.z.as_str());
    out.push('\t');
    push_text(out, p.x_norm.as_str());
    out.push('\t');
    push_text(out, p.y_norm.as_str());
    out.push('\t');
    push_text(out, p.z_norm.as_str());
    out.push('\t');
    push_text(out, p.u.as_str());
    out.push('\t');
    push_text(out, p.v.as_str());
}

fn push_vertex_line(out: &mut Vec<char>, group: usize, p: &Float8)
    ensures
        final(out)@ == old(out)@ + vertex_line(group as nat, p@),
{
    out.push('\t');
    push_decimal(out, group);
    out.push('\t');
    push_vertex(out, p);
    out.push('\n');
}

fn push_triangle(out: &mut Vec<char>, entry: &SMDEntry)
    requires
        entry@.points.len() == 3,
    ensures
        final(out)@ == old(out)@ + triangle_text(entry@),
{
    push_text(out, entry.image_name.as_str());
    out.push('\n');
    push_vertex_line(out, entry.group, &entry.points[0]);
    push_vertex_line(out, entry.group, &entry.points[1]);
    push_vertex_line(out, entry.group, &entry.points[2]);
}

impl Float8 {
    /// The eight numbers of the corner, with a tab between each two:
    /// position, normal, texture coordinate.
    pub fn to_string(&self) -> (text: String)
        ensures
            text@ == vertex_text(self@),
    {
        let mut out: Vec<char> = Vec::new();
        push_vertex(&mut out, self);
        string_of(&out)
    }
}

impl SMDEntry {
    /// Whether the triangle names an image and has three corners.
    pub fn is_valid(&self) -> (r: bool)
        ensures
            r == self@.valid(),
    {
        !self.image_name.as_str().is_empty() && self.points.len() == 3
    }

    /// The block of the triangle: the line of its image, then a line for
    /// each corner.
    pub fn to_string(&self) -> (text: String)
        requires
            self@.points.len() == 3,
        ensures
            text@ == triangle_text(self@),
    {
        let mut out: Vec<char> = Vec::new();
        push_triangle(&mut out, self);
        string_of(&out)
    }
}

impl SMD {
    fn first_invalid(&self) -> (r: Option<usize>)
        ensures
            r == first_invalid(self@.entries),
    {
        for i in 0..self.entries.len()
            invariant
                first_invalid(self@.entries.take(i as int)) is None,
        {
            assert(self@.entries[i as int] == self.entries[i as int]@);
            assert(self@.entries.take(i + 1).drop_last() == self@.entries.take(i as int));
            if !self.entries[i].is_valid() {
                proof {
                    lemma_invalid_stays(self@.entries, i + 1);
                }
                return Some(i);
            }
        }
        assert(self@.entries.take(self@.entries.len() as int) == self@.entries);
        None
    }

    /// Whether the document can be written.
    pub fn is_valid(&self) -> (r: bool)
        ensures
            r == self@.valid(),
    {
        proof {
            assert(self@.entries.len() == self.entries.len());
            lemma_first_invalid(self@.entries);
        }
        self.entries.len() > 0 && self.first_invalid().is_none()
    }

    /// The text of the document, if the document is valid.
    pub fn to_string(&self) -> (r: Result<String, SmdError>)
        ensures
            viewed(r) == written(self@),
            r is Ok <==> self@.valid(),
    {
        proof {
            assert(self@.entries.len() == self.entries.len());
            lemma_first_invalid(self@.entries);
        }
        if self.entries.len() == 0 {
            return Err(SmdError::Empty);
        }
        match self.first_invalid() {
            Some(entry) => {
                return Err(SmdError::InvalidEntry { entry });
            },
            None => {},
        }
        let mut out: Vec<char> = Vec::new();
        push_text(&mut out, "version 1\nnodes");
        let ghost head = out@;
        let ghost nodes = Seq::new(self@.groups.len(), |i: int| node_text(i, self@.groups[i]));
        for i in 0..self.groups.len()
            invariant
                nodes == Seq::new(self@.groups.len(), |i: int| node_text(i, self@.groups[i])),
                out@ == head + nodes.take(i as int).flatten(),
        {
            let ghost before = out@;
            push_text(&mut out, "\n\t");
            push_decimal(&mut out, i);
            push_text(&mut out, "\t\"");
            push_text(&mut out, self.groups[i].as_str());
            push_text(&mut out, "\"\t-1");
            proof {
                assert(out@ == before + nodes[i as int]);
                assert(nodes.take(i + 1) == nodes.take(i as int).push(nodes[i as int]));
                nodes.take(i as int).lemma_flatten_push(nodes[i as int]);
            }
        }
        proof {
            assert(nodes.take(nodes.len() as int) == nodes);
        }
        push_text(
            &mut out,
            "\nend\nskeleton\ntime 0\n\t0 0.000000 0.000000 0.000000 0.000000 0.000000 0.000000\nend\ntriangles\n",
        );
        let ghost middle = out@;
        let ghost blocks = self@.entries.map_values(|t: SmdTriangle| triangle_text(t));
        for i in 0..self.entries.len()
            invariant
                blocks == self@.entries.map_values(|t: SmdTriangle| triangle_text(t)),
                forall|j: int|
                    0 <= j < self@.entries.len() ==> (#[trigger] self@.entries[j]).valid(),
                out@ == middle + blocks.take(i as int).flatten(),
        {
            let ghost before = out@;
            assert(self@.entries[i as int] == self.entries[i as int]@);
            push_triangle(&mut out, &self.entries[i]);
            proof {
                assert(out@ == before + blocks[i as int]);
                assert(blocks.take(i + 1) == blocks.take(i as int).push(blocks[i as int]));
                blocks.take(i as int).lemma_flatten_push(blocks[i as int]);
            }
        }
        proof {
            assert(blocks.take(blocks.len() as int) == blocks);
        }
        push_text(&mut out, "end\n");
        Ok(string_of(&out))
    }
}

/// The block that the face at position `face` of a mesh comes to in the
/// text of the converted mesh: the line of the image, then the lines of the
/// three corners of the face.
pub open spec fn face_block(mesh: MeshDocument, face: int) -> Seq<char> {
    let group = group_of(mesh.groups, face);
    let corners = mesh.faces[face];
    image_name() + seq!['\n'] + vertex_line(group, vertex_of(mesh, corners[0])) + vertex_line(
        group,
        vertex_of(mesh, corners[1]),
    ) + vertex_line(group, vertex_of(mesh, corners[2]))
}

/// A valid mesh with at least one face converts to a valid SMD document.
pub proof fn lemma_converted_mesh_is_valid(mesh: ObjFile)
    requires
        mesh@.valid(),
        mesh@.faces.len() > 0,
    ensures
        smd_of(mesh@).valid(),
{
    reveal_strlit("test.tga");
    let d = smd_of(mesh@);
    assert forall|i: int| 0 <= i < d.entries.len() implies (#[trigger] d.entries[i]).valid() by {
        assert(mesh@.faces[i].len() == 3);
    }
}

/// Converting a valid mesh and writing the result gives a text whose list of
/// triangles holds one block for each face of the mesh, in the order of the
/// faces, each block being the three corners of its face.
pub proof fn lemma_one_block_for_each_face(mesh: ObjFile)
    requires
        mesh@.valid(),
        mesh@.faces.len() > 0,
    ensures
        smd_of(mesh@).valid(),
        smd_of(mesh@).entries.len() == mesh@.faces.len(),
        triangles_text(smd_of(mesh@).entries) == Seq::new(
            mesh@.faces.len(),
            |i: int| face_block(mesh@, i),
        ).flatten(),
        document_text(smd_of(mesh@)) == "version 1\nnodes"@ + nodes_text(
            mesh@.groups.map_values(|g: GroupRange| g.name),
        )
            + "\nend\nskeleton\ntime 0\n\t0 0.000000 0.000000 0.000000 0.000000 0.000000 0.000000\nend\ntriangles\n"@
            + Seq::new(mesh@.faces.len(), |i: int| face_block(mesh@, i)).flatten() + "end\n"@,
{
    lemma_converted_mesh_is_valid(mesh);
    let m = mesh@;
    let blocks = smd_of(m).entries.map_values(|t: SmdTriangle| triangle_text(t));
    let by_face = Seq::new(m.faces.len(), |i: int| face_block(m, i));
    assert forall|i: int| 0 <= i < blocks.len() implies blocks[i] == by_face[i] by {
        assert(m.faces[i].len() == 3);
    }
    assert(blocks =~= by_face);
}

/// The group of a face is the last group that holds the face, and group
/// zero where no group holds it.
pub proof fn lemma_group_of_is_last(groups: Seq<GroupRange>, face: int)
    ensures
        group_of(groups, face) < groups.len() || group_of(groups, face) == 0,
        forall|k: int|
            group_of(groups, face) < k < groups.len() ==> !((#[trigger] groups[k]).start <= face
                < groups[k].end),
        (exists|k: int| 0 <= k < groups.len() && (#[trigger] groups[k]).start <= face < groups[k].end)
            ==> groups[group_of(groups, face) as int].start <= face < groups[group_of(
            groups,
            face,
        ) as int].end,
        (forall|k: int| 0 <= k < groups.len() ==> !((#[trigger] groups[k]).start <= face
            < groups[k].end)) ==> group_of(groups, face) == 0,
    decreases groups.len(),
{
    if groups.len() > 0 {
        let before = groups.drop_last();
        lemma_group_of_is_last(before, face);
        if !(groups.last().start <= face < groups.last().end) {
            assert forall|k: int| group_of(groups, face) < k < groups.len() implies !((
            #[trigger] groups[k]).start <= face < groups[k].end) by {
                if k < before.len() {
                    assert(before[k] == groups[k]);
                }
            }
            if exists|k: int|
                0 <= k < groups.len() && (#[trigger] groups[k]).start <= face < groups[k].end {
                let k = choose|k: int|
                    0 <= k < groups.len() && (#[trigger] groups[k]).start <= face < groups[k].end;
                assert(before[k] == groups[k]);
                assert(before[group_of(before, face) as int] == groups[group_of(before, face) as int]);
            }
            if forall|k: int|
                0 <= k < groups.len() ==> !((#[trigger] groups[k]).start <= face < groups[k].end) {
                assert forall|k: int| 0 <= k < before.len() implies !((#[trigger] before[k]).start
                    <= face < before[k].end) by {
                    assert(before[k] == groups[k]);
                }
            }
        }
    }
}

/// Groups that lie one after the other do not overlap, so a face belongs to
/// the one group that holds it.
pub proof fn lemma_group_of_tiled(groups: Seq<GroupRange>, k: int, face: int)
    requires
        forall|j: int| 0 <= j < groups.len() ==> (#[trigger] groups[j]).start <= groups[j].end,
        forall|j: int| 0 <= j < groups.len() - 1 ==> (#[trigger] groups[j]).end == groups[j + 1].start,
        0 <= k < groups.len(),
        groups[k].start <= face < groups[k].end,
    ensures
        group_of(groups, face) == k,
    decreases groups.len() - k,
{
    if k < groups.len() - 1 {
        lemma_later_groups_start_later(groups, k, groups.len() - 1);
        let before = groups.drop_last();
        assert forall|j: int| 0 <= j < before.len() - 1 implies (#[trigger] before[j]).end
            == before[j + 1].start by {
            assert(groups[j].end == groups[j + 1].start);
        }
        lemma_group_of_tiled(before, k, face);
    }
}

/// Of groups that lie one after the other, a later one does not begin
/// before an earlier one has ended.
proof fn lemma_later_groups_start_later(groups: Seq<GroupRange>, k: int, later: int)
    requires
        forall|j: int| 0 <= j < groups.len() ==> (#[trigger] groups[j]).start <= groups[j].end,
        forall|j: int| 0 <= j < groups.len() - 1 ==> (#[trigger] groups[j]).end == groups[j + 1].start,
        0 <= k < later < groups.len(),
    ensures
        groups[k].end <= groups[later].start,
    decreases later - k,
{
    if k + 1 < later {
        lemma_later_groups_start_later(groups, k, later - 1);
        assert(groups[later - 1].end == groups[later - 1 + 1].start);
    } else {
        assert(groups[k].end == groups[k + 1].start);
    }
}

/// `to` is `from` with `f` applied to each of its numbers.
pub open spec fn vertex_mapped<F: Fn(&Numeral) -> Numeral>(f: F, from: Float8, to: Float8) -> bool {
    &&& f.ensures((&from.u,), to.u)
    &&& f.ensures((&from.v,), to.v)
    &&& f.ensures((&from.x,), to.x)
    &&& f.ensures((&from.y,), to.y)
    &&& f.ensures((&from.z,), to.z)
    &&& f.ensures((&from.x_norm,), to.x_norm)
    &&& f.ensures((&from.y_norm,), to.y_norm)
    &&& f.ensures((&from.z_norm,), to.z_norm)
}

/// `to` is `from` with `f` applied to each number of each corner, and
/// nothing else changed.
pub open spec fn entry_mapped<F: Fn(&Numeral) -> Numeral>(f: F, from: SMDEntry, to: SMDEntry) -> bool {
    &&& to.image_name@ == from.image_name@
    &&& to.group == from.group
    &&& to.points@.len() == from.points@.len()
    &&& forall|k: int|
        0 <= k < from.points@.len() ==> vertex_mapped(f, from.points@[k], #[trigger] to.points@[k])
}

impl Float8 {
    /// The corner with `f` applied to each of its numbers.
    pub fn map_numbers<F: Fn(&Numeral) -> Numeral>(&self, f: &F) -> (r: Float8)
        requires
            forall|n: &Numeral| #[trigger] f.requires((n,)),
        ensures
            vertex_mapped(*f, *self, r),
    {
        Float8 {
            u: f(&self.u),
            v: f(&self.v),
            x: f(&self.x),
            y: f(&self.y),
            z: f(&self.z),
            x_norm: f(&self.x_norm),
            y_norm: f(&self.y_norm),
            z_norm: f(&self.z_norm),
        }
    }
}

impl SMDEntry {
    /// The triangle with `f` applied to each number of each corner.
    pub fn map_numbers<F: Fn(&Numeral) -> Numeral>(&self, f: &F) -> (r: SMDEntry)
        requires
            forall|n: &Numeral| #[trigger] f.requires((n,)),
        ensures
            entry_mapped(*f, *self, r),
    {
        let mut points: Vec<Float8> = Vec::new();
        for k in 0..self.points.len()
            invariant
                forall|n: &Numeral| #[trigger] f.requires((n,)),
                points@.len() == k,
                forall|j: int|
                    0 <= j < k ==> vertex_mapped(*f, self.points@[j], #[trigger] points@[j]),
        {
            points.push(self.points[k].map_numbers(f));
        }
        SMDEntry { image_name: self.image_name.clone(), group: self.group, points }
    }
}

impl SMD {
    /// The document with `f` applied to each number of each triangle, and
    /// nothing else changed. This is how the numbers of a document are
    /// brought into the form in which they are to be written.
    pub fn map_numbers<F: Fn(&Numeral) -> Numeral>(&self, f: &F) -> (r: SMD)
        requires
            forall|n: &Numeral| #[trigger] f.requires((n,)),
        ensures
            r@.groups == self@.groups,
            r.entries@.len() == self.entries@.len(),
            forall|i: int|
                0 <= i < self.entries@.len() ==> entry_mapped(
                    *f,
                    self.entries@[i],
                    #[trigger] r.entries@[i],
                ),
            r@.valid() == self@.valid(),
    {
        let mut entries: Vec<SMDEntry> = Vec::new();
        for i in 0..self.entries.len()
            invariant
                forall|n: &Numeral| #[trigger] f.requires((n,)),
                entries@.len() == i,
                forall|j: int|
                    0 <= j < i ==> entry_mapped(*f, self.entries@[j], #[trigger] entries@[j]),
        {
            entries.push(self.entries[i].map_numbers(f));
        }
        let r = SMD { groups: copy_names(&self.groups), entries };
        proof {
            assert forall|i: int|
                #![trigger r@.entries[i]]
                #![trigger self@.entries[i]]
                0 <= i < self.entries@.len() implies r@.entries[i].valid()
                == self@.entries[i].valid() by {
                assert(entry_mapped(*f, self.entries@[i], r.entries@[i]));
                assert(r@.entries[i] == r.entries@[i]@);
                assert(self@.entries[i] == self.entries@[i]@);
            }
        }
        r
    }
}

} // verus!
