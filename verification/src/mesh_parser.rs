//! Reading a mesh from the text of an OBJ file.
//!
//! A file is read line by line. The first word of a line says what the line
//! states; a line without words, a comment and a line with a keyword that the
//! reader does not know state nothing.

use vstd::prelude::*;
use crate::conversion::{
    face_of,
    point_of,
    token_to_float3,
    tokens_to_face,
    viewed,
    ParseErrorKind,
};
use crate::obj_file::{
    Face,
    FaceComponents,
    Float3,
    GroupRange,
    GroupSpan,
    MeshDocument,
    ObjFile,
    Point3,
};
use crate::text::{chars_of, lines, split_text, tokenize, tokens};

verus! {

/// A line that could not be read.
#[derive(Debug, Clone, Copy, PartialEq, Eq, Structural)]
pub struct ParseError {
    /// The number of the line, the first line of the file being line one.
    pub line: usize,
    pub kind: ParseErrorKind,
}

/// What a line states.
pub enum Statement {
    /// Nothing: the line has no words.
    Blank,
    /// Nothing: the line is a comment.
    Comment,
    /// A vertex at this point.
    Vertex(Point3),
    /// A normal in this direction.
    Normal(Point3),
    /// A texture coordinate.
    TextureCoordinate(Point3),
    /// The start of the group of this name.
    Group(Seq<char>),
    /// A face with these corners.
    Face(Seq<FaceComponents>),
    /// Nothing that the reader knows of: the keyword is none of its own.
    Unknown,
    /// Nothing: the line has a keyword of the reader's and is wrong in this
    /// way.
    Malformed(ParseErrorKind),
}

/// What the line with these words states.
pub open spec fn statement(words: Seq<Seq<char>>) -> Statement {
    if words.len() == 0 {
        Statement::Blank
    } else if words[0] == seq!['#'] {
        Statement::Comment
    } else if words[0] == seq!['v'] {
        match point_of(words) {
            Ok(p) => Statement::Vertex(p),
            Err(e) => Statement::Malformed(e),
        }
    } else if words[0] == seq!['v', 'n'] {
        match point_of(words) {
            Ok(p) => Statement::Normal(p),
            Err(e) => Statement::Malformed(e),
        }
    } else if words[0] == seq!['v', 't'] {
        match point_of(words) {
            Ok(p) => Statement::TextureCoordinate(p),
            Err(e) => Statement::Malformed(e),
        }
    } else if words[0] == seq!['g'] {
        if words.len() < 2 {
            Statement::Malformed(ParseErrorKind::MissingGroupName)
        } else {
            Statement::Group(words[1])
        }
    } else if words[0] == seq!['f'] {
        match face_of(words) {
            Ok(f) => Statement::Face(f),
            Err(e) => Statement::Malformed(e),
        }
    } else {
        Statement::Unknown
    }
}

/// What reading the line with these words gives: what the line states, or
/// what is wrong with it.
pub open spec fn reading_of(words: Seq<Seq<char>>) -> Result<Statement, ParseErrorKind> {
    match statement(words) {
        Statement::Malformed(e) => Err(e),
        stated => Ok(stated),
    }
}

/// A line of a mesh file, read: what the line states, with its values.
#[derive(Debug)]
pub enum Record {
    /// A line without words.
    Blank,
    /// A comment.
    Comment,
    /// A vertex.
    Vertex(Float3),
    /// A normal.
    Normal(Float3),
    /// A texture coordinate.
    TextureCoordinate(Float3),
    /// The start of the group of this name.
    Group(String),
    /// A face.
    Face(Face),
    /// A line with a keyword that the reader does not know.
    Unknown,
}

impl View for Record {
    type V = Statement;

    open spec fn view(&self) -> Statement {
        match self {
            Record::Blank => Statement::Blank,
            Record::Comment => Statement::Comment,
            Record::Vertex(p) => Statement::Vertex(p@),
            Record::Normal(p) => Statement::Normal(p@),
            Record::TextureCoordinate(p) => Statement::TextureCoordinate(p@),
            Record::Group(name) => Statement::Group(name@),
            Record::Face(f) => Statement::Face(f@),
            Record::Unknown => Statement::Unknown,
        }
    }
}

/// Whether `word` is the single character `a`.
fn is_letter_word(word: &Vec<char>, a: char) -> (r: bool)
    ensures
        r == (word@ == seq![a]),
{
    let r = word.len() == 1 && word[0] == a;
    assert(r ==> word@ =~= seq![a]);
    r
}

/// Whether `word` is the two characters `a` and `b`.
fn is_pair_word(word: &Vec<char>, a: char, b: char) -> (r: bool)
    ensures
        r == (word@ == seq![a, b]),
{
    let r = word.len() == 2 && word[0] == a && word[1] == b;
    assert(r ==> word@ =~= seq![a, b]);
    r
}

fn read_words(words: &Vec<String>) -> (r: Result<Record, ParseErrorKind>)
    ensures
        viewed(r) == reading_of(words.deep_view()),
{
    if words.len() == 0 {
        return Ok(Record::Blank);
    }
    let key = chars_of(words[0].as_str());
    if is_letter_word(&key, '#') {
        Ok(Record::Comment)
    } else if is_letter_word(&key, 'v') {
        match token_to_float3(words) {
            Ok(p) => Ok(Record::Vertex(p)),
            Err(e) => Err(e),
        }
    } else if is_pair_word(&key, 'v', 'n') {
        match token_to_float3(words) {
            Ok(p) => Ok(Record::Normal(p)),
            Err(e) => Err(e),
        }
    } else if is_pair_word(&key, 'v', 't') {
        match token_to_float3(words) {
            Ok(p) => Ok(Record::TextureCoordinate(p)),
            Err(e) => Err(e),
        }
    } else if is_letter_word(&key, 'g') {
        if words.len() < 2 {
            Err(ParseErrorKind::MissingGroupName)
        } else {
            let name = words[1].clone();
            Ok(Record::Group(name))
        }
    } else if is_letter_word(&key, 'f') {
        match tokens_to_face(words) {
            Ok(f) => Ok(Record::Face(f)),
            Err(e) => Err(e),
        }
    } else {
        Ok(Record::Unknown)
    }
}

/// Reads one line.
pub fn parse_line(line: &str) -> (r: Result<Record, ParseErrorKind>)
    ensures
        viewed(r) == reading_of(tokens(line@)),
{
    let words = tokenize(line);
    read_words(&words)
}

/// The vertex that a statement gives, if it gives one.
pub open spec fn vertex_in(s: Statement) -> Option<Point3> {
    match s {
        Statement::Vertex(p) => Some(p),
        _ => None,
    }
}

/// The normal that a statement gives, if it gives one.
pub open spec fn normal_in(s: Statement) -> Option<Point3> {
    match s {
        Statement::Normal(p) => Some(p),
        _ => None,
    }
}

/// The texture coordinate that a statement gives, if it gives one.
pub open spec fn texture_coordinate_in(s: Statement) -> Option<Point3> {
    match s {
        Statement::TextureCoordinate(p) => Some(p),
        _ => None,
    }
}

/// The face that a statement gives, if it gives one.
pub open spec fn face_in(s: Statement) -> Option<Seq<FaceComponents>> {
    match s {
        Statement::Face(f) => Some(f),
        _ => None,
    }
}

/// The vertices that the statements give, in order.
pub open spec fn vertices_of(ss: Seq<Statement>) -> Seq<Point3> {
    ss.filter_map(|s: Statement| vertex_in(s))
}

/// The normals that the statements give, in order.
pub open spec fn normals_of(ss: Seq<Statement>) -> Seq<Point3> {
    ss.filter_map(|s: Statement| normal_in(s))
}

/// The texture coordinates that the statements give, in order.
pub open spec fn texture_coordinates_of(ss: Seq<Statement>) -> Seq<Point3> {
    ss.filter_map(|s: Statement| texture_coordinate_in(s))
}

/// The faces that the statements give, in order.
pub open spec fn faces_of(ss: Seq<Statement>) -> Seq<Seq<FaceComponents>> {
    ss.filter_map(|s: Statement| face_in(s))
}

/// The groups that the statements declare, in order, each with the faces
/// stated since its declaration: a group statement opens a group that is
/// empty so far, and a face statement adds its face to the group opened
/// last, if there is one.
pub open spec fn groups_of(ss: Seq<Statement>) -> Seq<GroupRange>
    decreases ss.len(),
{
    if ss.len() == 0 {
        Seq::empty()
    } else {
        let before = groups_of(ss.drop_last());
        let faces = faces_of(ss.drop_last()).len() as int;
        match ss.last() {
            Statement::Group(name) => before.push(GroupRange { name, start: faces, end: faces }),
            Statement::Face(_) => if before.len() > 0 {
                before.update(
                    before.len() - 1,
                    GroupRange { end: before.last().end + 1, ..before.last() },
                )
            } else {
                before
            },
            _ => before,
        }
    }
}

/// The mesh that the statements describe.
pub open spec fn mesh_of(ss: Seq<Statement>) -> MeshDocument {
    MeshDocument {
        faces: faces_of(ss),
        vertices: vertices_of(ss),
        normals: normals_of(ss),
        texture_coordinates: texture_coordinates_of(ss),
        groups: groups_of(ss),
    }
}

/// What the lines of a text state, line by line.
pub open spec fn statements(text: Seq<char>) -> Seq<Statement> {
    lines(text).map_values(|line: Seq<char>| statement(tokens(line)))
}

/// The first of the statements that is malformed, as the error that it
/// makes: its line, the first line being line one, and what is wrong with it.
pub open spec fn first_fault(ss: Seq<Statement>) -> Option<ParseError>
    decreases ss.len(),
{
    if ss.len() == 0 {
        None
    } else if first_fault(ss.drop_last()) is Some {
        first_fault(ss.drop_last())
    } else {
        match ss.last() {
            Statement::Malformed(kind) => Some(ParseError { line: ss.len() as usize, kind }),
            _ => None,
        }
    }
}

/// What reading a text gives: the mesh that its lines describe, or the first
/// line that is malformed.
pub open spec fn reading(text: Seq<char>) -> Result<MeshDocument, ParseError> {
    match first_fault(statements(text)) {
        Some(e) => Err(e),
        None => Ok(mesh_of(statements(text))),
    }
}

/// Reads a mesh from the text of an OBJ file. The text is read to its end or
/// not at all: the first line that cannot be read is the error.
pub fn process_file(file_contents: String) -> (r: Result<ObjFile, ParseError>)
    ensures
        viewed(r) == reading(file_contents@),
        r matches Ok(mesh) ==> tiled(mesh@.groups, mesh@.faces.len() as int),
{
    let text_lines = split_text(file_contents.as_str(), '\n');
    let ghost all = statements(file_contents@);
    let mut faces: Vec<Face> = Vec::new();
    let mut vertices: Vec<Float3> = Vec::new();
    let mut normals: Vec<Float3> = Vec::new();
    let mut texture_coordinates: Vec<Float3> = Vec::new();
    let mut groups: Vec<GroupSpan> = Vec::new();
    let mut open: Option<GroupSpan> = None;
    for i in 0..text_lines.len()
        invariant
            text_lines.deep_view() == lines(file_contents@),
            all == statements(file_contents@),
            all.len() == text_lines.len(),
            first_fault(all.take(i as int)) is None,
            faces@.map_values(|f: Face| f@) == faces_of(all.take(i as int)),
            vertices@.map_values(|p: Float3| p@) == vertices_of(all.take(i as int)),
            normals@.map_values(|p: Float3| p@) == normals_of(all.take(i as int)),
            texture_coordinates@.map_values(|p: Float3| p@) == texture_coordinates_of(
                all.take(i as int),
            ),
            match open {
                Some(span) => groups_of(all.take(i as int)) == groups@.map_values(
                    |g: GroupSpan| g@,
                ).push(
                    GroupRange { name: span.name@, start: span.start as int, end: faces@.len() as int },
                ),
                None => groups_of(all.take(i as int)).len() == 0 && groups@.len() == 0,
            },
    {
        proof {
            assert(all.take(i + 1).drop_last() == all.take(i as int));
            all.lemma_filter_map_take_succ(|s: Statement| face_in(s), i as int);
            all.lemma_filter_map_take_succ(|s: Statement| vertex_in(s), i as int);
            all.lemma_filter_map_take_succ(|s: Statement| normal_in(s), i as int);
            all.lemma_filter_map_take_succ(|s: Statement| texture_coordinate_in(s), i as int);
        }
        match parse_line(text_lines[i].as_str()) {
            Err(kind) => {
                proof {
                    lemma_fault_stays(all, i + 1);
                }
                return Err(ParseError { line: i + 1, kind });
            },
            Ok(Record::Vertex(p)) => {
                vertices.push(p);
            },
            Ok(Record::Normal(p)) => {
                normals.push(p);
            },
            Ok(Record::TextureCoordinate(p)) => {
                texture_coordinates.push(p);
            },
            Ok(Record::Face(f)) => {
                faces.push(f);
            },
            Ok(Record::Group(name)) => {
                match open {
                    Some(span) => {
                        groups.push(
                            GroupSpan { name: span.name, start: span.start, end: faces.len() },
                        );
                    },
                    None => {},
                }
                open = Some(GroupSpan { name, start: faces.len(), end: faces.len() });
            },
            Ok(_) => {},
        }
    }
    proof {
        assert(all.take(all.len() as int) == all);
        lemma_groups_tile(all);
    }
    match open {
        Some(span) => {
            let ghost old_groups = groups@.map_values(|g: GroupSpan| g@);
            let closed = GroupSpan { name: span.name, start: span.start, end: faces.len() };
            groups.push(closed);
            assert(groups@.map_values(|g: GroupSpan| g@) == old_groups.push(closed@));
        },
        None => {
            assert(groups@.map_values(|g: GroupSpan| g@) == groups_of(all));
        },
    }
    Ok(ObjFile { faces, vertices, normals, texture_coordinates, groups })
}

/// The numbers of the lines, among the first `n`, whose keyword the reader
/// does not know, the first line being line one.
pub open spec fn unknown_among(ss: Seq<Statement>, n: int) -> Seq<usize>
    decreases n,
{
    if n <= 0 {
        Seq::empty()
    } else if ss[n - 1] is Unknown {
        unknown_among(ss, n - 1).push(n as usize)
    } else {
        unknown_among(ss, n - 1)
    }
}

/// The numbers of the lines that the reader passes over because it does not
/// know their keyword, in order, the first line being line one.
pub fn unrecognized_lines(file_contents: &str) -> (found: Vec<usize>)
    ensures
        found@ == unknown_among(
            statements(file_contents@),
            statements(file_contents@).len() as int,
        ),
{
    let text_lines = split_text(file_contents, '\n');
    let ghost all = statements(file_contents@);
    let mut found: Vec<usize> = Vec::new();
    for i in 0..text_lines.len()
        invariant
            text_lines.deep_view() == lines(file_contents@),
            all == statements(file_contents@),
            all.len() == text_lines.len(),
            found@ == unknown_among(all, i as int),
    {
        match parse_line(text_lines[i].as_str()) {
            Ok(Record::Unknown) => {
                found.push(i + 1);
            },
            _ => {},
        }
    }
    found
}

/// The groups lie one after the other among the first `total` faces: each
/// ends where the next begins, and the last ends with the last face.
pub open spec fn tiled(groups: Seq<GroupRange>, total: int) -> bool {
    &&& forall|k: int|
        0 <= k < groups.len() ==> 0 <= (#[trigger] groups[k]).start <= groups[k].end <= total
    &&& forall|k: int| 0 <= k < groups.len() - 1 ==> (#[trigger] groups[k]).end == groups[k + 1].start
    &&& groups.len() > 0 ==> groups.last().end == total
}

/// The number of faces stated among the first `n` statements.
pub open spec fn faces_before(ss: Seq<Statement>, n: int) -> int {
    faces_of(ss.take(n)).len() as int
}

/// The number of groups declared among the first `n` statements.
pub open spec fn groups_before(ss: Seq<Statement>, n: int) -> int {
    groups_of(ss.take(n)).len() as int
}

/// A fault among the first `n` statements is the first fault of them all.
proof fn lemma_fault_stays(ss: Seq<Statement>, n: int)
    requires
        0 <= n <= ss.len(),
        first_fault(ss.take(n)) is Some,
    ensures
        first_fault(ss) == first_fault(ss.take(n)),
    decreases ss.len() - n,
{
    if n < ss.len() {
        assert(ss.take(n + 1).drop_last() == ss.take(n));
        lemma_fault_stays(ss, n + 1);
    } else {
        assert(ss.take(n) == ss);
    }
}

/// The first fault is the malformed statement that no malformed statement
/// comes before, and there is none exactly if no statement is malformed.
/// This is said of texts whose lines a `usize` can count.
pub proof fn lemma_first_fault(ss: Seq<Statement>)
    requires
        ss.len() <= usize::MAX,
    ensures
        first_fault(ss) is None <==> forall|i: int|
            0 <= i < ss.len() ==> !(#[trigger] ss[i] is Malformed),
        first_fault(ss) matches Some(e) ==> 1 <= e.line <= ss.len() && ss[e.line - 1]
            == Statement::Malformed(e.kind) && forall|i: int|
            0 <= i < e.line - 1 ==> !(#[trigger] ss[i] is Malformed),
    decreases ss.len(),
{
    if ss.len() > 0 {
        lemma_first_fault(ss.drop_last());
        assert forall|i: int| 0 <= i < ss.len() - 1 implies ss[i] == ss.drop_last()[i] by {}
    }
}

/// The groups that a sequence of statements declares lie one after the
/// other, in the order of their declaration, and reach to the last face.
pub proof fn lemma_groups_tile(ss: Seq<Statement>)
    ensures
        tiled(groups_of(ss), faces_of(ss).len() as int),
    decreases ss.len(),
{
    if ss.len() > 0 {
        lemma_groups_tile(ss.drop_last());
    }
}

/// One more statement adds at most one face.
proof fn lemma_faces_step(ss: Seq<Statement>, n: int)
    requires
        0 <= n < ss.len(),
    ensures
        ss[n] is Face ==> faces_before(ss, n + 1) == faces_before(ss, n) + 1,
        !(ss[n] is Face) ==> faces_before(ss, n + 1) == faces_before(ss, n),
{
    ss.lemma_filter_map_take_succ(|s: Statement| face_in(s), n);
}

/// From its declaration to the next one, a group is the last of the groups
/// and holds the faces stated since.
proof fn lemma_open_group(ss: Seq<Statement>, at: int, n: int)
    requires
        0 <= at < n <= ss.len(),
        ss[at] is Group,
        forall|m: int| at < m < n ==> !(#[trigger] ss[m] is Group),
    ensures
        groups_of(ss.take(n)) == groups_of(ss.take(at)).push(
            (GroupRange {
                name: ss[at]->Group_0,
                start: faces_before(ss, at),
                end: faces_before(ss, n),
            }),
        ),
    decreases n,
{
    let prefix = ss.take(n);
    assert(prefix.drop_last() == ss.take(n - 1));
    lemma_faces_step(ss, n - 1);
    if n - 1 > at {
        lemma_open_group(ss, at, n - 1);
    }
}

/// A group that is followed by another does not change any more.
proof fn lemma_closed_groups_stay(ss: Seq<Statement>, p: int, n: int)
    requires
        0 <= p <= n <= ss.len(),
    ensures
        groups_of(ss.take(p)).len() <= groups_of(ss.take(n)).len(),
        forall|k: int|
            0 <= k < groups_of(ss.take(p)).len() - 1 ==> #[trigger] groups_of(ss.take(n))[k]
                == groups_of(ss.take(p))[k],
    decreases n - p,
{
    if p < n {
        lemma_closed_groups_stay(ss, p, n - 1);
        let prefix = ss.take(n);
        assert(prefix.drop_last() == ss.take(n - 1));
    }
}

/// The group declared by the statement at `at` begins with the first face
/// stated after `at` and ends before the first face stated after `next`,
/// where the next group is declared or the statements end. It is empty where
/// no face is stated in between.
pub proof fn lemma_group_span(ss: Seq<Statement>, at: int, next: int)
    requires
        0 <= at < next <= ss.len(),
        ss[at] is Group,
        forall|m: int| at < m < next ==> !(#[trigger] ss[m] is Group),
        next < ss.len() ==> ss[next] is Group,
    ensures
        groups_before(ss, at) < groups_of(ss).len(),
        groups_of(ss)[groups_before(ss, at)] == (GroupRange {
            name: ss[at]->Group_0,
            start: faces_before(ss, at),
            end: faces_before(ss, next),
        }),
        (forall|m: int| at < m < next ==> !(#[trigger] ss[m] is Face)) ==> groups_of(
            ss,
        )[groups_before(ss, at)].start == groups_of(ss)[groups_before(ss, at)].end,
{
    lemma_open_group(ss, at, next);
    assert(ss.take(ss.len() as int) == ss);
    if next < ss.len() {
        let prefix = ss.take(next + 1);
        assert(prefix.drop_last() == ss.take(next));
        lemma_closed_groups_stay(ss, next + 1, ss.len() as int);
    }
    if forall|m: int| at < m < next ==> !(#[trigger] ss[m] is Face) {
        lemma_no_faces_between(ss, at, next);
    }
}

/// Statements that are no faces add no face.
proof fn lemma_no_faces_between(ss: Seq<Statement>, at: int, n: int)
    requires
        0 <= at < n <= ss.len(),
        !(ss[at] is Face),
        forall|m: int| at < m < n ==> !(#[trigger] ss[m] is Face),
    ensures
        faces_before(ss, n) == faces_before(ss, at),
    decreases n,
{
    lemma_faces_step(ss, n - 1);
    if n - 1 > at {
        lemma_no_faces_between(ss, at, n - 1);
    }
}

/// Where no face is stated before the first group is declared, the groups
/// divide all the faces among themselves: the first begins with the first
/// face, and without any group there is no face.
pub proof fn lemma_groups_partition_faces(ss: Seq<Statement>)
    requires
        forall|i: int|
            0 <= i < ss.len() && #[trigger] ss[i] is Face ==> exists|j: int|
                0 <= j < i && #[trigger] ss[j] is Group,
    ensures
        tiled(groups_of(ss), faces_of(ss).len() as int),
        groups_of(ss).len() > 0 ==> groups_of(ss)[0].start == 0,
        groups_of(ss).len() == 0 ==> faces_of(ss).len() == 0,
    decreases ss.len(),
{
    lemma_groups_tile(ss);
    if ss.len() > 0 {
        let before = ss.drop_last();
        assert forall|i: int| 0 <= i < before.len() && #[trigger] before[i] is Face implies exists|
            j: int,
        |
            0 <= j < i && #[trigger] before[j] is Group by {
            let j = choose|j: int| 0 <= j < i && #[trigger] ss[j] is Group;
            assert(before[j] is Group);
        }
        lemma_groups_partition_faces(before);
        if ss.last() is Face {
            let i = ss.len() - 1;
            let j = choose|j: int| 0 <= j < i && #[trigger] ss[j] is Group;
            lemma_group_is_counted(before, j);
        }
    }
}

/// A group statement declares a group.
proof fn lemma_group_is_counted(ss: Seq<Statement>, at: int)
    requires
        0 <= at < ss.len(),
        ss[at] is Group,
    ensures
        groups_of(ss).len() > 0,
    decreases ss.len(),
{
    if at < ss.len() - 1 {
        lemma_group_is_counted(ss.drop_last(), at);
    }
}

} // verus!
