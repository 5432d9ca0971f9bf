//! From the words of a line to the values that they denote.

use vstd::prelude::*;
use crate::numeral::{is_numeral, Numeral};
use crate::obj_file::{Face, FaceComponents, Float3, Point3};
use crate::text::{index_value, parse_index, split, split_text};

verus! {

/// What can be wrong with a line of a mesh file.
#[derive(Debug, Clone, Copy, PartialEq, Eq, Structural)]
pub enum ParseErrorKind {
    /// A vertex, normal or texture coordinate with fewer than three numbers.
    MissingNumber,
    /// A word that should be a number and is not a numeral.
    BadNumber,
    /// A group without a name.
    MissingGroupName,
    /// A reference in a face that is not an unsigned decimal number, or one
    /// that is too large.
    BadIndex,
}

/// A result with what its value stands for in place of the value.
pub open spec fn viewed<T: View, E>(r: Result<T, E>) -> Result<T::V, E> {
    match r {
        Ok(value) => Ok(value@),
        Err(e) => Err(e),
    }
}

/// The text of a word that may be missing.
pub open spec fn word_text(word: Option<&str>) -> Option<Seq<char>> {
    match word {
        Some(w) => Some(w@),
        None => None,
    }
}

/// The word at position `k`, if the line has that many words.
pub open spec fn word_at(words: Seq<Seq<char>>, k: int) -> Option<Seq<char>> {
    if 0 <= k < words.len() {
        Some(words[k])
    } else {
        None
    }
}

/// The words of a line after its keyword.
pub open spec fn after_keyword(words: Seq<Seq<char>>) -> Seq<Seq<char>> {
    if words.len() == 0 {
        words
    } else {
        words.skip(1)
    }
}

/// The number that a word denotes: the word itself, if it is there and is a
/// numeral.
pub open spec fn number_of(word: Option<Seq<char>>) -> Result<Seq<char>, ParseErrorKind> {
    match word {
        None => Err(ParseErrorKind::MissingNumber),
        Some(w) => if is_numeral(w) {
            Ok(w)
        } else {
            Err(ParseErrorKind::BadNumber)
        },
    }
}

/// The point that the three words after the keyword denote. The first word
/// that is missing or is no numeral decides what is wrong.
pub open spec fn point_of(words: Seq<Seq<char>>) -> Result<Point3, ParseErrorKind> {
    match number_of(word_at(words, 1)) {
        Err(e) => Err(e),
        Ok(x) => match number_of(word_at(words, 2)) {
            Err(e) => Err(e),
            Ok(y) => match number_of(word_at(words, 3)) {
                Err(e) => Err(e),
                Ok(z) => Ok(Point3 { x, y, z }),
            },
        },
    }
}

/// The reference in field `k` of a corner: zero where the field is missing
/// or empty, else the number that it denotes, if it denotes one.
pub open spec fn reference_of(fields: Seq<Seq<char>>, k: int) -> Option<usize> {
    if k >= fields.len() || fields[k].len() == 0 {
        Some(0)
    } else {
        index_value(fields[k])
    }
}

/// The corner that a word of a face line denotes: vertex, texture coordinate
/// and normal, separated by slashes. Fields after the third are not read.
pub open spec fn corner_of(word: Seq<char>) -> Option<FaceComponents> {
    let fields = split(word, '/');
    match (reference_of(fields, 0), reference_of(fields, 1), reference_of(fields, 2)) {
        (Some(vertex), Some(texture), Some(normal)) => Some(
            FaceComponents { vertex, texture, normal },
        ),
        _ => None,
    }
}

/// The face that the words after the keyword denote, one corner each.
pub open spec fn face_of(words: Seq<Seq<char>>) -> Result<Seq<FaceComponents>, ParseErrorKind> {
    let corners = after_keyword(words);
    if forall|k: int| 0 <= k < corners.len() ==> corner_of(#[trigger] corners[k]) is Some {
        Ok(corners.map_values(|w: Seq<char>| corner_of(w)->0))
    } else {
        Err(ParseErrorKind::BadIndex)
    }
}

/// Takes a word as a number.
pub fn str_to_numeral(value: Option<&str>) -> (r: Result<Numeral, ParseErrorKind>)
    ensures
        viewed(r) == number_of(word_text(value)),
{
    match value {
        None => Err(ParseErrorKind::MissingNumber),
        Some(word) => match Numeral::parse(word) {
            Some(n) => Ok(n),
            None => Err(ParseErrorKind::BadNumber),
        },
    }
}

fn word<'a>(words: &'a Vec<String>, k: usize) -> (w: Option<&'a str>)
    ensures
        word_text(w) == word_at(words.deep_view(), k as int),
{
    if k < words.len() {
        Some(words[k].as_str())
    } else {
        None
    }
}

/// Reads the three numbers of a vertex, normal or texture coordinate from
/// the words of its line, the keyword included.
pub fn token_to_float3(words: &Vec<String>) -> (r: Result<Float3, ParseErrorKind>)
    ensures
        viewed(r) == point_of(words.deep_view()),
{
    let x = match str_to_numeral(word(words, 1)) {
        Ok(n) => n,
        Err(e) => {
            return Err(e);
        },
    };
    let y = match str_to_numeral(word(words, 2)) {
        Ok(n) => n,
        Err(e) => {
            return Err(e);
        },
    };
    let z = match str_to_numeral(word(words, 3)) {
        Ok(n) => n,
        Err(e) => {
            return Err(e);
        },
    };
    Ok(Float3 { x, y, z })
}

fn reference(fields: &Vec<String>, k: usize) -> (r: Option<usize>)
    ensures
        r == reference_of(fields.deep_view(), k as int),
{
    if k >= fields.len() || fields[k].as_str().is_empty() {
        Some(0)
    } else {
        parse_index(fields[k].as_str())
    }
}

/// Reads one corner of a face.
pub fn token_to_face_components(word: &str) -> (r: Option<FaceComponents>)
    ensures
        r == corner_of(word@),
{
    let fields = split_text(word, '/');
    let vertex = match reference(&fields, 0) {
        Some(v) => v,
        None => {
            return None;
        },
    };
    let texture = match reference(&fields, 1) {
        Some(v) => v,
        None => {
            return None;
        },
    };
    let normal = match reference(&fields, 2) {
        Some(v) => v,
        None => {
            return None;
        },
    };
    Some(FaceComponents { vertex, texture, normal })
}

/// Reads the corners of a face from the words of its line, the keyword
/// included.
pub fn tokens_to_face(words: &Vec<String>) -> (r: Result<Face, ParseErrorKind>)
    ensures
        viewed(r) == face_of(words.deep_view()),
{
    let mut components: Vec<FaceComponents> = Vec::new();
    let ghost corners = after_keyword(words.deep_view());
    if words.len() == 0 {
        assert(components@ =~= corners.map_values(|w: Seq<char>| corner_of(w)->0));
        return Ok(Face { components });
    }
    for k in 1..words.len()
        invariant
            corners == after_keyword(words.deep_view()),
            components@.len() == k - 1,
            forall|j: int|
                0 <= j < k - 1 ==> corner_of(#[trigger] corners[j]) == Some(components@[j]),
    {
        assert(corners[k - 1] == words[k as int]@);
        match token_to_face_components(words[k].as_str()) {
            Some(c) => {
                components.push(c);
            },
            None => {
                return Err(ParseErrorKind::BadIndex);
            },
        }
    }
    assert(components@ =~= corners.map_values(|w: Seq<char>| corner_of(w)->0));
    Ok(Face { components })
}

} // verus!
