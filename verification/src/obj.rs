//! The text rules of Wavefront OBJ files, as far as models need them: the kinds of
//! lines, the corners of faces, and the triangles that faces are cut into. The
//! numbers of positions, normals and texture coordinates are left to the reader of
//! the file.

use vstd::prelude::*;

verus! {

/// What a line of an OBJ file holds.
#[derive(Clone, Copy, Debug, PartialEq, Eq, Structural)]
pub enum LineKind {
    /// `v x y z`: a position.
    Position,
    /// `vn x y z`: a normal.
    Normal,
    /// `vt u v`: a texture coordinate.
    TexCoord,
    /// `f a/b/c ...`: a face.
    Face,
    /// Anything else.
    Other,
}

/// The kind of a line: by its first letters, which a blank must follow.
pub open spec fn spec_line_kind(line: Seq<u8>) -> LineKind {
    if line.len() >= 2 && line[0] == 'v' as u8 && line[1] == ' ' as u8 {
        LineKind::Position
    } else if line.len() >= 2 && line[0] == 'f' as u8 && line[1] == ' ' as u8 {
        LineKind::Face
    } else if line.len() >= 3 && line[0] == 'v' as u8 && line[1] == 'n' as u8 && line[2]
        == ' ' as u8 {
        LineKind::Normal
    } else if line.len() >= 3 && line[0] == 'v' as u8 && line[1] == 't' as u8 && line[2]
        == ' ' as u8 {
        LineKind::TexCoord
    } else {
        LineKind::Other
    }
}

/// The kind of a line.
pub fn line_kind(line: &[u8]) -> (kind: LineKind)
    ensures
        kind == spec_line_kind(line@),
{
    let n: usize = line.len();
    if n >= 2 && line[0] == 118 && line[1] == 32 {
        LineKind::Position
    } else if n >= 2 && line[0] == 102 && line[1] == 32 {
        LineKind::Face
    } else if n >= 3 && line[0] == 118 && line[1] == 110 && line[2] == 32 {
        LineKind::Normal
    } else if n >= 3 && line[0] == 118 && line[1] == 116 && line[2] == 32 {
        LineKind::TexCoord
    } else {
        LineKind::Other
    }
}

/// Whether every byte is a decimal digit.
pub open spec fn all_digits(digits: Seq<u8>) -> bool {
    forall|i: int| 0 <= i < digits.len() ==> '0' as u8 <= #[trigger] digits[i] <= '9' as u8
}

/// The number that decimal digits write.
pub open spec fn digits_value(digits: Seq<u8>) -> int
    decreases digits.len(),
{
    if digits.len() == 0 {
        0
    } else {
        digits_value(digits.drop_last()) * 10 + (digits.last() - '0' as u8)
    }
}

/// The digits of an index: the token without a leading plus sign.
pub open spec fn index_digits(token: Seq<u8>) -> Seq<u8> {
    if token.len() > 0 && token[0] == '+' as u8 {
        token.skip(1)
    } else {
        token
    }
}

/// The index that a token writes: one or more decimal digits, after a plus sign or
/// without one, whose number is not too large.
pub open spec fn spec_parse_index(token: Seq<u8>) -> Option<usize> {
    let digits = index_digits(token);
    if digits.len() > 0 && all_digits(digits) && digits_value(digits) <= usize::MAX {
        Some(digits_value(digits) as usize)
    } else {
        None
    }
}

/// Digits that continue a number do not make it smaller.
pub proof fn lemma_value_grows(digits: Seq<u8>, n: int)
    requires
        all_digits(digits),
        0 <= n <= digits.len(),
    ensures
        0 <= digits_value(digits.take(n)) <= digits_value(digits),
    decreases digits.len() - n,
{
    if n == digits.len() {
        assert(digits.take(n) == digits);
        lemma_value_is_natural(digits);
    } else {
        lemma_value_grows(digits, n + 1);
        let longer = digits.take(n + 1);
        assert(longer.drop_last() == digits.take(n));
        lemma_value_is_natural(digits.take(n));
    }
}

proof fn lemma_value_is_natural(digits: Seq<u8>)
    requires
        all_digits(digits),
    ensures
        digits_value(digits) >= 0,
    decreases digits.len(),
{
    if digits.len() > 0 {
        lemma_value_is_natural(digits.drop_last());
    }
}

/// Reads an index.
pub fn parse_index(token: &[u8]) -> (index: Option<usize>)
    ensures
        index == spec_parse_index(token@),
{
    let n: usize = token.len();
    let first: usize = if n > 0 && token[0] == 43 {
        1
    } else {
        0
    };
    let ghost digits = index_digits(token@);
    assert(digits == token@.skip(first as int));
    if first == n {
        return None;
    }
    let mut value: usize = 0;
    let mut i: usize = first;
    while i < n
        invariant
            first <= i <= n,
            n == token@.len(),
            digits == token@.skip(first as int),
            digits == index_digits(token@),
            all_digits(digits.take(i - first)),
            value == digits_value(digits.take(i - first)),
        decreases n - i,
    {
        let byte: u8 = token[i];
        let ghost longer = digits.take(i - first + 1);
        proof {
            assert(longer.drop_last() == digits.take(i - first));
            assert(longer.last() == byte);
        }
        proof {
            assert('0' as u8 == 48 && '9' as u8 == 57);
            assert(digits[i - first] == byte);
        }
        if byte < 48 || byte > 57 {
            return None;
        }
        proof {
            assert(all_digits(longer));
            assert(digits_value(longer) == value * 10 + (byte - 48));
        }
        let digit: usize = (byte - 48) as usize;
        if value > (usize::MAX - digit) / 10 {
            proof {
                if all_digits(digits) {
                    lemma_value_grows(digits, i - first + 1);
                }
            }
            return None;
        }
        value = value * 10 + digit;
        i = i + 1;
    }
    assert(digits.take(n - first) == digits);
    Some(value)
}

/// The byte that separates the fields of a face corner.
pub const SLASH: u8 = 47;

/// Where the field that starts at `from` ends: at the next slash, or at the end of
/// the token.
pub open spec fn spec_field_end(token: Seq<u8>, from: int) -> int
    decreases token.len() - from,
{
    if from < 0 || from >= token.len() || token[from] == SLASH {
        from
    } else {
        spec_field_end(token, from + 1)
    }
}

fn field_end(token: &[u8], from: usize) -> (end: usize)
    requires
        from <= token@.len(),
    ensures
        end == spec_field_end(token@, from as int),
        from <= end <= token@.len(),
        end < token@.len() ==> token@[end as int] == SLASH,
{
    let mut i: usize = from;
    while i < token.len() && token[i] != SLASH
        invariant
            from <= i <= token@.len(),
            spec_field_end(token@, from as int) == spec_field_end(token@, i as int),
        decreases token@.len() - i,
    {
        i = i + 1;
    }
    i
}

/// One corner of a face: the numbers of its position, of its texture coordinate and
/// of its normal, counted from 1 as the file counts them.
#[derive(Clone, Copy, Debug, PartialEq, Eq)]
pub struct FaceCorner {
    pub position: usize,
    pub uv: Option<usize>,
    pub normal: Option<usize>,
}

/// The corner that a token of the form `position/uv/normal` writes. The position
/// must be an index; the two other fields may be left empty, or hold something
/// that is no index, and then count as absent. A token with fewer than three fields
/// writes no corner; what follows a third slash is ignored.
pub open spec fn spec_parse_face_corner(token: Seq<u8>) -> Option<FaceCorner> {
    let first = spec_field_end(token, 0);
    let second = spec_field_end(token, first + 1);
    let third = spec_field_end(token, second + 1);
    if first >= token.len() || second >= token.len() {
        None
    } else {
        match spec_parse_index(token.subrange(0, first)) {
            Some(position) => Some(
                FaceCorner {
                    position,
                    uv: spec_parse_index(token.subrange(first + 1, second)),
                    normal: spec_parse_index(token.subrange(second + 1, third)),
                },
            ),
            None => None,
        }
    }
}

/// Reads one corner of a face.
pub fn parse_face_corner(token: &[u8]) -> (corner: Option<FaceCorner>)
    ensures
        corner == spec_parse_face_corner(token@),
{
    let n: usize = token.len();
    let first: usize = field_end(token, 0);
    if first >= n {
        return None;
    }
    let second: usize = field_end(token, first + 1);
    if second >= n {
        return None;
    }
    let third: usize = field_end(token, second + 1);
    match parse_index(&token[0..first]) {
        Some(position) => Some(
            FaceCorner {
                position,
                uv: parse_index(&token[first + 1..second]),
                normal: parse_index(&token[second + 1..third]),
            },
        ),
        None => None,
    }
}

/// The corners of the triangles that a face is cut into: a triangle as it is, a
/// quadrilateral as the two triangles that share its first corner, and any other
/// face as nothing.
pub open spec fn spec_triangulate(face: Seq<FaceCorner>) -> Seq<FaceCorner> {
    if face.len() == 3 {
        face
    } else if face.len() == 4 {
        seq![face[0], face[1], face[2], face[0], face[2], face[3]]
    } else {
        Seq::empty()
    }
}

/// Cuts a face into triangles.
pub fn triangulate(face: &[FaceCorner]) -> (corners: Vec<FaceCorner>)
    ensures
        corners@ == spec_triangulate(face@),
{
    let mut corners: Vec<FaceCorner> = Vec::new();
    if face.len() == 3 {
        corners.push(face[0]);
        corners.push(face[1]);
        corners.push(face[2]);
        assert(corners@ =~= face@);
    } else if face.len() == 4 {
        corners.push(face[0]);
        corners.push(face[1]);
        corners.push(face[2]);
        corners.push(face[0]);
        corners.push(face[2]);
        corners.push(face[3]);
        assert(corners@ =~= spec_triangulate(face@));
    }
    corners
}

/// The places of a corner's attributes in lists of `positions`, `uvs` and `normals`
/// entries, counted from 0; none where one of the corner's numbers is 0 or beyond
/// its list.
pub open spec fn spec_resolve(corner: FaceCorner, positions: usize, uvs: usize, normals: usize) -> Option<
    (usize, Option<usize>, Option<usize>),
> {
    if 1 <= corner.position <= positions && (corner.uv matches Some(uv) ==> 1 <= uv <= uvs) && (
    corner.normal matches Some(normal) ==> 1 <= normal <= normals) {
        Some(
            (
                (corner.position - 1) as usize,
                match corner.uv {
                    Some(uv) => Some((uv - 1) as usize),
                    None => None,
                },
                match corner.normal {
                    Some(normal) => Some((normal - 1) as usize),
                    None => None,
                },
            ),
        )
    } else {
        None
    }
}

/// Finds the attributes of a corner in the lists of the file.
pub fn resolve(corner: &FaceCorner, positions: usize, uvs: usize, normals: usize) -> (places: Option<
    (usize, Option<usize>, Option<usize>),
>)
    ensures
        places == spec_resolve(*corner, positions, uvs, normals),
{
    if corner.position < 1 || corner.position > positions {
        return None;
    }
    let uv: Option<usize> = match corner.uv {
        Some(uv) => {
            if uv < 1 || uv > uvs {
                return None;
            }
            Some(uv - 1)
        },
        None => None,
    };
    let normal: Option<usize> = match corner.normal {
        Some(normal) => {
            if normal < 1 || normal > normals {
                return None;
            }
            Some(normal - 1)
        },
        None => None,
    };
    Some((corner.position - 1, uv, normal))
}

} // verus!
