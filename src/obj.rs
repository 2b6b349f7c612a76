//! Reading Wavefront OBJ mesh text.
//!
//! The text is split into lines at `\n`; each line into tokens at ASCII
//! whitespace. The first token of a line names its kind: `v` (a vertex
//! position), `vt` (a texture coordinate), `vn` (a vertex normal) or `f` (a
//! face). Other kinds and blank lines are skipped. Numbers of `v`, `vt` and
//! `vn` lines are handed back as spans of the text, to be read as floats by
//! the caller; face indices are read here.
use vstd::prelude::*;

use crate::model::{Face, FacePoint};

verus! {

pub open spec fn is_space(b: u8) -> bool {
    b == 32 || b == 9 || b == 10 || b == 11 || b == 12 || b == 13
}

pub open spec fn is_digit(b: u8) -> bool {
    48 <= b <= 57
}

/// The first position at or after `i` and before `e` that holds no space, or `e`.
pub open spec fn skip_space(s: Seq<u8>, i: int, e: int) -> int
    decreases e - i,
{
    if i >= e {
        e
    } else if is_space(s[i]) {
        skip_space(s, i + 1, e)
    } else {
        i
    }
}

/// The first position at or after `i` and before `e` that holds a space, or `e`.
pub open spec fn token_end(s: Seq<u8>, i: int, e: int) -> int
    decreases e - i,
{
    if i >= e {
        e
    } else if is_space(s[i]) {
        i
    } else {
        token_end(s, i + 1, e)
    }
}

/// The first position at or after `i` and before `e` that holds `b`, or `e`.
pub open spec fn find_byte(s: Seq<u8>, b: u8, i: int, e: int) -> int
    decreases e - i,
{
    if i >= e {
        e
    } else if s[i] == b {
        i
    } else {
        find_byte(s, b, i + 1, e)
    }
}

/// The value of the decimal digits in `s[a..b]`.
pub open spec fn digits_value(s: Seq<u8>, a: int, b: int) -> int
    decreases b - a,
{
    if b <= a {
        0
    } else {
        digits_value(s, a, b - 1) * 10 + (s[b - 1] - 48)
    }
}

pub open spec fn all_digits(s: Seq<u8>, a: int, b: int) -> bool {
    forall|k: int| a <= k < b ==> is_digit(#[trigger] s[k])
}

/// A one-based index in `s[a..b]`: an optional `+` and at least one digit,
/// of value from 1 to `i32::MAX`. Gives the index less one.
pub open spec fn index_of(s: Seq<u8>, a: int, b: int) -> Option<usize> {
    let d = if a < b && s[a] == 43 {
        a + 1
    } else {
        a
    };
    if d < b && all_digits(s, d, b) && 1 <= digits_value(s, d, b) <= i32::MAX {
        Some((digits_value(s, d, b) - 1) as usize)
    } else {
        None
    }
}

/// A stretch `start..end` of the text.
#[derive(Clone, Copy, Debug, PartialEq, Eq, Structural)]
pub struct Span {
    pub start: usize,
    pub end: usize,
}

/// Three numbers of a line, as spans of the text.
#[derive(Clone, Copy, Debug, PartialEq, Eq, Structural)]
pub struct Coords3 {
    pub x: Span,
    pub y: Span,
    pub z: Span,
}

/// Two numbers of a line, as spans of the text.
#[derive(Clone, Copy, Debug, PartialEq, Eq, Structural)]
pub struct Coords2 {
    pub u: Span,
    pub v: Span,
}

/// Why a line of mesh text could not be read.
#[derive(Clone, Copy, Debug, PartialEq, Eq, Structural)]
pub enum ObjErrorKind {
    /// A `v`, `vt` or `vn` line holds fewer numbers than it needs.
    MissingValue,
    /// A corner of a face is not three slash-separated positive indices.
    BadFacePoint,
    /// A face does not have exactly three corners.
    NotATriangle,
}

/// An error of mesh text, with the one-based number of its line.
#[derive(Clone, Copy, Debug, PartialEq, Eq, Structural)]
pub struct ObjError {
    pub line: usize,
    pub kind: ObjErrorKind,
}

/// What a mesh text holds, in the order of its lines.
#[verifier::ext_equal]
pub struct MeshModel {
    pub vertices: Seq<Coords3>,
    pub texture_coords: Seq<Coords2>,
    pub vertex_normals: Seq<Coords3>,
    pub faces: Seq<Seq<FacePoint>>,
}

pub open spec fn empty_mesh() -> MeshModel {
    MeshModel {
        vertices: Seq::empty(),
        texture_coords: Seq::empty(),
        vertex_normals: Seq::empty(),
        faces: Seq::empty(),
    }
}

/// The next token at or after `i` and before `e`, if any.
pub open spec fn next_token(s: Seq<u8>, i: int, e: int) -> Option<Span> {
    let p = skip_space(s, i, e);
    if p >= e {
        None
    } else {
        Some(Span { start: p as usize, end: token_end(s, p, e) as usize })
    }
}

/// The first three tokens at or after `i`.
pub open spec fn coords3_of(s: Seq<u8>, i: int, e: int) -> Option<Coords3> {
    match next_token(s, i, e) {
        None => None,
        Some(x) => match next_token(s, x.end as int, e) {
            None => None,
            Some(y) => match next_token(s, y.end as int, e) {
                None => None,
                Some(z) => Some(Coords3 { x, y, z }),
            },
        },
    }
}

/// The first two tokens at or after `i`.
pub open spec fn coords2_of(s: Seq<u8>, i: int, e: int) -> Option<Coords2> {
    match next_token(s, i, e) {
        None => None,
        Some(u) => match next_token(s, u.end as int, e) {
            None => None,
            Some(v) => Some(Coords2 { u, v }),
        },
    }
}

/// A corner `v/vt/vn` in `s[a..b]`: the first three slash-separated parts
/// are one-based indices; parts after them are ignored.
pub open spec fn face_point_of(s: Seq<u8>, a: int, b: int) -> Option<FacePoint> {
    let p1 = find_byte(s, 47, a, b);
    let p2 = find_byte(s, 47, p1 + 1, b);
    let p3 = find_byte(s, 47, p2 + 1, b);
    if p1 < b && p2 < b {
        match (index_of(s, a, p1), index_of(s, p1 + 1, p2), index_of(s, p2 + 1, p3)) {
            (Some(v), Some(t), Some(n)) => Some(
                FacePoint { vertices_index: v, uv_index: t, normals_index: n },
            ),
            _ => None,
        }
    } else {
        None
    }
}

/// The corners of the tokens at or after `i`, after those in `acc`; `None`
/// if one of them is no corner.
pub open spec fn face_points(s: Seq<u8>, i: int, e: int, acc: Seq<FacePoint>) -> Option<
    Seq<FacePoint>,
>
    decreases e - i,
    via face_points_decreases
{
    let p = skip_space(s, i, e);
    if p >= e {
        Some(acc)
    } else {
        let q = token_end(s, p, e);
        match face_point_of(s, p, q) {
            None => None,
            Some(fp) => face_points(s, q, e, acc.push(fp)),
        }
    }
}

#[via_fn]
proof fn face_points_decreases(s: Seq<u8>, i: int, e: int, acc: Seq<FacePoint>) {
    if i <= e {
        lemma_skip_space_bounds(s, i, e);
        let p = skip_space(s, i, e);
        if p < e {
            lemma_token_end_bounds(s, p, e);
        }
    } else {
        assert(skip_space(s, i, e) == e);
    }
}

pub open spec fn is_word1(s: Seq<u8>, t: Span, c: u8) -> bool {
    t.end == t.start + 1 && s[t.start as int] == c
}

pub open spec fn is_word2(s: Seq<u8>, t: Span, c1: u8, c2: u8) -> bool {
    t.end == t.start + 2 && s[t.start as int] == c1 && s[t.start + 1] == c2
}

/// The mesh after the line `s[i..e]` is read into `m`.
pub open spec fn with_line(s: Seq<u8>, i: int, e: int, m: MeshModel) -> Result<
    MeshModel,
    ObjErrorKind,
> {
    match next_token(s, i, e) {
        None => Ok(m),
        Some(k) => {
            let rest = k.end as int;
            if is_word1(s, k, 118) {
                match coords3_of(s, rest, e) {
                    Some(c) => Ok(MeshModel { vertices: m.vertices.push(c), ..m }),
                    None => Err(ObjErrorKind::MissingValue),
                }
            } else if is_word2(s, k, 118, 116) {
                match coords2_of(s, rest, e) {
                    Some(c) => Ok(MeshModel { texture_coords: m.texture_coords.push(c), ..m }),
                    None => Err(ObjErrorKind::MissingValue),
                }
            } else if is_word2(s, k, 118, 110) {
                match coords3_of(s, rest, e) {
                    Some(c) => Ok(MeshModel { vertex_normals: m.vertex_normals.push(c), ..m }),
                    None => Err(ObjErrorKind::MissingValue),
                }
            } else if is_word1(s, k, 102) {
                match face_points(s, rest, e, Seq::empty()) {
                    None => Err(ObjErrorKind::BadFacePoint),
                    Some(ps) => if ps.len() == 3 {
                        Ok(MeshModel { faces: m.faces.push(ps), ..m })
                    } else {
                        Err(ObjErrorKind::NotATriangle)
                    },
                }
            } else {
                Ok(m)
            }
        },
    }
}

/// The mesh after the lines from position `i` on, the first of them with
/// index `line` from zero, are read into `m`.
pub open spec fn with_lines(s: Seq<u8>, i: int, line: int, m: MeshModel) -> Result<
    MeshModel,
    ObjError,
>
    decreases s.len() - i,
    via with_lines_decreases
{
    if i < 0 || i >= s.len() {
        Ok(m)
    } else {
        let e = find_byte(s, 10, i, s.len() as int);
        match with_line(s, i, e, m) {
            Err(kind) => Err(ObjError { line: (line + 1) as usize, kind }),
            Ok(m2) => if e >= s.len() {
                Ok(m2)
            } else {
                with_lines(s, e + 1, line + 1, m2)
            },
        }
    }
}

#[via_fn]
proof fn with_lines_decreases(s: Seq<u8>, i: int, line: int, m: MeshModel) {
    if 0 <= i < s.len() {
        lemma_find_byte_bounds(s, 10, i, s.len() as int);
    }
}

/// What the whole text reads as.
pub open spec fn mesh_of(s: Seq<u8>) -> Result<MeshModel, ObjError> {
    with_lines(s, 0, 0, empty_mesh())
}

proof fn lemma_skip_space_bounds(s: Seq<u8>, i: int, e: int)
    requires
        i <= e,
    ensures
        i <= skip_space(s, i, e) <= e,
        skip_space(s, i, e) < e ==> !is_space(s[skip_space(s, i, e)]),
    decreases e - i,
{
    if i < e && is_space(s[i]) {
        lemma_skip_space_bounds(s, i + 1, e);
    }
}

proof fn lemma_token_end_bounds(s: Seq<u8>, i: int, e: int)
    requires
        i <= e,
    ensures
        i <= token_end(s, i, e) <= e,
        i < e && !is_space(s[i]) ==> token_end(s, i, e) > i,
    decreases e - i,
{
    if i < e && !is_space(s[i]) {
        lemma_token_end_bounds(s, i + 1, e);
    }
}

proof fn lemma_find_byte_bounds(s: Seq<u8>, b: u8, i: int, e: int)
    requires
        i <= e,
    ensures
        i <= find_byte(s, b, i, e) <= e,
    decreases e - i,
{
    if i < e && s[i] != b {
        lemma_find_byte_bounds(s, b, i + 1, e);
    }
}


proof fn lemma_digits_value_nonneg(s: Seq<u8>, a: int, b: int)
    requires
        all_digits(s, a, b),
    ensures
        digits_value(s, a, b) >= 0,
    decreases b - a,
{
    if b > a {
        lemma_digits_value_nonneg(s, a, b - 1);
    }
}

proof fn lemma_digits_value_grows(s: Seq<u8>, a: int, m: int, b: int)
    requires
        a <= m <= b,
        all_digits(s, a, b),
    ensures
        digits_value(s, a, m) <= digits_value(s, a, b),
    decreases b - m,
{
    if m < b {
        lemma_digits_value_grows(s, a, m, b - 1);
        lemma_digits_value_nonneg(s, a, b - 1);
    }
}

fn skip_space_at(s: &[u8], i: usize, e: usize) -> (r: usize)
    requires
        i <= e <= s@.len(),
    ensures
        r == skip_space(s@, i as int, e as int),
        i <= r <= e,
{
    let mut p = i;
    while p < e && (s[p] == 32 || s[p] == 9 || s[p] == 10 || s[p] == 11 || s[p] == 12 || s[p]
        == 13)
        invariant
            i <= p <= e <= s@.len(),
            skip_space(s@, p as int, e as int) == skip_space(s@, i as int, e as int),
        decreases e - p,
    {
        p = p + 1;
    }
    p
}

fn token_end_at(s: &[u8], i: usize, e: usize) -> (r: usize)
    requires
        i <= e <= s@.len(),
    ensures
        r == token_end(s@, i as int, e as int),
        i <= r <= e,
{
    let mut p = i;
    while p < e && !(s[p] == 32 || s[p] == 9 || s[p] == 10 || s[p] == 11 || s[p] == 12 || s[p]
        == 13)
        invariant
            i <= p <= e <= s@.len(),
            token_end(s@, p as int, e as int) == token_end(s@, i as int, e as int),
        decreases e - p,
    {
        p = p + 1;
    }
    p
}

fn find_byte_at(s: &[u8], b: u8, i: usize, e: usize) -> (r: usize)
    requires
        i <= e <= s@.len(),
    ensures
        r == find_byte(s@, b, i as int, e as int),
        i <= r <= e,
{
    let mut p = i;
    while p < e && s[p] != b
        invariant
            i <= p <= e <= s@.len(),
            find_byte(s@, b, p as int, e as int) == find_byte(s@, b, i as int, e as int),
        decreases e - p,
    {
        p = p + 1;
    }
    p
}

/// Reads the one-based index in `s[a..b]`, giving it less one.
pub fn parse_index(s: &[u8], a: usize, b: usize) -> (r: Option<usize>)
    requires
        a <= b <= s@.len(),
    ensures
        r == index_of(s@, a as int, b as int),
{
    let d = if a < b && s[a] == 43 {
        a + 1
    } else {
        a
    };
    if d >= b {
        return None;
    }
    let mut value: u64 = 0;
    let mut k = d;
    while k < b
        invariant
            d <= k <= b <= s@.len(),
            a <= b,
            d == if a < b && s@[a as int] == 43 {
                a + 1
            } else {
                a as int
            },
            all_digits(s@, d as int, k as int),
            value == digits_value(s@, d as int, k as int),
            value <= i32::MAX,
        decreases b - k,
    {
        let c = s[k];
        if c < 48 || c > 57 {
            proof {
                assert(!is_digit(s@[k as int]));
                assert(!all_digits(s@, d as int, b as int));
            }
            return None;
        }
        let next = value * 10 + (c - 48) as u64;
        if next > 2147483647 {
            proof {
                assert(all_digits(s@, d as int, k as int + 1));
                assert(digits_value(s@, d as int, k as int + 1) == next);
                if all_digits(s@, d as int, b as int) {
                    lemma_digits_value_grows(s@, d as int, k as int + 1, b as int);
                }
            }
            return None;
        }
        value = next;
        k = k + 1;
    }
    if value == 0 {
        return None;
    }
    Some((value - 1) as usize)
}

fn next_token_at(s: &[u8], i: usize, e: usize) -> (r: Option<Span>)
    requires
        i <= e <= s@.len(),
    ensures
        r == next_token(s@, i as int, e as int),
        r matches Some(t) ==> i <= t.start < t.end <= e && t.start == skip_space(
            s@,
            i as int,
            e as int,
        ) && t.end == token_end(s@, t.start as int, e as int),
        r is None ==> skip_space(s@, i as int, e as int) == e,
{
    let p = skip_space_at(s, i, e);
    if p >= e {
        None
    } else {
        let q = token_end_at(s, p, e);
        proof {
            lemma_skip_space_bounds(s@, i as int, e as int);
            lemma_token_end_bounds(s@, p as int, e as int);
        }
        Some(Span { start: p, end: q })
    }
}

/// Reads the corner `v/vt/vn` in `s[a..b]`.
pub fn parse_face_point(s: &[u8], a: usize, b: usize) -> (r: Option<FacePoint>)
    requires
        a <= b <= s@.len(),
    ensures
        r == face_point_of(s@, a as int, b as int),
{
    let p1 = find_byte_at(s, 47, a, b);
    if p1 >= b {
        return None;
    }
    let p2 = find_byte_at(s, 47, p1 + 1, b);
    if p2 >= b {
        return None;
    }
    let p3 = find_byte_at(s, 47, p2 + 1, b);
    let v = parse_index(s, a, p1);
    let t = parse_index(s, p1 + 1, p2);
    let n = parse_index(s, p2 + 1, p3);
    match (v, t, n) {
        (Some(v), Some(t), Some(n)) => Some(
            FacePoint { vertices_index: v, uv_index: t, normals_index: n },
        ),
        _ => None,
    }
}

/// Reads the corners of the tokens of `s[i..e]`.
fn parse_face_points(s: &[u8], i: usize, e: usize) -> (r: Option<Vec<FacePoint>>)
    requires
        i <= e <= s@.len(),
    ensures
        r matches Some(v) ==> face_points(s@, i as int, e as int, Seq::empty()) == Some(v@),
        r is None ==> face_points(s@, i as int, e as int, Seq::empty()) is None,
{
    let mut acc: Vec<FacePoint> = Vec::new();
    let mut pos = i;
    while pos < e
        invariant
            i <= pos <= e <= s@.len(),
            face_points(s@, pos as int, e as int, acc@) == face_points(
                s@,
                i as int,
                e as int,
                Seq::empty(),
            ),
        decreases e - pos,
    {
        let p = skip_space_at(s, pos, e);
        if p >= e {
            return Some(acc);
        }
        let q = token_end_at(s, p, e);
        proof {
            lemma_skip_space_bounds(s@, pos as int, e as int);
            lemma_token_end_bounds(s@, p as int, e as int);
        }
        match parse_face_point(s, p, q) {
            None => {
                return None;
            },
            Some(fp) => {
                acc.push(fp);
                pos = q;
            },
        }
    }
    proof {
        assert(skip_space(s@, pos as int, e as int) == e);
    }
    Some(acc)
}

/// What a mesh text holds: the numbers of its `v`, `vt` and `vn` lines as
/// spans of the text, and its faces.
pub struct ObjMesh {
    pub vertices: Vec<Coords3>,
    pub texture_coords: Vec<Coords2>,
    pub vertex_normals: Vec<Coords3>,
    pub faces: Vec<Face>,
}

impl View for ObjMesh {
    type V = MeshModel;

    open spec fn view(&self) -> MeshModel {
        MeshModel {
            vertices: self.vertices@,
            texture_coords: self.texture_coords@,
            vertex_normals: self.vertex_normals@,
            faces: self.faces@.map_values(|f: Face| f@),
        }
    }
}

/// Reads the line `s[i..e]` into `mesh`.
fn read_line(s: &[u8], i: usize, e: usize, mesh: &mut ObjMesh) -> (r: Result<(), ObjErrorKind>)
    requires
        i <= e <= s@.len(),
    ensures
        r is Ok ==> with_line(s@, i as int, e as int, old(mesh)@) == Ok::<
            MeshModel,
            ObjErrorKind,
        >(final(mesh)@),
        r matches Err(k) ==> with_line(s@, i as int, e as int, old(mesh)@) == Err::<
            MeshModel,
            ObjErrorKind,
        >(k),
{
    let ghost m = mesh@;
    let k = match next_token_at(s, i, e) {
        None => {
            return Ok(());
        },
        Some(k) => k,
    };
    let len = k.end - k.start;
    let first = s[k.start];
    if len == 1 && first == 118 {
        match parse_coords3(s, k.end, e) {
            Some(c) => {
                mesh.vertices.push(c);
                proof {
                    assert(mesh@ =~= MeshModel { vertices: m.vertices.push(c), ..m });
                }
                Ok(())
            },
            None => Err(ObjErrorKind::MissingValue),
        }
    } else if len == 2 && first == 118 && s[k.start + 1] == 116 {
        match parse_coords2(s, k.end, e) {
            Some(c) => {
                mesh.texture_coords.push(c);
                proof {
                    assert(mesh@ =~= MeshModel { texture_coords: m.texture_coords.push(c), ..m });
                }
                Ok(())
            },
            None => Err(ObjErrorKind::MissingValue),
        }
    } else if len == 2 && first == 118 && s[k.start + 1] == 110 {
        match parse_coords3(s, k.end, e) {
            Some(c) => {
                mesh.vertex_normals.push(c);
                proof {
                    assert(mesh@ =~= MeshModel { vertex_normals: m.vertex_normals.push(c), ..m });
                }
                Ok(())
            },
            None => Err(ObjErrorKind::MissingValue),
        }
    } else if len == 1 && first == 102 {
        match parse_face_points(s, k.end, e) {
            None => Err(ObjErrorKind::BadFacePoint),
            Some(points) => {
                if points.len() == 3 {
                    let ghost ps = points@;
                    mesh.faces.push(Face { points });
                    proof {
                        assert(mesh@.faces =~= m.faces.push(ps));
                        assert(mesh@ =~= MeshModel { faces: m.faces.push(ps), ..m });
                    }
                    Ok(())
                } else {
                    Err(ObjErrorKind::NotATriangle)
                }
            },
        }
    } else {
        Ok(())
    }
}

fn parse_coords3(s: &[u8], i: usize, e: usize) -> (r: Option<Coords3>)
    requires
        i <= e <= s@.len(),
    ensures
        r == coords3_of(s@, i as int, e as int),
{
    let x = match next_token_at(s, i, e) {
        None => {
            return None;
        },
        Some(t) => t,
    };
    let y = match next_token_at(s, x.end, e) {
        None => {
            return None;
        },
        Some(t) => t,
    };
    let z = match next_token_at(s, y.end, e) {
        None => {
            return None;
        },
        Some(t) => t,
    };
    Some(Coords3 { x, y, z })
}

fn parse_coords2(s: &[u8], i: usize, e: usize) -> (r: Option<Coords2>)
    requires
        i <= e <= s@.len(),
    ensures
        r == coords2_of(s@, i as int, e as int),
{
    let u = match next_token_at(s, i, e) {
        None => {
            return None;
        },
        Some(t) => t,
    };
    let v = match next_token_at(s, u.end, e) {
        None => {
            return None;
        },
        Some(t) => t,
    };
    Some(Coords2 { u, v })
}

/// Reads a whole mesh text.
pub fn parse_obj(text: &[u8]) -> (r: Result<ObjMesh, ObjError>)
    ensures
        r matches Ok(mesh) ==> mesh_of(text@) == Ok::<MeshModel, ObjError>(mesh@),
        r matches Err(err) ==> mesh_of(text@) == Err::<MeshModel, ObjError>(err),
{
    let mut mesh = ObjMesh {
        vertices: Vec::new(),
        texture_coords: Vec::new(),
        vertex_normals: Vec::new(),
        faces: Vec::new(),
    };
    proof {
        assert(mesh@ =~= empty_mesh());
    }
    let n = text.len();
    let mut i: usize = 0;
    let mut line: usize = 0;
    while i < n
        invariant
            i <= n,
            n == text@.len(),
            line <= i,
            with_lines(text@, i as int, line as int, mesh@) == mesh_of(text@),
        decreases n - i,
    {
        let e = find_byte_at(text, 10, i, n);
        match read_line(text, i, e, &mut mesh) {
            Err(kind) => {
                return Err(ObjError { line: line + 1, kind });
            },
            Ok(()) => {},
        }
        if e >= n {
            return Ok(mesh);
        }
        i = e + 1;
        line = line + 1;
    }
    Ok(mesh)
}

} // verus!
