//! A triangle mesh and the line-oriented text format it is loaded from.
//!
//! `v x y z` adds a vertex with three real coordinates; `f i j k ...` adds a
//! face by 1-based vertex indices, of which the first three are drawn. Lines
//! with another first token, and blank lines, are ignored.
use vstd::prelude::*;
use vstd::slice::slice_to_vec;
use crate::text::{line_tokens, split_lines, tokens, lines_of, tokens_of};
use crate::number::{is_real_literal, is_index_literal, index_value, real_literal_ok, parse_index};

verus! {

/// A vertex: its three coordinates as the file writes them, each a finite
/// real literal.
#[derive(Clone, Debug)]
pub struct Vertex {
    pub x: Vec<u8>,
    pub y: Vec<u8>,
    pub z: Vec<u8>,
}

impl View for Vertex {
    type V = Seq<Seq<u8>>;

    open spec fn view(&self) -> Seq<Seq<u8>> {
        seq![self.x@, self.y@, self.z@]
    }
}

/// A triangle by 0-based positions in the mesh's vertex list.
#[derive(Clone, Copy, Debug, PartialEq, Eq, Structural)]
pub struct Face {
    pub a: usize,
    pub b: usize,
    pub c: usize,
}

/// Why a mesh text was refused. Lines and faces are counted from 1.
#[derive(Clone, Copy, Debug, PartialEq, Eq, Structural)]
pub enum MeshError {
    /// A `v` line without exactly three real numbers, or an `f` line with a
    /// token that is no index.
    Parse { line: usize },
    /// A face with fewer than three indices, or with an index below 1 or
    /// above the number of vertices.
    Integrity { face: usize },
}

/// What one line of the format contributes.
pub enum LineKind {
    Vertex(Seq<Seq<u8>>),
    Face(Seq<usize>),
    Ignored,
    Malformed,
}

pub open spec fn tag_v() -> Seq<u8> {
    seq![118u8]
}

pub open spec fn tag_f() -> Seq<u8> {
    seq![102u8]
}

/// The meaning of a line, given its tokens.
pub open spec fn line_kind(t: Seq<Seq<u8>>) -> LineKind {
    if t.len() == 0 {
        LineKind::Ignored
    } else if t[0] == tag_v() {
        if t.len() == 4 && is_real_literal(t[1]) && is_real_literal(t[2]) && is_real_literal(t[3]) {
            LineKind::Vertex(t.drop_first())
        } else {
            LineKind::Malformed
        }
    } else if t[0] == tag_f() {
        if forall|i: int| 1 <= i < t.len() ==> is_index_literal(#[trigger] t[i]) {
            LineKind::Face(t.drop_first().map_values(|x: Seq<u8>| index_value(x) as usize))
        } else {
            LineKind::Malformed
        }
    } else {
        LineKind::Ignored
    }
}

pub open spec fn line_ok(t: Seq<Seq<u8>>) -> bool {
    !(line_kind(t) is Malformed)
}

/// The vertices that the lines add, in order.
pub open spec fn vertices_of(ls: Seq<Seq<Seq<u8>>>) -> Seq<Seq<Seq<u8>>>
    decreases ls.len(),
{
    if ls.len() == 0 {
        Seq::empty()
    } else {
        let prev = vertices_of(ls.drop_last());
        match line_kind(ls.last()) {
            LineKind::Vertex(c) => prev.push(c),
            _ => prev,
        }
    }
}

/// The index lists of the faces that the lines add, in order.
pub open spec fn face_lists_of(ls: Seq<Seq<Seq<u8>>>) -> Seq<Seq<usize>>
    decreases ls.len(),
{
    if ls.len() == 0 {
        Seq::empty()
    } else {
        let prev = face_lists_of(ls.drop_last());
        match line_kind(ls.last()) {
            LineKind::Face(f) => prev.push(f),
            _ => prev,
        }
    }
}

/// A face list that names at least three vertices, all of them among `n`.
pub open spec fn face_ok(f: Seq<usize>, n: nat) -> bool {
    f.len() >= 3 && forall|i: int| 0 <= i < f.len() ==> 1 <= #[trigger] f[i] <= n
}

/// The triangle that a valid face list draws: its first three indices, from 0.
pub open spec fn triangle_of(f: Seq<usize>) -> Face {
    Face { a: (f[0] - 1) as usize, b: (f[1] - 1) as usize, c: (f[2] - 1) as usize }
}

pub open spec fn vertex_views(v: Seq<Vertex>) -> Seq<Seq<Seq<u8>>> {
    v.map_values(|p: Vertex| p@)
}

pub open spec fn list_views(v: Seq<Vec<usize>>) -> Seq<Seq<usize>> {
    v.map_values(|l: Vec<usize>| l@)
}

pub open spec fn byte_views(v: Seq<Vec<u8>>) -> Seq<Seq<u8>> {
    v.map_values(|l: Vec<u8>| l@)
}

/// A loaded mesh: vertices, and triangles whose indices all name one of them.
#[derive(Clone, Debug)]
pub struct Object {
    points: Vec<Vertex>,
    faces: Vec<Face>,
}

impl Object {
    pub closed spec fn points_view(&self) -> Seq<Seq<Seq<u8>>> {
        vertex_views(self.points@)
    }

    pub closed spec fn faces_view(&self) -> Seq<Face> {
        self.faces@
    }

    pub open spec fn wf(&self) -> bool {
        &&& forall|i: int|
            0 <= i < self.faces_view().len() ==> {
                let f = #[trigger] self.faces_view()[i];
                f.a < self.points_view().len() && f.b < self.points_view().len() && f.c
                    < self.points_view().len()
            }
        &&& forall|i: int|
            0 <= i < self.points_view().len() ==> {
                let p = #[trigger] self.points_view()[i];
                p.len() == 3 && is_real_literal(p[0]) && is_real_literal(p[1]) && is_real_literal(
                    p[2],
                )
            }
    }
}

/// One line, read.
enum Line {
    Vertex(Vertex),
    Face(Vec<usize>),
    Ignored,
}

fn is_tag(tok: &Vec<u8>, tag: u8) -> (r: bool)
    ensures
        r == (tok@ == seq![tag]),
{
    if tok.len() == 1 && tok[0] == tag {
        assert(tok@ =~= seq![tag]);
        true
    } else {
        false
    }
}

fn read_face(t: &Vec<Vec<u8>>) -> (r: Option<Vec<usize>>)
    requires
        t@.len() >= 1,
    ensures
        match r {
            Some(l) => (forall|i: int| 1 <= i < t@.len() ==> is_index_literal(#[trigger] t@[i]@))
                && l@ == byte_views(t@).drop_first().map_values(
                |x: Seq<u8>| index_value(x) as usize,
            ),
            None => exists|i: int| 1 <= i < t@.len() && !is_index_literal(#[trigger] t@[i]@),
        },
{
    let mut l: Vec<usize> = Vec::new();
    let mut i: usize = 1;
    while i < t.len()
        invariant
            1 <= i <= t@.len(),
            forall|j: int| 1 <= j < i ==> is_index_literal(#[trigger] t@[j]@),
            l@ == byte_views(t@).subrange(1, i as int).map_values(
                |x: Seq<u8>| index_value(x) as usize,
            ),
        decreases t@.len() - i,
    {
        match parse_index(t[i].as_slice()) {
            None => {
                return None;
            },
            Some(v) => {
                l.push(v);
            },
        }
        i = i + 1;
        assert(l@ =~= byte_views(t@).subrange(1, i as int).map_values(
            |x: Seq<u8>| index_value(x) as usize,
        ));
    }
    assert(byte_views(t@).subrange(1, i as int) =~= byte_views(t@).drop_first());
    Some(l)
}

fn read_line(t: &Vec<Vec<u8>>) -> (r: Option<Line>)
    ensures
        match line_kind(byte_views(t@)) {
            LineKind::Vertex(c) => r matches Some(Line::Vertex(v)) && v@ == c,
            LineKind::Face(f) => r matches Some(Line::Face(l)) && l@ == f,
            LineKind::Ignored => r matches Some(Line::Ignored),
            LineKind::Malformed => r is None,
        },
{
    let ghost tv = byte_views(t@);
    if t.len() == 0 {
        return Some(Line::Ignored);
    }
    assert(tv[0] == t@[0]@);
    if is_tag(&t[0], 118) {
        if t.len() == 4 && real_literal_ok(t[1].as_slice()) && real_literal_ok(t[2].as_slice())
            && real_literal_ok(t[3].as_slice()) {
            let v = Vertex {
                x: slice_to_vec(t[1].as_slice()),
                y: slice_to_vec(t[2].as_slice()),
                z: slice_to_vec(t[3].as_slice()),
            };
            assert(v@ =~= tv.drop_first());
            Some(Line::Vertex(v))
        } else {
            None
        }
    } else if is_tag(&t[0], 102) {
        match read_face(t) {
            Some(l) => {
                assert forall|i: int| 1 <= i < tv.len() implies is_index_literal(#[trigger] tv[i]) by {
                    assert(is_index_literal(t@[i]@));
                }
                Some(Line::Face(l))
            },
            None => {
                let ghost i = choose|i: int| 1 <= i < t@.len() && !is_index_literal(#[trigger] t@[i]@);
                assert(!is_index_literal(tv[i]));
                None
            },
        }
    } else {
        Some(Line::Ignored)
    }
}

pub proof fn lemma_vertices_are_literals(ls: Seq<Seq<Seq<u8>>>, i: int)
    requires
        0 <= i < vertices_of(ls).len(),
    ensures
        vertices_of(ls)[i].len() == 3,
        is_real_literal(vertices_of(ls)[i][0]),
        is_real_literal(vertices_of(ls)[i][1]),
        is_real_literal(vertices_of(ls)[i][2]),
    decreases ls.len(),
{
    let prev = vertices_of(ls.drop_last());
    if i < prev.len() {
        lemma_vertices_are_literals(ls.drop_last(), i);
    } else {
        let t = ls.last();
        assert(t.drop_first()[0] == t[1] && t.drop_first()[1] == t[2] && t.drop_first()[2] == t[3]);
    }
}

fn face_list_ok(l: &Vec<usize>, n: usize) -> (r: bool)
    ensures
        r == face_ok(l@, n as nat),
{
    if l.len() < 3 {
        return false;
    }
    let mut i: usize = 0;
    while i < l.len()
        invariant
            0 <= i <= l@.len(),
            forall|j: int| 0 <= j < i ==> 1 <= #[trigger] l@[j] <= n,
        decreases l@.len() - i,
    {
        if l[i] < 1 || l[i] > n {
            return false;
        }
        i = i + 1;
    }
    true
}

impl Object {
    /// Reads a mesh from the bytes of its file. The first line that does not
    /// read is reported; when all lines read, the first face that names no
    /// triangle of the vertices is.
    pub fn parse(text: &[u8]) -> (r: Result<Object, MeshError>)
        ensures
            ({
                let ls = line_tokens(text@);
                let fl = face_lists_of(ls);
                let n = vertices_of(ls).len();
                match r {
                    Ok(m) => (forall|k: int| 0 <= k < ls.len() ==> line_ok(#[trigger] ls[k])) && (
                    forall|j: int| 0 <= j < fl.len() ==> face_ok(#[trigger] fl[j], n)) && m.wf()
                        && m.points_view() == vertices_of(ls) && m.faces_view() == fl.map_values(
                        |f: Seq<usize>| triangle_of(f),
                    ),
                    Err(MeshError::Parse { line }) => 1 <= line <= ls.len() && !line_ok(
                        ls[line - 1],
                    ) && forall|k: int| 0 <= k < line - 1 ==> line_ok(#[trigger] ls[k]),
                    Err(MeshError::Integrity { face }) => (forall|k: int|
                        0 <= k < ls.len() ==> line_ok(#[trigger] ls[k])) && 1 <= face <= fl.len()
                        && !face_ok(fl[face - 1], n) && forall|j: int|
                        0 <= j < face - 1 ==> face_ok(#[trigger] fl[j], n),
                }
            }),
    {
        let ghost ls = line_tokens(text@);
        let lines = lines_of(text);
        let mut points: Vec<Vertex> = Vec::new();
        let mut lists: Vec<Vec<usize>> = Vec::new();
        let mut k: usize = 0;
        assert(ls.take(0) =~= Seq::<Seq<Seq<u8>>>::empty());
        while k < lines.len()
            invariant
                ls == line_tokens(text@),
                lines@.len() == ls.len(),
                forall|q: int| 0 <= q < lines@.len() ==> (#[trigger] lines@[q])@ == split_lines(text@)[q],
                0 <= k <= lines@.len(),
                vertex_views(points@) == vertices_of(ls.take(k as int)),
                list_views(lists@) == face_lists_of(ls.take(k as int)),
                forall|j: int| 0 <= j < k ==> line_ok(#[trigger] ls[j]),
            decreases lines@.len() - k,
        {
            let toks = tokens_of(lines[k].as_slice());
            assert(byte_views(toks@) =~= ls[k as int]);
            assert(ls.take(k as int + 1).drop_last() =~= ls.take(k as int));
            assert(ls.take(k as int + 1).last() == ls[k as int]);
            match read_line(&toks) {
                None => {
                    return Err(MeshError::Parse { line: k + 1 });
                },
                Some(Line::Vertex(v)) => {
                    points.push(v);
                },
                Some(Line::Face(l)) => {
                    lists.push(l);
                },
                Some(Line::Ignored) => {},
            }
            k = k + 1;
            assert(vertex_views(points@) =~= vertices_of(ls.take(k as int)));
            assert(list_views(lists@) =~= face_lists_of(ls.take(k as int)));
        }
        assert(ls.take(k as int) =~= ls);
        let ghost fl = face_lists_of(ls);
        let n = points.len();
        assert(n == vertices_of(ls).len());
        let mut faces: Vec<Face> = Vec::new();
        let mut j: usize = 0;
        while j < lists.len()
            invariant
                ls == line_tokens(text@),
                fl == face_lists_of(ls),
                forall|q: int| 0 <= q < ls.len() ==> line_ok(#[trigger] ls[q]),
                list_views(lists@) == fl,
                n == vertices_of(ls).len(),
                0 <= j <= lists@.len(),
                faces@ == fl.take(j as int).map_values(|f: Seq<usize>| triangle_of(f)),
                forall|i: int| 0 <= i < j ==> face_ok(#[trigger] fl[i], n as nat),
            decreases lists@.len() - j,
        {
            let l = &lists[j];
            assert(l@ == fl[j as int]);
            if !face_list_ok(l, n) {
                return Err(MeshError::Integrity { face: j + 1 });
            }
            faces.push(Face { a: l[0] - 1, b: l[1] - 1, c: l[2] - 1 });
            j = j + 1;
            assert(faces@ =~= fl.take(j as int).map_values(|f: Seq<usize>| triangle_of(f)));
        }
        assert(fl.take(j as int) =~= fl);
        let m = Object { points, faces };
        proof {
            assert forall|i: int| 0 <= i < m.points_view().len() implies {
                let p = #[trigger] m.points_view()[i];
                p.len() == 3 && is_real_literal(p[0]) && is_real_literal(p[1]) && is_real_literal(
                    p[2],
                )
            } by {
                lemma_vertices_are_literals(ls, i);
            }
            assert forall|i: int| 0 <= i < m.faces_view().len() implies {
                let f = #[trigger] m.faces_view()[i];
                f.a < m.points_view().len() && f.b < m.points_view().len() && f.c
                    < m.points_view().len()
            } by {
                assert(face_ok(fl[i], n as nat));
                assert(fl[i][0] >= 1 && fl[i][1] >= 1 && fl[i][2] >= 1);
            }
        }
        Ok(m)
    }
}

impl Object {
    /// The vertices, in the order of the file.
    pub fn points(&self) -> (r: &[Vertex])
        ensures
            vertex_views(r@) == self.points_view(),
    {
        self.points.as_slice()
    }

    /// The triangles, in the order of the file.
    pub fn faces(&self) -> (r: &[Face])
        ensures
            r@ == self.faces_view(),
    {
        self.faces.as_slice()
    }

    pub fn num_points(&self) -> (r: usize)
        ensures
            r == self.points_view().len(),
    {
        self.points.len()
    }

    pub fn num_faces(&self) -> (r: usize)
        ensures
            r == self.faces_view().len(),
    {
        self.faces.len()
    }
}

} // verus!
