//! Which edges of a mesh are drawn in a frame, given which of its projected
//! vertices are clipped (behind the camera or otherwise unusable).
use vstd::prelude::*;
use crate::mesh::{Face, Object};

verus! {

/// A vertex counts as clipped when its flag says so, and also when it has
/// no flag at all.
pub open spec fn clipped_at(c: Seq<bool>, i: usize) -> bool {
    i >= c.len() || c[i as int]
}

/// A face is left out only when all three of its vertices are clipped.
pub open spec fn face_hidden(f: Face, c: Seq<bool>) -> bool {
    clipped_at(c, f.a) && clipped_at(c, f.b) && clipped_at(c, f.c)
}

/// The segments that one face draws: none, or its three sides in turn.
pub open spec fn face_segments(f: Face, c: Seq<bool>) -> Seq<(usize, usize)> {
    if face_hidden(f, c) {
        Seq::empty()
    } else {
        seq![(f.a, f.b), (f.b, f.c), (f.c, f.a)]
    }
}

/// The segments that the faces draw, face by face.
pub open spec fn segments(fs: Seq<Face>, c: Seq<bool>) -> Seq<(usize, usize)>
    decreases fs.len(),
{
    if fs.len() == 0 {
        Seq::empty()
    } else {
        segments(fs.drop_last(), c) + face_segments(fs.last(), c)
    }
}

fn is_clipped(clipped: &[bool], i: usize) -> (r: bool)
    ensures
        r == clipped_at(clipped@, i),
{
    i >= clipped.len() || clipped[i]
}

/// Whether a face is drawn.
pub fn face_visible(f: Face, clipped: &[bool]) -> (r: bool)
    ensures
        r == !face_hidden(f, clipped@),
{
    !(is_clipped(clipped, f.a) && is_clipped(clipped, f.b) && is_clipped(clipped, f.c))
}

impl Object {
    /// The segments to draw, as pairs of vertex positions, given a clip
    /// flag for each vertex.
    pub fn visible_edges(&self, clipped: &[bool]) -> (r: Vec<(usize, usize)>)
        ensures
            r@ == segments(self.faces_view(), clipped@),
    {
        let faces = self.faces();
        let mut r: Vec<(usize, usize)> = Vec::new();
        let mut j: usize = 0;
        assert(faces@.take(0) =~= Seq::<Face>::empty());
        while j < faces.len()
            invariant
                faces@ == self.faces_view(),
                0 <= j <= faces@.len(),
                r@ == segments(faces@.take(j as int), clipped@),
            decreases faces@.len() - j,
        {
            let f = faces[j];
            let ghost before = r@;
            if face_visible(f, clipped) {
                r.push((f.a, f.b));
                r.push((f.b, f.c));
                r.push((f.c, f.a));
            }
            assert(faces@.take(j as int + 1).drop_last() =~= faces@.take(j as int));
            assert(r@ =~= before + face_segments(f, clipped@));
            j = j + 1;
        }
        assert(faces@.take(j as int) =~= faces@);
        r
    }
}

/// A face all three of whose vertices are clipped adds no segment to a
/// frame; any other face adds exactly three, its sides in turn.
pub proof fn lemma_face_adds_segments(fs: Seq<Face>, f: Face, c: Seq<bool>)
    ensures
        face_hidden(f, c) ==> segments(fs.push(f), c) == segments(fs, c),
        !face_hidden(f, c) ==> segments(fs.push(f), c) == segments(fs, c) + seq![
            (f.a, f.b),
            (f.b, f.c),
            (f.c, f.a),
        ],
        segments(fs.push(f), c).len() == segments(fs, c).len() + if face_hidden(f, c) {
            0int
        } else {
            3int
        },
{
    assert(fs.push(f).drop_last() =~= fs);
    assert(segments(fs, c) + Seq::<(usize, usize)>::empty() =~= segments(fs, c));
}

} // verus!
