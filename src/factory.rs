//! Building surfaces from indexed vertex data.
use vstd::prelude::*;
use crate::point::Point;
use crate::surface::BezierSurf;

verus! {

/// Builds Bézier surfaces from patch data.
pub struct BezierFactory {}

impl BezierFactory {
    /// Every index of every patch names a vertex, counting from one.
    pub open spec fn indices_valid(patch_array: Seq<[usize; 16]>, vertex_count: nat) -> bool {
        forall|t: int, j: int|
            0 <= t < patch_array.len() && 0 <= j < 16 ==> 1 <= #[trigger] patch_array[t]@[j] <= vertex_count
    }

    /// One bicubic surface per patch: a patch lists the sixteen vertices of
    /// its four by four grid row after row, each by its index counting from
    /// one.
    pub fn from_indexed_vertices(patch_array: Vec<[usize; 16]>, vertex_array: Vec<[i64; 3]>) -> (r: Vec<BezierSurf<3>>)
        requires
            Self::indices_valid(patch_array@, vertex_array@.len()),
        ensures
            r@.len() == patch_array@.len(),
            forall|t: int| 0 <= t < r@.len() ==> (#[trigger] r@[t]).wf() && r@[t].rows() == 4 && r@[t].cols() == 4,
            forall|t: int, i: int, j: int|
                0 <= t < r@.len() && 0 <= i < 4 && 0 <= j < 4 ==> (#[trigger] r@[t].data@[i]@[j])@
                    == vertex_array@[patch_array@[t]@[4 * i + j] - 1]@,
    {
        let mut vertices: Vec<Point<3>> = Vec::new();
        let mut v: usize = 0;
        while v < vertex_array.len()
            invariant
                v <= vertex_array@.len(),
                vertices@.len() == v,
                forall|u: int| 0 <= u < v ==> (#[trigger] vertices@[u]).wf() && vertices@[u]@ == vertex_array@[u]@,
            decreases vertex_array@.len() - v,
        {
            let a = vertex_array[v];
            let p = Point::<3>::point3d(a[0], a[1], a[2]);
            assert(p@ =~= a@);
            vertices.push(p);
            v = v + 1;
        }
        let mut patches: Vec<BezierSurf<3>> = Vec::new();
        let mut t: usize = 0;
        while t < patch_array.len()
            invariant
                t <= patch_array@.len(),
                Self::indices_valid(patch_array@, vertex_array@.len()),
                vertices@.len() == vertex_array@.len(),
                forall|u: int| 0 <= u < vertices@.len() ==> (#[trigger] vertices@[u]).wf() && vertices@[u]@ == vertex_array@[u]@,
                patches@.len() == t,
                forall|u: int| 0 <= u < t ==> (#[trigger] patches@[u]).wf() && patches@[u].rows() == 4 && patches@[u].cols() == 4,
                forall|u: int, i: int, j: int|
                    0 <= u < t && 0 <= i < 4 && 0 <= j < 4 ==> (#[trigger] patches@[u].data@[i]@[j])@
                        == vertex_array@[patch_array@[u]@[4 * i + j] - 1]@,
            decreases patch_array@.len() - t,
        {
            let patch = patch_array[t];
            let mut rows: Vec<Vec<Point<3>>> = Vec::new();
            let mut i: usize = 0;
            while i < 4
                invariant
                    i <= 4,
                    t < patch_array@.len(),
                    patch == patch_array@[t as int],
                    Self::indices_valid(patch_array@, vertex_array@.len()),
                    vertices@.len() == vertex_array@.len(),
                    forall|u: int| 0 <= u < vertices@.len() ==> (#[trigger] vertices@[u]).wf() && vertices@[u]@ == vertex_array@[u]@,
                    rows@.len() == i,
                    forall|r: int| 0 <= r < i ==> (#[trigger] rows@[r])@.len() == 4,
                    forall|r: int, j: int| 0 <= r < i && 0 <= j < 4 ==> (#[trigger] rows@[r]@[j]).wf()
                        && rows@[r]@[j]@ == vertex_array@[patch@[4 * r + j] - 1]@,
                decreases 4 - i,
            {
                let mut row: Vec<Point<3>> = Vec::new();
                let mut j: usize = 0;
                while j < 4
                    invariant
                        i < 4,
                        j <= 4,
                        t < patch_array@.len(),
                        patch == patch_array@[t as int],
                        Self::indices_valid(patch_array@, vertex_array@.len()),
                        vertices@.len() == vertex_array@.len(),
                        forall|u: int| 0 <= u < vertices@.len() ==> (#[trigger] vertices@[u]).wf() && vertices@[u]@ == vertex_array@[u]@,
                        row@.len() == j,
                        forall|c: int| 0 <= c < j ==> (#[trigger] row@[c]).wf() && row@[c]@ == vertex_array@[patch@[4 * i + c] - 1]@,
                    decreases 4 - j,
                {
                    assert(1 <= patch_array@[t as int]@[4 * i + j] <= vertex_array@.len());
                    let idx = patch[4 * i + j] - 1;
                    row.push(vertices[idx].copy());
                    j = j + 1;
                }
                rows.push(row);
                i = i + 1;
            }
            patches.push(BezierSurf { data: rows });
            t = t + 1;
        }
        patches
    }
}

} // verus!
