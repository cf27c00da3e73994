//! Circles drawn with rational quadratic Bézier arcs.
use vstd::prelude::*;

verus! {

/// A circle of radius `radius` around the origin, drawn as `segments`
/// rational quadratic arcs.
#[derive(Debug, Clone, Copy)]
pub struct BezierCircle {
    pub radius: u32,
    pub segments: u32,
}

impl BezierCircle {
    /// The number of control points of the whole circle: two per arc and
    /// the closing point, `2 * segments + 1`.
    pub fn points(&self) -> (r: u32)
        requires
            2 * self.segments + 1 <= u32::MAX,
        ensures
            r == 2 * self.segments + 1,
    {
        self.segments * 2 + 1
    }

    /// Splits the control points of the circle (points on the circle at the
    /// even indices, outer points at the odd ones) into the arcs: arc `t`
    /// takes points `2t`, `2t + 1` and `2t + 2`, so that neighbours share an
    /// end point. There is no circle of fewer than two arcs.
    pub fn split_arcs<T: Copy>(&self, cpoints: &Vec<T>) -> (r: Option<Vec<Vec<T>>>)
        requires
            self.segments >= 2 ==> cpoints@.len() == 2 * self.segments + 1,
        ensures
            r is None <==> self.segments < 2,
            r matches Some(arcs) ==> arcs@.len() == self.segments && forall|t: int|
                0 <= t < self.segments ==> (#[trigger] arcs@[t])@ == seq![
                    cpoints@[2 * t],
                    cpoints@[2 * t + 1],
                    cpoints@[2 * t + 2],
                ],
    {
        if self.segments < 2 {
            return None;
        }
        let len = cpoints.len();
        let mut curves: Vec<Vec<T>> = Vec::new();
        let mut idx: usize = 0;
        let mut t: u32 = 0;
        while t < self.segments
            invariant
                t <= self.segments,
                self.segments >= 2,
                cpoints@.len() == 2 * self.segments + 1,
                len == cpoints@.len(),
                idx == 2 * t,
                curves@.len() == t,
                forall|u: int|
                    0 <= u < t ==> (#[trigger] curves@[u])@ == seq![
                        cpoints@[2 * u],
                        cpoints@[2 * u + 1],
                        cpoints@[2 * u + 2],
                    ],
            decreases self.segments - t,
        {
            let arc = vec![cpoints[idx], cpoints[idx + 1], cpoints[idx + 2]];
            curves.push(arc);
            idx = idx + 2;
            t = t + 1;
        }
        Some(curves)
    }
}

} // verus!
