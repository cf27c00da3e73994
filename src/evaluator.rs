//! Helpers around the evaluation of mappings.
use vstd::prelude::*;
use crate::point::Point;

verus! {

/// Coordinate `idx` of `p`, or zero where `idx` is not below `S`.
pub open spec fn coord_or_zero<const S: usize>(p: Point<S>, idx: int) -> i64 {
    if 0 <= idx < S {
        p@[idx]
    } else {
        0
    }
}

/// The smallest of three lengths.
pub open spec fn min3(a: nat, b: nat, c: nat) -> nat {
    if a <= b && a <= c {
        a
    } else if b <= c {
        b
    } else {
        c
    }
}

/// Automates the handling of evaluated points.
pub struct Evaluator<const DIMIN: usize, const DIMOUT: usize, const C: usize> {}

impl<const DIMIN: usize, const DIMOUT: usize, const C: usize> Evaluator<DIMIN, DIMOUT, C> {
    /// Rearranges coordinates into arrays: coordinate `mapx` of the points of
    /// `x`, `mapy` of `y` and `mapz` of `z`, over as many points as the
    /// shortest of the three holds.
    pub fn split_coords(
        mapx: usize,
        x: &Vec<Point<DIMOUT>>,
        mapy: usize,
        y: &Vec<Point<DIMOUT>>,
        mapz: usize,
        z: &Vec<Point<DIMOUT>>,
    ) -> (r: (Vec<i64>, Vec<i64>, Vec<i64>))
        requires
            forall|i: int| 0 <= i < x@.len() ==> (#[trigger] x@[i]).wf(),
            forall|i: int| 0 <= i < y@.len() ==> (#[trigger] y@[i]).wf(),
            forall|i: int| 0 <= i < z@.len() ==> (#[trigger] z@[i]).wf(),
        ensures
            r.0@ == Seq::new(min3(x@.len(), y@.len(), z@.len()), |i: int| coord_or_zero(x@[i], mapx as int)),
            r.1@ == Seq::new(min3(x@.len(), y@.len(), z@.len()), |i: int| coord_or_zero(y@[i], mapy as int)),
            r.2@ == Seq::new(min3(x@.len(), y@.len(), z@.len()), |i: int| coord_or_zero(z@[i], mapz as int)),
    {
        let mut count = x.len();
        if y.len() < count {
            count = y.len();
        }
        if z.len() < count {
            count = z.len();
        }
        let ghost n = min3(x@.len(), y@.len(), z@.len());
        assert(count == n);
        let mut xvalues: Vec<i64> = Vec::new();
        let mut yvalues: Vec<i64> = Vec::new();
        let mut zvalues: Vec<i64> = Vec::new();
        let mut i: usize = 0;
        while i < count
            invariant
                i <= count,
                count == n,
                n <= x@.len(),
                n <= y@.len(),
                n <= z@.len(),
                forall|t: int| 0 <= t < x@.len() ==> (#[trigger] x@[t]).wf(),
                forall|t: int| 0 <= t < y@.len() ==> (#[trigger] y@[t]).wf(),
                forall|t: int| 0 <= t < z@.len() ==> (#[trigger] z@[t]).wf(),
                xvalues@ == Seq::new(i as nat, |t: int| coord_or_zero(x@[t], mapx as int)),
                yvalues@ == Seq::new(i as nat, |t: int| coord_or_zero(y@[t], mapy as int)),
                zvalues@ == Seq::new(i as nat, |t: int| coord_or_zero(z@[t], mapz as int)),
            decreases count - i,
        {
            xvalues.push(x[i].value(mapx));
            yvalues.push(y[i].value(mapy));
            zvalues.push(z[i].value(mapz));
            proof {
                assert(xvalues@ =~= Seq::new((i + 1) as nat, |t: int| coord_or_zero(x@[t], mapx as int)));
                assert(yvalues@ =~= Seq::new((i + 1) as nat, |t: int| coord_or_zero(y@[t], mapy as int)));
                assert(zvalues@ =~= Seq::new((i + 1) as nat, |t: int| coord_or_zero(z@[t], mapz as int)));
            }
            i = i + 1;
        }
        (xvalues, yvalues, zvalues)
    }
}

} // verus!
