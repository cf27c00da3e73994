//! The common interface of the evaluable objects, and batch evaluation.
use vstd::prelude::*;
use crate::bernstein::Bernstein;
use crate::bernstein::MAX_DEGREE;
use crate::bezier::BezierCurve;
use crate::evaluator::Evaluator;
use crate::point::Point;
use crate::point::div_trunc;
use crate::poly::bernstein_scaled;
use crate::poly::power;
use crate::rational::RatBezierCurve;
use crate::surface::BezierSurf;

verus! {

/// A map from points of `DIMDOM` coordinates to points of `DIMCOD`
/// coordinates, evaluated at rational inputs: the numerators `input` over
/// the common denominator `den`.
pub trait Mapping<const DIMDOM: usize, const DIMCOD: usize> {
    /// Whether the mapping can be evaluated at `input / den`.
    spec fn defined_at(&self, input: Seq<i64>, den: int) -> bool;

    /// The value at `input / den`, in the mapping's integer representation.
    spec fn value_at(&self, input: Seq<i64>, den: int) -> Seq<i64>;

    /// Writes the value at `input / den` into `output`.
    fn evaluate_fill(&self, input: &Point<DIMDOM>, den: u64, output: &mut Point<DIMCOD>)
        requires
            input.wf(),
            old(output).wf(),
            self.defined_at(input@, den as int),
        ensures
            final(output).wf(),
            final(output)@ == self.value_at(input@, den as int),
    ;

    /// The value at `input / den`, as a new point.
    fn evaluate(&self, input: &Point<DIMDOM>, den: u64) -> (r: Point<DIMCOD>)
        requires
            input.wf(),
            self.defined_at(input@, den as int),
        ensures
            r.wf(),
            r@ == self.value_at(input@, den as int),
    {
        let mut output = Point::<DIMCOD>::origin();
        self.evaluate_fill(input, den, &mut output);
        output
    }
}

impl Mapping<1, 1> for Bernstein {
    /// A parameter in `[0, 1]` whose scaled value fits an `i64`.
    open spec fn defined_at(&self, input: Seq<i64>, den: int) -> bool {
        &&& self.wf()
        &&& self.deg() <= MAX_DEGREE
        &&& 1 <= den <= u64::MAX
        &&& 0 <= input[0] <= den
        &&& power(den, self.deg()) <= i64::MAX
    }

    /// `den^n * B(n, i)(input / den)`.
    open spec fn value_at(&self, input: Seq<i64>, den: int) -> Seq<i64> {
        seq![bernstein_scaled(self.deg(), self.idx(), input[0] as int, den - input[0]) as i64]
    }

    fn evaluate_fill(&self, input: &Point<1>, den: u64, output: &mut Point<1>) {
        let xi = input.x() as u64;
        let v = self.evaluate_scaled(xi, den);
        output.set_x(v as i64);
        assert(output@ =~= self.value_at(input@, den as int));
    }
}

impl<const SIZE: usize> Mapping<1, SIZE> for BezierCurve<SIZE> {
    /// A parameter in `[0, 1]` at which the definition can be evaluated.
    open spec fn defined_at(&self, input: Seq<i64>, den: int) -> bool {
        &&& self.wf()
        &&& self.deg() <= MAX_DEGREE
        &&& den <= u64::MAX
        &&& 0 <= input[0] <= den
        &&& self.fits(den)
        &&& power(den, self.deg()) <= u64::MAX
    }

    /// The curve's point at `input / den`, scaled by `den^degree`.
    open spec fn value_at(&self, input: Seq<i64>, den: int) -> Seq<i64> {
        Seq::new(SIZE as nat, |k: int| self.direct_coord(k, input[0] as int, den) as i64)
    }

    fn evaluate_fill(&self, input: &Point<1>, den: u64, output: &mut Point<SIZE>) {
        let xi = input.x() as u64;
        self.evaluate_direct(xi, den, output);
        assert(output@ =~= self.value_at(input@, den as int));
    }
}

impl<const S: usize> Mapping<2, S> for BezierSurf<S> {
    /// Parameters in `[0, 1]` whose scaled value fits.
    open spec fn defined_at(&self, input: Seq<i64>, den: int) -> bool {
        &&& self.wf()
        &&& den <= u64::MAX
        &&& 0 <= input[0] <= den
        &&& 0 <= input[1] <= den
        &&& self.fits(den, den)
    }

    /// The surface's point at `(input[0] / den, input[1] / den)`, scaled by
    /// `den^(rows-1) * den^(cols-1)`.
    open spec fn value_at(&self, input: Seq<i64>, den: int) -> Seq<i64> {
        Seq::new(S as nat, |k: int| self.value(k, input[0] as int, den, input[1] as int, den) as i64)
    }

    fn evaluate_fill(&self, input: &Point<2>, den: u64, output: &mut Point<S>) {
        let xi = input.x() as u64;
        let eta = input.y() as u64;
        self.evaluate_de_casteljau(xi, den, eta, den, output);
        assert(output@ =~= self.value_at(input@, den as int));
    }
}

impl<const S: usize, const H: usize> Mapping<1, S> for RatBezierCurve<S, H> {
    /// A parameter in `[0, 1]` at which the homogeneous curve can be
    /// evaluated by the definition, all weights being positive.
    open spec fn defined_at(&self, input: Seq<i64>, den: int) -> bool {
        &&& self.wf()
        &&& self.positive_weights()
        &&& self.bez.deg() <= MAX_DEGREE
        &&& den <= u64::MAX
        &&& 0 <= input[0] <= den
        &&& self.bez.fits(den)
        &&& power(den, self.bez.deg()) <= u64::MAX
    }

    /// The curve's point at `input / den`: the homogeneous point projected,
    /// truncating toward zero.
    open spec fn value_at(&self, input: Seq<i64>, den: int) -> Seq<i64> {
        Seq::new(
            S as nat,
            |k: int|
                div_trunc(
                    self.bez.direct_coord(k, input[0] as int, den),
                    self.bez.direct_coord(S as int, input[0] as int, den),
                ) as i64,
        )
    }

    fn evaluate_fill(&self, input: &Point<1>, den: u64, output: &mut Point<S>) {
        let xi = input.x() as u64;
        self.evaluate_fill(xi, den, output);
        assert(output@ =~= Mapping::<1, S>::value_at(self, input@, den as int));
    }
}

/// Numerator of sample `i` of `count` evenly spaced parameters from
/// `from / den` to `to / den`, over the denominator `den * (count - 1)`.
pub open spec fn sample(from: int, to: int, count: int, i: int) -> int {
    from * (count - 1) + i * (to - from)
}

impl<const DIMIN: usize, const DIMOUT: usize, const C: usize> Evaluator<DIMIN, DIMOUT, C> {
    /// The values of `element` at each of `values`, over the denominator `den`.
    pub fn evaluate<M: Mapping<DIMIN, DIMOUT>>(element: &M, values: &Vec<Point<DIMIN>>, den: u64) -> (r: Vec<Point<DIMOUT>>)
        requires
            forall|i: int| 0 <= i < values@.len() ==> (#[trigger] values@[i]).wf() && element.defined_at(values@[i]@, den as int),
        ensures
            r@.len() == values@.len(),
            forall|i: int| 0 <= i < values@.len() ==> (#[trigger] r@[i]).wf() && r@[i]@ == element.value_at(values@[i]@, den as int),
    {
        let mut ret: Vec<Point<DIMOUT>> = Vec::new();
        let mut i: usize = 0;
        while i < values.len()
            invariant
                i <= values@.len(),
                forall|t: int| 0 <= t < values@.len() ==> (#[trigger] values@[t]).wf() && element.defined_at(values@[t]@, den as int),
                ret@.len() == i,
                forall|t: int| 0 <= t < i ==> (#[trigger] ret@[t]).wf() && ret@[t]@ == element.value_at(values@[t]@, den as int),
            decreases values@.len() - i,
        {
            ret.push(element.evaluate(&values[i], den));
            i = i + 1;
        }
        ret
    }
}

impl<const DIMOUT: usize, const C: usize> Evaluator<1, DIMOUT, C> {
    /// Evaluates `element` at `C` evenly spaced parameters from `from / den`
    /// to `to / den`, both included; nothing for `C` below two. The sampled
    /// parameters are returned as numerators over `den * (C - 1)`, with the
    /// values there.
    pub fn evaluate_parametric_range1d<M: Mapping<1, DIMOUT>>(element: &M, from: i64, to: i64, den: u64) -> (r: (
        Vec<Point<1>>,
        Vec<Point<DIMOUT>>,
    ))
        requires
            C >= 2 ==> den * (C - 1) <= u64::MAX,
            C >= 2 ==> forall|i: int| 0 <= i < C ==> i64::MIN <= #[trigger] sample(from as int, to as int, C as int, i) <= i64::MAX,
            C >= 2 ==> forall|i: int| 0 <= i < C ==> element.defined_at(seq![#[trigger] sample(from as int, to as int, C as int, i) as i64], den * (C - 1)),
        ensures
            C < 2 ==> r.0@.len() == 0 && r.1@.len() == 0,
            C >= 2 ==> r.0@.len() == C && r.1@.len() == C,
            C >= 2 ==> forall|i: int| 0 <= i < C ==> (#[trigger] r.0@[i])@ == seq![sample(from as int, to as int, C as int, i) as i64],
            C >= 2 ==> forall|i: int| 0 <= i < C ==> (#[trigger] r.1@[i])@ == element.value_at(r.0@[i]@, den * (C - 1)),
    {
        let mut input: Vec<Point<1>> = Vec::new();
        let mut output: Vec<Point<DIMOUT>> = Vec::new();
        if C < 2 {
            return (input, output);
        }
        let d: u64 = den * ((C - 1) as u64);
        let mut i: usize = 0;
        while i < C
            invariant
                C >= 2,
                i <= C,
                d == den * (C - 1),
                forall|t: int| 0 <= t < C ==> i64::MIN <= #[trigger] sample(from as int, to as int, C as int, t) <= i64::MAX,
                forall|t: int| 0 <= t < C ==> element.defined_at(seq![#[trigger] sample(from as int, to as int, C as int, t) as i64], d as int),
                input@.len() == i,
                output@.len() == i,
                forall|t: int| 0 <= t < i ==> (#[trigger] input@[t])@ == seq![sample(from as int, to as int, C as int, t) as i64],
                forall|t: int| 0 <= t < i ==> (#[trigger] output@[t]).wf() && output@[t]@ == element.value_at(input@[t]@, d as int),
            decreases C - i,
        {
            let v = sample_at(from, to, C, i);
            let p = Point::<1>::point1d(v);
            let q = element.evaluate(&p, d);
            input.push(p);
            output.push(q);
            i = i + 1;
        }
        (input, output)
    }
}

/// The numerator of sample `i` computed without overflow, where it fits.
fn sample_at(from: i64, to: i64, count: usize, i: usize) -> (r: i64)
    requires
        i < count,
        i64::MIN <= sample(from as int, to as int, count as int, i as int) <= i64::MAX,
    ensures
        r == sample(from as int, to as int, count as int, i as int),
{
    let rest = (count - 1 - i) as i128;
    let done = i as i128;
    proof {
        let f = from as int;
        let t = to as int;
        assert(-0x8000_0000_0000_0000 * 0xffff_ffff_ffff_ffff <= f * rest <= 0x8000_0000_0000_0000 * 0xffff_ffff_ffff_ffff) by (nonlinear_arith)
            requires
                -0x8000_0000_0000_0000 <= f <= 0x7fff_ffff_ffff_ffff,
                0 <= rest <= 0xffff_ffff_ffff_ffff,
        ;
        assert(-0x8000_0000_0000_0000 * 0xffff_ffff_ffff_ffff <= t * done <= 0x8000_0000_0000_0000 * 0xffff_ffff_ffff_ffff) by (nonlinear_arith)
            requires
                -0x8000_0000_0000_0000 <= t <= 0x7fff_ffff_ffff_ffff,
                0 <= done <= 0xffff_ffff_ffff_ffff,
        ;
        assert(f * rest + t * done == sample(f, t, count as int, i as int)) by (nonlinear_arith)
            requires
                rest == count - 1 - i,
                done == i,
        ;
    }
    ((from as i128) * rest + (to as i128) * done) as i64
}

impl<const DIMOUT: usize, const C: usize> Evaluator<2, DIMOUT, C> {
    /// Evaluates `element` on the grid of `C` by `C` evenly spaced
    /// parameters: the first from `from1 / den` to `to1 / den`, the second
    /// from `from2 / den` to `to2 / den`; nothing for `C` below two. Sample
    /// `i * C + j` pairs the `i`-th first parameter with the `j`-th second
    /// one; the parameters are returned as numerators over `den * (C - 1)`,
    /// with the values there.
    pub fn evaluate_parametric_range2d<M: Mapping<2, DIMOUT>>(
        element: &M,
        from1: i64,
        to1: i64,
        from2: i64,
        to2: i64,
        den: u64,
    ) -> (r: (Vec<Point<2>>, Vec<Point<DIMOUT>>))
        requires
            C >= 2 ==> den * (C - 1) <= u64::MAX,
            C >= 2 ==> C * C <= usize::MAX,
            C >= 2 ==> forall|i: int| 0 <= i < C ==> i64::MIN <= #[trigger] sample(from1 as int, to1 as int, C as int, i) <= i64::MAX,
            C >= 2 ==> forall|j: int| 0 <= j < C ==> i64::MIN <= #[trigger] sample(from2 as int, to2 as int, C as int, j) <= i64::MAX,
            C >= 2 ==> forall|i: int, j: int| 0 <= i < C && 0 <= j < C ==> element.defined_at(
                seq![#[trigger] sample(from1 as int, to1 as int, C as int, i) as i64, #[trigger] sample(from2 as int, to2 as int, C as int, j) as i64],
                den * (C - 1),
            ),
        ensures
            C < 2 ==> r.0@.len() == 0 && r.1@.len() == 0,
            C >= 2 ==> r.0@.len() == C * C && r.1@.len() == C * C,
            C >= 2 ==> forall|i: int, j: int| 0 <= i < C && 0 <= j < C ==> (#[trigger] r.0@[i * C + j])@ == seq![
                sample(from1 as int, to1 as int, C as int, i) as i64,
                sample(from2 as int, to2 as int, C as int, j) as i64,
            ],
            C >= 2 ==> forall|t: int| 0 <= t < C * C ==> (#[trigger] r.1@[t])@ == element.value_at(r.0@[t]@, den * (C - 1)),
    {
        let mut input: Vec<Point<2>> = Vec::new();
        let mut output: Vec<Point<DIMOUT>> = Vec::new();
        if C < 2 {
            return (input, output);
        }
        let d: u64 = den * ((C - 1) as u64);
        let mut i: usize = 0;
        while i < C
            invariant
                C >= 2,
                C * C <= usize::MAX,
                i <= C,
                d == den * (C - 1),
                forall|a: int| 0 <= a < C ==> i64::MIN <= #[trigger] sample(from1 as int, to1 as int, C as int, a) <= i64::MAX,
                forall|b: int| 0 <= b < C ==> i64::MIN <= #[trigger] sample(from2 as int, to2 as int, C as int, b) <= i64::MAX,
                forall|a: int, b: int| 0 <= a < C && 0 <= b < C ==> element.defined_at(
                    seq![#[trigger] sample(from1 as int, to1 as int, C as int, a) as i64, #[trigger] sample(from2 as int, to2 as int, C as int, b) as i64],
                    d as int,
                ),
                input@.len() == i * C,
                output@.len() == i * C,
                forall|a: int, b: int| 0 <= a < i && 0 <= b < C ==> (#[trigger] input@[a * C + b])@ == seq![
                    sample(from1 as int, to1 as int, C as int, a) as i64,
                    sample(from2 as int, to2 as int, C as int, b) as i64,
                ],
                forall|t: int| 0 <= t < i * C ==> (#[trigger] output@[t])@ == element.value_at(input@[t]@, d as int),
            decreases C - i,
        {
            let x = sample_at(from1, to1, C, i);
            let mut j: usize = 0;
            while j < C
                invariant
                    C >= 2,
                    C * C <= usize::MAX,
                    i < C,
                    j <= C,
                    d == den * (C - 1),
                    x == sample(from1 as int, to1 as int, C as int, i as int),
                    forall|b: int| 0 <= b < C ==> i64::MIN <= #[trigger] sample(from2 as int, to2 as int, C as int, b) <= i64::MAX,
                    forall|a: int, b: int| 0 <= a < C && 0 <= b < C ==> element.defined_at(
                        seq![#[trigger] sample(from1 as int, to1 as int, C as int, a) as i64, #[trigger] sample(from2 as int, to2 as int, C as int, b) as i64],
                        d as int,
                    ),
                    input@.len() == i * C + j,
                    output@.len() == i * C + j,
                    forall|a: int, b: int| 0 <= a < i && 0 <= b < C ==> (#[trigger] input@[a * C + b])@ == seq![
                        sample(from1 as int, to1 as int, C as int, a) as i64,
                        sample(from2 as int, to2 as int, C as int, b) as i64,
                    ],
                    forall|b: int| 0 <= b < j ==> (#[trigger] input@[i * C + b])@ == seq![
                        sample(from1 as int, to1 as int, C as int, i as int) as i64,
                        sample(from2 as int, to2 as int, C as int, b) as i64,
                    ],
                    forall|t: int| 0 <= t < i * C + j ==> (#[trigger] output@[t])@ == element.value_at(input@[t]@, d as int),
                decreases C - j,
            {
                proof {
                    assert(i * C + j < C * C) by (nonlinear_arith)
                        requires
                            i < C,
                            j < C,
                    ;
                }
                let y = sample_at(from2, to2, C, j);
                let p = Point::<2>::point2d(x, y);
                let q = element.evaluate(&p, d);
                let ghost old_input = input@;
                input.push(p);
                output.push(q);
                proof {
                    assert forall|a: int, b: int| 0 <= a < i && 0 <= b < C implies (#[trigger] input@[a * C + b])@ == seq![
                        sample(from1 as int, to1 as int, C as int, a) as i64,
                        sample(from2 as int, to2 as int, C as int, b) as i64,
                    ] by {
                        crate::matrix::lemma_index_in_bounds(a, b, i as int, C as int);
                        assert(input@[a * C + b] == old_input[a * C + b]);
                    }
                }
                j = j + 1;
            }
            proof {
                assert forall|a: int, b: int| 0 <= a < i + 1 && 0 <= b < C implies (#[trigger] input@[a * C + b])@ == seq![
                    sample(from1 as int, to1 as int, C as int, a) as i64,
                    sample(from2 as int, to2 as int, C as int, b) as i64,
                ] by {
                    if a == i {
                        assert(input@[i * C + b]@ == seq![
                            sample(from1 as int, to1 as int, C as int, i as int) as i64,
                            sample(from2 as int, to2 as int, C as int, b) as i64,
                        ]);
                    }
                }
                assert((i + 1) * C == i * C + C) by (nonlinear_arith);
            }
            i = i + 1;
        }
        (input, output)
    }
}

} // verus!
