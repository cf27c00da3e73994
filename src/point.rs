//! Points with `SIZE` integer coordinates.
use vstd::prelude::*;
use crate::matrix::RowVector;
use crate::matrix::RectMatrix;

verus! {

/// Integer division that truncates toward zero, as `i64`'s `/` does.
pub open spec fn div_trunc(x: int, y: int) -> int {
    let q = abs(x) / abs(y);
    if (x < 0) != (y < 0) && x != 0 {
        -q
    } else {
        q
    }
}

/// The absolute value.
pub open spec fn abs(x: int) -> int {
    if x < 0 {
        -x
    } else {
        x
    }
}

/// `div_trunc` for `i64` values whose quotient fits.
pub fn i64_div_trunc(x: i64, y: i64) -> (r: i64)
    requires
        y != 0,
        !(x == i64::MIN && y == -1),
    ensures
        r == div_trunc(x as int, y as int),
{
    let ux: u64 = if x < 0 { (-(x as i128)) as u64 } else { x as u64 };
    let uy: u64 = if y < 0 { (-(y as i128)) as u64 } else { y as u64 };
    let q: u64 = ux / uy;
    proof {
        assert(q <= ux) by (nonlinear_arith)
            requires
                q == ux / uy,
                uy >= 1,
        ;
        if q as int > i64::MAX {
            assert(uy == 1) by (nonlinear_arith)
                requires
                    q == ux / uy,
                    uy >= 1,
                    q > 0x7fff_ffff_ffff_ffff,
                    ux <= 0x8000_0000_0000_0000,
            ;
        }
    }
    if (x < 0) != (y < 0) && x != 0 {
        (-(q as i128)) as i64
    } else {
        q as i64
    }
}

/// A point of `SIZE` coordinates, stored as a row vector.
#[derive(Debug)]
pub struct Point<const SIZE: usize> {
    pub data: RowVector<SIZE>,
}

/// A point with integer coordinates.
pub type IntPoint<const SIZE: usize> = Point<SIZE>;

impl<const SIZE: usize> View for Point<SIZE> {
    type V = Seq<i64>;

    /// The coordinates.
    open spec fn view(&self) -> Seq<i64> {
        Seq::new(SIZE as nat, |j: int| self.data.entry(0, j))
    }
}

impl<const SIZE: usize> Point<SIZE> {
    /// The storage is well formed.
    pub open spec fn wf(&self) -> bool {
        self.data.wf()
    }

    /// The point on a line with coordinate `x`.
    pub fn point1d(x: i64) -> (r: Point<1>)
        ensures
            r.wf(),
            r@ == seq![x],
    {
        let a = [x];
        let r = Point { data: RowVector::<1>::row_from_vec(&a) };
        assert(r@ =~= seq![x]);
        r
    }

    /// The point of the plane with coordinates `(x, y)`.
    pub fn point2d(x: i64, y: i64) -> (r: Point<2>)
        ensures
            r.wf(),
            r@ == seq![x, y],
    {
        let a = [x, y];
        let r = Point { data: RowVector::<2>::row_from_vec(&a) };
        assert(r@ =~= seq![x, y]);
        r
    }

    /// The point of space with coordinates `(x, y, z)`.
    pub fn point3d(x: i64, y: i64, z: i64) -> (r: Point<3>)
        ensures
            r.wf(),
            r@ == seq![x, y, z],
    {
        let a = [x, y, z];
        let r = Point { data: RowVector::<3>::row_from_vec(&a) };
        assert(r@ =~= seq![x, y, z]);
        r
    }

    /// The point with every coordinate zero.
    pub fn origin() -> (r: Point<SIZE>)
        ensures
            r.wf(),
            r@ == Seq::new(SIZE as nat, |j: int| 0i64),
    {
        let r = Point { data: RowVector::<SIZE>::zeros() };
        assert(r@ =~= Seq::new(SIZE as nat, |j: int| 0i64));
        r
    }

    /// The dimension of the space holding the point.
    pub fn dim(&self) -> (r: usize)
        ensures
            r == SIZE,
    {
        self.data.cols()
    }

    /// Sets every coordinate to zero.
    pub fn reset(&mut self)
        requires
            old(self).wf(),
        ensures
            final(self).wf(),
            final(self)@ == Seq::new(SIZE as nat, |j: int| 0i64),
    {
        self.data.reset();
        assert(self@ =~= Seq::new(SIZE as nat, |j: int| 0i64));
    }

    /// Coordinate `idx`, or zero where `idx` is not below `SIZE`.
    pub fn value(&self, idx: usize) -> (r: i64)
        requires
            self.wf(),
        ensures
            r == if idx < SIZE { self@[idx as int] } else { 0i64 },
    {
        if idx < self.dim() {
            self.data.value(0, idx)
        } else {
            0
        }
    }

    /// Sets coordinate `idx`; nothing changes where `idx` is not below `SIZE`.
    pub fn set_value(&mut self, idx: usize, val: i64)
        requires
            old(self).wf(),
        ensures
            final(self).wf(),
            final(self)@ == if idx < SIZE { old(self)@.update(idx as int, val) } else { old(self)@ },
    {
        if idx < self.dim() {
            self.data.set_value(0, idx, val);
            assert(self@ =~= old(self)@.update(idx as int, val));
        }
    }

    /// A copy of the point.
    pub fn copy(&self) -> (r: Point<SIZE>)
        requires
            self.wf(),
        ensures
            r.wf(),
            r@ == self@,
    {
        let r = Point { data: self.data.clone() };
        assert(r@ =~= self@);
        r
    }

    /// Copies this point into `dest`.
    pub fn clone_to(&self, dest: &mut Point<SIZE>)
        requires
            self.wf(),
        ensures
            final(dest).wf(),
            final(dest)@ == self@,
    {
        dest.data = self.data.clone();
        assert(dest@ =~= self@);
    }

    /// The point with coordinates `c`.
    pub fn from_coords(c: &Vec<i64>) -> (r: Point<SIZE>)
        requires
            c@.len() == SIZE,
        ensures
            r.wf(),
            r@ == c@,
    {
        let r = Point { data: RowVector::<SIZE>::row_from_vec(c.as_slice()) };
        assert(r@ =~= c@);
        r
    }

    /// Whether every coordinate times `w` fits an `i64`.
    pub open spec fn scale_fits(&self, w: int) -> bool {
        forall|j: int| 0 <= j < SIZE ==> i64::MIN <= #[trigger] self@[j] * w <= i64::MAX
    }

    /// The point in homogeneous coordinates on the plane of weight `w`: every
    /// coordinate times `w`, followed by `w`.
    pub fn to_homogeneous<const HOMSIZE: usize>(&self, w: i64) -> (r: Point<HOMSIZE>)
        requires
            self.wf(),
            HOMSIZE == SIZE + 1,
            self.scale_fits(w as int),
        ensures
            r.wf(),
            r@ == Seq::new(SIZE as nat, |j: int| (self@[j] * w) as i64).push(w),
    {
        let mut res = Point::<HOMSIZE>::origin();
        let mut i: usize = 0;
        while i < SIZE
            invariant
                i <= SIZE,
                HOMSIZE == SIZE + 1,
                self.wf(),
                res.wf(),
                self.scale_fits(w as int),
                forall|j: int| 0 <= j < i ==> #[trigger] res@[j] == self@[j] * w,
                forall|j: int| i <= j < HOMSIZE ==> #[trigger] res@[j] == 0,
            decreases SIZE - i,
        {
            let v = self.value(i);
            assert(i64::MIN <= self@[i as int] * w <= i64::MAX);
            res.set_value(i, v * w);
            i = i + 1;
        }
        res.set_value(SIZE, w);
        assert(res@ =~= Seq::new(SIZE as nat, |j: int| (self@[j] * w) as i64).push(w));
        res
    }

    /// The last coordinate, the weight of a point in homogeneous coordinates.
    pub open spec fn weight(&self) -> i64 {
        self@[SIZE - 1]
    }

    /// Whether the quotient of every coordinate by the weight fits an `i64`.
    pub open spec fn can_project(&self) -> bool {
        SIZE >= 1 && self.weight() != 0 && (self.weight() == -1 ==> forall|j: int|
            0 <= j < SIZE ==> #[trigger] self@[j] != i64::MIN)
    }

    /// The point in cartesian coordinates of this point in homogeneous ones:
    /// the first coordinates divided by the last, truncating toward zero.
    pub fn to_cartesian<const CARTSIZE: usize>(&self) -> (r: Point<CARTSIZE>)
        requires
            self.wf(),
            CARTSIZE + 1 == SIZE,
            self.can_project(),
        ensures
            r.wf(),
            r@ == Seq::new(CARTSIZE as nat, |j: int| div_trunc(self@[j] as int, self.weight() as int) as i64),
    {
        let w = self.value(SIZE - 1);
        let mut res = Point::<CARTSIZE>::origin();
        let mut i: usize = 0;
        while i < CARTSIZE
            invariant
                i <= CARTSIZE,
                CARTSIZE + 1 == SIZE,
                self.wf(),
                res.wf(),
                self.can_project(),
                w == self.weight(),
                forall|j: int| 0 <= j < i ==> #[trigger] res@[j] == div_trunc(self@[j] as int, w as int),
            decreases CARTSIZE - i,
        {
            let v = self.value(i);
            let q = i64_div_trunc(v, w);
            res.set_value(i, q);
            i = i + 1;
        }
        assert(res@ =~= Seq::new(CARTSIZE as nat, |j: int| div_trunc(self@[j] as int, self.weight() as int) as i64));
        res
    }

    /// Whether `self + fac * other` fits an `i64` in every coordinate.
    pub open spec fn combine_fits(&self, other: &Point<SIZE>, fac: int) -> bool {
        forall|j: int| 0 <= j < SIZE ==> i64::MIN <= #[trigger] self@[j] + fac * other@[j] <= i64::MAX
    }

    /// The sum of two points, coordinate by coordinate.
    pub fn add(&self, other: &Point<SIZE>) -> (r: Point<SIZE>)
        requires
            self.wf(),
            other.wf(),
            self.combine_fits(other, 1),
        ensures
            r.wf(),
            r@ == Seq::new(SIZE as nat, |j: int| (self@[j] + other@[j]) as i64),
    {
        assert(self.data.mult_add_fits(&other.data, 1)) by {
            assert forall|i: int, j: int| 0 <= i < 1 && 0 <= j < SIZE implies
                i64::MIN <= #[trigger] self.data.entry(i, j) + 1 * other.data.entry(i, j) <= i64::MAX by {
                assert(self@[j] == self.data.entry(0, j));
                assert(other@[j] == other.data.entry(0, j));
            }
        }
        let r = Point { data: self.data.mult_add(&other.data, 1) };
        assert(r@ =~= Seq::new(SIZE as nat, |j: int| (self@[j] + other@[j]) as i64));
        r
    }

    /// The difference of two points, coordinate by coordinate.
    pub fn sub(&self, other: &Point<SIZE>) -> (r: Point<SIZE>)
        requires
            self.wf(),
            other.wf(),
            self.combine_fits(other, -1),
        ensures
            r.wf(),
            r@ == Seq::new(SIZE as nat, |j: int| (self@[j] - other@[j]) as i64),
    {
        assert(self.data.mult_add_fits(&other.data, -1i64)) by {
            assert forall|i: int, j: int| 0 <= i < 1 && 0 <= j < SIZE implies
                i64::MIN <= #[trigger] self.data.entry(i, j) + -1 * other.data.entry(i, j) <= i64::MAX by {
                assert(self@[j] == self.data.entry(0, j));
                assert(other@[j] == other.data.entry(0, j));
            }
        }
        let r = Point { data: self.data.mult_add(&other.data, -1) };
        assert(r@ =~= Seq::new(SIZE as nat, |j: int| (self@[j] - other@[j]) as i64));
        r
    }

    /// The point scaled by `scalar`, coordinate by coordinate.
    pub fn mul(&self, scalar: i64) -> (r: Point<SIZE>)
        requires
            self.wf(),
            self.scale_fits(scalar as int),
        ensures
            r.wf(),
            r@ == Seq::new(SIZE as nat, |j: int| (self@[j] * scalar) as i64),
    {
        let mut res = self.copy();
        let mut i: usize = 0;
        while i < SIZE
            invariant
                i <= SIZE,
                self.wf(),
                res.wf(),
                self.scale_fits(scalar as int),
                forall|j: int| 0 <= j < i ==> #[trigger] res@[j] == self@[j] * scalar,
                forall|j: int| i <= j < SIZE ==> #[trigger] res@[j] == self@[j],
            decreases SIZE - i,
        {
            let v = self.value(i);
            assert(i64::MIN <= self@[i as int] * scalar <= i64::MAX);
            res.set_value(i, v * scalar);
            i = i + 1;
        }
        assert(res@ =~= Seq::new(SIZE as nat, |j: int| (self@[j] * scalar) as i64));
        res
    }

    /// Adds `rhs` to this point.
    pub fn add_assign(&mut self, rhs: &Point<SIZE>)
        requires
            old(self).wf(),
            rhs.wf(),
            old(self).combine_fits(rhs, 1),
        ensures
            final(self).wf(),
            final(self)@ == Seq::new(SIZE as nat, |j: int| (old(self)@[j] + rhs@[j]) as i64),
    {
        *self = self.add(rhs);
    }

    /// Subtracts `rhs` from this point.
    pub fn sub_assign(&mut self, rhs: &Point<SIZE>)
        requires
            old(self).wf(),
            rhs.wf(),
            old(self).combine_fits(rhs, -1),
        ensures
            final(self).wf(),
            final(self)@ == Seq::new(SIZE as nat, |j: int| (old(self)@[j] - rhs@[j]) as i64),
    {
        *self = self.sub(rhs);
    }

    /// Scales this point by `rhs`.
    pub fn mul_assign(&mut self, rhs: i64)
        requires
            old(self).wf(),
            old(self).scale_fits(rhs as int),
        ensures
            final(self).wf(),
            final(self)@ == Seq::new(SIZE as nat, |j: int| (old(self)@[j] * rhs) as i64),
    {
        *self = self.mul(rhs);
    }
}

impl<const SIZE: usize> PartialEq for Point<SIZE> {
    fn eq(&self, other: &Point<SIZE>) -> (r: bool) {
        self.data.same_storage(&other.data)
    }
}

impl<const SIZE: usize> vstd::std_specs::cmp::PartialEqSpecImpl for Point<SIZE> {
    open spec fn obeys_eq_spec() -> bool {
        true
    }

    open spec fn eq_spec(&self, other: &Point<SIZE>) -> bool {
        self.data.storage() == other.data.storage()
    }
}

/// For well-formed points, `==` compares the coordinates.
pub proof fn lemma_eq_coords<const SIZE: usize>(p: &Point<SIZE>, q: &Point<SIZE>)
    requires
        p.wf(),
        q.wf(),
    ensures
        (p.data.storage() == q.data.storage()) == (p@ == q@),
{
    RectMatrix::<1, SIZE>::lemma_storage_entries(&p.data, &q.data);
    if p@ == q@ {
        assert forall|i: int, j: int| 0 <= i < 1 && 0 <= j < SIZE implies #[trigger] p.data.entry(i, j)
            == q.data.entry(i, j) by {
            assert(p@[j] == q@[j]);
        }
    }
    if p.data.storage() == q.data.storage() {
        assert(p@ =~= q@);
    }
}

impl Point<1> {
    /// The first coordinate.
    pub fn x(&self) -> (r: i64)
        requires
            self.wf(),
        ensures
            r == self@[0],
    {
        self.value(0)
    }

    /// Sets the first coordinate.
    pub fn set_x(&mut self, x: i64)
        requires
            old(self).wf(),
        ensures
            final(self).wf(),
            final(self)@ == old(self)@.update(0, x),
    {
        self.set_value(0, x);
    }
}

impl Point<2> {
    /// The first coordinate.
    pub fn x(&self) -> (r: i64)
        requires
            self.wf(),
        ensures
            r == self@[0],
    {
        self.value(0)
    }

    /// Sets the first coordinate.
    pub fn set_x(&mut self, x: i64)
        requires
            old(self).wf(),
        ensures
            final(self).wf(),
            final(self)@ == old(self)@.update(0, x),
    {
        self.set_value(0, x);
    }

    /// The second coordinate.
    pub fn y(&self) -> (r: i64)
        requires
            self.wf(),
        ensures
            r == self@[1],
    {
        self.value(1)
    }

    /// Sets the second coordinate.
    pub fn set_y(&mut self, y: i64)
        requires
            old(self).wf(),
        ensures
            final(self).wf(),
            final(self)@ == old(self)@.update(1, y),
    {
        self.set_value(1, y);
    }
}

impl Point<3> {
    /// The first coordinate.
    pub fn x(&self) -> (r: i64)
        requires
            self.wf(),
        ensures
            r == self@[0],
    {
        self.value(0)
    }

    /// Sets the first coordinate.
    pub fn set_x(&mut self, x: i64)
        requires
            old(self).wf(),
        ensures
            final(self).wf(),
            final(self)@ == old(self)@.update(0, x),
    {
        self.set_value(0, x);
    }

    /// The second coordinate.
    pub fn y(&self) -> (r: i64)
        requires
            self.wf(),
        ensures
            r == self@[1],
    {
        self.value(1)
    }

    /// Sets the second coordinate.
    pub fn set_y(&mut self, y: i64)
        requires
            old(self).wf(),
        ensures
            final(self).wf(),
            final(self)@ == old(self)@.update(1, y),
    {
        self.set_value(1, y);
    }

    /// The third coordinate.
    pub fn z(&self) -> (r: i64)
        requires
            self.wf(),
        ensures
            r == self@[2],
    {
        self.value(2)
    }

    /// Sets the third coordinate.
    pub fn set_z(&mut self, z: i64)
        requires
            old(self).wf(),
        ensures
            final(self).wf(),
            final(self)@ == old(self)@.update(2, z),
    {
        self.set_value(2, z);
    }
}

} // verus!
