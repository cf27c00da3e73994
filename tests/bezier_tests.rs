use isogeometric_analysis::bernstein::Bernstein;
use isogeometric_analysis::bezier::BezierCurve;
use isogeometric_analysis::evaluator::Evaluator;
use isogeometric_analysis::mapping::Mapping;
use isogeometric_analysis::point::Point;
use isogeometric_analysis::rational::RatBezierCurve;
use isogeometric_analysis::surface::BezierSurf;

fn p2(x: i64, y: i64) -> Point<2> {
    Point::<2>::point2d(x, y)
}

fn p3(x: i64, y: i64, z: i64) -> Point<3> {
    Point::<3>::point3d(x, y, z)
}

/// The demonstration curve of degree five, its coordinates times ten.
fn demo_points() -> Vec<Point<2>> {
    vec![p2(0, 0), p2(10, 10), p2(20, 5), p2(30, 5), p2(6, 15), p2(15, 0)]
}

fn direct(c: &BezierCurve<2>, xi: u64, den: u64) -> Point<2> {
    let mut out = Point::<2>::origin();
    c.evaluate_direct(xi, den, &mut out);
    out
}

/// The Bernstein-weighted sum computed term by term from `Bernstein`.
fn by_bernstein(pts: &[Point<2>], xi: u64, den: u64) -> Point<2> {
    let n = (pts.len() - 1) as u32;
    let mut x: i64 = 0;
    let mut y: i64 = 0;
    for (i, p) in pts.iter().enumerate() {
        let b = Bernstein::create(n, i as u32).unwrap().evaluate_scaled(xi, den) as i64;
        x += b * p.x();
        y += b * p.y();
    }
    p2(x, y)
}

#[test]
fn bernstein_rejects_index_above_degree() {
    assert!(Bernstein::create(5, 6).is_none());
    assert!(Bernstein::create(0, 1).is_none());
    assert!(Bernstein::create(5, 5).is_some());
}

#[test]
fn bernstein_five_two_at_half() {
    let b = Bernstein::create(5, 2).unwrap();
    assert_eq!(b.degree(), 5);
    assert_eq!(b.index(), 2);
    let scaled = b.evaluate_scaled(1, 2);
    assert_eq!(scaled, 10);
    assert_eq!(scaled as f64 / 32.0, 0.3125);
}

#[test]
fn bernstein_zero_to_the_zero_is_one() {
    assert_eq!(Bernstein::create(3, 0).unwrap().evaluate_scaled(0, 7), 343);
    assert_eq!(Bernstein::create(3, 3).unwrap().evaluate_scaled(7, 7), 343);
    assert_eq!(Bernstein::create(0, 0).unwrap().evaluate_scaled(0, 1), 1);
    assert_eq!(Bernstein::create(3, 1).unwrap().evaluate_scaled(0, 7), 0);
}

#[test]
fn bernstein_partition_of_unity() {
    for n in 0..=12u32 {
        for xi in 0..=8u64 {
            let mut sum: u64 = 0;
            for i in 0..=n {
                sum += Bernstein::create(n, i).unwrap().evaluate_scaled(xi, 8);
            }
            assert_eq!(sum, 8u64.pow(n));
        }
    }
}

#[test]
fn bernstein_largest_degree() {
    let b = Bernstein::create(20, 10).unwrap();
    assert_eq!(b.evaluate_scaled(1, 2), 184756);
    let mut sum: u64 = 0;
    for i in 0..=20u32 {
        sum += Bernstein::create(20, i).unwrap().evaluate_scaled(3, 8);
    }
    assert_eq!(sum, 8u64.pow(20));
}

#[test]
fn closed_forms_match_the_bernstein_sum() {
    let sets: Vec<Vec<Point<2>>> = vec![
        vec![p2(-3, 7), p2(12, -5)],
        vec![p2(0, 0), p2(4, 9), p2(-6, 2)],
        vec![p2(1, 1), p2(8, -3), p2(-2, 5), p2(7, 7)],
    ];
    for pts in sets.iter() {
        let c = BezierCurve::<2>::create(pts.clone_points());
        for i in 0..100u64 {
            let got = direct(&c, i, 99);
            assert_eq!(got, by_bernstein(pts, i, 99));
        }
    }
}

trait ClonePoints {
    fn clone_points(&self) -> Vec<Point<2>>;
}

impl ClonePoints for Vec<Point<2>> {
    fn clone_points(&self) -> Vec<Point<2>> {
        self.iter().map(|p| p.copy()).collect()
    }
}

#[test]
fn cubic_closed_form_value() {
    let c = BezierCurve::<2>::create(vec![p2(0, 0), p2(1, 0), p2(0, 1), p2(1, 1)]);
    // 3 * 1 * 1 * 1 + 1 = 4 and 3 * 1 * 1 * 1 + 1 = 4 at xi = 1/2, scaled by 8.
    assert_eq!(direct(&c, 1, 2), p2(4, 4));
}

#[test]
fn direct_and_de_casteljau_agree() {
    let pts = demo_points();
    for len in 1..=pts.len() {
        let c = BezierCurve::<2>::create(pts[..len].iter().map(|p| p.copy()).collect());
        assert_eq!(c.degree() as usize, len - 1);
        for xi in 0..=4u64 {
            assert_eq!(direct(&c, xi, 4), c.evaluate_de_casteljau(xi, 4));
        }
        let scale = 4i64.pow((len - 1) as u32);
        assert_eq!(c.evaluate_de_casteljau(0, 4), pts[0].mul(scale));
        assert_eq!(c.evaluate_de_casteljau(4, 4), pts[len - 1].mul(scale));
    }
}

#[test]
fn demo_curve_end_points() {
    let c = BezierCurve::<2>::create(demo_points());
    assert_eq!(c.control_points().len(), 6);
    assert_eq!(c.evaluate_de_casteljau(0, 1), p2(0, 0));
    assert_eq!(c.evaluate_de_casteljau(1, 1), p2(15, 0));
    assert_eq!(direct(&c, 0, 1), p2(0, 0));
    assert_eq!(direct(&c, 1, 1), p2(15, 0));
}

#[test]
fn demo_curve_at_half() {
    let c = BezierCurve::<2>::create(demo_points());
    // 32 * C(1/2) = 0 + 5*10 + 10*20 + 10*30 + 5*6 + 15 and 5*10 + 10*5 + 10*5 + 5*15.
    assert_eq!(c.evaluate_de_casteljau(1, 2), p2(595, 225));
    assert_eq!(direct(&c, 1, 2), p2(595, 225));
}

#[test]
fn bezier_test_eq() {
    let demo1 = BezierCurve::<2>::create(demo_points());
    let mut w = Vec::<i64>::new();
    for _i in 0..demo1.control_points().len() {
        w.push(1);
    }
    let demorat1 = RatBezierCurve::<2, 3>::create(demo1.control_points().clone_points(), w);
    let scale = 100i64.pow(5);
    for i in 0..=100u64 {
        let mut outputrat = Point::<2>::origin();
        demorat1.evaluate_fill(i, 100, &mut outputrat);
        let output = direct(&demo1, i, 100);
        assert_eq!(outputrat, p2(output.x() / scale, output.y() / scale));
    }
}

#[test]
fn rational_weights_pull_toward_a_point() {
    let pts = vec![p2(0, 0), p2(100, 100), p2(200, 0)];
    let heavy = RatBezierCurve::<2, 3>::create(pts.clone_points(), vec![1, 3, 1]);
    let mut out = Point::<2>::origin();
    heavy.evaluate_fill(1, 2, &mut out);
    // (0 + 2*3*100 + 0, 0 + 2*3*100 + 0) / (1 + 6 + 1) in each coordinate, times 4 / 4.
    assert_eq!(out, p2(100, 75));
    assert_eq!(heavy.pw[1], p3(300, 300, 3));
}

fn grid(rows: &[&[(i64, i64, i64)]]) -> BezierSurf<3> {
    BezierSurf::<3> {
        data: rows.iter().map(|r| r.iter().map(|&(x, y, z)| p3(x, y, z)).collect()).collect(),
    }
}

#[test]
fn surface_algorithms_agree() {
    let s = grid(&[
        &[(0, 0, 0), (1, 0, 3), (2, 0, -1), (3, 0, 2)],
        &[(0, 1, 1), (1, 1, 5), (2, 1, 0), (3, 1, 4)],
        &[(0, 2, -2), (1, 2, 1), (2, 2, 6), (3, 2, 0)],
    ]);
    assert_eq!(s.degree_xi(), 2);
    assert_eq!(s.degree_eta(), 3);
    for xi in 0..=4u64 {
        for eta in 0..=3u64 {
            let mut a = Point::<3>::origin();
            let mut b = Point::<3>::origin();
            s.evaluate_direct(xi, 4, eta, 3, &mut a);
            s.evaluate_de_casteljau(xi, 4, eta, 3, &mut b);
            assert_eq!(a, b);
        }
    }
}

#[test]
fn surface_corners() {
    let s = grid(&[&[(1, 2, 3), (4, 5, 6)], &[(7, 8, 9), (10, 11, 12)]]);
    let mut out = Point::<3>::origin();
    s.evaluate_de_casteljau(0, 1, 0, 1, &mut out);
    assert_eq!(out, p3(1, 2, 3));
    s.evaluate_de_casteljau(0, 1, 1, 1, &mut out);
    assert_eq!(out, p3(4, 5, 6));
    s.evaluate_de_casteljau(1, 1, 0, 1, &mut out);
    assert_eq!(out, p3(7, 8, 9));
    s.evaluate_direct(1, 1, 1, 1, &mut out);
    assert_eq!(out, p3(10, 11, 12));
    // The centre, scaled by 2 * 2: the mean of the corners times 4.
    s.evaluate_direct(1, 2, 1, 2, &mut out);
    assert_eq!(out, p3(22, 26, 30));
}

#[test]
fn mapping_evaluates_each_kind() {
    let b = Bernstein::create(5, 2).unwrap();
    assert_eq!(b.evaluate(&Point::<1>::point1d(1), 2), Point::<1>::point1d(10));

    let c = BezierCurve::<2>::create(demo_points());
    assert_eq!(Mapping::<1, 2>::evaluate(&c, &Point::<1>::point1d(1), 2), p2(595, 225));

    let s = grid(&[&[(1, 2, 3), (4, 5, 6)], &[(7, 8, 9), (10, 11, 12)]]);
    assert_eq!(s.evaluate(&p2(1, 1), 2), p3(22, 26, 30));

    let r = RatBezierCurve::<2, 3>::create(vec![p2(0, 0), p2(100, 100), p2(200, 0)], vec![1, 3, 1]);
    let mut out = Point::<2>::origin();
    Mapping::<1, 2>::evaluate_fill(&r, &Point::<1>::point1d(1), 2, &mut out);
    assert_eq!(out, p2(100, 75));
}

#[test]
fn batch_evaluation_over_evenly_spaced_parameters() {
    let c = BezierCurve::<2>::create(vec![p2(0, 0), p2(8, 4)]);
    let (inputs, outputs) = Evaluator::<1, 2, 5>::evaluate_parametric_range1d(&c, 0, 1, 1);
    let xs: Vec<i64> = inputs.iter().map(|p| p.x()).collect();
    assert_eq!(xs, vec![0, 1, 2, 3, 4]);
    assert_eq!(outputs, vec![p2(0, 0), p2(8, 4), p2(16, 8), p2(24, 12), p2(32, 16)]);

    let (inputs, outputs) = Evaluator::<1, 2, 3>::evaluate_parametric_range1d(&c, 1, 3, 4);
    let xs: Vec<i64> = inputs.iter().map(|p| p.x()).collect();
    assert_eq!(xs, vec![2, 4, 6]);
    assert_eq!(outputs, vec![p2(16, 8), p2(32, 16), p2(48, 24)]);

    let (inputs, outputs) = Evaluator::<1, 2, 1>::evaluate_parametric_range1d(&c, 0, 1, 1);
    assert!(inputs.is_empty() && outputs.is_empty());

    let values = vec![Point::<1>::point1d(0), Point::<1>::point1d(3)];
    let out = Evaluator::<1, 2, 0>::evaluate(&c, &values, 3);
    assert_eq!(out, vec![p2(0, 0), p2(24, 12)]);
}

#[test]
fn batch_evaluation_over_a_parameter_grid() {
    let s = grid(&[&[(0, 0, 0), (0, 6, 0)], &[(6, 0, 0), (6, 6, 6)]]);
    let (inputs, outputs) = Evaluator::<2, 3, 3>::evaluate_parametric_range2d(&s, 0, 1, 0, 1, 1);
    assert_eq!(inputs.len(), 9);
    assert_eq!(inputs[5], p2(1, 2));
    // At (1/2, 1): scaled by 2 * 2, the mean of the second column, times 4.
    assert_eq!(outputs[5], p3(12, 24, 12));
    assert_eq!(outputs[8], p3(24, 24, 24));
    assert_eq!(outputs[0], p3(0, 0, 0));
    let (inputs, outputs) = Evaluator::<2, 3, 0>::evaluate_parametric_range2d(&s, 0, 1, 0, 1, 1);
    assert!(inputs.is_empty() && outputs.is_empty());
}
