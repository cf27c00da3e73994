use isogeometric_analysis::circle::BezierCircle;
use isogeometric_analysis::evaluator::Evaluator;
use isogeometric_analysis::factorial::fact;
use isogeometric_analysis::factory::BezierFactory;
use isogeometric_analysis::patch_format::parse_patch;
use isogeometric_analysis::matrix::{ColVector, RectMatrix, RowVector};
use isogeometric_analysis::point::{IntPoint, Point};
use isogeometric_analysis::range::IntRange;
use isogeometric_analysis::size::Size;

#[test]
fn it_works() {
    assert_eq!(Size { width: 0, height: 0 }.is_empty(), true);
}

#[test]
fn test_empty() {
    assert_eq!(Size { width: 0, height: 0 }.is_empty(), true);
}

#[test]
fn size_not_empty() {
    assert_eq!(Size { width: 3, height: 0 }.is_empty(), true);
    assert_eq!(Size { width: 3, height: 2 }.is_empty(), false);
}

#[test]
fn test_equality() {
    assert_eq!(Size { width: 10, height: 20 }, Size { width: 10, height: 20 });
    assert_ne!(Size { width: 10, height: 20 }, Size { width: 11, height: 20 });
}

#[test]
fn range_test_size() {
    assert_eq!(IntRange { a: 0, b: 0 }.size_closed(), 1);
    assert_eq!(IntRange { a: 0, b: 6 }.size_closed(), 7)
}

#[test]
fn factorial_test() {
    assert_eq!(fact(0), 1);
    assert_eq!(fact(1), 1);
    assert_eq!(fact(2), 2);
    assert_eq!(fact(4), 24);
    assert_eq!(fact(5), 120);
    assert_eq!(fact(6), 720);
    assert_eq!(fact(7), 5040);
    assert_eq!(fact(8), 40320);
    assert_eq!(fact(9), 362880);
    assert_eq!(fact(20), 2432902008176640000);
}

fn m(rows: &[&[i64]]) -> Vec<Vec<i64>> {
    rows.iter().map(|r| r.to_vec()).collect()
}

#[test]
fn test_get() {
    let mt = RectMatrix::<2, 2>::mat_from_vec(&m(&[&[1, 2], &[3, 4]]));
    assert_eq!(mt.value(0, 0), 1);
    assert_eq!(mt.value(0, 1), 2);
    assert_eq!(mt.value(1, 0), 3);
    assert_eq!(mt.value(1, 1), 4);
    assert_eq!(mt.row(0), RowVector::<2>::row_from_vec(&[1, 2]));
    assert_eq!(mt.row(1), RowVector::<2>::row_from_vec(&[3, 4]));
    assert_eq!(mt.col(0), ColVector::<2>::col_from_vec(&[1, 3]));
    assert_eq!(mt.col(1), ColVector::<2>::col_from_vec(&[2, 4]));
}

#[test]
fn test_set() {
    let mut mt = RectMatrix::<2, 2>::mat_from_vec(&m(&[&[1, 2], &[3, 4]]));
    mt.set_value(0, 0, 15);
    assert_eq!(mt.value(0, 0), 15);
    assert_eq!(mt.value(0, 1), 2);
    assert_eq!(mt.value(1, 0), 3);
    assert_eq!(mt.value(1, 1), 4);
}

#[test]
fn matrix_test_size() {
    let mt = RectMatrix::<3, 2>::mat_from_vec(&m(&[&[1, 2], &[3, 4], &[5, 6]]));
    assert_eq!(mt.rows(), 3);
    assert_eq!(mt.cols(), 2);
    assert_eq!(mt.size(), Size { width: 2, height: 3 });
}

#[test]
fn test_add() {
    let m1 = RectMatrix::<1, 3>::mat_from_vec(&m(&[&[1, 2, 3]]));
    let m2 = RectMatrix::<1, 3>::mat_from_vec(&m(&[&[1, 1, 1]]));
    let m3 = m1.mult_add(&m2, 1);
    let m4 = m1.add(&m2);
    assert_ne!(m2, m1);
    assert_eq!(m3, RectMatrix::<1, 3>::mat_from_vec(&m(&[&[2, 3, 4]])));
    assert_eq!(m3, m4);
}

#[test]
fn test_sub() {
    let m1 = RectMatrix::<1, 3>::mat_from_vec(&m(&[&[1, 2, 3]]));
    let m2 = RectMatrix::<1, 3>::mat_from_vec(&m(&[&[1, 1, 1]]));
    let m3 = m1.mult_add(&m2, -1);
    let m4 = m1.sub(&m2);
    assert_ne!(m2, m1);
    assert_eq!(m3, RectMatrix::<1, 3>::mat_from_vec(&m(&[&[0, 1, 2]])));
    assert_eq!(m3, m4);
}

#[test]
fn test_zeros() {
    let mt = RectMatrix::<5, 5>::zeros();
    assert_eq!(
        mt,
        RectMatrix::<5, 5>::mat_from_vec(&m(&[
            &[0, 0, 0, 0, 0],
            &[0, 0, 0, 0, 0],
            &[0, 0, 0, 0, 0],
            &[0, 0, 0, 0, 0],
            &[0, 0, 0, 0, 0]
        ]))
    );
    assert_eq!(mt.value(0, 0), 0);
    assert_eq!(mt.value(1, 1), 0);
    assert_eq!(mt.value(2, 2), 0);
    assert_eq!(mt.value(3, 3), 0);
    assert_eq!(mt.value(4, 4), 0);
}

#[test]
fn test_identity() {
    let mt = RectMatrix::<10, 10>::identity();
    for i in 0..(mt.rows() - 1) {
        for j in 0..(mt.cols() - 1) {
            assert_eq!(mt.value(i, j), if i == j { 1 } else { 0 });
        }
    }
}

#[test]
fn test_mult_scalar_1() {
    let mt = RectMatrix::<3, 3>::mat_from_vec(&m(&[&[1, 2, 3], &[4, 5, 6], &[7, 8, 9]]));
    let m2 = mt.scale(5);
    assert_eq!(m2, RectMatrix::<3, 3>::mat_from_vec(&m(&[&[5, 10, 15], &[20, 25, 30], &[35, 40, 45]])));
}

#[test]
fn test_mult_scalar_2() {
    let mt = RectMatrix::<3, 3>::mat_from_vec(&m(&[&[5, 6, 7], &[1, 2, 3], &[9, 8, 7]]));
    assert_eq!(
        mt.scale(9),
        RectMatrix::<3, 3>::mat_from_vec(&m(&[
            &[5 * 9, 6 * 9, 7 * 9],
            &[1 * 9, 2 * 9, 3 * 9],
            &[9 * 9, 8 * 9, 7 * 9]
        ]))
    );
}

#[test]
fn test_mult_scalar_3() {
    let mt = RectMatrix::<3, 3>::mat_from_vec(&m(&[
        &[5 * 9, 6 * 9, 7 * 9],
        &[1 * 9, 2 * 9, 3 * 9],
        &[9 * 9, 8 * 9, 7 * 9],
    ]));
    assert_eq!(mt.scale(0), RectMatrix::<3, 3>::zeros());
}

#[test]
fn test_mult_matrix() {
    let m1 = RectMatrix::<3, 3>::mat_from_vec(&m(&[&[5, 6, 7], &[1, 2, 3], &[9, 8, 7]]));
    let m2 = RectMatrix::<3, 3>::mat_from_vec(&m(&[&[1, 2, 3], &[4, 5, 6], &[7, 8, 9]]));
    let m3 = RectMatrix::<3, 3>::identity();
    let m4 = RectMatrix::<3, 3>::zeros();
    assert_eq!(
        m1.mul_matrix(&m1),
        RectMatrix::<3, 3>::mat_from_vec(&m(&[&[94, 98, 102], &[34, 34, 34], &[116, 126, 136]]))
    );
    assert_eq!(
        m1.mul_matrix(&m2),
        RectMatrix::<3, 3>::mat_from_vec(&m(&[&[78, 96, 114], &[30, 36, 42], &[90, 114, 138]]))
    );
    assert_eq!(m1.mul_matrix(&m3), m1);
    assert_eq!(m2.mul_matrix(&m3), m2);
    assert_eq!(m1.mul_matrix(&m4), m4);
}

#[test]
fn test_transpose() {
    let mt = RectMatrix::<3, 3>::mat_from_vec(&m(&[&[1, 2, 3], &[4, 5, 6], &[7, 8, 9]]));
    assert_eq!(
        mt,
        RectMatrix::<3, 3>::mat_from_vec(&m(&[&[1, 4, 7], &[2, 5, 8], &[3, 6, 9]])).transposed()
    );
}

#[test]
fn test_vec() {
    let r = RowVector::<2>::row_from_vec(&[1, 2]);
    assert_eq!(r.cols(), 2);
    assert_eq!(r.is_row(), true);
    assert_eq!(r.transposed().is_col(), true);

    let c = ColVector::<2>::col_from_vec(&[2, 4]);
    assert_eq!(c.rows(), 2);
    assert_eq!(c.is_col(), true);
    assert_eq!(c.transposed().is_row(), true);
}

#[test]
fn test_rect() {
    let m1 = RectMatrix::<4, 3>::mat_from_vec(&m(&[&[5, 6, 7], &[1, 2, 3], &[9, 8, 7], &[1, 1, 1]]));
    let m2 = RectMatrix::<2, 2>::mat_from_vec(&m(&[&[2, 3], &[8, 7]]));
    assert_eq!(m1.rect::<2, 2>(1, 1), m2);
}

#[test]
fn test_max() {
    let mt = RectMatrix::<4, 3>::mat_from_vec(&m(&[&[5, 6, 7], &[1, 2, 3], &[9, 8, 7], &[1, 1, 1]]));
    assert_eq!(mt.max_col(0), 9);
    assert_eq!(mt.max_col(1), 8);
    assert_eq!(mt.max_col(2), 7);
}

#[test]
fn test_assign_col() {
    let mut mt = RectMatrix::<4, 3>::mat_from_vec(&m(&[&[5, 6, 7], &[1, 2, 3], &[9, 8, 7], &[1, 1, 1]]));
    mt.assign_col(1, &ColVector::<4>::col_from_vec(&[4, 4, 4, 4]));
    assert_eq!(
        mt,
        RectMatrix::<4, 3>::mat_from_vec(&m(&[&[5, 4, 7], &[1, 4, 3], &[9, 4, 7], &[1, 4, 1]]))
    );
}

#[test]
fn test_low_upp_triangular() {
    let l = RectMatrix::<4, 4>::mat_from_vec(&m(&[&[1, 0, 0, 0], &[1, 2, 0, 0], &[1, 2, 3, 0], &[1, 2, 3, 4]]));
    assert_eq!(l.is_lower_triangular(), true);
    assert_eq!(l.is_upper_triangular(), false);
    assert_eq!(l.transposed().is_upper_triangular(), true);
    assert_eq!(RectMatrix::<2, 3>::zeros().is_lower_triangular(), false);
}

#[test]
fn matrix_row_and_col_vectors() {
    let mt = RectMatrix::<2, 3>::mat_from_vec(&m(&[&[1, 2, 3], &[4, 5, 6]]));
    assert_eq!(mt.row_to_vec(1), vec![4, 5, 6]);
    assert_eq!(mt.col_to_vec(2), vec![3, 6]);
    let mut z = mt.transposed();
    z.reset();
    assert_eq!(z, RectMatrix::<3, 2>::zeros());
    assert_eq!(RowVector::<3>::row_from_vec(&[7]), RowVector::<3>::row_from_vec(&[7, 0, 0]));
}

#[test]
fn point_test_eq() {
    assert_eq!(IntPoint::<2>::point2d(6, 5), IntPoint::<2>::point2d(6, 5));
    assert_eq!(Point::<2>::point2d(567, 123), Point::<2>::point2d(567, 123));
    assert_ne!(Point::<2>::point2d(567, 123), Point::<2>::point2d(567, 124));
    assert_eq!(Point::<2>::point2d(1, 2).to_homogeneous::<3>(11), Point::<3>::point3d(11, 22, 11));
    assert_eq!(
        Point::<2>::point2d(1, 2).to_homogeneous::<3>(11).to_cartesian::<2>(),
        Point::<2>::point2d(1, 2)
    );
    assert_eq!(Point::<2>::point2d(2 / 2, 2), Point::<2>::point2d(1, 2));
}

#[test]
fn point_round_trip_negative_weight() {
    let p = Point::<3>::point3d(-7, 4, 0);
    let h = p.to_homogeneous::<4>(-3);
    assert_eq!(h.value(0), 21);
    assert_eq!(h.value(1), -12);
    assert_eq!(h.value(2), 0);
    assert_eq!(h.value(3), -3);
    assert_eq!(h.to_cartesian::<3>(), p);
}

#[test]
fn point_to_cartesian_truncates() {
    let h = Point::<3>::point3d(7, -7, 2);
    assert_eq!(h.to_cartesian::<2>(), Point::<2>::point2d(3, -3));
}

#[test]
fn point_value_out_of_range_is_zero() {
    let mut p = Point::<2>::point2d(4, 9);
    assert_eq!(p.value(1), 9);
    assert_eq!(p.value(2), 0);
    p.set_value(5, 1);
    assert_eq!(p, Point::<2>::point2d(4, 9));
    p.set_y(3);
    assert_eq!(p.y(), 3);
    assert_eq!(p.dim(), 2);
    p.reset();
    assert_eq!(p, Point::<2>::origin());
}

#[test]
fn point_arithmetic() {
    let a = Point::<3>::point3d(1, 2, 3);
    let b = Point::<3>::point3d(10, 20, 30);
    assert_eq!(a.add(&b), Point::<3>::point3d(11, 22, 33));
    assert_eq!(b.sub(&a), Point::<3>::point3d(9, 18, 27));
    assert_eq!(a.mul(-2), Point::<3>::point3d(-2, -4, -6));
    let mut c = a.copy();
    c.add_assign(&b);
    c.sub_assign(&a);
    c.mul_assign(2);
    assert_eq!(c, Point::<3>::point3d(20, 40, 60));
    let mut d = Point::<3>::origin();
    c.clone_to(&mut d);
    assert_eq!(d.z(), 60);
    let mut e = Point::<1>::point1d(5);
    e.set_x(6);
    assert_eq!(e.x(), 6);
}

#[test]
fn split_coords_takes_the_shortest() {
    let xs = vec![Point::<1>::point1d(0), Point::<1>::point1d(1), Point::<1>::point1d(2)];
    let ys = vec![Point::<1>::point1d(3), Point::<1>::point1d(4), Point::<1>::point1d(5)];
    let zs = vec![Point::<1>::point1d(6), Point::<1>::point1d(7), Point::<1>::point1d(8)];
    let (x, y, z) = Evaluator::<1, 1, 1>::split_coords(0, &xs, 0, &ys, 0, &zs);
    assert_eq!(x, vec![0, 1, 2]);
    assert_eq!(y, vec![3, 4, 5]);
    assert_eq!(z, vec![6, 7, 8]);
    let short = vec![Point::<1>::point1d(9)];
    let (x, y, z) = Evaluator::<1, 1, 1>::split_coords(0, &xs, 3, &short, 0, &zs);
    assert_eq!(x, vec![0]);
    assert_eq!(y, vec![0]);
    assert_eq!(z, vec![6]);
}

#[test]
fn mapping_test() {
    let xvalues = vec![Point::<1>::point1d(0), Point::<1>::point1d(1), Point::<1>::point1d(2)];
    let yvalues = vec![Point::<1>::point1d(3), Point::<1>::point1d(4), Point::<1>::point1d(5)];
    let zvalues = vec![Point::<1>::point1d(6), Point::<1>::point1d(7), Point::<1>::point1d(8)];
    let (x, y, z) = Evaluator::<1, 1, 1>::split_coords(0, &xvalues, 0, &yvalues, 0, &zvalues);
    assert_eq!(x.len(), 3);
    assert_eq!(y.len(), 3);
    assert_eq!(z.len(), 3);
    assert_eq!(x[0], 0);
    assert_eq!(x[1], 1);
    assert_eq!(x[2], 2);
    assert_eq!(y[0], 3);
    assert_eq!(y[1], 4);
    assert_eq!(y[2], 5);
    assert_eq!(z[0], 6);
    assert_eq!(z[1], 7);
    assert_eq!(z[2], 8);
}

#[test]
fn evaluate_test() {
    let xvalues = vec![Point::<1>::point1d(0), Point::<1>::point1d(1), Point::<1>::point1d(2)];
    let yvalues = vec![Point::<1>::point1d(3), Point::<1>::point1d(4), Point::<1>::point1d(5)];
    let zvalues = vec![Point::<1>::point1d(6), Point::<1>::point1d(7), Point::<1>::point1d(8)];
    let (x, y, z) = Evaluator::<1, 1, 1>::split_coords(0, &xvalues, 0, &yvalues, 0, &zvalues);
    assert_eq!((x.len(), y.len(), z.len()), (3, 3, 3));
    assert_eq!((x[0], x[1], x[2]), (0, 1, 2));
    assert_eq!((y[0], y[1], y[2]), (3, 4, 5));
    assert_eq!((z[0], z[1], z[2]), (6, 7, 8));
}

#[test]
fn patch_line_parses_sixteen_indices() {
    let line = b"1,2,3,4,5,6,7,8,9,10,11,12,13,14,15,306";
    let v = parse_patch(line).unwrap();
    assert_eq!(v, vec![1, 2, 3, 4, 5, 6, 7, 8, 9, 10, 11, 12, 13, 14, 15, 306]);
}

#[test]
fn patch_line_rejects_malformed_input() {
    assert!(parse_patch(b"1,2,3,4,5,6,7,8,9,10,11,12,13,14,15").is_none());
    assert!(parse_patch(b"1,2,3,4,5,6,7,8,9,10,11,12,13,14,15,16,17").is_none());
    assert!(parse_patch(b"1,2,3,4,5,6,7,8,9,10,11,12,13,14,15,x").is_none());
    assert!(parse_patch(b"1,2,3,4,5,6,7,8,9,10,11,12,13,14,,16").is_none());
    assert!(parse_patch(b"1,2,3,4,5,6,7,8,9,10,11,12,13,14,15, 16").is_none());
    assert!(parse_patch(b"1,2,3,4,5,6,7,8,9,10,11,12,13,14,15,99999999999999999999999").is_none());
    assert!(parse_patch(b"").is_none());
}

#[test]
fn factory_builds_bicubic_patches() {
    let mut vertices: Vec<[i64; 3]> = Vec::new();
    for i in 0..20i64 {
        vertices.push([i, 2 * i, -i]);
    }
    let mut patch = [0usize; 16];
    for j in 0..16 {
        patch[j] = 20 - j;
    }
    let first: [usize; 16] = [1, 2, 3, 4, 5, 6, 7, 8, 9, 10, 11, 12, 13, 14, 15, 16];
    let surfaces = BezierFactory::from_indexed_vertices(vec![first, patch], vertices);
    assert_eq!(surfaces.len(), 2);
    assert_eq!(surfaces[0].degree_xi(), 3);
    assert_eq!(surfaces[0].degree_eta(), 3);
    assert_eq!(surfaces[0].data[1][2], Point::<3>::point3d(6, 12, -6));
    assert_eq!(surfaces[1].data[0][0], Point::<3>::point3d(19, 38, -19));
    assert_eq!(surfaces[1].data[3][3], Point::<3>::point3d(4, 8, -4));
}

#[test]
fn circle_points_and_arcs() {
    let c = BezierCircle { radius: 3, segments: 4 };
    assert_eq!(c.points(), 9);
    let pts: Vec<u32> = (0..9).collect();
    let arcs = c.split_arcs(&pts).unwrap();
    assert_eq!(arcs, vec![vec![0, 1, 2], vec![2, 3, 4], vec![4, 5, 6], vec![6, 7, 8]]);
    let degenerate = BezierCircle { radius: 3, segments: 1 };
    assert_eq!(degenerate.points(), 3);
    assert!(degenerate.split_arcs(&vec![0u32, 1, 2]).is_none());
}
