use tone_curve::curve::{Curve, CurveError, Param, Shape, Term};
use tone_curve::matrix::{build_colorant_matrix, Matrix, Profile, XYZNumber};

#[test]
fn unified_form_of_a_pure_power() {
    let p = Param::new(1).unwrap();
    assert_eq!(p.g, Term::Given(0));
    assert_eq!(p.a, Term::One);
    assert_eq!(p.b, Term::Zero);
    assert_eq!(p.c, Term::One);
    assert_eq!(p.d, Term::Zero);
    assert_eq!(p.e, Term::Zero);
    assert_eq!(p.f, Term::Zero);
}

#[test]
fn unified_form_of_three_coefficients() {
    let p = Param::new(3).unwrap();
    assert_eq!(
        p,
        Param {
            g: Term::Given(0),
            a: Term::Given(1),
            b: Term::Given(2),
            c: Term::Zero,
            d: Term::Root,
            e: Term::Zero,
            f: Term::Zero,
        }
    );
}

#[test]
fn unified_form_of_four_coefficients() {
    let p = Param::new(4).unwrap();
    assert_eq!(
        p,
        Param {
            g: Term::Given(0),
            a: Term::Given(1),
            b: Term::Given(2),
            c: Term::Zero,
            d: Term::Root,
            e: Term::Given(3),
            f: Term::Given(3),
        }
    );
}

#[test]
fn unified_form_of_five_coefficients() {
    let p = Param::new(5).unwrap();
    assert_eq!(
        p,
        Param {
            g: Term::Given(0),
            a: Term::Given(1),
            b: Term::Given(2),
            c: Term::Given(3),
            d: Term::Given(4),
            e: Term::Zero,
            f: Term::Zero,
        }
    );
}

#[test]
fn unified_form_of_seven_coefficients() {
    let p = Param::new(7).unwrap();
    assert_eq!(
        p,
        Param {
            g: Term::Given(0),
            a: Term::Given(1),
            b: Term::Given(2),
            c: Term::Given(3),
            d: Term::Given(4),
            e: Term::Given(5),
            f: Term::Given(6),
        }
    );
}

#[test]
fn other_coefficient_counts_are_invalid() {
    for count in [0usize, 2, 6, 8, 9, usize::MAX] {
        assert_eq!(Param::new(count), Err(CurveError::InvalidParametric));
    }
}

#[test]
fn colorant_matrix_has_colorants_as_columns() {
    let profile = Profile {
        red_colorant: XYZNumber { x: 28578, y: 14581, z: 912 },
        green_colorant: XYZNumber { x: 25241, y: 46981, z: 6362 },
        blue_colorant: XYZNumber { x: 9374, y: 3972, z: 46784 },
    };
    assert_eq!(
        build_colorant_matrix(&profile),
        Matrix { m: [[28578, 25241, 9374], [14581, 46981, 3972], [912, 6362, 46784]] }
    );
}

#[test]
fn colorant_matrix_keeps_negative_components() {
    let profile = Profile {
        red_colorant: XYZNumber { x: -1, y: i32::MIN, z: i32::MAX },
        green_colorant: XYZNumber { x: 0, y: 65536, z: -65536 },
        blue_colorant: XYZNumber { x: 1, y: 2, z: 3 },
    };
    let matrix = build_colorant_matrix(&profile);
    assert_eq!(matrix.m[0], [-1, 0, 1]);
    assert_eq!(matrix.m[1], [i32::MIN, 65536, 2]);
    assert_eq!(matrix.m[2], [i32::MAX, -65536, 3]);
}

#[test]
fn shape_of_each_kind_of_curve() {
    assert_eq!(Curve::Sampled(vec![]).shape(), Ok(Shape::Identity));
    assert_eq!(Curve::Sampled(vec![563]).shape(), Ok(Shape::Power { gamma: 563 }));
    assert_eq!(Curve::Sampled(vec![0, 65535]).shape(), Ok(Shape::Table));
    assert_eq!(Curve::Sampled(vec![9, 8, 7]).shape(), Ok(Shape::Table));
    assert_eq!(Curve::Parametric(vec![0; 7]).shape(), Ok(Shape::Parametric));
    assert_eq!(Curve::Parametric(vec![]).shape(), Err(CurveError::InvalidParametric));
    assert_eq!(Curve::Parametric(vec![0; 2]).shape(), Err(CurveError::InvalidParametric));
}
