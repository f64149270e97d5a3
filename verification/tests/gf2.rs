use malg::Matrix;
use malg::MatrixEntry;
use malg::RowOps;
use malg::gf2::Gf2;

fn o() -> Gf2 {
    Gf2 { v: false }
}

fn i() -> Gf2 {
    Gf2 { v: true }
}

#[test]
fn gf2_arithmetic() {
    assert_eq!(Gf2::zero(), o());
    assert_eq!(Gf2::one(), i());
    assert_eq!(i().plus(i()), o());
    assert_eq!(i().plus(o()), i());
    assert_eq!(i().minus(i()), o());
    assert_eq!(i().times(i()), i());
    assert_eq!(i().times(o()), o());
    assert_eq!(i().divide(i()), i());
    assert_eq!(o().divide(i()), o());
    assert!(o().is_zero());
    assert!(!i().is_zero());
}

#[test]
fn reduce_over_gf2() {
    let mut a = Matrix::new(vec![vec![i(), i()], vec![i(), o()]]).unwrap();
    a.transform_to_row_echelon_form();
    assert_eq!(a, Matrix::new(vec![vec![i(), i()], vec![o(), i()]]).unwrap());
}

#[test]
fn reduce_singular_gf2() {
    // two equal rows: the second is eliminated to zero
    let mut a = Matrix::new(vec![vec![i(), i()], vec![i(), i()]]).unwrap();
    a.transform_to_row_echelon_form();
    assert_eq!(a, Matrix::new(vec![vec![i(), i()], vec![o(), o()]]).unwrap());
}
