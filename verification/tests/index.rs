use snarky_bn382::field::FieldElement;
use snarky_bn382::index::{
    agrees_with_domain_size, constraint_matrices, h_to_x_ratio, ConfigError, IndexError,
    MatrixName, SystemShape,
};
use snarky_bn382::matrix::{rows_to_csmat, MatrixError, Row};
use snarky_bn382::row::RowFault;
use snarky_bn382::domain::DomainSizes;

fn fe(v: u64) -> FieldElement {
    FieldElement { limbs: [v, 0, 0, 0, 0, 0] }
}

fn row(indices: &[usize], coefficients: &[u64]) -> Row {
    (indices.to_vec(), coefficients.iter().map(|c| fe(*c)).collect())
}

fn shape(
    variables: usize,
    public_inputs: usize,
    constraints: (usize, usize, usize),
    h: usize,
    x: usize,
) -> SystemShape {
    SystemShape { variables, public_inputs, constraints, domains: DomainSizes { h, x } }
}

#[test]
fn ratio_of_the_two_domains() {
    assert_eq!(h_to_x_ratio(&shape(10, 3, (13, 13, 13), 16, 4)), Ok(4));
    assert_eq!(h_to_x_ratio(&shape(1, 1, (1, 1, 1), 1, 1)), Ok(1));
    assert_eq!(h_to_x_ratio(&shape(5, 5, (1000, 1000, 1000), 1024, 8)), Ok(128));
    assert_eq!(h_to_x_ratio(&shape(4, 4, (4, 4, 4), 4, 4)), Ok(1));
}

#[test]
fn a_system_without_the_constant_is_refused() {
    assert_eq!(
        h_to_x_ratio(&shape(10, 0, (13, 13, 13), 16, 1)),
        Err(ConfigError::NoConstantSlot)
    );
}

#[test]
fn a_system_with_more_variables_than_constraints_is_refused() {
    assert_eq!(
        h_to_x_ratio(&shape(14, 3, (13, 13, 13), 16, 4)),
        Err(ConfigError::TooFewConstraints)
    );
}

#[test]
fn matrices_of_different_heights_are_refused() {
    assert_eq!(
        h_to_x_ratio(&shape(10, 3, (13, 12, 13), 16, 4)),
        Err(ConfigError::SizeMismatch)
    );
    assert_eq!(
        h_to_x_ratio(&shape(10, 3, (13, 13, 14), 16, 4)),
        Err(ConfigError::SizeMismatch)
    );
}

#[test]
fn domains_of_another_size_are_refused() {
    assert_eq!(
        h_to_x_ratio(&shape(10, 3, (13, 13, 13), 32, 4)),
        Err(ConfigError::DomainSizeMismatch)
    );
    assert_eq!(
        h_to_x_ratio(&shape(10, 3, (13, 13, 13), 16, 8)),
        Err(ConfigError::DomainSizeMismatch)
    );
    assert_eq!(
        h_to_x_ratio(&shape(10, 3, (13, 13, 13), 13, 3)),
        Err(ConfigError::DomainSizeMismatch)
    );
}

#[test]
fn a_witness_domain_below_that_of_the_public_inputs_is_refused() {
    assert_eq!(
        h_to_x_ratio(&shape(2, 5, (2, 2, 2), 2, 8)),
        Err(ConfigError::RatioNotIntegral)
    );
}

#[test]
fn the_first_thing_wrong_with_a_shape_is_reported() {
    assert_eq!(
        h_to_x_ratio(&shape(14, 0, (13, 12, 13), 99, 99)),
        Err(ConfigError::NoConstantSlot)
    );
    assert_eq!(
        h_to_x_ratio(&shape(14, 3, (13, 12, 13), 99, 99)),
        Err(ConfigError::TooFewConstraints)
    );
    assert_eq!(
        h_to_x_ratio(&shape(13, 3, (13, 12, 13), 99, 99)),
        Err(ConfigError::SizeMismatch)
    );
}

#[test]
fn domain_sizes_are_checked_against_the_policy() {
    assert!(agrees_with_domain_size(5, 8));
    assert!(agrees_with_domain_size(8, 8));
    assert!(agrees_with_domain_size(0, 1));
    assert!(!agrees_with_domain_size(5, 16));
    assert!(!agrees_with_domain_size(5, 4));
    assert!(!agrees_with_domain_size(9, 8));
    assert!(!agrees_with_domain_size(usize::MAX, 1));
}

fn system() -> (Vec<Row>, Vec<Row>, Vec<Row>) {
    let a = vec![row(&[0, 2], &[1, 2]), row(&[1], &[3]), row(&[3, 2], &[4, 5]), row(&[], &[])];
    let b = vec![row(&[1], &[6]), row(&[1, 0], &[7, 8]), row(&[], &[]), row(&[], &[])];
    let c = vec![
        row(&[3], &[9]),
        row(&[2], &[10]),
        row(&[0, 1, 2, 3], &[11, 12, 13, 14]),
        row(&[], &[]),
    ];
    (a, b, c)
}

#[test]
fn three_matrices_of_a_system() {
    let (a, b, c) = system();
    // 4 variables, the constant and one public input: |X| = 2, |H| = 4, blocks of 2
    let ms = constraint_matrices(&a, &b, &c, 4, 2, DomainSizes { h: 4, x: 2 }).unwrap();
    assert_eq!(ms.a, rows_to_csmat(2, 2, &a));
    assert_eq!(ms.b, rows_to_csmat(2, 2, &b));
    assert_eq!(ms.c, rows_to_csmat(2, 2, &c));
    // 0 -> 0, 1 -> 2, 2 -> 1, 3 -> 3
    let ca = ms.a.into_compressed_rows();
    assert_eq!(ca.rows, 4);
    assert_eq!(ca.columns, 4);
    assert_eq!(ca.indptr, vec![0, 2, 3, 5, 5]);
    assert_eq!(ca.indices, vec![0, 1, 2, 1, 3]);
    assert_eq!(ca.data, vec![fe(1), fe(2), fe(3), fe(5), fe(4)]);
    let cb = ms.b.into_compressed_rows();
    assert_eq!(cb.indptr, vec![0, 1, 3, 3, 3]);
    assert_eq!(cb.indices, vec![2, 0, 2]);
    assert_eq!(cb.data, vec![fe(6), fe(8), fe(7)]);
    let cc = ms.c.into_compressed_rows();
    assert_eq!(cc.indptr, vec![0, 1, 2, 6, 6]);
    assert_eq!(cc.indices, vec![3, 1, 0, 1, 2, 3]);
    assert_eq!(cc.data, vec![fe(9), fe(10), fe(11), fe(13), fe(12), fe(14)]);
}

#[test]
fn a_system_of_the_wrong_shape_has_no_matrices() {
    let (a, b, c) = system();
    assert_eq!(
        constraint_matrices(&a, &b, &c, 4, 0, DomainSizes { h: 4, x: 2 }),
        Err(IndexError::Config(ConfigError::NoConstantSlot))
    );
    assert_eq!(
        constraint_matrices(&a, &b, &c, 4, 2, DomainSizes { h: 8, x: 2 }),
        Err(IndexError::Config(ConfigError::DomainSizeMismatch))
    );
    let short = vec![row(&[0], &[1])];
    assert_eq!(
        constraint_matrices(&a, &short, &c, 3, 2, DomainSizes { h: 4, x: 2 }),
        Err(IndexError::Config(ConfigError::SizeMismatch))
    );
}

#[test]
fn the_first_matrix_that_fails_is_named() {
    let (a, b, c) = system();
    let bad = vec![row(&[1], &[6]), row(&[1, 1], &[7, 8]), row(&[9], &[1]), row(&[], &[])];
    assert_eq!(
        constraint_matrices(&a, &bad, &bad, 3, 2, DomainSizes { h: 4, x: 2 }),
        Err(IndexError::Matrix {
            name: MatrixName::B,
            error: MatrixError::MalformedRow {
                row: 1,
                fault: RowFault::DuplicateIndex { entry: 1 }
            }
        })
    );
    assert_eq!(
        constraint_matrices(&a, &b, &bad, 3, 2, DomainSizes { h: 4, x: 2 }),
        Err(IndexError::Matrix {
            name: MatrixName::C,
            error: MatrixError::MalformedRow {
                row: 1,
                fault: RowFault::DuplicateIndex { entry: 1 }
            }
        })
    );
    assert_eq!(
        constraint_matrices(&bad, &b, &c, 3, 2, DomainSizes { h: 4, x: 2 }),
        Err(IndexError::Matrix {
            name: MatrixName::A,
            error: MatrixError::MalformedRow {
                row: 1,
                fault: RowFault::DuplicateIndex { entry: 1 }
            }
        })
    );
}
