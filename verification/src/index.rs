//! From a constraint system to its three constraint matrices.
//!
//! A constraint system comes as three lists of rows, one for each of the
//! matrices `A`, `B` and `C`; row `n` of each belongs to constraint `n`. The
//! number of constraints gives the witness domain, the number of public
//! inputs the domain of the public inputs, and the two domains give the
//! number of positions in a block.

use crate::domain::{ceil_pow2, domain_size_for, lemma_domain_blocks, DomainSizes};
use crate::matrix::{
    constraint_matrix_rows, is_matrix_error, max_rows, rows_are_well_formed, try_rows_to_csmat,
    ConstraintMatrix, MatrixError, Row,
};
use vstd::prelude::*;

verus! {

/// Why a constraint system has no layout over the two domains.
#[derive(Clone, Copy, Debug, PartialEq, Eq)]
pub enum ConfigError {
    /// `public_inputs` is 0: it counts the constant, which is always there.
    NoConstantSlot,
    /// There are fewer constraints than variables, so that a square matrix
    /// with a row for each constraint has no column for some variable.
    TooFewConstraints,
    /// The three matrices are not given the same number of rows.
    SizeMismatch,
    /// A domain is not the smallest power of two that holds what it is for:
    /// the public inputs for `x`, the constraints for `h`.
    DomainSizeMismatch,
    /// The witness domain is not made of whole blocks.
    RatioNotIntegral,
}

/// The numbers that a layout is decided from.
#[derive(Clone, Copy, Debug, PartialEq, Eq)]
pub struct SystemShape {
    /// The number of variables, the constant among them.
    pub variables: usize,
    /// The number of public inputs, the constant among them.
    pub public_inputs: usize,
    /// The number of rows given for each of the matrices `A`, `B` and `C`.
    pub constraints: (usize, usize, usize),
    /// The sizes of the two evaluation domains.
    pub domains: DomainSizes,
}

/// True when `size` is the smallest power of two that is at least `count`,
/// and `count` is small enough for a `usize` to hold such a power.
pub open spec fn is_domain_size_for(count: int, size: int) -> bool {
    count <= usize::MAX / 2 + 1 && size == domain_size_for(count as nat)
}

/// What is wrong with a shape, the first of the things that are checked in
/// the order of the variants of `ConfigError`, or `None`.
pub open spec fn configuration_error(shape: SystemShape) -> Option<ConfigError> {
    if shape.public_inputs == 0 {
        Some(ConfigError::NoConstantSlot)
    } else if shape.constraints.0 < shape.variables {
        Some(ConfigError::TooFewConstraints)
    } else if shape.constraints.1 != shape.constraints.0 || shape.constraints.2
        != shape.constraints.0 {
        Some(ConfigError::SizeMismatch)
    } else if !is_domain_size_for(shape.public_inputs as int, shape.domains.x as int)
        || !is_domain_size_for(shape.constraints.0 as int, shape.domains.h as int) {
        Some(ConfigError::DomainSizeMismatch)
    } else if !shape.domains.well_formed() {
        Some(ConfigError::RatioNotIntegral)
    } else {
        None
    }
}

/// Says whether `size` is the domain size for `count` elements.
pub fn agrees_with_domain_size(count: usize, size: usize) -> (b: bool)
    ensures
        b == is_domain_size_for(count as int, size as int),
{
    count <= usize::MAX / 2 + 1 && ceil_pow2(count) == size
}

/// The number of positions in a block of the witness domain, for a
/// constraint system of the given shape, or what is wrong with the shape.
pub fn h_to_x_ratio(shape: &SystemShape) -> (res: Result<usize, ConfigError>)
    ensures
        match res {
            Ok(ratio) => {
                &&& configuration_error(*shape) is None
                &&& ratio == shape.domains.ratio()
                &&& 1 <= ratio
                &&& shape.domains.h == shape.domains.x * ratio
            },
            Err(error) => configuration_error(*shape) == Some(error),
        },
{
    if shape.public_inputs == 0 {
        return Err(ConfigError::NoConstantSlot);
    }
    if shape.constraints.0 < shape.variables {
        return Err(ConfigError::TooFewConstraints);
    }
    if shape.constraints.1 != shape.constraints.0 || shape.constraints.2 != shape.constraints.0 {
        return Err(ConfigError::SizeMismatch);
    }
    if !agrees_with_domain_size(shape.public_inputs, shape.domains.x) || !agrees_with_domain_size(
        shape.constraints.0,
        shape.domains.h,
    ) {
        return Err(ConfigError::DomainSizeMismatch);
    }
    let x = shape.domains.x;
    let h = shape.domains.h;
    if x == 0 || x > h || h % x != 0 {
        return Err(ConfigError::RatioNotIntegral);
    }
    proof {
        lemma_domain_blocks(shape.domains);
    }
    Ok(h / x)
}

/// One of the three matrices of a constraint system.
#[derive(Clone, Copy, Debug, PartialEq, Eq)]
pub enum MatrixName {
    A,
    B,
    C,
}

/// Why a constraint system has no constraint matrices.
#[derive(Clone, Copy, Debug, PartialEq, Eq)]
pub enum IndexError {
    /// The shape of the system is wrong.
    Config(ConfigError),
    /// A matrix cannot be built; the matrices are built in the order `A`, `B`, `C`.
    Matrix { name: MatrixName, error: MatrixError },
}

/// The three constraint matrices of a system.
#[derive(Debug, PartialEq)]
pub struct ConstraintMatrices {
    pub a: ConstraintMatrix,
    pub b: ConstraintMatrix,
    pub c: ConstraintMatrix,
}

/// The shape of a system with the given rows.
pub open spec fn shape_of(
    a: Seq<Row>,
    b: Seq<Row>,
    c: Seq<Row>,
    variables: usize,
    public_inputs: usize,
    domains: DomainSizes,
) -> SystemShape {
    SystemShape {
        variables,
        public_inputs,
        constraints: (a.len() as usize, b.len() as usize, c.len() as usize),
        domains,
    }
}

/// True when `m` is the constraint matrix of `rows`, with the witness
/// domain for its columns.
pub open spec fn is_matrix_of(
    m: ConstraintMatrix,
    public_inputs: usize,
    domains: DomainSizes,
    rows: Seq<Row>,
) -> bool {
    &&& rows_are_well_formed(public_inputs as int, domains.ratio(), rows)
    &&& m.columns() == domains.h
    &&& m@ == constraint_matrix_rows(public_inputs as int, domains.ratio(), rows)
}

/// Builds the three constraint matrices of a constraint system over the two
/// domains, or says what is wrong: with the shape first, then with the
/// first of the matrices `A`, `B`, `C` that cannot be built.
pub fn constraint_matrices(
    a: &Vec<Row>,
    b: &Vec<Row>,
    c: &Vec<Row>,
    variables: usize,
    public_inputs: usize,
    domains: DomainSizes,
) -> (res: Result<ConstraintMatrices, IndexError>)
    ensures
        match res {
            Ok(ms) => {
                &&& configuration_error(shape_of(a@, b@, c@, variables, public_inputs, domains))
                    is None
                &&& is_matrix_of(ms.a, public_inputs, domains, a@)
                &&& is_matrix_of(ms.b, public_inputs, domains, b@)
                &&& is_matrix_of(ms.c, public_inputs, domains, c@)
            },
            Err(IndexError::Config(error)) => configuration_error(
                shape_of(a@, b@, c@, variables, public_inputs, domains),
            ) == Some(error),
            Err(IndexError::Matrix { name, error }) => {
                &&& configuration_error(shape_of(a@, b@, c@, variables, public_inputs, domains))
                    is None
                &&& match name {
                    MatrixName::A => is_matrix_error(
                        public_inputs as int,
                        domains.ratio(),
                        a@,
                        error,
                    ),
                    MatrixName::B => {
                        &&& rows_are_well_formed(public_inputs as int, domains.ratio(), a@)
                        &&& is_matrix_error(public_inputs as int, domains.ratio(), b@, error)
                    },
                    MatrixName::C => {
                        &&& rows_are_well_formed(public_inputs as int, domains.ratio(), a@)
                        &&& rows_are_well_formed(public_inputs as int, domains.ratio(), b@)
                        &&& is_matrix_error(public_inputs as int, domains.ratio(), c@, error)
                    },
                }
            },
        },
{
    let shape = SystemShape {
        variables,
        public_inputs,
        constraints: (a.len(), b.len(), c.len()),
        domains,
    };
    let ratio = match h_to_x_ratio(&shape) {
        Ok(ratio) => ratio,
        Err(error) => {
            return Err(IndexError::Config(error));
        },
    };
    let ma = match try_rows_to_csmat(public_inputs, ratio, a) {
        Ok(m) => m,
        Err(error) => {
            return Err(IndexError::Matrix { name: MatrixName::A, error });
        },
    };
    let mb = match try_rows_to_csmat(public_inputs, ratio, b) {
        Ok(m) => m,
        Err(error) => {
            return Err(IndexError::Matrix { name: MatrixName::B, error });
        },
    };
    let mc = match try_rows_to_csmat(public_inputs, ratio, c) {
        Ok(m) => m,
        Err(error) => {
            return Err(IndexError::Matrix { name: MatrixName::C, error });
        },
    };
    Ok(ConstraintMatrices { a: ma, b: mb, c: mc })
}

} // verus!
