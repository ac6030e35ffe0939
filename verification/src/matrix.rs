//! Constraint matrices: square, of power-of-two dimension, in compressed-row
//! form, with domain positions for columns.

use crate::domain::{
    ceil_pow2, domain_size_for, lemma_domain_size_is_least, lemma_usize_powers_of_two,
};
use crate::field::FieldElement;
use crate::row::{
    columns_below, columns_increase, entries_of, is_row_fault, lemma_row_fault_is_unique,
    lemma_sorted_len, lemma_sorted_row_columns, reindex_row, reindexed, row_is_well_formed,
    sorted_by_column, Entry, RowFault,
};
use sprs::errors::SprsError;
use sprs::CsMat;
use sprs::CsVecView;
use vstd::pervasive::unreached;
use vstd::prelude::*;

verus! {

/// One stored entry of a matrix: its column, and the coefficient there.
pub type MatrixEntry = Entry<FieldElement>;

/// The sparse vector of `sprs`, owned or borrowed: here a row on its way
/// into a matrix.
#[verifier::external_type_specification]
#[verifier::external_body]
#[verifier::reject_recursive_types(IStorage)]
#[verifier::reject_recursive_types(DStorage)]
pub struct ExCsVecBase<IStorage, DStorage>(sprs::CsVecBase<IStorage, DStorage>);

/// The error of `sprs`.
#[verifier::external_type_specification]
#[verifier::external_body]
pub struct ExSprsError(SprsError);

/// A sparse matrix of field elements, held by `sprs` in compressed-row
/// storage.
///
/// The matrix type of `sprs` is bounded by a trait of that crate, which
/// Verus cannot be told of. So the matrix lives in a struct that Verus does
/// not look into; `matrix_rows` and `matrix_columns` name what it holds.
///
/// Its rows can only grow: a matrix starts without rows and gets them one
/// at a time, each with increasing columns.
#[verifier::external_body]
#[derive(Debug, PartialEq)]
pub struct ConstraintMatrix {
    inner: CsMat<FieldElement>,
}

/// The rows of a matrix, first to last: of each row the stored entries, in
/// the order of storage.
pub uninterp spec fn matrix_rows(m: ConstraintMatrix) -> Seq<Seq<MatrixEntry>>;

/// The number of columns of a matrix.
pub uninterp spec fn matrix_columns(m: ConstraintMatrix) -> nat;

/// The entries of a borrowed sparse vector, in the order of storage.
pub uninterp spec fn row_view_entries(v: CsVecView<FieldElement>) -> Seq<MatrixEntry>;

/// The dimension of a borrowed sparse vector: one more than the largest
/// index it may hold.
pub uninterp spec fn row_view_dimension(v: CsVecView<FieldElement>) -> nat;

impl View for ConstraintMatrix {
    type V = Seq<Seq<MatrixEntry>>;

    open spec fn view(&self) -> Seq<Seq<MatrixEntry>> {
        matrix_rows(*self)
    }
}

/// True when each number is above the one before it.
pub open spec fn strictly_increasing(s: Seq<usize>) -> bool {
    forall|a: int, b: int| 0 <= a < b < s.len() ==> s[a] < s[b]
}

/// The number of entries in the first `r` rows.
pub open spec fn entries_before(rows: Seq<Seq<MatrixEntry>>, r: int) -> int
    decreases r,
{
    if r <= 0 {
        0
    } else {
        entries_before(rows, r - 1) + rows[r - 1].len()
    }
}

/// True when three arrays are the compressed-row storage of `rows`: the
/// entries of all rows one after another, columns in `indices` and values in
/// `data`, and in `indptr` where each row starts and the last one ends.
pub open spec fn is_compressed_storage(
    rows: Seq<Seq<MatrixEntry>>,
    indptr: Seq<usize>,
    indices: Seq<usize>,
    data: Seq<FieldElement>,
) -> bool {
    &&& indptr.len() == rows.len() + 1
    &&& forall|r: int| 0 <= r <= rows.len() ==> #[trigger] indptr[r] == entries_before(rows, r)
    &&& indices.len() == entries_before(rows, rows.len() as int)
    &&& data.len() == indices.len()
    &&& forall|r: int, k: int|
        0 <= r < rows.len() && 0 <= k < rows[r].len() ==> #[trigger] rows[r][k] == (
            indices[indptr[r] + k],
            data[indptr[r] + k],
        )
}

/// `CsMat::empty` with compressed-row storage: a matrix with `columns` columns and
/// no row.
#[verifier::external_body]
fn empty_matrix(columns: usize) -> (m: ConstraintMatrix)
    ensures
        matrix_rows(m) == Seq::<Seq<MatrixEntry>>::empty(),
        matrix_columns(m) == columns,
{
    ConstraintMatrix { inner: CsMat::empty(sprs::CSR, columns) }
}

/// `CsMat::reserve_outer_dim`: makes room for the starts of `additional` more rows.
/// The matrix holds what it held. The starts are a `Vec<usize>`, which takes
/// no request beyond `isize::MAX` bytes: the bound keeps below that.
#[verifier::external_body]
fn reserve_rows(m: &mut ConstraintMatrix, additional: usize)
    requires
        additional <= max_rows(),
    ensures
        matrix_rows(*final(m)) == matrix_rows(*old(m)),
        matrix_columns(*final(m)) == matrix_columns(*old(m)),
{
    m.inner.reserve_outer_dim(additional)
}

/// `CsVecView::new_view`: a sparse vector of dimension `dimension` over two lists
/// of one length. It is refused unless the indices increase and are all below
/// the dimension; otherwise it holds the indices with the values beside them.
#[verifier::external_body]
fn row_view<'a>(dimension: usize, indices: &'a Vec<usize>, data: &'a Vec<FieldElement>) -> (res:
    Result<CsVecView<'a, FieldElement>, SprsError>)
    requires
        indices@.len() == data@.len(),
    ensures
        res is Ok <==> strictly_increasing(indices@) && forall|k: int|
            0 <= k < indices@.len() ==> indices@[k] < dimension,
        res matches Ok(v) ==> row_view_dimension(v) == dimension && row_view_entries(v)
            == entries_of(indices@, data@),
{
    CsVecView::new_view(dimension, indices, data)
}

/// `CsMat::append_outer_csvec`: the matrix with one more row at its end, which
/// holds the entries of `row`. The dimension of `row` must be the number of
/// columns.
#[verifier::external_body]
fn append_row(m: ConstraintMatrix, row: CsVecView<FieldElement>) -> (res: ConstraintMatrix)
    requires
        row_view_dimension(row) == matrix_columns(m),
    ensures
        matrix_rows(res) == matrix_rows(m).push(row_view_entries(row)),
        matrix_columns(res) == matrix_columns(m),
{
    ConstraintMatrix { inner: m.inner.append_outer_csvec(row) }
}

/// `CsMat::rows`: the number of rows.
#[verifier::external_body]
fn row_count(m: &ConstraintMatrix) -> (n: usize)
    ensures
        n == matrix_rows(*m).len(),
{
    m.inner.rows()
}

/// `CsMat::cols`: the number of columns.
#[verifier::external_body]
fn column_count(m: &ConstraintMatrix) -> (n: usize)
    ensures
        n == matrix_columns(*m),
{
    m.inner.cols()
}

/// `CsMat::into_raw_storage`: the three arrays that the matrix is stored in.
#[verifier::external_body]
fn into_storage(m: ConstraintMatrix) -> (arrays: (Vec<usize>, Vec<usize>, Vec<FieldElement>))
    ensures
        is_compressed_storage(matrix_rows(m), arrays.0@, arrays.1@, arrays.2@),
{
    m.inner.into_raw_storage()
}

/// A matrix taken apart: its shape and the three arrays of its storage.
#[derive(Debug, PartialEq, Eq)]
pub struct CompressedRows {
    pub rows: usize,
    pub columns: usize,
    pub indptr: Vec<usize>,
    pub indices: Vec<usize>,
    pub data: Vec<FieldElement>,
}

impl ConstraintMatrix {
    /// The number of columns.
    pub open spec fn columns(self) -> nat {
        matrix_columns(self)
    }

    /// The number of rows.
    pub fn rows(&self) -> (n: usize)
        ensures
            n == self@.len(),
    {
        row_count(self)
    }

    /// The number of columns.
    pub fn cols(&self) -> (n: usize)
        ensures
            n == self.columns(),
    {
        column_count(self)
    }

    /// Takes the matrix apart into its shape and the arrays of its storage.
    pub fn into_compressed_rows(self) -> (c: CompressedRows)
        ensures
            c.rows == self@.len(),
            c.columns == self.columns(),
            is_compressed_storage(self@, c.indptr@, c.indices@, c.data@),
    {
        let rows = row_count(&self);
        let columns = column_count(&self);
        let (indptr, indices, data) = into_storage(self);
        CompressedRows { rows, columns, indptr, indices, data }
    }
}

/// A row as it comes in: flat indices, and beside them their coefficients.
pub type Row = (Vec<usize>, Vec<FieldElement>);

/// The largest number of rows that a matrix is built from: a power of two,
/// and small enough for the starts of as many rows to be reserved.
pub open spec fn max_rows() -> int {
    usize::MAX / 32 + 1
}

/// True when every row can be stored in the matrix that is built from `rows`.
pub open spec fn rows_are_well_formed(public_inputs: int, ratio: int, rows: Seq<Row>) -> bool {
    forall|r: int|
        0 <= r < rows.len() ==> row_is_well_formed(
            public_inputs,
            ratio,
            domain_size_for(rows.len()) as int,
            (#[trigger] rows[r]).0@,
            rows[r].1@,
        )
}

/// The rows of the matrix that is built from `rows`: each given row with
/// positions for flat indices and ordered by them, and then empty rows up to
/// the next power of two.
pub open spec fn constraint_matrix_rows(public_inputs: int, ratio: int, rows: Seq<Row>) -> Seq<
    Seq<MatrixEntry>,
> {
    Seq::new(
        domain_size_for(rows.len()),
        |r: int|
            if r < rows.len() {
                sorted_by_column(reindexed(public_inputs, ratio, rows[r].0@, rows[r].1@))
            } else {
                Seq::<MatrixEntry>::empty()
            },
    )
}

/// Why no matrix was built.
#[derive(Clone, Copy, Debug, PartialEq, Eq)]
pub enum MatrixError {
    /// There are more rows than `usize::MAX / 32 + 1`.
    TooManyRows,
    /// Row `row` cannot be stored, for the reason `fault`.
    MalformedRow { row: usize, fault: RowFault },
}

/// True when `error` is the first thing wrong with `rows`.
pub open spec fn is_matrix_error(
    public_inputs: int,
    ratio: int,
    rows: Seq<Row>,
    error: MatrixError,
) -> bool {
    match error {
        MatrixError::TooManyRows => rows.len() > max_rows(),
        MatrixError::MalformedRow { row, fault } => {
            &&& rows.len() <= max_rows()
            &&& row < rows.len()
            &&& forall|r: int|
                0 <= r < row ==> row_is_well_formed(
                    public_inputs,
                    ratio,
                    domain_size_for(rows.len()) as int,
                    (#[trigger] rows[r]).0@,
                    rows[r].1@,
                )
            &&& is_row_fault(
                public_inputs,
                ratio,
                domain_size_for(rows.len()) as int,
                rows[row as int].0@,
                rows[row as int].1@,
                fault,
            )
        },
    }
}

/// Builds the constraint matrix of a list of rows, or says what is wrong
/// with the first row that cannot be stored.
///
/// The matrix is square. Its dimension is the smallest power of two that is
/// at least the number of rows; the rows beyond those given are empty.
pub fn try_rows_to_csmat(public_inputs: usize, h_to_x_ratio: usize, v: &Vec<Row>) -> (res: Result<
    ConstraintMatrix,
    MatrixError,
>)
    ensures
        match res {
            Ok(m) => {
                &&& v@.len() <= max_rows()
                &&& rows_are_well_formed(public_inputs as int, h_to_x_ratio as int, v@)
                &&& m.columns() == domain_size_for(v@.len())
                &&& m@ == constraint_matrix_rows(public_inputs as int, h_to_x_ratio as int, v@)
                &&& forall|r: int|
                    0 <= r < m@.len() ==> columns_increase(#[trigger] m@[r]) && columns_below(
                        m@[r],
                        m.columns() as int,
                    )
            },
            Err(error) => is_matrix_error(public_inputs as int, h_to_x_ratio as int, v@, error),
        },
{
    if v.len() > usize::MAX / 32 + 1 {
        return Err(MatrixError::TooManyRows);
    }
    let constraints = ceil_pow2(v.len());
    proof {
        lemma_domain_size_fits(v@.len());
    }
    let mut m = empty_matrix(constraints);
    reserve_rows(&mut m, constraints);
    let mut r: usize = 0;
    while r < v.len()
        invariant
            r <= v.len(),
            v@.len() <= max_rows(),
            v@.len() <= constraints,
            constraints == domain_size_for(v@.len()),
            matrix_columns(m) == constraints,
            matrix_rows(m).len() == r,
            forall|q: int|
                0 <= q < r ==> row_is_well_formed(
                    public_inputs as int,
                    h_to_x_ratio as int,
                    constraints as int,
                    (#[trigger] v@[q]).0@,
                    v@[q].1@,
                ),
            forall|q: int|
                0 <= q < r ==> #[trigger] matrix_rows(m)[q] == sorted_by_column(
                    reindexed(public_inputs as int, h_to_x_ratio as int, v@[q].0@, v@[q].1@),
                ),
            forall|q: int|
                0 <= q < r ==> columns_increase(#[trigger] matrix_rows(m)[q]) && columns_below(
                    matrix_rows(m)[q],
                    constraints as int,
                ),
        decreases v.len() - r,
    {
        let row = &v[r];
        match reindex_row(public_inputs, h_to_x_ratio, constraints, &row.0, &row.1) {
            Ok(shifted) => {
                let ghost entries = entries_of(shifted.0@, shifted.1@);
                assert(strictly_increasing(shifted.0@)) by {
                    assert forall|a: int, b: int| 0 <= a < b < shifted.0@.len() implies shifted.0@[a]
                        < shifted.0@[b] by {
                        assert(entries[a].0 < entries[b].0);
                    }
                }
                assert forall|k: int| 0 <= k < shifted.0@.len() implies shifted.0@[k]
                    < constraints by {
                    assert(entries[k].0 < constraints);
                }
                match row_view(constraints, &shifted.0, &shifted.1) {
                    Ok(view) => {
                        m = append_row(m, view);
                    },
                    Err(_) => unreached(),
                }
            },
            Err(fault) => {
                return Err(MatrixError::MalformedRow { row: r, fault });
            },
        }
        r = r + 1;
    }
    let no_indices: Vec<usize> = Vec::new();
    let no_values: Vec<FieldElement> = Vec::new();
    let rows_given = v.len();
    while r < constraints
        invariant
            rows_given == v@.len(),
            rows_given <= r <= constraints,
            no_indices@.len() == 0,
            no_values@.len() == 0,
            matrix_columns(m) == constraints,
            matrix_rows(m).len() == r,
            forall|q: int|
                0 <= q < rows_given ==> #[trigger] matrix_rows(m)[q] == sorted_by_column(
                    reindexed(public_inputs as int, h_to_x_ratio as int, v@[q].0@, v@[q].1@),
                ),
            forall|q: int|
                rows_given <= q < r ==> #[trigger] matrix_rows(m)[q] == Seq::<MatrixEntry>::empty(),
            forall|q: int|
                0 <= q < r ==> columns_increase(#[trigger] matrix_rows(m)[q]) && columns_below(
                    matrix_rows(m)[q],
                    constraints as int,
                ),
        decreases constraints - r,
    {
        match row_view(constraints, &no_indices, &no_values) {
            Ok(view) => {
                assert(entries_of(no_indices@, no_values@) =~= Seq::<MatrixEntry>::empty());
                m = append_row(m, view);
            },
            Err(_) => unreached(),
        }
        r = r + 1;
    }
    assert(matrix_rows(m) =~= constraint_matrix_rows(
        public_inputs as int,
        h_to_x_ratio as int,
        v@,
    ));
    Ok(m)
}

/// Builds the constraint matrix of a list of well-formed rows.
///
/// The matrix is square. Its dimension is the smallest power of two that is
/// at least the number of rows; the rows beyond those given are empty. Each
/// given row holds its coefficients at the positions of its flat indices,
/// with increasing columns.
pub fn rows_to_csmat(public_inputs: usize, h_to_x_ratio: usize, v: &Vec<Row>) -> (m:
    ConstraintMatrix)
    requires
        v@.len() <= max_rows(),
        rows_are_well_formed(public_inputs as int, h_to_x_ratio as int, v@),
    ensures
        m.columns() == domain_size_for(v@.len()),
        m@ == constraint_matrix_rows(public_inputs as int, h_to_x_ratio as int, v@),
        forall|r: int|
            0 <= r < m@.len() ==> columns_increase(#[trigger] m@[r]) && columns_below(
                m@[r],
                m.columns() as int,
            ),
{
    match try_rows_to_csmat(public_inputs, h_to_x_ratio, v) {
        Ok(m) => m,
        Err(error) => {
            proof {
                match error {
                    MatrixError::TooManyRows => {},
                    MatrixError::MalformedRow { row, fault } => {
                        let _ = v@[row as int];
                        lemma_row_fault_is_unique(
                            public_inputs as int,
                            h_to_x_ratio as int,
                            domain_size_for(v@.len()) as int,
                            v@[row as int].0@,
                            v@[row as int].1@,
                            fault,
                            fault,
                        );
                    },
                }
            }
            unreached()
        },
    }
}

/// The matrix built from `rows` is square, of the size of the domain for
/// that many rows; it holds the given rows first, and every row after them
/// is empty.
pub proof fn lemma_matrix_is_padded(public_inputs: int, ratio: int, rows: Seq<Row>, r: int)
    requires
        0 <= r < domain_size_for(rows.len()),
    ensures
        constraint_matrix_rows(public_inputs, ratio, rows).len() == domain_size_for(rows.len()),
        rows.len() <= domain_size_for(rows.len()),
        r >= rows.len() ==> constraint_matrix_rows(public_inputs, ratio, rows)[r].len() == 0,
        r < rows.len() ==> constraint_matrix_rows(public_inputs, ratio, rows)[r].len()
            == rows[r].0@.len(),
{
    lemma_domain_size_is_least(rows.len());
    if r < rows.len() {
        lemma_sorted_len(reindexed(public_inputs, ratio, rows[r].0@, rows[r].1@));
    }
}

/// Each entry of compressed-row storage belongs to one row.
proof fn lemma_entry_has_row(rows: Seq<Seq<MatrixEntry>>, n: int, t: int) -> (place: (int, int))
    requires
        0 <= n <= rows.len(),
        0 <= t < entries_before(rows, n),
    ensures
        0 <= place.0 < n,
        0 <= place.1 < rows[place.0].len(),
        entries_before(rows, place.0) + place.1 == t,
    decreases n,
{
    if t >= entries_before(rows, n - 1) {
        (n - 1, t - entries_before(rows, n - 1))
    } else {
        lemma_entry_has_row(rows, n - 1, t)
    }
}

/// The rows of a matrix fix its storage: two compressed-row storages of the
/// same rows are the same arrays.
pub proof fn lemma_storage_is_determined(
    rows: Seq<Seq<MatrixEntry>>,
    indptr: Seq<usize>,
    indices: Seq<usize>,
    data: Seq<FieldElement>,
    other_indptr: Seq<usize>,
    other_indices: Seq<usize>,
    other_data: Seq<FieldElement>,
)
    requires
        is_compressed_storage(rows, indptr, indices, data),
        is_compressed_storage(rows, other_indptr, other_indices, other_data),
    ensures
        indptr == other_indptr,
        indices == other_indices,
        data == other_data,
{
    assert(indptr =~= other_indptr);
    assert forall|t: int| 0 <= t < indices.len() implies indices[t] == other_indices[t] && data[t]
        == other_data[t] by {
        let (r, k) = lemma_entry_has_row(rows, rows.len() as int, t);
        assert(rows[r][k] == (indices[indptr[r] + k], data[indptr[r] + k]));
        assert(rows[r][k] == (other_indices[other_indptr[r] + k], other_data[other_indptr[r] + k]));
    }
    assert(indices =~= other_indices);
    assert(data =~= other_data);
}

/// Building twice from one list of rows gives one matrix: the same rows in
/// the same order, each with the same entries in the same order, and so the
/// same arrays in storage.
pub proof fn lemma_rebuilding_changes_nothing(
    public_inputs: int,
    ratio: int,
    rows: Seq<Row>,
    first: ConstraintMatrix,
    second: ConstraintMatrix,
    first_storage: CompressedRows,
    second_storage: CompressedRows,
)
    requires
        first@ == constraint_matrix_rows(public_inputs, ratio, rows),
        second@ == constraint_matrix_rows(public_inputs, ratio, rows),
        first.columns() == domain_size_for(rows.len()),
        second.columns() == domain_size_for(rows.len()),
        first_storage.rows == first@.len(),
        first_storage.columns == first.columns(),
        is_compressed_storage(
            first@,
            first_storage.indptr@,
            first_storage.indices@,
            first_storage.data@,
        ),
        second_storage.rows == second@.len(),
        second_storage.columns == second.columns(),
        is_compressed_storage(
            second@,
            second_storage.indptr@,
            second_storage.indices@,
            second_storage.data@,
        ),
    ensures
        first@ == second@,
        first.columns() == second.columns(),
        first_storage.rows == second_storage.rows,
        first_storage.columns == second_storage.columns,
        first_storage.indptr@ == second_storage.indptr@,
        first_storage.indices@ == second_storage.indices@,
        first_storage.data@ == second_storage.data@,
{
    lemma_storage_is_determined(
        first@,
        first_storage.indptr@,
        first_storage.indices@,
        first_storage.data@,
        second_storage.indptr@,
        second_storage.indices@,
        second_storage.data@,
    );
}

/// In the matrix built from well-formed rows, the columns of every row
/// increase and are columns of the matrix.
pub proof fn lemma_matrix_columns_increase(public_inputs: int, ratio: int, rows: Seq<Row>, r: int)
    requires
        rows.len() <= max_rows(),
        rows_are_well_formed(public_inputs, ratio, rows),
        0 <= r < domain_size_for(rows.len()),
    ensures
        columns_increase(constraint_matrix_rows(public_inputs, ratio, rows)[r]),
        columns_below(
            constraint_matrix_rows(public_inputs, ratio, rows)[r],
            domain_size_for(rows.len()) as int,
        ),
{
    if r < rows.len() {
        let all = reindexed(public_inputs, ratio, rows[r].0@, rows[r].1@);
        lemma_domain_size_fits(rows.len());
        lemma_sorted_row_columns(
            public_inputs,
            ratio,
            domain_size_for(rows.len()) as int,
            rows[r].0@,
            rows[r].1@,
            rows[r].0@.len() as int,
        );
        assert(all.take(all.len() as int) =~= all);
    }
}

/// The domain for as many elements as a matrix is built from fits a `usize`.
pub proof fn lemma_domain_size_fits(count: nat)
    requires
        count <= max_rows(),
    ensures
        domain_size_for(count) <= max_rows(),
{
    lemma_domain_size_is_least(count);
    lemma_usize_powers_of_two();
}

} // verus!
