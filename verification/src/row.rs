//! Rows of a constraint matrix: one sparse linear combination each.
//!
//! A row comes in as flat indices with their coefficients, in any order. It
//! goes into the matrix as domain positions with the same coefficients,
//! ordered by position.

use crate::index_map::{
    checked_index_to_witness_position, flat_index_to_domain_position, has_position,
    lemma_position_is_injective,
};
use vstd::prelude::*;

verus! {

/// One stored entry of a row: its column, a domain position, and its value.
pub type Entry<F> = (usize, F);

/// The entries of a row once each flat index is replaced by its position, in
/// the order in which they were given.
pub open spec fn reindexed<F>(
    public_inputs: int,
    ratio: int,
    indices: Seq<usize>,
    coefficients: Seq<F>,
) -> Seq<Entry<F>> {
    Seq::new(
        indices.len(),
        |k: int|
            (
                flat_index_to_domain_position(public_inputs, ratio, indices[k] as int) as usize,
                coefficients[k],
            ),
    )
}

/// `sorted` with `e` put behind the last entry whose column is not above its own.
pub open spec fn insert_by_column<F>(sorted: Seq<Entry<F>>, e: Entry<F>) -> Seq<Entry<F>>
    decreases sorted.len(),
{
    if sorted.len() == 0 || sorted.last().0 <= e.0 {
        sorted.push(e)
    } else {
        insert_by_column(sorted.drop_last(), e).push(sorted.last())
    }
}

/// The entries ordered by column; entries of one column keep their order.
pub open spec fn sorted_by_column<F>(entries: Seq<Entry<F>>) -> Seq<Entry<F>>
    decreases entries.len(),
{
    if entries.len() == 0 {
        entries
    } else {
        insert_by_column(sorted_by_column(entries.drop_last()), entries.last())
    }
}

/// True when each column is above the one before it.
pub open spec fn columns_increase<F>(row: Seq<Entry<F>>) -> bool {
    forall|a: int, b: int| 0 <= a < b < row.len() ==> row[a].0 < row[b].0
}

/// True when every column is below `bound`.
pub open spec fn columns_below<F>(row: Seq<Entry<F>>, bound: int) -> bool {
    forall|a: int| 0 <= a < row.len() ==> (#[trigger] row[a]).0 < bound
}

/// True when a flat index cannot go into a matrix with `columns` columns:
/// it has no position, or its position is not a column.
pub open spec fn index_out_of_range(public_inputs: int, ratio: int, columns: int, i: int) -> bool {
    !(has_position(public_inputs, ratio, i) && flat_index_to_domain_position(
        public_inputs,
        ratio,
        i,
    ) < columns)
}

/// True when entry `k` names a flat index that an earlier entry of the row names.
pub open spec fn index_repeats(indices: Seq<usize>, k: int) -> bool {
    exists|j: int| 0 <= j < k && #[trigger] indices[j] == indices[k]
}

/// True when the first `count` entries of a row can be stored: each flat
/// index has a position among the columns, and none comes twice.
pub open spec fn entries_are_storable(
    public_inputs: int,
    ratio: int,
    columns: int,
    indices: Seq<usize>,
    count: int,
) -> bool {
    forall|k: int|
        0 <= k < count ==> !index_out_of_range(
            public_inputs,
            ratio,
            columns,
            #[trigger] indices[k] as int,
        ) && !index_repeats(indices, k)
}

/// True when a row can be stored in a matrix with `columns` columns: it has
/// one coefficient for each flat index, and all its entries are storable.
pub open spec fn row_is_well_formed<F>(
    public_inputs: int,
    ratio: int,
    columns: int,
    indices: Seq<usize>,
    coefficients: Seq<F>,
) -> bool {
    &&& indices.len() == coefficients.len()
    &&& entries_are_storable(public_inputs, ratio, columns, indices, indices.len() as int)
}

/// The entries that a list of columns and a list of values of the same
/// length stand for.
pub open spec fn entries_of<F>(columns: Seq<usize>, values: Seq<F>) -> Seq<Entry<F>> {
    Seq::new(columns.len(), |k: int| (columns[k], values[k]))
}

/// What keeps a row out of a matrix.
#[derive(Clone, Copy, Debug, PartialEq, Eq)]
pub enum RowFault {
    /// The row has not as many coefficients as flat indices.
    LengthMismatch,
    /// Entry `entry` names a flat index without a position among the columns.
    IndexOutOfRange { entry: usize },
    /// Entry `entry` names a flat index that an earlier entry names.
    DuplicateIndex { entry: usize },
}

/// True when `fault` is the first thing wrong with a row: its lengths come
/// before its entries, an earlier entry before a later one, and the range of
/// an entry before its being a repetition.
pub open spec fn is_row_fault<F>(
    public_inputs: int,
    ratio: int,
    columns: int,
    indices: Seq<usize>,
    coefficients: Seq<F>,
    fault: RowFault,
) -> bool {
    match fault {
        RowFault::LengthMismatch => indices.len() != coefficients.len(),
        RowFault::IndexOutOfRange { entry } => {
            &&& indices.len() == coefficients.len()
            &&& entry < indices.len()
            &&& entries_are_storable(public_inputs, ratio, columns, indices, entry as int)
            &&& index_out_of_range(public_inputs, ratio, columns, indices[entry as int] as int)
        },
        RowFault::DuplicateIndex { entry } => {
            &&& indices.len() == coefficients.len()
            &&& entry < indices.len()
            &&& entries_are_storable(public_inputs, ratio, columns, indices, entry as int)
            &&& !index_out_of_range(public_inputs, ratio, columns, indices[entry as int] as int)
            &&& index_repeats(indices, entry as int)
        },
    }
}

/// Inserting adds one entry.
pub proof fn lemma_insert_len<F>(sorted: Seq<Entry<F>>, e: Entry<F>)
    ensures
        insert_by_column(sorted, e).len() == sorted.len() + 1,
    decreases sorted.len(),
{
    if !(sorted.len() == 0 || sorted.last().0 <= e.0) {
        lemma_insert_len(sorted.drop_last(), e);
    }
}

/// Sorting keeps the number of entries.
pub proof fn lemma_sorted_len<F>(entries: Seq<Entry<F>>)
    ensures
        sorted_by_column(entries).len() == entries.len(),
    decreases entries.len(),
{
    if entries.len() > 0 {
        lemma_sorted_len(entries.drop_last());
        lemma_insert_len(sorted_by_column(entries.drop_last()), entries.last());
    }
}

/// After inserting `e`, the entries are those from before and `e`.
pub proof fn lemma_insert_contains<F>(sorted: Seq<Entry<F>>, e: Entry<F>, x: Entry<F>)
    ensures
        insert_by_column(sorted, e).contains(x) <==> sorted.contains(x) || x == e,
    decreases sorted.len(),
{
    let out = insert_by_column(sorted, e);
    if sorted.len() == 0 || sorted.last().0 <= e.0 {
        assert(out == sorted.push(e));
        if sorted.contains(x) {
            let i = choose|i: int| 0 <= i < sorted.len() && sorted[i] == x;
            assert(out[i] == x);
        }
        if x == e {
            assert(out[sorted.len() as int] == x);
        }
    } else {
        let rest = sorted.drop_last();
        let inner = insert_by_column(rest, e);
        lemma_insert_contains(rest, e, x);
        lemma_insert_len(rest, e);
        assert(out == inner.push(sorted.last()));
        if out.contains(x) {
            let i = choose|i: int| 0 <= i < out.len() && out[i] == x;
            if i < inner.len() {
                assert(inner[i] == x);
                assert(inner.contains(x));
                if rest.contains(x) {
                    let j = choose|j: int| 0 <= j < rest.len() && rest[j] == x;
                    assert(sorted[j] == x);
                }
            } else {
                assert(sorted[sorted.len() - 1] == x);
            }
        }
        if sorted.contains(x) {
            let i = choose|i: int| 0 <= i < sorted.len() && sorted[i] == x;
            if i < rest.len() {
                assert(rest[i] == x);
                assert(rest.contains(x));
                let j = choose|j: int| 0 <= j < inner.len() && inner[j] == x;
                assert(out[j] == x);
            } else {
                assert(out[inner.len() as int] == x);
            }
        }
        if x == e {
            let j = choose|j: int| 0 <= j < inner.len() && inner[j] == x;
            assert(out[j] == x);
        }
    }
}

/// Sorting neither drops an entry nor makes one up.
pub proof fn lemma_sorted_contains<F>(entries: Seq<Entry<F>>, x: Entry<F>)
    ensures
        sorted_by_column(entries).contains(x) <==> entries.contains(x),
    decreases entries.len(),
{
    if entries.len() > 0 {
        let rest = entries.drop_last();
        lemma_sorted_contains(rest, x);
        lemma_insert_contains(sorted_by_column(rest), entries.last(), x);
        if entries.contains(x) {
            let i = choose|i: int| 0 <= i < entries.len() && entries[i] == x;
            if i < rest.len() {
                assert(rest[i] == x);
            }
        }
        if rest.contains(x) {
            let i = choose|i: int| 0 <= i < rest.len() && rest[i] == x;
            assert(entries[i] == x);
        }
        if x == entries.last() {
            assert(entries[entries.len() - 1] == x);
        }
    }
}

/// Where `insert_by_column` puts an entry: behind every entry whose column
/// is not above its own, when the columns before and after say so.
pub proof fn lemma_insert_at<F>(sorted: Seq<Entry<F>>, e: Entry<F>, j: int)
    requires
        0 <= j <= sorted.len(),
        forall|a: int| j <= a < sorted.len() ==> (#[trigger] sorted[a]).0 > e.0,
        j > 0 ==> sorted[j - 1].0 <= e.0,
    ensures
        insert_by_column(sorted, e) == sorted.insert(j, e),
    decreases sorted.len() - j,
{
    if j < sorted.len() {
        let rest = sorted.drop_last();
        assert(sorted[sorted.len() - 1].0 > e.0);
        assert forall|a: int| j <= a < rest.len() implies (#[trigger] rest[a]).0 > e.0 by {
            assert(rest[a] == sorted[a]);
        }
        lemma_insert_at(rest, e, j);
        assert(rest.insert(j, e).push(sorted.last()) =~= sorted.insert(j, e));
    } else {
        assert(sorted.push(e) =~= sorted.insert(j, e));
    }
}

/// Inserting a new column into increasing columns leaves them increasing.
pub proof fn lemma_insert_increases<F>(sorted: Seq<Entry<F>>, e: Entry<F>)
    requires
        columns_increase(sorted),
        forall|a: int| 0 <= a < sorted.len() ==> (#[trigger] sorted[a]).0 != e.0,
    ensures
        columns_increase(insert_by_column(sorted, e)),
    decreases sorted.len(),
{
    let out = insert_by_column(sorted, e);
    lemma_insert_len(sorted, e);
    if sorted.len() == 0 || sorted.last().0 <= e.0 {
        assert forall|a: int, b: int| 0 <= a < b < out.len() implies out[a].0 < out[b].0 by {
            if b == sorted.len() {
                assert(sorted[a].0 <= sorted[sorted.len() - 1].0);
                assert(sorted[sorted.len() - 1].0 != e.0);
            }
        }
    } else {
        let rest = sorted.drop_last();
        let inner = insert_by_column(rest, e);
        assert forall|a: int| 0 <= a < rest.len() implies (#[trigger] rest[a]).0 != e.0 by {
            assert(rest[a] == sorted[a]);
        }
        assert(columns_increase(rest)) by {
            assert forall|a: int, b: int| 0 <= a < b < rest.len() implies rest[a].0 < rest[b].0 by {
                assert(rest[a] == sorted[a] && rest[b] == sorted[b]);
            }
        }
        lemma_insert_increases(rest, e);
        lemma_insert_len(rest, e);
        assert forall|a: int, b: int| 0 <= a < b < out.len() implies out[a].0 < out[b].0 by {
            if b == inner.len() {
                let x = inner[a];
                assert(inner.contains(x));
                lemma_insert_contains(rest, e, x);
                if rest.contains(x) {
                    let i = choose|i: int| 0 <= i < rest.len() && rest[i] == x;
                    assert(sorted[i].0 < sorted[sorted.len() - 1].0);
                }
            }
        }
    }
}

/// A row has a fault exactly when it is not well formed, and then only one.
pub proof fn lemma_row_fault_is_unique<F>(
    public_inputs: int,
    ratio: int,
    columns: int,
    indices: Seq<usize>,
    coefficients: Seq<F>,
    fault: RowFault,
    other: RowFault,
)
    requires
        is_row_fault(public_inputs, ratio, columns, indices, coefficients, fault),
    ensures
        !row_is_well_formed(public_inputs, ratio, columns, indices, coefficients),
        is_row_fault(public_inputs, ratio, columns, indices, coefficients, other) ==> other
            == fault,
{
    match fault {
        RowFault::LengthMismatch => {},
        RowFault::IndexOutOfRange { entry } => {
            let _ = indices[entry as int];
        },
        RowFault::DuplicateIndex { entry } => {
            let _ = indices[entry as int];
        },
    }
    if is_row_fault(public_inputs, ratio, columns, indices, coefficients, other) {
        match other {
            RowFault::LengthMismatch => {},
            RowFault::IndexOutOfRange { entry } => {
                let _ = indices[entry as int];
            },
            RowFault::DuplicateIndex { entry } => {
                let _ = indices[entry as int];
            },
        }
    }
}

/// The column of entry `k` of a storable row is not among the columns of
/// the entries before it.
proof fn lemma_next_column_is_new<F>(
    public_inputs: int,
    ratio: int,
    columns: int,
    indices: Seq<usize>,
    coefficients: Seq<F>,
    k: int,
)
    requires
        columns <= usize::MAX + 1,
        indices.len() == coefficients.len(),
        0 <= k < indices.len(),
        entries_are_storable(public_inputs, ratio, columns, indices, k + 1),
    ensures
        forall|x: Entry<F>| #[trigger]
            sorted_by_column(reindexed(public_inputs, ratio, indices, coefficients).take(k)).contains(
                x,
            ) ==> x.0 != reindexed(public_inputs, ratio, indices, coefficients)[k].0,
{
    let all = reindexed(public_inputs, ratio, indices, coefficients);
    let before = all.take(k);
    assert forall|x: Entry<F>| #[trigger] sorted_by_column(before).contains(x) implies x.0
        != all[k].0 by {
        lemma_sorted_contains(before, x);
        let j = choose|j: int| 0 <= j < before.len() && before[j] == x;
        assert(all[j] == x);
        let _ = indices[j];
        let _ = indices[k];
        if x.0 == all[k].0 {
            lemma_position_is_injective(public_inputs, ratio, indices[j] as int, indices[k] as int);
            assert(index_repeats(indices, k));
        }
    }
}

/// The sorted entries of a well-formed row have increasing columns, each a
/// column of the matrix.
pub proof fn lemma_sorted_row_columns<F>(
    public_inputs: int,
    ratio: int,
    columns: int,
    indices: Seq<usize>,
    coefficients: Seq<F>,
    count: int,
)
    requires
        columns <= usize::MAX + 1,
        indices.len() == coefficients.len(),
        0 <= count <= indices.len(),
        entries_are_storable(public_inputs, ratio, columns, indices, count),
    ensures
        columns_increase(
            sorted_by_column(reindexed(public_inputs, ratio, indices, coefficients).take(count)),
        ),
        columns_below(
            sorted_by_column(reindexed(public_inputs, ratio, indices, coefficients).take(count)),
            columns,
        ),
    decreases count,
{
    let all = reindexed(public_inputs, ratio, indices, coefficients);
    let now = all.take(count);
    if count > 0 {
        let before = all.take(count - 1);
        assert(now.drop_last() =~= before);
        assert(now.last() == all[count - 1]);
        assert(entries_are_storable(public_inputs, ratio, columns, indices, count - 1));
        lemma_sorted_row_columns(public_inputs, ratio, columns, indices, coefficients, count - 1);
        lemma_next_column_is_new(public_inputs, ratio, columns, indices, coefficients, count - 1);
        let sorted = sorted_by_column(before);
        assert forall|a: int| 0 <= a < sorted.len() implies (#[trigger] sorted[a]).0 != all[count
            - 1].0 by {
            assert(sorted.contains(sorted[a]));
        }
        lemma_insert_increases(sorted, all[count - 1]);
        let out = sorted_by_column(now);
        assert forall|a: int| 0 <= a < out.len() implies (#[trigger] out[a]).0 < columns by {
            let x = out[a];
            assert(out.contains(x));
            lemma_insert_contains(sorted, all[count - 1], x);
            if sorted.contains(x) {
                let b = choose|b: int| 0 <= b < sorted.len() && sorted[b] == x;
            } else {
                let _ = indices[count - 1];
            }
        }
    }
}

/// Replaces each flat index of a row by its position in the witness domain
/// and orders the entries by position.
///
/// `columns` is the number of columns of the matrix that the row is for. The
/// result is the columns of the entries and, beside them, their values.
pub fn reindex_row<F: Copy>(
    public_inputs: usize,
    h_to_x_ratio: usize,
    columns: usize,
    indices: &Vec<usize>,
    coefficients: &Vec<F>,
) -> (res: Result<(Vec<usize>, Vec<F>), RowFault>)
    ensures
        match res {
            Ok(row) => {
                &&& row_is_well_formed(
                    public_inputs as int,
                    h_to_x_ratio as int,
                    columns as int,
                    indices@,
                    coefficients@,
                )
                &&& row.0@.len() == row.1@.len()
                &&& entries_of(row.0@, row.1@) == sorted_by_column(
                    reindexed(public_inputs as int, h_to_x_ratio as int, indices@, coefficients@),
                )
                &&& columns_increase(entries_of(row.0@, row.1@))
                &&& columns_below(entries_of(row.0@, row.1@), columns as int)
            },
            Err(fault) => is_row_fault(
                public_inputs as int,
                h_to_x_ratio as int,
                columns as int,
                indices@,
                coefficients@,
                fault,
            ),
        },
{
    let n = indices.len();
    if n != coefficients.len() {
        return Err(RowFault::LengthMismatch);
    }
    let ghost all = reindexed(public_inputs as int, h_to_x_ratio as int, indices@, coefficients@);
    let mut sorted: Vec<Entry<F>> = Vec::new();
    let mut k: usize = 0;
    while k < n
        invariant
            n == indices.len(),
            n == coefficients.len(),
            k <= n,
            all == reindexed(public_inputs as int, h_to_x_ratio as int, indices@, coefficients@),
            entries_are_storable(
                public_inputs as int,
                h_to_x_ratio as int,
                columns as int,
                indices@,
                k as int,
            ),
            sorted@ == sorted_by_column(all.take(k as int)),
            columns_increase(sorted@),
            columns_below(sorted@, columns as int),
        decreases n - k,
    {
        let i = indices[k];
        let pos = match checked_index_to_witness_position(public_inputs, h_to_x_ratio, i) {
            Some(w) => w,
            None => {
                return Err(RowFault::IndexOutOfRange { entry: k });
            },
        };
        if pos >= columns {
            return Err(RowFault::IndexOutOfRange { entry: k });
        }
        let mut j: usize = sorted.len();
        while j > 0 && sorted[j - 1].0 > pos
            invariant
                j <= sorted.len(),
                forall|a: int| j <= a < sorted.len() ==> (#[trigger] sorted@[a]).0 > pos,
            decreases j,
        {
            j = j - 1;
        }
        let e: Entry<F> = (pos, coefficients[k]);
        assert(all[k as int] == e);
        if j > 0 && sorted[j - 1].0 == pos {
            proof {
                let x = sorted@[j - 1];
                assert(sorted@.contains(x));
                if !index_repeats(indices@, k as int) {
                    lemma_next_column_is_new(
                        public_inputs as int,
                        h_to_x_ratio as int,
                        columns as int,
                        indices@,
                        coefficients@,
                        k as int,
                    );
                }
            }
            return Err(RowFault::DuplicateIndex { entry: k });
        }
        proof {
            if index_repeats(indices@, k as int) {
                let earlier = choose|earlier: int|
                    0 <= earlier < k && #[trigger] indices@[earlier] == indices@[k as int];
                let x = all[earlier];
                assert(all.take(k as int)[earlier] == x);
                lemma_sorted_contains(all.take(k as int), x);
                let a = choose|a: int| 0 <= a < sorted@.len() && sorted@[a] == x;
                if a < j {
                    assert(sorted@[a].0 <= sorted@[j - 1].0);
                }
                assert(false);
            }
            lemma_insert_at(sorted@, e, j as int);
            assert(all.take(k + 1).drop_last() =~= all.take(k as int));
            assert(all.take(k + 1).last() == e);
            assert(entries_are_storable(
                public_inputs as int,
                h_to_x_ratio as int,
                columns as int,
                indices@,
                k + 1,
            ));
            lemma_sorted_row_columns(
                public_inputs as int,
                h_to_x_ratio as int,
                columns as int,
                indices@,
                coefficients@,
                k + 1,
            );
        }
        sorted.insert(j, e);
        k = k + 1;
    }
    assert(all.take(n as int) =~= all);
    let mut positions: Vec<usize> = Vec::new();
    let mut values: Vec<F> = Vec::new();
    let mut a: usize = 0;
    while a < sorted.len()
        invariant
            a <= sorted.len(),
            positions@.len() == a,
            values@.len() == a,
            forall|b: int| 0 <= b < a ==> positions@[b] == sorted@[b].0 && values@[b] == sorted@[b].1,
        decreases sorted.len() - a,
    {
        let e = sorted[a];
        positions.push(e.0);
        values.push(e.1);
        a = a + 1;
    }
    assert(entries_of(positions@, values@) =~= sorted@);
    Ok((positions, values))
}

} // verus!
