use vstd::prelude::*;
use crate::aggregate::{merge, parts_match, placed};
use crate::kernel::{compute_rows, dot, is_product_block, is_square, rows_fit, step_fits};
use crate::partition::{
    lemma_tiles_cover, partition, partition_covers_rows, valid_config, MatrixError, RowRange,
    tiles, in_some_range,
};

verus! {

/// What a multiplication hands back: the result matrix, and the reason it was
/// refused, if it was. A refused multiplication carries an all-zero matrix.
#[derive(Clone, Debug)]
pub struct Product {
    pub matrix: Vec<Vec<i32>>,
    pub error: Option<MatrixError>,
}

/// `m` is the `size × size` matrix of zeros.
pub open spec fn is_zero_matrix(m: Seq<Vec<i32>>, size: int) -> bool {
    &&& is_square(m, size)
    &&& forall|i: int, j: int| 0 <= i < size && 0 <= j < size ==> #[trigger] m[i]@[j] == 0
}

/// `m` is the exact product of the `size × size` matrices `a` and `b`.
pub open spec fn is_product(a: Seq<Vec<i32>>, b: Seq<Vec<i32>>, size: int, m: Seq<Vec<i32>>) -> bool {
    &&& is_square(m, size)
    &&& forall|i: int, j: int|
        0 <= i < size && 0 <= j < size ==> #[trigger] m[i]@[j] as int == dot(a, b, i, j, size)
}

/// What `multiply_matrices` returns for the given inputs.
pub open spec fn multiply_result(
    a: Seq<Vec<i32>>,
    b: Seq<Vec<i32>>,
    size: int,
    workers: int,
    r: Product,
) -> bool {
    if !valid_config(size, workers) {
        r.error == Some(MatrixError::InvalidConfiguration) && is_zero_matrix(r.matrix@, size)
    } else if !rows_fit(a, b, size, 0, size) {
        r.error == Some(MatrixError::Overflow) && is_zero_matrix(r.matrix@, size)
    } else {
        r.error == None::<MatrixError> && is_product(a, b, size, r.matrix@)
    }
}

/// The `size × size` matrix of zeros.
pub fn zero_matrix(size: usize) -> (m: Vec<Vec<i32>>)
    ensures
        is_zero_matrix(m@, size as int),
{
    let mut m: Vec<Vec<i32>> = Vec::new();
    let mut i: usize = 0;
    while i < size
        invariant
            0 <= i <= size,
            m@.len() == i,
            forall|r: int| 0 <= r < i ==> (#[trigger] m@[r])@.len() == size,
            forall|r: int, j: int| 0 <= r < i && 0 <= j < size ==> #[trigger] m@[r]@[j] == 0,
        decreases size - i,
    {
        let mut row: Vec<i32> = Vec::new();
        let mut j: usize = 0;
        while j < size
            invariant
                0 <= j <= size,
                row@.len() == j,
                forall|c: int| 0 <= c < j ==> #[trigger] row@[c] == 0,
            decreases size - j,
        {
            row.push(0);
            j = j + 1;
        }
        m.push(row);
        i = i + 1;
    }
    m
}

/// Multiplies the `size × size` matrices `a` and `b`: partitions the rows
/// among `workers` workers, computes each worker's block with the naive
/// kernel, and merges the blocks in range order. An invalid configuration, or
/// an entry whose accumulation leaves `i32`, gives the zero matrix and the
/// matching error.
pub fn multiply_matrices(a: &Vec<Vec<i32>>, b: &Vec<Vec<i32>>, size: usize, workers: usize) -> (r:
    Product)
    requires
        is_square(a@, size as int),
        is_square(b@, size as int),
    ensures
        multiply_result(a@, b@, size as int, workers as int, r),
{
    let ranges = match partition(size, workers) {
        Ok(ranges) => ranges,
        Err(e) => {
            return Product { matrix: zero_matrix(size), error: Some(e) };
        },
    };
    proof {
        partition_covers_rows(size as int, workers as int, ranges@);
    }
    let mut parts: Vec<Vec<Vec<i32>>> = Vec::new();
    let mut p: usize = 0;
    while p < ranges.len()
        invariant
            is_square(a@, size as int),
            is_square(b@, size as int),
            valid_config(size as int, workers as int),
            tiles(ranges@, size as int),
            0 <= p <= ranges@.len(),
            parts@.len() == p,
            forall|q: int|
                0 <= q < p ==> (#[trigger] parts@[q])@.len() == ranges@[q].end - ranges@[q].start
                    && is_product_block(a@, b@, size as int, ranges@[q].start as int, parts@[q]@),
            p < ranges@.len() ==> rows_fit(a@, b@, size as int, 0, ranges@[p as int].start as int),
            p == ranges@.len() ==> rows_fit(a@, b@, size as int, 0, size as int),
        decreases ranges@.len() - p,
    {
        let range: RowRange = ranges[p];
        assert(range.end <= size) by {
            if p + 1 < ranges@.len() {
                crate::partition::lemma_tiles_ordered(ranges@, size as int, p as int, ranges@.len() - 1);
            }
        }
        match compute_rows(a, b, range, size) {
            Ok(block) => {
                let ghost before = parts@;
                parts.push(block);
                assert forall|q: int|
                    0 <= q < p + 1 implies (#[trigger] parts@[q])@.len() == ranges@[q].end
                    - ranges@[q].start && is_product_block(
                    a@,
                    b@,
                    size as int,
                    ranges@[q].start as int,
                    parts@[q]@,
                ) by {
                    if q < p {
                        assert(parts@[q] == before[q]);
                    }
                }
                assert(rows_fit(a@, b@, size as int, 0, range.end as int)) by {
                    assert forall|i: int, j: int, k: int|
                        0 <= i < range.end && 0 <= j < size && 0 <= k < size implies #[trigger] step_fits(
                        a@,
                        b@,
                        i,
                        j,
                        k,
                    ) by {
                        if i >= range.start {
                            assert(rows_fit(a@, b@, size as int, range.start as int, range.end as int));
                        }
                    }
                }
                if p + 1 < ranges.len() {
                    assert(ranges@[p as int].end == ranges@[p + 1].start);
                }
            },
            Err(e) => {
                assert(!rows_fit(a@, b@, size as int, 0, size as int)) by {
                    if rows_fit(a@, b@, size as int, 0, size as int) {
                        assert forall|i: int, j: int, k: int|
                            range.start <= i < range.end && 0 <= j < size && 0 <= k < size implies #[trigger] step_fits(
                            a@,
                            b@,
                            i,
                            j,
                            k,
                        ) by {}
                    }
                }
                return Product { matrix: zero_matrix(size), error: Some(e) };
            },
        }
        p = p + 1;
    }
    let ghost all_parts = parts@;
    assert(parts_match(ranges@, all_parts));
    let matrix = merge(size, &ranges, parts);
    assert forall|i: int| 0 <= i < size implies (#[trigger] matrix@[i])@.len() == size && forall|j: int|
        0 <= j < size ==> #[trigger] matrix@[i]@[j] as int == dot(a@, b@, i, j, size as int) by {
        lemma_tiles_cover(ranges@, size as int, i);
        assert(in_some_range(ranges@, i));
        let q = choose|q: int| 0 <= q < ranges@.len() && #[trigger] ranges@[q].start <= i < ranges@[q].end;
        assert(placed(matrix@, ranges@, all_parts, ranges@.len() as int));
        assert(matrix@[i] == all_parts[q]@[i - ranges@[q].start]);
        assert(is_product_block(a@, b@, size as int, ranges@[q].start as int, all_parts[q]@));
        assert(all_parts[q]@[i - ranges@[q].start]@.len() == size);
    }
    Product { matrix, error: None }
}

/// Running a multiplication twice on the same inputs gives identical results:
/// the result depends on the inputs alone.
pub proof fn multiply_is_deterministic(
    a: Seq<Vec<i32>>,
    b: Seq<Vec<i32>>,
    size: int,
    workers: int,
    first: Product,
    second: Product,
)
    requires
        multiply_result(a, b, size, workers, first),
        multiply_result(a, b, size, workers, second),
    ensures
        first.error == second.error,
        first.matrix@.len() == second.matrix@.len(),
        forall|i: int| 0 <= i < first.matrix@.len() ==> #[trigger] first.matrix@[i]@ == second.matrix@[i]@,
{
    assert forall|i: int| 0 <= i < first.matrix@.len() implies #[trigger] first.matrix@[i]@ == second.matrix@[i]@ by {
        assert(first.matrix@[i]@ =~= second.matrix@[i]@);
    }
}

/// For every valid worker count the result is the same exact product: how the
/// rows are split does not change a single entry.
pub proof fn product_independent_of_workers(
    a: Seq<Vec<i32>>,
    b: Seq<Vec<i32>>,
    size: int,
    workers1: int,
    workers2: int,
    first: Product,
    second: Product,
)
    requires
        valid_config(size, workers1),
        valid_config(size, workers2),
        multiply_result(a, b, size, workers1, first),
        multiply_result(a, b, size, workers2, second),
    ensures
        first.error == second.error,
        first.matrix@.len() == second.matrix@.len(),
        forall|i: int| 0 <= i < first.matrix@.len() ==> #[trigger] first.matrix@[i]@ == second.matrix@[i]@,
{
    assert forall|i: int| 0 <= i < first.matrix@.len() implies #[trigger] first.matrix@[i]@ == second.matrix@[i]@ by {
        assert(first.matrix@[i]@ =~= second.matrix@[i]@);
    }
}

/// With no rows, or more workers than rows, a multiplication is refused as an
/// invalid configuration and hands back the all-zero `size × size` matrix.
pub proof fn degenerate_input_gives_zero_matrix(
    a: Seq<Vec<i32>>,
    b: Seq<Vec<i32>>,
    size: int,
    workers: int,
    r: Product,
)
    requires
        size == 0 || workers > size,
        multiply_result(a, b, size, workers, r),
    ensures
        r.error == Some(MatrixError::InvalidConfiguration),
        is_zero_matrix(r.matrix@, size),
{
}

} // verus!
