use vstd::prelude::*;
use crate::partition::{MatrixError, RowRange};

verus! {

/// `m` holds `size` rows of `size` entries each.
pub open spec fn is_square(m: Seq<Vec<i32>>, size: int) -> bool {
    &&& m.len() == size
    &&& forall|i: int| 0 <= i < size ==> (#[trigger] m[i])@.len() == size
}

/// Entry `(i, k)` of `m` as a mathematical integer.
pub open spec fn entry(m: Seq<Vec<i32>>, i: int, k: int) -> int {
    m[i]@[k] as int
}

/// The sum over `t < k` of `a[i][t] * b[t][j]`.
pub open spec fn dot(a: Seq<Vec<i32>>, b: Seq<Vec<i32>>, i: int, j: int, k: int) -> int
    decreases k,
{
    if k <= 0 {
        0
    } else {
        dot(a, b, i, j, k - 1) + entry(a, i, k - 1) * entry(b, k - 1, j)
    }
}

/// A value that `i32` can hold.
pub open spec fn fits_i32(x: int) -> bool {
    i32::MIN <= x <= i32::MAX
}

/// Step `k` of entry `(i, j)`: its product term and the partial sum through it
/// both fit in `i32`.
pub open spec fn step_fits(a: Seq<Vec<i32>>, b: Seq<Vec<i32>>, i: int, j: int, k: int) -> bool {
    fits_i32(entry(a, i, k) * entry(b, k, j)) && fits_i32(dot(a, b, i, j, k + 1))
}

/// Every step of every entry in rows `[start, end)` of the product fits in `i32`.
pub open spec fn rows_fit(a: Seq<Vec<i32>>, b: Seq<Vec<i32>>, size: int, start: int, end: int) -> bool {
    forall|i: int, j: int, k: int|
        start <= i < end && 0 <= j < size && 0 <= k < size ==> #[trigger] step_fits(a, b, i, j, k)
}

/// `block` holds rows `[start, start + block.len())` of the product of `a` and `b`.
pub open spec fn is_product_block(
    a: Seq<Vec<i32>>,
    b: Seq<Vec<i32>>,
    size: int,
    start: int,
    block: Seq<Vec<i32>>,
) -> bool {
    forall|r: int|
        0 <= r < block.len() ==> (#[trigger] block[r])@.len() == size && forall|j: int|
            0 <= j < size ==> #[trigger] block[r]@[j] as int == dot(a, b, start + r, j, size)
}

/// Computes rows `[range.start, range.end)` of the product of the
/// `size × size` matrices `a` and `b` with the naive kernel, accumulating
/// each entry in `i32` in the order `k = 0, 1, ...`. Fails with `Overflow`
/// exactly when a product term or partial sum of one of these rows leaves `i32`.
pub fn compute_rows(a: &Vec<Vec<i32>>, b: &Vec<Vec<i32>>, range: RowRange, size: usize) -> (r:
    Result<Vec<Vec<i32>>, MatrixError>)
    requires
        is_square(a@, size as int),
        is_square(b@, size as int),
        range.start <= range.end <= size,
    ensures
        r is Ok <==> rows_fit(a@, b@, size as int, range.start as int, range.end as int),
        r matches Ok(block) ==> block@.len() == range.end - range.start && is_product_block(
            a@,
            b@,
            size as int,
            range.start as int,
            block@,
        ),
        r matches Err(e) ==> e == MatrixError::Overflow,
{
    let mut block: Vec<Vec<i32>> = Vec::new();
    let mut i: usize = range.start;
    while i < range.end
        invariant
            is_square(a@, size as int),
            is_square(b@, size as int),
            range.start <= i <= range.end <= size,
            block@.len() == i - range.start,
            rows_fit(a@, b@, size as int, range.start as int, i as int),
            is_product_block(a@, b@, size as int, range.start as int, block@),
        decreases range.end - i,
    {
        let mut row: Vec<i32> = Vec::new();
        let mut j: usize = 0;
        while j < size
            invariant
                is_square(a@, size as int),
                is_square(b@, size as int),
                range.start <= i < range.end <= size,
                0 <= j <= size,
                row@.len() == j,
                forall|jj: int, k: int|
                    0 <= jj < j && 0 <= k < size ==> #[trigger] step_fits(a@, b@, i as int, jj, k),
                forall|jj: int| 0 <= jj < j ==> #[trigger] row@[jj] as int == dot(a@, b@, i as int, jj, size as int),
            decreases size - j,
        {
            let mut temp: i32 = 0;
            let mut k: usize = 0;
            while k < size
                invariant
                    is_square(a@, size as int),
                    is_square(b@, size as int),
                    range.start <= i < range.end <= size,
                    0 <= j < size,
                    0 <= k <= size,
                    temp as int == dot(a@, b@, i as int, j as int, k as int),
                    forall|kk: int| 0 <= kk < k ==> #[trigger] step_fits(a@, b@, i as int, j as int, kk),
                decreases size - k,
            {
                assert(a@[i as int]@.len() == size);
                assert(b@[k as int]@.len() == size);
                let term = match a[i][k].checked_mul(b[k][j]) {
                    Some(t) => t,
                    None => {
                        assert(!step_fits(a@, b@, i as int, j as int, k as int));
                        return Err(MatrixError::Overflow);
                    },
                };
                temp = match temp.checked_add(term) {
                    Some(s) => s,
                    None => {
                        assert(!step_fits(a@, b@, i as int, j as int, k as int));
                        return Err(MatrixError::Overflow);
                    },
                };
                k = k + 1;
            }
            row.push(temp);
            j = j + 1;
        }
        block.push(row);
        i = i + 1;
    }
    Ok(block)
}

} // verus!
