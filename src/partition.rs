use vstd::prelude::*;

verus! {

/// A half-open interval `[start, end)` of row indices.
#[derive(Clone, Copy, Debug, PartialEq, Eq, Structural)]
pub struct RowRange {
    pub start: usize,
    pub end: usize,
}

/// Ways in which a multiplication can be refused.
#[derive(Clone, Copy, Debug, PartialEq, Eq, Structural)]
pub enum MatrixError {
    /// The size is zero, the worker count is zero, or it exceeds the size.
    InvalidConfiguration,
    /// Some product term or partial sum of an entry does not fit in `i32`.
    Overflow,
}

/// A size and a worker count that the partitioner accepts.
pub open spec fn valid_config(size: int, workers: int) -> bool {
    1 <= workers <= size
}

/// Rows per worker before the remainder is handed out.
pub open spec fn base_rows(size: int, workers: int) -> int {
    size / workers
}

/// First row of worker `i`.
pub open spec fn range_start(size: int, workers: int, i: int) -> int {
    i * base_rows(size, workers)
}

/// One past the last row of worker `i`: the last worker runs to `size`.
pub open spec fn range_end(size: int, workers: int, i: int) -> int {
    if i == workers - 1 {
        size
    } else {
        (i + 1) * base_rows(size, workers)
    }
}

/// `ranges` lie side by side, in order, from row 0 up to `size`.
pub open spec fn tiles(ranges: Seq<RowRange>, size: int) -> bool {
    &&& ranges.len() > 0
    &&& ranges[0].start == 0
    &&& ranges[ranges.len() - 1].end == size
    &&& forall|p: int| 0 <= p < ranges.len() ==> #[trigger] ranges[p].start <= ranges[p].end
    &&& forall|p: int| 0 <= p < ranges.len() - 1 ==> #[trigger] ranges[p].end == ranges[p + 1].start
}

/// Some range of `ranges` holds `row`.
pub open spec fn in_some_range(ranges: Seq<RowRange>, row: int) -> bool {
    exists|p: int| 0 <= p < ranges.len() && #[trigger] ranges[p].start <= row < ranges[p].end
}

/// `ranges` are exactly the ranges that the partitioner assigns.
pub open spec fn is_partition(ranges: Seq<RowRange>, size: int, workers: int) -> bool {
    &&& ranges.len() == workers
    &&& forall|i: int|
        0 <= i < workers ==> (#[trigger] ranges[i]).start == range_start(size, workers, i)
            && ranges[i].end == range_end(size, workers, i)
}

proof fn lemma_start_bounds(size: int, workers: int, i: int)
    requires
        valid_config(size, workers),
        0 <= i < workers,
    ensures
        0 <= range_start(size, workers, i),
        range_start(size, workers, i) + base_rows(size, workers) <= size,
        range_start(size, workers, i) <= range_end(size, workers, i) <= size,
        range_end(size, workers, i) - range_start(size, workers, i) == if i == workers - 1 {
            base_rows(size, workers) + size % workers
        } else {
            base_rows(size, workers)
        },
        i < workers - 1 ==> range_end(size, workers, i) == range_start(size, workers, i + 1),
{
    let base = size / workers;
    assert(size == workers * base + size % workers) by (nonlinear_arith)
        requires
            workers > 0,
            base == size / workers,
    ;
    assert(0 <= i * base) by (nonlinear_arith)
        requires
            0 <= i,
            0 <= base,
    ;
    assert((i + 1) * base <= workers * base) by (nonlinear_arith)
        requires
            i + 1 <= workers,
            0 <= base,
    ;
    assert((i + 1) * base == i * base + base) by (nonlinear_arith);
    assert(i == workers - 1 ==> i * base + base + size % workers == size) by (nonlinear_arith)
        requires
            size == workers * base + size % workers,
    ;
}

/// Splits rows `[0, size)` among `workers` workers: each gets `size / workers`
/// consecutive rows, and the last one also takes the `size % workers` rows
/// that are left over.
pub fn partition(size: usize, workers: usize) -> (r: Result<Vec<RowRange>, MatrixError>)
    ensures
        r is Ok <==> valid_config(size as int, workers as int),
        r matches Ok(ranges) ==> is_partition(ranges@, size as int, workers as int),
        r matches Err(e) ==> e == MatrixError::InvalidConfiguration,
{
    if size < 1 || workers < 1 || workers > size {
        return Err(MatrixError::InvalidConfiguration);
    }
    let base: usize = size / workers;
    let mut ranges: Vec<RowRange> = Vec::new();
    let mut i: usize = 0;
    while i < workers
        invariant
            valid_config(size as int, workers as int),
            base == base_rows(size as int, workers as int),
            0 <= i <= workers,
            ranges@.len() == i,
            forall|q: int|
                0 <= q < i ==> (#[trigger] ranges@[q]).start == range_start(
                    size as int,
                    workers as int,
                    q,
                ) && ranges@[q].end == range_end(size as int, workers as int, q),
        decreases workers - i,
    {
        proof {
            lemma_start_bounds(size as int, workers as int, i as int);
        }
        let start: usize = i * base;
        let end: usize = if i == workers - 1 {
            size
        } else {
            start + base
        };
        ranges.push(RowRange { start, end });
        i = i + 1;
    }
    Ok(ranges)
}

/// The partitioner's ranges cover `[0, size)` without gaps or overlaps, every
/// range but the last holds exactly `size / workers` rows, and the last holds
/// that many plus the remainder `size % workers`.
pub proof fn partition_covers_rows(size: int, workers: int, ranges: Seq<RowRange>)
    requires
        valid_config(size, workers),
        is_partition(ranges, size, workers),
    ensures
        tiles(ranges, size),
        forall|row: int| 0 <= row < size ==> #[trigger] in_some_range(ranges, row),
        forall|p: int, q: int|
            0 <= p < q < workers ==> #[trigger] ranges[p].end <= #[trigger] ranges[q].start,
        forall|p: int|
            0 <= p < workers - 1 ==> #[trigger] ranges[p].end - ranges[p].start == size
                / workers,
        ranges[workers - 1].end - ranges[workers - 1].start == size / workers + size % workers,
{
    assert forall|p: int| 0 <= p < workers implies {
        &&& #[trigger] ranges[p].start <= ranges[p].end
        &&& ranges[p].end - ranges[p].start == if p == workers - 1 {
            size / workers + size % workers
        } else {
            size / workers
        }
        &&& p < workers - 1 ==> ranges[p].end == ranges[p + 1].start
    } by {
        lemma_start_bounds(size, workers, p);
    }
    assert(ranges[0].start == 0);
    assert forall|row: int| 0 <= row < size implies #[trigger] in_some_range(ranges, row) by {
        lemma_tiles_cover(ranges, size, row);
    }
    assert forall|p: int, q: int| 0 <= p < q < workers implies #[trigger] ranges[p].end
        <= #[trigger] ranges[q].start by {
        lemma_tiles_ordered(ranges, size, p, q);
    }
}

/// Every row below `size` lies in one of the tiling ranges.
pub proof fn lemma_tiles_cover(ranges: Seq<RowRange>, size: int, row: int)
    requires
        tiles(ranges, size),
        0 <= row < size,
    ensures
        in_some_range(ranges, row),
    decreases ranges.len(),
{
    let n = ranges.len() as int;
    if ranges[n - 1].start <= row {
        assert(ranges[n - 1].start <= row < ranges[n - 1].end);
    } else {
        let shorter = ranges.subrange(0, n - 1);
        assert(n - 2 >= 0);
        assert(ranges[n - 2].end == ranges[n - 1].start);
        assert(shorter[n - 2] == ranges[n - 2]);
        if ranges[n - 2].end <= row {
            // the last range starts where the one before ends, which lies at or below `row`
            assert(false);
        }
        lemma_tiles_cover(shorter, ranges[n - 2].end as int, row);
        let p = choose|p: int| 0 <= p < shorter.len() && #[trigger] shorter[p].start <= row < shorter[p].end;
        assert(ranges[p] == shorter[p]);
    }
}

/// A tiling range ends no later than any range after it starts.
pub proof fn lemma_tiles_ordered(ranges: Seq<RowRange>, size: int, p: int, q: int)
    requires
        tiles(ranges, size),
        0 <= p < q < ranges.len(),
    ensures
        ranges[p].end <= ranges[q].start,
    decreases q - p,
{
    if q > p + 1 {
        lemma_tiles_ordered(ranges, size, p, q - 1);
        assert(ranges[q - 1].start <= ranges[q - 1].end);
        assert(ranges[q - 1].end == ranges[q].start);
    } else {
        assert(ranges[p].end == ranges[p + 1].start);
    }
}

} // verus!
