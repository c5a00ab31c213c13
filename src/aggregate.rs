use vstd::prelude::*;
use crate::partition::{RowRange, tiles, lemma_tiles_ordered};

verus! {

/// `parts[p]` holds one row for each row index of `ranges[p]`.
pub open spec fn parts_match<T>(ranges: Seq<RowRange>, parts: Seq<Vec<T>>) -> bool {
    &&& parts.len() == ranges.len()
    &&& forall|p: int|
        0 <= p < ranges.len() ==> (#[trigger] parts[p])@.len() == ranges[p].end - ranges[p].start
}

/// `result` holds, at each row of `ranges[p]`, the matching row of `parts[p]`.
pub open spec fn placed<T>(result: Seq<T>, ranges: Seq<RowRange>, parts: Seq<Vec<T>>, count: int) -> bool {
    forall|p: int, row: int|
        0 <= p < count && ranges[p].start <= row < ranges[p].end ==> #[trigger] result[row]
            == #[trigger] parts[p]@[row - ranges[p].start]
}

/// Joins the partial blocks, given in the order of their ranges, into one
/// matrix whose rows sit at the absolute positions that the ranges give.
pub fn merge<T>(size: usize, ranges: &Vec<RowRange>, parts: Vec<Vec<T>>) -> (result: Vec<T>)
    requires
        tiles(ranges@, size as int),
        parts_match(ranges@, parts@),
    ensures
        result@.len() == size,
        placed(result@, ranges@, parts@, ranges@.len() as int),
{
    let ghost original = parts@;
    let mut rest = parts;
    let mut result: Vec<T> = Vec::new();
    let mut p: usize = 0;
    while p < ranges.len()
        invariant
            tiles(ranges@, size as int),
            parts_match(ranges@, original),
            0 <= p <= ranges@.len(),
            rest@ == original.subrange(p as int, original.len() as int),
            p < ranges@.len() ==> result@.len() == ranges@[p as int].start,
            p == ranges@.len() ==> result@.len() == size,
            placed(result@, ranges@, original, p as int),
        decreases ranges@.len() - p,
    {
        let ghost before = result@;
        assert(rest@[0] == original[p as int]);
        let mut part = rest.remove(0);
        assert(rest@ == original.subrange(p + 1, original.len() as int));
        result.append(&mut part);
        assert(result@ == before + original[p as int]@);
        assert forall|q: int, row: int|
            0 <= q < p + 1 && ranges@[q].start <= row < ranges@[q].end implies #[trigger] result@[row]
            == #[trigger] original[q]@[row - ranges@[q].start] by {
            if q < p {
                lemma_tiles_ordered(ranges@, size as int, q, p as int);
                assert(result@[row] == before[row]);
            }
        }
        if p + 1 < ranges.len() {
            assert(ranges@[p as int].end == ranges@[p + 1].start);
        }
        p = p + 1;
    }
    result
}

} // verus!
