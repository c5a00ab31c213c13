use vstd::prelude::*;
use rand::Rng;
use crate::kernel::{dot, entry, is_square, rows_fit, step_fits};

verus! {

#[verifier::external_type_specification]
#[verifier::external_body]
pub struct ExThreadRng(rand::rngs::ThreadRng);

/// Entries of a generated matrix lie in `[0, ENTRY_BOUND)`.
pub const ENTRY_BOUND: i32 = 100;

/// Relies on rand::rng: a handle to the thread-local generator.
#[verifier::external_body]
fn thread_rng() -> rand::rngs::ThreadRng {
    rand::rng()
}

/// Relies on rand::Rng::random_range: a value drawn from `[0, bound)`, which
/// is not empty, so the call does not panic.
#[verifier::external_body]
fn random_below(rng: &mut rand::rngs::ThreadRng, bound: i32) -> (r: i32)
    requires
        0 < bound,
    ensures
        0 <= r < bound,
{
    rng.random_range(0..bound)
}

/// `m` is a `size × size` matrix whose entries lie in `[0, ENTRY_BOUND)`.
pub open spec fn is_generated(m: Seq<Vec<i32>>, size: int) -> bool {
    &&& is_square(m, size)
    &&& forall|i: int, j: int|
        0 <= i < size && 0 <= j < size ==> 0 <= #[trigger] m[i]@[j] < ENTRY_BOUND
}

/// A `size × size` matrix of random entries drawn from `[0, ENTRY_BOUND)`.
pub fn generate_matrix(size: usize) -> (m: Vec<Vec<i32>>)
    ensures
        is_generated(m@, size as int),
{
    let mut rng = thread_rng();
    let mut m: Vec<Vec<i32>> = Vec::new();
    let mut i: usize = 0;
    while i < size
        invariant
            0 <= i <= size,
            m@.len() == i,
            forall|r: int| 0 <= r < i ==> (#[trigger] m@[r])@.len() == size,
            forall|r: int, j: int|
                0 <= r < i && 0 <= j < size ==> 0 <= #[trigger] m@[r]@[j] < ENTRY_BOUND,
        decreases size - i,
    {
        let mut row: Vec<i32> = Vec::new();
        let mut j: usize = 0;
        while j < size
            invariant
                0 <= j <= size,
                row@.len() == j,
                forall|c: int| 0 <= c < j ==> 0 <= #[trigger] row@[c] < ENTRY_BOUND,
            decreases size - j,
        {
            row.push(random_below(&mut rng, ENTRY_BOUND));
            j = j + 1;
        }
        m.push(row);
        i = i + 1;
    }
    m
}

/// The largest size for which products of generated matrices cannot overflow.
pub const SAFE_SIZE: usize = 200000;

/// Each product term of generated matrices is at most `99 * 99 = 9801`, so a
/// partial sum of `k` terms is at most `k * 9801`.
proof fn lemma_dot_bounds(a: Seq<Vec<i32>>, b: Seq<Vec<i32>>, size: int, i: int, j: int, k: int)
    requires
        is_generated(a, size),
        is_generated(b, size),
        0 <= i < size,
        0 <= j < size,
        0 <= k <= size,
    ensures
        0 <= dot(a, b, i, j, k) <= k * 9801,
    decreases k,
{
    if k > 0 {
        lemma_dot_bounds(a, b, size, i, j, k - 1);
        let x = entry(a, i, k - 1);
        let y = entry(b, k - 1, j);
        assert(0 <= x < 100 && 0 <= y < 100);
        assert(0 <= x * y <= 9801) by (nonlinear_arith)
            requires
                0 <= x < 100,
                0 <= y < 100,
        ;
    }
}

/// Products of generated matrices of size at most `SAFE_SIZE` never leave
/// `i32`: a multiplication of them is refused for its configuration only.
pub proof fn generated_matrices_fit(a: Seq<Vec<i32>>, b: Seq<Vec<i32>>, size: int)
    requires
        is_generated(a, size),
        is_generated(b, size),
        size <= SAFE_SIZE,
    ensures
        rows_fit(a, b, size, 0, size),
{
    assert forall|i: int, j: int, k: int|
        0 <= i < size && 0 <= j < size && 0 <= k < size implies #[trigger] step_fits(a, b, i, j, k) by {
        lemma_dot_bounds(a, b, size, i, j, k + 1);
        let x = entry(a, i, k);
        let y = entry(b, k, j);
        assert(0 <= x * y <= 9801) by (nonlinear_arith)
            requires
                0 <= x < 100,
                0 <= y < 100,
        ;
    }
}

} // verus!
