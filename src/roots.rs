use vstd::prelude::*;

verus! {

/// `r` is the integer square root of `n`: the largest `r` with `r² <= n`.
pub open spec fn is_floor_sqrt(n: int, r: int) -> bool {
    0 <= r && r * r <= n && n < (r + 1) * (r + 1)
}

/// The integer square root `⌊√n⌋`.
pub open spec fn floor_sqrt(n: nat) -> nat
    decreases n,
{
    if n == 0 {
        0
    } else {
        let r = floor_sqrt((n - 1) as nat);
        if (r + 1) * (r + 1) <= n {
            r + 1
        } else {
            r
        }
    }
}

pub proof fn lemma_floor_sqrt(n: nat)
    ensures
        is_floor_sqrt(n as int, floor_sqrt(n) as int),
    decreases n,
{
    if n > 0 {
        lemma_floor_sqrt((n - 1) as nat);
        let r = floor_sqrt((n - 1) as nat) as int;
        assert((r + 2) * (r + 2) == (r + 1) * (r + 1) + 2 * r + 3) by (nonlinear_arith);
    }
}

/// At most one integer is the square root of `n`.
pub proof fn lemma_floor_sqrt_unique(n: int, r1: int, r2: int)
    requires
        is_floor_sqrt(n, r1),
        is_floor_sqrt(n, r2),
    ensures
        r1 == r2,
{
    if r1 < r2 {
        assert((r1 + 1) * (r1 + 1) <= r2 * r2) by (nonlinear_arith)
            requires
                0 <= r1,
                r1 + 1 <= r2,
        ;
    } else if r2 < r1 {
        assert((r2 + 1) * (r2 + 1) <= r1 * r1) by (nonlinear_arith)
            requires
                0 <= r2,
                r2 + 1 <= r1,
        ;
    }
}

/// Relies on `num::integer::sqrt`, documented to return the truncated principal
/// square root: `r² <= n < (r + 1)²` for non-negative `n`.
#[verifier::external_body]
fn num_sqrt(n: u128) -> (r: u128)
    ensures
        is_floor_sqrt(n as int, r as int),
{
    num::integer::sqrt(n)
}

/// The integer square root of `n`.
pub(crate) fn integer_sqrt(n: u128) -> (r: u128)
    ensures
        r == floor_sqrt(n as nat),
        r * r <= n,
{
    let r = num_sqrt(n);
    proof {
        lemma_floor_sqrt(n as nat);
        lemma_floor_sqrt_unique(n as int, r as int, floor_sqrt(n as nat) as int);
    }
    r
}

} // verus!
