//! The proof-of-work gate: a cheap deterministic search that paces block
//! production. It is not a security mechanism.

use crate::error::NodeError;
use vstd::prelude::*;

verus! {

/// `q` qualifies as a proof after `previous`: it is larger than `previous`
/// and divisible both by 9 and by `previous`.
pub open spec fn qualifies(previous: int, q: int) -> bool {
    &&& previous > 0
    &&& q > previous
    &&& q % 9 == 0
    &&& q % previous == 0
}

/// `q` is the smallest value that qualifies after `previous`.
pub open spec fn is_next_proof(previous: int, q: int) -> bool {
    &&& qualifies(previous, q)
    &&& forall|r: int| previous < r < q ==> !qualifies(previous, r)
}

/// By how much the next proof exceeds the previous one: twice where 9
/// divides the previous proof, three times where only 3 does, nine times
/// otherwise.
pub open spec fn growth(previous: int) -> int {
    if previous % 9 == 0 {
        2
    } else if previous % 3 == 0 {
        3
    } else {
        9
    }
}

/// The multiple `k * previous` is divisible by 9 for no `k` between one and
/// the growth factor.
proof fn lemma_smaller_multiples(previous: int, k: int)
    requires
        previous > 0,
        1 < k < growth(previous),
    ensures
        (k * previous) % 9 != 0,
{
    if k == 2 {
        assert(k * previous == 2 * previous);
    } else if k == 3 {
        assert(k * previous == 3 * previous);
    } else if k == 4 {
        assert(k * previous == 4 * previous);
    } else if k == 5 {
        assert(k * previous == 5 * previous);
    } else if k == 6 {
        assert(k * previous == 6 * previous);
    } else if k == 7 {
        assert(k * previous == 7 * previous);
    } else {
        assert(k * previous == 8 * previous);
    }
}

/// The next proof after `previous` is `growth(previous)` times `previous`,
/// and no other value is.
pub proof fn lemma_next_proof(previous: int, q: int)
    requires
        previous > 0,
    ensures
        is_next_proof(previous, q) <==> q == growth(previous) * previous,
{
    let next = growth(previous) * previous;
    assert(next % previous == 0) by {
        vstd::arithmetic::div_mod::lemma_mod_multiples_basic(growth(previous), previous);
    }
    assert(next > previous && next % 9 == 0) by {
        if previous % 9 == 0 {
            assert(next == 2 * previous);
        } else if previous % 3 == 0 {
            assert(next == 3 * previous);
        } else {
            assert(next == 9 * previous);
        }
    }
    assert forall|r: int| previous < r < next implies !qualifies(previous, r) by {
        if r % previous == 0 {
            let k = r / previous;
            assert(r == previous * k) by {
                vstd::arithmetic::div_mod::lemma_fundamental_div_mod(r, previous);
            }
            assert(1 < k < growth(previous)) by (nonlinear_arith)
                requires
                    r == previous * k,
                    previous > 0,
                    previous < r < growth(previous) * previous,
            ;
            lemma_smaller_multiples(previous, k);
            assert(k * previous == previous * k) by (nonlinear_arith);
        }
    }
    assert(is_next_proof(previous, next));
    if is_next_proof(previous, q) && q != next {
        if q < next {
            assert(!qualifies(previous, q));
        } else {
            assert(!qualifies(previous, next));
        }
    }
}

/// Searches upward from `last_proof + 1` for the smallest value divisible by
/// both 9 and `last_proof`. The search is refused at once where the previous
/// proof is zero or where the value sought does not fit in 64 bits.
pub fn proof_of_work(last_proof: u64) -> (r: Result<u64, NodeError>)
    ensures
        match r {
            Ok(q) => is_next_proof(last_proof as int, q as int),
            Err(e) => if last_proof == 0 {
                e == NodeError::ZeroProof
            } else {
                &&& e == NodeError::Overflow
                &&& forall|q: int| last_proof < q <= u64::MAX ==> !qualifies(last_proof as int, q)
            },
        },
{
    if last_proof == 0 {
        return Err(NodeError::ZeroProof);
    }
    let factor: u64 = if last_proof % 9 == 0 {
        2
    } else if last_proof % 3 == 0 {
        3
    } else {
        9
    };
    proof {
        lemma_next_proof(last_proof as int, factor * last_proof);
    }
    if last_proof > u64::MAX / factor {
        assert(factor * last_proof > u64::MAX) by (nonlinear_arith)
            requires
                last_proof > u64::MAX / factor,
                2 <= factor <= 9,
        ;
        return Err(NodeError::Overflow);
    }
    assert(factor * last_proof <= u64::MAX) by (nonlinear_arith)
        requires
            last_proof <= u64::MAX / factor,
            2 <= factor <= 9,
    ;
    let ghost bound = factor * last_proof;
    let mut incrementor: u64 = last_proof + 1;
    while !(incrementor % 9 == 0 && incrementor % last_proof == 0)
        invariant
            last_proof > 0,
            bound <= u64::MAX,
            is_next_proof(last_proof as int, bound),
            last_proof < incrementor <= bound,
            forall|r: int| last_proof < r < incrementor ==> !qualifies(last_proof as int, r),
        decreases bound - incrementor,
    {
        incrementor = incrementor + 1;
    }
    Ok(incrementor)
}

} // verus!
