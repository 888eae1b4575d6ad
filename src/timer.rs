//! The round timer: a base timeout, doubled with each round of a height, up to a cap.

use vstd::arithmetic::mul::lemma_mul_inequality;
use vstd::arithmetic::power2::{lemma_pow2_pos, lemma_pow2_strictly_increases, lemma_pow2_unfold, pow2};
use vstd::prelude::*;

use crate::view::Round;

verus! {

/// `base · 2^round`, or `cap` where that is more.
pub open spec fn timeout_of(base: u64, round: Round, cap: u64) -> int {
    if base * pow2(round as nat) <= cap {
        base * pow2(round as nat)
    } else {
        cap as int
    }
}

/// How long round `round` of a height may last, in milliseconds.
pub fn round_timeout(base_ms: u64, round: Round, cap_ms: u64) -> (r: u64)
    ensures
        r == timeout_of(base_ms, round, cap_ms),
{
    proof {
        lemma_pow2_pos(round as nat);
        assert(base_ms * pow2(round as nat) >= base_ms) by (nonlinear_arith)
            requires
                pow2(round as nat) >= 1,
        ;
    }
    if base_ms >= cap_ms {
        return cap_ms;
    }
    if base_ms == 0 {
        return 0;
    }
    let mut t: u64 = base_ms;
    let mut i: u64 = 0;
    proof {
        reveal(vstd::arithmetic::power::pow);
        assert(pow2(0) == 1) by {
            reveal(vstd::arithmetic::power::pow);
        }
    }
    while i < round
        invariant
            0 < t <= cap_ms,
            i <= round,
            t == base_ms * pow2(i as nat),
        decreases round - i,
    {
        proof {
            lemma_pow2_unfold((i + 1) as nat);
            assert(base_ms * pow2((i + 1) as nat) == 2 * t) by (nonlinear_arith)
                requires
                    pow2((i + 1) as nat) == 2 * pow2(i as nat),
                    t == base_ms * pow2(i as nat),
            ;
        }
        if t > cap_ms / 2 {
            proof {
                if round > i + 1 {
                    lemma_pow2_strictly_increases((i + 1) as nat, round as nat);
                }
                lemma_mul_inequality(pow2((i + 1) as nat) as int, pow2(round as nat) as int, base_ms as int);
                assert(base_ms * pow2(round as nat) >= base_ms * pow2((i + 1) as nat)) by (nonlinear_arith)
                    requires
                        pow2(round as nat) >= pow2((i + 1) as nat),
                ;
            }
            return cap_ms;
        }
        t = t * 2;
        i = i + 1;
    }
    t
}

} // verus!
