//! Facts about visits at a fixed stride, and about the sequences they fill.

use vstd::prelude::*;
use vstd::arithmetic::div_mod::lemma_fundamental_div_mod;

verus! {

/// Between one multiple of `step` and the next there is no other.
pub proof fn lemma_next_multiple(x: int, step: int, v: int)
    requires
        0 < step,
        x % step == 0,
        v % step == 0,
        x <= v < x + step,
    ensures
        v == x,
{
    lemma_fundamental_div_mod(x, step);
    lemma_fundamental_div_mod(v, step);
    let a = v / step;
    let b = x / step;
    assert(a - b == 0) by (nonlinear_arith)
        requires
            0 < step,
            v == step * a,
            x == step * b,
            0 <= v - x < step,
    ;
}

/// What a sequence holds, and what is pushed, is held after the push.
pub proof fn lemma_push_keeps<T>(s: Seq<T>, pushed: T, held: T)
    requires
        s.contains(held) || held == pushed,
    ensures
        s.push(pushed).contains(held),
{
    if s.contains(held) {
        let i = choose|i: int| 0 <= i < s.len() && s[i] == held;
        assert(s.push(pushed)[i] == held);
    } else {
        assert(s.push(pushed)[s.len() as int] == pushed);
    }
}

} // verus!
