//! Wrap-around index arithmetic on a domain `[0, m)`, used by the engine's
//! ring-boundary neighbor lookup.

use vstd::prelude::*;
use vstd::arithmetic::div_mod::{lemma_mod_add_multiples_vanish, lemma_small_mod};

verus! {

/// Wrap-around addition on the index domain `[0, m)`: returns `(i + j) mod m`,
/// always in `[0, m)`, with no intermediate overflow.
pub fn add_mod(i: usize, j: usize, m: usize) -> (r: usize)
    requires
        0 < m,
        i < m,
        j <= m,
    ensures
        r < m,
        r as int == (i as int + j as int) % (m as int),
{
    if i >= m - j {
        let r = i - (m - j);
        proof {
            lemma_mod_add_multiples_vanish(r as int, m as int);
            lemma_small_mod(r as nat, m as nat);
        }
        r
    } else {
        proof {
            lemma_small_mod((i + j) as nat, m as nat);
        }
        i + j
    }
}

/// Wrap-around subtraction on the index domain `[0, m)`: returns
/// `(i - j) mod m` under the non-negative-remainder convention, always in
/// `[0, m)`, even where the plain subtraction would go negative.
pub fn sub_mod(i: usize, j: usize, m: usize) -> (r: usize)
    requires
        0 < m,
        i < m,
        j <= m,
    ensures
        r < m,
        r as int == (i as int - j as int + m as int) % (m as int),
{
    if i >= j {
        let r = i - j;
        proof {
            lemma_mod_add_multiples_vanish(r as int, m as int);
            lemma_small_mod(r as nat, m as nat);
        }
        r
    } else {
        let r = i + (m - j);
        proof {
            lemma_small_mod(r as nat, m as nat);
        }
        r
    }
}

} // verus!
