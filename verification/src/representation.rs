use vstd::prelude::*;
use crate::fib::{fib, lemma_fib_pos, lemma_fib_step, lemma_fib_monotone};

verus! {

/// The value of a set of basis positions: the sum of `fib(j)` over the
/// positions `j < n` that the set holds.
pub open spec fn fib_sum(s: Set<nat>, n: nat) -> nat
    decreases n,
{
    if n == 0 {
        0
    } else {
        fib_sum(s, (n - 1) as nat) + if s.contains((n - 1) as nat) {
            fib((n - 1) as nat)
        } else {
            0
        }
    }
}

/// The positions that the greedy decomposition of `r` over the basis
/// positions `0..n` picks: walking down from `n - 1`, a position is taken
/// whenever its basis element fits into what is left of `r`.
pub open spec fn greedy_positions(r: nat, n: nat) -> Set<nat>
    decreases n,
{
    if n == 0 {
        Set::empty()
    } else if fib((n - 1) as nat) <= r {
        greedy_positions((r - fib((n - 1) as nat)) as nat, (n - 1) as nat).insert((n - 1) as nat)
    } else {
        greedy_positions(r, (n - 1) as nat)
    }
}

/// The largest position `j < n` whose basis element is at most `r`, or 0
/// when there is none.
pub open spec fn top_index(r: nat, n: nat) -> nat
    decreases n,
{
    if n == 0 {
        0
    } else if fib((n - 1) as nat) <= r {
        (n - 1) as nat
    } else {
        top_index(r, (n - 1) as nat)
    }
}

/// No two neighbouring positions are both present.
pub open spec fn no_adjacent(s: Set<nat>) -> bool {
    forall|i: nat| #[trigger] s.contains(i) ==> !s.contains(i + 1)
}

/// Every position of `s` is below `n`.
pub open spec fn below(s: Set<nat>, n: nat) -> bool {
    forall|i: nat| #[trigger] s.contains(i) ==> i < n
}

/// `fib_sum` reads only the positions below `n`.
pub proof fn lemma_fib_sum_agree(s: Set<nat>, t: Set<nat>, n: nat)
    requires
        forall|j: nat| j < n ==> (s.contains(j) <==> t.contains(j)),
    ensures
        fib_sum(s, n) == fib_sum(t, n),
    decreases n,
{
    if n > 0 {
        lemma_fib_sum_agree(s, t, (n - 1) as nat);
    }
}

/// Any set of positions below `n` is worth at most `fib(n + 1) - 2`.
pub proof fn lemma_fib_sum_bound(s: Set<nat>, n: nat)
    ensures
        fib_sum(s, n) + 2 <= fib(n + 1),
    decreases n,
{
    if n > 0 {
        lemma_fib_sum_bound(s, (n - 1) as nat);
    }
}


pub proof fn lemma_greedy_below(r: nat, n: nat)
    ensures
        below(greedy_positions(r, n), n),
    decreases n,
{
    if n > 0 {
        let k = (n - 1) as nat;
        if fib(k) <= r {
            lemma_greedy_below((r - fib(k)) as nat, k);
        } else {
            lemma_greedy_below(r, k);
        }
    }
}

pub proof fn lemma_greedy_zero(n: nat)
    ensures
        greedy_positions(0, n) == Set::<nat>::empty(),
    decreases n,
{
    if n > 0 {
        lemma_fib_pos((n - 1) as nat);
        lemma_greedy_zero((n - 1) as nat);
    }
}

/// The greedy decomposition is exact for every value up to `fib(n + 1) - 2`,
/// the sum of all basis elements below `n`.
pub proof fn lemma_greedy_exact(r: nat, n: nat)
    requires
        r + 2 <= fib(n + 1),
    ensures
        fib_sum(greedy_positions(r, n), n) == r,
    decreases n,
{
    if n > 0 {
        let k = (n - 1) as nat;
        if fib(k) <= r {
            let r2 = (r - fib(k)) as nat;
            let g = greedy_positions(r2, k);
            lemma_greedy_exact(r2, k);
            lemma_greedy_below(r2, k);
            lemma_fib_sum_agree(g.insert(k), g, k);
        } else {
            lemma_fib_step(k);
            lemma_greedy_exact(r, k);
            lemma_greedy_below(r, k);
        }
    }
}

/// Below `fib(n)` the greedy decomposition never takes two neighbouring positions.
pub proof fn lemma_greedy_no_adjacent(r: nat, n: nat)
    requires
        r < fib(n),
    ensures
        no_adjacent(greedy_positions(r, n)),
    decreases n,
{
    if n > 0 {
        let k = (n - 1) as nat;
        if fib(k) <= r {
            let r2 = (r - fib(k)) as nat;
            if k == 0 {
                lemma_greedy_zero(0);
                assert(greedy_positions(r, n) =~= set![0nat]);
            } else {
                // r2 < fib(k - 1): position k - 1 is skipped next
                assert(r2 < fib((k - 1) as nat));
                lemma_fib_monotone((k - 1) as nat, k);
                lemma_greedy_no_adjacent(r2, (k - 1) as nat);
                lemma_greedy_below(r2, (k - 1) as nat);
                let g = greedy_positions(r2, k);
                assert(g == greedy_positions(r2, (k - 1) as nat));
                assert forall|i: nat| #[trigger] g.insert(k).contains(i) implies !g.insert(k).contains(i + 1) by {
                    if i == k {
                    } else {
                        assert(g.contains(i));
                        assert(i < k - 1);
                    }
                }
            }
        } else {
            lemma_greedy_no_adjacent(r, k);
        }
    }
}

/// A set of positions with no two neighbours is worth less than `fib(n)`
/// below `n`.
pub proof fn lemma_no_adjacent_bound(s: Set<nat>, n: nat)
    requires
        no_adjacent(s),
    ensures
        fib_sum(s, n) < fib(n),
    decreases n,
{
    if n > 0 {
        let k = (n - 1) as nat;
        if s.contains(k) {
            if k == 0 {
                assert(fib_sum(s, 0) == 0);
                assert(fib(0) == 1 && fib(1) == 2);
            } else {
                let k1 = (k - 1) as nat;
                assert(!s.contains(k1)) by {
                    assert(s.contains(k1) ==> !s.contains(k1 + 1));
                }
                lemma_no_adjacent_bound(s, k1);
                assert(fib_sum(s, k) == fib_sum(s, k1));
                assert(fib(n) == fib(k) + fib(k1));
            }
        } else {
            lemma_no_adjacent_bound(s, k);
            lemma_fib_step(k);
        }
    }
}

/// Zeckendorf's theorem, uniqueness half: a set of positions below `n` with no
/// two neighbours is exactly what the greedy decomposition picks for its value.
pub proof fn lemma_zeckendorf_unique(s: Set<nat>, n: nat)
    requires
        no_adjacent(s),
        below(s, n),
    ensures
        greedy_positions(fib_sum(s, n), n) == s,
    decreases n,
{
    if n == 0 {
        assert(s =~= Set::<nat>::empty());
    } else {
        let k = (n - 1) as nat;
        let v = fib_sum(s, n);
        if s.contains(k) {
            let s2 = s.remove(k);
            lemma_fib_sum_agree(s, s2, k);
            assert(no_adjacent(s2));
            lemma_zeckendorf_unique(s2, k);
            assert(s2.insert(k) =~= s);
        } else {
            lemma_no_adjacent_bound(s, k);
            assert(below(s, k));
            lemma_zeckendorf_unique(s, k);
        }
    }
}

/// The position that the greedy decomposition takes first is its largest one.
pub proof fn lemma_top_index(r: nat, n: nat)
    requires
        r >= 1,
        n >= 1,
    ensures
        top_index(r, n) < n,
        fib(top_index(r, n)) <= r,
        greedy_positions(r, n).contains(top_index(r, n)),
        forall|j: nat| #[trigger] greedy_positions(r, n).contains(j) ==> j <= top_index(r, n),
    decreases n,
{
    let k = (n - 1) as nat;
    if fib(k) <= r {
        lemma_greedy_below((r - fib(k)) as nat, k);
    } else {
        if k == 0 {
            assert(fib(0) == 1);
        } else {
            lemma_top_index(r, k);
        }
    }
}

pub proof fn lemma_top_index_zero(n: nat)
    ensures
        top_index(0, n) == 0,
    decreases n,
{
    if n > 0 {
        lemma_fib_pos((n - 1) as nat);
        lemma_top_index_zero((n - 1) as nat);
    }
}

/// The part of `fib_sum` between positions `m` and `n` reads only those positions.
pub proof fn lemma_fib_sum_window(s: Set<nat>, t: Set<nat>, m: nat, n: nat)
    requires
        m <= n,
        forall|j: nat| m <= j < n ==> (s.contains(j) <==> t.contains(j)),
    ensures
        fib_sum(s, n) - fib_sum(s, m) == fib_sum(t, n) - fib_sum(t, m),
    decreases n - m,
{
    if m < n {
        lemma_fib_sum_window(s, t, m, (n - 1) as nat);
    }
}

/// A longer range adds positions, never removes them.
pub proof fn lemma_fib_sum_monotone(s: Set<nat>, i: nat, n: nat)
    requires
        i <= n,
    ensures
        fib_sum(s, i) <= fib_sum(s, n),
    decreases n - i,
{
    if i < n {
        lemma_fib_sum_monotone(s, i, (n - 1) as nat);
    }
}

/// A value at least the sum of the whole table takes every position.
pub proof fn lemma_greedy_full(r: nat, n: nat)
    requires
        r + 2 >= fib(n + 1),
    ensures
        forall|j: nat| #[trigger] greedy_positions(r, n).contains(j) <==> j < n,
        n >= 1 ==> top_index(r, n) == n - 1,
    decreases n,
{
    if n > 0 {
        let k = (n - 1) as nat;
        lemma_fib_pos(k + 1);
        assert(fib(k) <= r) by {
            if k >= 1 {
                lemma_fib_pos(k);
                assert(fib(k + 2) == fib(k + 1) + fib(k));
                lemma_fib_step(k);
            } else {
                assert(fib(0) == 1 && fib(2) == 3);
            }
        }
        assert(fib(k + 2) == fib(k + 1) + fib(k));
        let r2 = (r - fib(k)) as nat;
        lemma_greedy_full(r2, k);
        assert(greedy_positions(r, n) == greedy_positions(r2, k).insert(k));
        assert forall|j: nat| #[trigger] greedy_positions(r, n).contains(j) <==> j < n by {
            assert(greedy_positions(r2, k).contains(j) <==> j < k);
        }
    }
}

} // verus!
