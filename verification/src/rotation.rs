//! Round robin over many picks: the order in which backends come up, and how
//! evenly the picks are spread.

use crate::load_balancer::{BalancerView, Pick};
use vstd::arithmetic::div_mod::{
    lemma_div_is_ordered, lemma_fundamental_div_mod, lemma_fundamental_div_mod_converse,
    lemma_mod_bound,
};
use vstd::prelude::*;

verus! {

impl BalancerView {
    /// The balancer after `k` picks in a row, with no release in between.
    pub open spec fn picked_times(self, k: nat) -> BalancerView
        decreases k,
    {
        if k == 0 {
            self
        } else {
            self.picked_times((k - 1) as nat).picked()
        }
    }

    /// How many of the first `k` picks in a row fall on slot `i`.
    pub open spec fn picks_on(self, k: nat, i: usize) -> nat
        decreases k,
    {
        if k == 0 {
            0
        } else {
            let hit: nat = match self.picked_times((k - 1) as nat).pick() {
                Some(p) => if p.index == i {
                    1
                } else {
                    0
                },
                None => 0,
            };
            self.picks_on((k - 1) as nat, i) + hit
        }
    }
}

/// How many picks pass, from a counter at `counter`, before slot `i` of `n`
/// comes up for the first time.
pub open spec fn first_turn(counter: int, n: int, i: int) -> int {
    (i - counter) % n
}

/// Moving on by one raises a quotient exactly where the new value is a
/// multiple of the divisor.
proof fn lemma_div_step(m: int, n: int)
    requires
        0 <= m,
        0 < n,
    ensures
        (m + 1) / n == m / n + if (m + 1) % n == 0 {
            1int
        } else {
            0int
        },
{
    let q = m / n;
    let r = m % n;
    lemma_fundamental_div_mod(m, n);
    lemma_mod_bound(m, n);
    if r + 1 == n {
        assert(m + 1 == (q + 1) * n + 0) by (nonlinear_arith)
            requires
                m == n * q + r,
                r + 1 == n,
        ;
        lemma_fundamental_div_mod_converse(m + 1, n, q + 1, 0);
    } else {
        assert(m + 1 == q * n + (r + 1)) by (nonlinear_arith)
            requires
                m == n * q + r,
        ;
        lemma_fundamental_div_mod_converse(m + 1, n, q, r + 1);
    }
}

/// Pick number `j` from a counter at `counter` falls on slot `i` exactly
/// where `j` is the slot's first turn plus a multiple of `n`.
proof fn lemma_turn(counter: int, j: int, n: int, i: int)
    requires
        0 < n,
        0 <= i < n,
    ensures
        ((counter + j) % n == i) <==> ((j + n - first_turn(counter, n, i)) % n == 0),
{
    let x = counter + j;
    let q1 = x / n;
    let r1 = x % n;
    lemma_fundamental_div_mod(x, n);
    lemma_mod_bound(x, n);
    let y = i - counter;
    let q2 = y / n;
    let d = y % n;
    lemma_fundamental_div_mod(y, n);
    lemma_mod_bound(y, n);
    let t = j + n - d;
    if r1 >= i {
        assert(t == (q1 + q2 + 1) * n + (r1 - i)) by (nonlinear_arith)
            requires
                x == n * q1 + r1,
                y == n * q2 + d,
                x == counter + j,
                y == i - counter,
                t == j + n - d,
        ;
        lemma_fundamental_div_mod_converse(t, n, q1 + q2 + 1, r1 - i);
    } else {
        assert(t == (q1 + q2) * n + (n + r1 - i)) by (nonlinear_arith)
            requires
                x == n * q1 + r1,
                y == n * q2 + d,
                x == counter + j,
                y == i - counter,
                t == j + n - d,
        ;
        lemma_fundamental_div_mod_converse(t, n, q1 + q2, n + r1 - i);
    }
}

/// Round robin takes the backends in order. As long as the counter does not
/// pass its largest value, pick number `k` (counting from zero) falls on the
/// slot at `(counter + k) mod n`, so the slots come up as `c, c+1, ..., n-1,
/// 0, 1, ...` from the slot `c` that the counter first points at. The picks
/// change nothing but the counter.
pub proof fn lemma_round_robin_order(b: BalancerView, k: nat)
    requires
        b.wf(),
        b is RoundRobin,
        b.len() > 0,
        b->RoundRobin_counter + k <= usize::MAX,
    ensures
        b.picked_times(k) == (BalancerView::RoundRobin {
            servers: b->RoundRobin_servers,
            counter: (b->RoundRobin_counter + k) as usize,
        }),
        ({
            let servers = b->RoundRobin_servers;
            let i = (b->RoundRobin_counter + k) % (servers.len() as int);
            &&& 0 <= i < servers.len()
            &&& b.picked_times(k).pick() == Some(
                Pick { addr: servers[i].addr, index: i as usize, generation: servers[i].generation },
            )
        }),
    decreases k,
{
    let servers = b->RoundRobin_servers;
    lemma_mod_bound(b->RoundRobin_counter + k, servers.len() as int);
    if k > 0 {
        lemma_round_robin_order(b, (k - 1) as nat);
    }
}

/// Under round robin, the number of the first `k` picks that fall on slot
/// `i`, in closed form.
pub proof fn lemma_round_robin_count(b: BalancerView, k: nat, i: usize)
    requires
        b.wf(),
        b is RoundRobin,
        i < b.len(),
        b->RoundRobin_counter + k <= usize::MAX,
    ensures
        b.picks_on(k, i) == (k + b.len() - 1 - first_turn(
            b->RoundRobin_counter as int,
            b.len() as int,
            i as int,
        )) / (b.len() as int),
    decreases k,
{
    let n = b.len() as int;
    let c = b->RoundRobin_counter as int;
    let d = first_turn(c, n, i as int);
    lemma_mod_bound(i - c, n);
    if k == 0 {
        lemma_fundamental_div_mod_converse(n - 1 - d, n, 0, n - 1 - d);
    } else {
        let j = (k - 1) as nat;
        lemma_round_robin_count(b, j, i);
        lemma_round_robin_order(b, j);
        lemma_turn(c, j as int, n, i as int);
        lemma_div_step(j + n - 1 - d, n);
    }
}

/// Round robin is fair. Of `k` picks in a row, with no release in between
/// and a counter that does not pass its largest value, every one of the `n`
/// backends gets `k / n` rounded down or rounded up: never fewer than
/// `floor(k / n)`, never more than one above it, and exactly `k / n` where
/// `n` divides `k`.
pub proof fn lemma_round_robin_fair(b: BalancerView, k: nat, i: usize)
    requires
        b.wf(),
        b is RoundRobin,
        i < b.len(),
        b->RoundRobin_counter + k <= usize::MAX,
    ensures
        k / b.len() <= b.picks_on(k, i) <= k / b.len() + 1,
        k % b.len() == 0 ==> b.picks_on(k, i) == k / b.len(),
{
    let n = b.len() as int;
    let c = b->RoundRobin_counter as int;
    let d = first_turn(c, n, i as int);
    let e = n - 1 - d;
    lemma_mod_bound(i - c, n);
    lemma_round_robin_count(b, k, i);
    let q = (k as int) / n;
    let r = (k as int) % n;
    lemma_fundamental_div_mod(k as int, n);
    lemma_mod_bound(k as int, n);
    lemma_div_is_ordered(k as int, k + e, n);
    if r + e < n {
        assert(k + e == q * n + (r + e)) by (nonlinear_arith)
            requires
                k == n * q + r,
        ;
        lemma_fundamental_div_mod_converse(k + e, n, q, r + e);
    } else {
        assert(k + e == (q + 1) * n + (r + e - n)) by (nonlinear_arith)
            requires
                k == n * q + r,
        ;
        lemma_fundamental_div_mod_converse(k + e, n, q + 1, r + e - n);
    }
}

} // verus!
