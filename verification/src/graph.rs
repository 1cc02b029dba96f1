//! The flow graph: every cell names one flow target (itself at a sink), so
//! iterating the target map walks downstream. This module defines that walk,
//! reachability along it, the accumulated drainage area of a cell as the sum
//! of areas over its upstream set, and proves the facts the accumulator and
//! the public laws rest on: termination at a sink, uniqueness of the last
//! step into a cell, the local drainage equation, and conservation of area.

use vstd::prelude::*;

use crate::sums::{sum_over, lemma_sum_ext, lemma_sum_add, lemma_sum_le, lemma_sum_nonneg, lemma_sum_zero, lemma_sum_single, lemma_sum_ge_single, lemma_sum_swap};
use vstd::set_lib::{lemma_int_range, lemma_len_subset, set_int_range};

verus! {

/// Every flow target is a valid cell index.
pub open spec fn wf_flow(flow: Seq<usize>) -> bool {
    forall|i: int| 0 <= i < flow.len() ==> (#[trigger] flow[i]) < flow.len()
}

/// The cell reached from `v` after `k` downstream steps.
pub open spec fn iterf(flow: Seq<usize>, v: int, k: nat) -> int
    decreases k,
{
    if k == 0 {
        v
    } else {
        flow[iterf(flow, v, (k - 1) as nat)] as int
    }
}

/// A sink flows to itself.
pub open spec fn is_sink(flow: Seq<usize>, c: int) -> bool {
    flow[c] as int == c
}

/// `c` lies downstream of `u` (in zero or more steps).
pub open spec fn reaches(flow: Seq<usize>, u: int, c: int) -> bool {
    exists|k: nat| iterf(flow, u, k) == c
}

/// `u` flows directly into `c` and is not `c` itself.
pub open spec fn flows_into(flow: Seq<usize>, u: int, c: int) -> bool {
    &&& 0 <= u < flow.len()
    &&& flow[u] as int == c
    &&& u != c
}

/// The downstream walk from `v` ends at a sink within `len` steps.
pub open spec fn terminates(flow: Seq<usize>, v: int) -> bool {
    exists|k: nat| k <= flow.len() && is_sink(flow, #[trigger] iterf(flow, v, k))
}

/// Every cell's downstream walk ends at a sink within `len` steps.
pub open spec fn acyclic(flow: Seq<usize>) -> bool {
    forall|v: int| 0 <= v < flow.len() ==> #[trigger] terminates(flow, v)
}

/// The upstream set of `c`: all cells whose walk passes through `c`
/// (including `c` itself).
pub open spec fn upset(flow: Seq<usize>, c: int) -> Set<int> {
    Set::new(|u: int| 0 <= u < flow.len() && reaches(flow, u, c))
}

/// The downstream set of `v`: all cells its walk passes through.
pub open spec fn downset(flow: Seq<usize>, v: int) -> Set<int> {
    Set::new(|u: int| 0 <= u < flow.len() && reaches(flow, v, u))
}

/// Total upstream drainage area of `c`: the intrinsic areas of all cells
/// that reach `c`, including `c` itself.
pub open spec fn fin(flow: Seq<usize>, areas: Seq<u64>, c: int) -> int {
    sum_over(
        flow.len(),
        |u: int| if reaches(flow, u, c) {
            areas[u] as int
        } else {
            0
        },
    )
}

pub proof fn lemma_iter_in_range(flow: Seq<usize>, v: int, k: nat)
    requires
        wf_flow(flow),
        0 <= v < flow.len(),
    ensures
        0 <= iterf(flow, v, k) < flow.len(),
    decreases k,
{
    if k > 0 {
        lemma_iter_in_range(flow, v, (k - 1) as nat);
    }
}

pub proof fn lemma_iter_add(flow: Seq<usize>, v: int, a: nat, b: nat)
    ensures
        iterf(flow, v, a + b) == iterf(flow, iterf(flow, v, a), b),
    decreases b,
{
    if b > 0 {
        lemma_iter_add(flow, v, a, (b - 1) as nat);
        assert(a + b - 1 == a + ((b - 1) as nat));
    }
}

pub proof fn lemma_sink_absorb(flow: Seq<usize>, s: int, k: nat)
    requires
        is_sink(flow, s),
    ensures
        iterf(flow, s, k) == s,
    decreases k,
{
    if k > 0 {
        lemma_sink_absorb(flow, s, (k - 1) as nat);
    }
}

/// A single downstream step.
pub proof fn lemma_iter_one(flow: Seq<usize>, v: int)
    ensures
        iterf(flow, v, 1) == flow[v] as int,
{
    reveal_with_fuel(iterf, 2);
}

/// Iterating a cycle any number of times returns to the start.
proof fn lemma_cycle_pow(flow: Seq<usize>, u: int, m: nat, t: nat)
    requires
        iterf(flow, u, m) == u,
    ensures
        iterf(flow, u, t * m) == u,
    decreases t,
{
    if t > 0 {
        lemma_cycle_pow(flow, u, m, (t - 1) as nat);
        assert(((t - 1) as nat) * m + m == t * m) by (nonlinear_arith)
            requires t >= 1,
        ;
        lemma_iter_add(flow, u, ((t - 1) as nat) * m, m);
    } else {
        assert(t * m == 0) by (nonlinear_arith)
            requires t == 0,
        ;
    }
}

/// Two cells on each other's downstream walks are the same cell.
pub proof fn lemma_reaches_antisym(flow: Seq<usize>, u: int, c: int)
    requires
        wf_flow(flow),
        acyclic(flow),
        0 <= u < flow.len(),
        reaches(flow, u, c),
        reaches(flow, c, u),
    ensures
        u == c,
{
    let p = choose|p: nat| iterf(flow, u, p) == c;
    let q = choose|q: nat| iterf(flow, c, q) == u;
    lemma_iter_add(flow, u, p, q);
    if p == 0 {
    } else {
        let m = p + q;
        assert(iterf(flow, u, m) == u);
        assert(terminates(flow, u));
        let k = choose|k: nat| k <= flow.len() && is_sink(flow, #[trigger] iterf(flow, u, k));
        let s = iterf(flow, u, k);
        lemma_cycle_pow(flow, u, m, k);
        assert(k * m >= k) by (nonlinear_arith)
            requires m >= 1, k >= 0,
        ;
        lemma_iter_add(flow, u, k, (k * m - k) as nat);
        lemma_sink_absorb(flow, s, (k * m - k) as nat);
        assert(u == s);
        lemma_sink_absorb(flow, u, p);
    }
}

/// Any walk that arrives at `c` from elsewhere passes through some direct
/// contributor of `c`.
proof fn lemma_last_step(flow: Seq<usize>, u: int, c: int, k: nat)
    requires
        wf_flow(flow),
        0 <= u < flow.len(),
        iterf(flow, u, k) == c,
        u != c,
    ensures
        exists|w: int| flows_into(flow, w, c) && reaches(flow, u, w),
    decreases k,
{
    let w = iterf(flow, u, (k - 1) as nat);
    lemma_iter_in_range(flow, u, (k - 1) as nat);
    if w == c {
        lemma_last_step(flow, u, c, (k - 1) as nat);
    } else {
        assert(flows_into(flow, w, c) && reaches(flow, u, w));
    }
}

/// The contributor through which a walk enters `c` is unique.
proof fn lemma_last_step_unique(flow: Seq<usize>, u: int, w1: int, w2: int, c: int)
    requires
        wf_flow(flow),
        acyclic(flow),
        0 <= u < flow.len(),
        flows_into(flow, w1, c),
        flows_into(flow, w2, c),
        reaches(flow, u, w1),
        reaches(flow, u, w2),
    ensures
        w1 == w2,
{
    let k1 = choose|k: nat| iterf(flow, u, k) == w1;
    let k2 = choose|k: nat| iterf(flow, u, k) == w2;
    if k1 <= k2 {
        lemma_step_through(flow, u, w1, w2, c, k1, k2);
    } else {
        lemma_step_through(flow, u, w2, w1, c, k2, k1);
    }
}

/// Helper for the uniqueness of the last step, ordered case.
proof fn lemma_step_through(flow: Seq<usize>, u: int, wa: int, wb: int, c: int, ka: nat, kb: nat)
    requires
        wf_flow(flow),
        acyclic(flow),
        0 <= u < flow.len(),
        flows_into(flow, wa, c),
        flows_into(flow, wb, c),
        iterf(flow, u, ka) == wa,
        iterf(flow, u, kb) == wb,
        ka <= kb,
    ensures
        wa == wb,
{
    lemma_iter_add(flow, u, ka, (kb - ka) as nat);
    let d = (kb - ka) as nat;
    assert(iterf(flow, wa, d) == wb);
    if d == 0 {
    } else {
        lemma_iter_add(flow, wa, 1, (d - 1) as nat);
        lemma_iter_one(flow, wa);
        assert(iterf(flow, wa, 1) == c);
        assert(iterf(flow, c, (d - 1) as nat) == wb);
        assert(reaches(flow, c, wb));
        lemma_iter_one(flow, wb);
        assert(iterf(flow, wb, 1) == c);
        assert(reaches(flow, wb, c));
        lemma_reaches_antisym(flow, wb, c);
        assert(false);
    }
}

/// The upstream set of a contributor of `c` sits strictly inside the
/// upstream set of `c`.
pub proof fn lemma_upset_shrinks(flow: Seq<usize>, c: int, w: int)
    requires
        wf_flow(flow),
        acyclic(flow),
        0 <= c < flow.len(),
        flows_into(flow, w, c),
    ensures
        upset(flow, w).finite(),
        upset(flow, c).finite(),
        upset(flow, w).len() < upset(flow, c).len(),
{
    let n = flow.len() as int;
    lemma_int_range(0, n);
    lemma_len_subset(upset(flow, c), set_int_range(0, n));
    assert forall|u: int| upset(flow, w).contains(u) implies upset(flow, c).remove(c).contains(
        u,
    ) by {
        let k = choose|k: nat| iterf(flow, u, k) == w;
        lemma_iter_add(flow, u, k, 1);
        assert(iterf(flow, u, k + 1) == c);
        if u == c {
            assert(reaches(flow, c, w));
            lemma_iter_one(flow, w);
            assert(iterf(flow, w, 1) == c);
            assert(reaches(flow, w, c));
            lemma_reaches_antisym(flow, w, c);
            assert(false);
        }
    }
    lemma_len_subset(upset(flow, w), upset(flow, c).remove(c));
    assert(iterf(flow, c, 0) == c);
    assert(upset(flow, c).contains(c));
    assert(upset(flow, c).remove(c).len() == upset(flow, c).len() - 1);
}

/// One downstream step strictly shrinks the downstream set.
pub proof fn lemma_downset_shrinks(flow: Seq<usize>, v: int)
    requires
        wf_flow(flow),
        acyclic(flow),
        0 <= v < flow.len(),
        !is_sink(flow, v),
    ensures
        downset(flow, flow[v] as int).finite(),
        downset(flow, v).finite(),
        downset(flow, flow[v] as int).len() < downset(flow, v).len(),
{
    let n = flow.len() as int;
    let t = flow[v] as int;
    lemma_int_range(0, n);
    lemma_len_subset(downset(flow, v), set_int_range(0, n));
    assert forall|u: int| downset(flow, t).contains(u) implies downset(flow, v).remove(v).contains(
        u,
    ) by {
        let k = choose|k: nat| iterf(flow, t, k) == u;
        lemma_iter_one(flow, v);
        assert(iterf(flow, v, 1) == t);
        lemma_iter_add(flow, v, 1, k);
        assert(iterf(flow, v, 1 + k) == u);
        if u == v {
            assert(reaches(flow, t, v));
            assert(iterf(flow, v, 1) == t);
            assert(reaches(flow, v, t));
            lemma_reaches_antisym(flow, v, t);
            assert(false);
        }
    }
    lemma_len_subset(downset(flow, t), downset(flow, v).remove(v));
    assert(iterf(flow, v, 0) == v);
    assert(downset(flow, v).contains(v));
    assert(downset(flow, v).remove(v).len() == downset(flow, v).len() - 1);
}

/// The drainage area of a cell is at least its own area and at most the
/// total area of the field.
pub proof fn lemma_fin_bounds(flow: Seq<usize>, areas: Seq<u64>, c: int)
    requires
        areas.len() == flow.len(),
        0 <= c < flow.len(),
    ensures
        areas[c] <= fin(flow, areas, c),
        fin(flow, areas, c) <= sum_over(flow.len(), |u: int| areas[u] as int),
{
    let n = flow.len();
    let body = |u: int| if reaches(flow, u, c) {
        areas[u] as int
    } else {
        0
    };
    assert(iterf(flow, c, 0) == c);
    assert(body(c) == areas[c] as int);
    lemma_sum_ge_single(n, body, c);
    lemma_sum_le(n, body, |u: int| areas[u] as int);
}

/// The local drainage equation: the drainage area of `c` is its intrinsic
/// area plus the drainage areas of its direct contributors.
pub proof fn lemma_fin_local(flow: Seq<usize>, areas: Seq<u64>, c: int)
    requires
        wf_flow(flow),
        acyclic(flow),
        areas.len() == flow.len(),
        0 <= c < flow.len(),
    ensures
        fin(flow, areas, c) == areas[c] + sum_over(
            flow.len(),
            |u: int| if flows_into(flow, u, c) {
                fin(flow, areas, u)
            } else {
                0
            },
        ),
{
    let n = flow.len();
    let g = |v: int, w: int| if flows_into(flow, w, c) && reaches(flow, v, w) {
        areas[v] as int
    } else {
        0
    };
    let body = |v: int| if reaches(flow, v, c) {
        areas[v] as int
    } else {
        0
    };
    let delta = |v: int| if v == c {
        areas[v] as int
    } else {
        0
    };
    let rows = |v: int| sum_over(n, |w: int| g(v, w));
    let cols = |w: int| sum_over(n, |v: int| g(v, w));
    let fins = |u: int| if flows_into(flow, u, c) {
        fin(flow, areas, u)
    } else {
        0
    };
    assert forall|v: int| 0 <= v < n implies #[trigger] body(v) == delta(v) + rows(v) by {
        if v == c {
            assert(iterf(flow, v, 0) == v);
            assert forall|w: int| 0 <= w < n implies #[trigger] g(v, w) == 0 by {
                if flows_into(flow, w, c) && reaches(flow, v, w) {
                    lemma_iter_one(flow, w);
                    assert(reaches(flow, w, c));
                    lemma_reaches_antisym(flow, w, c);
                }
            }
            lemma_sum_zero(n, |w: int| g(v, w));
        } else if reaches(flow, v, c) {
            let k0 = choose|k: nat| iterf(flow, v, k) == c;
            lemma_last_step(flow, v, c, k0);
            let w0 = choose|w: int| flows_into(flow, w, c) && reaches(flow, v, w);
            assert forall|w: int| 0 <= w < n && w != w0 implies #[trigger] g(v, w) == 0 by {
                if flows_into(flow, w, c) && reaches(flow, v, w) {
                    lemma_last_step_unique(flow, v, w, w0, c);
                }
            }
            lemma_sum_single(n, |w: int| g(v, w), w0);
            assert(g(v, w0) == areas[v] as int);
        } else {
            assert forall|w: int| 0 <= w < n implies #[trigger] g(v, w) == 0 by {
                if flows_into(flow, w, c) && reaches(flow, v, w) {
                    let k = choose|k: nat| iterf(flow, v, k) == w;
                    lemma_iter_add(flow, v, k, 1);
                    lemma_iter_one(flow, w);
                    assert(iterf(flow, v, k + 1) == c);
                }
            }
            lemma_sum_zero(n, |w: int| g(v, w));
        }
    }
    lemma_sum_add(n, delta, rows, body);
    lemma_sum_single(n, delta, c);
    lemma_sum_swap(n, n, g);
    assert forall|w: int| 0 <= w < n implies #[trigger] cols(w) == fins(w) by {
        if flows_into(flow, w, c) {
            lemma_sum_ext(
                n,
                |v: int| g(v, w),
                |v: int| if reaches(flow, v, w) {
                    areas[v] as int
                } else {
                    0
                },
            );
        } else {
            lemma_sum_zero(n, |v: int| g(v, w));
        }
    }
    lemma_sum_ext(n, cols, fins);
}

/// Two sinks on the same downstream walk are the same sink.
proof fn lemma_sink_unique(flow: Seq<usize>, u: int, s1: int, s2: int)
    requires
        is_sink(flow, s1),
        is_sink(flow, s2),
        reaches(flow, u, s1),
        reaches(flow, u, s2),
    ensures
        s1 == s2,
{
    let k1 = choose|k: nat| iterf(flow, u, k) == s1;
    let k2 = choose|k: nat| iterf(flow, u, k) == s2;
    if k1 <= k2 {
        lemma_iter_add(flow, u, k1, (k2 - k1) as nat);
        lemma_sink_absorb(flow, s1, (k2 - k1) as nat);
    } else {
        lemma_iter_add(flow, u, k2, (k1 - k2) as nat);
        lemma_sink_absorb(flow, s2, (k1 - k2) as nat);
    }
}

/// Conservation of area: the total intrinsic area of the field equals the
/// total drainage area collected at the sinks.
pub proof fn lemma_conservation(flow: Seq<usize>, areas: Seq<u64>)
    requires
        wf_flow(flow),
        acyclic(flow),
        areas.len() == flow.len(),
    ensures
        sum_over(flow.len(), |u: int| areas[u] as int) == sum_over(
            flow.len(),
            |c: int| if is_sink(flow, c) {
                fin(flow, areas, c)
            } else {
                0
            },
        ),
{
    let n = flow.len();
    let g = |c: int, u: int| if is_sink(flow, c) && reaches(flow, u, c) {
        areas[u] as int
    } else {
        0
    };
    let sinks = |c: int| if is_sink(flow, c) {
        fin(flow, areas, c)
    } else {
        0
    };
    let rows = |c: int| sum_over(n, |u: int| g(c, u));
    let cols = |u: int| sum_over(n, |c: int| g(c, u));
    assert forall|c: int| 0 <= c < n implies #[trigger] sinks(c) == rows(c) by {
        if is_sink(flow, c) {
            lemma_sum_ext(
                n,
                |u: int| g(c, u),
                |u: int| if reaches(flow, u, c) {
                    areas[u] as int
                } else {
                    0
                },
            );
        } else {
            lemma_sum_zero(n, |u: int| g(c, u));
        }
    }
    lemma_sum_ext(n, sinks, rows);
    lemma_sum_swap(n, n, g);
    assert forall|u: int| 0 <= u < n implies #[trigger] cols(u) == areas[u] as int by {
        assert(terminates(flow, u));
        let k = choose|k: nat| k <= flow.len() && is_sink(flow, #[trigger] iterf(flow, u, k));
        let s = iterf(flow, u, k);
        lemma_iter_in_range(flow, u, k);
        assert forall|c: int| 0 <= c < n && c != s implies #[trigger] g(c, u) == 0 by {
            if is_sink(flow, c) && reaches(flow, u, c) {
                lemma_sink_unique(flow, u, c, s);
            }
        }
        lemma_sum_single(n, |c: int| g(c, u), s);
        assert(g(s, u) == areas[u] as int);
    }
    lemma_sum_ext(n, cols, |u: int| areas[u] as int);
}

/// Flow strictly descends in elevation at every non-sink cell.
pub open spec fn descending(flow: Seq<usize>, elev: Seq<i64>) -> bool {
    forall|u: int|
        0 <= u < flow.len() && (#[trigger] flow[u]) as int != u ==> elev[flow[u] as int] < elev[u]
}

/// The cells strictly lower than `v`.
spec fn lowset(elev: Seq<i64>, v: int) -> Set<int> {
    Set::new(|u: int| 0 <= u < elev.len() && elev[u] < elev[v])
}

/// A walk that strictly descends in elevation must end at a sink after at
/// most as many steps as there are strictly lower cells.
proof fn lemma_descends(flow: Seq<usize>, elev: Seq<i64>, v: int)
    requires
        wf_flow(flow),
        elev.len() == flow.len(),
        descending(flow, elev),
        0 <= v < flow.len(),
    ensures
        lowset(elev, v).finite(),
        (exists|k: nat| k <= lowset(elev, v).len() && is_sink(flow, #[trigger] iterf(flow, v, k))),
    decreases lowset(elev, v).len(),
{
    let n = flow.len();
    lemma_int_range(0, n as int);
    lemma_len_subset(lowset(elev, v), set_int_range(0, n as int));
    if is_sink(flow, v) {
        assert(iterf(flow, v, 0) == v);
    } else {
        let t = flow[v] as int;
        assert(elev[t] < elev[v]);
        assert(lowset(elev, t).subset_of(lowset(elev, v).remove(t)));
        assert(lowset(elev, v).contains(t));
        lemma_len_subset(lowset(elev, t), lowset(elev, v).remove(t));
        assert(lowset(elev, v).remove(t).len() == lowset(elev, v).len() - 1);
        lemma_descends(flow, elev, t);
        let k = choose|k: nat| k <= lowset(elev, t).len() && is_sink(
            flow,
            #[trigger] iterf(flow, t, k),
        );
        lemma_iter_one(flow, v);
        lemma_iter_add(flow, v, 1, k);
        assert(iterf(flow, v, 1 + k) == iterf(flow, t, k));
    }
}

/// Acyclicity from strict descent: when flow only ever moves to strictly
/// lower elevation, every downstream walk reaches a sink within as many
/// steps as there are cells.
pub proof fn lemma_descending_acyclic(flow: Seq<usize>, elev: Seq<i64>)
    requires
        wf_flow(flow),
        elev.len() == flow.len(),
        descending(flow, elev),
    ensures
        acyclic(flow),
{
    let n = flow.len();
    assert forall|v: int| 0 <= v < n implies #[trigger] terminates(flow, v) by {
        lemma_descends(flow, elev, v);
        lemma_int_range(0, n as int);
        lemma_len_subset(lowset(elev, v), set_int_range(0, n as int));
        let k = choose|k: nat| k <= lowset(elev, v).len() && is_sink(
            flow,
            #[trigger] iterf(flow, v, k),
        );
        assert(k <= n && is_sink(flow, iterf(flow, v, k)));
    }
}

} // verus!
