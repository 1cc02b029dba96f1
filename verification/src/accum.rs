//! The area accumulator: propagate intrinsic cell areas downstream through
//! the flow graph in one seed-and-walk pass. An in-degree counter is built
//! first; every cell without upstream contributors seeds a walk; each walk
//! deposits the current cell's accumulated area on its flow target and
//! continues only through the last contributor to arrive, so each cell is
//! visited exactly once over all walks. The result is proved to be exactly
//! the upstream-area sum `fin` of the flow graph, for every cell.

use vstd::prelude::*;

use crate::graph::{
    acyclic, fin, flows_into, is_sink, lemma_downset_shrinks, lemma_fin_bounds, lemma_fin_local,
    lemma_upset_shrinks, downset, upset, wf_flow,
};
use crate::router::{areas_of, flow_of, FlowNode};
use crate::sums::{
    lemma_sum_change_one, lemma_sum_ext, lemma_sum_ge_single, lemma_sum_le, lemma_sum_nonneg,
    lemma_sum_pos_witness, lemma_sum_zero, sum_over,
};

verus! {

/// Total intrinsic area of a routed field.
pub open spec fn areas_total(areas: Seq<u64>) -> int {
    sum_over(areas.len(), |u: int| areas[u] as int)
}

/// Number of direct contributors of `c` in the whole flow graph.
pub open spec fn feeder_count(flow: Seq<usize>, c: int) -> int {
    sum_over(
        flow.len(),
        |u: int| if flows_into(flow, u, c) {
            1
        } else {
            0
        },
    )
}

/// Number of direct contributors of `c` among the first `k` cells.
pub open spec fn feeder_prefix(flow: Seq<usize>, c: int, k: nat) -> int {
    sum_over(
        k,
        |u: int| if flows_into(flow, u, c) {
            1
        } else {
            0
        },
    )
}

/// Number of direct contributors of `c` that have not yet delivered their
/// accumulated area.
pub open spec fn undelivered(flow: Seq<usize>, delivered: Set<int>, c: int) -> int {
    sum_over(
        flow.len(),
        |u: int| if flows_into(flow, u, c) && !delivered.contains(u) {
            1
        } else {
            0
        },
    )
}

/// Drainage area received by `c` so far: the full drainage areas of its
/// contributors that have already delivered.
pub open spec fn received(flow: Seq<usize>, areas: Seq<u64>, delivered: Set<int>, c: int) -> int {
    sum_over(
        flow.len(),
        |u: int| if delivered.contains(u) && flows_into(flow, u, c) {
            fin(flow, areas, u)
        } else {
            0
        },
    )
}

/// The joint state of the accumulator pass. `fired` holds the cells whose
/// own area has been added (their slot is complete); `delivered` holds the
/// fired non-sinks, which have pushed their total downstream.
spec fn walk_state(
    flow: Seq<usize>,
    areas: Seq<u64>,
    acc: Seq<u64>,
    deg: Seq<usize>,
    fired: Set<int>,
    delivered: Set<int>,
) -> bool {
    &&& acc.len() == flow.len()
    &&& deg.len() == flow.len()
    &&& forall|u: int| #[trigger] delivered.contains(u) ==> fired.contains(u)
    &&& forall|u: int| #[trigger] fired.contains(u) ==> 0 <= u < flow.len()
    &&& forall|u: int|
        #[trigger] fired.contains(u) && !is_sink(flow, u) ==> delivered.contains(u)
    &&& forall|c: int, u: int|
        #[trigger] fired.contains(c) && #[trigger] flows_into(flow, u, c) ==> delivered.contains(u)
    &&& forall|c: int|
        #[trigger] fired.contains(c) ==> acc[c] as int == fin(flow, areas, c)
    &&& forall|c: int|
        0 <= c < flow.len() && !fired.contains(c) ==> acc[c] as int == received(
            flow,
            areas,
            delivered,
            c,
        )
    &&& forall|c: int|
        0 <= c < flow.len() ==> (((#[trigger] deg[c]) == 0) <==> feeder_count(flow, c) == 0)
}

/// The in-degree slots agree with the not-yet-delivered contributor counts,
/// for the unfired cells other than `cur`.
spec fn deg_state(
    flow: Seq<usize>,
    deg: Seq<usize>,
    fired: Set<int>,
    delivered: Set<int>,
    cur: int,
) -> bool {
    forall|c: int|
        0 <= c < flow.len() && !fired.contains(c) && c != cur ==> (#[trigger] deg[c]) as int
            == undelivered(flow, delivered, c)
}

/// When every contributor of `c` has delivered, what `c` has received is
/// its full drainage area short of its own intrinsic area.
proof fn lemma_received_complete(flow: Seq<usize>, areas: Seq<u64>, delivered: Set<int>, c: int)
    requires
        wf_flow(flow),
        acyclic(flow),
        areas.len() == flow.len(),
        0 <= c < flow.len(),
        forall|u: int| #[trigger] flows_into(flow, u, c) ==> delivered.contains(u),
    ensures
        received(flow, areas, delivered, c) == fin(flow, areas, c) - areas[c],
{
    lemma_fin_local(flow, areas, c);
    lemma_sum_ext(
        flow.len(),
        |u: int| if delivered.contains(u) && flows_into(flow, u, c) {
            fin(flow, areas, u)
        } else {
            0
        },
        |u: int| if flows_into(flow, u, c) {
            fin(flow, areas, u)
        } else {
            0
        },
    );
}

/// What a cell has received so far never exceeds its full drainage area
/// short of its own intrinsic area, and is never negative.
proof fn lemma_received_bounds(flow: Seq<usize>, areas: Seq<u64>, delivered: Set<int>, c: int)
    requires
        wf_flow(flow),
        acyclic(flow),
        areas.len() == flow.len(),
        0 <= c < flow.len(),
    ensures
        0 <= received(flow, areas, delivered, c) <= fin(flow, areas, c) - areas[c],
{
    let n = flow.len();
    let rec = |u: int| if delivered.contains(u) && flows_into(flow, u, c) {
        fin(flow, areas, u)
    } else {
        0
    };
    let fins = |u: int| if flows_into(flow, u, c) {
        fin(flow, areas, u)
    } else {
        0
    };
    assert forall|u: int| 0 <= u < n implies 0 <= #[trigger] rec(u) && rec(u) <= fins(u) by {
        if flows_into(flow, u, c) {
            lemma_fin_bounds(flow, areas, u);
        }
    }
    lemma_sum_nonneg(n, rec);
    lemma_sum_le(n, rec, fins);
    lemma_fin_local(flow, areas, c);
}

/// A zero undelivered count means every contributor has delivered.
proof fn lemma_undelivered_zero(flow: Seq<usize>, delivered: Set<int>, c: int)
    requires
        undelivered(flow, delivered, c) == 0,
    ensures
        forall|u: int| #[trigger] flows_into(flow, u, c) ==> delivered.contains(u),
{
    let n = flow.len();
    let f = |u: int| if flows_into(flow, u, c) && !delivered.contains(u) {
        1int
    } else {
        0
    };
    assert forall|u: int| #[trigger] flows_into(flow, u, c) implies delivered.contains(u) by {
        if !delivered.contains(u) {
            assert(forall|i: int| 0 <= i < n ==> #[trigger] f(i) >= 0);
            lemma_sum_ge_single(n, f, u);
        }
    }
}

/// Every cell is fired once all walks have run: a cell with no contributor
/// was a seed, and any other cell is fired by the last of its contributors.
proof fn lemma_walks_cover(flow: Seq<usize>, fired: Set<int>, delivered: Set<int>, c: int)
    requires
        wf_flow(flow),
        acyclic(flow),
        0 <= c < flow.len(),
        forall|u: int| #[trigger] delivered.contains(u) ==> fired.contains(u),
        forall|u: int|
            #[trigger] fired.contains(u) && !is_sink(flow, u) ==> delivered.contains(u),
        forall|x: int|
            0 <= x < flow.len() && feeder_count(flow, x) == 0 ==> #[trigger] fired.contains(x),
        forall|x: int|
            0 <= x < flow.len() && !(#[trigger] fired.contains(x)) && feeder_count(flow, x) != 0
                ==> undelivered(flow, delivered, x) != 0,
    ensures
        fired.contains(c),
    decreases upset(flow, c).len(),
{
    if !fired.contains(c) {
        assert(feeder_count(flow, c) != 0);
        assert(undelivered(flow, delivered, c) != 0);
        let n = flow.len();
        let f = |u: int| if flows_into(flow, u, c) && !delivered.contains(u) {
            1int
        } else {
            0
        };
        assert(forall|i: int| 0 <= i < n ==> #[trigger] f(i) >= 0);
        lemma_sum_nonneg(n, f);
        lemma_sum_pos_witness(n, f);
        let u = choose|u: int| 0 <= u < n && #[trigger] f(u) > 0;
        assert(flows_into(flow, u, c) && !delivered.contains(u));
        assert(!is_sink(flow, u));
        assert(!fired.contains(u));
        lemma_upset_shrinks(flow, c, u);
        lemma_walks_cover(flow, fired, delivered, u);
    }
}

/// Accumulate the drainage area of every cell in one seed-and-walk pass
/// over the routed flow graph. The result at every index is exactly the
/// total upstream area `fin` of that cell, provided the graph is acyclic
/// and the total area fits the word size.
pub fn accumulate_area(nodes: &Vec<FlowNode>) -> (acc: Vec<u64>)
    requires
        wf_flow(flow_of(nodes@)),
        acyclic(flow_of(nodes@)),
        areas_total(areas_of(nodes@)) <= u64::MAX,
    ensures
        acc@.len() == nodes@.len(),
        forall|c: int|
            0 <= c < nodes@.len() ==> (#[trigger] acc@[c]) as int == fin(
                flow_of(nodes@),
                areas_of(nodes@),
                c,
            ),
{
    let ghost flow = flow_of(nodes@);
    let ghost areas = areas_of(nodes@);
    let n = nodes.len();

    let mut deg: Vec<usize> = Vec::new();
    let mut i: usize = 0;
    while i < n
        invariant
            i <= n,
            deg@.len() == i,
            forall|c: int| 0 <= c < i ==> (#[trigger] deg@[c]) == 0,
        decreases n - i,
    {
        deg.push(0);
        i = i + 1;
    }

    let mut i: usize = 0;
    while i < n
        invariant
            n == nodes@.len(),
            flow == flow_of(nodes@),
            wf_flow(flow),
            i <= n,
            deg@.len() == n,
            forall|c: int|
                0 <= c < n ==> (#[trigger] deg@[c]) as int == feeder_prefix(flow, c, i as nat),
            forall|c: int| 0 <= c < n ==> (#[trigger] deg@[c]) <= i,
        decreases n - i,
    {
        proof {
            assert forall|c: int| 0 <= c < n implies feeder_prefix(flow, c, (i + 1) as nat)
                == feeder_prefix(flow, c, i as nat) + (if flows_into(flow, i as int, c) {
                1int
            } else {
                0
            }) by {
            }
        }
        let t = nodes[i].flow_to;
        proof {
            assert(flow[i as int] == t);
        }
        if t != i {
            let d = deg[t];
            deg.set(t, d + 1);
        }
        i = i + 1;
    }
    proof {
        assert forall|c: int| 0 <= c < n implies (#[trigger] deg@[c]) as int == undelivered(
            flow,
            Set::empty(),
            c,
        ) && (deg@[c] == 0 <==> feeder_count(flow, c) == 0) by {
            lemma_sum_ext(
                flow.len(),
                |u: int| if flows_into(flow, u, c) {
                    1int
                } else {
                    0
                },
                |u: int| if flows_into(flow, u, c) && !Set::<int>::empty().contains(u) {
                    1int
                } else {
                    0
                },
            );
        }
    }

    let mut acc: Vec<u64> = Vec::new();
    let mut i: usize = 0;
    while i < n
        invariant
            i <= n,
            acc@.len() == i,
            forall|c: int| 0 <= c < i ==> (#[trigger] acc@[c]) == 0,
        decreases n - i,
    {
        acc.push(0);
        i = i + 1;
    }

    let ghost mut fired: Set<int> = Set::empty();
    let ghost mut delivered: Set<int> = Set::empty();
    proof {
        assert forall|c: int| 0 <= c < n && !fired.contains(c) implies acc@[c] as int == received(
            flow,
            areas,
            delivered,
            c,
        ) by {
            lemma_sum_zero(
                flow.len(),
                |u: int| if delivered.contains(u) && flows_into(flow, u, c) {
                    fin(flow, areas, u)
                } else {
                    0
                },
            );
        }
    }

    let mut o: usize = 0;
    while o < n
        invariant
            n == nodes@.len(),
            flow == flow_of(nodes@),
            areas == areas_of(nodes@),
            wf_flow(flow),
            acyclic(flow),
            areas_total(areas) <= u64::MAX,
            o <= n,
            walk_state(flow, areas, acc@, deg@, fired, delivered),
            deg_state(flow, deg@, fired, delivered, -1),
            forall|x: int|
                0 <= x < o && feeder_count(flow, x) == 0 ==> #[trigger] fired.contains(x),
            forall|x: int|
                #[trigger] fired.contains(x) && feeder_count(flow, x) == 0 ==> x < o,
        decreases n - o,
    {
        let start = deg[o] == 0;
        if start {
            proof {
                assert(feeder_count(flow, o as int) == 0);
                assert(!fired.contains(o as int));
                lemma_undelivered_zero(flow, delivered, o as int);
                assert(undelivered(flow, delivered, o as int) == 0) by {
                    lemma_sum_zero(
                        flow.len(),
                        |u: int| if flows_into(flow, u, o as int) && !delivered.contains(u) {
                            1int
                        } else {
                            0
                        },
                    );
                }
            }
            let mut cur: usize = o;
            loop
                invariant_except_break
                    n == nodes@.len(),
                    flow == flow_of(nodes@),
                    areas == areas_of(nodes@),
                    wf_flow(flow),
                    acyclic(flow),
                    areas_total(areas) <= u64::MAX,
                    o < n,
                    cur < n,
                    !fired.contains(cur as int),
                    (forall|u: int|
                        #[trigger] flows_into(flow, u, cur as int) ==> delivered.contains(u)),
                    walk_state(flow, areas, acc@, deg@, fired, delivered),
                    deg_state(flow, deg@, fired, delivered, cur as int),
                    fired.contains(o as int) || cur == o,
                    cur == o || feeder_count(flow, cur as int) != 0,
                    (forall|x: int|
                        0 <= x < o && feeder_count(flow, x) == 0 ==> #[trigger] fired.contains(
                            x,
                        )),
                    (forall|x: int|
                        #[trigger] fired.contains(x) && feeder_count(flow, x) == 0 ==> x <= o),
                ensures
                    n == nodes@.len(),
                    walk_state(flow, areas, acc@, deg@, fired, delivered),
                    deg_state(flow, deg@, fired, delivered, -1),
                    fired.contains(o as int),
                    (forall|x: int|
                        0 <= x < o && feeder_count(flow, x) == 0 ==> #[trigger] fired.contains(
                            x,
                        )),
                    (forall|x: int|
                        #[trigger] fired.contains(x) && feeder_count(flow, x) == 0 ==> x <= o),
                decreases downset(flow, cur as int).len(),
            {
                let ghost fired0 = fired;
                let ghost delivered0 = delivered;
                let ghost acc0 = acc@;

                // fire `cur`: its upstream total is complete, add its own area
                proof {
                    lemma_received_complete(flow, areas, delivered, cur as int);
                    lemma_fin_bounds(flow, areas, cur as int);
                }
                let a = acc[cur];
                let own = nodes[cur].area;
                proof {
                    assert(own == areas[cur as int]);
                    assert(a as int + own as int == fin(flow, areas, cur as int));
                    assert(fin(flow, areas, cur as int) <= areas_total(areas));
                }
                acc.set(cur, a + own);
                proof {
                    fired = fired.insert(cur as int);
                    assert forall|c: int|
                        0 <= c < n && !fired.contains(c) implies acc@[c] as int == received(
                        flow,
                        areas,
                        delivered,
                        c,
                    ) by {
                        assert(acc@[c] == acc0[c]);
                    }
                }

                let t = nodes[cur].flow_to;
                proof {
                    assert(flow[cur as int] == t);
                }
                if t == cur {
                    // sink: the walk ends here
                    break;
                }

                // deliver the finished total downstream
                proof {
                    assert(!is_sink(flow, cur as int));
                    assert(flows_into(flow, cur as int, t as int));
                    if fired.contains(t as int) {
                        assert(delivered.contains(cur as int));
                        assert(fired0.contains(cur as int));
                        assert(false);
                    }
                    lemma_received_bounds(flow, areas, delivered.insert(cur as int), t as int);
                    lemma_fin_bounds(flow, areas, t as int);
                    lemma_sum_change_one(
                        flow.len(),
                        |u: int| if delivered.contains(u) && flows_into(flow, u, t as int) {
                            fin(flow, areas, u)
                        } else {
                            0
                        },
                        |u: int| if delivered.insert(cur as int).contains(u) && flows_into(
                            flow,
                            u,
                            t as int,
                        ) {
                            fin(flow, areas, u)
                        } else {
                            0
                        },
                        cur as int,
                    );
                }
                let carried = acc[cur];
                let at = acc[t];
                proof {
                    assert(carried as int == fin(flow, areas, cur as int));
                    assert(at as int == received(flow, areas, delivered, t as int));
                    assert(at as int + carried as int == received(
                        flow,
                        areas,
                        delivered.insert(cur as int),
                        t as int,
                    ));
                    assert(at as int + carried as int <= fin(flow, areas, t as int) - areas[t as int]);
                    assert(fin(flow, areas, t as int) <= areas_total(areas));
                }
                acc.set(t, at + carried);
                proof {
                    delivered = delivered.insert(cur as int);
                    // received and undelivered counts change only at `t`
                    assert forall|c: int|
                        0 <= c < n && !fired.contains(c) && c != t as int implies acc@[c] as int
                        == received(flow, areas, delivered, c) by {
                        lemma_sum_ext(
                            flow.len(),
                            |u: int| if delivered0.contains(u) && flows_into(flow, u, c) {
                                fin(flow, areas, u)
                            } else {
                                0
                            },
                            |u: int| if delivered.contains(u) && flows_into(flow, u, c) {
                                fin(flow, areas, u)
                            } else {
                                0
                            },
                        );
                    }
                    assert forall|c: int|
                        0 <= c < n && !fired.contains(c) && c != t as int && c != cur as int
                        implies (#[trigger] deg@[c]) as int == undelivered(flow, delivered, c) by {
                        lemma_sum_ext(
                            flow.len(),
                            |u: int| if flows_into(flow, u, c) && !delivered0.contains(u) {
                                1int
                            } else {
                                0
                            },
                            |u: int| if flows_into(flow, u, c) && !delivered.contains(u) {
                                1int
                            } else {
                                0
                            },
                        );
                    }
                    lemma_sum_change_one(
                        flow.len(),
                        |u: int| if flows_into(flow, u, t as int) && !delivered0.contains(u) {
                            1int
                        } else {
                            0
                        },
                        |u: int| if flows_into(flow, u, t as int) && !delivered.contains(u) {
                            1int
                        } else {
                            0
                        },
                        cur as int,
                    );
                    assert(undelivered(flow, delivered, t as int) == undelivered(
                        flow,
                        delivered0,
                        t as int,
                    ) - 1);
                }
                let dt = deg[t];
                proof {
                    assert(dt as int == undelivered(flow, delivered0, t as int));
                    assert(undelivered(flow, delivered, t as int) >= 0) by {
                        lemma_sum_nonneg(
                            flow.len(),
                            |u: int| if flows_into(flow, u, t as int) && !delivered.contains(u) {
                                1int
                            } else {
                                0
                            },
                        );
                    }
                    assert(dt >= 1);
                }
                if dt > 1 {
                    deg.set(t, dt - 1);
                    break;
                }
                proof {
                    assert(undelivered(flow, delivered, t as int) == 0);
                    lemma_undelivered_zero(flow, delivered, t as int);
                    lemma_downset_shrinks(flow, cur as int);
                    let fc = |u: int| if flows_into(flow, u, t as int) {
                        1int
                    } else {
                        0
                    };
                    assert(forall|i: int| 0 <= i < flow.len() ==> #[trigger] fc(i) >= 0);
                    assert(fc(cur as int) == 1);
                    lemma_sum_ge_single(flow.len(), fc, cur as int);
                    assert(feeder_count(flow, t as int) != 0);
                }
                cur = t;
            }
        }
        o = o + 1;
    }

    proof {
        assert forall|c: int| 0 <= c < n implies (#[trigger] acc@[c]) as int == fin(
            flow,
            areas,
            c,
        ) by {
            assert forall|x: int|
                0 <= x < flow.len() && !(#[trigger] fired.contains(x)) && feeder_count(flow, x)
                    != 0 implies undelivered(flow, delivered, x) != 0 by {
                assert(deg@[x] as int == undelivered(flow, delivered, x));
            }
            lemma_walks_cover(flow, fired, delivered, c);
        }
    }
    acc
}

} // verus!
