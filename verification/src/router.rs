//! The flow router: for every cell, examine its Voronoi neighbors, discard
//! the ones at equal or higher elevation, and pick the flow target among the
//! rest by the signed slope order, first-encountered winning ties. A cell
//! with no strictly lower neighbor is a sink and flows to itself.

use vstd::prelude::*;

use crate::field::{Cell, CellField, FACTOR_DEN};
use crate::graph::{acyclic, descending, lemma_descending_acyclic, wf_flow};
use crate::numeric::{isqrt_u64, sqrt_floor};

verus! {

/// One routed cell: intrinsic area, the single downhill flow target (the
/// cell's own index at a sink), and the slope magnitude toward it (zero at
/// a sink).
pub struct FlowNode {
    pub area: u64,
    pub flow_to: usize,
    pub slope: u64,
}

/// The flow-target map of a routed field.
pub open spec fn flow_of(nodes: Seq<FlowNode>) -> Seq<usize> {
    Seq::new(nodes.len(), |i: int| nodes[i].flow_to)
}

/// The intrinsic areas of a routed field.
pub open spec fn areas_of(nodes: Seq<FlowNode>) -> Seq<u64> {
    Seq::new(nodes.len(), |i: int| nodes[i].area)
}

/// The elevations of the input field.
pub open spec fn elevations_of(cells: Seq<Cell>) -> Seq<i64> {
    Seq::new(cells.len(), |i: int| cells[i].elevation)
}

/// Elevation decrease from `c` down to `nb`.
pub open spec fn elev_gap(cells: Seq<Cell>, c: int, nb: int) -> int {
    cells[c].elevation - cells[nb].elevation
}

/// Squared distance between the sites of `c` and `nb`.
pub open spec fn site_dist_sq(cells: Seq<Cell>, c: int, nb: int) -> int {
    (cells[c].site_x - cells[nb].site_x) * (cells[c].site_x - cells[nb].site_x) + (cells[c].site_y
        - cells[nb].site_y) * (cells[c].site_y - cells[nb].site_y)
}

/// Whether flow from `c` may enter `nb`: strictly lower elevation only.
pub open spec fn downhill(cells: Seq<Cell>, c: int, nb: int) -> bool {
    cells[nb].elevation < cells[c].elevation
}

/// The signed slope toward a neighbor is `-gap / sqrt(dist)`; the neighbor
/// with the algebraically largest slope wins. `preferred_over(cells, c, a,
/// b)` says the slope toward `a` is strictly larger than the slope toward
/// `b`. Cross-multiplying the squared magnitudes avoids the square roots
/// and agrees with the signed comparison even when a site coincides with
/// the cell's own site (where the real slope degenerates to an infinity).
pub open spec fn preferred_over(cells: Seq<Cell>, c: int, a: int, b: int) -> bool {
    elev_gap(cells, c, a) * elev_gap(cells, c, a) * site_dist_sq(cells, c, b) < elev_gap(
        cells,
        c,
        b,
    ) * elev_gap(cells, c, b) * site_dist_sq(cells, c, a)
}

/// The flow target selected after considering the first `k` neighbors of
/// `c`: the first downhill neighbor encountered, replaced only when a later
/// one is strictly preferred.
pub open spec fn select_prefix(cells: Seq<Cell>, c: int, k: nat) -> Option<int>
    decreases k,
{
    if k == 0 {
        Option::None
    } else {
        let prev = select_prefix(cells, c, (k - 1) as nat);
        let nb = cells[c].neighbors@[k - 1] as int;
        if !downhill(cells, c, nb) {
            prev
        } else {
            match prev {
                Option::None => Option::Some(nb),
                Option::Some(cur) => if preferred_over(cells, c, nb, cur) {
                    Option::Some(nb)
                } else {
                    prev
                },
            }
        }
    }
}

/// The flow target of `c`: the selected neighbor, or `c` itself at a sink.
pub open spec fn chosen_target(cells: Seq<Cell>, c: int) -> int {
    match select_prefix(cells, c, cells[c].neighbors@.len()) {
        Option::Some(nb) => nb,
        Option::None => c,
    }
}

/// The slope magnitude recorded for `c`, in units of `FACTOR_DEN`: the
/// elevation gap over the site distance, zero at sinks and degenerate at
/// coincident sites.
pub open spec fn slope_value(cells: Seq<Cell>, c: int) -> int {
    let t = chosen_target(cells, c);
    if t == c {
        0
    } else {
        let s = sqrt_floor(site_dist_sq(cells, c, t) as nat);
        if s == 0 {
            0
        } else {
            elev_gap(cells, c, t) * FACTOR_DEN / (s as int)
        }
    }
}

/// A selected neighbor is a valid, strictly lower cell of the field.
proof fn lemma_select_valid(cells: Seq<Cell>, c: int, k: nat)
    requires
        0 <= c < cells.len(),
        cells[c].wf(cells.len()),
        k <= cells[c].neighbors@.len(),
    ensures
        (select_prefix(cells, c, k) matches Option::Some(nb) ==> 0 <= nb < cells.len()
            && downhill(cells, c, nb)),
    decreases k,
{
    if k > 0 {
        lemma_select_valid(cells, c, (k - 1) as nat);
    }
}

/// The chosen flow target of a cell is a valid cell of the field, and a
/// strictly lower one unless the cell is a sink.
pub proof fn lemma_chosen_in_range(cells: Seq<Cell>, c: int)
    requires
        0 <= c < cells.len(),
        forall|i: int| 0 <= i < cells.len() ==> (#[trigger] cells[i]).wf(cells.len()),
    ensures
        0 <= chosen_target(cells, c) < cells.len(),
        chosen_target(cells, c) != c ==> downhill(cells, c, chosen_target(cells, c)),
{
    lemma_select_valid(cells, c, cells[c].neighbors@.len());
}

/// Route the elevation field: compute every cell's area, flow target and
/// slope. The result is exactly the first-wins steepest-signed-slope
/// selection, and the flow map it induces is strictly descending, hence
/// acyclic.
pub fn route_flow(field: &CellField) -> (nodes: Vec<FlowNode>)
    requires
        field.wf(),
    ensures
        nodes@.len() == field.cells@.len(),
        forall|c: int|
            0 <= c < field.cells@.len() ==> (#[trigger] nodes@[c]).flow_to as int == chosen_target(
                field.cells@,
                c,
            ),
        forall|c: int|
            0 <= c < field.cells@.len() ==> (#[trigger] nodes@[c]).area == field.cells@[c].area,
        forall|c: int|
            0 <= c < field.cells@.len() ==> (#[trigger] nodes@[c]).slope == slope_value(
                field.cells@,
                c,
            ),
        wf_flow(flow_of(nodes@)),
        descending(flow_of(nodes@), elevations_of(field.cells@)),
        acyclic(flow_of(nodes@)),
{
    let ghost cells = field.cells@;
    let n = field.cells.len();
    let mut nodes: Vec<FlowNode> = Vec::new();
    let mut c: usize = 0;
    while c < n
        invariant
            field.wf(),
            cells == field.cells@,
            n == cells.len(),
            c <= n,
            nodes@.len() == c,
            forall|i: int|
                0 <= i < c ==> (#[trigger] nodes@[i]).flow_to as int == chosen_target(cells, i),
            forall|i: int| 0 <= i < c ==> (#[trigger] nodes@[i]).area == cells[i].area,
            forall|i: int| 0 <= i < c ==> (#[trigger] nodes@[i]).slope == slope_value(cells, i),
        decreases n - c,
    {
        let cell = &field.cells[c];
        let mut best: Option<usize> = Option::None;
        let mut best_gap: u64 = 0;
        let mut best_dsq: u64 = 0;
        let mut j: usize = 0;
        while j < cell.neighbors.len()
            invariant
                field.wf(),
                cells == field.cells@,
                n == cells.len(),
                c < n,
                cell == cells[c as int],
                j <= cell.neighbors@.len(),
                (match select_prefix(cells, c as int, j as nat) {
                    Option::None => best is None,
                    Option::Some(nb) => {
                        &&& best is Some
                        &&& best->0 as int == nb
                        &&& best_gap == elev_gap(cells, c as int, nb)
                        &&& best_dsq == site_dist_sq(cells, c as int, nb)
                    },
                }),
            decreases cell.neighbors@.len() - j,
        {
            proof {
                lemma_select_valid(cells, c as int, j as nat);
                assert(cells[c as int].neighbors@[j as int] < n);
            }
            let nb = cell.neighbors[j];
            let ncell = &field.cells[nb];
            proof {
                assert(cells[c as int].wf(n as nat));
                assert(cells[nb as int].wf(n as nat));
            }
            if ncell.elevation < cell.elevation {
                let gap = (cell.elevation - ncell.elevation) as u64;
                let dx = cell.site_x - ncell.site_x;
                let dy = cell.site_y - ncell.site_y;
                proof {
                    assert(dx * dx >= 0 && dy * dy >= 0) by (nonlinear_arith);
                    assert(dx * dx <= 0x4000_0000_0000_0000 && dy * dy <= 0x4000_0000_0000_0000)
                        by (nonlinear_arith)
                        requires
                            -0x8000_0000 <= dx <= 0x8000_0000,
                            -0x8000_0000 <= dy <= 0x8000_0000,
                    ;
                }
                let dsq = ((dx as i128) * (dx as i128) + (dy as i128) * (dy as i128)) as u64;
                proof {
                    assert(gap == elev_gap(cells, c as int, nb as int));
                    assert(dsq == site_dist_sq(cells, c as int, nb as int));
                }
                let replace: bool = match best {
                    Option::None => true,
                    Option::Some(_) => {
                        proof {
                            let nb0 = select_prefix(cells, c as int, j as nat)->Some_0;
                            assert(cells[nb0].wf(n as nat));
                            assert(best_gap <= 0x8000_0000u64);
                            assert((gap as u128) * (gap as u128) <= 0x4000_0000_0000_0000u128 && (
                            best_gap as u128) * (best_gap as u128) <= 0x4000_0000_0000_0000u128)
                                by (nonlinear_arith)
                                requires
                                    gap <= 0x8000_0000u64,
                                    best_gap <= 0x8000_0000u64,
                            ;
                            assert((gap as u128) * (gap as u128) * (best_dsq as u128)
                                <= 0x4000_0000_0000_0000_0000_0000_0000_0000u128 && (
                            best_gap as u128) * (best_gap as u128) * (dsq as u128)
                                <= 0x4000_0000_0000_0000_0000_0000_0000_0000u128)
                                by (nonlinear_arith)
                                requires
                                    gap <= 0x8000_0000u64,
                                    best_gap <= 0x8000_0000u64,
                                    best_dsq <= 0xFFFF_FFFF_FFFF_FFFFu64,
                                    dsq <= 0xFFFF_FFFF_FFFF_FFFFu64,
                            ;
                        }
                        (gap as u128) * (gap as u128) * (best_dsq as u128) < (best_gap as u128) * (
                        best_gap as u128) * (dsq as u128)
                    },
                };
                if replace {
                    best = Option::Some(nb);
                    best_gap = gap;
                    best_dsq = dsq;
                }
            }
            j += 1;
        }
        proof {
            lemma_select_valid(cells, c as int, cell.neighbors@.len());
        }
        let node = match best {
            Option::None => FlowNode { area: cell.area, flow_to: c, slope: 0 },
            Option::Some(nb) => {
                let s = isqrt_u64(best_dsq);
                let slope: u64 = if s == 0 {
                    0
                } else {
                    (best_gap * FACTOR_DEN) / s
                };
                FlowNode { area: cell.area, flow_to: nb, slope }
            },
        };
        nodes.push(node);
        c += 1;
    }
    proof {
        let flow = flow_of(nodes@);
        let elev = elevations_of(cells);
        assert forall|u: int|
            0 <= u < flow.len() && (#[trigger] flow[u]) as int != u implies elev[flow[u] as int]
            < elev[u] by {
            lemma_select_valid(cells, u, cells[u].neighbors@.len());
        }
        assert forall|i: int| 0 <= i < flow.len() implies (#[trigger] flow[i]) < flow.len() by {
            lemma_select_valid(cells, i, cells[i].neighbors@.len());
        }
        lemma_descending_acyclic(flow, elev);
    }
    nodes
}

} // verus!
