//! The drainage map: the composition root. Building it routes the
//! elevation field, accumulates drainage area in one topological pass, and
//! synthesizes a river stream for every non-sink cell; the result is one
//! drainage record per non-sink cell, in field order. The map carries two
//! tunable width factors and answers the river collision query; the
//! factors are not part of the persisted data.

use vstd::prelude::*;

use crate::accum::accumulate_area;
use crate::field::{CellField, CellId, COORD_LIMIT, FACTOR_DEN, SCALE_LIMIT};
use crate::graph::{acyclic, descending, fin, is_sink, lemma_conservation, lemma_descending_acyclic, lemma_fin_bounds, wf_flow};
use crate::numeric::{isqrt_u64, lemma_sqrt_floor_monotone, sqrt_floor};
use crate::router::{
    areas_of, chosen_target, downhill, elevations_of, flow_of, lemma_chosen_in_range, route_flow,
    slope_value,
};
use crate::stream::{stream_collides, stream_wf, synth_stream, Stream};
use crate::sums::{lemma_sum_ext, sum_over};
use vstd::arithmetic::div_mod::lemma_div_is_ordered;
use vstd::arithmetic::mul::lemma_mul_inequality;

verus! {

/// One drainage record: the persisted per-cell result of the drainage
/// computation.
#[derive(Clone, Copy, PartialEq, Eq, Structural, Debug)]
pub struct DrainageBasinNode {
    pub cell: CellId,
    pub flow_to: CellId,
    pub main_river: Stream,
    pub area: u64,
    pub drainage_area: u64,
    pub slope: u64,
}

/// The flow-target map that routing assigns to the field.
pub open spec fn flow_map(cells: Seq<crate::field::Cell>) -> Seq<usize> {
    Seq::new(cells.len(), |i: int| chosen_target(cells, i) as usize)
}

/// The per-cell intrinsic areas of the field.
pub open spec fn area_map(cells: Seq<crate::field::Cell>) -> Seq<u64> {
    Seq::new(cells.len(), |i: int| cells[i].area)
}

/// The record built for the non-sink cell `c`: its identity, its flow
/// target's identity, the synthesized stream through the next two sites,
/// and the computed area, drainage area and slope.
pub open spec fn record_spec(cells: Seq<crate::field::Cell>, c: int) -> DrainageBasinNode {
    let t = chosen_target(cells, c);
    let t2 = chosen_target(cells, t);
    DrainageBasinNode {
        cell: cells[c].id,
        flow_to: cells[t].id,
        main_river: synth_stream(
            cells[c].site_x as int,
            cells[c].site_y as int,
            cells[t].site_x as int,
            cells[t].site_y as int,
            cells[t2].site_x as int,
            cells[t2].site_y as int,
        ),
        area: cells[c].area,
        drainage_area: fin(flow_map(cells), area_map(cells), c) as u64,
        slope: slope_value(cells, c) as u64,
    }
}

/// The drainage records of the first `k` cells, in field order, skipping
/// sinks.
pub open spec fn records_spec(cells: Seq<crate::field::Cell>, k: nat) -> Seq<DrainageBasinNode>
    decreases k,
{
    if k == 0 {
        Seq::empty()
    } else {
        let prev = records_spec(cells, (k - 1) as nat);
        if chosen_target(cells, k - 1) == k - 1 {
            prev
        } else {
            prev.push(record_spec(cells, k - 1))
        }
    }
}

/// River width derived from a drainage area: the square root of the area,
/// scaled by the width factor and the cell scale, in `FACTOR_DEN` units.
pub open spec fn width_spec(drainage_area: u64, strength: u64, scale: u64) -> int {
    sqrt_floor(drainage_area as nat) * strength * scale / (FACTOR_DEN as int)
}

/// The width below which a river is ignored: the ignoreable width factor
/// times the cell scale, in `FACTOR_DEN` units.
pub open spec fn ignoreable_spec(ign_strength: u64, scale: u64) -> int {
    ign_strength * scale / (FACTOR_DEN as int)
}

impl DrainageBasinNode {
    /// The rendered width of this record's river for a given width factor
    /// and cell scale.
    pub fn river_width(&self, strength: u64, scale: u64) -> (w: u128)
        requires
            strength <= SCALE_LIMIT,
            scale <= SCALE_LIMIT,
        ensures
            w as int == width_spec(self.drainage_area, strength, scale),
    {
        let root = isqrt_u64(self.drainage_area);
        proof {
            crate::numeric::lemma_sqrt_floor_bounds(self.drainage_area as nat);
            assert(root * root <= self.drainage_area);
            assert(root <= 0x1_0000_0000u64) by (nonlinear_arith)
                requires
                    root * root <= self.drainage_area,
                    self.drainage_area <= 0xFFFF_FFFF_FFFF_FFFFu64,
            ;
            assert((root as int) * (strength as int) * (scale as int)
                <= 0x1_0000_0000_0000_0000_0000_0000_0000i128 && (root as int) * (strength as int)
                <= 0x1_0000_0000_0000_0000_0000i128) by (nonlinear_arith)
                requires
                    0 <= root <= 0x1_0000_0000u64,
                    strength <= 0x100_0000_0000u64,
                    scale <= 0x100_0000_0000u64,
            ;
        }
        (root as u128) * (strength as u128) * (scale as u128) / (FACTOR_DEN as u128)
    }
}

/// The full drainage computation: route the field, accumulate drainage
/// areas in one pass, and assemble one record per non-sink cell, in field
/// order. The result is exactly `records_spec` over the field.
pub fn build_drainage_basin(field: &CellField) -> (records: Vec<DrainageBasinNode>)
    requires
        field.wf(),
    ensures
        records@ == records_spec(field.cells@, field.cells@.len() as nat),
{
    let ghost cells = field.cells@;
    let nodes = route_flow(field);
    proof {
        assert(flow_of(nodes@) =~= flow_map(cells));
        assert(areas_of(nodes@) =~= area_map(cells));
        lemma_sum_ext(
            cells.len(),
            |u: int| area_map(cells)[u] as int,
            |i: int| cells[i].area as int,
        );
    }
    let acc = accumulate_area(&nodes);
    let n = nodes.len();
    let mut records: Vec<DrainageBasinNode> = Vec::new();
    let mut c: usize = 0;
    while c < n
        invariant
            field.wf(),
            cells == field.cells@,
            n == cells.len(),
            c <= n,
            nodes@.len() == n,
            acc@.len() == n,
            forall|i: int|
                0 <= i < n ==> (#[trigger] nodes@[i]).flow_to as int == chosen_target(cells, i),
            forall|i: int| 0 <= i < n ==> (#[trigger] nodes@[i]).area == cells[i].area,
            forall|i: int| 0 <= i < n ==> (#[trigger] nodes@[i]).slope == slope_value(cells, i),
            forall|i: int|
                0 <= i < n ==> (#[trigger] acc@[i]) as int == fin(flow_map(cells), area_map(cells), i),
            records@ == records_spec(cells, c as nat),
        decreases n - c,
    {
        proof {
            crate::router::lemma_chosen_in_range(cells, c as int);
        }
        let t = nodes[c].flow_to;
        if t != c {
            proof {
                crate::router::lemma_chosen_in_range(cells, t as int);
            }
            let t2 = nodes[t].flow_to;
            let cell = &field.cells[c];
            let tc = &field.cells[t];
            let tc2 = &field.cells[t2];
            let river = Stream::new(
                (cell.site_x, cell.site_y),
                (tc.site_x, tc.site_y),
                (tc2.site_x, tc2.site_y),
            );
            let rec = DrainageBasinNode {
                cell: cell.id,
                flow_to: tc.id,
                main_river: river,
                area: nodes[c].area,
                drainage_area: acc[c],
                slope: nodes[c].slope,
            };
            proof {
                assert(rec == record_spec(cells, c as int));
            }
            records.push(rec);
        }
        c = c + 1;
    }
    records
}

/// The drainage map: the drainage records with the two width factors and
/// the tessellation's cell scale.
pub struct DrainageMap {
    pub records: Vec<DrainageBasinNode>,
    pub river_strength: u64,
    pub river_ignoreable_width_strength: u64,
    pub scale: u64,
}

impl DrainageMap {
    /// The factors, the scale and every record's stream are within the
    /// model bounds.
    pub open spec fn wf(self) -> bool {
        &&& self.river_strength <= SCALE_LIMIT
        &&& self.river_ignoreable_width_strength <= SCALE_LIMIT
        &&& self.scale <= SCALE_LIMIT
        &&& forall|j: int|
            0 <= j < self.records@.len() ==> stream_wf((#[trigger] self.records@[j]).main_river)
    }

    /// Whether the query point hits the river of record `j`: the river is
    /// wide enough not to be ignored, and the point lies within the
    /// river's width of its stream.
    pub open spec fn river_hit(self, j: int, x: i64, y: i64) -> bool {
        let rec = self.records@[j];
        let w = width_spec(rec.drainage_area, self.river_strength, self.scale);
        &&& w >= ignoreable_spec(self.river_ignoreable_width_strength, self.scale)
        &&& stream_collides(rec.main_river, x as int, y as int, w)
    }

    /// Build the drainage map from an elevation field and the two width
    /// factors.
    pub fn new(field: &CellField, river_strength: u64, river_ignoreable_width_strength: u64) -> (m:
        DrainageMap)
        requires
            field.wf(),
            river_strength <= SCALE_LIMIT,
            river_ignoreable_width_strength <= SCALE_LIMIT,
        ensures
            m.wf(),
            m.records@ == records_spec(field.cells@, field.cells@.len() as nat),
            m.river_strength == river_strength,
            m.river_ignoreable_width_strength == river_ignoreable_width_strength,
            m.scale == field.scale,
    {
        let records = build_drainage_basin(field);
        proof {
            lemma_records_streams_wf(field.cells@, field.cells@.len() as nat);
        }
        DrainageMap { records, river_strength, river_ignoreable_width_strength, scale: field.scale }
    }

    /// The drainage records, in field order (sinks carry no record).
    pub fn map(&self) -> (r: &Vec<DrainageBasinNode>)
        ensures
            r == &self.records,
    {
        &self.records
    }

    /// The area-to-width factor.
    pub fn river_strength(&self) -> (r: u64)
        ensures
            r == self.river_strength,
    {
        self.river_strength
    }

    /// The width below which a river is not rendered or collided with.
    pub fn river_ignoreable_width(&self) -> (r: u128)
        requires
            self.river_ignoreable_width_strength <= SCALE_LIMIT,
            self.scale <= SCALE_LIMIT,
        ensures
            r as int == ignoreable_spec(self.river_ignoreable_width_strength, self.scale),
    {
        proof {
            assert((self.river_ignoreable_width_strength as int) * (self.scale as int)
                <= 0x1_0000_0000_0000_0000_0000_0000i128) by (nonlinear_arith)
                requires
                    self.river_ignoreable_width_strength <= 0x100_0000_0000u64,
                    self.scale <= 0x100_0000_0000u64,
            ;
        }
        (self.river_ignoreable_width_strength as u128) * (self.scale as u128) / (
        FACTOR_DEN as u128)
    }

    /// Whether the point `(x, y)` collides with some river of the map:
    /// some record whose river is at least the ignoreable width wide has
    /// its stream within that river's width of the point. Every record is
    /// examined — the conservative limit of a spatial pre-filter, which
    /// could only ever narrow the candidates, never the answer.
    pub fn collides_with_river(&self, x: i64, y: i64) -> (r: bool)
        requires
            self.wf(),
            -COORD_LIMIT <= x <= COORD_LIMIT,
            -COORD_LIMIT <= y <= COORD_LIMIT,
        ensures
            r == exists|j: int| 0 <= j < self.records@.len() && self.river_hit(j, x, y),
    {
        let ign = self.river_ignoreable_width();
        let n = self.records.len();
        let mut j: usize = 0;
        while j < n
            invariant
                self.wf(),
                -COORD_LIMIT <= x <= COORD_LIMIT,
                -COORD_LIMIT <= y <= COORD_LIMIT,
                n == self.records@.len(),
                j <= n,
                ign as int == ignoreable_spec(self.river_ignoreable_width_strength, self.scale),
                forall|k: int| 0 <= k < j ==> !self.river_hit(k, x, y),
            decreases n - j,
        {
            let rec = &self.records[j];
            let w = rec.river_width(self.river_strength, self.scale);
            if w >= ign {
                if rec.main_river.collides(x, y, w) {
                    proof {
                        assert(self.river_hit(j as int, x, y));
                    }
                    return true;
                }
            }
            j = j + 1;
        }
        false
    }
}

/// Every stream of the assembled records is within the model bounds.
proof fn lemma_records_streams_wf(cells: Seq<crate::field::Cell>, k: nat)
    requires
        k <= cells.len(),
        forall|i: int| 0 <= i < cells.len() ==> (#[trigger] cells[i]).wf(cells.len()),
    ensures
        forall|j: int|
            0 <= j < records_spec(cells, k).len() ==> stream_wf(
                (#[trigger] records_spec(cells, k)[j]).main_river,
            ),
    decreases k,
{
    if k > 0 {
        lemma_records_streams_wf(cells, (k - 1) as nat);
        let c = k - 1;
        if chosen_target(cells, c) != c {
            let t = chosen_target(cells, c);
            crate::router::lemma_chosen_in_range(cells, c);
            crate::router::lemma_chosen_in_range(cells, t);
        }
    }
}

/// Acyclicity of the routed field: flow only ever moves to strictly
/// lower elevation, so every cell's downstream walk ends at a sink within
/// as many steps as there are cells.
pub proof fn lemma_field_acyclic(cells: Seq<crate::field::Cell>)
    requires
        cells.len() <= usize::MAX,
        forall|i: int| 0 <= i < cells.len() ==> (#[trigger] cells[i]).wf(cells.len()),
    ensures
        wf_flow(flow_map(cells)),
        descending(flow_map(cells), elevations_of(cells)),
        acyclic(flow_map(cells)),
{
    let flow = flow_map(cells);
    let elev = elevations_of(cells);
    assert forall|i: int| 0 <= i < flow.len() implies (#[trigger] flow[i]) < flow.len() by {
        lemma_chosen_in_range(cells, i);
        assert(flow[i] == chosen_target(cells, i) as usize);
    }
    assert forall|u: int|
        0 <= u < flow.len() && (#[trigger] flow[u]) as int != u implies elev[flow[u] as int]
        < elev[u] by {
        lemma_chosen_in_range(cells, u);
        assert(flow[u] == chosen_target(cells, u) as usize);
        assert(chosen_target(cells, u) != u);
        assert(downhill(cells, u, chosen_target(cells, u)));
    }
    lemma_descending_acyclic(flow, elev);
}

/// Conservation of area over the routed field: every cell's drainage area
/// covers at least its own intrinsic area, and the total intrinsic area
/// of the field equals the total drainage area collected at the sinks.
pub proof fn lemma_field_conservation(cells: Seq<crate::field::Cell>)
    requires
        cells.len() <= usize::MAX,
        forall|i: int| 0 <= i < cells.len() ==> (#[trigger] cells[i]).wf(cells.len()),
    ensures
        forall|c: int|
            0 <= c < cells.len() ==> cells[c].area <= #[trigger] fin(
                flow_map(cells),
                area_map(cells),
                c,
            ),
        crate::field::total_area(cells) == sum_over(
            cells.len(),
            |c: int| if is_sink(flow_map(cells), c) {
                fin(flow_map(cells), area_map(cells), c)
            } else {
                0
            },
        ),
{
    let flow = flow_map(cells);
    let areas = area_map(cells);
    lemma_field_acyclic(cells);
    assert forall|c: int| 0 <= c < cells.len() implies cells[c].area <= #[trigger] fin(
        flow,
        areas,
        c,
    ) by {
        lemma_fin_bounds(flow, areas, c);
    }
    lemma_conservation(flow, areas);
    lemma_sum_ext(cells.len(), |i: int| cells[i].area as int, |u: int| areas[u] as int);
}

/// River width is monotone in drainage area: with the same width factor
/// and cell scale, a cell draining at least as much area has at least as
/// wide a river.
pub proof fn lemma_river_width_monotone(d1: u64, d2: u64, strength: u64, scale: u64)
    requires
        d1 <= d2,
    ensures
        width_spec(d1, strength, scale) <= width_spec(d2, strength, scale),
{
    lemma_sqrt_floor_monotone(d1 as nat, d2 as nat);
    let r1 = sqrt_floor(d1 as nat) as int;
    let r2 = sqrt_floor(d2 as nat) as int;
    lemma_mul_inequality(r1, r2, strength as int);
    lemma_mul_inequality(r1 * strength, r2 * strength, scale as int);
    lemma_div_is_ordered(r1 * strength * scale, r2 * strength * scale, FACTOR_DEN as int);
}

} // verus!
