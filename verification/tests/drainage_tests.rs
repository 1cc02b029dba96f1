use hydrology::accum::accumulate_area;
use hydrology::drainage::{build_drainage_basin, DrainageBasinNode, DrainageMap};
use hydrology::field::{Cell, CellField, CellId};
use hydrology::router::route_flow;
use hydrology::stream::Stream;

fn cell(ix: i64, iy: i64, sx: i64, sy: i64, elev: i64, area: u64, nbs: Vec<usize>) -> Cell {
    Cell {
        id: CellId { ix, iy },
        site_x: sx,
        site_y: sy,
        elevation: elev,
        area,
        neighbors: nbs,
    }
}

/// A 3x3 grid, 4-adjacent, with the given per-cell elevations.
fn grid3(elevs: [i64; 9]) -> CellField {
    let mut cells = Vec::new();
    for iy in 0..3i64 {
        for ix in 0..3i64 {
            let idx = (iy * 3 + ix) as usize;
            let mut nbs = Vec::new();
            if ix > 0 {
                nbs.push(idx - 1);
            }
            if ix < 2 {
                nbs.push(idx + 1);
            }
            if iy > 0 {
                nbs.push(idx - 3);
            }
            if iy < 2 {
                nbs.push(idx + 3);
            }
            cells.push(cell(ix, iy, ix * 1000, iy * 1000, elevs[idx], 1000, nbs));
        }
    }
    CellField { cells, scale: 1000 }
}

#[test]
fn single_basin_drains_to_one_sink() {
    // strictly decreasing toward the corner cell (0, 0)
    let field = grid3([0, 100, 200, 100, 200, 300, 200, 300, 400]);
    let nodes = route_flow(&field);
    let mut sinks = Vec::new();
    for (i, n) in nodes.iter().enumerate() {
        if n.flow_to == i {
            sinks.push(i);
        }
    }
    assert_eq!(sinks, vec![0]);
    let acc = accumulate_area(&nodes);
    assert_eq!(acc[0], 9 * 1000);
}

#[test]
fn flat_plateau_every_cell_is_its_own_sink() {
    let field = grid3([70; 9]);
    let nodes = route_flow(&field);
    let acc = accumulate_area(&nodes);
    for (i, n) in nodes.iter().enumerate() {
        assert_eq!(n.flow_to, i);
        assert_eq!(n.slope, 0);
        assert_eq!(acc[i], 1000);
    }
}

#[test]
fn confluence_sums_both_upstream_chains() {
    // two chains: 0 -> 1 -> 4 and 2 -> 3 -> 4; cell 4 is the sink
    let cells = vec![
        cell(0, 0, 0, 0, 400, 10, vec![1]),
        cell(1, 0, 1000, 0, 300, 20, vec![4]),
        cell(2, 0, 0, 2000, 400, 30, vec![3]),
        cell(3, 0, 1000, 2000, 300, 40, vec![4]),
        cell(4, 0, 2000, 1000, 100, 50, vec![]),
    ];
    let field = CellField { cells, scale: 1000 };
    let nodes = route_flow(&field);
    assert_eq!(nodes[4].flow_to, 4);
    let acc = accumulate_area(&nodes);
    assert_eq!(acc[0], 10);
    assert_eq!(acc[1], 30);
    assert_eq!(acc[2], 30);
    assert_eq!(acc[3], 70);
    assert_eq!(acc[4], 10 + 20 + 30 + 40 + 50);
}

#[test]
fn drainage_area_always_covers_own_area() {
    let field = grid3([0, 100, 200, 100, 200, 300, 200, 300, 400]);
    let nodes = route_flow(&field);
    let acc = accumulate_area(&nodes);
    for (i, n) in nodes.iter().enumerate() {
        assert!(acc[i] >= n.area);
    }
}

#[test]
fn total_area_is_conserved_at_the_sinks() {
    let field = grid3([500, 100, 250, 100, 210, 320, 260, 300, 400]);
    let nodes = route_flow(&field);
    let acc = accumulate_area(&nodes);
    let total: u64 = nodes.iter().map(|n| n.area).sum();
    let sink_total: u64 = nodes
        .iter()
        .enumerate()
        .filter(|(i, n)| n.flow_to == *i)
        .map(|(i, _)| acc[i])
        .sum();
    assert_eq!(total, sink_total);
}

#[test]
fn every_walk_reaches_a_sink_within_cell_count() {
    let field = grid3([500, 100, 250, 100, 210, 320, 260, 300, 400]);
    let nodes = route_flow(&field);
    for start in 0..nodes.len() {
        let mut cur = start;
        let mut steps = 0;
        while nodes[cur].flow_to != cur {
            cur = nodes[cur].flow_to;
            steps += 1;
            assert!(steps <= nodes.len());
        }
    }
}

#[test]
fn first_encountered_neighbor_wins_slope_ties() {
    // neighbors 1 and 2 offer the same slope from cell 0; 1 is listed first
    let cells = vec![
        cell(0, 0, 0, 0, 200, 10, vec![1, 2]),
        cell(1, 0, 1000, 0, 100, 10, vec![]),
        cell(2, 0, 0, 1000, 100, 10, vec![]),
    ];
    let field = CellField { cells, scale: 1000 };
    let nodes = route_flow(&field);
    assert_eq!(nodes[0].flow_to, 1);
}

#[test]
fn gentlest_signed_slope_wins_over_steeper_drop() {
    // the signed slope order picks the algebraically largest slope:
    // a shallow drop beats a steep one at equal distance
    let cells = vec![
        cell(0, 0, 0, 0, 200, 10, vec![1, 2]),
        cell(1, 0, 1000, 0, 0, 10, vec![]),
        cell(2, 0, 0, 1000, 150, 10, vec![]),
    ];
    let field = CellField { cells, scale: 1000 };
    let nodes = route_flow(&field);
    assert_eq!(nodes[0].flow_to, 2);
}

#[test]
fn slope_is_gap_over_distance_in_factor_units() {
    let cells = vec![
        cell(0, 0, 0, 0, 300, 10, vec![1]),
        cell(1, 0, 100, 0, 200, 10, vec![]),
    ];
    let field = CellField { cells, scale: 1000 };
    let nodes = route_flow(&field);
    // gap 100 over distance 100: slope one, in units of 65536
    assert_eq!(nodes[0].slope, 65536);
}

#[test]
fn coincident_site_neighbor_gets_degenerate_slope() {
    let cells = vec![
        cell(0, 0, 500, 500, 300, 10, vec![1]),
        cell(1, 0, 500, 500, 200, 10, vec![]),
    ];
    let field = CellField { cells, scale: 1000 };
    let nodes = route_flow(&field);
    assert_eq!(nodes[0].flow_to, 1);
    assert_eq!(nodes[0].slope, 0);
}

#[test]
fn records_skip_sinks_and_carry_drainage() {
    let field = grid3([0, 100, 200, 100, 200, 300, 200, 300, 400]);
    let records = build_drainage_basin(&field);
    assert_eq!(records.len(), 8);
    for rec in &records {
        assert_ne!(rec.cell, CellId { ix: 0, iy: 0 });
        assert!(rec.drainage_area >= rec.area);
    }
}

#[test]
fn empty_field_builds_an_empty_map() {
    let field = CellField { cells: Vec::new(), scale: 1000 };
    let map = DrainageMap::new(&field, 65536, 65536);
    assert_eq!(map.map().len(), 0);
}

#[test]
fn coincident_sites_degenerate_to_a_point_stream() {
    let s = Stream::new((500, 500), (500, 500), (900, 900));
    assert_eq!(s, Stream::Point { x2: 1000, y2: 1000 });
    let s2 = Stream::new((0, 0), (200, 0), (400, 0));
    assert_eq!(
        s2,
        Stream::Path { ax2: 200, ay2: 0, hx2: 400, hy2: 0, ex2: 600, ey2: 0 }
    );
}

#[test]
fn evaluate_midpoint_is_exact() {
    let s = Stream::new((0, 0), (200, 0), (400, 0));
    let (xn, yn, den) = s.evaluate(1, 2);
    // the real point is (xn / den, yn / den) = (200, 0)
    assert_eq!(den, 8);
    assert_eq!(xn, 1600);
    assert_eq!(yn, 0);
}

#[test]
fn evaluate_endpoints_match_the_midpoint_construction() {
    let s = Stream::new((0, 0), (200, 100), (400, 0));
    let (x0, y0, den0) = s.evaluate(0, 1);
    assert_eq!((x0 / den0 as i128, y0 / den0 as i128), (100, 50));
    let (x1, y1, den1) = s.evaluate(1, 1);
    assert_eq!((x1 / den1 as i128, y1 / den1 as i128), (300, 50));
}

fn one_river_map(ign_strength: u64) -> DrainageMap {
    let rec = DrainageBasinNode {
        cell: CellId { ix: 0, iy: 0 },
        flow_to: CellId { ix: 1, iy: 0 },
        main_river: Stream::new((0, 0), (200, 0), (400, 0)),
        area: 1000,
        drainage_area: 10000,
        slope: 65536,
    };
    DrainageMap {
        records: vec![rec],
        river_strength: 65536,
        river_ignoreable_width_strength: ign_strength,
        scale: 10,
    }
}

#[test]
fn point_on_river_midpoint_collides() {
    // width = sqrt(10000) * 1 * 10 = 1000; ignoreable = 10
    let map = one_river_map(65536);
    assert!(map.collides_with_river(200, 0));
}

#[test]
fn raising_the_ignoreable_width_mutes_the_river() {
    // ignoreable = 101 * 10 = 1010 > width = 1000
    let map = one_river_map(101 * 65536);
    assert!(!map.collides_with_river(200, 0));
}

#[test]
fn far_point_does_not_collide() {
    let map = one_river_map(65536);
    assert!(!map.collides_with_river(200, 2000));
}

#[test]
fn river_width_grows_with_drainage_area() {
    let map = one_river_map(65536);
    let narrow = map.records[0].river_width(65536, 10);
    let mut rec = map.records[0];
    rec.drainage_area = 40000;
    let wide = rec.river_width(65536, 10);
    assert_eq!(narrow, 1000);
    assert_eq!(wide, 2000);
    assert!(narrow <= wide);
}

#[test]
fn point_stream_collides_by_plain_distance() {
    let s = Stream::Point { x2: 1000, y2: 1000 };
    // the real site is (500, 500)
    assert!(s.collides(500, 500, 1));
    assert!(s.collides(500, 540, 50));
    assert!(!s.collides(500, 560, 50));
}

#[test]
fn point_stream_evaluates_to_its_site() {
    let s = Stream::Point { x2: 1000, y2: 800 };
    let (xn, yn, den) = s.evaluate(3, 4);
    assert_eq!((xn / den as i128, yn / den as i128), (500, 400));
}
