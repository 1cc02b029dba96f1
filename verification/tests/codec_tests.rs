use hydrology::codec::{
    from_tokens, parse_dec_i64, parse_dec_u64, to_dec_i64, to_dec_u64, to_tokens,
};
use hydrology::drainage::{DrainageBasinNode, DrainageMap};
use hydrology::field::CellId;
use hydrology::flatness::{FlatnessInput, FlatnessMap};
use hydrology::stream::Stream;

#[test]
fn decimal_text_round_trips() {
    for n in [0u64, 7, 10, 65536, u64::MAX] {
        let s = to_dec_u64(n);
        assert_eq!(parse_dec_u64(s.as_str()), Some(n));
    }
    for v in [0i64, 1, -1, 42, -65536, i64::MAX, i64::MIN] {
        let s = to_dec_i64(v);
        assert_eq!(parse_dec_i64(s.as_str()), Some(v));
    }
    assert_eq!(to_dec_u64(907).as_str(), "907");
    assert_eq!(to_dec_i64(-38).as_str(), "-38");
}

#[test]
fn malformed_numbers_are_rejected() {
    assert_eq!(parse_dec_u64(""), None);
    assert_eq!(parse_dec_u64("12x3"), None);
    assert_eq!(parse_dec_u64("-5"), None);
    // one past u64::MAX
    assert_eq!(parse_dec_u64("18446744073709551616"), None);
    assert_eq!(parse_dec_u64("18446744073709551615"), Some(u64::MAX));
    assert_eq!(parse_dec_i64("-"), None);
    assert_eq!(parse_dec_i64("9223372036854775808"), None);
    assert_eq!(parse_dec_i64("-9223372036854775808"), Some(i64::MIN));
}

fn sample_record() -> DrainageBasinNode {
    DrainageBasinNode {
        cell: CellId { ix: -3, iy: 14 },
        flow_to: CellId { ix: -2, iy: 14 },
        main_river: Stream::Path { ax2: 100, ay2: -40, hx2: 240, hy2: 0, ex2: 380, ey2: 44 },
        area: 1250,
        drainage_area: 99125,
        slope: 1966,
    }
}

#[test]
fn record_tokens_round_trip() {
    let rec = sample_record();
    let toks = to_tokens(&rec);
    assert_eq!(toks.len(), 14);
    assert_eq!(toks[4].as_str(), "Path");
    assert_eq!(from_tokens(&toks), Some(rec));
}

#[test]
fn point_record_tokens_round_trip() {
    let mut rec = sample_record();
    rec.main_river = Stream::Point { x2: -500, y2: 600 };
    let toks = to_tokens(&rec);
    assert_eq!(toks[4].as_str(), "Point");
    assert_eq!(toks[7].as_str(), "");
    assert_eq!(from_tokens(&toks), Some(rec));
}

#[test]
fn malformed_record_tokens_fail_to_load() {
    let rec = sample_record();

    let mut short = to_tokens(&rec);
    short.pop();
    assert_eq!(from_tokens(&short), None);

    let mut bad_tag = to_tokens(&rec);
    bad_tag[4] = "Curve".to_string();
    assert_eq!(from_tokens(&bad_tag), None);

    let mut bad_number = to_tokens(&rec);
    bad_number[11] = "12a4".to_string();
    assert_eq!(from_tokens(&bad_number), None);

    let mut padded_point = to_tokens(&rec);
    padded_point[4] = "Point".to_string();
    padded_point[7] = "5".to_string();
    assert_eq!(from_tokens(&padded_point), None);
}

#[test]
fn drainage_map_tokens_round_trip() {
    let mut rec2 = sample_record();
    rec2.cell = CellId { ix: 8, iy: -9 };
    rec2.main_river = Stream::Point { x2: 16, y2: -18 };
    let map = DrainageMap {
        records: vec![sample_record(), rec2],
        river_strength: 65536,
        river_ignoreable_width_strength: 32768,
        scale: 1000,
    };
    let lines = map.save_tokens();
    let loaded = DrainageMap::load_tokens(&lines, 65536, 32768, 1000).unwrap();
    assert_eq!(loaded.records, map.records);
    assert_eq!(loaded.river_strength, 65536);
    assert_eq!(loaded.river_ignoreable_width_strength, 32768);
    assert_eq!(loaded.scale, 1000);
}

#[test]
fn drainage_map_load_rejects_a_bad_line() {
    let map = DrainageMap {
        records: vec![sample_record()],
        river_strength: 65536,
        river_ignoreable_width_strength: 32768,
        scale: 1000,
    };
    let mut lines = map.save_tokens();
    lines[0][0] = "not-a-number".to_string();
    assert!(DrainageMap::load_tokens(&lines, 65536, 32768, 1000).is_none());
}

fn flat_input(ix: i64, elev: i64, candidate: Option<u64>, nbs: Vec<usize>) -> FlatnessInput {
    FlatnessInput { id: CellId { ix, iy: 0 }, elevation: elev, candidate, neighbors: nbs }
}

#[test]
fn flatness_keeps_scored_cells_above_sea_level() {
    let inputs = vec![
        flat_input(0, 50, Some(900), vec![1]),
        flat_input(1, 60, Some(800), vec![0]),
        flat_input(2, -10, Some(700), vec![1]),
        flat_input(3, 80, None, vec![1]),
    ];
    let map = FlatnessMap::new(&inputs, 0, 0);
    let cells = map.map();
    assert_eq!(cells.len(), 2);
    assert_eq!(cells[0], (CellId { ix: 0, iy: 0 }, 900));
    assert_eq!(cells[1], (CellId { ix: 1, iy: 0 }, 800));
}

#[test]
fn flatness_refilter_removes_isolated_cells() {
    // cell 2 is scored but all its neighbors are below sea level
    let inputs = vec![
        flat_input(0, 50, Some(900), vec![1]),
        flat_input(1, 60, Some(800), vec![0]),
        flat_input(2, 70, Some(700), vec![3]),
        flat_input(3, -10, Some(600), vec![2]),
    ];
    let map = FlatnessMap::new(&inputs, 1, 0);
    let cells = map.map();
    assert_eq!(cells.len(), 2);
    assert_eq!(cells[0].0, CellId { ix: 0, iy: 0 });
    assert_eq!(cells[1].0, CellId { ix: 1, iy: 0 });
}

#[test]
fn flatness_tokens_round_trip() {
    let inputs = vec![
        flat_input(-7, 50, Some(901), vec![]),
        flat_input(9, 60, Some(12), vec![]),
    ];
    let map = FlatnessMap::new(&inputs, 0, 0);
    let lines = map.save_tokens();
    let loaded = FlatnessMap::load_tokens(&lines).unwrap();
    assert_eq!(loaded.map(), map.map());

    let mut bad = map.save_tokens();
    bad[1][2] = "ten".to_string();
    assert!(FlatnessMap::load_tokens(&bad).is_none());
}
