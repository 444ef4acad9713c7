use sprite_video_renderer::codec::decode_all;
use sprite_video_renderer::coords::Coord;
use sprite_video_renderer::extract::process_input;
use sprite_video_renderer::ledger::Ledger;
use sprite_video_renderer::mapper::CoordinateMapper;
use sprite_video_renderer::sample::Sample;
use sprite_video_renderer::segmenter::{SegmentEnv, SegmenterConfig};
use sprite_video_renderer::warp::TransitionTable;

fn sample(timestamp_ms: u64, x: i64, y: i64) -> Sample {
    Sample {
        timestamp_ms,
        user: 3,
        session: 9,
        sprite_id: 4,
        coord: Coord { x, y, region: 1 },
        path_index: 0,
    }
}

fn env() -> SegmentEnv {
    SegmentEnv {
        config: SegmenterConfig {
            gap_threshold_ms: 120_000,
            min_duration_ms: 0,
            strict: false,
            clean_start_only: false,
            early_jump_sample_limit: 140,
            early_jump_px: 30,
            local_step_budget: 60,
            checkpoint_floor: 0,
        },
        mapper: CoordinateMapper::new(Vec::new(), 0, 0, 0, 0).unwrap(),
        reset_regions: vec![0],
        reset_adjacent: vec![0],
        transitions: TransitionTable::new(),
        checkpoints: Vec::new(),
    }
}

#[test]
fn a_fresh_input_is_extracted_and_recorded() {
    let e = env();
    let mut ledger = Ledger::new();
    let id: Vec<u8> = b"part_0001".to_vec();
    let samples = vec![sample(0, 1, 2), sample(1000, 2, 2)];
    let out = process_input(&e, 2000, &mut ledger, &id, &samples).unwrap();
    assert_eq!(ledger.len(), 1);
    assert!(ledger.contains(&id));
    let runs = decode_all(&out).unwrap();
    assert_eq!(runs.len(), 1);
    assert_eq!(runs[0].sprite_id, 4);
    assert_eq!(runs[0].coords.len(), 2);
}

#[test]
fn a_ledger_listed_input_adds_zero_records() {
    // Re-running extraction over an input already in the ledger adds no
    // records and leaves the ledger size unchanged.
    let e = env();
    let mut ledger = Ledger::new();
    let id: Vec<u8> = b"part_0001".to_vec();
    let samples = vec![sample(0, 1, 2), sample(1000, 2, 2)];
    let first = process_input(&e, 2000, &mut ledger, &id, &samples);
    assert!(first.is_some());
    assert_eq!(ledger.len(), 1);

    let again = process_input(&e, 2000, &mut ledger, &id, &samples);
    assert!(again.is_none());
    assert_eq!(ledger.len(), 1);
}

#[test]
fn distinct_inputs_are_both_processed() {
    let e = env();
    let mut ledger = Ledger::new();
    let first: Vec<u8> = b"part_0001".to_vec();
    let second: Vec<u8> = b"part_0002".to_vec();
    let samples = vec![sample(0, 1, 2)];
    assert!(process_input(&e, 2000, &mut ledger, &first, &samples).is_some());
    assert!(process_input(&e, 2000, &mut ledger, &second, &samples).is_some());
    assert_eq!(ledger.len(), 2);
    assert!(ledger.contains(&first) && ledger.contains(&second));
}

#[test]
fn records_of_several_runs_concatenate() {
    let e = env();
    let mut ledger = Ledger::new();
    let id: Vec<u8> = b"gapped".to_vec();
    let samples = vec![sample(0, 1, 1), sample(300_000, 2, 2)];
    let out = process_input(&e, 2000, &mut ledger, &id, &samples).unwrap();
    let runs = decode_all(&out).unwrap();
    assert_eq!(runs.len(), 2);
    assert_eq!(runs[0].coords.len(), 1);
    assert_eq!(runs[1].coords.len(), 1);
}
