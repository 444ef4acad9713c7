use sprite_video_renderer::coords::Coord;
use sprite_video_renderer::mapper::{CoordinateMapper, MapRegion};
use sprite_video_renderer::sample::{Sample, clean_stream};
use sprite_video_renderer::segmenter::{SegmentEnv, SegmenterConfig, segment_stream};
use sprite_video_renderer::warp::TransitionTable;

fn sample(timestamp_ms: u64, user: u64, x: i64, y: i64, region: i64) -> Sample {
    Sample {
        timestamp_ms,
        user,
        session: 1,
        sprite_id: 7,
        coord: Coord { x, y, region },
        path_index: 0,
    }
}

fn env(strict: bool, min_duration_ms: u64) -> SegmentEnv {
    SegmentEnv {
        config: SegmenterConfig {
            gap_threshold_ms: 120_000,
            min_duration_ms,
            strict,
            clean_start_only: false,
            early_jump_sample_limit: 140,
            early_jump_px: 30,
            local_step_budget: 60,
            checkpoint_floor: 2,
        },
        mapper: CoordinateMapper::new(
            vec![MapRegion { id: 1, offset_x: 0, offset_y: 0 }],
            0,
            0,
            0,
            0,
        )
        .unwrap(),
        reset_regions: vec![0, 37, 40],
        reset_adjacent: vec![0, 37, 40, 38, 39, 12, 32],
        transitions: TransitionTable::new(),
        checkpoints: vec![100, 101, 102, 103, 104, 105, 106, 107, 108, 109],
    }
}

#[test]
fn three_minute_gap_always_forces_a_split() {
    // A 3-minute gap between two consecutive same-region samples splits,
    // whatever the policy.
    for strict in [false, true] {
        let e = env(strict, 0);
        let samples = vec![sample(0, 1, 0, 0, 1), sample(180_000, 1, 0, 0, 1)];
        let runs = segment_stream(&e, &samples);
        assert_eq!(runs.len(), 2, "strict={}", strict);
    }
}

#[test]
fn short_runs_are_discarded() {
    // Every emitted run lasts at least min_duration: user 1 walks 69 seconds,
    // user 2 only 9 seconds.
    let e = env(false, 60_000);
    let mut samples = Vec::new();
    for i in 0..70u64 {
        samples.push(sample(i * 1000, 1, (i % 50) as i64, 0, 1));
    }
    for i in 0..10u64 {
        samples.push(sample(i * 1000, 2, 0, 0, 1));
    }
    let runs = segment_stream(&e, &samples);
    assert_eq!(runs.len(), 1);
    assert_eq!(runs[0].user, 1);
    assert!(runs[0].end_ts - runs[0].start_ts >= 60_000);
    assert_eq!(runs[0].coords.len(), 70);
}

#[test]
fn entering_a_reset_region_from_elsewhere_splits() {
    let e = env(false, 0);
    let samples = vec![sample(0, 1, 0, 0, 5), sample(1000, 1, 0, 0, 0)];
    let runs = segment_stream(&e, &samples);
    assert_eq!(runs.len(), 2);
}

#[test]
fn entering_a_reset_region_from_its_adjacency_does_not_split() {
    // Region 12 is in the adjacency set of the reset regions.
    let e = env(false, 0);
    let samples = vec![sample(0, 1, 0, 0, 12), sample(1000, 1, 0, 0, 0)];
    let runs = segment_stream(&e, &samples);
    assert_eq!(runs.len(), 1);
    assert_eq!(runs[0].coords.len(), 2);
}

#[test]
fn early_teleport_invalidates_the_candidate_run() {
    // Ten tiles in one step, 160 px, within the first samples of the run:
    // the candidate before the split is never emitted.
    let e = env(true, 0);
    let samples = vec![sample(0, 1, 0, 0, 1), sample(1000, 1, 10, 0, 1)];
    let runs = segment_stream(&e, &samples);
    assert_eq!(runs.len(), 1);
    assert_eq!(runs[0].start_ts, 1000);
}

#[test]
fn small_same_region_steps_stay_in_one_run() {
    let e = env(true, 0);
    let samples = vec![
        sample(0, 1, 0, 0, 1),
        sample(1000, 1, 1, 0, 1),
        sample(2000, 1, 1, 1, 1),
    ];
    let runs = segment_stream(&e, &samples);
    assert_eq!(runs.len(), 1);
    assert_eq!(runs[0].coords.len(), 3);
    assert_eq!(runs[0].sprite_id, 7);
}

#[test]
fn checkpoint_skip_ahead_splits() {
    // From checkpoint index 3 (region 103) the cursor may advance one step;
    // region 109 at index 9 is an illegal skip-ahead even though the warp
    // table allows the transition itself.
    let mut e = env(true, 0);
    e.transitions.insert(103, 109);
    e.transitions.insert(102, 103);
    let skip = segment_stream(
        &e,
        &vec![sample(0, 1, 0, 0, 103), sample(1000, 1, 0, 0, 109)],
    );
    assert_eq!(skip.len(), 2);
    // A one-step advance from the starting progress index is legal.
    let ok = segment_stream(
        &e,
        &vec![sample(0, 1, 0, 0, 102), sample(1000, 1, 0, 0, 103)],
    );
    assert_eq!(ok.len(), 1);
}

#[test]
fn backtrack_above_the_floor_is_tolerated() {
    // Progress walks 102 -> 103 -> 104; falling back to 103 (index 3, above
    // the floor 2) is tolerated although the warp table does not list the
    // transition.
    let mut e = env(true, 0);
    e.transitions.insert(102, 103);
    e.transitions.insert(103, 104);
    let samples = vec![
        sample(0, 1, 0, 0, 102),
        sample(1000, 1, 0, 0, 103),
        sample(2000, 1, 0, 0, 104),
        sample(3000, 1, 0, 0, 103),
    ];
    let runs = segment_stream(&e, &samples);
    assert_eq!(runs.len(), 1);
    assert_eq!(runs[0].coords.len(), 4);
}

#[test]
fn backtrack_to_the_floor_is_not_tolerated() {
    let mut e = env(true, 0);
    e.transitions.insert(102, 103);
    e.transitions.insert(103, 104);
    let samples = vec![
        sample(0, 1, 0, 0, 102),
        sample(1000, 1, 0, 0, 103),
        sample(2000, 1, 0, 0, 104),
        sample(3000, 1, 0, 0, 102),
    ];
    let runs = segment_stream(&e, &samples);
    assert_eq!(runs.len(), 2);
}

#[test]
fn clean_start_mode_requires_a_reset_region_start() {
    let mut e = env(false, 0);
    e.config.clean_start_only = true;
    let away = segment_stream(&e, &vec![sample(0, 1, 0, 0, 5), sample(1000, 1, 1, 0, 5)]);
    assert_eq!(away.len(), 0);
    let at_reset = segment_stream(&e, &vec![sample(0, 1, 0, 0, 40), sample(1000, 1, 1, 0, 40)]);
    assert_eq!(at_reset.len(), 1);
}

#[test]
fn malformed_samples_are_dropped_with_a_count() {
    let in_bounds = sample(0, 1, 0, 0, 1);
    let out_of_bounds = sample(1000, 1, 1 << 30, 0, 1);
    let out_of_order = sample(500, 0, 0, 0, 1); // user key runs backwards
    let samples = vec![in_bounds, out_of_bounds, out_of_order, sample(2000, 1, 1, 0, 1)];
    let (kept, dropped) = clean_stream(&samples);
    assert_eq!(dropped, 2);
    assert_eq!(kept.len(), 2);
    assert_eq!(kept[0].timestamp_ms, 0);
    assert_eq!(kept[1].timestamp_ms, 2000);
}

#[test]
fn runs_never_span_groups() {
    let e = env(false, 0);
    let mut samples = vec![sample(0, 1, 0, 0, 1), sample(1000, 1, 1, 0, 1)];
    samples.push(sample(0, 2, 5, 5, 1));
    let runs = segment_stream(&e, &samples);
    assert_eq!(runs.len(), 2);
    assert_eq!(runs[0].user, 1);
    assert_eq!(runs[0].coords.len(), 2);
    assert_eq!(runs[1].user, 2);
    assert_eq!(runs[1].coords.len(), 1);
}
