//! End to end: samples -> segmenter -> codec -> compressed file ->
//! metadata scan -> windowed playback.

use sprite_video_renderer::compress::{compress_output, decompress_input, read_metadata};
use sprite_video_renderer::coords::Coord;
use sprite_video_renderer::extract::process_input;
use sprite_video_renderer::ledger::Ledger;
use sprite_video_renderer::mapper::{CoordinateMapper, MapRegion};
use sprite_video_renderer::player::{
    PlayerConfig, chunk_size_for, frame_batch, max_coord_count, median_coord_index, needed_chunk,
    run_window_from_bytes, window_bounds,
};
use sprite_video_renderer::sample::Sample;
use sprite_video_renderer::segmenter::{SegmentEnv, SegmenterConfig};
use sprite_video_renderer::sprite::Direction;
use sprite_video_renderer::warp::TransitionTable;

#[test]
fn extracted_runs_play_back_from_a_sliding_window() {
    let mapper = || {
        CoordinateMapper::new(
            vec![MapRegion { id: 1, offset_x: 0, offset_y: 0 }],
            0,
            0,
            0,
            0,
        )
        .unwrap()
    };
    let env = SegmentEnv {
        config: SegmenterConfig {
            gap_threshold_ms: 120_000,
            min_duration_ms: 0,
            strict: false,
            clean_start_only: false,
            early_jump_sample_limit: 140,
            early_jump_px: 30,
            local_step_budget: 60,
            checkpoint_floor: 0,
        },
        mapper: mapper(),
        reset_regions: vec![0],
        reset_adjacent: vec![0],
        transitions: TransitionTable::new(),
        checkpoints: Vec::new(),
    };

    // One user walks right, one tile per 500 ms.
    let samples: Vec<Sample> = (0..32u64)
        .map(|i| Sample {
            timestamp_ms: i * 500,
            user: 1,
            session: 1,
            sprite_id: 6,
            coord: Coord { x: i as i64, y: 0, region: 1 },
            path_index: 0,
        })
        .collect();

    let mut ledger = Ledger::new();
    let raw = process_input(&env, 2000, &mut ledger, &b"walk".to_vec(), &samples).unwrap();
    let file = compress_output(&raw, 3).unwrap();

    // The render side sees only the compressed file.
    let metas = read_metadata(&file, true).unwrap();
    assert_eq!(metas.len(), 1);
    assert_eq!(metas[0].coord_count, 32);
    let payload = decompress_input(&file, true).unwrap();
    assert_eq!(payload, raw);

    let cfg = PlayerConfig {
        interval_ms: 500,
        speed_multiplier: 1,
        num_chunks: 8,
        overlap: 2,
        snap_threshold_px: 48,
    };
    let den = 500u64;
    let max_coords = max_coord_count(&metas);
    let chunk_size = chunk_size_for(max_coords, cfg.num_chunks);
    assert_eq!(chunk_size, 4);

    // A frame deep in the animation: t = 9250 ms, cursor index 18, chunk 4.
    let time_ms = 9250u64;
    let needed = needed_chunk(median_coord_index(time_ms, den), chunk_size, cfg.num_chunks);
    assert_eq!(needed, 4);
    let (wstart, wend) = window_bounds(needed, chunk_size, cfg.overlap, max_coords);
    assert_eq!((wstart, wend), (14, 22));
    let windows = vec![run_window_from_bytes(&payload, metas[0], wstart, wend)];

    let phases = vec![0u64];
    let mut directions = vec![Direction::Down];
    let insts = frame_batch(
        &mapper(),
        &cfg,
        &metas,
        &windows,
        wstart,
        &phases,
        &mut directions,
        den,
        time_ms,
    );
    assert_eq!(insts.len(), 1);
    // Index 18 at x = 18 tiles, half a tile interpolated towards x = 19:
    // (18 * 16) px plus 16 * 250 / 500 px.
    assert_eq!(insts[0].denom, 500);
    assert_eq!(insts[0].x_num, 18 * 16 * 500 + 16 * 250);
    assert_eq!(insts[0].y_num, 0);
    assert_eq!(directions[0], Direction::Right);
}
