use sprite_video_renderer::codec::scan_metadata;
use sprite_video_renderer::coords::CompactCoordinate;
use sprite_video_renderer::mapper::{CoordinateMapper, MapRegion};
use sprite_video_renderer::player::{
    PlayerConfig, RunFrame, advance_run, assign_phases, chunk_size_for, frame_batch,
    frame_instance, frame_to_time_ms, frame_count, get_animation_state, max_coord_count,
    median_coord_index, needed_chunk, run_window, run_window_from_bytes, window_bounds,
};
use sprite_video_renderer::sprite::Direction;

fn mapper() -> CoordinateMapper {
    CoordinateMapper::new(
        vec![MapRegion { id: 1, offset_x: 0, offset_y: 0 }],
        0,
        0,
        0,
        0,
    )
    .unwrap()
}

fn config(snap_threshold_px: i64) -> PlayerConfig {
    PlayerConfig {
        interval_ms: 500,
        speed_multiplier: 1,
        num_chunks: 8,
        overlap: 2,
        snap_threshold_px,
    }
}

fn cc(x: u8, y: u8) -> CompactCoordinate {
    CompactCoordinate { x, y, region: 1 }
}

#[test]
fn test_animation_state_calculation() {
    // Interval 500 ms, two coordinates.

    // At time 0, at the first frame.
    let state = get_animation_state(0, 0, 500, 2).unwrap();
    assert_eq!(state.current_frame_index, 0);
    assert_eq!(state.next_frame_index, 1);
    assert_eq!(state.interp_num, 0);

    // At time 250 ms, halfway between frames.
    let state = get_animation_state(250, 0, 500, 2).unwrap();
    assert_eq!(state.current_frame_index, 0);
    assert_eq!(state.next_frame_index, 1);
    assert_eq!(state.interp_num * 2, state.interp_den);

    // At time 500 ms, at the second frame.
    let state = get_animation_state(500, 0, 500, 2).unwrap();
    assert_eq!(state.current_frame_index, 1);
    assert_eq!(state.next_frame_index, 1);
}

#[test]
fn a_finished_run_has_no_state() {
    assert!(get_animation_state(1000, 0, 500, 2).is_none());
    assert!(get_animation_state(0, 0, 500, 0).is_none());
}

#[test]
fn phase_offsets_shift_the_cursor() {
    let state = get_animation_state(0, 400, 500, 3).unwrap();
    assert_eq!(state.current_frame_index, 0);
    assert_eq!(state.interp_num, 400);
    let state = get_animation_state(200, 400, 500, 3).unwrap();
    assert_eq!(state.current_frame_index, 1);
    assert_eq!(state.interp_num, 100);
}

#[test]
fn midpoint_interpolation_is_exact() {
    // Samples (0,0) and (10,0) in one region, interval 500 ms: at t = 250 ms
    // the interpolation parameter is one half and the position is the exact
    // midpoint of the two mapped pixel positions (0 and 160).
    let m = mapper();
    let cfg = config(200);
    let window = vec![cc(0, 0), cc(10, 0)];
    let st = get_animation_state(250, 0, 500, 2).unwrap();
    assert_eq!(st.interp_num * 2, st.interp_den);
    let (inst, dir) = frame_instance(
        &m,
        &cfg,
        3,
        &window,
        st.current_frame_index,
        st.next_frame_index,
        st.interp_num,
        st.interp_den,
        Direction::Down,
    );
    let inst = inst.unwrap();
    assert_eq!(inst.denom, 500);
    // x = (0 * 500 + 160 * 250) / 500 = 80 px, the midpoint of 0 and 160.
    assert_eq!(inst.x_num, 160 * 250);
    assert_eq!(inst.x_num as f64 / inst.denom as f64, 80.0);
    assert_eq!(inst.y_num, 0);
    assert_eq!(dir, Direction::Right);
    assert_eq!(inst.direction, Direction::Right);
}

#[test]
fn displacement_beyond_the_threshold_suppresses_interpolation() {
    // Ten tiles apart (160 px) with a 3-tile (48 px) threshold: the position
    // snaps to the current sample instead of interpolating.
    let m = mapper();
    let cfg = config(48);
    let window = vec![cc(0, 0), cc(10, 0)];
    let (inst, _) = frame_instance(&m, &cfg, 3, &window, 0, 1, 250, 500, Direction::Down);
    let inst = inst.unwrap();
    assert_eq!(inst.x_num, 0);
    assert_eq!(inst.y_num, 0);
}

#[test]
fn direction_persists_while_stationary() {
    let m = mapper();
    let cfg = config(48);
    let window = vec![cc(5, 5), cc(5, 5)];
    let (inst, dir) = frame_instance(&m, &cfg, 3, &window, 0, 1, 100, 500, Direction::Left);
    assert_eq!(dir, Direction::Left);
    assert_eq!(inst.unwrap().direction, Direction::Left);
}

#[test]
fn a_sentinel_coordinate_hides_the_run() {
    let m = mapper();
    let cfg = config(48);
    let window = vec![cc(0, 0), CompactCoordinate { x: 0, y: 0, region: 255 }];
    let (inst, dir) = frame_instance(&m, &cfg, 3, &window, 0, 1, 100, 500, Direction::Up);
    assert!(inst.is_none());
    assert_eq!(dir, Direction::Up);
}

#[test]
fn windowed_playback_matches_full_playback() {
    // The instance computed from a window slice equals the one computed from
    // the full coordinate sequence at the same index.
    let m = mapper();
    let cfg = config(48);
    let full: Vec<CompactCoordinate> = (0..10u8).map(|i| cc(i, 0)).collect();
    let (wstart, wend) = (2usize, 8usize);
    let window = run_window(&full, wstart, wend);
    assert_eq!(window.len(), 6);
    for idx in wstart..wend - 1 {
        let windowed = frame_instance(
            &m,
            &cfg,
            1,
            &window,
            idx - wstart,
            idx + 1 - wstart,
            125,
            500,
            Direction::Down,
        );
        let unwindowed = frame_instance(&m, &cfg, 1, &full, idx, idx + 1, 125, 500, Direction::Down);
        assert_eq!(windowed, unwindowed);
    }
}

#[test]
fn chunk_partition_matches_the_eight_way_default() {
    assert_eq!(chunk_size_for(2000, 8), 250);
    assert_eq!(chunk_size_for(2001, 8), 251);
    assert_eq!(chunk_size_for(1, 8), 1);
    assert_eq!(needed_chunk(505, 250, 8), 2);
    assert_eq!(needed_chunk(7999, 250, 8), 7);
    assert_eq!(window_bounds(0, 250, 2, 2000), (0, 252));
    assert_eq!(window_bounds(1, 250, 2, 2000), (248, 502));
    assert_eq!(window_bounds(7, 250, 2, 2000), (1748, 2000));
}

#[test]
fn median_index_rounds_to_the_middle_phase() {
    // time 250 ms at interval 125 ms: progress 2.5, median index 2.
    assert_eq!(median_coord_index(250, 125), 2);
    assert_eq!(median_coord_index(0, 125), 0);
    assert_eq!(median_coord_index(63, 125), 1);
}

#[test]
fn runs_shorter_than_the_window_load_an_empty_slice() {
    let coords = vec![cc(0, 0), cc(1, 0)];
    let w = run_window(&coords, 10, 20);
    assert_eq!(w.len(), 0);
}

#[test]
fn window_read_from_bytes_matches_decoded_coordinates() {
    let mut bytes = Vec::new();
    bytes.extend([9u8, 4, 0, 0, 0, 1, 1, 0, 1, 2, 0, 1, 3, 0, 1]);
    let metas = scan_metadata(&bytes).unwrap();
    assert_eq!(metas.len(), 1);
    let w = run_window_from_bytes(&bytes, metas[0], 1, 3);
    assert_eq!(w, vec![cc(1, 0), cc(2, 0)]);
}

#[test]
fn advance_reports_finished_and_out_of_window_runs() {
    let m = mapper();
    let cfg = config(48);
    let window = vec![cc(0, 0), cc(1, 0)];
    // Past the last coordinate: finished.
    let (f, _) = advance_run(&m, &cfg, 1, 2, &window, 0, 5000, 0, 500, Direction::Down);
    assert_eq!(f, RunFrame::Finished);
    // Alive but outside the resident window: the defensive skip.
    let (f, _) = advance_run(&m, &cfg, 1, 50, &window, 10, 0, 0, 500, Direction::Down);
    assert_eq!(f, RunFrame::OutsideWindow);
}

#[test]
fn frame_batch_collects_instances_in_run_order() {
    let m = mapper();
    let cfg = config(48);
    let metas = scan_metadata(&{
        let mut b = Vec::new();
        b.extend([1u8, 2, 0, 0, 0, 1, 1, 0, 1]); // run 0: (0,0) (1,0)
        b.extend([2u8, 1, 0, 9, 9, 1]); // run 1: (9,9), finished soon
        b
    })
    .unwrap();
    let windows = vec![vec![cc(0, 0), cc(1, 0)], vec![cc(9, 9)]];
    let phases = vec![0u64, 0];
    let mut directions = vec![Direction::Down, Direction::Down];
    let insts = frame_batch(&m, &cfg, &metas, &windows, 0, &phases, &mut directions, 500, 250);
    assert_eq!(insts.len(), 2);
    assert_eq!(insts[0].sprite_id, 1);
    // Run 0 moves right by one tile, half interpolated: 16 * 250 / 500.
    assert_eq!(insts[0].x_num, 16 * 250);
    assert_eq!(directions[0], Direction::Right);
    // Run 1 sits on its last coordinate.
    assert_eq!(insts[1].sprite_id, 2);
    assert_eq!(insts[1].x_num, 9 * 16 * 500);
    assert_eq!(directions[1], Direction::Down);
}

#[test]
fn phases_stay_under_the_interval() {
    let phases = assign_phases(100, 500);
    assert_eq!(phases.len(), 100);
    for p in phases {
        assert!(p < 500);
    }
}

#[test]
fn duration_and_frame_counts() {
    let metas = scan_metadata(&{
        let mut b = Vec::new();
        b.extend([1u8, 2, 0, 0, 0, 1, 1, 0, 1]);
        b.extend([2u8, 1, 0, 9, 9, 1]);
        b
    })
    .unwrap();
    assert_eq!(max_coord_count(&metas), 2);
    assert_eq!(frame_count(1000, 60), 60);
    assert_eq!(frame_count(1001, 60), 61);
    assert_eq!(frame_to_time_ms(60, 60), 1000);
    assert_eq!(frame_to_time_ms(1, 60), 16);
}
