//! The windowed run player: independent per-run playback cursors with
//! randomized phase offsets, a bounded resident coordinate-index window, and
//! exact rational interpolation of pixel positions.

use vstd::prelude::*;
use crate::coords::CompactCoordinate;
use crate::codec::{RunMetadata, parse_coords, lemma_parse_coords_index, lemma_parse_coords_len};
use crate::coords::Coord;
use crate::mapper::{CoordinateMapper, PIXEL_BOUND};
use crate::sprite::{Direction, SpriteInstance, AnimationState, direction_of_movement, abs_int};

verus! {

/// Bound on the effective interval between coordinate points.
pub const MAX_INTERVAL_MS: u64 = 0x10_0000;

/// Bound on an elapsed playback time.
pub const MAX_TIME_MS: u64 = 0x1000_0000_0000_0000;

/// Playback tuning: the base interval and speed, the chunking of the
/// coordinate-index domain, and the interpolation snap threshold.
#[derive(Debug, Clone, Copy, PartialEq, Eq, Structural)]
pub struct PlayerConfig {
    /// Base interval between coordinate points, in milliseconds.
    pub interval_ms: u64,
    /// Speed multiplier: the effective interval is `interval_ms / speed`.
    pub speed_multiplier: u64,
    /// How many chunks the coordinate-index domain is partitioned into.
    pub num_chunks: usize,
    /// Indices loaded beyond each chunk edge, absorbing phase-offset skew.
    pub overlap: usize,
    /// A pixel displacement beyond this suppresses interpolation.
    pub snap_threshold_px: i64,
}

impl PlayerConfig {
    pub open spec fn wf(self) -> bool {
        &&& 1 <= self.speed_multiplier
        &&& 1 <= self.interval_ms <= MAX_INTERVAL_MS
        &&& self.interval_ms as int / self.speed_multiplier as int >= 1
        &&& self.num_chunks >= 1
        &&& self.snap_threshold_px >= 0
    }

    /// The effective interval between coordinate points after the speed
    /// multiplier.
    pub fn effective_interval_ms(&self) -> (r: u64)
        requires
            self.wf(),
        ensures
            r == self.interval_ms as int / self.speed_multiplier as int,
            1 <= r <= MAX_INTERVAL_MS,
    {
        self.interval_ms / self.speed_multiplier
    }
}

/// Where a run's cursor stands at `time_ms` with phase offset
/// `phase_num / den`: coordinate index and interpolation remainder.
pub open spec fn cursor_index(time_ms: int, phase_num: int, den: int) -> int {
    (time_ms + phase_num) / den
}

pub open spec fn cursor_rem(time_ms: int, phase_num: int, den: int) -> int {
    (time_ms + phase_num) % den
}

/// The animation state of one run at a given time, or `None` once the run
/// has finished (its cursor passed its last coordinate) or holds nothing.
pub fn get_animation_state(time_ms: u64, phase_num: u64, den: u64, total_coords: usize) -> (r:
    Option<AnimationState>)
    requires
        1 <= den <= MAX_INTERVAL_MS,
        phase_num < den,
        time_ms <= MAX_TIME_MS,
    ensures
        ({
            let idx = cursor_index(time_ms as int, phase_num as int, den as int);
            if idx >= total_coords {
                r is None
            } else {
                r == Some(
                    AnimationState {
                        current_frame_index: idx as usize,
                        next_frame_index: (if idx + 1 < total_coords {
                            idx + 1
                        } else {
                            total_coords - 1
                        }) as usize,
                        interp_num: cursor_rem(time_ms as int, phase_num as int, den as int) as u64,
                        interp_den: den,
                    },
                )
            }
        }),
{
    let progress = time_ms + phase_num;
    let idx = progress / den;
    if idx >= total_coords as u64 {
        return None;
    }
    let current = idx as usize;
    let next = if current + 1 < total_coords {
        current + 1
    } else {
        total_coords - 1
    };
    Some(
        AnimationState {
            current_frame_index: current,
            next_frame_index: next,
            interp_num: progress % den,
            interp_den: den,
        },
    )
}

/// Size of one chunk when the index range [0, max_coords) is cut into
/// `num_chunks` equal parts, rounding up.
pub fn chunk_size_for(max_coords: usize, num_chunks: usize) -> (r: usize)
    requires
        num_chunks >= 1,
        max_coords + num_chunks <= usize::MAX,
    ensures
        r == (max_coords + num_chunks - 1) as int / num_chunks as int,
        max_coords >= 1 ==> r >= 1,
{
    proof {
        if max_coords >= 1 {
            assert((max_coords + num_chunks - 1) as int / num_chunks as int >= 1)
                by (nonlinear_arith)
                requires max_coords >= 1, num_chunks >= 1;
        }
    }
    (max_coords + num_chunks - 1) / num_chunks
}

/// The coordinate index whose chunk is resident at a given time, computed
/// from the time alone: the cursor index of a run with the median phase
/// offset of one half.
pub fn median_coord_index(time_ms: u64, den: u64) -> (r: u64)
    requires
        1 <= den <= MAX_INTERVAL_MS,
        time_ms <= MAX_TIME_MS,
    ensures
        r == (2 * time_ms + den) as int / (2 * den) as int,
{
    (2 * time_ms + den) / (2 * den)
}

/// The chunk holding a coordinate index, clamped to the last chunk.
pub fn needed_chunk(median_index: u64, chunk_size: usize, num_chunks: usize) -> (r: usize)
    requires
        chunk_size >= 1,
        num_chunks >= 1,
    ensures
        r == min_i(median_index as int / chunk_size as int, num_chunks - 1),
{
    let idx = median_index / (chunk_size as u64);
    if idx < (num_chunks - 1) as u64 {
        idx as usize
    } else {
        num_chunks - 1
    }
}

/// The resident index window for a chunk: the chunk widened by the overlap on
/// both sides, clamped to [0, max_coords).
pub fn window_bounds(chunk_idx: usize, chunk_size: usize, overlap: usize, max_coords: usize) -> (r:
    (usize, usize))
    requires
        chunk_size >= 1,
        (chunk_idx + 1) * chunk_size + overlap <= usize::MAX,
    ensures
        r.0 == if chunk_idx * chunk_size >= overlap {
            chunk_idx * chunk_size - overlap
        } else {
            0
        },
        r.1 == min_i((chunk_idx + 1) * chunk_size + overlap, max_coords as int),
        r.0 <= chunk_idx * chunk_size,
{
    proof {
        assert((chunk_idx + 1) * chunk_size == chunk_idx * chunk_size + chunk_size)
            by (nonlinear_arith);
    }
    let base = chunk_idx * chunk_size;
    let start = if base >= overlap {
        base - overlap
    } else {
        0
    };
    let wide = base + chunk_size + overlap;
    let end = if wide <= max_coords {
        wide
    } else {
        max_coords
    };
    (start, end)
}

pub open spec fn min_i(a: int, b: int) -> int {
    if a <= b {
        a
    } else {
        b
    }
}

/// The part of a run's coordinates inside the index window [start, end),
/// clamped to the run's own length: a run with no indices there holds an
/// empty slice.
pub open spec fn window_slice(coords: Seq<CompactCoordinate>, start: int, end: int) -> Seq<
    CompactCoordinate,
> {
    coords.subrange(min_i(start, coords.len() as int), min_i(end, coords.len() as int))
}

/// Slice one run's materialized coordinates to the resident window.
pub fn run_window(coords: &Vec<CompactCoordinate>, start: usize, end: usize) -> (w: Vec<
    CompactCoordinate,
>)
    requires
        start <= end,
    ensures
        w@ == window_slice(coords@, start as int, end as int),
{
    let s = if start <= coords.len() {
        start
    } else {
        coords.len()
    };
    let e = if end <= coords.len() {
        end
    } else {
        coords.len()
    };
    let mut w: Vec<CompactCoordinate> = Vec::new();
    let mut i: usize = s;
    while i < e
        invariant
            s <= i <= e <= coords@.len(),
            w@ == coords@.subrange(s as int, i as int),
        decreases e - i,
    {
        w.push(coords[i]);
        proof {
            assert(coords@.subrange(s as int, i + 1) =~= coords@.subrange(s as int, i as int).push(
                coords@[i as int],
            ));
        }
        i += 1;
    }
    w
}

/// Read one run's window straight from the decoded byte stream, using the
/// payload offset a metadata scan recorded: the result equals slicing that
/// run's decoded coordinates.
pub fn run_window_from_bytes(
    bytes: &Vec<u8>,
    meta: RunMetadata,
    start: usize,
    end: usize,
) -> (w: Vec<CompactCoordinate>)
    requires
        start <= end,
        meta.payload_offset + 3 * meta.coord_count <= bytes@.len(),
    ensures
        w@ == window_slice(
            parse_coords(bytes@.skip(meta.payload_offset as int), meta.coord_count as int),
            start as int,
            end as int,
        ),
{
    let n = bytes.len();
    let ghost full = parse_coords(bytes@.skip(meta.payload_offset as int), meta.coord_count as int);
    proof {
        lemma_parse_coords_len(bytes@.skip(meta.payload_offset as int), meta.coord_count as int);
    }
    let s = if start <= meta.coord_count {
        start
    } else {
        meta.coord_count
    };
    let e = if end <= meta.coord_count {
        end
    } else {
        meta.coord_count
    };
    let mut w: Vec<CompactCoordinate> = Vec::new();
    let mut i: usize = s;
    while i < e
        invariant
            s <= i <= e <= meta.coord_count,
            meta.payload_offset + 3 * meta.coord_count <= n == bytes@.len(),
            full == parse_coords(bytes@.skip(meta.payload_offset as int), meta.coord_count as int),
            full.len() == meta.coord_count,
            w@ == full.subrange(s as int, i as int),
        decreases e - i,
    {
        let off = meta.payload_offset + 3 * i;
        let c = CompactCoordinate { x: bytes[off], y: bytes[off + 1], region: bytes[off + 2] };
        proof {
            lemma_parse_coords_index(
                bytes@.skip(meta.payload_offset as int),
                meta.coord_count as int,
                i as int,
            );
            assert(bytes@.skip(meta.payload_offset as int)[3 * i] == bytes@[meta.payload_offset + 3
                * i]);
            assert(bytes@.skip(meta.payload_offset as int)[3 * i + 1] == bytes@[meta.payload_offset
                + 3 * i + 1]);
            assert(bytes@.skip(meta.payload_offset as int)[3 * i + 2] == bytes@[meta.payload_offset
                + 3 * i + 2]);
            assert(full.subrange(s as int, i + 1) =~= full.subrange(s as int, i as int).push(
                full[i as int],
            ));
        }
        w.push(c);
        i += 1;
    }
    w
}

/// The raw coordinate a compact coordinate stands for.
pub open spec fn coord_of_compact(c: CompactCoordinate) -> Coord {
    Coord { x: c.x as i64, y: c.y as i64, region: c.region as i64 }
}

/// What one run contributes to one frame, given its current and next
/// coordinate and its interpolation parameter `interp_num / den`:
/// - a coordinate mapping to the invalid sentinel hides the run this frame;
/// - a pixel displacement beyond the snap threshold suppresses interpolation
///   (the position snaps to the current coordinate);
/// - otherwise the position is interpolated linearly, exactly, with
///   denominator `den`;
/// - the facing direction changes only when the displacement is nonzero.
pub open spec fn instance_spec(
    mapper: CoordinateMapper,
    cfg: PlayerConfig,
    sprite_id: u8,
    coords: Seq<CompactCoordinate>,
    cur: int,
    nxt: int,
    interp_num: int,
    den: int,
    prev_dir: Direction,
) -> (Option<SpriteInstance>, Direction) {
    let mp = mapper.mapped_pixel(coord_of_compact(coords[cur]));
    let mn = mapper.mapped_pixel(coord_of_compact(coords[nxt]));
    if mp is None || mn is None {
        (None, prev_dir)
    } else {
        let p = mp->0;
        let q = mn->0;
        let dx = q.0 - p.0;
        let dy = q.1 - p.1;
        let t = if abs_int(dx) + abs_int(dy) > cfg.snap_threshold_px {
            0
        } else {
            interp_num
        };
        let dir = if dx != 0 || dy != 0 {
            direction_of_movement(dx, dy)
        } else {
            prev_dir
        };
        (
            Some(
                SpriteInstance {
                    x_num: (p.0 * den + dx * t) as i64,
                    y_num: (p.1 * den + dy * t) as i64,
                    denom: den as u64,
                    sprite_id,
                    direction: dir,
                },
            ),
            dir,
        )
    }
}

/// The interpolated numerators stay far inside i64.
pub proof fn lemma_instance_terms_fit(p: int, d: int, t: int, den: int)
    requires
        -PIXEL_BOUND <= p <= PIXEL_BOUND,
        -2 * PIXEL_BOUND <= d <= 2 * PIXEL_BOUND,
        0 <= t < den,
        1 <= den <= MAX_INTERVAL_MS,
    ensures
        -1 * PIXEL_BOUND * MAX_INTERVAL_MS <= p * den <= PIXEL_BOUND * MAX_INTERVAL_MS,
        -2 * PIXEL_BOUND * MAX_INTERVAL_MS <= d * t <= 2 * PIXEL_BOUND * MAX_INTERVAL_MS,
        -4 * PIXEL_BOUND * MAX_INTERVAL_MS <= p * den + d * t <= 4 * PIXEL_BOUND * MAX_INTERVAL_MS,
        4 * PIXEL_BOUND * MAX_INTERVAL_MS < i64::MAX,
{
    let pb = PIXEL_BOUND as int;
    let mi = MAX_INTERVAL_MS as int;
    assert(-pb * mi <= p * den <= pb * mi) by (nonlinear_arith)
        requires
            -pb <= p <= pb,
            1 <= den <= mi,
    ;
    assert(-2 * pb * mi <= d * t <= 2 * pb * mi) by (nonlinear_arith)
        requires
            -2 * pb <= d <= 2 * pb,
            0 <= t < den <= mi,
    ;
}

/// Compute one run's sprite instance from its resident window: the indices
/// are local to the window, and the result equals the specification on the
/// window's contents.
pub fn frame_instance(
    mapper: &CoordinateMapper,
    cfg: &PlayerConfig,
    sprite_id: u8,
    window: &Vec<CompactCoordinate>,
    local_cur: usize,
    local_nxt: usize,
    interp_num: u64,
    den: u64,
    prev_dir: Direction,
) -> (r: (Option<SpriteInstance>, Direction))
    requires
        mapper.wf(),
        cfg.wf(),
        local_cur < window@.len(),
        local_nxt < window@.len(),
        1 <= den <= MAX_INTERVAL_MS,
        interp_num < den,
    ensures
        r == instance_spec(
            *mapper,
            *cfg,
            sprite_id,
            window@,
            local_cur as int,
            local_nxt as int,
            interp_num as int,
            den as int,
            prev_dir,
        ),
{
    let cc = window[local_cur];
    let nc = window[local_nxt];
    let cur_coord = Coord { x: cc.x as i64, y: cc.y as i64, region: cc.region as i64 };
    let nxt_coord = Coord { x: nc.x as i64, y: nc.y as i64, region: nc.region as i64 };
    let mp = mapper.convert_coords(cur_coord);
    let mn = mapper.convert_coords(nxt_coord);
    match (mp, mn) {
        (crate::mapper::PixelPos::Valid { x: px, y: py }, crate::mapper::PixelPos::Valid {
            x: qx,
            y: qy,
        }) => {
            proof {
                crate::mapper::lemma_pixel_bounds(*mapper, cur_coord);
                crate::mapper::lemma_pixel_bounds(*mapper, nxt_coord);
            }
            let dx = qx - px;
            let dy = qy - py;
            let adx = if dx >= 0 { dx } else { -dx };
            let ady = if dy >= 0 { dy } else { -dy };
            let t: i64 = if adx + ady > cfg.snap_threshold_px {
                0
            } else {
                den_to_i64(interp_num)
            };
            let deni: i64 = den_to_i64(den);
            proof {
                lemma_instance_terms_fit(px as int, dx as int, t as int, den as int);
                lemma_instance_terms_fit(py as int, dy as int, t as int, den as int);
            }
            let x_num = px * deni + dx * t;
            let y_num = py * deni + dy * t;
            let dir = if dx != 0 || dy != 0 {
                Direction::from_movement(dx, dy)
            } else {
                prev_dir
            };
            (
                Some(SpriteInstance { x_num, y_num, denom: den, sprite_id, direction: dir }),
                dir,
            )
        },
        _ => (None, prev_dir),
    }
}

/// A value bounded by the interval cap fits i64.
fn den_to_i64(v: u64) -> (r: i64)
    requires
        v <= MAX_INTERVAL_MS,
    ensures
        r == v,
{
    v as i64
}

/// What one run contributed to one frame.
#[derive(Debug, Clone, Copy, PartialEq, Eq, Structural)]
pub enum RunFrame {
    /// The run's cursor passed its last coordinate: it contributes nothing
    /// from now on.
    Finished,
    /// The cursor fell outside the resident window: a windowing defect,
    /// skipped with nothing drawn, never fatal.
    OutsideWindow,
    /// A coordinate mapped to the invalid sentinel: skipped this frame.
    Hidden,
    Drawn(SpriteInstance),
}

/// One run's whole frame step: cursor position, window containment, then the
/// instance computation. The next coordinate falls back to the current one
/// where it lies beyond the window's end.
pub open spec fn advance_spec(
    mapper: CoordinateMapper,
    cfg: PlayerConfig,
    sprite_id: u8,
    total_coords: int,
    window: Seq<CompactCoordinate>,
    wstart: int,
    time_ms: int,
    phase_num: int,
    den: int,
    prev_dir: Direction,
) -> (RunFrame, Direction) {
    let idx = cursor_index(time_ms, phase_num, den);
    if idx >= total_coords {
        (RunFrame::Finished, prev_dir)
    } else if idx < wstart || idx - wstart >= window.len() {
        (RunFrame::OutsideWindow, prev_dir)
    } else {
        let lc = idx - wstart;
        let nxt = if idx + 1 < total_coords {
            idx + 1
        } else {
            total_coords - 1
        };
        let ln = if wstart <= nxt && nxt - wstart < window.len() {
            nxt - wstart
        } else {
            lc
        };
        let rem = cursor_rem(time_ms, phase_num, den);
        match instance_spec(mapper, cfg, sprite_id, window, lc, ln, rem, den, prev_dir) {
            (Some(inst), d) => (RunFrame::Drawn(inst), d),
            (None, d) => (RunFrame::Hidden, d),
        }
    }
}

/// Advance one run's cursor to `time_ms` and compute its contribution to the
/// frame from its resident window.
pub fn advance_run(
    mapper: &CoordinateMapper,
    cfg: &PlayerConfig,
    sprite_id: u8,
    total_coords: usize,
    window: &Vec<CompactCoordinate>,
    window_start: usize,
    time_ms: u64,
    phase_num: u64,
    den: u64,
    prev_dir: Direction,
) -> (r: (RunFrame, Direction))
    requires
        mapper.wf(),
        cfg.wf(),
        1 <= den <= MAX_INTERVAL_MS,
        phase_num < den,
        time_ms <= MAX_TIME_MS,
    ensures
        r == advance_spec(
            *mapper,
            *cfg,
            sprite_id,
            total_coords as int,
            window@,
            window_start as int,
            time_ms as int,
            phase_num as int,
            den as int,
            prev_dir,
        ),
{
    let st = match get_animation_state(time_ms, phase_num, den, total_coords) {
        Some(st) => st,
        None => {
            return (RunFrame::Finished, prev_dir);
        },
    };
    let idx = st.current_frame_index;
    if idx < window_start || idx - window_start >= window.len() {
        return (RunFrame::OutsideWindow, prev_dir);
    }
    let lc = idx - window_start;
    let nxt = st.next_frame_index;
    let ln = if nxt >= window_start && nxt - window_start < window.len() {
        nxt - window_start
    } else {
        lc
    };
    match frame_instance(mapper, cfg, sprite_id, window, lc, ln, st.interp_num, den, prev_dir) {
        (Some(inst), d) => (RunFrame::Drawn(inst), d),
        (None, d) => (RunFrame::Hidden, d),
    }
}

/// The instances a frame batch emits for runs `k` onward, in run order:
/// drawn instances only, each run's direction taken from `dirs`.
pub open spec fn batch_insts(
    mapper: CoordinateMapper,
    cfg: PlayerConfig,
    metas: Seq<RunMetadata>,
    windows: Seq<Vec<CompactCoordinate>>,
    wstart: int,
    phases: Seq<u64>,
    dirs: Seq<Direction>,
    den: int,
    time_ms: int,
    k: int,
) -> Seq<SpriteInstance>
    decreases metas.len() - k,
{
    if k < 0 || k >= metas.len() {
        Seq::empty()
    } else {
        let stepped = advance_spec(
            mapper,
            cfg,
            metas[k].sprite_id,
            metas[k].coord_count as int,
            windows[k]@,
            wstart,
            time_ms,
            phases[k] as int,
            den,
            dirs[k],
        );
        let rest = batch_insts(
            mapper,
            cfg,
            metas,
            windows,
            wstart,
            phases,
            dirs,
            den,
            time_ms,
            k + 1,
        );
        match stepped.0 {
            RunFrame::Drawn(inst) => seq![inst] + rest,
            _ => rest,
        }
    }
}

/// Build one frame's ordered instance batch: every run's cursor is advanced
/// independently, drawn instances are collected in run order, and each run's
/// remembered facing direction is updated in place.
pub fn frame_batch(
    mapper: &CoordinateMapper,
    cfg: &PlayerConfig,
    metas: &Vec<RunMetadata>,
    windows: &Vec<Vec<CompactCoordinate>>,
    window_start: usize,
    phases: &Vec<u64>,
    directions: &mut Vec<Direction>,
    den: u64,
    time_ms: u64,
) -> (insts: Vec<SpriteInstance>)
    requires
        mapper.wf(),
        cfg.wf(),
        windows@.len() == metas@.len(),
        phases@.len() == metas@.len(),
        old(directions)@.len() == metas@.len(),
        1 <= den <= MAX_INTERVAL_MS,
        forall|i: int| 0 <= i < phases@.len() ==> #[trigger] phases@[i] < den,
        time_ms <= MAX_TIME_MS,
    ensures
        final(directions)@.len() == metas@.len(),
        forall|k: int| 0 <= k < metas@.len() ==> #[trigger] final(directions)@[k] == advance_spec(
            *mapper,
            *cfg,
            metas@[k].sprite_id,
            metas@[k].coord_count as int,
            windows@[k]@,
            window_start as int,
            time_ms as int,
            phases@[k] as int,
            den as int,
            old(directions)@[k],
        ).1,
        insts@ == batch_insts(
            *mapper,
            *cfg,
            metas@,
            windows@,
            window_start as int,
            phases@,
            old(directions)@,
            den as int,
            time_ms as int,
            0,
        ),
{
    let ghost dirs0 = directions@;
    let mut insts: Vec<SpriteInstance> = Vec::new();
    let mut k: usize = 0;
    while k < metas.len()
        invariant
            mapper.wf(),
            cfg.wf(),
            windows@.len() == metas@.len(),
            phases@.len() == metas@.len(),
            directions@.len() == metas@.len(),
            dirs0.len() == metas@.len(),
            1 <= den <= MAX_INTERVAL_MS,
            forall|i: int| 0 <= i < phases@.len() ==> #[trigger] phases@[i] < den,
            time_ms <= MAX_TIME_MS,
            k <= metas@.len(),
            forall|i: int| k <= i < metas@.len() ==> #[trigger] directions@[i] == dirs0[i],
            forall|i: int| 0 <= i < k ==> #[trigger] directions@[i] == advance_spec(
                *mapper,
                *cfg,
                metas@[i].sprite_id,
                metas@[i].coord_count as int,
                windows@[i]@,
                window_start as int,
                time_ms as int,
                phases@[i] as int,
                den as int,
                dirs0[i],
            ).1,
            insts@ + batch_insts(
                *mapper,
                *cfg,
                metas@,
                windows@,
                window_start as int,
                phases@,
                dirs0,
                den as int,
                time_ms as int,
                k as int,
            ) == batch_insts(
                *mapper,
                *cfg,
                metas@,
                windows@,
                window_start as int,
                phases@,
                dirs0,
                den as int,
                time_ms as int,
                0,
            ),
        decreases metas@.len() - k,
    {
        let meta = metas[k];
        let (frame, dir) = advance_run(
            mapper,
            cfg,
            meta.sprite_id,
            meta.coord_count,
            &windows[k],
            window_start,
            time_ms,
            phases[k],
            den,
            directions[k],
        );
        let ghost pre_insts = insts@;
        match frame {
            RunFrame::Drawn(inst) => {
                insts.push(inst);
                proof {
                    assert(pre_insts + (seq![inst] + batch_insts(
                        *mapper,
                        *cfg,
                        metas@,
                        windows@,
                        window_start as int,
                        phases@,
                        dirs0,
                        den as int,
                        time_ms as int,
                        k + 1,
                    )) =~= insts@ + batch_insts(
                        *mapper,
                        *cfg,
                        metas@,
                        windows@,
                        window_start as int,
                        phases@,
                        dirs0,
                        den as int,
                        time_ms as int,
                        k + 1,
                    ));
                }
            },
            _ => {},
        }
        directions.set(k, dir);
        k += 1;
    }
    proof {
        assert(batch_insts(
            *mapper,
            *cfg,
            metas@,
            windows@,
            window_start as int,
            phases@,
            dirs0,
            den as int,
            time_ms as int,
            metas@.len() as int,
        ) =~= Seq::<SpriteInstance>::empty());
        assert(insts@ + Seq::<SpriteInstance>::empty() =~= insts@);
    }
    insts
}

/// The largest coordinate count over all runs' metadata; zero with no runs.
pub fn max_coord_count(metas: &Vec<RunMetadata>) -> (r: usize)
    ensures
        forall|i: int| 0 <= i < metas@.len() ==> (#[trigger] metas@[i]).coord_count <= r,
        metas@.len() == 0 ==> r == 0,
        metas@.len() > 0 ==> exists|i: int|
            0 <= i < metas@.len() && (#[trigger] metas@[i]).coord_count == r,
{
    let mut r: usize = 0;
    let mut i: usize = 0;
    while i < metas.len()
        invariant
            i <= metas@.len(),
            forall|j: int| 0 <= j < i ==> (#[trigger] metas@[j]).coord_count <= r,
            i == 0 ==> r == 0,
            i > 0 ==> exists|j: int| 0 <= j < i && (#[trigger] metas@[j]).coord_count == r,
        decreases metas@.len() - i,
    {
        if metas[i].coord_count > r {
            r = metas[i].coord_count;
        } else if i == 0 {
            r = metas[i].coord_count;
        }
        i += 1;
    }
    r
}

/// Total animation span in milliseconds: the largest coordinate count times
/// the effective interval.
pub fn animation_duration_ms(max_coords: usize, den: u64) -> (r: u64)
    requires
        den <= MAX_INTERVAL_MS,
        max_coords <= 0xFFFF_FFFF,
    ensures
        r == max_coords * den,
{
    proof {
        assert(max_coords * den <= 0xFFFF_FFFF * MAX_INTERVAL_MS) by (nonlinear_arith)
            requires max_coords <= 0xFFFF_FFFF, den <= MAX_INTERVAL_MS;
    }
    (max_coords as u64) * den
}

/// How many output frames cover a duration at a frame rate, rounding up.
pub fn frame_count(duration_ms: u64, fps: u64) -> (r: u64)
    requires
        1 <= fps <= 1000,
        duration_ms <= 0xFFFF_FFFF_FFFF,
    ensures
        r == (duration_ms * fps + 999) as int / 1000,
{
    proof {
        assert(duration_ms * fps <= 0xFFFF_FFFF_FFFF * 1000) by (nonlinear_arith)
            requires duration_ms <= 0xFFFF_FFFF_FFFF, fps <= 1000;
    }
    (duration_ms * fps + 999) / 1000
}

/// The elapsed time of an output frame, in whole milliseconds.
pub fn frame_to_time_ms(frame_number: u64, fps: u64) -> (r: u64)
    requires
        1 <= fps,
        frame_number <= 0xFFFF_FFFF,
    ensures
        r == (frame_number * 1000) as int / fps as int,
{
    (frame_number * 1000) / fps
}

/// Relies on rand::random: a fresh pseudo-random value; nothing is assumed
/// of its distribution or determinism.
#[verifier::external_body]
fn random_u64() -> u64 {
    rand::random::<u64>()
}

/// Draw one run's phase offset: a numerator under `den`, so a phase in
/// [0, 1) of the effective interval.
pub fn draw_phase(den: u64) -> (r: u64)
    requires
        den >= 1,
    ensures
        r < den,
{
    random_u64() % den
}

/// Draw an independent phase offset for every run, desynchronizing otherwise
/// identical playback cadences.
pub fn assign_phases(count: usize, den: u64) -> (v: Vec<u64>)
    requires
        den >= 1,
    ensures
        v@.len() == count,
        forall|i: int| 0 <= i < count ==> #[trigger] v@[i] < den,
{
    let mut v: Vec<u64> = Vec::new();
    let mut i: usize = 0;
    while i < count
        invariant
            i <= count,
            v@.len() == i,
            den >= 1,
            forall|j: int| 0 <= j < i ==> #[trigger] v@[j] < den,
        decreases count - i,
    {
        let p = draw_phase(den);
        v.push(p);
        i += 1;
    }
    v
}

/// Windowed playback equals unwindowed playback: at any coordinate index
/// inside the resident window, the instance and direction computed from the
/// window slice equal those computed from the run's full coordinate sequence
/// at the same index.
pub proof fn lemma_windowed_matches_full(
    mapper: CoordinateMapper,
    cfg: PlayerConfig,
    sprite_id: u8,
    full: Seq<CompactCoordinate>,
    wstart: int,
    wend: int,
    cur: int,
    nxt: int,
    interp_num: int,
    den: int,
    prev_dir: Direction,
)
    requires
        0 <= wstart <= cur < wend <= full.len(),
        wstart <= nxt < wend,
    ensures
        instance_spec(
            mapper,
            cfg,
            sprite_id,
            window_slice(full, wstart, wend),
            cur - wstart,
            nxt - wstart,
            interp_num,
            den,
            prev_dir,
        ) == instance_spec(mapper, cfg, sprite_id, full, cur, nxt, interp_num, den, prev_dir),
{
    let w = window_slice(full, wstart, wend);
    assert(w[cur - wstart] == full[cur]);
    assert(w[nxt - wstart] == full[nxt]);
}

/// With the resident window sized over the cursor, the defensive
/// outside-window skip never fires: an unfinished run whose cursor index lies
/// inside [wstart, wend) is always served from a window sliced there.
pub proof fn lemma_window_covers_cursor(
    mapper: CoordinateMapper,
    cfg: PlayerConfig,
    sprite_id: u8,
    coords: Seq<CompactCoordinate>,
    wstart: int,
    wend: int,
    time_ms: int,
    phase_num: int,
    den: int,
    prev_dir: Direction,
)
    requires
        den >= 1,
        0 <= wstart <= wend,
        wstart <= cursor_index(time_ms, phase_num, den) < wend,
        cursor_index(time_ms, phase_num, den) < coords.len(),
    ensures
        advance_spec(
            mapper,
            cfg,
            sprite_id,
            coords.len() as int,
            window_slice(coords, wstart, wend),
            wstart,
            time_ms,
            phase_num,
            den,
            prev_dir,
        ).0 != RunFrame::OutsideWindow,
        advance_spec(
            mapper,
            cfg,
            sprite_id,
            coords.len() as int,
            window_slice(coords, wstart, wend),
            wstart,
            time_ms,
            phase_num,
            den,
            prev_dir,
        ).0 != RunFrame::Finished,
{
    let idx = cursor_index(time_ms, phase_num, den);
    let w = window_slice(coords, wstart, wend);
    assert(w.len() == min_i(wend, coords.len() as int) - wstart);
    assert(idx - wstart < w.len());
}

/// A pixel displacement beyond the snap threshold suppresses interpolation:
/// the emitted position is exactly the current coordinate's pixel position,
/// not an interpolated one.
pub proof fn lemma_snap_suppresses_interpolation(
    mapper: CoordinateMapper,
    cfg: PlayerConfig,
    sprite_id: u8,
    coords: Seq<CompactCoordinate>,
    cur: int,
    nxt: int,
    interp_num: int,
    den: int,
    prev_dir: Direction,
)
    requires
        mapper.wf(),
        cfg.wf(),
        0 <= cur < coords.len(),
        0 <= nxt < coords.len(),
        0 <= interp_num < den,
        den <= MAX_INTERVAL_MS,
        mapper.mapped_pixel(coord_of_compact(coords[cur])) is Some,
        mapper.mapped_pixel(coord_of_compact(coords[nxt])) is Some,
        ({
            let p = mapper.mapped_pixel(coord_of_compact(coords[cur]))->0;
            let q = mapper.mapped_pixel(coord_of_compact(coords[nxt]))->0;
            abs_int(q.0 - p.0) + abs_int(q.1 - p.1) > cfg.snap_threshold_px
        }),
    ensures
        ({
            let p = mapper.mapped_pixel(coord_of_compact(coords[cur]))->0;
            let r = instance_spec(
                mapper,
                cfg,
                sprite_id,
                coords,
                cur,
                nxt,
                interp_num,
                den,
                prev_dir,
            );
            &&& r.0 is Some
            &&& r.0->0.x_num == p.0 * den
            &&& r.0->0.y_num == p.1 * den
        }),
{
    let p = mapper.mapped_pixel(coord_of_compact(coords[cur]))->0;
    let q = mapper.mapped_pixel(coord_of_compact(coords[nxt]))->0;
    crate::mapper::lemma_pixel_bounds(mapper, coord_of_compact(coords[cur]));
    crate::mapper::lemma_pixel_bounds(mapper, coord_of_compact(coords[nxt]));
    lemma_instance_terms_fit(p.0, q.0 - p.0, 0, den);
    lemma_instance_terms_fit(p.1, q.1 - p.1, 0, den);
}

} // verus!
