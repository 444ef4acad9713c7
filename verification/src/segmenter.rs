//! The run segmenter: a single-pass state machine that splits each
//! (user, session) stream into runs of plausible continuous movement, then
//! discards runs under a minimum duration.

use vstd::prelude::*;
use crate::coords::Coord;
use crate::mapper::{CoordinateMapper, MAX_LOCAL_COORD};
use crate::sample::{Sample, same_group, stream_sorted, all_in_bounds};
use crate::warp::{TransitionTable, transition_allowed, valid_coordinate_pair_v2};

verus! {

/// Tuning of the split rules and of the post-pass filter.
#[derive(Debug, Clone, Copy, PartialEq, Eq, Structural)]
pub struct SegmenterConfig {
    /// A temporal gap at least this long always splits.
    pub gap_threshold_ms: u64,
    /// Candidate runs shorter than this are discarded, not emitted.
    pub min_duration_ms: u64,
    /// Enables the movement-validity and checkpoint-progress rules.
    pub strict: bool,
    /// Opt-in: only emit runs whose first sample lies in a reset region.
    pub clean_start_only: bool,
    /// Strict mode: how many samples into a run the early-teleport rule watches.
    pub early_jump_sample_limit: u64,
    /// Strict mode: the pixel displacement the early-teleport rule tolerates.
    pub early_jump_px: i64,
    /// Strict mode: largest same-region local move counted as contiguous.
    pub local_step_budget: i64,
    /// Strict mode: checkpoint index a tolerated backtrack must stay above;
    /// also the progress index a fresh run starts from.
    pub checkpoint_floor: usize,
}

/// Everything the segmenter reads and never mutates: the configuration, the
/// coordinate mapper, the reset region sets, the transition validity table,
/// and the ordered checkpoint list.
pub struct SegmentEnv {
    pub config: SegmenterConfig,
    pub mapper: CoordinateMapper,
    /// Entering one of these regions from outside signals a new episode.
    pub reset_regions: Vec<i64>,
    /// Reset regions together with their adjacency: arriving from one of
    /// these does not signal a new episode.
    pub reset_adjacent: Vec<i64>,
    /// Region transitions an external warp table holds valid.
    pub transitions: TransitionTable,
    /// The fixed ordered checkpoint list of expected narrative progression.
    pub checkpoints: Vec<i64>,
}

pub open spec fn region_listed(l: Seq<i64>, region: i64) -> bool {
    exists|i: int| 0 <= i < l.len() && l[i] == region
}

/// First position of `region` in the checkpoint list, if any.
pub open spec fn checkpoint_index(l: Seq<i64>, region: i64) -> Option<int>
    decreases l.len(),
{
    if l.len() == 0 {
        None
    } else if l[0] == region {
        Some(0)
    } else {
        match checkpoint_index(l.skip(1), region) {
            Some(i) => Some(i + 1),
            None => None,
        }
    }
}

impl SegmentEnv {
    pub open spec fn wf(self) -> bool {
        &&& self.mapper.wf()
        &&& 0 <= self.config.early_jump_px <= MAX_LOCAL_COORD
        &&& 0 <= self.config.local_step_budget <= 4 * MAX_LOCAL_COORD
        &&& self.config.checkpoint_floor <= self.checkpoints@.len()
    }
}

/// Squared pixel displacement between the mapped positions of two samples,
/// compared against a squared threshold. A pair of unknown regions moves
/// nowhere; a single unknown region is treated as exceeding any threshold.
pub open spec fn displacement_exceeds(env: SegmentEnv, prev: Sample, curr: Sample, thr: int) -> bool {
    match (env.mapper.mapped_pixel(prev.coord), env.mapper.mapped_pixel(curr.coord)) {
        (Some(p), Some(q)) => (q.0 - p.0) * (q.0 - p.0) + (q.1 - p.1) * (q.1 - p.1) > thr * thr,
        (None, None) => false,
        _ => true,
    }
}

/// Rule: a temporal gap at least the threshold splits.
pub open spec fn gap_split(env: SegmentEnv, prev: Sample, curr: Sample) -> bool {
    curr.timestamp_ms - prev.timestamp_ms >= env.config.gap_threshold_ms
}

/// Rule: re-entering a reset region from a region neither reset nor adjacent
/// splits.
pub open spec fn reset_split(env: SegmentEnv, prev: Sample, curr: Sample) -> bool {
    region_listed(env.reset_regions@, curr.coord.region) && !region_listed(
        env.reset_adjacent@,
        prev.coord.region,
    )
}

/// Strict rule: within the first `early_jump_sample_limit` samples of a
/// candidate run, a pixel displacement beyond `early_jump_px` flags an
/// implausible early teleport; the candidate is split off and never emitted.
/// The displacement measured is that of the one step under evaluation,
/// between the two samples' mapped global positions: a teleport is a single
/// over-long step, where distance legitimately walked since the run's start
/// grows past any such threshold within a few samples.
pub open spec fn early_jump_split(env: SegmentEnv, prev: Sample, curr: Sample, step_count: int) -> bool {
    &&& env.config.strict
    &&& step_count < env.config.early_jump_sample_limit
    &&& displacement_exceeds(env, prev, curr, env.config.early_jump_px as int)
}

/// A same-region move whose local displacement stays within the budget.
pub open spec fn contiguous_move(env: SegmentEnv, prev: Sample, curr: Sample) -> bool {
    &&& prev.coord.region == curr.coord.region
    &&& abs_i(curr.coord.x - prev.coord.x) + abs_i(curr.coord.y - prev.coord.y)
        <= env.config.local_step_budget
}

pub open spec fn abs_i(x: int) -> int {
    if x >= 0 {
        x
    } else {
        -x
    }
}

/// Strict rule: a transition neither validated by the warp table nor a
/// contiguous same-region move is invalid.
pub open spec fn transition_invalid(env: SegmentEnv, prev: Sample, curr: Sample) -> bool {
    &&& !transition_allowed(env.transitions.pairs@, prev.coord.region, curr.coord.region)
    &&& !contiguous_move(env, prev, curr)
}

/// Strict rule: a checkpoint more than one step ahead of the run's progress
/// is an illegal skip-ahead.
pub open spec fn skip_ahead(env: SegmentEnv, curr: Sample, progress: int) -> bool {
    match checkpoint_index(env.checkpoints@, curr.coord.region) {
        Some(i) => i - progress > 1,
        None => false,
    }
}

/// A backtrack to an earlier checkpoint is tolerated as long as it stays
/// above the configured floor.
pub open spec fn legal_backtrack(env: SegmentEnv, curr: Sample, progress: int) -> bool {
    match checkpoint_index(env.checkpoints@, curr.coord.region) {
        Some(i) => i < progress && i > env.config.checkpoint_floor,
        None => false,
    }
}

/// The progress index after seeing `curr`: it advances to the sample's
/// checkpoint when that is at most one step ahead, and never regresses.
pub open spec fn next_progress(env: SegmentEnv, curr: Sample, progress: int) -> int {
    match checkpoint_index(env.checkpoints@, curr.coord.region) {
        Some(i) => if i - progress > 1 {
            progress
        } else if i > progress {
            i
        } else {
            progress
        },
        None => progress,
    }
}

/// The split predicate, evaluated between consecutive samples of one group:
/// any one rule suffices. A tolerated backtrack excuses an invalid transition
/// but no other rule.
pub open spec fn should_split(
    env: SegmentEnv,
    prev: Sample,
    curr: Sample,
    step_count: int,
    progress: int,
) -> bool {
    ||| gap_split(env, prev, curr)
    ||| reset_split(env, prev, curr)
    ||| early_jump_split(env, prev, curr, step_count)
    ||| (env.config.strict && transition_invalid(env, prev, curr) && !legal_backtrack(
        env,
        curr,
        progress,
    ))
    ||| (env.config.strict && skip_ahead(env, curr, progress))
}

/// A temporal gap at or above the threshold forces a split whatever every
/// other rule, the policy, and the run's state say.
pub proof fn lemma_gap_always_splits(
    env: SegmentEnv,
    prev: Sample,
    curr: Sample,
    step_count: int,
    progress: int,
)
    requires
        curr.timestamp_ms - prev.timestamp_ms >= env.config.gap_threshold_ms,
    ensures
        should_split(env, prev, curr, step_count, progress),
{
}

/// What one evaluation of the split predicate decides.
#[derive(Debug, Clone, Copy, PartialEq, Eq, Structural)]
pub struct SplitDecision {
    /// Close the candidate run before `curr`.
    pub split: bool,
    /// The early-teleport rule fired: the closed candidate is not emitted.
    pub early_jump: bool,
    /// The progress index to carry on with if the run continues.
    pub next_progress: usize,
}

/// Whether `region` occurs in `list`.
pub fn region_in_list(list: &Vec<i64>, region: i64) -> (r: bool)
    ensures
        r == region_listed(list@, region),
{
    let mut i: usize = 0;
    while i < list.len()
        invariant
            i <= list@.len(),
            forall|j: int| 0 <= j < i ==> list@[j] != region,
        decreases list@.len() - i,
    {
        if list[i] == region {
            return true;
        }
        i += 1;
    }
    false
}

/// First position of `region` in the checkpoint list.
pub fn find_checkpoint(list: &Vec<i64>, region: i64) -> (r: Option<usize>)
    ensures
        match r {
            Some(i) => checkpoint_index(list@, region) == Some(i as int),
            None => checkpoint_index(list@, region) is None,
        },
{
    let mut i: usize = 0;
    proof {
        assert(list@.skip(0) =~= list@);
    }
    while i < list.len()
        invariant
            i <= list@.len(),
            checkpoint_index(list@, region) == match checkpoint_index(
                list@.skip(i as int),
                region,
            ) {
                Some(k) => Some(k + i),
                None => None::<int>,
            },
        decreases list@.len() - i,
    {
        proof {
            assert(list@.skip(i as int)[0] == list@[i as int]);
            assert(list@.skip(i as int).skip(1) =~= list@.skip(i as int + 1));
        }
        if list[i] == region {
            return Some(i);
        }
        i += 1;
    }
    None
}

/// Evaluate the split predicate between two consecutive samples of one group,
/// `step_count` samples into the candidate run, with progress index
/// `progress`.
pub fn split_eval(
    env: &SegmentEnv,
    prev: Sample,
    curr: Sample,
    step_count: u64,
    progress: usize,
) -> (r: SplitDecision)
    requires
        env.wf(),
        crate::sample::sample_in_bounds(prev),
        crate::sample::sample_in_bounds(curr),
        prev.timestamp_ms <= curr.timestamp_ms,
        progress <= env.checkpoints@.len(),
    ensures
        r.split == should_split(*env, prev, curr, step_count as int, progress as int),
        r.early_jump == early_jump_split(*env, prev, curr, step_count as int),
        r.next_progress == next_progress(*env, curr, progress as int),
        r.next_progress <= env.checkpoints@.len(),
{
    let gap = gap_split_eval(env, prev, curr);
    let reset = region_in_list(&env.reset_regions, curr.coord.region) && !region_in_list(
        &env.reset_adjacent,
        prev.coord.region,
    );
    let early = early_jump_eval(env, prev, curr, step_count);

    let warp_ok = valid_coordinate_pair_v2(&env.transitions, prev.coord.region, curr.coord.region);
    let dx = curr.coord.x - prev.coord.x;
    let dy = curr.coord.y - prev.coord.y;
    let adx = if dx >= 0 { dx } else { -dx };
    let ady = if dy >= 0 { dy } else { -dy };
    let contiguous = prev.coord.region == curr.coord.region && adx + ady
        <= env.config.local_step_budget;
    let invalid = !warp_ok && !contiguous;

    let cp = find_checkpoint(&env.checkpoints, curr.coord.region);
    let (skip, backtrack, nextp) = match cp {
        Some(i) => {
            proof {
                lemma_checkpoint_index_bound(env.checkpoints@, curr.coord.region);
            }
            let skip = i > progress && i - progress > 1;
            let backtrack = i < progress && i > env.config.checkpoint_floor;
            let nextp = if skip {
                progress
            } else if i > progress {
                i
            } else {
                progress
            };
            (skip, backtrack, nextp)
        },
        None => (false, false, progress),
    };

    let split = gap || reset || early || (env.config.strict && invalid && !backtrack)
        || (env.config.strict && skip);
    SplitDecision { split, early_jump: early, next_progress: nextp }
}

/// A found checkpoint index lies inside the list.
pub proof fn lemma_checkpoint_index_bound(l: Seq<i64>, region: i64)
    ensures
        checkpoint_index(l, region) is Some ==> 0 <= checkpoint_index(l, region)->0 < l.len(),
    decreases l.len(),
{
    if l.len() > 0 && l[0] != region {
        lemma_checkpoint_index_bound(l.skip(1), region);
    }
}

/// A run: a maximal contiguous span of samples of one (user, session) judged
/// one continuous episode of movement. Never mutated after creation.
pub struct Run {
    pub sprite_id: u8,
    pub user: u64,
    pub session: u64,
    pub start_ts: u64,
    pub end_ts: u64,
    pub coords: Vec<Coord>,
}

/// Mathematical image of a run.
#[verifier::ext_equal]
pub struct RunV {
    pub sprite_id: u8,
    pub user: u64,
    pub session: u64,
    pub start_ts: u64,
    pub end_ts: u64,
    pub coords: Seq<Coord>,
}

impl View for Run {
    type V = RunV;

    open spec fn view(&self) -> RunV {
        RunV {
            sprite_id: self.sprite_id,
            user: self.user,
            session: self.session,
            start_ts: self.start_ts,
            end_ts: self.end_ts,
            coords: self.coords@,
        }
    }
}

pub open spec fn seg_runs_view(rs: Seq<Run>) -> Seq<RunV> {
    rs.map_values(|r: Run| r@)
}

/// The run built from the sample span [a, b] of one group.
pub open spec fn run_of(samples: Seq<Sample>, a: int, b: int) -> RunV {
    RunV {
        sprite_id: samples[a].sprite_id,
        user: samples[a].user,
        session: samples[a].session,
        start_ts: samples[a].timestamp_ms,
        end_ts: samples[b].timestamp_ms,
        coords: samples.subrange(a, b + 1).map_values(|s: Sample| s.coord),
    }
}

/// The post-pass filter: a candidate span is emitted when it lasts at least
/// the minimum duration and, in clean-start mode, begins in a reset region.
pub open spec fn emit_ok(env: SegmentEnv, samples: Seq<Sample>, a: int, b: int) -> bool {
    &&& samples[b].timestamp_ms - samples[a].timestamp_ms >= env.config.min_duration_ms
    &&& (env.config.clean_start_only ==> region_listed(
        env.reset_regions@,
        samples[a].coord.region,
    ))
}

/// The segmentation state machine over one group, from sample `j` on, with
/// the open candidate starting at `a` and progress index `p`: on a split the
/// closed span is emitted unless filtered or invalidated by the
/// early-teleport rule, and the state resets; at stream end the open span is
/// the group's last candidate.
pub open spec fn segment_rec(
    env: SegmentEnv,
    samples: Seq<Sample>,
    j: int,
    a: int,
    p: int,
) -> Seq<RunV>
    decreases samples.len() - j,
{
    if j >= samples.len() {
        if emit_ok(env, samples, a, samples.len() - 1) {
            seq![run_of(samples, a, samples.len() - 1)]
        } else {
            Seq::empty()
        }
    } else {
        let prev = samples[j - 1];
        let curr = samples[j];
        if should_split(env, prev, curr, j - a, p) {
            let emitted = if emit_ok(env, samples, a, j - 1) && !early_jump_split(
                env,
                prev,
                curr,
                j - a,
            ) {
                seq![run_of(samples, a, j - 1)]
            } else {
                Seq::empty()
            };
            emitted + segment_rec(env, samples, j + 1, j, env.config.checkpoint_floor as int)
        } else {
            segment_rec(env, samples, j + 1, a, next_progress(env, curr, p))
        }
    }
}

/// All runs the segmenter emits for one group.
pub open spec fn segment_group_spec(env: SegmentEnv, samples: Seq<Sample>) -> Seq<RunV> {
    if samples.len() == 0 {
        Seq::empty()
    } else {
        segment_rec(env, samples, 1, 0, env.config.checkpoint_floor as int)
    }
}

/// Every run the state machine emits lasts at least the minimum duration, is
/// non-empty, and in clean-start mode begins in a reset region.
pub proof fn lemma_segment_rec_filtered(env: SegmentEnv, samples: Seq<Sample>, j: int, a: int, p: int)
    requires
        0 <= a < j <= samples.len(),
    ensures
        forall|k: int| 0 <= k < segment_rec(env, samples, j, a, p).len() ==> {
            let r = #[trigger] segment_rec(env, samples, j, a, p)[k];
            &&& r.end_ts - r.start_ts >= env.config.min_duration_ms
            &&& r.coords.len() >= 1
            &&& (env.config.clean_start_only ==> region_listed(
                env.reset_regions@,
                r.coords[0].region,
            ))
        },
    decreases samples.len() - j,
{
    if j >= samples.len() {
        if emit_ok(env, samples, a, samples.len() - 1) {
            let r = run_of(samples, a, samples.len() - 1);
            assert(r.coords.len() == samples.len() - a);
            assert(r.coords[0] == samples[a].coord);
        }
    } else {
        let prev = samples[j - 1];
        let curr = samples[j];
        let cur = segment_rec(env, samples, j, a, p);
        if should_split(env, prev, curr, j - a, p) {
            let rest = segment_rec(env, samples, j + 1, j, env.config.checkpoint_floor as int);
            lemma_segment_rec_filtered(
                env,
                samples,
                j + 1,
                j,
                env.config.checkpoint_floor as int,
            );
            if emit_ok(env, samples, a, j - 1) && !early_jump_split(env, prev, curr, j - a) {
                let r = run_of(samples, a, j - 1);
                assert(r.coords.len() == j - a);
                assert(r.coords[0] == samples[a].coord);
                assert(forall|k: int| 1 <= k < cur.len() ==> #[trigger] cur[k] == rest[k - 1]);
            } else {
                assert(forall|k: int| 0 <= k < cur.len() ==> #[trigger] cur[k] == rest[k]);
            }
        } else {
            let rest = segment_rec(env, samples, j + 1, a, next_progress(env, curr, p));
            lemma_segment_rec_filtered(env, samples, j + 1, a, next_progress(env, curr, p));
            assert(forall|k: int| 0 <= k < cur.len() ==> #[trigger] cur[k] == rest[k]);
        }
    }
}

/// For all sample streams, every emitted run lasts at least the configured
/// minimum duration, holds at least one coordinate, and in clean-start mode
/// begins in a reset region.
pub proof fn lemma_emitted_runs_filtered(env: SegmentEnv, samples: Seq<Sample>)
    ensures
        forall|k: int| 0 <= k < segment_group_spec(env, samples).len() ==> {
            let r = #[trigger] segment_group_spec(env, samples)[k];
            &&& r.end_ts - r.start_ts >= env.config.min_duration_ms
            &&& r.coords.len() >= 1
            &&& (env.config.clean_start_only ==> region_listed(
                env.reset_regions@,
                r.coords[0].region,
            ))
        },
{
    if samples.len() > 0 {
        lemma_segment_rec_filtered(env, samples, 1, 0, env.config.checkpoint_floor as int);
    }
}

/// Timestamps never run backwards over a span whose adjacent pairs are
/// time-ordered.
pub proof fn lemma_ts_monotone(samples: Seq<Sample>, i: int, j: int)
    requires
        forall|k: int| 0 <= k < samples.len() - 1 ==> (#[trigger] samples[k]).timestamp_ms
            <= samples[k + 1].timestamp_ms,
        0 <= i <= j < samples.len(),
    ensures
        samples[i].timestamp_ms <= samples[j].timestamp_ms,
    decreases j - i,
{
    if i < j {
        lemma_ts_monotone(samples, i, j - 1);
    }
}

/// Build the run for the sample span [a, b].
fn make_run(samples: &Vec<Sample>, a: usize, b: usize) -> (r: Run)
    requires
        a <= b < samples@.len(),
    ensures
        r@ == run_of(samples@, a as int, b as int),
{
    let n = samples.len();
    let mut coords: Vec<Coord> = Vec::new();
    let mut i: usize = a;
    while i <= b
        invariant
            a <= i <= b + 1,
            b < n == samples@.len(),
            coords@ == samples@.subrange(a as int, i as int).map_values(|s: Sample| s.coord),
        decreases b + 1 - i,
    {
        coords.push(samples[i].coord);
        proof {
            assert(samples@.subrange(a as int, i + 1) =~= samples@.subrange(
                a as int,
                i as int,
            ).push(samples@[i as int]));
            assert(samples@.subrange(a as int, i as int).push(samples@[i as int]).map_values(
                |s: Sample| s.coord,
            ) =~= samples@.subrange(a as int, i as int).map_values(|s: Sample| s.coord).push(
                samples@[i as int].coord,
            ));
        }
        i += 1;
    }
    Run {
        sprite_id: samples[a].sprite_id,
        user: samples[a].user,
        session: samples[a].session,
        start_ts: samples[a].timestamp_ms,
        end_ts: samples[b].timestamp_ms,
        coords,
    }
}

/// Segment one group's samples into runs: a single pass of the split state
/// machine followed by the duration and clean-start filters. The samples must
/// all belong to one (user, session) and be time-ordered.
pub fn segment_group(env: &SegmentEnv, samples: &Vec<Sample>) -> (runs: Vec<Run>)
    requires
        env.wf(),
        all_in_bounds(samples@),
        forall|i: int| 0 <= i < samples@.len() ==> same_group(samples@[0], #[trigger] samples@[i]),
        forall|i: int| 0 <= i < samples@.len() - 1 ==> (#[trigger] samples@[i]).timestamp_ms
            <= samples@[i + 1].timestamp_ms,
    ensures
        seg_runs_view(runs@) == segment_group_spec(*env, samples@),
{
    let mut runs: Vec<Run> = Vec::new();
    if samples.len() == 0 {
        proof {
            assert(seg_runs_view(runs@) =~= Seq::<RunV>::empty());
        }
        return runs;
    }
    let mut a: usize = 0;
    let mut p: usize = env.config.checkpoint_floor;
    let mut j: usize = 1;
    while j < samples.len()
        invariant
            env.wf(),
            all_in_bounds(samples@),
            forall|i: int| 0 <= i < samples@.len() ==> same_group(
                samples@[0],
                #[trigger] samples@[i],
            ),
            forall|i: int| 0 <= i < samples@.len() - 1 ==> (#[trigger] samples@[i]).timestamp_ms
                <= samples@[i + 1].timestamp_ms,
            0 <= a < j <= samples@.len(),
            p <= env.checkpoints@.len(),
            seg_runs_view(runs@) + segment_rec(*env, samples@, j as int, a as int, p as int)
                == segment_group_spec(*env, samples@),
        decreases samples@.len() - j,
    {
        let prev = samples[j - 1];
        let curr = samples[j];
        proof {
            lemma_ts_monotone(samples@, j - 1, j as int);
        }
        let d = split_eval(env, prev, curr, (j - a) as u64, p);
        let ghost pre_runs = runs@;
        if d.split {
            proof {
                lemma_ts_monotone(samples@, a as int, j - 1);
            }
            let dur_ok = samples[j - 1].timestamp_ms - samples[a].timestamp_ms
                >= env.config.min_duration_ms;
            let start_ok = !env.config.clean_start_only || region_in_list(
                &env.reset_regions,
                samples[a].coord.region,
            );
            if dur_ok && start_ok && !d.early_jump {
                let run = make_run(samples, a, j - 1);
                runs.push(run);
                proof {
                    assert(emit_ok(*env, samples@, a as int, j - 1));
                    assert(seg_runs_view(runs@) =~= seg_runs_view(pre_runs).push(
                        run_of(samples@, a as int, j - 1),
                    ));
                    assert(seg_runs_view(pre_runs) + (seq![run_of(samples@, a as int, j - 1)]
                        + segment_rec(
                        *env,
                        samples@,
                        j + 1,
                        j as int,
                        env.config.checkpoint_floor as int,
                    )) =~= seg_runs_view(runs@) + segment_rec(
                        *env,
                        samples@,
                        j + 1,
                        j as int,
                        env.config.checkpoint_floor as int,
                    ));
                }
            } else {
                proof {
                    assert(!(emit_ok(*env, samples@, a as int, j - 1) && !early_jump_split(
                        *env,
                        prev,
                        curr,
                        j - a,
                    )));
                    assert(Seq::<RunV>::empty() + segment_rec(
                        *env,
                        samples@,
                        j + 1,
                        j as int,
                        env.config.checkpoint_floor as int,
                    ) =~= segment_rec(
                        *env,
                        samples@,
                        j + 1,
                        j as int,
                        env.config.checkpoint_floor as int,
                    ));
                }
            }
            a = j;
            p = env.config.checkpoint_floor;
        } else {
            p = d.next_progress;
        }
        j += 1;
    }
    proof {
        lemma_ts_monotone(samples@, a as int, samples@.len() - 1);
    }
    let last = samples.len() - 1;
    let dur_ok = samples[last].timestamp_ms - samples[a].timestamp_ms
        >= env.config.min_duration_ms;
    let start_ok = !env.config.clean_start_only || region_in_list(
        &env.reset_regions,
        samples[a].coord.region,
    );
    let ghost pre_runs = runs@;
    if dur_ok && start_ok {
        let run = make_run(samples, a, last);
        runs.push(run);
        proof {
            assert(emit_ok(*env, samples@, a as int, samples@.len() - 1));
            assert(seg_runs_view(runs@) =~= seg_runs_view(pre_runs).push(
                run_of(samples@, a as int, samples@.len() - 1),
            ));
            assert(seg_runs_view(pre_runs) + seq![run_of(samples@, a as int, samples@.len() - 1)]
                =~= seg_runs_view(runs@));
        }
    } else {
        proof {
            assert(seg_runs_view(runs@) + Seq::<RunV>::empty() =~= seg_runs_view(runs@));
        }
    }
    runs
}

/// Length of the leading group of a stream: the longest prefix sharing the
/// first sample's (user, session).
pub open spec fn group_len(s: Seq<Sample>) -> int
    decreases s.len(),
{
    if s.len() <= 1 {
        s.len() as int
    } else if same_group(s[0], s[1]) {
        1 + group_len(s.skip(1))
    } else {
        1
    }
}

pub proof fn lemma_group_len_bounds(s: Seq<Sample>)
    ensures
        s.len() > 0 ==> 1 <= group_len(s) <= s.len(),
        s.len() == 0 ==> group_len(s) == 0,
    decreases s.len(),
{
    if s.len() > 1 {
        lemma_group_len_bounds(s.skip(1));
    }
}

/// The whole stream's runs: each contiguous (user, session) group is
/// segmented on its own, in stream order.
pub open spec fn segment_stream_spec(env: SegmentEnv, s: Seq<Sample>) -> Seq<RunV>
    decreases s.len(),
    via segment_stream_spec_dec
{
    if s.len() == 0 {
        Seq::empty()
    } else {
        segment_group_spec(env, s.take(group_len(s))) + segment_stream_spec(
            env,
            s.skip(group_len(s)),
        )
    }
}

#[via_fn]
proof fn segment_stream_spec_dec(env: SegmentEnv, s: Seq<Sample>) {
    lemma_group_len_bounds(s);
}

/// The leading group is exactly [0, g) when the first g samples share the
/// first sample's key and sample g (if any) does not.
pub proof fn lemma_group_len_eq(s: Seq<Sample>, g: int)
    requires
        1 <= g <= s.len(),
        forall|i: int| 0 <= i < g ==> same_group(s[0], #[trigger] s[i]),
        g < s.len() ==> !same_group(s[0], s[g]),
    ensures
        group_len(s) == g,
    decreases g,
{
    if g == 1 {
        if s.len() > 1 {
            assert(!same_group(s[0], s[1]));
        }
    } else {
        assert(same_group(s[0], s[1]));
        let t = s.skip(1);
        assert forall|i: int| 0 <= i < g - 1 implies same_group(t[0], #[trigger] t[i]) by {
            assert(t[i] == s[i + 1]);
        }
        assert(g - 1 < t.len() ==> !same_group(t[0], t[g - 1]));
        lemma_group_len_eq(t, g - 1);
    }
}

/// Segment a whole pre-sorted sample stream: contiguous (user, session)
/// groups are cut apart and each is segmented by the split state machine.
#[verifier::rlimit(60)]
pub fn segment_stream(env: &SegmentEnv, samples: &Vec<Sample>) -> (runs: Vec<Run>)
    requires
        env.wf(),
        all_in_bounds(samples@),
        stream_sorted(samples@),
    ensures
        seg_runs_view(runs@) == segment_stream_spec(*env, samples@),
{
    let n = samples.len();
    let mut runs: Vec<Run> = Vec::new();
    let mut pos: usize = 0;
    proof {
        assert(samples@.skip(0) =~= samples@);
        assert(seg_runs_view(runs@) =~= Seq::<RunV>::empty());
    }
    while pos < n
        invariant
            env.wf(),
            all_in_bounds(samples@),
            stream_sorted(samples@),
            pos <= n == samples@.len(),
            seg_runs_view(runs@) + segment_stream_spec(*env, samples@.skip(pos as int))
                == segment_stream_spec(*env, samples@),
        decreases n - pos,
    {
        let first = samples[pos];
        let mut e: usize = pos + 1;
        while e < n && samples[e].user == first.user && samples[e].session == first.session
            invariant
                pos < e <= n == samples@.len(),
                first == samples@[pos as int],
                forall|i: int| pos <= i < e ==> same_group(
                    samples@[pos as int],
                    #[trigger] samples@[i],
                ),
            decreases n - e,
        {
            proof {
                assert(same_group(samples@[pos as int], samples@[e as int]));
            }
            e += 1;
        }
        let ghost rem = samples@.skip(pos as int);
        proof {
            assert forall|i: int| 0 <= i < e - pos implies same_group(
                rem[0],
                #[trigger] rem[i],
            ) by {
                assert(rem[i] == samples@[pos + i]);
            }
            if e < n {
                assert(rem[e - pos] == samples@[e as int]);
                assert(!same_group(samples@[pos as int], samples@[e as int]));
            }
            lemma_group_len_eq(rem, e - pos);
        }
        let mut group: Vec<Sample> = Vec::new();
        let mut i: usize = pos;
        while i < e
            invariant
                pos <= i <= e <= samples@.len(),
                group@ == samples@.subrange(pos as int, i as int),
            decreases e - i,
        {
            group.push(samples[i]);
            proof {
                assert(samples@.subrange(pos as int, i + 1) =~= samples@.subrange(
                    pos as int,
                    i as int,
                ).push(samples@[i as int]));
            }
            i += 1;
        }
        proof {
            assert(group@ =~= rem.take(e - pos));
            assert forall|k: int| 0 <= k < group@.len() implies same_group(
                group@[0],
                #[trigger] group@[k],
            ) by {
                assert(group@[k] == samples@[pos + k]);
                assert(group@[0] == samples@[pos as int]);
            }
            assert forall|k: int| 0 <= k < group@.len() - 1 implies (
            #[trigger] group@[k]).timestamp_ms <= group@[k + 1].timestamp_ms by {
                assert(group@[k] == samples@[pos + k]);
                assert(group@[k + 1] == samples@[pos + k + 1]);
                assert(crate::sample::key_le(samples@[pos + k], samples@[pos + k + 1]));
            }
            assert(all_in_bounds(group@)) by {
                assert forall|k: int| 0 <= k < group@.len() implies crate::sample::sample_in_bounds(
                    #[trigger] group@[k],
                ) by {
                    assert(group@[k] == samples@[pos + k]);
                }
            }
        }
        let mut group_runs = segment_group(env, &group);
        let ghost pre_runs = runs@;
        let ghost pre_group_runs = group_runs@;
        runs.append(&mut group_runs);
        proof {
            assert(seg_runs_view(runs@) =~= seg_runs_view(pre_runs) + seg_runs_view(
                pre_group_runs,
            ));
            assert(samples@.skip(pos as int).skip(e - pos) =~= samples@.skip(e as int));
            assert((seg_runs_view(pre_runs) + seg_runs_view(pre_group_runs))
                + segment_stream_spec(*env, samples@.skip(e as int)) =~= seg_runs_view(pre_runs)
                + (seg_runs_view(pre_group_runs) + segment_stream_spec(
                *env,
                samples@.skip(e as int),
            )));
        }
        pos = e;
    }
    proof {
        assert(samples@.skip(pos as int).len() == 0);
        assert(seg_runs_view(runs@) + Seq::<RunV>::empty() =~= seg_runs_view(runs@));
    }
    runs
}

/// For all sample streams, every run the stream segmenter emits lasts at
/// least the configured minimum duration, holds at least one coordinate, and
/// in clean-start mode begins in a reset region.
pub proof fn lemma_stream_runs_filtered(env: SegmentEnv, s: Seq<Sample>)
    ensures
        forall|k: int| 0 <= k < segment_stream_spec(env, s).len() ==> {
            let r = #[trigger] segment_stream_spec(env, s)[k];
            &&& r.end_ts - r.start_ts >= env.config.min_duration_ms
            &&& r.coords.len() >= 1
            &&& (env.config.clean_start_only ==> region_listed(
                env.reset_regions@,
                r.coords[0].region,
            ))
        },
    decreases s.len(),
{
    if s.len() > 0 {
        lemma_group_len_bounds(s);
        let g = group_len(s);
        let head = segment_group_spec(env, s.take(g));
        let tail = segment_stream_spec(env, s.skip(g));
        lemma_emitted_runs_filtered(env, s.take(g));
        lemma_stream_runs_filtered(env, s.skip(g));
        let cur = segment_stream_spec(env, s);
        assert forall|k: int| 0 <= k < cur.len() implies {
            let r = #[trigger] cur[k];
            &&& r.end_ts - r.start_ts >= env.config.min_duration_ms
            &&& r.coords.len() >= 1
            &&& (env.config.clean_start_only ==> region_listed(
                env.reset_regions@,
                r.coords[0].region,
            ))
        } by {
            if k < head.len() {
                assert(cur[k] == head[k]);
            } else {
                assert(cur[k] == tail[k - head.len()]);
            }
        }
    }
}

fn gap_split_eval(env: &SegmentEnv, prev: Sample, curr: Sample) -> (r: bool)
    requires
        prev.timestamp_ms <= curr.timestamp_ms,
    ensures
        r == gap_split(*env, prev, curr),
{
    curr.timestamp_ms - prev.timestamp_ms >= env.config.gap_threshold_ms
}

fn early_jump_eval(env: &SegmentEnv, prev: Sample, curr: Sample, step_count: u64) -> (r: bool)
    requires
        env.wf(),
        crate::sample::sample_in_bounds(prev),
        crate::sample::sample_in_bounds(curr),
    ensures
        r == early_jump_split(*env, prev, curr, step_count as int),
{
    if !env.config.strict || step_count >= env.config.early_jump_sample_limit {
        return false;
    }
    let p = env.mapper.convert_coords(prev.coord);
    let q = env.mapper.convert_coords(curr.coord);
    match (p, q) {
        (crate::mapper::PixelPos::Valid { x: px, y: py }, crate::mapper::PixelPos::Valid {
            x: qx,
            y: qy,
        }) => {
            proof {
                crate::mapper::lemma_pixel_bounds(env.mapper, prev.coord);
                crate::mapper::lemma_pixel_bounds(env.mapper, curr.coord);
            }
            let dx = qx - px;
            let dy = qy - py;
            let thr = env.config.early_jump_px;
            proof {
                let pb = crate::mapper::PIXEL_BOUND as int;
                assert(dx * dx <= 4 * pb * pb && dx * dx >= 0) by (nonlinear_arith)
                    requires -2 * pb <= dx <= 2 * pb;
                assert(dy * dy <= 4 * pb * pb && dy * dy >= 0) by (nonlinear_arith)
                    requires -2 * pb <= dy <= 2 * pb;
                assert(thr * thr <= MAX_LOCAL_COORD * MAX_LOCAL_COORD && thr * thr >= 0)
                    by (nonlinear_arith)
                    requires 0 <= thr <= MAX_LOCAL_COORD;
            }
            dx * dx + dy * dy > thr * thr
        },
        (crate::mapper::PixelPos::Invalid, crate::mapper::PixelPos::Invalid) => false,
        _ => true,
    }
}

} // verus!
