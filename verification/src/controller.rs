//! The scene controller: the stateful core of the pipeline.
//!
//! A [`ProcessingContext`] is folded over the incoming frame sequence,
//! one [`step`] per frame. Each step binarizes the brightness-normalized
//! difference against the previous frame, ANDs it with the previous
//! step's mask, scores the result and decides whether to persist the
//! frame, force-cut the open sequence, or do nothing. The context is
//! replaced wholesale on every step; nothing is mutated in place.

use vstd::arithmetic::div_mod::{
    lemma_add_mod_noop_right, lemma_mod_add_multiples_vanish, lemma_small_mod,
};
use vstd::prelude::*;

use crate::detector;
use crate::detector::{
    and_seq, binarize_seq, count_above, diff_seq, is_binary, DEFAULT_LUM_THRESHOLD,
    DEFAULT_TOLERANCE,
};
use crate::frame::Frame;

verus! {

/// Default modulus at which the sequence index wraps back to zero.
pub const DEFAULT_ROTATION_BOUND: u32 = 3000;

/// Default number of consecutive no-motion steps after which the open
/// sequence is force-cut (about seven seconds at the default frame
/// rate).
pub const DEFAULT_IDLE_MAX: u32 = 70;

/// Default motion score a step must strictly exceed to persist a frame.
pub const DEFAULT_SCORE_THRESHOLD: u32 = 100;

/// Tuning knobs of the controller. The defaults carry the tuned values;
/// none of them is hard-coded in the transition itself.
pub struct Config {
    /// Modulus at which the output sequence index wraps back to zero.
    pub rotation_bound: u32,
    /// Value the idle countdown is reset to by a motion event.
    pub idle_max: u32,
    /// A frame is persisted exactly when its motion score strictly
    /// exceeds this.
    pub score_threshold: u32,
}

impl Config {
    /// The rotation modulus and the idle countdown are meaningful.
    pub open spec fn wf(&self) -> bool {
        self.rotation_bound >= 1 && self.idle_max >= 1
    }
}

impl Default for Config {
    fn default() -> (c: Config)
        ensures
            c.rotation_bound == DEFAULT_ROTATION_BOUND,
            c.idle_max == DEFAULT_IDLE_MAX,
            c.score_threshold == DEFAULT_SCORE_THRESHOLD,
            c.wf(),
    {
        Config {
            rotation_bound: DEFAULT_ROTATION_BOUND,
            idle_max: DEFAULT_IDLE_MAX,
            score_threshold: DEFAULT_SCORE_THRESHOLD,
        }
    }
}

/// What one step asks the persistence side to do.
#[derive(Clone, Copy, PartialEq, Eq, Debug)]
pub enum StepAction {
    /// Persist the frame just folded in, under the given sequence index.
    Save { sequence_index: u32 },
    /// Force-close the currently open sequence: the idle deadline ran
    /// out.
    Close,
    /// Nothing to persist this step.
    Idle,
}

/// The fold state threaded through the foreground loop.
pub struct ProcessingContext {
    /// Output file counter; always strictly below the rotation bound.
    pub sequence_index: u32,
    /// The last frame seen, the left operand of the next difference.
    pub previous_frame: Frame,
    /// The previous step's binarized single-step mask (not the combined
    /// mask), the right operand of the next temporal AND.
    pub previous_mask: Frame,
    /// No-motion countdown: reset to the maximum by a motion event,
    /// decremented towards zero otherwise; the force-cut fires when it
    /// stands at one.
    pub idle_deadline: u32,
}

impl ProcessingContext {
    /// Internal invariant of the fold state.
    pub open spec fn wf(&self, cfg: &Config) -> bool {
        &&& self.sequence_index < cfg.rotation_bound
        &&& self.idle_deadline <= cfg.idle_max
        &&& self.previous_frame.wf()
        &&& self.previous_mask.wf()
        &&& self.previous_mask.same_dims(&self.previous_frame)
        &&& is_binary(self.previous_mask@)
    }

    /// Seeds the fold state with the first frame read from the source:
    /// the configured starting index, an all-black previous mask, and an
    /// expired idle countdown.
    pub fn new(cfg: &Config, start_index: u32, first_frame: Frame) -> (c: ProcessingContext)
        requires
            cfg.wf(),
            start_index < cfg.rotation_bound,
            first_frame.wf(),
        ensures
            c.wf(cfg),
            c.sequence_index == start_index,
            c.previous_frame == first_frame,
            c.previous_mask@ == Seq::new(first_frame@.len(), |i: int| 0u8),
            c.idle_deadline == 0,
    {
        let mask = Frame::filled(first_frame.width, first_frame.height, 0);
        proof {
            assert(mask@ =~= Seq::new(first_frame@.len(), |i: int| 0u8));
        }
        ProcessingContext {
            sequence_index: start_index,
            previous_frame: first_frame,
            previous_mask: mask,
            idle_deadline: 0,
        }
    }
}

/// The binarized single-step difference mask a step computes and hands
/// to the next step as `previous_mask`.
pub open spec fn step_mask(ctx: ProcessingContext, frame: Frame) -> Seq<u8> {
    binarize_seq(diff_seq(ctx.previous_frame@, frame@), DEFAULT_LUM_THRESHOLD)
}

/// The temporal AND of the current mask with the previous step's mask.
pub open spec fn step_combined(ctx: ProcessingContext, frame: Frame) -> Seq<u8> {
    and_seq(step_mask(ctx, frame), ctx.previous_mask@, DEFAULT_TOLERANCE)
}

/// The motion score of a step: changed pixels of the combined mask.
pub open spec fn step_score(ctx: ProcessingContext, frame: Frame) -> nat {
    count_above(step_combined(ctx, frame), DEFAULT_LUM_THRESHOLD)
}

/// Whether a step persists its frame (a motion event).
pub open spec fn step_sent(cfg: Config, ctx: ProcessingContext, frame: Frame) -> bool {
    step_score(ctx, frame) > cfg.score_threshold
}

/// The sequence index after one motion event.
pub open spec fn advance_index(i: int, rotation_bound: int) -> int {
    (i + 1) % rotation_bound
}

/// One tick of the idle countdown: decrement towards zero, stop there.
pub open spec fn idle_decay(d: int) -> int {
    if d == 0 {
        0
    } else {
        d - 1
    }
}

/// The idle countdown after one step.
pub open spec fn next_deadline(sent: bool, d: int, idle_max: int) -> int {
    if sent {
        idle_max
    } else {
        idle_decay(d)
    }
}

/// Whether a step emits the force-cut: no motion, and the countdown
/// stands exactly at one.
pub open spec fn emits_close(sent: bool, d: int) -> bool {
    !sent && d == 1
}

/// Folds one frame into the context.
///
/// Exactly one of three outcomes, decided by the motion score of the
/// combined mask:
/// - score strictly above the threshold: the frame is persisted under
///   the current sequence index, the index advances modulo the rotation
///   bound, and the idle countdown is reset to its maximum;
/// - otherwise, if the countdown stands exactly at one: the open
///   sequence is force-cut and the countdown drops to zero;
/// - otherwise nothing is emitted and the countdown ticks down (staying
///   at zero once there).
///
/// The frame just folded in becomes `previous_frame`, and the
/// *uncombined* single-step mask becomes `previous_mask`.
pub fn step(cfg: &Config, ctx: ProcessingContext, frame: Frame) -> (r: (
    ProcessingContext,
    StepAction,
))
    requires
        cfg.wf(),
        ctx.wf(cfg),
        frame.wf(),
        frame.same_dims(&ctx.previous_frame),
    ensures
        r.0.wf(cfg),
        r.1 is Save <==> step_sent(*cfg, ctx, frame),
        r.1 matches StepAction::Save { sequence_index } ==> sequence_index == ctx.sequence_index,
        r.1 is Close <==> emits_close(step_sent(*cfg, ctx, frame), ctx.idle_deadline as int),
        r.0.sequence_index as int == (if step_sent(*cfg, ctx, frame) {
            advance_index(ctx.sequence_index as int, cfg.rotation_bound as int)
        } else {
            ctx.sequence_index as int
        }),
        r.0.idle_deadline as int == next_deadline(
            step_sent(*cfg, ctx, frame),
            ctx.idle_deadline as int,
            cfg.idle_max as int,
        ),
        r.0.previous_frame == frame,
        r.0.previous_mask@ == step_mask(ctx, frame),
        r.0.previous_mask.same_dims(&frame),
{
    let diff = detector::difference(&ctx.previous_frame, &frame);
    let mask = detector::binarize(&diff, DEFAULT_LUM_THRESHOLD);
    let combined = detector::and_mask(&mask, &ctx.previous_mask, DEFAULT_TOLERANCE);
    let sc = detector::score(&combined, DEFAULT_LUM_THRESHOLD);
    let sent = sc > cfg.score_threshold;
    let action = if sent {
        StepAction::Save { sequence_index: ctx.sequence_index }
    } else if ctx.idle_deadline == 1 {
        StepAction::Close
    } else {
        StepAction::Idle
    };
    let new_index = if sent {
        (ctx.sequence_index + 1) % cfg.rotation_bound
    } else {
        ctx.sequence_index
    };
    let new_deadline = if sent {
        cfg.idle_max
    } else if ctx.idle_deadline == 0 {
        0
    } else {
        ctx.idle_deadline - 1
    };
    (
        ProcessingContext {
            sequence_index: new_index,
            previous_frame: frame,
            previous_mask: mask,
            idle_deadline: new_deadline,
        },
        action,
    )
}

/// The sequence index after `k` further motion events, each advancing
/// it as one [`step`] with a sent outcome does.
pub open spec fn index_after_motions(i: int, k: nat, rotation_bound: int) -> int
    decreases k,
{
    if k == 0 {
        i
    } else {
        advance_index(index_after_motions(i, (k - 1) as nat, rotation_bound), rotation_bound)
    }
}

/// The sequence index stays strictly below the rotation bound and, after
/// `k` motion events, stands at `(i + k)` modulo the bound: it counts
/// up and wraps, nothing else.
pub proof fn lemma_index_after_motions(i: int, k: nat, rotation_bound: int)
    requires
        0 <= i < rotation_bound,
    ensures
        index_after_motions(i, k, rotation_bound) == (i + k) % rotation_bound,
        0 <= index_after_motions(i, k, rotation_bound) < rotation_bound,
    decreases k,
{
    if k == 0 {
        lemma_small_mod(i as nat, rotation_bound as nat);
    } else {
        lemma_index_after_motions(i, (k - 1) as nat, rotation_bound);
        lemma_add_mod_noop_right(1, i + k - 1, rotation_bound);
    }
}

/// After exactly `rotation_bound` motion events the sequence index is
/// back where it started; in particular, starting from zero it wraps
/// back to zero.
pub proof fn lemma_index_wraps_after_full_rotation(i: int, rotation_bound: int)
    requires
        0 <= i < rotation_bound,
    ensures
        index_after_motions(i, rotation_bound as nat, rotation_bound) == i,
{
    lemma_index_after_motions(i, rotation_bound as nat, rotation_bound);
    lemma_mod_add_multiples_vanish(i, rotation_bound);
    lemma_small_mod(i as nat, rotation_bound as nat);
}

/// The idle countdown after `k` consecutive no-motion steps.
pub open spec fn deadline_after_idles(d: int, k: nat) -> int
    decreases k,
{
    if k == 0 {
        d
    } else {
        idle_decay(deadline_after_idles(d, (k - 1) as nat))
    }
}

/// How many force-cuts a run of `k` consecutive no-motion steps emits,
/// starting from countdown `d`.
pub open spec fn closes_in_idles(d: int, k: nat) -> nat
    decreases k,
{
    if k == 0 {
        0
    } else {
        closes_in_idles(d, (k - 1) as nat) + (if emits_close(
            false,
            deadline_after_idles(d, (k - 1) as nat),
        ) {
            1nat
        } else {
            0nat
        })
    }
}

/// After a motion event sets the countdown to `d >= 1`, a run of
/// consecutive no-motion steps emits no force-cut for its first `d - 1`
/// steps, exactly one at its `d`-th step, and none afterwards until
/// another motion event resets the countdown.
pub proof fn lemma_one_close_per_idle_run(d: int, k: nat)
    requires
        d >= 1,
    ensures
        deadline_after_idles(d, k) == (if k >= d {
            0int
        } else {
            d - k
        }),
        closes_in_idles(d, k) == (if k >= d {
            1nat
        } else {
            0nat
        }),
    decreases k,
{
    if k > 0 {
        lemma_one_close_per_idle_run(d, (k - 1) as nat);
    }
}

} // verus!
