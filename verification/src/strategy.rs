//! The quality ladder and the fitter that walks down it.
//!
//! Quality is lowered one notch at a time and along one axis at a time:
//! first the width, then the frame rate, then the palette size. The fitter
//! asks for one notch after each encode that came out too large, up to a
//! fixed number of attempts.

use crate::encode::EncodeParams;
use crate::ratio::lemma_scale_at_least_one;
use crate::ratio::Ratio;
use vstd::prelude::*;

verus! {

/// Hard ceiling on encoder invocations while degrading one segment.
pub const MAX_ATTEMPTS: u32 = 5;

/// Narrowest width, in pixels, that is still considered acceptable.
pub const MIN_WIDTH: u32 = 240;

/// Lowest frame rate that is still considered acceptable.
pub const MIN_FPS: u32 = 8;

/// Palette sizes in the order in which they are tried.
pub const COLOR_STEPS: [u32; 4] = [256, 128, 64, 32];

/// The size ratio is multiplied by nine tenths, so that the next encode
/// does not land just above the limit.
pub const SAFETY_MARGIN_NUMERATOR: u32 = 9;

/// The denominator of the safety margin.
pub const SAFETY_MARGIN_DENOMINATOR: u32 = 10;

/// A segment no longer than this, in milliseconds, is degraded instead of split.
pub const MIN_SPLIT_DURATION_MS: u64 = 500;

/// Quality that a conversion starts from.
#[derive(Debug, Clone, Copy, PartialEq, Eq, Structural)]
pub struct InitialParams {
    pub width: u32,
    pub fps: u32,
    pub colors: u32,
}

/// One rung of the quality ladder. `color_index` counts into the palette sizes.
#[derive(Debug, Clone, Copy, PartialEq, Eq, Structural)]
pub struct EncodeSettings {
    pub width: u32,
    pub fps: u32,
    pub color_index: usize,
}

/// The bounds that the ladder, the fitter and the scheduler work within.
#[derive(Debug, Clone)]
pub struct Tuning {
    pub min_width: u32,
    pub min_fps: u32,
    pub color_steps: Vec<u32>,
    pub max_attempts: u32,
    pub min_split_ms: u64,
    pub margin_numerator: u32,
    pub margin_denominator: u32,
}

/// A `Tuning` as contracts see it.
pub struct TuningView {
    pub min_width: u32,
    pub min_fps: u32,
    pub color_steps: Seq<u32>,
    pub max_attempts: u32,
    pub min_split_ms: u64,
    pub margin_numerator: u32,
    pub margin_denominator: u32,
}

impl View for Tuning {
    type V = TuningView;

    open spec fn view(&self) -> TuningView {
        TuningView {
            min_width: self.min_width,
            min_fps: self.min_fps,
            color_steps: self.color_steps@,
            max_attempts: self.max_attempts,
            min_split_ms: self.min_split_ms,
            margin_numerator: self.margin_numerator,
            margin_denominator: self.margin_denominator,
        }
    }
}

impl TuningView {
    /// There is a palette size to start from, at least one attempt, a
    /// margin with a value, and splitting stops above zero length.
    pub open spec fn wf(&self) -> bool {
        &&& 0 < self.color_steps.len() <= usize::MAX
        &&& self.max_attempts > 0
        &&& self.min_split_ms > 0
        &&& self.margin_denominator > 0
    }
}

/// The bounds that are used unless others are given.
pub open spec fn standard_tuning() -> TuningView {
    TuningView {
        min_width: MIN_WIDTH,
        min_fps: MIN_FPS,
        color_steps: COLOR_STEPS@,
        max_attempts: MAX_ATTEMPTS,
        min_split_ms: MIN_SPLIT_DURATION_MS,
        margin_numerator: SAFETY_MARGIN_NUMERATOR,
        margin_denominator: SAFETY_MARGIN_DENOMINATOR,
    }
}

/// The larger of a lower bound and a value.
pub open spec fn at_least(bound: nat, value: nat) -> nat {
    if value < bound {
        bound
    } else {
        value
    }
}

/// The first position at or after `from` whose palette size is at most
/// `requested`, or the number of palette sizes where there is none.
pub open spec fn first_fitting(steps: Seq<u32>, requested: u32, from: int) -> int
    decreases steps.len() - from,
{
    if from < 0 || from >= steps.len() {
        steps.len() as int
    } else if steps[from] <= requested {
        from
    } else {
        first_fitting(steps, requested, from + 1)
    }
}

/// The position of the first palette size that is at most `requested`; the
/// first position of all where every size is larger.
pub open spec fn color_index_for(steps: Seq<u32>, requested: u32) -> int {
    let found = first_fitting(steps, requested, 0);
    if found < steps.len() {
        found
    } else {
        0
    }
}

/// The rung that a conversion starts on.
pub open spec fn initial_settings(tuning: TuningView, initial: InitialParams) -> EncodeSettings {
    EncodeSettings {
        width: initial.width,
        fps: initial.fps,
        color_index: color_index_for(tuning.color_steps, initial.colors) as usize,
    }
}

/// The width one notch down: `max(min_width, floor(width * sqrt(ratio)))`.
pub open spec fn reduced_width(tuning: TuningView, width: u32, ratio: Ratio) -> nat {
    at_least(tuning.min_width as nat, ratio.scale_root(width as nat))
}

/// The frame rate one notch down: `max(min_fps, floor(fps * ratio))`.
pub open spec fn reduced_fps(tuning: TuningView, fps: u32, ratio: Ratio) -> nat {
    at_least(tuning.min_fps as nat, ratio.scale(fps as nat))
}

/// One notch down the ladder: the first of width, frame rate and palette
/// size that can still go down does, alone; `None` where none can.
pub open spec fn reduce_spec(tuning: TuningView, settings: EncodeSettings, ratio: Ratio) -> Option<
    EncodeSettings,
> {
    if reduced_width(tuning, settings.width, ratio) < settings.width {
        Some(
            EncodeSettings {
                width: reduced_width(tuning, settings.width, ratio) as u32,
                fps: settings.fps,
                color_index: settings.color_index,
            },
        )
    } else if reduced_fps(tuning, settings.fps, ratio) < settings.fps {
        Some(
            EncodeSettings {
                width: settings.width,
                fps: reduced_fps(tuning, settings.fps, ratio) as u32,
                color_index: settings.color_index,
            },
        )
    } else if settings.color_index + 1 < tuning.color_steps.len() {
        Some(
            EncodeSettings {
                width: settings.width,
                fps: settings.fps,
                color_index: (settings.color_index + 1) as usize,
            },
        )
    } else {
        None
    }
}

/// How far the fitter has come with one segment.
#[derive(Debug, Clone, Copy, PartialEq, Eq, Structural)]
pub struct FitState {
    /// The rung that the next encode uses.
    pub settings: EncodeSettings,
    /// How many encodes came out too large so far.
    pub attempts: u32,
}

/// What the fitter makes of one encode.
#[derive(Debug, Clone, Copy, PartialEq, Eq, Structural)]
pub enum FitVerdict {
    /// The encode is within the budget and is the result.
    Fits { size: u64 },
    /// The encode is too large; encode again from `next`.
    Retry { next: FitState },
    /// The encode is too large and nothing is left to try.
    Unreachable { attempts: u32 },
}

impl FitState {
    /// The state allows another encode under these bounds.
    pub open spec fn wf(&self, tuning: TuningView) -> bool {
        &&& self.attempts < tuning.max_attempts
        &&& self.settings.color_index < tuning.color_steps.len()
    }
}

/// The ratio by which the next encode should be smaller: the budget over
/// the observed size, times the safety margin.
pub open spec fn fit_ratio(tuning: TuningView, target_bytes: u64, size: u64) -> Ratio {
    Ratio {
        numerator: (target_bytes * tuning.margin_numerator) as u128,
        denominator: (size * tuning.margin_denominator) as u128,
    }
}

/// The fitter's rule. An encode within the budget is taken. After one that
/// is too large the ladder is asked for one notch; the target is out of
/// reach where it has none, or where this was the last attempt allowed.
pub open spec fn fit_step_spec(
    tuning: TuningView,
    target_bytes: u64,
    state: FitState,
    size: u64,
) -> FitVerdict {
    if size <= target_bytes {
        FitVerdict::Fits { size }
    } else {
        match reduce_spec(tuning, state.settings, fit_ratio(tuning, target_bytes, size)) {
            None => FitVerdict::Unreachable { attempts: (state.attempts + 1) as u32 },
            Some(next) => if state.attempts + 1 >= tuning.max_attempts {
                FitVerdict::Unreachable { attempts: tuning.max_attempts }
            } else {
                FitVerdict::Retry {
                    next: FitState { settings: next, attempts: (state.attempts + 1) as u32 },
                }
            },
        }
    }
}

/// What the encoder is asked for on one rung over one time range.
pub open spec fn encode_params_spec(
    tuning: TuningView,
    settings: EncodeSettings,
    start_ms: u64,
    duration_ms: u64,
) -> EncodeParams {
    EncodeParams {
        width: settings.width,
        fps: settings.fps,
        colors: tuning.color_steps[settings.color_index as int],
        start_ms,
        duration_ms,
    }
}

/// Width goes first. Where the ratio makes the width smaller, the step
/// sets it to `max(min_width, floor(width * sqrt(ratio)))` and leaves the
/// frame rate and the palette as they are.
pub proof fn lemma_width_goes_first(tuning: TuningView, settings: EncodeSettings, ratio: Ratio)
    requires
        ratio.wf(),
        at_least(tuning.min_width as nat, ratio.scale_root(settings.width as nat))
            < settings.width,
    ensures
        reduce_spec(tuning, settings, ratio) == Some(
            EncodeSettings {
                width: at_least(
                    tuning.min_width as nat,
                    ratio.scale_root(settings.width as nat),
                ) as u32,
                fps: settings.fps,
                color_index: settings.color_index,
            },
        ),
{
}

/// Frame rate goes second. At the narrowest width, where the ratio makes
/// the frame rate smaller, the step sets it to
/// `max(min_fps, floor(fps * ratio))` and leaves the width and the palette
/// as they are.
pub proof fn lemma_fps_goes_second(tuning: TuningView, settings: EncodeSettings, ratio: Ratio)
    requires
        ratio.wf(),
        settings.width <= tuning.min_width,
        at_least(tuning.min_fps as nat, ratio.scale(settings.fps as nat)) < settings.fps,
    ensures
        reduce_spec(tuning, settings, ratio) == Some(
            EncodeSettings {
                width: settings.width,
                fps: at_least(tuning.min_fps as nat, ratio.scale(settings.fps as nat)) as u32,
                color_index: settings.color_index,
            },
        ),
{
}

/// The palette goes last, one size at a time, once neither the width nor
/// the frame rate can go down.
pub proof fn lemma_palette_goes_last(tuning: TuningView, settings: EncodeSettings, ratio: Ratio)
    requires
        ratio.wf(),
        settings.width <= tuning.min_width,
        settings.fps <= tuning.min_fps,
        settings.color_index + 1 < tuning.color_steps.len(),
    ensures
        reduce_spec(tuning, settings, ratio) == Some(
            EncodeSettings {
                width: settings.width,
                fps: settings.fps,
                color_index: (settings.color_index + 1) as usize,
            },
        ),
{
}

/// The ladder ends. At the narrowest width, the lowest frame rate and the
/// last palette size there is no further step, whatever the ratio.
pub proof fn lemma_ladder_ends(tuning: TuningView, settings: EncodeSettings, ratio: Ratio)
    requires
        ratio.wf(),
        settings.width <= tuning.min_width,
        settings.fps <= tuning.min_fps,
        settings.color_index + 1 >= tuning.color_steps.len(),
    ensures
        reduce_spec(tuning, settings, ratio) is None,
{
}

/// A step changes one axis and no more, and it lowers that axis: the width
/// or the frame rate becomes smaller, though not smaller than its floor,
/// or the palette moves on by one size.
pub proof fn lemma_step_lowers_one_axis(tuning: TuningView, settings: EncodeSettings, ratio: Ratio)
    requires
        tuning.wf(),
        ratio.wf(),
        reduce_spec(tuning, settings, ratio) is Some,
    ensures
        ({
            let next = reduce_spec(tuning, settings, ratio)->0;
            ||| (tuning.min_width <= next.width < settings.width && next.fps == settings.fps
                && next.color_index == settings.color_index)
            ||| (next.width == settings.width && tuning.min_fps <= next.fps < settings.fps
                && next.color_index == settings.color_index)
            ||| (next.width == settings.width && next.fps == settings.fps && next.color_index
                == settings.color_index + 1 && next.color_index < tuning.color_steps.len())
        }),
{
}

/// The fitter stops. An encode is taken exactly when it is within the
/// budget; each retry counts one more attempt and stays under the ceiling;
/// giving up names the attempts made, never more than the ceiling.
pub proof fn lemma_fit_is_bounded(
    tuning: TuningView,
    target_bytes: u64,
    state: FitState,
    size: u64,
)
    requires
        tuning.wf(),
        state.wf(tuning),
    ensures
        fit_step_spec(tuning, target_bytes, state, size) is Fits <==> size <= target_bytes,
        fit_step_spec(tuning, target_bytes, state, size) matches FitVerdict::Retry { next }
            ==> next.attempts == state.attempts + 1 && next.wf(tuning),
        fit_step_spec(tuning, target_bytes, state, size) matches FitVerdict::Unreachable {
            attempts,
        } ==> attempts == state.attempts + 1 && attempts <= tuning.max_attempts,
{
    if size > target_bytes {
        let ratio = fit_ratio(tuning, target_bytes, size);
        assert(0 < size * tuning.margin_denominator <= 0xFFFF_FFFF_FFFF_FFFF * 0xFFFF_FFFF)
            by (nonlinear_arith)
            requires
                0 < size <= 0xFFFF_FFFF_FFFF_FFFF,
                0 < tuning.margin_denominator <= 0xFFFF_FFFF,
        ;
        if reduce_spec(tuning, state.settings, ratio) is Some {
            lemma_step_lowers_one_axis(tuning, state.settings, ratio);
        }
    }
}

/// `color_index_for` finds the first palette size that is at most the
/// requested one, and falls back to the first of all.
pub proof fn lemma_color_index_is_first(steps: Seq<u32>, requested: u32)
    ensures
        ({
            let index = color_index_for(steps, requested);
            if exists|i: int| 0 <= i < steps.len() && steps[i] <= requested {
                &&& 0 <= index < steps.len()
                &&& steps[index] <= requested
                &&& forall|j: int| 0 <= j < index ==> steps[j] > requested
            } else {
                index == 0
            }
        }),
{
    lemma_first_fitting(steps, requested, 0);
}

/// The fitter can start from the quality that a conversion starts from.
pub proof fn lemma_fit_can_start(tuning: TuningView, initial: InitialParams)
    requires
        tuning.wf(),
    ensures
        (FitState { settings: initial_settings(tuning, initial), attempts: 0 }).wf(tuning),
{
    lemma_color_index_is_first(tuning.color_steps, initial.colors);
}

proof fn lemma_first_fitting(steps: Seq<u32>, requested: u32, from: int)
    requires
        0 <= from,
    ensures
        from <= first_fitting(steps, requested, from) || first_fitting(steps, requested, from)
            == steps.len(),
        first_fitting(steps, requested, from) <= steps.len(),
        first_fitting(steps, requested, from) < steps.len() ==> steps[first_fitting(
            steps,
            requested,
            from,
        )] <= requested,
        forall|j: int| from <= j < first_fitting(steps, requested, from) ==> steps[j] > requested,
    decreases steps.len() - from,
{
    if from < steps.len() && steps[from] > requested {
        lemma_first_fitting(steps, requested, from + 1);
    }
}

impl Default for Tuning {
    fn default() -> (tuning: Tuning)
        ensures
            tuning@ == standard_tuning(),
            tuning@.wf(),
    {
        let mut color_steps: Vec<u32> = Vec::new();
        let mut i: usize = 0;
        while i < 4
            invariant
                i <= 4,
                color_steps@ == COLOR_STEPS@.take(i as int),
            decreases 4 - i,
        {
            color_steps.push(COLOR_STEPS[i]);
            i += 1;
        }
        assert(color_steps@ == COLOR_STEPS@);
        Tuning {
            min_width: MIN_WIDTH,
            min_fps: MIN_FPS,
            color_steps,
            max_attempts: MAX_ATTEMPTS,
            min_split_ms: MIN_SPLIT_DURATION_MS,
            margin_numerator: SAFETY_MARGIN_NUMERATOR,
            margin_denominator: SAFETY_MARGIN_DENOMINATOR,
        }
    }
}

impl Tuning {
    /// Whether the bounds can be worked with.
    pub fn is_valid(&self) -> (valid: bool)
        ensures
            valid == self@.wf(),
    {
        self.color_steps.len() > 0 && self.max_attempts > 0 && self.min_split_ms > 0
            && self.margin_denominator > 0
    }

    /// The position of the largest palette size that `requested_colors` allows.
    pub fn color_index(&self, requested_colors: u32) -> (index: usize)
        ensures
            index == color_index_for(self@.color_steps, requested_colors),
            self@.color_steps.len() > 0 ==> index < self@.color_steps.len(),
    {
        let mut i: usize = 0;
        while i < self.color_steps.len()
            invariant
                i <= self.color_steps.len(),
                first_fitting(self.color_steps@, requested_colors, 0) == first_fitting(
                    self.color_steps@,
                    requested_colors,
                    i as int,
                ),
            decreases self.color_steps.len() - i,
        {
            if self.color_steps[i] <= requested_colors {
                return i;
            }
            i += 1;
        }
        0
    }

    /// The rung that a conversion starts on.
    pub fn initial_settings(&self, initial: &InitialParams) -> (settings: EncodeSettings)
        ensures
            settings == initial_settings(self@, *initial),
            self@.color_steps.len() > 0 ==> settings.color_index < self@.color_steps.len(),
    {
        EncodeSettings {
            width: initial.width,
            fps: initial.fps,
            color_index: self.color_index(initial.colors),
        }
    }

    /// One notch down the ladder from `settings`, or `None` at its end.
    pub fn reduce(&self, settings: &EncodeSettings, ratio: Ratio) -> (next: Option<EncodeSettings>)
        requires
            ratio.wf(),
        ensures
            next == reduce_spec(self@, *settings, ratio),
    {
        match ratio.shrink_root(settings.width) {
            Some(root) => {
                let new_width: u32 = if root < self.min_width {
                    self.min_width
                } else {
                    root
                };
                if new_width < settings.width {
                    return Some(
                        EncodeSettings {
                            width: new_width,
                            fps: settings.fps,
                            color_index: settings.color_index,
                        },
                    );
                }
            },
            None => {
                proof {
                    lemma_scale_at_least_one(ratio, settings.width as nat);
                }
            },
        }
        match ratio.shrink(settings.fps as u64) {
            Some(scaled) => {
                let new_fps: u32 = if scaled < self.min_fps as u64 {
                    self.min_fps
                } else {
                    scaled as u32
                };
                if new_fps < settings.fps {
                    return Some(
                        EncodeSettings {
                            width: settings.width,
                            fps: new_fps,
                            color_index: settings.color_index,
                        },
                    );
                }
            },
            None => {
                proof {
                    lemma_scale_at_least_one(ratio, settings.fps as nat);
                }
            },
        }
        if self.color_steps.len() > 0 && settings.color_index < self.color_steps.len() - 1 {
            Some(
                EncodeSettings {
                    width: settings.width,
                    fps: settings.fps,
                    color_index: settings.color_index + 1,
                },
            )
        } else {
            None
        }
    }

    /// Where the fitter starts for a segment.
    pub fn fit_start(&self, initial: &InitialParams) -> (state: FitState)
        ensures
            state == (FitState { settings: initial_settings(self@, *initial), attempts: 0 }),
            self@.wf() ==> state.wf(self@),
    {
        FitState { settings: self.initial_settings(initial), attempts: 0 }
    }

    /// What to do after an encode from `state` came out at `size` bytes.
    pub fn fit_step(&self, target_bytes: u64, state: &FitState, size: u64) -> (verdict: FitVerdict)
        requires
            self@.wf(),
            state.wf(self@),
        ensures
            verdict == fit_step_spec(self@, target_bytes, *state, size),
            verdict matches FitVerdict::Retry { next } ==> next.wf(self@),
    {
        if size <= target_bytes {
            return FitVerdict::Fits { size };
        }
        assert(target_bytes * self.margin_numerator <= 0xFFFF_FFFF_FFFF_FFFF * 0xFFFF_FFFF)
            by (nonlinear_arith)
            requires
                target_bytes <= 0xFFFF_FFFF_FFFF_FFFF,
                self.margin_numerator <= 0xFFFF_FFFF,
        ;
        assert(0 < size * self.margin_denominator <= 0xFFFF_FFFF_FFFF_FFFF * 0xFFFF_FFFF)
            by (nonlinear_arith)
            requires
                0 < size <= 0xFFFF_FFFF_FFFF_FFFF,
                0 < self.margin_denominator <= 0xFFFF_FFFF,
        ;
        let ratio = Ratio {
            numerator: target_bytes as u128 * self.margin_numerator as u128,
            denominator: size as u128 * self.margin_denominator as u128,
        };
        let attempts: u32 = state.attempts + 1;
        match self.reduce(&state.settings, ratio) {
            None => FitVerdict::Unreachable { attempts },
            Some(next) => {
                if attempts >= self.max_attempts {
                    FitVerdict::Unreachable { attempts: self.max_attempts }
                } else {
                    FitVerdict::Retry { next: FitState { settings: next, attempts } }
                }
            },
        }
    }

    /// What the encoder is asked for on one rung over one time range.
    pub fn encode_params(&self, settings: &EncodeSettings, start_ms: u64, duration_ms: u64) -> (params:
        EncodeParams)
        requires
            settings.color_index < self@.color_steps.len(),
        ensures
            params == encode_params_spec(self@, *settings, start_ms, duration_ms),
    {
        EncodeParams {
            width: settings.width,
            fps: settings.fps,
            colors: self.color_steps[settings.color_index],
            start_ms,
            duration_ms,
        }
    }
}

/// The position of the largest of the standard palette sizes that
/// `requested_colors` allows.
pub fn resolve_color_index(requested_colors: u32) -> (index: usize)
    ensures
        index == color_index_for(COLOR_STEPS@, requested_colors),
        index < COLOR_STEPS@.len(),
{
    Tuning::default().color_index(requested_colors)
}

/// One notch down the standard ladder from `settings`, or `None` at its end.
pub fn reduce_params(settings: &EncodeSettings, ratio: Ratio) -> (next: Option<EncodeSettings>)
    requires
        ratio.wf(),
    ensures
        next == reduce_spec(standard_tuning(), *settings, ratio),
{
    Tuning::default().reduce(settings, ratio)
}

} // verus!
