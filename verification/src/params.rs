//! Sweep parameters and what the sequence of frames derives from them: how
//! many frames there are, where the sweep stands in each, and the modulus by
//! which a seamless loop wraps.

use vstd::prelude::*;
use vstd::arithmetic::div_mod::{lemma_fundamental_div_mod, lemma_mod_pos_bound};
use crate::blend::Easing;

verus! {

/// What happens when the sweep reaches the right edge.
#[derive(Clone, Copy, Debug, PartialEq, Eq, Structural)]
pub enum LoopMode {
    /// The sweep wraps round to the left edge. `frame_overlap` frames are cut
    /// from the end of the run so that the loop closes without a seam.
    Seamless { frame_overlap: usize },
    /// The sweep runs off the right edge; the last frame is the "after"
    /// picture at rest.
    OneShot,
}

/// The fixed settings of one run.
#[derive(Clone, Copy, Debug, PartialEq, Eq, Structural)]
pub struct SweepParams {
    /// Columns over which the blend ramps from nothing to full.
    pub sweep_width: usize,
    /// Columns by which the sweep advances from one frame to the next.
    pub sweep_speed: usize,
    pub loop_mode: LoopMode,
    pub easing: Easing,
    /// How long each frame is shown, in hundredths of a second.
    pub delay: u16,
}

/// Why a run cannot start.
#[derive(Clone, Copy, Debug, PartialEq, Eq, Structural)]
pub enum SweepError {
    /// The picture has no columns.
    ZeroWidth,
    /// The sweep is no columns wide.
    ZeroSweepWidth,
    /// The sweep does not advance.
    ZeroSweepSpeed,
    /// A seamless loop has no column to wrap at.
    ZeroCycleWidth,
    /// Picture width and sweep width together exceed the machine's integers.
    TooWide,
    /// A seamless loop is left without a frame: the overlap cuts as many
    /// frames as the sweep takes steps, or more.
    NoFrames,
    /// The two pictures differ in size, or a picture is not `width * height`
    /// pixels of four bytes.
    SizeMismatch,
    /// The run has fewer frames than the index asks for.
    NoSuchFrame,
}

/// What `describe` says of each error.
pub open spec fn description_of(error: SweepError) -> Seq<char> {
    match error {
        SweepError::ZeroWidth => "the picture has no columns"@,
        SweepError::ZeroSweepWidth => "the sweep is no columns wide"@,
        SweepError::ZeroSweepSpeed => "the sweep does not advance"@,
        SweepError::ZeroCycleWidth => "the cycle is no columns wide"@,
        SweepError::TooWide => "picture and sweep are wider than this machine can count"@,
        SweepError::NoFrames => "the frame overlap leaves the loop without a frame"@,
        SweepError::SizeMismatch => "a picture does not have the size that was given"@,
        SweepError::NoSuchFrame => "the run has no such frame"@,
    }
}

impl SweepError {
    /// The error in words, for a message to the user.
    pub fn describe(self) -> (r: &'static str)
        ensures
            r@ == description_of(self),
    {
        match self {
            SweepError::ZeroWidth => "the picture has no columns",
            SweepError::ZeroSweepWidth => "the sweep is no columns wide",
            SweepError::ZeroSweepSpeed => "the sweep does not advance",
            SweepError::ZeroCycleWidth => "the cycle is no columns wide",
            SweepError::TooWide => "picture and sweep are wider than this machine can count",
            SweepError::NoFrames => "the frame overlap leaves the loop without a frame",
            SweepError::SizeMismatch => "a picture does not have the size that was given",
            SweepError::NoSuchFrame => "the run has no such frame",
        }
    }
}

/// Frames of a run before any overlap is cut: the sweep starts with its
/// leading edge on column 0 and ends when its tail has passed the last column.
pub open spec fn sweep_steps(width: int, params: SweepParams) -> int {
    (width + params.sweep_width) / (params.sweep_speed as int)
}

/// The number of frames of a run over a picture `width` columns wide.
pub open spec fn frame_count_of(width: int, params: SweepParams) -> int {
    match params.loop_mode {
        LoopMode::Seamless { frame_overlap } => sweep_steps(width, params) - frame_overlap,
        LoopMode::OneShot => sweep_steps(width, params) + 1,
    }
}

/// The first reason, if any, for which a run over a picture `width` columns
/// wide cannot start.
pub open spec fn params_error(width: int, params: SweepParams) -> Option<SweepError> {
    if width == 0 {
        Some(SweepError::ZeroWidth)
    } else if params.sweep_width == 0 {
        Some(SweepError::ZeroSweepWidth)
    } else if params.sweep_speed == 0 {
        Some(SweepError::ZeroSweepSpeed)
    } else if width + params.sweep_width > usize::MAX {
        Some(SweepError::TooWide)
    } else {
        match params.loop_mode {
            LoopMode::Seamless { frame_overlap } => if sweep_steps(width, params)
                <= frame_overlap {
                Some(SweepError::NoFrames)
            } else {
                None
            },
            LoopMode::OneShot => if sweep_steps(width, params) + 1 > usize::MAX {
                Some(SweepError::TooWide)
            } else {
                None
            },
        }
    }
}

/// The modulus of the wraparound distance: `Some` in a seamless loop, where
/// the sweep re-enters on the left after `frame_count * sweep_speed` columns,
/// and `None` in a one-shot run.
pub open spec fn cycle_width_of(width: int, params: SweepParams) -> Option<usize> {
    match params.loop_mode {
        LoopMode::Seamless { .. } => Some(
            (frame_count_of(width, params) * params.sweep_speed) as usize,
        ),
        LoopMode::OneShot => None,
    }
}

/// The column on which the sweep's leading edge stands in frame `index`.
pub open spec fn sweep_position_of(index: int, params: SweepParams) -> int {
    index * params.sweep_speed
}

impl Default for SweepParams {
    /// A sweep 400 columns wide that advances 20 columns per frame, loops
    /// seamlessly with an overlap of 5 frames, snaps near the leading edge
    /// and shows each frame for 4 hundredths of a second.
    fn default() -> (r: SweepParams)
        ensures
            r == (SweepParams {
                sweep_width: 400,
                sweep_speed: 20,
                loop_mode: LoopMode::Seamless { frame_overlap: 5 },
                easing: Easing::SnapThenScale,
                delay: 4,
            }),
    {
        SweepParams {
            sweep_width: 400,
            sweep_speed: 20,
            loop_mode: LoopMode::Seamless { frame_overlap: 5 },
            easing: Easing::SnapThenScale,
            delay: 4,
        }
    }
}

/// The number of frames of a run over a picture `width` columns wide, or the
/// reason for which there is no such run. A run has at least one frame.
pub fn frame_count(width: usize, params: &SweepParams) -> (r: Result<usize, SweepError>)
    ensures
        r == match params_error(width as int, *params) {
            Some(e) => Err::<usize, SweepError>(e),
            None => Ok(frame_count_of(width as int, *params) as usize),
        },
        r matches Ok(n) ==> n == frame_count_of(width as int, *params) && n >= 1,
{
    if width == 0 {
        return Err(SweepError::ZeroWidth);
    }
    if params.sweep_width == 0 {
        return Err(SweepError::ZeroSweepWidth);
    }
    if params.sweep_speed == 0 {
        return Err(SweepError::ZeroSweepSpeed);
    }
    if width > usize::MAX - params.sweep_width {
        return Err(SweepError::TooWide);
    }
    let steps: usize = (width + params.sweep_width) / params.sweep_speed;
    match params.loop_mode {
        LoopMode::Seamless { frame_overlap } => {
            if steps <= frame_overlap {
                Err(SweepError::NoFrames)
            } else {
                Ok(steps - frame_overlap)
            }
        },
        LoopMode::OneShot => {
            if steps == usize::MAX {
                Err(SweepError::TooWide)
            } else {
                Ok(steps + 1)
            }
        },
    }
}

/// The modulus by which distances wrap in a run over a picture `width`
/// columns wide: `frame_count * sweep_speed` in a seamless loop, none in a
/// one-shot run; or the reason for which there is no such run.
pub fn cycle_width(width: usize, params: &SweepParams) -> (r: Result<Option<usize>, SweepError>)
    ensures
        r == match params_error(width as int, *params) {
            Some(e) => Err::<Option<usize>, SweepError>(e),
            None => Ok(cycle_width_of(width as int, *params)),
        },
        r matches Ok(Some(m)) ==> m == frame_count_of(width as int, *params) * params.sweep_speed
            && m > 0,
{
    let frames: usize = frame_count(width, params)?;
    match params.loop_mode {
        LoopMode::Seamless { .. } => {
            proof {
                lemma_run_fits(width as int, *params, frames as int);
                assert(frames * params.sweep_speed > 0) by (nonlinear_arith)
                    requires
                        frames >= 1,
                        params.sweep_speed >= 1,
                ;
            }
            Ok(Some(frames * params.sweep_speed))
        },
        LoopMode::OneShot => Ok(None),
    }
}

/// The column on which the sweep's leading edge stands in frame `index` of a
/// run over a picture `width` columns wide, or the reason for which the run
/// has no such frame.
pub fn sweep_position(width: usize, params: &SweepParams, index: usize) -> (r: Result<
    usize,
    SweepError,
>)
    ensures
        r == match params_error(width as int, *params) {
            Some(e) => Err::<usize, SweepError>(e),
            None => if index < frame_count_of(width as int, *params) {
                Ok(sweep_position_of(index as int, *params) as usize)
            } else {
                Err(SweepError::NoSuchFrame)
            },
        },
        r matches Ok(pos) ==> pos == index * params.sweep_speed,
{
    let frames: usize = frame_count(width, params)?;
    if index >= frames {
        return Err(SweepError::NoSuchFrame);
    }
    proof {
        lemma_run_fits(width as int, *params, index as int);
    }
    Ok(index * params.sweep_speed)
}

/// In a run that can start, the sweep never leaves the machine's integers:
/// frame `k` has its leading edge at most `width + sweep_width` columns in.
pub proof fn lemma_run_fits(width: int, params: SweepParams, k: int)
    requires
        0 <= width <= usize::MAX,
        params_error(width, params) is None,
        0 <= k <= sweep_steps(width, params),
    ensures
        0 <= k * params.sweep_speed <= width + params.sweep_width <= usize::MAX,
{
    let total = width + params.sweep_width;
    let speed = params.sweep_speed as int;
    lemma_fundamental_div_mod(total, speed);
    lemma_mod_pos_bound(total, speed);
    assert(0 <= k * speed <= total) by (nonlinear_arith)
        requires
            0 <= k <= total / speed,
            total == speed * (total / speed) + total % speed,
            0 <= total % speed,
            0 < speed,
    ;
}

/// A run that can start has at least one frame.
pub proof fn lemma_at_least_one_frame(width: int, params: SweepParams)
    requires
        0 <= width <= usize::MAX,
        params_error(width, params) is None,
    ensures
        1 <= frame_count_of(width, params) <= usize::MAX,
{
    let total = width + params.sweep_width;
    let speed = params.sweep_speed as int;
    lemma_fundamental_div_mod(total, speed);
    lemma_mod_pos_bound(total, speed);
    assert(0 <= total / speed <= total) by (nonlinear_arith)
        requires
            total == speed * (total / speed) + total % speed,
            0 <= total % speed < speed,
            0 < speed,
            0 <= total,
    ;
}

/// With the default parameters a run can start on every picture that is at
/// least one column wide and whose width leaves room for the sweep, and it
/// has at least 15 frames.
pub proof fn lemma_default_run_starts(width: int, params: SweepParams)
    requires
        1 <= width <= usize::MAX - 400,
        params == (SweepParams {
            sweep_width: 400,
            sweep_speed: 20,
            loop_mode: LoopMode::Seamless { frame_overlap: 5 },
            easing: Easing::SnapThenScale,
            delay: 4,
        }),
    ensures
        params_error(width, params) is None,
        frame_count_of(width, params) >= 15,
{
}

} // verus!
