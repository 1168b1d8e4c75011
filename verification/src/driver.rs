//! The sequence driver: the frames of a whole run, in order, each with the
//! delay for which it is shown.

use vstd::prelude::*;
use crate::params::{
    cycle_width, cycle_width_of, frame_count, frame_count_of, lemma_run_fits, params_error,
    sweep_position_of, SweepError, SweepParams,
};
use crate::synth::{frame_of, lemma_cycle_repeats, synthesis_error, synthesize};

verus! {

/// One frame of the animation, ready for an encoder.
#[derive(Debug, PartialEq, Eq)]
pub struct OutputFrame {
    /// The picture, as RGBA bytes in row-major order.
    pub pixels: Vec<u8>,
    /// How long the frame is shown, in hundredths of a second.
    pub delay: u16,
}

/// The first reason, if any, for which there is no run over two buffers of
/// `before_len` and `after_len` bytes that are to hold pictures of `width` by
/// `height` pixels.
pub open spec fn run_error(
    before_len: int,
    after_len: int,
    width: int,
    height: int,
    params: SweepParams,
) -> Option<SweepError> {
    match params_error(width, params) {
        Some(e) => Some(e),
        None => if before_len != width * height * 4 || after_len != width * height * 4 {
            Some(SweepError::SizeMismatch)
        } else {
            None
        },
    }
}

/// The pixels of frame `index` of a run: the frame synthesized with the
/// sweep's leading edge on column `index * sweep_speed`.
pub open spec fn run_frame(
    before: Seq<u8>,
    after: Seq<u8>,
    width: int,
    params: SweepParams,
    index: int,
) -> Seq<u8> {
    frame_of(
        before,
        after,
        width,
        sweep_position_of(index, params),
        params.sweep_width as int,
        cycle_width_of(width, params),
        params.easing,
    )
}

/// Whether two buffers hold pictures of `width` by `height` pixels.
fn sizes_match(before_len: usize, after_len: usize, width: usize, height: usize) -> (r: bool)
    ensures
        r == (before_len == width * height * 4 && after_len == width * height * 4),
{
    let pixels: usize = match width.checked_mul(height) {
        Some(p) => p,
        None => {
            return false;
        },
    };
    match pixels.checked_mul(4) {
        Some(bytes) => before_len == bytes && after_len == bytes,
        None => false,
    }
}

/// Frame `index` of a run whose inputs have been found in order.
pub(crate) fn synthesize_frame(
    before: &Vec<u8>,
    after: &Vec<u8>,
    width: usize,
    height: usize,
    params: &SweepParams,
    cycle: Option<usize>,
    index: usize,
) -> (r: OutputFrame)
    requires
        run_error(before.len() as int, after.len() as int, width as int, height as int, *params)
            is None,
        cycle == cycle_width_of(width as int, *params),
        cycle matches Some(m) ==> m > 0,
        index < frame_count_of(width as int, *params),
    ensures
        r.pixels@ == run_frame(before@, after@, width as int, *params, index as int),
        r.pixels.len() == before.len(),
        r.delay == params.delay,
{
    proof {
        lemma_run_fits(width as int, *params, index as int);
        lemma_whole_rows(width as int, height as int);
    }
    let sweep_pos: usize = index * params.sweep_speed;
    let made = synthesize(
        before,
        after,
        width,
        sweep_pos,
        params.sweep_width,
        cycle,
        params.easing,
    );
    assert(synthesis_error(
        before.len() as int,
        after.len() as int,
        width as int,
        params.sweep_width as int,
        cycle,
    ) is None);
    OutputFrame { pixels: made.unwrap(), delay: params.delay }
}

/// A picture of `width` by `height` pixels is a whole number of rows.
proof fn lemma_whole_rows(width: int, height: int)
    requires
        width > 0,
        height >= 0,
    ensures
        (width * height * 4) % (4 * width) == 0,
{
    assert(width * height * 4 == height * (4 * width)) by (nonlinear_arith);
    vstd::arithmetic::div_mod::lemma_mod_multiples_basic(height, 4 * width);
}

/// Frame `index` of the run over two pictures of `width` by `height` pixels,
/// or the reason for which the run has no such frame.
pub fn frame_at(
    before: &Vec<u8>,
    after: &Vec<u8>,
    width: usize,
    height: usize,
    params: &SweepParams,
    index: usize,
) -> (r: Result<OutputFrame, SweepError>)
    ensures
        match run_error(
            before.len() as int,
            after.len() as int,
            width as int,
            height as int,
            *params,
        ) {
            Some(e) => r == Err::<OutputFrame, SweepError>(e),
            None => if index < frame_count_of(width as int, *params) {
                r matches Ok(frame) && frame.pixels@ == run_frame(
                    before@,
                    after@,
                    width as int,
                    *params,
                    index as int,
                ) && frame.delay == params.delay
            } else {
                r == Err::<OutputFrame, SweepError>(SweepError::NoSuchFrame)
            },
        },
{
    let frames: usize = frame_count(width, params)?;
    if !sizes_match(before.len(), after.len(), width, height) {
        return Err(SweepError::SizeMismatch);
    }
    if index >= frames {
        return Err(SweepError::NoSuchFrame);
    }
    let cycle = cycle_width(width, params)?;
    Ok(synthesize_frame(before, after, width, height, params, cycle, index))
}

/// All frames of the run over two pictures of `width` by `height` pixels, in
/// ascending order of the sweep position, none left out; or the reason for
/// which there is no run. Nothing is made before the inputs are found in
/// order.
pub fn run(
    before: &Vec<u8>,
    after: &Vec<u8>,
    width: usize,
    height: usize,
    params: &SweepParams,
) -> (r: Result<Vec<OutputFrame>, SweepError>)
    ensures
        match run_error(
            before.len() as int,
            after.len() as int,
            width as int,
            height as int,
            *params,
        ) {
            Some(e) => r == Err::<Vec<OutputFrame>, SweepError>(e),
            None => r matches Ok(frames) && frames.len() == frame_count_of(width as int, *params)
                && forall|k: int|
                    0 <= k < frames.len() ==> (#[trigger] frames[k]).pixels@ == run_frame(
                        before@,
                        after@,
                        width as int,
                        *params,
                        k,
                    ) && frames[k].delay == params.delay,
        },
        r matches Ok(frames) ==> frames.len() >= 1,
{
    let count: usize = frame_count(width, params)?;
    if !sizes_match(before.len(), after.len(), width, height) {
        return Err(SweepError::SizeMismatch);
    }
    let cycle = cycle_width(width, params)?;
    let mut frames: Vec<OutputFrame> = Vec::new();
    let mut index: usize = 0;
    while index < count
        invariant
            0 <= index <= count,
            count == frame_count_of(width as int, *params),
            run_error(
                before.len() as int,
                after.len() as int,
                width as int,
                height as int,
                *params,
            ) is None,
            cycle == cycle_width_of(width as int, *params),
            cycle matches Some(m) ==> m > 0,
            frames.len() == index,
            forall|k: int|
                0 <= k < index ==> (#[trigger] frames[k]).pixels@ == run_frame(
                    before@,
                    after@,
                    width as int,
                    *params,
                    k,
                ) && frames[k].delay == params.delay,
        decreases count - index,
    {
        let frame = synthesize_frame(before, after, width, height, params, cycle, index);
        frames.push(frame);
        index = index + 1;
    }
    Ok(frames)
}

/// A seamless loop closes without a seam: the frame that would follow the
/// last one is the first one again.
pub proof fn lemma_loop_closes(before: Seq<u8>, after: Seq<u8>, width: int, params: SweepParams)
    requires
        0 <= width <= usize::MAX,
        params_error(width, params) is None,
        params.loop_mode is Seamless,
    ensures
        run_frame(before, after, width, params, frame_count_of(width, params)) == run_frame(
            before,
            after,
            width,
            params,
            0,
        ),
{
    let frames = frame_count_of(width, params);
    lemma_run_fits(width, params, frames);
    let cycle = (frames * params.sweep_speed) as usize;
    assert(cycle > 0) by (nonlinear_arith)
        requires
            cycle == frames * params.sweep_speed,
            frames >= 1,
            params.sweep_speed >= 1,
    ;
    assert(0 * params.sweep_speed == 0);
    lemma_cycle_repeats(
        before,
        after,
        width,
        0,
        params.sweep_width as int,
        cycle,
        params.easing,
    );
}

} // verus!
