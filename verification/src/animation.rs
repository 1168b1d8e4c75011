//! The whole pipeline: the frames of a run, written one after another into a
//! looping GIF animation.
//!
//! The container is written by the `gif` crate. What it writes for the screen
//! header, the loop directive and the trailer is stated byte by byte; what it
//! writes for a picture (palette, indices, compression) is a named function
//! of the picture.

use vstd::prelude::*;
use crate::driver::{run_error, run_frame, synthesize_frame};
use crate::params::{
    cycle_width, cycle_width_of, frame_count, frame_count_of, SweepError, SweepParams,
};

verus! {

/// `gif::EncodingError`, the reason for which the encoder gives up. It is
/// carried through as it is; nothing is claimed of what it holds.
#[verifier::external_type_specification]
#[verifier::external_body]
pub struct ExEncodingError(gif::EncodingError);

/// An animation that is being written: a `gif::Encoder` whose sink is a byte
/// vector in memory. The encoder is generic over `std::io::Write`, a trait
/// that verified code cannot name, so it is held here and seen only through
/// `written`.
#[verifier::external_body]
pub struct AnimationWriter {
    encoder: gif::Encoder<Vec<u8>>,
}

/// The bytes that the encoder has put into its sink so far.
pub uninterp spec fn written(writer: AnimationWriter) -> Seq<u8>;

/// The bytes that the encoder writes for one picture of `width` by `height`
/// RGBA pixels shown for `delay` hundredths of a second: control extension,
/// image descriptor, local palette and compressed indices. They follow from
/// the picture and the delay alone: the palette is reduced and the indices
/// are compressed without a seed, and nothing is kept from one frame to the
/// next.
pub uninterp spec fn picture_block(width: u16, height: u16, rgba: Seq<u8>, delay: u16) -> Seq<u8>;

/// The low byte and the high byte of `x`, in this order.
pub open spec fn little_endian(x: u16) -> Seq<u8> {
    seq![(x % 256) as u8, (x / 256) as u8]
}

/// What opens the container: the signature `GIF89a`, the screen's width and
/// height, the flags of an empty global palette of two entries, a zero
/// background index, a zero aspect ratio, and the two entries of that palette.
pub open spec fn screen_header(width: u16, height: u16) -> Seq<u8> {
    seq![0x47u8, 0x49u8, 0x46u8, 0x38u8, 0x39u8, 0x61u8] + little_endian(width) + little_endian(
        height,
    ) + seq![0x80u8, 0u8, 0u8, 0u8, 0u8, 0u8, 0u8, 0u8, 0u8]
}

/// The application extension `NETSCAPE2.0` with a repeat count of zero,
/// which players read as "repeat forever".
pub open spec fn loop_forever_block() -> Seq<u8> {
    seq![
        0x21u8, 0xFFu8, 0x0Bu8, 0x4Eu8, 0x45u8, 0x54u8, 0x53u8, 0x43u8, 0x41u8, 0x50u8, 0x45u8,
        0x32u8, 0x2Eu8, 0x30u8, 0x03u8, 0x01u8, 0x00u8, 0x00u8, 0x00u8,
    ]
}

/// The byte that closes the container.
pub open spec fn trailer() -> Seq<u8> {
    seq![0x3Bu8]
}

/// `gif::Encoder::new` on an empty byte vector, with an empty global
/// palette. Where it succeeds, the sink holds the screen header and nothing
/// else.
#[verifier::external_body]
fn open_animation(width: u16, height: u16) -> (r: Result<AnimationWriter, gif::EncodingError>)
    ensures
        r matches Ok(writer) ==> written(writer) == screen_header(width, height),
{
    Ok(AnimationWriter { encoder: gif::Encoder::new(Vec::new(), width, height, &[])? })
}

/// `gif::Encoder::set_repeat` with `gif::Repeat::Infinite`. Where it
/// succeeds, the loop directive has been appended to the sink.
#[verifier::external_body]
fn repeat_forever(writer: &mut AnimationWriter) -> (r: Result<(), gif::EncodingError>)
    ensures
        r is Ok ==> written(*final(writer)) == written(*old(writer)) + loop_forever_block(),
{
    writer.encoder.set_repeat(gif::Repeat::Infinite)
}

/// `gif::Frame::from_rgba`, which reduces the picture to a palette of at
/// most 256 colours, and `gif::Encoder::write_frame` on that frame with its
/// delay set. Where the write succeeds, the picture's block has been appended
/// to the sink; where it fails, nothing is claimed of the sink. `from_rgba`
/// panics unless the buffer holds `width * height` pixels of four bytes.
#[verifier::external_body]
fn write_picture(
    writer: &mut AnimationWriter,
    width: u16,
    height: u16,
    rgba: Vec<u8>,
    delay: u16,
) -> (r: Result<(), gif::EncodingError>)
    requires
        rgba@.len() == width as int * height as int * 4,
    ensures
        r is Ok ==> written(*final(writer)) == written(*old(writer)) + picture_block(
            width,
            height,
            rgba@,
            delay,
        ),
{
    let mut rgba = rgba;
    let mut frame = gif::Frame::from_rgba(width, height, &mut rgba);
    frame.delay = delay;
    writer.encoder.write_frame(&frame)
}

/// `gif::Encoder::into_inner`. Where it succeeds, it has appended the
/// trailer and hands out the sink.
#[verifier::external_body]
fn close_animation(writer: AnimationWriter) -> (r: Result<Vec<u8>, gif::EncodingError>)
    ensures
        r matches Ok(bytes) ==> bytes@ == written(writer) + trailer(),
{
    writer.encoder.into_inner()
}

/// Why no animation was made.
#[derive(Debug)]
pub enum RenderError {
    /// The inputs are not in order; nothing was handed to the encoder.
    Invalid(SweepError),
    /// The encoder gave up.
    Encoder(gif::EncodingError),
}

/// The blocks of the first `count` frames of a run, in order.
pub open spec fn picture_blocks(
    before: Seq<u8>,
    after: Seq<u8>,
    width: u16,
    height: u16,
    params: SweepParams,
    count: int,
) -> Seq<u8>
    decreases count,
{
    if count <= 0 {
        Seq::<u8>::empty()
    } else {
        picture_blocks(before, after, width, height, params, count - 1) + picture_block(
            width,
            height,
            run_frame(before, after, width as int, params, count - 1),
            params.delay,
        )
    }
}

/// The animation of a run: screen header, loop directive, one block for each
/// frame in ascending order, trailer.
pub open spec fn animation_of(
    before: Seq<u8>,
    after: Seq<u8>,
    width: u16,
    height: u16,
    params: SweepParams,
) -> Seq<u8> {
    screen_header(width, height) + loop_forever_block() + picture_blocks(
        before,
        after,
        width,
        height,
        params,
        frame_count_of(width as int, params),
    ) + trailer()
}

/// What a step of the encoder means for the run: its value where it
/// succeeded, and the encoder's own error where it did not.
pub fn encoder_step<T>(outcome: Result<T, gif::EncodingError>) -> (r: Result<T, RenderError>)
    ensures
        match outcome {
            Ok(v) => r == Ok::<T, RenderError>(v),
            Err(e) => r == Err::<T, RenderError>(RenderError::Encoder(e)),
        },
{
    match outcome {
        Ok(v) => Ok(v),
        Err(e) => Err(RenderError::Encoder(e)),
    }
}

/// Renders the run over two pictures of `width` by `height` pixels as a GIF
/// animation that repeats forever. Inputs that are not in order are refused
/// before the encoder is touched. Otherwise each frame is synthesized and
/// handed to the encoder in turn, and the result is the complete animation,
/// unless the encoder fails on the way.
pub fn render(
    before: &Vec<u8>,
    after: &Vec<u8>,
    width: u16,
    height: u16,
    params: &SweepParams,
) -> (r: Result<Vec<u8>, RenderError>)
    ensures
        match run_error(
            before.len() as int,
            after.len() as int,
            width as int,
            height as int,
            *params,
        ) {
            Some(e) => r == Err::<Vec<u8>, RenderError>(RenderError::Invalid(e)),
            None => match r {
                Ok(bytes) => bytes@ == animation_of(before@, after@, width, height, *params),
                Err(e) => e is Encoder,
            },
        },
{
    let count: usize = match frame_count(width as usize, params) {
        Ok(n) => n,
        Err(e) => {
            return Err(RenderError::Invalid(e));
        },
    };
    assert(width as int * height as int * 4 <= 0x3_FFFF_FFFF) by (nonlinear_arith)
        requires
            width <= 0xFFFF,
            height <= 0xFFFF,
    ;
    assert(0 <= width as int * height as int) by (nonlinear_arith);
    let expected: u64 = (width as u64) * (height as u64) * 4;
    if before.len() as u64 != expected || after.len() as u64 != expected {
        return Err(RenderError::Invalid(SweepError::SizeMismatch));
    }
    let cycle = match cycle_width(width as usize, params) {
        Ok(c) => c,
        Err(e) => {
            return Err(RenderError::Invalid(e));
        },
    };
    let mut writer = encoder_step(open_animation(width, height))?;
    encoder_step(repeat_forever(&mut writer))?;
    let mut index: usize = 0;
    while index < count
        invariant
            0 <= index <= count,
            count == frame_count_of(width as int, *params),
            run_error(
                before.len() as int,
                after.len() as int,
                width as int,
                height as int,
                *params,
            ) is None,
            cycle == cycle_width_of(width as int, *params),
            cycle matches Some(m) ==> m > 0,
            written(writer) == screen_header(width, height) + loop_forever_block()
                + picture_blocks(before@, after@, width, height, *params, index as int),
        decreases count - index,
    {
        let frame = synthesize_frame(
            before,
            after,
            width as usize,
            height as usize,
            params,
            cycle,
            index,
        );
        encoder_step(write_picture(&mut writer, width, height, frame.pixels, frame.delay))?;
        index = index + 1;
    }
    encoder_step(close_animation(writer))
}

} // verus!
