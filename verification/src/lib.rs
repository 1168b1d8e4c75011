//! Frame synthesis for an "EKG sweep": a looping animation in which a band
//! sweeps across the picture from left to right. On the band's leading edge
//! the "after" picture shows; behind the edge it fades back, over the width
//! of the band, into the "before" picture.
//!
//! - `modulo`: subtraction modulo a cycle, by which distances wrap.
//! - `double`: double-precision rounding on integers.
//! - `blend`: the blend amount of a column and the blend of a channel.
//! - `params`: the settings of a run, its frame count and its cycle width.
//! - `synth`: one frame, blended byte by byte.
//! - `driver`: the frames of a run, in order.
//! - `animation`: the frames of a run, written into a GIF that repeats
//!   forever.

pub mod animation;
pub mod blend;
pub mod double;
pub mod driver;
pub mod modulo;
pub mod params;
pub mod synth;
