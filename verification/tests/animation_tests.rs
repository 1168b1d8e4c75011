use ekg_sweep::animation::{encoder_step, render, RenderError};
use ekg_sweep::blend::Easing;
use ekg_sweep::driver::run;
use ekg_sweep::params::{LoopMode, SweepError, SweepParams};

fn gradient(width: usize, height: usize, seed: usize) -> Vec<u8> {
    let mut out = Vec::new();
    for y in 0..height {
        for x in 0..width {
            out.push(((x * 16 + seed) % 256) as u8);
            out.push(((y * 32 + seed) % 256) as u8);
            out.push(((x + y + seed) % 256) as u8);
            out.push(255);
        }
    }
    out
}

fn small_params(easing: Easing) -> SweepParams {
    SweepParams {
        sweep_width: 3,
        sweep_speed: 2,
        loop_mode: LoopMode::Seamless { frame_overlap: 1 },
        easing,
        delay: 4,
    }
}

fn decode(bytes: &[u8]) -> (u16, u16, Vec<(Vec<u8>, u16)>) {
    let mut options = gif::DecodeOptions::new();
    options.set_color_output(gif::ColorOutput::RGBA);
    let mut decoder = options.read_info(bytes).unwrap();
    let width = decoder.width();
    let height = decoder.height();
    let mut frames = Vec::new();
    while let Some(frame) = decoder.read_next_frame().unwrap() {
        assert_eq!(frame.width, width);
        assert_eq!(frame.height, height);
        frames.push((frame.buffer.to_vec(), frame.delay));
    }
    (width, height, frames)
}

#[test]
fn render_opens_with_the_screen_header() {
    let before = gradient(5, 2, 0);
    let after = gradient(5, 2, 90);
    let bytes = render(&before, &after, 5, 2, &small_params(Easing::Linear)).unwrap();
    assert_eq!(
        &bytes[0..19],
        &[0x47, 0x49, 0x46, 0x38, 0x39, 0x61, 5, 0, 2, 0, 0x80, 0, 0, 0, 0, 0, 0, 0, 0]
    );
}

#[test]
fn render_writes_wide_screens_low_byte_first() {
    let before = gradient(300, 1, 0);
    let after = gradient(300, 1, 90);
    let bytes = render(&before, &after, 300, 1, &SweepParams::default()).unwrap();
    assert_eq!(&bytes[0..6], b"GIF89a");
    assert_eq!(&bytes[6..10], &[0x2C, 0x01, 0x01, 0x00]);
}

#[test]
fn render_asks_for_endless_repetition() {
    let before = gradient(5, 2, 0);
    let after = gradient(5, 2, 90);
    let bytes = render(&before, &after, 5, 2, &small_params(Easing::Linear)).unwrap();
    let mut expected = vec![0x21u8, 0xFF, 0x0B];
    expected.extend_from_slice(b"NETSCAPE2.0");
    expected.extend_from_slice(&[0x03, 0x01, 0x00, 0x00, 0x00]);
    assert_eq!(&bytes[19..38], &expected[..]);
}

#[test]
fn render_closes_with_the_trailer() {
    let before = gradient(5, 2, 0);
    let after = gradient(5, 2, 90);
    let bytes = render(&before, &after, 5, 2, &small_params(Easing::Linear)).unwrap();
    assert_eq!(bytes[bytes.len() - 1], 0x3B);
    assert!(bytes.len() > 39);
}

#[test]
fn render_holds_every_frame_of_the_run() {
    let before = gradient(5, 2, 0);
    let after = gradient(5, 2, 90);
    for easing in [Easing::Linear, Easing::SnapThenScale] {
        let p = small_params(easing);
        let bytes = render(&before, &after, 5, 2, &p).unwrap();
        let frames = run(&before, &after, 5, 2, &p).unwrap();
        let (width, height, decoded) = decode(&bytes);
        assert_eq!((width, height), (5, 2));
        assert_eq!(decoded.len(), frames.len());
        assert_eq!(decoded.len(), 3);
        for (found, made) in decoded.iter().zip(frames.iter()) {
            assert_eq!(found.0, made.pixels);
            assert_eq!(found.1, made.delay);
        }
    }
}

#[test]
fn render_carries_the_delay() {
    let before = gradient(4, 1, 0);
    let after = gradient(4, 1, 90);
    let mut p = small_params(Easing::Linear);
    p.delay = 2;
    let bytes = render(&before, &after, 4, 1, &p).unwrap();
    let (_, _, decoded) = decode(&bytes);
    assert!(!decoded.is_empty());
    for frame in decoded.iter() {
        assert_eq!(frame.1, 2);
    }
}

#[test]
fn render_twice_gives_the_same_bytes() {
    let before = gradient(40, 9, 3);
    let after = gradient(40, 9, 171);
    let p = SweepParams::default();
    let first = render(&before, &after, 40, 9, &p).unwrap();
    let second = render(&before, &after, 40, 9, &p).unwrap();
    assert_eq!(first, second);
    let (_, _, decoded) = decode(&first);
    assert_eq!(decoded.len(), 17);
}

#[test]
fn render_reduces_rich_pictures_the_same_way_each_time() {
    // More than 256 colours in a frame: the encoder has to reduce the palette.
    let mut before = Vec::new();
    let mut after = Vec::new();
    for y in 0..20usize {
        for x in 0..20usize {
            before.extend_from_slice(&[(x * 12) as u8, (y * 12) as u8, ((x * y) % 256) as u8, 255]);
            after.extend_from_slice(&[(y * 11) as u8, (x * 7) as u8, ((x + y) * 5) as u8, 255]);
        }
    }
    let p = SweepParams {
        sweep_width: 10,
        sweep_speed: 10,
        loop_mode: LoopMode::OneShot,
        easing: Easing::Linear,
        delay: 4,
    };
    let first = render(&before, &after, 20, 20, &p).unwrap();
    let second = render(&before, &after, 20, 20, &p).unwrap();
    assert_eq!(first, second);
    let (_, _, decoded) = decode(&first);
    assert_eq!(decoded.len(), 4);
}

#[test]
fn render_refuses_inputs_that_are_not_in_order() {
    let before = gradient(5, 2, 0);
    let after = gradient(5, 2, 90);
    let short = gradient(5, 1, 0);
    let p = small_params(Easing::Linear);
    assert!(matches!(
        render(&before, &short, 5, 2, &p),
        Err(RenderError::Invalid(SweepError::SizeMismatch))
    ));
    assert!(matches!(
        render(&short, &after, 5, 2, &p),
        Err(RenderError::Invalid(SweepError::SizeMismatch))
    ));
    assert!(matches!(
        render(&before, &after, 2, 5, &p),
        Ok(_)
    ));
    assert!(matches!(
        render(&before, &after, 5, 3, &p),
        Err(RenderError::Invalid(SweepError::SizeMismatch))
    ));
    let empty: Vec<u8> = Vec::new();
    assert!(matches!(
        render(&empty, &empty, 0, 0, &p),
        Err(RenderError::Invalid(SweepError::ZeroWidth))
    ));
    let mut stalled = p;
    stalled.sweep_speed = 0;
    assert!(matches!(
        render(&before, &after, 5, 2, &stalled),
        Err(RenderError::Invalid(SweepError::ZeroSweepSpeed))
    ));
    let mut thin = p;
    thin.sweep_width = 0;
    assert!(matches!(
        render(&before, &after, 5, 2, &thin),
        Err(RenderError::Invalid(SweepError::ZeroSweepWidth))
    ));
    let mut cut = p;
    cut.loop_mode = LoopMode::Seamless { frame_overlap: 4 };
    assert!(matches!(
        render(&before, &after, 5, 2, &cut),
        Err(RenderError::Invalid(SweepError::NoFrames))
    ));
}

#[test]
fn encoder_step_passes_success_through() {
    let ok: Result<u8, gif::EncodingError> = Ok(7);
    assert!(matches!(encoder_step(ok), Ok(7)));
}

#[test]
fn encoder_step_keeps_the_encoders_error() {
    let failed: Result<u8, gif::EncodingError> =
        Err(gif::EncodingError::Format(gif::EncodingFormatError::TooManyColors));
    assert!(matches!(
        encoder_step(failed),
        Err(RenderError::Encoder(gif::EncodingError::Format(
            gif::EncodingFormatError::TooManyColors
        )))
    ));
}
