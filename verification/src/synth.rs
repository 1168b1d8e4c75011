//! The frame synthesizer: one frame of the sweep, blended byte by byte from
//! the "before" and the "after" picture.
//!
//! A picture is a row-major buffer of RGBA pixels, four bytes each. The byte
//! at index `i` belongs to column `(i / 4) % width`. Each byte is blended by
//! how far its column lies behind the sweep's leading edge.

use vstd::prelude::*;
use crate::blend::{
    amount_behind, blended, interpolate, lemma_amount_at_the_ends, lemma_amount_in_unit_interval,
    lemma_blend_full, lemma_blend_is_byte, Amount, Easing,
};
use crate::modulo::{sub_modulo, wrapped_difference};
use crate::params::SweepError;

verus! {

/// The column of the byte at index `i` in a picture `width` columns wide.
pub open spec fn column_of(i: int, width: int) -> int {
    (i / 4) % width
}

/// How far column `x` lies behind the sweep's leading edge at `sweep_pos`.
/// With a cycle width the distance wraps and is always defined; without one,
/// a column ahead of the leading edge has no distance.
pub open spec fn sweep_distance(sweep_pos: int, x: int, cycle_width: Option<usize>) -> Option<
    int,
> {
    match cycle_width {
        Some(m) => Some(wrapped_difference(sweep_pos, x, m as int)),
        None => if sweep_pos >= x {
            Some(sweep_pos - x)
        } else {
            None
        },
    }
}

/// A column is inside the band if it lies fewer than `sweep_width` columns
/// behind the leading edge.
pub open spec fn in_band(distance: Option<int>, sweep_width: int) -> bool {
    distance matches Some(d) && d < sweep_width
}

/// One channel of a synthesized frame. Outside the band it is the "before"
/// channel. Inside, at distance `d`, it is "before" blended towards "after"
/// by the amount `1 - d / sweep_width`.
pub open spec fn channel_of(
    before: u8,
    after: u8,
    distance: Option<int>,
    sweep_width: int,
    easing: Easing,
) -> int {
    if in_band(distance, sweep_width) {
        blended(
            before as int,
            after as int,
            amount_behind(distance->Some_0, sweep_width),
            easing,
        )
    } else {
        before as int
    }
}

/// The synthesized frame: every byte of "before" replaced by its channel.
pub open spec fn frame_of(
    before: Seq<u8>,
    after: Seq<u8>,
    width: int,
    sweep_pos: int,
    sweep_width: int,
    cycle_width: Option<usize>,
    easing: Easing,
) -> Seq<u8> {
    Seq::new(
        before.len(),
        |i: int|
            channel_of(
                before[i],
                after[i],
                sweep_distance(sweep_pos, column_of(i, width), cycle_width),
                sweep_width,
                easing,
            ) as u8,
    )
}

/// The first reason, if any, for which no frame can be synthesized from two
/// buffers of `before_len` and `after_len` bytes.
pub open spec fn synthesis_error(
    before_len: int,
    after_len: int,
    width: int,
    sweep_width: int,
    cycle_width: Option<usize>,
) -> Option<SweepError> {
    if width == 0 {
        Some(SweepError::ZeroWidth)
    } else if sweep_width == 0 {
        Some(SweepError::ZeroSweepWidth)
    } else if cycle_width == Some(0usize) {
        Some(SweepError::ZeroCycleWidth)
    } else if before_len != after_len || before_len % (4 * width) != 0 {
        Some(SweepError::SizeMismatch)
    } else {
        None
    }
}

/// Whether `found` is the blend amount of a column at `distance`: none
/// outside the band, and inside it the amount for that distance.
spec fn is_amount_at(found: Option<Amount>, distance: Option<int>, sweep_width: int) -> bool {
    if in_band(distance, sweep_width) {
        found matches Some(a) && a.units() == amount_behind(distance->Some_0, sweep_width)
    } else {
        found is None
    }
}

/// The blend amounts of the first `columns` columns of a frame.
fn column_amounts(
    columns: usize,
    sweep_pos: usize,
    sweep_width: usize,
    cycle_width: Option<usize>,
) -> (r: Vec<Option<Amount>>)
    requires
        cycle_width != Some(0usize),
    ensures
        r.len() == columns,
        forall|x: int|
            0 <= x < columns ==> is_amount_at(
                #[trigger] r[x],
                sweep_distance(sweep_pos as int, x, cycle_width),
                sweep_width as int,
            ),
{
    let mut amounts: Vec<Option<Amount>> = Vec::with_capacity(columns);
    let mut x: usize = 0;
    while x < columns
        invariant
            0 <= x <= columns,
            cycle_width != Some(0usize),
            amounts.len() == x,
            forall|y: int|
                0 <= y < x ==> is_amount_at(
                    #[trigger] amounts[y],
                    sweep_distance(sweep_pos as int, y, cycle_width),
                    sweep_width as int,
                ),
        decreases columns - x,
    {
        let amount = match distance_behind(sweep_pos, x, cycle_width) {
            Some(d) => if d < sweep_width {
                Amount::behind(d, sweep_width)
            } else {
                None
            },
            None => None,
        };
        amounts.push(amount);
        x = x + 1;
    }
    amounts
}

/// Whether `len` bytes make up whole rows of `width` pixels.
fn whole_rows(len: usize, width: usize) -> (r: bool)
    requires
        width > 0,
    ensures
        r == (len as int % (4 * width as int) == 0),
{
    if width > usize::MAX / 4 {
        proof {
            if len > 0 {
                vstd::arithmetic::div_mod::lemma_small_mod(len as nat, (4 * width) as nat);
            }
        }
        len == 0
    } else {
        len % (4 * width) == 0
    }
}

/// How far column `x` lies behind the leading edge, on machine integers.
pub fn distance_behind(sweep_pos: usize, x: usize, cycle_width: Option<usize>) -> (r: Option<
    usize,
>)
    requires
        cycle_width != Some(0usize),
    ensures
        sweep_distance(sweep_pos as int, x as int, cycle_width) == match r {
            Some(d) => Some(d as int),
            None => None::<int>,
        },
        cycle_width matches Some(m) ==> r matches Some(d) && d < m,
{
    match cycle_width {
        Some(m) => Some(sub_modulo(sweep_pos, x, m)),
        None => if sweep_pos >= x {
            Some(sweep_pos - x)
        } else {
            None
        },
    }
}

/// One channel of a synthesized frame, on machine integers.
pub fn blend_channel(
    before: u8,
    after: u8,
    distance: Option<usize>,
    sweep_width: usize,
    easing: Easing,
) -> (r: u8)
    ensures
        r == channel_of(
            before,
            after,
            match distance {
                Some(d) => Some(d as int),
                None => None::<int>,
            },
            sweep_width as int,
            easing,
        ),
        !(distance matches Some(d) && d < sweep_width) ==> r == before,
        distance == Some(0usize) && sweep_width > 0 ==> r == after,
{
    match distance {
        Some(d) => {
            if d < sweep_width {
                let amount = Amount::behind(d, sweep_width).unwrap();
                interpolate(before, after, amount, easing)
            } else {
                before
            }
        },
        None => before,
    }
}

/// Synthesizes the frame in which the sweep's leading edge stands on column
/// `sweep_pos`. Both pictures are read, neither is changed. A frame is made
/// exactly when the pictures have the same length, that length is a whole
/// number of rows of `width` pixels, and neither `width`, `sweep_width` nor a
/// given `cycle_width` is zero.
pub fn synthesize(
    before: &Vec<u8>,
    after: &Vec<u8>,
    width: usize,
    sweep_pos: usize,
    sweep_width: usize,
    cycle_width: Option<usize>,
    easing: Easing,
) -> (r: Result<Vec<u8>, SweepError>)
    ensures
        match synthesis_error(
            before.len() as int,
            after.len() as int,
            width as int,
            sweep_width as int,
            cycle_width,
        ) {
            Some(e) => r == Err::<Vec<u8>, SweepError>(e),
            None => r matches Ok(frame) && frame@ == frame_of(
                before@,
                after@,
                width as int,
                sweep_pos as int,
                sweep_width as int,
                cycle_width,
                easing,
            ),
        },
        r matches Ok(frame) ==> frame.len() == before.len(),
        r matches Ok(frame) ==> forall|i: int|
            0 <= i < frame.len() && !in_band(
                #[trigger] sweep_distance(sweep_pos as int, column_of(i, width as int), cycle_width),
                sweep_width as int,
            ) ==> frame[i] == before[i],
        r matches Ok(frame) ==> forall|i: int|
            0 <= i < frame.len() && #[trigger] sweep_distance(
                sweep_pos as int,
                column_of(i, width as int),
                cycle_width,
            ) == Some(0int) ==> frame[i] == after[i],
{
    if width == 0 {
        return Err(SweepError::ZeroWidth);
    }
    if sweep_width == 0 {
        return Err(SweepError::ZeroSweepWidth);
    }
    if let Some(m) = cycle_width {
        if m == 0 {
            return Err(SweepError::ZeroCycleWidth);
        }
    }
    if before.len() != after.len() || !whole_rows(before.len(), width) {
        return Err(SweepError::SizeMismatch);
    }
    let len: usize = before.len();
    if len == 0 {
        let empty: Vec<u8> = Vec::new();
        assert(empty@ =~= frame_of(
            before@,
            after@,
            width as int,
            sweep_pos as int,
            sweep_width as int,
            cycle_width,
            easing,
        ));
        return Ok(empty);
    }
    let ghost target = frame_of(
        before@,
        after@,
        width as int,
        sweep_pos as int,
        sweep_width as int,
        cycle_width,
        easing,
    );
    let amounts = column_amounts(width, sweep_pos, sweep_width, cycle_width);
    let mut frame: Vec<u8> = Vec::with_capacity(len);
    let mut i: usize = 0;
    while i < len
        invariant
            0 <= i <= len,
            len == before.len(),
            len == after.len(),
            width > 0,
            sweep_width > 0,
            frame.len() == i,
            amounts.len() == width,
            forall|x: int|
                0 <= x < width ==> is_amount_at(
                    #[trigger] amounts[x],
                    sweep_distance(sweep_pos as int, x, cycle_width),
                    sweep_width as int,
                ),
            target == frame_of(
                before@,
                after@,
                width as int,
                sweep_pos as int,
                sweep_width as int,
                cycle_width,
                easing,
            ),
            forall|j: int| 0 <= j < i ==> frame[j] == target[j],
            forall|j: int|
                0 <= j < i && !in_band(
                    #[trigger] sweep_distance(
                        sweep_pos as int,
                        column_of(j, width as int),
                        cycle_width,
                    ),
                    sweep_width as int,
                ) ==> frame[j] == before[j],
            forall|j: int|
                0 <= j < i && #[trigger] sweep_distance(
                    sweep_pos as int,
                    column_of(j, width as int),
                    cycle_width,
                ) == Some(0int) ==> frame[j] == after[j],
        decreases len - i,
    {
        let x: usize = (i / 4) % width;
        let value: u8 = match amounts[x] {
            Some(amount) => {
                proof {
                    lemma_amount_at_the_ends(sweep_width as int);
                }
                interpolate(before[i], after[i], amount, easing)
            },
            None => before[i],
        };
        frame.push(value);
        i = i + 1;
    }
    assert(frame@ =~= target);
    Ok(frame)
}

/// A synthesized channel is a byte.
pub proof fn lemma_channel_is_byte(
    before: u8,
    after: u8,
    distance: Option<int>,
    sweep_width: int,
    easing: Easing,
)
    requires
        sweep_width > 0,
        distance matches Some(d) ==> d >= 0,
    ensures
        0 <= channel_of(before, after, distance, sweep_width, easing) <= 255,
{
    if in_band(distance, sweep_width) {
        lemma_amount_in_unit_interval(distance->Some_0, sweep_width);
        lemma_blend_is_byte(
            before as int,
            after as int,
            amount_behind(distance->Some_0, sweep_width),
            easing,
        );
    }
}

/// A column that the sweep has not reached, or has left behind by the whole
/// sweep width or more, shows the "before" channel unchanged.
pub proof fn lemma_outside_band_is_before(
    before: u8,
    after: u8,
    distance: Option<int>,
    sweep_width: int,
    easing: Easing,
)
    requires
        !in_band(distance, sweep_width),
    ensures
        channel_of(before, after, distance, sweep_width, easing) == before,
{
}

/// The column on which the leading edge stands shows the "after" channel
/// exactly, under either easing.
pub proof fn lemma_leading_edge_is_after(before: u8, after: u8, sweep_width: int, easing: Easing)
    requires
        sweep_width > 0,
    ensures
        channel_of(before, after, Some(0int), sweep_width, easing) == after,
{
    lemma_amount_at_the_ends(sweep_width);
    lemma_blend_full(before as int, after as int, easing);
}

/// A wrapped distance lies in `[0, cycle_width)`, wherever the sweep and the
/// column stand.
pub proof fn lemma_wrapped_distance_in_cycle(sweep_pos: int, x: int, cycle_width: usize)
    requires
        cycle_width > 0,
    ensures
        sweep_distance(sweep_pos, x, Some(cycle_width)) matches Some(d) && 0 <= d < cycle_width,
{
    vstd::arithmetic::div_mod::lemma_mod_bound(sweep_pos - x, cycle_width as int);
}

/// Moving the sweep on by one whole cycle brings back the same frame.
pub proof fn lemma_cycle_repeats(
    before: Seq<u8>,
    after: Seq<u8>,
    width: int,
    sweep_pos: int,
    sweep_width: int,
    cycle_width: usize,
    easing: Easing,
)
    requires
        cycle_width > 0,
    ensures
        frame_of(
            before,
            after,
            width,
            sweep_pos + cycle_width,
            sweep_width,
            Some(cycle_width),
            easing,
        ) == frame_of(before, after, width, sweep_pos, sweep_width, Some(cycle_width), easing),
{
    let moved = frame_of(
        before,
        after,
        width,
        sweep_pos + cycle_width,
        sweep_width,
        Some(cycle_width),
        easing,
    );
    let stayed = frame_of(before, after, width, sweep_pos, sweep_width, Some(cycle_width), easing);
    assert forall|i: int| 0 <= i < before.len() implies moved[i] == stayed[i] by {
        let x = column_of(i, width);
        vstd::arithmetic::div_mod::lemma_mod_add_multiples_vanish(
            sweep_pos - x,
            cycle_width as int,
        );
        assert(sweep_pos + cycle_width - x == cycle_width + (sweep_pos - x));
    }
    assert(moved =~= stayed);
}

} // verus!
