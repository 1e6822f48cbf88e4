//! What follows from the definitions of the signals: how long they are, how
//! many ticks they take, and where each part of a frame stands.

use vstd::prelude::*;
use crate::color::Rgb8;
use crate::signal::{
    bit_at, bit_signal, byte_signal, color_signal, colors_signal, frame_signal, high_ticks,
    idle_signal, leading_bits_signal, low_ticks, reset_signal, steps_per_bit, steps_per_byte,
    steps_per_color, tick_count, ticks_per_bit, ticks_per_color, Step, RESET_TICKS,
};

verus! {

/// A step more at the end adds one tick if it is a wait, and none otherwise.
pub proof fn lemma_tick_count_push(signal: Seq<Step>, step: Step)
    ensures
        tick_count(signal.push(step)) == tick_count(signal) + if step == Step::WaitTick {
            1nat
        } else {
            0nat
        },
{
    assert(signal.push(step).drop_last() =~= signal);
}

/// The ticks of two signals in a row are the ticks of the one plus the
/// ticks of the other.
pub proof fn lemma_tick_count_add(first: Seq<Step>, second: Seq<Step>)
    ensures
        tick_count(first + second) == tick_count(first) + tick_count(second),
    decreases second.len(),
{
    if second.len() == 0 {
    } else {
        lemma_tick_count_add(first, second.drop_last());
        assert((first + second).drop_last() =~= first + second.drop_last());
    }
}

/// An idle signal has as many steps as ticks, and every step is a wait.
pub proof fn lemma_idle_signal(count: nat)
    ensures
        idle_signal(count).len() == count,
        tick_count(idle_signal(count)) == count,
        forall|i: int| 0 <= i < count ==> idle_signal(count)[i] == Step::WaitTick,
    decreases count,
{
    if count > 0 {
        lemma_idle_signal((count - 1) as nat);
        assert(idle_signal(count).drop_last() =~= idle_signal((count - 1) as nat));
    }
}

/// The pattern of a bit has a fixed length and takes a fixed number of
/// ticks, whatever the bit. It starts on a tick and raises the line right
/// after it.
pub proof fn lemma_bit_signal(slow: bool, bit: bool)
    ensures
        bit_signal(slow, bit).len() == steps_per_bit(slow),
        tick_count(bit_signal(slow, bit)) == ticks_per_bit(slow),
        bit_signal(slow, bit)[0] == Step::WaitTick,
        bit_signal(slow, bit)[1] == Step::SetHigh,
{
    let e = Seq::<Step>::empty();
    let w = Step::WaitTick;
    let h = Step::SetHigh;
    let l = Step::SetLow;
    lemma_tick_count_push(e, w);
    lemma_tick_count_push(e.push(w), h);
    if slow {
        if bit {
            lemma_tick_count_push(e.push(w).push(h), w);
            lemma_tick_count_push(e.push(w).push(h).push(w), w);
            lemma_tick_count_push(e.push(w).push(h).push(w).push(w), l);
            assert(bit_signal(slow, bit) =~= e.push(w).push(h).push(w).push(w).push(l));
        } else {
            lemma_tick_count_push(e.push(w).push(h), l);
            lemma_tick_count_push(e.push(w).push(h).push(l), w);
            lemma_tick_count_push(e.push(w).push(h).push(l).push(w), w);
            assert(bit_signal(slow, bit) =~= e.push(w).push(h).push(l).push(w).push(w));
        }
    } else {
        if bit {
            lemma_tick_count_push(e.push(w).push(h), w);
            lemma_tick_count_push(e.push(w).push(h).push(w), w);
            lemma_tick_count_push(e.push(w).push(h).push(w).push(w), l);
            lemma_tick_count_push(e.push(w).push(h).push(w).push(w).push(l), w);
            assert(bit_signal(slow, bit) =~= e.push(w).push(h).push(w).push(w).push(l).push(w));
        } else {
            lemma_tick_count_push(e.push(w).push(h), w);
            lemma_tick_count_push(e.push(w).push(h).push(w), l);
            lemma_tick_count_push(e.push(w).push(h).push(w).push(l), w);
            lemma_tick_count_push(e.push(w).push(h).push(w).push(l).push(w), w);
            assert(bit_signal(slow, bit) =~= e.push(w).push(h).push(w).push(l).push(w).push(w));
        }
    }
}

/// The shape that all four patterns share: wait for a tick, raise the line,
/// hold it high for some ticks, lower it, and wait out the rest of the bit.
/// So every bit raises the line once and lowers it once, in that order, and
/// the bit's value shows in nothing but the time between the two.
pub proof fn lemma_bit_signal_shape(slow: bool, bit: bool)
    ensures
        bit_signal(slow, bit) == seq![Step::WaitTick, Step::SetHigh] + idle_signal(
            high_ticks(slow, bit),
        ) + seq![Step::SetLow] + idle_signal(low_ticks(slow, bit)),
        1 + high_ticks(slow, bit) + low_ticks(slow, bit) == ticks_per_bit(slow),
{
    assert(bit_signal(slow, bit) =~= seq![Step::WaitTick, Step::SetHigh] + idle_signal(
        high_ticks(slow, bit),
    ) + seq![Step::SetLow] + idle_signal(low_ticks(slow, bit)));
}

/// Within two signals in a row, a range that ends inside the first is a
/// range of the first.
proof fn lemma_subrange_of_first(first: Seq<Step>, second: Seq<Step>, from: int, to: int)
    requires
        0 <= from <= to <= first.len(),
    ensures
        (first + second).subrange(from, to) == first.subrange(from, to),
{
}

/// Within two signals in a row, the range behind the first is the second.
proof fn lemma_subrange_is_second(first: Seq<Step>, second: Seq<Step>)
    ensures
        (first + second).subrange(first.len() as int, (first.len() + second.len()) as int)
            == second,
{
}

/// Length and ticks of the patterns of the leading bits of a byte.
pub proof fn lemma_leading_bits_signal(slow: bool, data: u8, count: nat)
    requires
        count <= 8,
    ensures
        leading_bits_signal(slow, data, count).len() == count * steps_per_bit(slow),
        tick_count(leading_bits_signal(slow, data, count)) == count * ticks_per_bit(slow),
    decreases count,
{
    if count > 0 {
        let rest = leading_bits_signal(slow, data, (count - 1) as nat);
        let bit = bit_at(data, (8 - count) as u8);
        lemma_leading_bits_signal(slow, data, (count - 1) as nat);
        lemma_bit_signal(slow, bit);
        lemma_tick_count_add(rest, bit_signal(slow, bit));
    }
}

/// Among the leading bits of a byte, the pattern in place `place`, counted
/// from 0, is that of bit `7 - place`.
pub proof fn lemma_leading_bits_position(slow: bool, data: u8, count: nat, place: int)
    requires
        0 <= place < count <= 8,
    ensures
        leading_bits_signal(slow, data, count).subrange(
            place * steps_per_bit(slow),
            (place + 1) * steps_per_bit(slow),
        ) == bit_signal(slow, bit_at(data, (7 - place) as u8)),
    decreases count,
{
    let per = steps_per_bit(slow);
    let head = leading_bits_signal(slow, data, (count - 1) as nat);
    let last = bit_signal(slow, bit_at(data, (8 - count) as u8));
    lemma_leading_bits_signal(slow, data, (count - 1) as nat);
    lemma_bit_signal(slow, bit_at(data, (8 - count) as u8));
    if place == count - 1 {
        lemma_subrange_is_second(head, last);
    } else {
        lemma_leading_bits_position(slow, data, (count - 1) as nat, place);
        lemma_subrange_of_first(head, last, place * per, (place + 1) * per);
    }
}

/// The signal of a byte is the patterns of all eight of its leading bits.
pub proof fn lemma_leading_bits_of_whole_byte(slow: bool, data: u8)
    ensures
        leading_bits_signal(slow, data, 8) == byte_signal(slow, data),
{
    reveal_with_fuel(leading_bits_signal, 9);
    assert(leading_bits_signal(slow, data, 1) =~= bit_signal(slow, bit_at(data, 7)));
}

/// Length and ticks of the signal of a byte.
pub proof fn lemma_byte_signal(slow: bool, data: u8)
    ensures
        byte_signal(slow, data).len() == steps_per_byte(slow),
        tick_count(byte_signal(slow, data)) == 8 * ticks_per_bit(slow),
{
    lemma_leading_bits_of_whole_byte(slow, data);
    lemma_leading_bits_signal(slow, data, 8);
}

/// A byte is sent most significant bit first: the pattern in place `place`
/// of its signal, counted from 0, is that of bit `7 - place`.
pub proof fn lemma_byte_signal_msb_first(slow: bool, data: u8, place: int)
    requires
        0 <= place < 8,
    ensures
        byte_signal(slow, data).subrange(
            place * steps_per_bit(slow),
            (place + 1) * steps_per_bit(slow),
        ) == bit_signal(slow, bit_at(data, (7 - place) as u8)),
{
    lemma_leading_bits_of_whole_byte(slow, data);
    lemma_leading_bits_position(slow, data, 8, place);
}

/// Length and ticks of the signal of a colour, which starts on a tick.
pub proof fn lemma_color_signal(slow: bool, color: Rgb8)
    ensures
        color_signal(slow, color).len() == steps_per_color(slow),
        tick_count(color_signal(slow, color)) == ticks_per_color(slow),
        color_signal(slow, color)[0] == Step::WaitTick,
{
    let align = seq![Step::WaitTick];
    let green = byte_signal(slow, color.g);
    let red = byte_signal(slow, color.r);
    let blue = byte_signal(slow, color.b);
    lemma_byte_signal(slow, color.g);
    lemma_byte_signal(slow, color.r);
    lemma_byte_signal(slow, color.b);
    lemma_tick_count_push(Seq::empty(), Step::WaitTick);
    lemma_tick_count_add(align, green);
    lemma_tick_count_add(align + green, red);
    lemma_tick_count_add(align + green + red, blue);
}

/// A colour is sent green first, then red, then blue: the three bytes
/// stand in that order behind the tick of alignment.
pub proof fn lemma_color_signal_channel_order(slow: bool, color: Rgb8)
    ensures
        color_signal(slow, color).subrange(1, 1 + steps_per_byte(slow)) == byte_signal(
            slow,
            color.g,
        ),
        color_signal(slow, color).subrange(
            1 + steps_per_byte(slow),
            1 + 2 * steps_per_byte(slow),
        ) == byte_signal(slow, color.r),
        color_signal(slow, color).subrange(
            1 + 2 * steps_per_byte(slow),
            1 + 3 * steps_per_byte(slow),
        ) == byte_signal(slow, color.b),
{
    let align = seq![Step::WaitTick];
    let green = byte_signal(slow, color.g);
    let red = byte_signal(slow, color.r);
    let blue = byte_signal(slow, color.b);
    let per = steps_per_byte(slow);
    lemma_byte_signal(slow, color.g);
    lemma_byte_signal(slow, color.r);
    lemma_byte_signal(slow, color.b);
    lemma_subrange_is_second(align, green);
    lemma_subrange_of_first(align + green, red, 1, 1 + per);
    lemma_subrange_of_first(align + green + red, blue, 1, 1 + per);
    lemma_subrange_is_second(align + green, red);
    lemma_subrange_of_first(align + green + red, blue, 1 + per, 1 + 2 * per);
    lemma_subrange_is_second(align + green + red, blue);
}

/// Length and ticks of the signals of a run of colours.
pub proof fn lemma_colors_signal(slow: bool, colors: Seq<Rgb8>)
    ensures
        colors_signal(slow, colors).len() == colors.len() * steps_per_color(slow),
        tick_count(colors_signal(slow, colors)) == colors.len() * ticks_per_color(slow),
    decreases colors.len(),
{
    if colors.len() > 0 {
        let n = colors.len();
        lemma_colors_signal(slow, colors.drop_last());
        lemma_color_signal(slow, colors.last());
        lemma_tick_count_add(
            colors_signal(slow, colors.drop_last()),
            color_signal(slow, colors.last()),
        );
        assert(n * steps_per_color(slow) == (n - 1) * steps_per_color(slow) + steps_per_color(
            slow,
        )) by (nonlinear_arith);
        assert(n * ticks_per_color(slow) == (n - 1) * ticks_per_color(slow) + ticks_per_color(
            slow,
        )) by (nonlinear_arith);
    } else {
        assert(0 * ticks_per_color(slow) == 0);
    }
}

/// Colours are sent in the order they are given: the signal of colour
/// number `index` stands behind those of the colours before it.
pub proof fn lemma_colors_signal_position(slow: bool, colors: Seq<Rgb8>, index: int)
    requires
        0 <= index < colors.len(),
    ensures
        (index + 1) * steps_per_color(slow) <= colors_signal(slow, colors).len(),
        colors_signal(slow, colors).subrange(
            index * steps_per_color(slow),
            (index + 1) * steps_per_color(slow),
        ) == color_signal(slow, colors[index]),
    decreases colors.len(),
{
    let n = colors.len();
    let per = steps_per_color(slow);
    let head = colors_signal(slow, colors.drop_last());
    let last = color_signal(slow, colors.last());
    lemma_colors_signal(slow, colors);
    lemma_colors_signal(slow, colors.drop_last());
    assert((index + 1) * per <= n * per) by (nonlinear_arith)
        requires
            index + 1 <= n,
            per >= 0,
    ;
    assert((index + 1) * per == index * per + per) by (nonlinear_arith);
    assert(n * per == (n - 1) * per + per) by (nonlinear_arith);
    if index == n - 1 {
        lemma_subrange_is_second(head, last);
    } else {
        assert((index + 1) * per <= (n - 1) * per) by (nonlinear_arith)
            requires
                index + 1 <= n - 1,
                per >= 0,
        ;
        assert(0 <= index * per) by (nonlinear_arith)
            requires
                0 <= index,
                per >= 0,
        ;
        lemma_colors_signal_position(slow, colors.drop_last(), index);
        lemma_subrange_of_first(head, last, index * per, (index + 1) * per);
    }
}

/// Length and ticks of a frame: every colour takes one tick to align and
/// the ticks of its 24 bits, and the reset stands at the end.
pub proof fn lemma_frame_signal(slow: bool, colors: Seq<Rgb8>)
    ensures
        frame_signal(slow, colors).len() == colors.len() * steps_per_color(slow) + RESET_TICKS,
        tick_count(frame_signal(slow, colors)) == colors.len() * ticks_per_color(slow)
            + RESET_TICKS,
        frame_signal(slow, colors).subrange(
            colors.len() * steps_per_color(slow),
            colors.len() * steps_per_color(slow) + RESET_TICKS,
        ) == reset_signal(),
{
    lemma_colors_signal(slow, colors);
    lemma_idle_signal(RESET_TICKS as nat);
    lemma_tick_count_add(colors_signal(slow, colors), reset_signal());
    lemma_subrange_is_second(colors_signal(slow, colors), reset_signal());
}

/// With the default timing, a frame of one colour waits for one tick to
/// align, for four ticks for each of the eight bits of its three channels,
/// and for the reset.
pub proof fn lemma_frame_ticks_of_one_color(colors: Seq<Rgb8>)
    requires
        colors.len() == 1,
    ensures
        tick_count(frame_signal(false, colors)) == 1 + colors.len() * 3 * 8 * 4 + RESET_TICKS,
{
    lemma_frame_signal(false, colors);
}

/// A frame without colours is the reset alone: it waits for the ticks of
/// the reset and never touches the line.
pub proof fn lemma_empty_frame(slow: bool)
    ensures
        frame_signal(slow, Seq::empty()) == reset_signal(),
        frame_signal(slow, Seq::empty()).len() == RESET_TICKS,
        tick_count(frame_signal(slow, Seq::empty())) == RESET_TICKS,
        forall|i: int|
            0 <= i < RESET_TICKS ==> frame_signal(slow, Seq::empty())[i] == Step::WaitTick,
{
    lemma_idle_signal(RESET_TICKS as nat);
    assert(frame_signal(slow, Seq::empty()) =~= reset_signal());
}

/// Every frame starts by waiting for a tick, and a frame with colours
/// starts with the whole signal of its first colour, alignment included.
pub proof fn lemma_frame_starts_on_tick(slow: bool, colors: Seq<Rgb8>)
    ensures
        frame_signal(slow, colors).len() > 0,
        frame_signal(slow, colors)[0] == Step::WaitTick,
        colors.len() > 0 ==> frame_signal(slow, colors).subrange(
            0,
            steps_per_color(slow),
        ) == color_signal(slow, colors[0]),
{
    lemma_idle_signal(RESET_TICKS as nat);
    if colors.len() > 0 {
        let per = steps_per_color(slow);
        lemma_colors_signal_position(slow, colors, 0);
        lemma_subrange_of_first(colors_signal(slow, colors), reset_signal(), 0, per);
        lemma_color_signal(slow, colors[0]);
        assert(frame_signal(slow, colors)[0] == frame_signal(slow, colors).subrange(0, per)[0]);
    }
}

/// Two frames in a row: the second stands whole behind the first, so it
/// starts on a tick of its own, as if nothing had been sent before it.
pub proof fn lemma_consecutive_frames(slow: bool, first: Seq<Rgb8>, second: Seq<Rgb8>)
    ensures
        ({
            let both = frame_signal(slow, first) + frame_signal(slow, second);
            let split = frame_signal(slow, first).len() as int;
            &&& both[0] == Step::WaitTick
            &&& split < both.len()
            &&& both[split] == Step::WaitTick
            &&& both.subrange(split, both.len() as int) == frame_signal(slow, second)
        }),
{
    lemma_frame_starts_on_tick(slow, first);
    lemma_frame_starts_on_tick(slow, second);
    lemma_subrange_is_second(frame_signal(slow, first), frame_signal(slow, second));
}

} // verus!
