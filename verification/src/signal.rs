//! The wire format as mathematics.
//!
//! A WS2812 strip is fed over one data line. This crate paces the line with
//! a periodic timer that ticks at 3 MHz, so everything the driver does is a
//! sequence of three kinds of [`Step`]: wait for the next tick, drive the
//! line high, drive the line low. The functions here say, as values of
//! `Seq<Step>`, which sequence stands for a bit, a byte, a colour and a
//! whole frame. The driver is verified against them.

use vstd::prelude::*;
use crate::color::Rgb8;

verus! {

/// One thing the driver does with the timer or the data line.
#[derive(Clone, Copy, Debug, PartialEq, Eq)]
pub enum Step {
    /// Wait for the next tick of the periodic timer: ask the timer again
    /// and again, without pause, until it reports one.
    WaitTick,
    /// Drive the data line to logic high.
    SetHigh,
    /// Drive the data line to logic low.
    SetLow,
}

/// Ticks that are waited out after the last colour of a frame.
///
/// A strip latches what it has received once the line has been quiet for
/// more than 50 microseconds. At three ticks per microsecond that is 150
/// ticks; ten more are added as margin. The number is only right for a
/// 3 MHz timer: nothing here knows or checks the rate the timer really
/// runs at.
pub const RESET_TICKS: usize = 3 * 50 + 10;

/// Number of steps in the pattern of one bit.
pub open spec fn steps_per_bit(slow: bool) -> int {
    if slow { 5 } else { 6 }
}

/// Number of ticks that the pattern of one bit waits for.
pub open spec fn ticks_per_bit(slow: bool) -> int {
    if slow { 3 } else { 4 }
}

/// Number of steps in the signal of one byte.
pub open spec fn steps_per_byte(slow: bool) -> int {
    8 * steps_per_bit(slow)
}

/// Number of steps in the signal of one colour: the alignment and three
/// bytes.
pub open spec fn steps_per_color(slow: bool) -> int {
    1 + 3 * steps_per_byte(slow)
}

/// Number of ticks that the signal of one colour waits for: one to align,
/// and those of the eight bits of each of its three channels.
pub open spec fn ticks_per_color(slow: bool) -> int {
    1 + 3 * 8 * ticks_per_bit(slow)
}

/// The pattern that puts one bit on the line.
///
/// Every pattern first waits for a tick and then raises the line; the bit's
/// value decides how long the line stays high. With the default timing a
/// one is high for two ticks and a zero for one, and the pattern ends after
/// four ticks. The slow timing is for targets where a change of the line
/// takes long: a one is lowered after two ticks and a zero at once, and the
/// pattern ends after three ticks.
pub open spec fn bit_signal(slow: bool, bit: bool) -> Seq<Step> {
    if slow {
        if bit {
            seq![Step::WaitTick, Step::SetHigh, Step::WaitTick, Step::WaitTick, Step::SetLow]
        } else {
            seq![Step::WaitTick, Step::SetHigh, Step::SetLow, Step::WaitTick, Step::WaitTick]
        }
    } else {
        if bit {
            seq![
                Step::WaitTick,
                Step::SetHigh,
                Step::WaitTick,
                Step::WaitTick,
                Step::SetLow,
                Step::WaitTick,
            ]
        } else {
            seq![
                Step::WaitTick,
                Step::SetHigh,
                Step::WaitTick,
                Step::SetLow,
                Step::WaitTick,
                Step::WaitTick,
            ]
        }
    }
}

/// Ticks for which the pattern of a bit holds the line high: the ticks
/// between raising and lowering it. A strip tells a one from a zero by this
/// time.
pub open spec fn high_ticks(slow: bool, bit: bool) -> nat {
    if bit {
        2
    } else if slow {
        0
    } else {
        1
    }
}

/// Ticks for which the pattern of a bit waits after it has lowered the line.
pub open spec fn low_ticks(slow: bool, bit: bool) -> nat {
    if !bit {
        2
    } else if slow {
        0
    } else {
        1
    }
}

/// Whether bit `index` of `data` is set, bit 0 being the least significant.
pub open spec fn bit_at(data: u8, index: u8) -> bool {
    (data >> index) & 1u8 == 1u8
}

/// The signal of one byte: the patterns of its eight bits, the most
/// significant bit first.
pub open spec fn byte_signal(slow: bool, data: u8) -> Seq<Step> {
    bit_signal(slow, bit_at(data, 7)) + bit_signal(slow, bit_at(data, 6)) + bit_signal(
        slow,
        bit_at(data, 5),
    ) + bit_signal(slow, bit_at(data, 4)) + bit_signal(slow, bit_at(data, 3)) + bit_signal(
        slow,
        bit_at(data, 2),
    ) + bit_signal(slow, bit_at(data, 1)) + bit_signal(slow, bit_at(data, 0))
}

/// The patterns of the `count` most significant bits of `data`, the most
/// significant bit first: the part of a byte's signal that stands for its
/// first `count` bits.
pub open spec fn leading_bits_signal(slow: bool, data: u8, count: nat) -> Seq<Step>
    recommends
        count <= 8,
    decreases count,
{
    if count == 0 {
        Seq::empty()
    } else {
        leading_bits_signal(slow, data, (count - 1) as nat) + bit_signal(
            slow,
            bit_at(data, (8 - count) as u8),
        )
    }
}

/// The signal of one colour: one tick to align with the timer, then the
/// green, the red and the blue byte, in that order.
pub open spec fn color_signal(slow: bool, color: Rgb8) -> Seq<Step> {
    seq![Step::WaitTick] + byte_signal(slow, color.g) + byte_signal(slow, color.r) + byte_signal(
        slow,
        color.b,
    )
}

/// The signals of `colors`, one after the other.
pub open spec fn colors_signal(slow: bool, colors: Seq<Rgb8>) -> Seq<Step>
    decreases colors.len(),
{
    if colors.len() == 0 {
        Seq::empty()
    } else {
        colors_signal(slow, colors.drop_last()) + color_signal(slow, colors.last())
    }
}

/// `count` waits for a tick and nothing else.
pub open spec fn idle_signal(count: nat) -> Seq<Step> {
    Seq::new(count, |i: int| Step::WaitTick)
}

/// The quiet time that ends a frame and makes the strip latch it.
pub open spec fn reset_signal() -> Seq<Step> {
    idle_signal(RESET_TICKS as nat)
}

/// The signal of a whole frame: every colour in turn, then the reset.
pub open spec fn frame_signal(slow: bool, colors: Seq<Rgb8>) -> Seq<Step> {
    colors_signal(slow, colors) + reset_signal()
}

/// How many ticks a signal waits for.
pub open spec fn tick_count(signal: Seq<Step>) -> nat
    decreases signal.len(),
{
    if signal.len() == 0 {
        0
    } else {
        tick_count(signal.drop_last()) + if signal.last() == Step::WaitTick {
            1nat
        } else {
            0nat
        }
    }
}

} // verus!
