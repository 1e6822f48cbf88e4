//! The driver: it turns colours into the steps that put them on the line.

use vstd::prelude::*;
use crate::color::Rgb8;
use crate::lemmas::{
    lemma_bit_signal, lemma_byte_signal, lemma_frame_signal, lemma_leading_bits_of_whole_byte,
    lemma_tick_count_add,
};
use crate::signal::{
    bit_at, bit_signal, byte_signal, colors_signal, frame_signal, idle_signal,
    leading_bits_signal, tick_count, ticks_per_bit, ticks_per_color, Step, RESET_TICKS,
};

verus! {

/// Appending an alignment step and three bytes to a queue is appending them
/// to what the queue held last.
proof fn lemma_append_color(
    queue: Seq<Step>,
    sent: Seq<Step>,
    align: Step,
    green: Seq<Step>,
    red: Seq<Step>,
    blue: Seq<Step>,
)
    ensures
        (queue + sent).push(align) + green + red + blue == queue + (sent + (seq![align] + green
            + red + blue)),
{
    assert((queue + sent).push(align) + green + red + blue =~= queue + (sent + (seq![align]
        + green + red + blue)));
}

/// A WS2812 driver that is paced by a periodic timer.
///
/// The driver decides what happens on the data line and in which order; it
/// does not touch the hardware. Every step it decides on is queued, and the
/// owner of the timer and the pin takes the queue with
/// [`Ws2812::take_steps`] and carries the steps out one by one, in order,
/// without looking at whether a step succeeded. The timer has to run at
/// 3 MHz already.
///
/// `SLOW` selects the timing of a bit and is fixed with the type.
pub struct Ws2812<const SLOW: bool> {
    queue: Vec<Step>,
}

impl<const SLOW: bool> Ws2812<SLOW> {
    /// The steps that were decided on and not yet taken, oldest first.
    pub closed spec fn view(&self) -> Seq<Step> {
        self.queue@
    }

    /// A driver whose first and only step so far drives the line low.
    pub fn new() -> (driver: Self)
        ensures
            driver@ == seq![Step::SetLow],
    {
        let mut queue: Vec<Step> = Vec::new();
        queue.push(Step::SetLow);
        Ws2812 { queue }
    }

    fn wait_tick(&mut self)
        ensures
            final(self)@ == old(self)@.push(Step::WaitTick),
    {
        self.queue.push(Step::WaitTick);
    }

    fn set_high(&mut self)
        ensures
            final(self)@ == old(self)@.push(Step::SetHigh),
    {
        self.queue.push(Step::SetHigh);
    }

    fn set_low(&mut self)
        ensures
            final(self)@ == old(self)@.push(Step::SetLow),
    {
        self.queue.push(Step::SetLow);
    }

    /// Queues the pattern of one bit. It takes the same number of ticks
    /// for a one and for a zero.
    pub fn write_bit(&mut self, bit: bool)
        ensures
            final(self)@ == old(self)@ + bit_signal(SLOW, bit),
            tick_count(final(self)@) == tick_count(old(self)@) + ticks_per_bit(SLOW),
    {
        if SLOW {
            if bit {
                self.wait_tick();
                self.set_high();
                self.wait_tick();
                self.wait_tick();
                self.set_low();
            } else {
                self.wait_tick();
                self.set_high();
                self.set_low();
                self.wait_tick();
                self.wait_tick();
            }
        } else {
            if bit {
                self.wait_tick();
                self.set_high();
                self.wait_tick();
                self.wait_tick();
                self.set_low();
                self.wait_tick();
            } else {
                self.wait_tick();
                self.set_high();
                self.wait_tick();
                self.set_low();
                self.wait_tick();
                self.wait_tick();
            }
        }
        proof {
            assert(self@ =~= old(self)@ + bit_signal(SLOW, bit));
            lemma_bit_signal(SLOW, bit);
            lemma_tick_count_add(old(self)@, bit_signal(SLOW, bit));
        }
    }

    /// Queues the signal of one byte, the most significant bit first.
    pub fn write_byte(&mut self, data: u8)
        ensures
            final(self)@ == old(self)@ + byte_signal(SLOW, data),
            tick_count(final(self)@) == tick_count(old(self)@) + 8 * ticks_per_bit(SLOW),
    {
        let mut rest: u8 = data;
        let mut sent: u8 = 0;
        assert(data == data << 0u8) by (bit_vector);
        assert(self@ =~= old(self)@ + leading_bits_signal(SLOW, data, 0));
        while sent < 8
            invariant
                sent <= 8,
                sent < 8 ==> rest == data << sent,
                self@ == old(self)@ + leading_bits_signal(SLOW, data, sent as nat),
            decreases 8 - sent,
        {
            let bit: bool = (rest & 0x80) != 0;
            assert(bit == bit_at(data, (7 - sent) as u8)) by (bit_vector)
                requires
                    sent < 8,
                    rest == data << sent,
                    bit == ((rest & 0x80) != 0),
            ;
            assert(sent + 1 < 8 ==> (rest << 1) == data << ((sent + 1) as u8)) by (bit_vector)
                requires
                    sent < 8,
                    rest == data << sent,
            ;
            self.write_bit(bit);
            rest = rest << 1;
            sent = sent + 1;
            assert(self@ =~= old(self)@ + leading_bits_signal(SLOW, data, sent as nat));
        }
        proof {
            lemma_leading_bits_of_whole_byte(SLOW, data);
            lemma_byte_signal(SLOW, data);
            lemma_tick_count_add(old(self)@, byte_signal(SLOW, data));
        }
    }

    /// Queues a whole frame: for each colour one tick to align with the
    /// timer and then its green, red and blue byte, and after the last
    /// colour the reset. Always succeeds.
    ///
    /// What is queued depends on the colours alone, not on what was queued
    /// or sent before. The frame adds one tick for each colour, the ticks
    /// of the colour's 24 bits, and the ticks of the reset.
    pub fn write(&mut self, colors: &[Rgb8]) -> (result: Result<(), ()>)
        ensures
            result is Ok,
            final(self)@ == old(self)@ + frame_signal(SLOW, colors@),
            tick_count(final(self)@) == tick_count(old(self)@) + colors@.len() * ticks_per_color(
                SLOW,
            ) + RESET_TICKS,
    {
        let mut done: usize = 0;
        while done < colors.len()
            invariant
                done <= colors.len(),
                self@ == old(self)@ + colors_signal(SLOW, colors@.take(done as int)),
            decreases colors.len() - done,
        {
            let color: Rgb8 = colors[done];
            self.wait_tick();
            self.write_byte(color.g);
            self.write_byte(color.r);
            self.write_byte(color.b);
            done = done + 1;
            proof {
                let sent = colors@.take(done as int);
                assert(sent.drop_last() =~= colors@.take(done - 1));
                assert(sent.last() == color);
                lemma_append_color(
                    old(self)@,
                    colors_signal(SLOW, sent.drop_last()),
                    Step::WaitTick,
                    byte_signal(SLOW, color.g),
                    byte_signal(SLOW, color.r),
                    byte_signal(SLOW, color.b),
                );
            }
        }
        assert(colors@.take(done as int) =~= colors@);
        let mut waited: usize = 0;
        while waited < RESET_TICKS
            invariant
                waited <= RESET_TICKS,
                self@ == old(self)@ + colors_signal(SLOW, colors@) + idle_signal(waited as nat),
            decreases RESET_TICKS - waited,
        {
            self.wait_tick();
            waited = waited + 1;
            assert(self@ =~= old(self)@ + colors_signal(SLOW, colors@) + idle_signal(
                waited as nat,
            ));
        }
        proof {
            assert(self@ =~= old(self)@ + frame_signal(SLOW, colors@));
            lemma_frame_signal(SLOW, colors@);
            lemma_tick_count_add(old(self)@, frame_signal(SLOW, colors@));
        }
        Ok(())
    }

    /// Hands out the queued steps, oldest first, and leaves the queue empty.
    pub fn take_steps(&mut self) -> (steps: Vec<Step>)
        ensures
            steps@ == old(self)@,
            final(self)@ == Seq::<Step>::empty(),
    {
        let mut steps: Vec<Step> = Vec::new();
        std::mem::swap(&mut self.queue, &mut steps);
        steps
    }
}

} // verus!
