use ws2812_timer_delay::{Rgb8, Step, Ws2812};

const W: Step = Step::WaitTick;
const H: Step = Step::SetHigh;
const L: Step = Step::SetLow;

const ONE: [Step; 6] = [W, H, W, W, L, W];
const ZERO: [Step; 6] = [W, H, W, L, W, W];
const SLOW_ONE: [Step; 5] = [W, H, W, W, L];
const SLOW_ZERO: [Step; 5] = [W, H, L, W, W];

fn fresh() -> Ws2812<false> {
    let mut driver = Ws2812::<false>::new();
    driver.take_steps();
    driver
}

fn fresh_slow() -> Ws2812<true> {
    let mut driver = Ws2812::<true>::new();
    driver.take_steps();
    driver
}

fn ticks(steps: &[Step]) -> usize {
    steps.iter().filter(|s| **s == W).count()
}

fn pattern(slow: bool, bit: bool) -> Vec<Step> {
    match (slow, bit) {
        (false, true) => ONE.to_vec(),
        (false, false) => ZERO.to_vec(),
        (true, true) => SLOW_ONE.to_vec(),
        (true, false) => SLOW_ZERO.to_vec(),
    }
}

fn expected_byte(slow: bool, data: u8) -> Vec<Step> {
    let mut out = Vec::new();
    for place in [128u8, 64, 32, 16, 8, 4, 2, 1] {
        out.extend(pattern(slow, data / place % 2 == 1));
    }
    out
}

fn expected_frame(slow: bool, colors: &[Rgb8]) -> Vec<Step> {
    let mut out = Vec::new();
    for color in colors {
        out.push(W);
        out.extend(expected_byte(slow, color.g));
        out.extend(expected_byte(slow, color.r));
        out.extend(expected_byte(slow, color.b));
    }
    out.extend(vec![W; 160]);
    out
}

#[test]
fn new_drives_the_line_low_once() {
    let mut driver = Ws2812::<false>::new();
    assert_eq!(driver.take_steps(), vec![L]);
    let mut slow = Ws2812::<true>::new();
    assert_eq!(slow.take_steps(), vec![L]);
}

#[test]
fn line_is_driven_low_before_the_first_frame() {
    let mut driver = Ws2812::<false>::new();
    assert_eq!(driver.write(&[Rgb8::new(1, 2, 3)]), Ok(()));
    let steps = driver.take_steps();
    assert_eq!(steps[0], L);
    assert_eq!(steps[1..].to_vec(), expected_frame(false, &[Rgb8::new(1, 2, 3)]));
    assert_eq!(steps[1..].iter().filter(|s| **s == L).count(), 24);
}

#[test]
fn take_steps_empties_the_queue() {
    let mut driver = Ws2812::<false>::new();
    assert_eq!(driver.take_steps().len(), 1);
    assert_eq!(driver.take_steps(), vec![]);
    driver.write_bit(true);
    assert_eq!(driver.take_steps().len(), 6);
    assert!(driver.take_steps().is_empty());
}

#[test]
fn bit_patterns_with_default_timing() {
    let mut driver = fresh();
    driver.write_bit(true);
    assert_eq!(driver.take_steps(), vec![W, H, W, W, L, W]);
    driver.write_bit(false);
    assert_eq!(driver.take_steps(), vec![W, H, W, L, W, W]);
}

#[test]
fn bit_patterns_with_slow_timing() {
    let mut driver = fresh_slow();
    driver.write_bit(true);
    assert_eq!(driver.take_steps(), vec![W, H, W, W, L]);
    driver.write_bit(false);
    assert_eq!(driver.take_steps(), vec![W, H, L, W, W]);
}

#[test]
fn default_bit_takes_four_ticks_and_slow_bit_three() {
    for bit in [false, true] {
        let mut driver = fresh();
        driver.write_bit(bit);
        assert_eq!(ticks(&driver.take_steps()), 4);
        let mut slow = fresh_slow();
        slow.write_bit(bit);
        assert_eq!(ticks(&slow.take_steps()), 3);
    }
}

fn ticks_while_high(steps: &[Step]) -> usize {
    let up = steps.iter().position(|s| *s == H).unwrap();
    let down = steps.iter().position(|s| *s == L).unwrap();
    assert!(up < down);
    ticks(&steps[up..down])
}

#[test]
fn line_stays_high_longer_for_a_one() {
    let mut driver = fresh();
    driver.write_bit(true);
    assert_eq!(ticks_while_high(&driver.take_steps()), 2);
    driver.write_bit(false);
    assert_eq!(ticks_while_high(&driver.take_steps()), 1);

    let mut slow = fresh_slow();
    slow.write_bit(true);
    assert_eq!(ticks_while_high(&slow.take_steps()), 2);
    slow.write_bit(false);
    assert_eq!(ticks_while_high(&slow.take_steps()), 0);
}

#[test]
fn steps_are_appended_behind_what_is_queued() {
    let mut driver = Ws2812::<false>::new();
    driver.write_bit(false);
    driver.write_bit(true);
    let mut expected = vec![L];
    expected.extend(ZERO);
    expected.extend(ONE);
    assert_eq!(driver.take_steps(), expected);
}

#[test]
fn byte_is_sent_most_significant_bit_first() {
    let mut driver = fresh();
    driver.write_byte(0x80);
    let steps = driver.take_steps();
    assert_eq!(steps.len(), 48);
    assert_eq!(steps[0..6], ONE);
    for k in 1..8 {
        assert_eq!(steps[6 * k..6 * k + 6], ZERO);
    }

    driver.write_byte(0x01);
    let steps = driver.take_steps();
    for k in 0..7 {
        assert_eq!(steps[6 * k..6 * k + 6], ZERO);
    }
    assert_eq!(steps[42..48], ONE);
}

#[test]
fn byte_bits_in_order() {
    // 0xA6 = 1010 0110
    let bits = [true, false, true, false, false, true, true, false];
    let mut driver = fresh();
    driver.write_byte(0xA6);
    let steps = driver.take_steps();
    let mut slow = fresh_slow();
    slow.write_byte(0xA6);
    let slow_steps = slow.take_steps();
    assert_eq!(slow_steps.len(), 40);
    for (k, bit) in bits.iter().enumerate() {
        assert_eq!(steps[6 * k..6 * k + 6].to_vec(), pattern(false, *bit));
        assert_eq!(slow_steps[5 * k..5 * k + 5].to_vec(), pattern(true, *bit));
    }
}

#[test]
fn every_byte_matches_the_arithmetic_model() {
    for data in 0..=255u8 {
        let mut driver = fresh();
        driver.write_byte(data);
        assert_eq!(driver.take_steps(), expected_byte(false, data));
        let mut slow = fresh_slow();
        slow.write_byte(data);
        assert_eq!(slow.take_steps(), expected_byte(true, data));
    }
}

#[test]
fn byte_extremes() {
    let mut driver = fresh();
    driver.write_byte(0x00);
    assert_eq!(driver.take_steps(), ZERO.repeat(8));
    driver.write_byte(0xFF);
    assert_eq!(driver.take_steps(), ONE.repeat(8));
}

#[test]
fn empty_frame_is_the_reset_alone() {
    let mut driver = fresh();
    assert_eq!(driver.write(&[]), Ok(()));
    let steps = driver.take_steps();
    assert_eq!(steps.len(), 160);
    assert!(steps.iter().all(|s| *s == W));

    let mut slow = fresh_slow();
    assert_eq!(slow.write(&[]), Ok(()));
    assert_eq!(slow.take_steps(), vec![W; 160]);
}

#[test]
fn ticks_of_a_frame_of_one_color() {
    let mut driver = fresh();
    assert_eq!(driver.write(&[Rgb8::new(12, 34, 56)]), Ok(()));
    let steps = driver.take_steps();
    assert_eq!(ticks(&steps), 1 + 3 * 8 * 4 + 160);
    assert_eq!(ticks(&steps), 257);
    assert_eq!(steps.len(), 1 + 24 * 6 + 160);
}

#[test]
fn every_color_of_a_frame_is_aligned_on_a_tick() {
    let colors = [Rgb8::new(1, 2, 3), Rgb8::new(4, 5, 6)];
    let mut driver = fresh();
    assert_eq!(driver.write(&colors), Ok(()));
    let steps = driver.take_steps();
    assert_eq!(ticks(&steps), 2 * 97 + 160);
    assert_eq!(steps.len(), 2 * 145 + 160);
    assert_eq!(steps[0], W);
    assert_eq!(steps[145], W);
    assert_eq!(steps[1..7], ZERO);
    assert_eq!(steps[146..152], ZERO);
}

#[test]
fn ticks_of_a_frame_with_slow_timing() {
    let colors = [Rgb8::new(9, 8, 7), Rgb8::new(6, 5, 4), Rgb8::new(3, 2, 1)];
    let mut slow = fresh_slow();
    assert_eq!(slow.write(&colors), Ok(()));
    let steps = slow.take_steps();
    assert_eq!(ticks(&steps), 3 * (1 + 24 * 3) + 160);
    assert_eq!(steps.len(), 3 * (1 + 24 * 5) + 160);
}

#[test]
fn channels_are_sent_green_red_blue() {
    let color = Rgb8 { b: 0x0F, r: 0xF0, g: 0xAA };
    assert_eq!(color, Rgb8 { r: 0xF0, g: 0xAA, b: 0x0F });
    assert_eq!(color, Rgb8::new(0xF0, 0xAA, 0x0F));
    let mut driver = fresh();
    assert_eq!(driver.write(&[color]), Ok(()));
    let steps = driver.take_steps();
    assert_eq!(steps[0], W);
    assert_eq!(steps[1..49].to_vec(), expected_byte(false, 0xAA));
    assert_eq!(steps[49..97].to_vec(), expected_byte(false, 0xF0));
    assert_eq!(steps[97..145].to_vec(), expected_byte(false, 0x0F));
    assert_eq!(steps[145..].to_vec(), vec![W; 160]);
}

#[test]
fn channels_are_sent_green_red_blue_with_slow_timing() {
    let color = Rgb8::new(0x01, 0x80, 0xFF);
    let mut slow = fresh_slow();
    assert_eq!(slow.write(&[color]), Ok(()));
    let steps = slow.take_steps();
    assert_eq!(steps[0], W);
    assert_eq!(steps[1..41].to_vec(), expected_byte(true, 0x80));
    assert_eq!(steps[41..81].to_vec(), expected_byte(true, 0x01));
    assert_eq!(steps[81..121].to_vec(), expected_byte(true, 0xFF));
    assert_eq!(steps[121..].to_vec(), vec![W; 160]);
}

#[test]
fn red_255_green_0_blue_128() {
    let mut driver = fresh();
    assert_eq!(driver.write(&[Rgb8 { r: 255, g: 0, b: 128 }]), Ok(()));
    let steps = driver.take_steps();
    let mut expected = vec![W];
    // green 0x00: eight zeros
    for _ in 0..8 {
        expected.extend(ZERO);
    }
    // red 0xFF: eight ones
    for _ in 0..8 {
        expected.extend(ONE);
    }
    // blue 0x80: a one, then seven zeros
    expected.extend(ONE);
    for _ in 0..7 {
        expected.extend(ZERO);
    }
    expected.extend(vec![W; 160]);
    assert_eq!(steps, expected);
}

#[test]
fn red_255_green_0_blue_128_with_slow_timing() {
    let mut slow = fresh_slow();
    assert_eq!(slow.write(&[Rgb8 { r: 255, g: 0, b: 128 }]), Ok(()));
    let mut expected = vec![W];
    expected.extend(SLOW_ZERO.repeat(8));
    expected.extend(SLOW_ONE.repeat(8));
    expected.extend(SLOW_ONE);
    expected.extend(SLOW_ZERO.repeat(7));
    expected.extend(vec![W; 160]);
    assert_eq!(slow.take_steps(), expected);
}

#[test]
fn colors_are_sent_in_the_order_given() {
    let colors = [
        Rgb8::new(0x11, 0x22, 0x33),
        Rgb8::new(0x44, 0x55, 0x66),
        Rgb8::new(0x77, 0x88, 0x99),
    ];
    let mut driver = fresh();
    assert_eq!(driver.write(&colors), Ok(()));
    let steps = driver.take_steps();
    for (k, color) in colors.iter().enumerate() {
        let at = 145 * k;
        assert_eq!(steps[at..at + 145].to_vec(), expected_frame(false, &[*color])[..145].to_vec());
    }
    assert_eq!(steps, expected_frame(false, &colors));
}

#[test]
fn write_always_succeeds() {
    let mut driver = Ws2812::<false>::new();
    assert_eq!(driver.write(&[]), Ok(()));
    assert_eq!(driver.write(&[Rgb8::new(0, 0, 0)]), Ok(()));
    assert_eq!(driver.write(&[Rgb8::new(255, 255, 255); 64]), Ok(()));
    let mut slow = Ws2812::<true>::new();
    assert_eq!(slow.write(&[]), Ok(()));
    assert_eq!(slow.write(&[Rgb8::new(255, 0, 128); 3]), Ok(()));
}

#[test]
fn consecutive_writes_each_start_on_a_tick() {
    let first = [Rgb8::new(255, 255, 255)];
    let second = [Rgb8::new(0, 255, 0), Rgb8::new(0, 0, 255)];
    let mut driver = fresh();
    assert_eq!(driver.write(&first), Ok(()));
    assert_eq!(driver.write(&second), Ok(()));
    let steps = driver.take_steps();
    let split = 145 + 160;
    assert_eq!(steps.len(), split + 2 * 145 + 160);
    assert_eq!(steps[0], W);
    assert_eq!(steps[split], W);
    assert_eq!(steps[..split].to_vec(), expected_frame(false, &first));
    assert_eq!(steps[split..].to_vec(), expected_frame(false, &second));

    // The second frame is what it would be had nothing been sent before it.
    let mut alone = fresh();
    assert_eq!(alone.write(&second), Ok(()));
    assert_eq!(alone.take_steps(), steps[split..].to_vec());
}

#[test]
fn consecutive_empty_writes() {
    let mut driver = fresh();
    assert_eq!(driver.write(&[]), Ok(()));
    assert_eq!(driver.write(&[]), Ok(()));
    assert_eq!(driver.take_steps(), vec![W; 320]);
}

#[test]
fn line_goes_high_and_low_once_for_each_bit() {
    let colors = [Rgb8::new(0x5A, 0xC3, 0x3C); 10];
    let mut driver = fresh();
    assert_eq!(driver.write(&colors), Ok(()));
    let steps = driver.take_steps();
    assert_eq!(steps.iter().filter(|s| **s == H).count(), 240);
    assert_eq!(steps.iter().filter(|s| **s == L).count(), 240);
    let changes: Vec<Step> = steps.iter().copied().filter(|s| *s != W).collect();
    for pair in changes.chunks(2) {
        assert_eq!(pair, [H, L]);
    }
}

#[test]
fn long_strip() {
    let colors: Vec<Rgb8> = (0..300u32)
        .map(|i| Rgb8::new((i % 256) as u8, (i * 7 % 256) as u8, (i * 13 % 256) as u8))
        .collect();
    let mut driver = fresh();
    assert_eq!(driver.write(&colors), Ok(()));
    let steps = driver.take_steps();
    assert_eq!(steps.len(), 300 * 145 + 160);
    assert_eq!(ticks(&steps), 300 * 97 + 160);
    assert_eq!(steps, expected_frame(false, &colors));
}

#[test]
fn default_color_is_black() {
    assert_eq!(Rgb8::default(), Rgb8::new(0, 0, 0));
}
