use vstd::prelude::*;
use crate::map::black;
use crate::map::RGB8;

verus! {

/// Number of pulse codes that one LED takes: eight for each of its three
/// channels.
pub const CODES_PER_LED: usize = 24;

/// Length of one tick of the pulse generator, in nanoseconds.
pub const TICK_NANOS: u32 = 50;

/// The word that the pulse generator reads for one pulse code: the first
/// length in bits 0 to 14 and the first level in bit 15, the second length in
/// bits 16 to 30 and the second level in bit 31.
pub open spec fn pulse_word(level1: bool, length1: u32, level2: bool, length2: u32) -> u32 {
    let first = if level1 {
        length1 | 0x8000u32
    } else {
        length1 & !0x8000u32
    };
    let second = if level2 {
        first | 0x8000_0000u32
    } else {
        first & !0x8000_0000u32
    };
    second | (length2 << 16u32)
}

/// The four durations of the wire protocol, in nanoseconds: how long the
/// line is high and then low for a one, and for a zero.
pub struct StripTiming {
    one_high_duration: u32,
    one_low_duration: u32,
    zero_high_duration: u32,
    zero_low_duration: u32,
}

impl StripTiming {
    pub closed spec fn one_high(&self) -> u32 {
        self.one_high_duration
    }

    pub closed spec fn one_low(&self) -> u32 {
        self.one_low_duration
    }

    pub closed spec fn zero_high(&self) -> u32 {
        self.zero_high_duration
    }

    pub closed spec fn zero_low(&self) -> u32 {
        self.zero_low_duration
    }

    /// The pulse code that sends `bit`: the line high for the bit's high
    /// duration, then low for its low duration, both counted in ticks.
    pub open spec fn code(&self, bit: bool) -> u32 {
        if bit {
            pulse_word(true, self.one_high() / TICK_NANOS, false, self.one_low() / TICK_NANOS)
        } else {
            pulse_word(true, self.zero_high() / TICK_NANOS, false, self.zero_low() / TICK_NANOS)
        }
    }

    pub fn new(
        one_high_duration: u32,
        one_low_duration: u32,
        zero_high_duration: u32,
        zero_low_duration: u32,
    ) -> (timing: Self)
        ensures
            timing.one_high() == one_high_duration,
            timing.one_low() == one_low_duration,
            timing.zero_high() == zero_high_duration,
            timing.zero_low() == zero_low_duration,
    {
        StripTiming { one_high_duration, one_low_duration, zero_high_duration, zero_low_duration }
    }
}

/// Bit `index` of `byte`, counted from the highest.
pub open spec fn bit_at(byte: u8, index: int) -> bool {
    byte & (1u8 << ((7 - index) as u8)) > 0
}

/// The byte of `color` that is sent as number `channel`: green, then red,
/// then blue.
pub open spec fn channel_byte(color: RGB8, channel: int) -> u8 {
    if channel == 0 {
        color.g
    } else if channel == 1 {
        color.r
    } else {
        color.b
    }
}

/// The pulse code at position `index` of the buffer for `colors`: the LEDs
/// follow each other, each with its three channels, each channel with its
/// eight bits from the highest down; what follows the last LED is zero,
/// which ends the transmission.
pub open spec fn code_at(timing: StripTiming, colors: Seq<RGB8>, index: int) -> u32 {
    if 0 <= index < colors.len() * 24 {
        timing.code(bit_at(channel_byte(colors[index / 24], (index % 24) / 8), index % 8))
    } else {
        0
    }
}

/// The buffer of `count` pulse codes that sends `colors`.
pub open spec fn encoded(timing: StripTiming, colors: Seq<RGB8>, count: nat) -> Seq<u32> {
    Seq::new(count, |index: int| code_at(timing, colors, index))
}

/// Packs a pulse code into the word that the pulse generator reads.
pub fn pulse_code(level1: bool, length1: u32, level2: bool, length2: u32) -> (word: u32)
    ensures
        word == pulse_word(level1, length1, level2, length2),
{
    let mut entry: u32 = length1;
    if level1 {
        entry |= 0x8000u32;
    } else {
        entry &= !0x8000u32;
    }
    if level2 {
        entry |= 0x8000_0000u32;
    } else {
        entry &= !0x8000_0000u32;
    }
    entry |= length2 << 16u32;
    entry
}

/// Lengths of less than 2^15 ticks and the two levels can be read back from
/// the word.
pub proof fn lemma_pulse_word_fields(level1: bool, length1: u32, level2: bool, length2: u32)
    requires
        length1 < 0x8000,
        length2 < 0x8000,
    ensures
        pulse_word(level1, length1, level2, length2) & 0x7fff == length1,
        (pulse_word(level1, length1, level2, length2) & 0x8000 != 0) == level1,
        (pulse_word(level1, length1, level2, length2) >> 16) & 0x7fff == length2,
        (pulse_word(level1, length1, level2, length2) & 0x8000_0000 != 0) == level2,
{
    assert(((length1 | 0x8000u32) | 0x8000_0000u32 | (length2 << 16u32)) & 0x7fff == length1
        && ((length1 | 0x8000u32) & !0x8000_0000u32 | (length2 << 16u32)) & 0x7fff == length1
        && ((length1 & !0x8000u32) | 0x8000_0000u32 | (length2 << 16u32)) & 0x7fff == length1
        && ((length1 & !0x8000u32) & !0x8000_0000u32 | (length2 << 16u32)) & 0x7fff == length1)
        by (bit_vector)
        requires
            length1 < 0x8000,
            length2 < 0x8000,
    ;
    assert(((length1 | 0x8000u32) | 0x8000_0000u32 | (length2 << 16u32)) & 0x8000 != 0
        && ((length1 | 0x8000u32) & !0x8000_0000u32 | (length2 << 16u32)) & 0x8000 != 0
        && ((length1 & !0x8000u32) | 0x8000_0000u32 | (length2 << 16u32)) & 0x8000 == 0
        && ((length1 & !0x8000u32) & !0x8000_0000u32 | (length2 << 16u32)) & 0x8000 == 0)
        by (bit_vector)
        requires
            length1 < 0x8000,
            length2 < 0x8000,
    ;
    assert((((length1 | 0x8000u32) | 0x8000_0000u32 | (length2 << 16u32)) >> 16) & 0x7fff
        == length2 && (((length1 | 0x8000u32) & !0x8000_0000u32 | (length2 << 16u32)) >> 16)
        & 0x7fff == length2 && (((length1 & !0x8000u32) | 0x8000_0000u32 | (length2 << 16u32))
        >> 16) & 0x7fff == length2 && (((length1 & !0x8000u32) & !0x8000_0000u32 | (length2
        << 16u32)) >> 16) & 0x7fff == length2) by (bit_vector)
        requires
            length1 < 0x8000,
            length2 < 0x8000,
    ;
    assert(((length1 | 0x8000u32) | 0x8000_0000u32 | (length2 << 16u32)) & 0x8000_0000 != 0
        && ((length1 | 0x8000u32) & !0x8000_0000u32 | (length2 << 16u32)) & 0x8000_0000 == 0
        && ((length1 & !0x8000u32) | 0x8000_0000u32 | (length2 << 16u32)) & 0x8000_0000 != 0
        && ((length1 & !0x8000u32) & !0x8000_0000u32 | (length2 << 16u32)) & 0x8000_0000 == 0)
        by (bit_vector)
        requires
            length1 < 0x8000,
            length2 < 0x8000,
    ;
}

/// Turns colours into the buffer of `COUNT` pulse codes that the pulse
/// generator sends to the strip.
pub struct Strip<const COUNT: usize> {
    timing: StripTiming,
}

impl<const COUNT: usize> Strip<COUNT> {
    pub closed spec fn timing(&self) -> StripTiming {
        self.timing
    }

    pub fn new(timing: StripTiming) -> (strip: Self)
        ensures
            strip.timing() == timing,
    {
        Strip { timing }
    }

    pub fn bit_to_pulse_code(&self, bit: bool) -> (code: u32)
        ensures
            code == self.timing().code(bit),
    {
        let length1 = if bit {
            self.timing.one_high_duration
        } else {
            self.timing.zero_high_duration
        };
        let length2 = if bit {
            self.timing.one_low_duration
        } else {
            self.timing.zero_low_duration
        };
        pulse_code(true, length1 / TICK_NANOS, false, length2 / TICK_NANOS)
    }

    /// Appends the eight pulse codes of `byte` to `data`, highest bit first.
    pub fn byte_to_pulse_code(&self, byte: u8, data: &mut Vec<u32>)
        ensures
            final(data)@ == old(data)@ + Seq::new(
                8,
                |index: int| self.timing().code(bit_at(byte, index)),
            ),
    {
        let mut i: u8 = 0;
        while i < 8
            invariant
                i <= 8,
                data@ == old(data)@ + Seq::new(
                    i as nat,
                    |index: int| self.timing().code(bit_at(byte, index)),
                ),
            decreases 8 - i,
        {
            let bit = (byte & (1u8 << (7 - i))) > 0;
            data.push(self.bit_to_pulse_code(bit));
            i += 1;
        }
    }

    /// The buffer that sends `colors`: the codes of each LED in turn, then
    /// zeros up to the buffer's length, the first of which ends the
    /// transmission.
    pub fn encode(&self, colors: &[RGB8]) -> (buffer: Vec<u32>)
        requires
            colors@.len() * 24 + 1 <= COUNT,
        ensures
            buffer@ == encoded(self.timing(), colors@, COUNT as nat),
    {
        let mut buffer: Vec<u32> = Vec::new();
        let mut led: usize = 0;
        while led < colors.len()
            invariant
                led <= colors@.len(),
                colors@.len() * 24 + 1 <= COUNT,
                buffer@ == encoded(self.timing(), colors@, (led * 24) as nat),
            decreases colors@.len() - led,
        {
            let rgb = colors[led];
            self.byte_to_pulse_code(rgb.g, &mut buffer);
            self.byte_to_pulse_code(rgb.r, &mut buffer);
            self.byte_to_pulse_code(rgb.b, &mut buffer);
            proof {
                let next = encoded(self.timing(), colors@, ((led + 1) * 24) as nat);
                assert(buffer@.len() == next.len());
                assert forall|index: int| 0 <= index < next.len() implies buffer@[index]
                    == next[index] by {
                    if index >= led * 24 {
                        let within = index - led * 24;
                        assert(index / 24 == led as int);
                        assert(index % 24 == within);
                        assert(within % 8 == index % 8);
                    }
                }
                assert(buffer@ =~= next);
            }
            led += 1;
        }
        while buffer.len() < COUNT
            invariant
                colors@.len() * 24 <= buffer@.len() <= COUNT,
                buffer@ == encoded(self.timing(), colors@, buffer@.len()),
            decreases COUNT - buffer@.len(),
        {
            buffer.push(0);
            assert(buffer@ =~= encoded(self.timing(), colors@, buffer@.len()));
        }
        buffer
    }
}

/// A dark display is sent as zeros only: every code before the end mark is
/// the code of a zero bit.
pub proof fn lemma_blank_encoding(timing: StripTiming, colors: Seq<RGB8>, count: nat)
    requires
        colors.len() * 24 + 1 <= count,
        forall|led: int| 0 <= led < colors.len() ==> colors[led] == black(),
    ensures
        encoded(timing, colors, count).len() == count,
        forall|index: int|
            0 <= index < colors.len() * 24 ==> #[trigger] encoded(timing, colors, count)[index]
                == timing.code(false),
        encoded(timing, colors, count)[(colors.len() * 24) as int] == 0,
{
    assert forall|index: int| 0 <= index < colors.len() * 24 implies #[trigger] encoded(
        timing,
        colors,
        count,
    )[index] == timing.code(false) by {
        let led = index / 24;
        assert(0 <= led < colors.len());
        assert(colors[led] == black());
        let bit = index % 8;
        assert(0 <= bit < 8);
        let shift = (7 - bit) as u8;
        assert(0u8 & (1u8 << shift) == 0) by (bit_vector);
    }
}

} // verus!
