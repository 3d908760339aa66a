use vstd::prelude::*;

verus! {

/// Number of LEDs on the display.
pub const LEDS_COUNT: usize = 72;

/// Number of characters that a command line can hold.
pub const COMMAND_BUFFER: usize = 128;

} // verus!
