//! Busy-wait delays calibrated for a 48 MHz core clock.
use vstd::prelude::*;

verus! {

/// Busy-loop iterations per microsecond: about 48 cycles per microsecond at
/// 48 MHz and roughly 4 cycles per iteration.
pub const LOOPS_PER_US: u32 = 12;

/// Microseconds per millisecond.
pub const US_PER_MS: u32 = 1000;

/// One iteration of a busy-wait loop.
///
/// Calls `core::hint::spin_loop`, which only hints to the processor that the
/// caller is spinning; nothing is claimed of it.
#[verifier::external_body]
fn spin_once() {
    core::hint::spin_loop()
}

/// The number of busy-loop iterations that make up `us` microseconds.
pub fn delay_loop_count(us: u32) -> (loops: u32)
    requires
        us * LOOPS_PER_US <= u32::MAX,
    ensures
        loops == us * LOOPS_PER_US,
{
    us * LOOPS_PER_US
}

/// Busy-waits for about `us` microseconds: `us * 12` loop iterations.
pub fn delay_us(us: u32)
    requires
        us * LOOPS_PER_US <= u32::MAX,
{
    let loops = delay_loop_count(us);
    let mut i: u32 = 0;
    while i < loops
        invariant
            i <= loops,
        decreases loops - i,
    {
        spin_once();
        i = i + 1;
    }
}

/// The number of microseconds in `ms` milliseconds.
pub fn ms_to_us(ms: u32) -> (us: u32)
    requires
        ms * US_PER_MS <= u32::MAX,
    ensures
        us == ms * US_PER_MS,
{
    ms * US_PER_MS
}

/// Busy-waits for about `ms` milliseconds.
pub fn delay_ms(ms: u32)
    requires
        ms * US_PER_MS * LOOPS_PER_US <= u32::MAX,
{
    delay_us(ms_to_us(ms));
}

} // verus!
