//! A 256-step sine table and the sine and cosine read from it.
use vstd::prelude::*;

verus! {

/// One period of a sine wave in 256 steps, scaled to -127..=127.
pub const SINE_LUT: [i8; 256] = [
    0, 3, 6, 9, 12, 15, 18, 21, 24, 28, 31, 34, 37, 40, 43, 46,
    48, 51, 54, 57, 60, 63, 65, 68, 71, 73, 76, 78, 81, 83, 85, 88,
    90, 92, 94, 96, 98, 100, 102, 104, 106, 107, 109, 111, 112, 113, 115, 116,
    117, 118, 120, 121, 122, 122, 123, 124, 125, 125, 126, 126, 126, 127, 127, 127,
    127, 127, 127, 127, 126, 126, 126, 125, 125, 124, 123, 122, 122, 121, 120, 118,
    117, 116, 115, 113, 112, 111, 109, 107, 106, 104, 102, 100, 98, 96, 94, 92,
    90, 88, 85, 83, 81, 78, 76, 73, 71, 68, 65, 63, 60, 57, 54, 51,
    48, 46, 43, 40, 37, 34, 31, 28, 24, 21, 18, 15, 12, 9, 6, 3,
    0, -3, -6, -9, -12, -15, -18, -21, -24, -28, -31, -34, -37, -40, -43, -46,
    -48, -51, -54, -57, -60, -63, -65, -68, -71, -73, -76, -78, -81, -83, -85, -88,
    -90, -92, -94, -96, -98, -100, -102, -104, -106, -107, -109, -111, -112, -113, -115, -116,
    -117, -118, -120, -121, -122, -122, -123, -124, -125, -125, -126, -126, -126, -127, -127, -127,
    -127, -127, -127, -127, -126, -126, -126, -125, -125, -124, -123, -122, -122, -121, -120, -118,
    -117, -116, -115, -113, -112, -111, -109, -107, -106, -104, -102, -100, -98, -96, -94, -92,
    -90, -88, -85, -83, -81, -78, -76, -73, -71, -68, -65, -63, -60, -57, -54, -51,
    -48, -46, -43, -40, -37, -34, -31, -28, -24, -21, -18, -15, -12, -9, -6, -3,
];

/// Entry `a` of [`SINE_LUT`]. Its definition is kept out of the way of
/// proofs that only need [`lemma_sine_range`] or [`lemma_sine_half_turn`];
/// [`lemma_sine_entry`] states it.
pub closed spec fn sine(a: int) -> i8 {
    SINE_LUT@[a]
}

/// [`sine`] is the table's entry.
pub proof fn lemma_sine_entry(a: int)
    ensures
        sine(a) == SINE_LUT@[a],
{
}

/// The sine of `angle` (a full turn is 256) scaled to -127..=127.
pub fn sin(angle: u8) -> (r: i8)
    ensures
        r == sine(angle as int),
{
    SINE_LUT[angle as usize]
}

/// The cosine at `a`: the sine a quarter turn (64) further on.
pub open spec fn cosine(a: int) -> i8 {
    sine((a + 64) % 256)
}

/// The cosine of `angle`: the sine a quarter turn (64) further on.
pub fn cos(angle: u8) -> (r: i8)
    ensures
        r == cosine(angle as int),
{
    SINE_LUT[angle.wrapping_add(64) as usize]
}

/// Every entry of the sine table lies in -127..=127.
#[verifier::spinoff_prover]
#[verifier::rlimit(50)]
pub proof fn lemma_sine_range(a: int)
    requires
        0 <= a < 256,
    ensures
        -127 <= sine(a) <= 127,
{
}

/// Half a turn on changes the sign of the sine.
#[verifier::spinoff_prover]
#[verifier::rlimit(50)]
pub proof fn lemma_sine_half_turn(a: int)
    requires
        0 <= a < 256,
    ensures
        sine((a + 128) % 256) == -sine(a),
{
}

} // verus!
