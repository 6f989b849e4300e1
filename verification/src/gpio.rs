//! GPIO output-register arithmetic for the TFT control lines.
use vstd::prelude::*;
use crate::bus::Pin;

verus! {

/// Address of the GPIOC output data register (OUTDR, base + 0x0C).
pub const GPIOC_OUTDR: u32 = 0x4001_100C;

/// Address of the GPIOD output data register (OUTDR, base + 0x0C).
pub const GPIOD_OUTDR: u32 = 0x4001_140C;

/// The value of an output register after driving bit `bit` high.
pub fn pin_set(outdr: u32, bit: u8) -> (r: u32)
    requires
        bit < 32,
    ensures
        r == outdr | (1u32 << bit),
{
    outdr | (1u32 << bit)
}

/// The value of an output register after driving bit `bit` low.
pub fn pin_clr(outdr: u32, bit: u8) -> (r: u32)
    requires
        bit < 32,
    ensures
        r == outdr & !(1u32 << bit),
{
    outdr & !(1u32 << bit)
}

/// Whether bit `bit` of `v` is set.
pub open spec fn bit_of(v: u32, bit: u32) -> bool {
    (v >> bit) & 1 == 1
}

/// Setting a pin drives exactly that pin high and leaves every other pin of
/// the port as it was.
pub proof fn lemma_pin_set(outdr: u32, bit: u32, other: u32)
    requires
        bit < 32,
        other < 32,
    ensures
        bit_of(outdr | (1u32 << bit), bit),
        other != bit ==> bit_of(outdr | (1u32 << bit), other) == bit_of(outdr, other),
{
    assert(bit_of(outdr | (1u32 << bit), bit)) by (bit_vector)
        requires bit < 32;
    assert(other != bit ==> bit_of(outdr | (1u32 << bit), other) == bit_of(outdr, other))
        by (bit_vector)
        requires bit < 32, other < 32;
}

/// Clearing a pin drives exactly that pin low and leaves every other pin of
/// the port as it was.
pub proof fn lemma_pin_clr(outdr: u32, bit: u32, other: u32)
    requires
        bit < 32,
        other < 32,
    ensures
        !bit_of(outdr & !(1u32 << bit), bit),
        other != bit ==> bit_of(outdr & !(1u32 << bit), other) == bit_of(outdr, other),
{
    assert(!bit_of(outdr & !(1u32 << bit), bit)) by (bit_vector)
        requires bit < 32;
    assert(other != bit ==> bit_of(outdr & !(1u32 << bit), other) == bit_of(outdr, other))
        by (bit_vector)
        requires bit < 32, other < 32;
}

/// The output data register that drives `pin`: CS is on port C, DC and RST on
/// port D.
pub open spec fn spec_pin_port(pin: Pin) -> u32 {
    match pin {
        Pin::Cs => GPIOC_OUTDR,
        Pin::Dc => GPIOD_OUTDR,
        Pin::Rst => GPIOD_OUTDR,
    }
}

/// The bit of its port's output register that drives `pin`: PC1, PD3, PD4.
pub open spec fn spec_pin_bit(pin: Pin) -> u8 {
    match pin {
        Pin::Cs => 1,
        Pin::Dc => 3,
        Pin::Rst => 4,
    }
}

/// The output data register that drives `pin`.
pub fn pin_port(pin: Pin) -> (addr: u32)
    ensures
        addr == spec_pin_port(pin),
{
    match pin {
        Pin::Cs => GPIOC_OUTDR,
        Pin::Dc => GPIOD_OUTDR,
        Pin::Rst => GPIOD_OUTDR,
    }
}

/// The bit of the output register that drives `pin`.
pub fn pin_bit(pin: Pin) -> (bit: u8)
    ensures
        bit == spec_pin_bit(pin),
        bit < 32,
{
    match pin {
        Pin::Cs => 1,
        Pin::Dc => 3,
        Pin::Rst => 4,
    }
}

/// The value to write to `pin`'s output register, read as `outdr`, to drive
/// the pin to `high`.
pub fn pin_level(outdr: u32, pin: Pin, high: bool) -> (r: u32)
    ensures
        high ==> r == outdr | (1u32 << spec_pin_bit(pin)),
        !high ==> r == outdr & !(1u32 << spec_pin_bit(pin)),
{
    let bit = pin_bit(pin);
    if high {
        pin_set(outdr, bit)
    } else {
        pin_clr(outdr, bit)
    }
}

} // verus!
