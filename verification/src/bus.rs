//! The operations that the display driver asks of the microcontroller's
//! peripherals, recorded in the order in which they are to be performed.
//!
//! Every drawing routine of the driver appends to a [`Bus`]; whoever owns the
//! hardware performs the recorded operations one after the other.
use vstd::prelude::*;
use crate::backlight::BacklightConfig;

verus! {

/// The three TFT control lines driven as plain GPIO outputs.
#[derive(Clone, Copy, PartialEq, Eq, Structural, Debug)]
pub enum Pin {
    /// Chip select, PC1, active low.
    Cs,
    /// Data/command select, PD3: low = command, high = data.
    Dc,
    /// Panel reset, PD4, active low.
    Rst,
}

/// One peripheral operation.
#[derive(Debug, PartialEq, Eq)]
pub enum BusOp {
    /// Drive a control line high or low.
    PinWrite { pin: Pin, high: bool },
    /// Busy-wait for the given number of milliseconds.
    DelayMs(u32),
    /// Send one byte over SPI1 by polling: wait for TXE, write the data
    /// register, wait until the SPI is no longer busy.
    SpiByte(u8),
    /// Switch SPI1 to 16-bit frames (`true`) or back to 8-bit frames (`false`).
    SpiFrame16(bool),
    /// Send the bytes over SPI1 with DMA1 channel 3 (8-bit, memory increment)
    /// and wait for the transfer-complete flag. The SPI may still be shifting
    /// out the last byte afterwards.
    DmaTx(Vec<u8>),
    /// Send one 16-bit value `count` times with DMA1 channel 3 (16-bit, no
    /// memory increment) and wait for transfer complete.
    DmaFill16 { color: u16, count: u16 },
    /// Wait until SPI1 is no longer busy.
    WaitIdle,
    /// Start TIM1 channel 1 PWM on the backlight pin as the configuration
    /// says.
    BacklightInit(BacklightConfig),
    /// Set the backlight PWM compare value.
    BacklightDuty(u16),
}

/// A [`BusOp`] with the bytes of a DMA transfer taken as a sequence.
pub ghost enum Op {
    PinWrite { pin: Pin, high: bool },
    DelayMs(u32),
    SpiByte(u8),
    SpiFrame16(bool),
    DmaTx(Seq<u8>),
    DmaFill16 { color: u16, count: u16 },
    WaitIdle,
    BacklightInit(BacklightConfig),
    BacklightDuty(u16),
}

impl View for BusOp {
    type V = Op;

    open spec fn view(&self) -> Op {
        match self {
            BusOp::PinWrite { pin, high } => Op::PinWrite { pin: *pin, high: *high },
            BusOp::DelayMs(ms) => Op::DelayMs(*ms),
            BusOp::SpiByte(b) => Op::SpiByte(*b),
            BusOp::SpiFrame16(on) => Op::SpiFrame16(*on),
            BusOp::DmaTx(bytes) => Op::DmaTx(bytes@),
            BusOp::DmaFill16 { color, count } => Op::DmaFill16 { color: *color, count: *count },
            BusOp::WaitIdle => Op::WaitIdle,
            BusOp::BacklightInit(cfg) => Op::BacklightInit(*cfg),
            BusOp::BacklightDuty(d) => Op::BacklightDuty(*d),
        }
    }
}

/// The recorded operations, oldest first.
pub struct Bus {
    ops: Vec<BusOp>,
}

impl View for Bus {
    type V = Seq<Op>;

    closed spec fn view(&self) -> Seq<Op> {
        self.ops@.map_values(|op: BusOp| op@)
    }
}

impl Bus {
    /// A bus with nothing recorded.
    pub fn new() -> (bus: Bus)
        ensures
            bus@ == Seq::<Op>::empty(),
    {
        let bus = Bus { ops: Vec::new() };
        assert(bus@ =~= Seq::<Op>::empty());
        bus
    }

    /// Records one operation after the others.
    pub fn push(&mut self, op: BusOp)
        ensures
            final(self)@ == old(self)@.push(op@),
    {
        self.ops.push(op);
        assert(self@ =~= old(self)@.push(op@));
    }

    /// The number of recorded operations.
    pub fn len(&self) -> (n: usize)
        ensures
            n == self@.len(),
    {
        self.ops.len()
    }

    /// The recorded operation at position `i`.
    pub fn op(&self, i: usize) -> (op: &BusOp)
        requires
            i < self@.len(),
        ensures
            op@ == self@[i as int],
    {
        &self.ops[i]
    }

    /// Forgets every recorded operation, once they have been performed.
    pub fn clear(&mut self)
        ensures
            final(self)@ == Seq::<Op>::empty(),
    {
        self.ops.clear();
        assert(self@ =~= Seq::<Op>::empty());
    }
}

} // verus!
