//! SPI1 transfers: polled single bytes and DMA1 channel 3 bursts.
use vstd::prelude::*;
use crate::bus::{Bus, BusOp, Op};

verus! {

/// Address of the SPI1 data register (SPI1 base 0x4001_3000 + 0x0C), the
/// peripheral address of every DMA transfer to the panel.
pub const SPI1_DATAR: u32 = 0x4001_300C;

/// The largest transfer count of a DMA channel: its counter is 16 bits wide.
pub const DMA_MAX_COUNT: u32 = 0xFFFF;

/// Written to DMA1 INTFCR to clear every flag of channel 3 (bits 8..11).
pub const DMA_CH3_CLEAR_FLAGS: u32 = 0x0F00;

/// The transfer-complete flag of channel 3 in DMA1 INTFR (bit 9).
pub const DMA_CH3_TC_FLAG: u32 = 0x0200;

/// Channel configuration fields of a DMA1 CFGR register.
#[derive(Clone, Copy, PartialEq, Eq, Structural, Debug)]
pub struct DmaConfig {
    /// DIR: read from memory, write to the peripheral.
    pub from_memory: bool,
    /// MINC: advance the memory address after each element.
    pub memory_increment: bool,
    /// PINC: advance the peripheral address after each element.
    pub peripheral_increment: bool,
    /// PSIZE: 0 for 8-bit, 1 for 16-bit peripheral accesses.
    pub peripheral_size: u8,
    /// MSIZE: 0 for 8-bit, 1 for 16-bit memory accesses.
    pub memory_size: u8,
    /// PL: channel priority, 0 (low) to 3 (very high).
    pub priority: u8,
    /// CIRC: restart when the count reaches zero.
    pub circular: bool,
    /// MEM2MEM: memory-to-memory mode.
    pub mem2mem: bool,
}

/// The configuration of a byte transfer to SPI1: memory to peripheral, 8-bit,
/// memory address advancing, high priority, one-shot.
pub open spec fn spec_dma_tx_config() -> DmaConfig {
    DmaConfig {
        from_memory: true,
        memory_increment: true,
        peripheral_increment: false,
        peripheral_size: 0,
        memory_size: 0,
        priority: 2,
        circular: false,
        mem2mem: false,
    }
}

/// The configuration of a 16-bit fill to SPI1: memory to peripheral, 16-bit,
/// the same memory word sent every time, high priority, one-shot.
pub open spec fn spec_dma_fill16_config() -> DmaConfig {
    DmaConfig {
        from_memory: true,
        memory_increment: false,
        peripheral_increment: false,
        peripheral_size: 1,
        memory_size: 1,
        priority: 2,
        circular: false,
        mem2mem: false,
    }
}

/// The channel 3 configuration for [`BusOp::DmaTx`].
pub fn dma_tx_config() -> (c: DmaConfig)
    ensures
        c == spec_dma_tx_config(),
{
    DmaConfig {
        from_memory: true,
        memory_increment: true,
        peripheral_increment: false,
        peripheral_size: 0,
        memory_size: 0,
        priority: 2,
        circular: false,
        mem2mem: false,
    }
}

/// The channel 3 configuration for [`BusOp::DmaFill16`].
pub fn dma_fill16_config() -> (c: DmaConfig)
    ensures
        c == spec_dma_fill16_config(),
{
    DmaConfig {
        from_memory: true,
        memory_increment: false,
        peripheral_increment: false,
        peripheral_size: 1,
        memory_size: 1,
        priority: 2,
        circular: false,
        mem2mem: false,
    }
}

/// Sends one byte over SPI1 by polling. The caller asserts CS and sets DC.
pub fn spi_tx_byte(bus: &mut Bus, byte: u8)
    ensures
        final(bus)@ == old(bus)@.push(Op::SpiByte(byte)),
{
    bus.push(BusOp::SpiByte(byte));
}

/// The operations of [`spi_dma_tx`]: nothing for an empty buffer, else one
/// DMA transfer of the whole buffer.
pub open spec fn spi_dma_tx_ops(buf: Seq<u8>) -> Seq<Op> {
    if buf.len() == 0 {
        Seq::empty()
    } else {
        seq![Op::DmaTx(buf)]
    }
}

/// Sends `buf` over SPI1 with DMA1 channel 3 and waits for the transfer to
/// complete, but not for the SPI to finish shifting the last byte: the caller
/// waits for that before it deasserts CS or switches the frame size. The
/// caller asserts CS and sets DC beforehand. An empty buffer sends nothing.
pub fn spi_dma_tx(bus: &mut Bus, buf: &[u8])
    requires
        buf@.len() <= DMA_MAX_COUNT,
    ensures
        final(bus)@ == old(bus)@ + spi_dma_tx_ops(buf@),
{
    if buf.len() == 0 {
        assert(bus@ =~= old(bus)@ + spi_dma_tx_ops(buf@));
        return;
    }
    let mut copy: Vec<u8> = Vec::new();
    let mut i: usize = 0;
    while i < buf.len()
        invariant
            i <= buf@.len(),
            copy@ == buf@.take(i as int),
        decreases buf@.len() - i,
    {
        copy.push(buf[i]);
        i = i + 1;
        assert(copy@ =~= buf@.take(i as int));
    }
    assert(copy@ =~= buf@);
    bus.push(BusOp::DmaTx(copy));
    assert(bus@ =~= old(bus)@ + spi_dma_tx_ops(buf@));
}

/// Sends the 16-bit value `color` `count` times over SPI1 with DMA1 channel 3
/// (no memory increment) and waits for the transfer to complete. SPI1 must be
/// in 16-bit frame mode, CS asserted and DC set by the caller, who also waits
/// for the SPI to go idle afterwards.
pub fn spi_dma_fill16(bus: &mut Bus, color: u16, count: u32)
    requires
        1 <= count <= DMA_MAX_COUNT,
    ensures
        final(bus)@ == old(bus)@.push(Op::DmaFill16 { color, count: count as u16 }),
{
    bus.push(BusOp::DmaFill16 { color, count: count as u16 });
}

} // verus!
