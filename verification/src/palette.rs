//! The rainbow of the colour-cycling loop.
use vstd::prelude::*;
use crate::bus::{Bus, Op};
use crate::ili9341::{fill_ops, tft_fill_dma};

verus! {

/// Number of colours of the rainbow.
pub const RAINBOW_LEN: usize = 224;

/// A rainbow of RGB565 colours: red through yellow, green, cyan, blue and
/// magenta back to red.
pub const RAINBOW: [u16; 224] = [
    0xF800, 0xF820, 0xF860, 0xF8A0, 0xF8C0, 0xF900, 0xF940, 0xF960, 0xF9A0, 0xF9E0, 0xFA00,
    0xFA40, 0xFA80, 0xFAA0, 0xFAE0, 0xFB20, 0xFB60, 0xFB80, 0xFBC0, 0xFC00, 0xFC20, 0xFC60,
    0xFCA0, 0xFCC0, 0xFD00, 0xFD40, 0xFD60, 0xFDA0, 0xFDE0, 0xFE00, 0xFE40, 0xFE80, 0xFEC0,
    0xFEE0, 0xFF20, 0xFF60, 0xFF80, 0xFFC0, 0xF7E0, 0xEFE0, 0xE7E0, 0xDFE0, 0xDFE0, 0xD7E0,
    0xCFE0, 0xC7E0, 0xBFE0, 0xB7E0, 0xB7E0, 0xAFE0, 0xA7E0, 0x9FE0, 0x97E0, 0x8FE0, 0x8FE0,
    0x87E0, 0x7FE0, 0x77E0, 0x6FE0, 0x6FE0, 0x67E0, 0x5FE0, 0x57E0, 0x4FE0, 0x47E0, 0x47E0,
    0x3FE0, 0x37E0, 0x2FE0, 0x27E0, 0x1FE0, 0x1FE0, 0x17E0, 0x0FE0, 0x07E0, 0x07E0, 0x07E1,
    0x07E1, 0x07E2, 0x07E3, 0x07E4, 0x07E5, 0x07E6, 0x07E6, 0x07E7, 0x07E8, 0x07E9, 0x07EA,
    0x07EB, 0x07EB, 0x07EC, 0x07ED, 0x07EE, 0x07EF, 0x07F0, 0x07F0, 0x07F1, 0x07F2, 0x07F3,
    0x07F4, 0x07F5, 0x07F5, 0x07F6, 0x07F7, 0x07F8, 0x07F9, 0x07FA, 0x07FA, 0x07FB, 0x07FC,
    0x07FD, 0x07FE, 0x07FF, 0x07BF, 0x077F, 0x073F, 0x071F, 0x06DF, 0x069F, 0x067F, 0x063F,
    0x05FF, 0x05DF, 0x059F, 0x055F, 0x053F, 0x04FF, 0x04BF, 0x047F, 0x045F, 0x041F, 0x03DF,
    0x03BF, 0x037F, 0x033F, 0x031F, 0x02DF, 0x029F, 0x027F, 0x023F, 0x01FF, 0x01DF, 0x019F,
    0x015F, 0x013F, 0x00FF, 0x00BF, 0x007F, 0x005F, 0x001F, 0x001F, 0x081F, 0x101F, 0x181F,
    0x181F, 0x201F, 0x281F, 0x301F, 0x381F, 0x401F, 0x401F, 0x481F, 0x501F, 0x581F, 0x601F,
    0x681F, 0x681F, 0x701F, 0x781F, 0x801F, 0x881F, 0x881F, 0x901F, 0x981F, 0xA01F, 0xA81F,
    0xB01F, 0xB01F, 0xB81F, 0xC01F, 0xC81F, 0xD01F, 0xD81F, 0xD81F, 0xE01F, 0xE81F, 0xF01F,
    0xF81E, 0xF81D, 0xF81D, 0xF81C, 0xF81B, 0xF81A, 0xF819, 0xF818, 0xF818, 0xF817, 0xF816,
    0xF815, 0xF814, 0xF813, 0xF813, 0xF812, 0xF811, 0xF810, 0xF80F, 0xF80E, 0xF80E, 0xF80D,
    0xF80C, 0xF80B, 0xF80A, 0xF809, 0xF809, 0xF808, 0xF807, 0xF806, 0xF805, 0xF804, 0xF804,
    0xF803, 0xF802, 0xF801, 0xF800,
];

/// Milliseconds between two frames of the colour-cycling loop.
pub const FRAME_DELAY_MS: u32 = 20;

/// The colour of frame `idx`: the rainbow taken round and round.
pub fn rainbow_color(idx: usize) -> (c: u16)
    ensures
        c == RAINBOW@[(idx % RAINBOW_LEN) as int],
{
    RAINBOW[idx % RAINBOW.len()]
}

/// The loop comes back to the same colour every 224 frames.
pub proof fn lemma_rainbow_period(idx: int)
    requires
        0 <= idx,
    ensures
        RAINBOW@[((idx + RAINBOW_LEN) % RAINBOW_LEN as int)] == RAINBOW@[(idx % RAINBOW_LEN as int)],
{
    assert((idx + RAINBOW_LEN) % (RAINBOW_LEN as int) == idx % (RAINBOW_LEN as int));
}

/// The operations of frame `idx` of the colour-cycling loop.
pub open spec fn rainbow_frame_ops(idx: usize) -> Seq<Op> {
    fill_ops(RAINBOW@[(idx % RAINBOW_LEN) as int]) + seq![Op::DelayMs(FRAME_DELAY_MS)]
}

/// One frame of the colour-cycling loop: fills the screen with the colour of
/// frame `idx`, waits 20 ms, and returns the next frame's index.
pub fn rainbow_frame(bus: &mut Bus, idx: usize) -> (next: usize)
    ensures
        final(bus)@ == old(bus)@ + rainbow_frame_ops(idx),
        next == idx.wrapping_add(1),
{
    tft_fill_dma(bus, rainbow_color(idx));
    crate::ili9341::delay_op(bus, FRAME_DELAY_MS);
    assert(bus@ =~= old(bus)@ + rainbow_frame_ops(idx));
    idx.wrapping_add(1)
}

} // verus!
