//! The C64-style demo: a starfield, a bouncing sprite and a scrolling banner,
//! drawn straight to the panel without a framebuffer.
use vstd::prelude::*;
use crate::bus::{Bus, BusOp, Op, Pin};
use crate::ili9341::{
    cs_high, cs_low, dc_data, fill_ops, pin_op, pixel_ops, set_window, sprite_ops, tft_draw_pixel,
    tft_draw_sprite, tft_fill_dma, window_end, window_fits, window_ops, HEIGHT, WIDTH,
};
use crate::sine::{
    cos, cosine, lemma_sine_entry, lemma_sine_half_turn, lemma_sine_range, sin, sine, SINE_LUT,
};
use crate::spi::{spi_dma_fill16, spi_dma_tx, DMA_MAX_COUNT};

verus! {

// ── Starfield ────────────────────────────────────────────────────────────────

/// Number of stars in the starfield.
pub const NUM_STARS: usize = 40;

/// A star in camera space: `x` and `y` across the view, `z` the depth
/// (0 for a star not yet placed).
#[derive(Clone, Copy, PartialEq, Eq, Structural, Debug)]
pub struct Star {
    pub x: i8,
    pub y: i8,
    pub z: u8,
}

/// Integer division rounding towards zero, as Rust's `/` on signed integers.
pub open spec fn tdiv(a: int, b: int) -> int {
    if a >= 0 {
        a / b
    } else {
        -((-a) / b)
    }
}

/// The value of `v` cast to `i8`: `v` wrapped into -128..=127.
pub open spec fn wrap_i8(v: int) -> int {
    let m = v % 256;
    if m >= 128 {
        m - 256
    } else {
        m
    }
}

/// The starting position of star `i`.
pub open spec fn spec_initial_star(i: int) -> Star {
    Star {
        x: wrap_i8((i * 37) % 255) as i8,
        y: wrap_i8((i * 59) % 255) as i8,
        z: ((i * 17) % 255) as u8,
    }
}

/// The starting position of star `i`: `x`, `y` and `z` spread over the field
/// by multiples of 37, 59 and 17 modulo 255.
pub fn initial_star(i: usize) -> (s: Star)
    requires
        i < NUM_STARS,
    ensures
        s == spec_initial_star(i as int),
{
    let xs = (i * 37) % 255;
    let ys = (i * 59) % 255;
    let zs = (i * 17) % 255;
    proof {
        assert(xs as i8 == wrap_i8(xs as int)) by (bit_vector)
            requires xs < 255;
        assert(ys as i8 == wrap_i8(ys as int)) by (bit_vector)
            requires ys < 255;
    }
    Star { x: xs as i8, y: ys as i8, z: zs as u8 }
}

/// The screen column of a star at depth `z`: the centre plus `x * 128 / z`.
pub open spec fn star_sx(x: i8, z: u8) -> int {
    (WIDTH / 2) as int + tdiv(x * 128, z as int)
}

/// The screen row of a star at depth `z`: the centre plus `y * 128 / z`.
pub open spec fn star_sy(y: i8, z: u8) -> int {
    (HEIGHT / 2) as int + tdiv(y * 128, z as int)
}

/// Whether (`sx`, `sy`) is a pixel of the screen.
pub open spec fn on_screen(sx: int, sy: int) -> bool {
    0 <= sx < WIDTH && 0 <= sy < HEIGHT
}

/// Perspective projection of a star onto the screen.
pub fn project_star(star: Star) -> (r: (i32, i32))
    requires
        star.z > 0,
    ensures
        r.0 == star_sx(star.x, star.z),
        r.1 == star_sy(star.y, star.z),
{
    let sx = (WIDTH / 2) as i32 + ((star.x as i32 * 128) / star.z as i32);
    let sy = (HEIGHT / 2) as i32 + ((star.y as i32 * 128) / star.z as i32);
    (sx, sy)
}

/// The colour of a star at depth `z`: dimmer further away.
pub open spec fn spec_star_color(z: u8) -> u16 {
    if z > 200 {
        0x4208
    } else if z > 100 {
        0x8410
    } else {
        0xFFFF
    }
}

/// The colour of a star at depth `z`: dark grey beyond 200, grey beyond 100,
/// white closer in.
pub fn star_color(z: u8) -> (c: u16)
    ensures
        c == spec_star_color(z),
{
    if z > 200 {
        0x4208
    } else if z > 100 {
        0x8410
    } else {
        0xFFFF
    }
}

/// The depth of a star after it moves 4 closer, back at 255 once it reaches
/// the camera.
pub open spec fn moved_z(z: u8) -> u8 {
    let z1: u8 = if z >= 4 { (z - 4) as u8 } else { (z + 252) as u8 };
    if z1 == 0 { 255 } else { z1 }
}

/// The star after one frame: moved closer, and sent back to depth 255 when it
/// would leave the screen.
pub open spec fn spec_star_step(s: Star) -> Star {
    let z = moved_z(s.z);
    if on_screen(star_sx(s.x, z), star_sy(s.y, z)) {
        Star { z, ..s }
    } else {
        Star { z: 255, ..s }
    }
}

/// The operations of one frame of one star: erase the old pixel when the star
/// was placed and on screen, then draw the moved star if it is on screen.
pub open spec fn star_ops(s: Star) -> Seq<Op> {
    let z = moved_z(s.z);
    let nx = star_sx(s.x, z);
    let ny = star_sy(s.y, z);
    let erase = if s.z > 0 && on_screen(star_sx(s.x, s.z), star_sy(s.y, s.z)) {
        pixel_ops(star_sx(s.x, s.z) as u16, star_sy(s.y, s.z) as u16, 0)
    } else {
        Seq::empty()
    };
    let draw = if on_screen(nx, ny) {
        pixel_ops(nx as u16, ny as u16, spec_star_color(z))
    } else {
        Seq::empty()
    };
    erase + draw
}

/// Advances one star by a frame: erases it, moves it 4 closer (back to depth
/// 255 when it reaches the camera or leaves the screen) and draws it again.
pub fn update_star(bus: &mut Bus, star: &mut Star)
    ensures
        final(bus)@ == old(bus)@ + star_ops(*old(star)),
        *final(star) == spec_star_step(*old(star)),
        final(star).z > 0,
{
    // Erase the old star
    if star.z > 0 {
        let (sx, sy) = project_star(*star);
        if sx >= 0 && sx < WIDTH as i32 && sy >= 0 && sy < HEIGHT as i32 {
            tft_draw_pixel(bus, sx as u16, sy as u16, 0x0000);
        }
    }
    // Move the star; respawn it when it reaches the camera
    star.z = star.z.wrapping_sub(4);
    if star.z == 0 {
        star.z = 255;
    }
    assert(star.z == moved_z(old(star).z));
    // Draw the new star
    let (sx, sy) = project_star(*star);
    if sx >= 0 && sx < WIDTH as i32 && sy >= 0 && sy < HEIGHT as i32 {
        let color = star_color(star.z);
        tft_draw_pixel(bus, sx as u16, sy as u16, color);
    } else {
        // Respawn if off-screen
        star.z = 255;
    }
    assert(bus@ =~= old(bus)@ + star_ops(*old(star)));
}


// ── Bouncing sprite ──────────────────────────────────────────────────────────

/// Width and height of the bouncing sprite.
pub const SPRITE_SIZE: u16 = 32;

/// The screen column of the sprite in frame `frame`: 144 plus 144/127 of the
/// sine of `2 * frame`.
pub open spec fn sprite_x(frame: u8) -> int {
    144 + tdiv(sine((frame as int * 2) % 256) * 144, 127)
}

/// The screen row of the sprite in frame `frame`: 104 plus 104/127 of the
/// cosine of `3 * frame`.
pub open spec fn sprite_y(frame: u8) -> int {
    104 + tdiv(cosine((frame as int * 3) % 256) * 104, 127)
}

proof fn lemma_scaled_sine(s: int, amp: int)
    requires
        -127 <= s <= 127,
        0 <= amp <= 1000,
    ensures
        -amp <= tdiv(s * amp, 127) <= amp,
{
    if s >= 0 {
        assert(0 <= s * amp <= 127 * amp) by (nonlinear_arith)
            requires 0 <= s <= 127, 0 <= amp;
        assert((s * amp) / 127 <= amp) by (nonlinear_arith)
            requires 0 <= s * amp <= 127 * amp;
        assert((s * amp) / 127 >= 0) by (nonlinear_arith)
            requires 0 <= s * amp;
    } else {
        assert(0 <= (-s) * amp <= 127 * amp) by (nonlinear_arith)
            requires 0 < -s <= 127, 0 <= amp;
        assert(s * amp == -((-s) * amp)) by (nonlinear_arith);
        assert(((-s) * amp) / 127 <= amp) by (nonlinear_arith)
            requires 0 <= (-s) * amp <= 127 * amp;
        assert(((-s) * amp) / 127 >= 0) by (nonlinear_arith)
            requires 0 <= (-s) * amp;
    }
}

proof fn lemma_wrapping_mul_u8(x: u8, k: u8)
    requires
        k <= 3,
    ensures
        x.wrapping_mul(k) as int == (x as int * k as int) % 256,
{
    assert(x.wrapping_mul(k) == ((x as nat * k as nat) % 256) as u8);
    assert(0 <= (x as nat * k as nat) % 256 < 256) by (nonlinear_arith);
}

/// The sprite's path keeps the whole 32 x 32 sprite on the screen.
pub proof fn lemma_sprite_on_screen(frame: u8)
    ensures
        0 <= sprite_x(frame),
        sprite_x(frame) + SPRITE_SIZE <= WIDTH,
        0 <= sprite_y(frame),
        sprite_y(frame) + SPRITE_SIZE <= HEIGHT,
{
    let a = (frame as int * 2) % 256;
    let b = (frame as int * 3) % 256;
    lemma_sine_range(a);
    lemma_sine_range((b + 64) % 256);
    lemma_scaled_sine(sine(a) as int, 144);
    lemma_scaled_sine(cosine(b) as int, 104);
}

/// Half a turn of the sprite's x angle (64 frames, as the angle is twice the
/// frame count) mirrors the sprite about the screen's centre column: its
/// column and the column 64 frames on add up to 288.
pub proof fn lemma_sprite_mirror(frame: u8)
    ensures
        sprite_x(frame.wrapping_add(64)) + sprite_x(frame) == 288,
{
    let f2 = frame.wrapping_add(64);
    assert(f2 as int == (frame as int + 64) % 256);
    let a = (frame as int * 2) % 256;
    assert((f2 as int * 2) % 256 == (a + 128) % 256) by (nonlinear_arith)
        requires f2 as int == (frame as int + 64) % 256, a == (frame as int * 2) % 256,
            0 <= frame < 256;
    lemma_sine_half_turn(a);
    lemma_sine_range(a);
    let s0 = sine(a) as int;
    assert(s0 * 144 == -((-s0) * 144)) by (nonlinear_arith);
    assert((-s0) * 144 == -(s0 * 144)) by (nonlinear_arith);
    if s0 > 0 {
        assert(s0 * 144 > 0) by (nonlinear_arith) requires s0 > 0;
    } else if s0 < 0 {
        assert(s0 * 144 < 0) by (nonlinear_arith) requires s0 < 0;
    } else {
        assert(s0 * 144 == 0);
    }
}

/// `s * amp / 127` rounded towards zero, for a sine value `s`.
fn scale_sine(s: i8, amp: i32) -> (r: i32)
    requires
        -127 <= s <= 127,
        0 <= amp <= 1000,
    ensures
        r == tdiv(s * amp, 127),
        -amp <= r <= amp,
{
    proof {
        lemma_scaled_sine(s as int, amp as int);
    }
    s as i32 * amp / 127
}

/// The sprite's position in frame `frame`, following a sine curve across the
/// screen and a cosine curve down it; the 32 x 32 sprite always lies wholly
/// on the 320 x 240 screen.
#[verifier::spinoff_prover]
pub fn sprite_position(frame: u8) -> (r: (u16, u16))
    ensures
        r.0 == sprite_x(frame),
        r.1 == sprite_y(frame),
        r.0 == 144 + tdiv(SINE_LUT@[(frame as int * 2) % 256] * 144, 127),
        r.1 == 104 + tdiv(SINE_LUT@[((frame as int * 3) % 256 + 64) % 256] * 104, 127),
        r.0 + SPRITE_SIZE <= WIDTH,
        r.1 + SPRITE_SIZE <= HEIGHT,
{
    let a = frame.wrapping_mul(2);
    let b = frame.wrapping_mul(3);
    let s = sin(a);
    let c = cos(b);
    proof {
        lemma_wrapping_mul_u8(frame, 2);
        lemma_wrapping_mul_u8(frame, 3);
        lemma_sine_range(a as int);
        lemma_sine_range((b as int + 64) % 256);
        lemma_sine_entry(a as int);
        lemma_sine_entry((b as int + 64) % 256);
    }
    let dx = scale_sine(s, 144);
    let dy = scale_sine(c, 104);
    let new_sx = (144 + dx) as u16;
    let new_sy = (104 + dy) as u16;
    (new_sx, new_sy)
}


// ── Block erase ──────────────────────────────────────────────────────────────

/// The operations of [`erase_block`].
pub open spec fn erase_ops(x: u16, y: u16, w: u16, h: u16) -> Seq<Op> {
    window_ops(x, y, window_end(x, w), window_end(y, h)) + seq![
        pin_op(Pin::Dc, true),
        pin_op(Pin::Cs, false),
        Op::SpiFrame16(true),
        Op::DmaFill16 { color: 0, count: (w * h) as u16 },
        Op::WaitIdle,
        Op::SpiFrame16(false),
        pin_op(Pin::Cs, true),
    ]
}

/// Paints a `w` x `h` block at (`x`, `y`) black with one 16-bit DMA fill.
pub fn erase_block(bus: &mut Bus, x: u16, y: u16, w: u16, h: u16)
    requires
        window_fits(x, w),
        window_fits(y, h),
        1 <= w * h <= DMA_MAX_COUNT,
    ensures
        final(bus)@ == old(bus)@ + erase_ops(x, y, w, h),
{
    set_window(bus, x, y, w, h);
    dc_data(bus);
    cs_low(bus);
    // Use the 16-bit DMA fill for black
    bus.push(BusOp::SpiFrame16(true));
    spi_dma_fill16(bus, 0x0000, w as u32 * h as u32);
    bus.push(BusOp::WaitIdle);
    bus.push(BusOp::SpiFrame16(false));
    cs_high(bus);
    assert(bus@ =~= old(bus)@ + erase_ops(x, y, w, h));
}

// ── Character blocks ─────────────────────────────────────────────────────────

/// Side of a character block: an 8 x 8 glyph drawn at twice its size.
pub const CHAR_BLOCK: u16 = 16;

/// Whether pixel (`r`, `c`) of the 16 x 16 block of `glyph` is lit: bit
/// `c / 2` of glyph row `r / 2`, bit 0 the leftmost column.
pub open spec fn glyph_on(glyph: Seq<u8>, r: int, c: int) -> bool {
    glyph[r / 2] & (1u8 << ((c / 2) as u8)) != 0
}

/// Pixel (`r`, `c`) of the block of `glyph`: `color` where lit, else black.
pub open spec fn block_pixel(glyph: Seq<u8>, color: u16, r: int, c: int) -> u16 {
    if glyph_on(glyph, r, c) {
        color
    } else {
        0
    }
}

/// The 512 bytes of the block of `glyph`: 16 rows of 16 pixels, each most
/// significant byte first.
pub open spec fn block_bytes(glyph: Seq<u8>, color: u16) -> Seq<u8> {
    Seq::new(
        512,
        |i: int|
            {
                let px = block_pixel(glyph, color, (i / 2) / 16, (i / 2) % 16);
                if i % 2 == 0 {
                    (px >> 8u16) as u8
                } else {
                    px as u8
                }
            },
    )
}

/// Which pixels of the block are painted once glyph rows before `row` and the
/// first `col` columns of row `row` have been drawn.
spec fn painted(glyph: Seq<u8>, color: u16, row: int, col: int, r: int, c: int) -> u16 {
    if r / 2 < row || (r / 2 == row && c / 2 < col) {
        block_pixel(glyph, color, r, c)
    } else {
        0
    }
}

/// Renders `glyph` at twice its size into a 16 x 16 block of RGB565 pixels,
/// `color` on black, as the bytes to send to the panel.
pub fn render_char_block(glyph: &[u8; 8], color: u16) -> (buf: Vec<u8>)
    ensures
        buf@ == block_bytes(glyph@, color),
{
    // Clear the buffer
    let mut pix: Vec<u16> = Vec::new();
    let mut i: usize = 0;
    while i < 256
        invariant
            i <= 256,
            pix@.len() == i,
            forall|k: int| 0 <= k < i ==> pix@[k] == 0u16,
        decreases 256 - i,
    {
        pix.push(0);
        i = i + 1;
    }
    let mut row_idx: usize = 0;
    while row_idx < 8
        invariant
            row_idx <= 8,
            pix@.len() == 256,
            forall|r: int, c: int|
                0 <= r < 16 && 0 <= c < 16 ==> #[trigger] pix@[16 * r + c] == painted(
                    glyph@,
                    color,
                    row_idx as int,
                    0,
                    r,
                    c,
                ),
        decreases 8 - row_idx,
    {
        let row_val = glyph[row_idx];
        let mut col_idx: usize = 0;
        while col_idx < 8
            invariant
                row_idx < 8,
                col_idx <= 8,
                row_val == glyph@[row_idx as int],
                pix@.len() == 256,
                forall|r: int, c: int|
                    0 <= r < 16 && 0 <= c < 16 ==> #[trigger] pix@[16 * r + c] == painted(
                        glyph@,
                        color,
                        row_idx as int,
                        col_idx as int,
                        r,
                        c,
                    ),
            decreases 8 - col_idx,
        {
            if (row_val & (1u8 << (col_idx as u8))) != 0 {
                let base_idx = row_idx * 2 * 16 + col_idx * 2;
                pix.set(base_idx, color);
                pix.set(base_idx + 1, color);
                pix.set(base_idx + 16, color);
                pix.set(base_idx + 17, color);
            }
            proof {
                assert forall|r: int, c: int| 0 <= r < 16 && 0 <= c < 16 implies #[trigger] pix@[16
                    * r + c] == painted(glyph@, color, row_idx as int, col_idx + 1, r, c) by {
                    if r / 2 == row_idx && c / 2 == col_idx {
                        assert(glyph_on(glyph@, r, c) == ((row_val & (1u8 << (col_idx as u8)))
                            != 0));
                    }
                }
            }
            col_idx = col_idx + 1;
        }
        proof {
            assert forall|r: int, c: int| 0 <= r < 16 && 0 <= c < 16 implies #[trigger] pix@[16 * r
                + c] == painted(glyph@, color, row_idx + 1, 0, r, c) by {
                assert(pix@[16 * r + c] == painted(glyph@, color, row_idx as int, 8, r, c));
            }
        }
        row_idx = row_idx + 1;
    }
    // Most significant byte first
    let mut buf: Vec<u8> = Vec::new();
    let mut p: usize = 0;
    while p < 256
        invariant
            p <= 256,
            pix@.len() == 256,
            forall|r: int, c: int|
                0 <= r < 16 && 0 <= c < 16 ==> #[trigger] pix@[16 * r + c] == painted(
                    glyph@,
                    color,
                    8,
                    0,
                    r,
                    c,
                ),
            buf@.len() == 2 * p,
            forall|k: int| 0 <= k < 2 * p ==> buf@[k] == block_bytes(glyph@, color)[k],
        decreases 256 - p,
    {
        let px = pix[p];
        proof {
            let r = p as int / 16;
            let c = p as int % 16;
            assert(16 * r + c == p as int);
            assert(px == block_pixel(glyph@, color, r, c));
        }
        buf.push((px >> 8u16) as u8);
        buf.push(px as u8);
        p = p + 1;
    }
    assert(buf@ =~= block_bytes(glyph@, color));
    buf
}


/// The first visible column of a block whose left edge is at `x`.
pub open spec fn clip_start(x: int) -> int {
    if x < 0 {
        -x
    } else {
        0
    }
}

/// One past the last visible column of a block whose left edge is at `x`.
pub open spec fn clip_end(x: int) -> int {
    if x + CHAR_BLOCK > WIDTH {
        WIDTH - x
    } else {
        CHAR_BLOCK as int
    }
}

/// One DMA transfer per block row, of the visible columns
/// `start..start + w` of rows `0..n` of `bytes`.
pub open spec fn row_chunk_ops(bytes: Seq<u8>, start: int, w: int, n: int) -> Seq<Op>
    decreases n,
{
    if n <= 0 {
        Seq::empty()
    } else {
        let lo = 2 * (16 * (n - 1) + start);
        row_chunk_ops(bytes, start, w, n - 1) + seq![Op::DmaTx(bytes.subrange(lo, lo + 2 * w))]
    }
}

/// The operations of [`draw_char_block`] for a glyph: nothing when the block
/// is wholly off screen; else the window of its visible columns and the
/// visible part of the block, in one transfer when every column is visible
/// and one transfer per row otherwise.
pub open spec fn char_ops(glyph: Seq<u8>, x: int, y: i32, color: u16) -> Seq<Op> {
    let start = clip_start(x);
    let end = clip_end(x);
    if start >= end {
        Seq::empty()
    } else {
        let w = end - start;
        let dx = (x + start) as u16;
        let dy = y as u16;
        let bytes = block_bytes(glyph, color);
        let body = if w == CHAR_BLOCK {
            seq![Op::DmaTx(bytes)]
        } else {
            row_chunk_ops(bytes, start, w, 16)
        };
        window_ops(dx, dy, window_end(dx, w as u16), window_end(dy, CHAR_BLOCK)) + seq![
            pin_op(Pin::Dc, true),
            pin_op(Pin::Cs, false),
        ] + body + seq![Op::WaitIdle, pin_op(Pin::Cs, true)]
    }
}

/// The glyph that `font` holds for character `ch`: entry `ch & 0x7F`.
pub open spec fn font_glyph(font: Seq<[u8; 8]>, ch: u8) -> Seq<u8> {
    font[(ch & 0x7F) as int]@
}

/// The glyph of character `ch` is the font's entry `ch` modulo 128: for a
/// character below 128, the entry of the character itself.
pub proof fn lemma_font_glyph_entry(font: Seq<[u8; 8]>, ch: u8)
    ensures
        font_glyph(font, ch) == font[(ch % 128) as int]@,
        ch < 128 ==> font_glyph(font, ch) == font[ch as int]@,
{
    assert(ch & 0x7F == ch % 128) by (bit_vector);
}

/// Bit 7 of a character is ignored: for every position and colour,
/// `ch | 0x80`, `ch` and `ch & 0x7F` draw the same block, with the same
/// operations, from the same glyph, which is one of the font's first 128.
pub proof fn lemma_char_bit7_ignored(font: Seq<[u8; 8]>, ch: u8, x: int, y: i32, color: u16)
    ensures
        (ch | 0x80) & 0x7F < 128,
        (ch & 0x7F) & 0x7F < 128,
        font_glyph(font, ch | 0x80) == font_glyph(font, ch & 0x7F),
        font_glyph(font, ch) == font_glyph(font, ch & 0x7F),
        char_ops(font_glyph(font, ch | 0x80), x, y, color) == char_ops(
            font_glyph(font, ch & 0x7F),
            x,
            y,
            color,
        ),
        char_ops(font_glyph(font, ch), x, y, color) == char_ops(
            font_glyph(font, ch & 0x7F),
            x,
            y,
            color,
        ),
{
    assert((ch | 0x80) & 0x7F == ch & 0x7F) by (bit_vector);
    assert((ch & 0x7F) & 0x7F == ch & 0x7F) by (bit_vector);
    assert(ch & 0x7F < 128) by (bit_vector);
}

/// Draws character `ch` of `font` at twice its size in a 16 x 16 block at
/// (`x`, `y`), `color` on black, clipped to the columns of the screen. The
/// whole block goes to the panel at once, background included, so the text
/// does not flicker. Bit 7 of `ch` is ignored: what is recorded is what
/// `ch & 0x7F` records.
pub fn draw_char_block(bus: &mut Bus, font: &[[u8; 8]], ch: u8, x: i32, y: i32, color: u16)
    requires
        font@.len() >= 128,
        i32::MIN < x,
        x + CHAR_BLOCK <= i32::MAX,
        window_fits(y as u16, CHAR_BLOCK),
    ensures
        final(bus)@ == old(bus)@ + char_ops(font_glyph(font@, ch), x as int, y, color),
        final(bus)@ == old(bus)@ + char_ops(font_glyph(font@, ch & 0x7F), x as int, y, color),
        final(bus)@ == old(bus)@ + char_ops(font@[(ch % 128) as int]@, x as int, y, color),
{
    proof {
        lemma_char_bit7_ignored(font@, ch, x as int, y, color);
        lemma_font_glyph_entry(font@, ch);
    }
    // Determine visible area
    let mut start_x: i32 = 0;
    let mut end_x: i32 = 16;
    if x < 0 {
        start_x = -x;
    }
    if x + 16 > WIDTH as i32 {
        end_x = WIDTH as i32 - x;
    }
    if start_x >= end_x {
        assert(bus@ =~= old(bus)@ + char_ops(font_glyph(font@, ch), x as int, y, color));
        return;
    }
    let draw_w = (end_x - start_x) as u16;
    let draw_x = (x + start_x) as u16;
    assert(ch & 0x7F < 128) by (bit_vector);
    let glyph = &font[(ch & 0x7F) as usize];
    let buf = render_char_block(glyph, color);
    let ghost bytes = block_bytes(glyph@, color);
    set_window(bus, draw_x, y as u16, draw_w, 16);
    dc_data(bus);
    cs_low(bus);
    let ghost b0 = bus@;
    if draw_w == 16 {
        // Full character visible, single DMA transfer
        spi_dma_tx(bus, buf.as_slice());
    } else {
        // Clipped character, row by row
        let mut row: usize = 0;
        while row < 16
            invariant
                row <= 16,
                buf@ == bytes,
                buf@.len() == 512,
                0 <= start_x,
                1 <= draw_w < 16,
                start_x + draw_w <= 16,
                bus@ == b0 + row_chunk_ops(bytes, start_x as int, draw_w as int, row as int),
            decreases 16 - row,
        {
            let row_start = row * 16 + start_x as usize;
            let chunk = vstd::slice::slice_subrange(
                buf.as_slice(),
                2 * row_start,
                2 * row_start + (draw_w * 2) as usize,
            );
            spi_dma_tx(bus, chunk);
            row = row + 1;
        }
    }
    bus.push(BusOp::WaitIdle);
    cs_high(bus);
    assert(bus@ =~= old(bus)@ + char_ops(font_glyph(font@, ch), x as int, y, color));
}


// ── Scrolling banner ─────────────────────────────────────────────────────────

/// Number of characters of the banner.
pub const TEXT_LEN: usize = 26;

/// The banner, "SuDni like Rust & AI" followed by six spaces, in ASCII.
pub const TEXT: [u8; 26] = [83, 117, 68, 110, 105, 32, 108, 105, 107, 101, 32, 82, 117, 115, 116, 32, 38, 32, 65, 73, 32, 32, 32, 32, 32, 32];

/// Screen row of the top of the banner.
pub const TEXT_Y: u16 = 220;

/// Width of the whole banner in pixels: 26 blocks of 16.
pub const TEXT_WIDTH: i32 = 416;

/// Green, the colour of even characters on even quarter-beats.
pub const GREEN: u16 = 0x07E0;

/// Yellow, the other banner colour.
pub const YELLOW: u16 = 0xFFE0;

/// The colour of banner character `i` in frame `frame`: green and yellow
/// alternate along the banner and swap every four frames.
pub open spec fn text_color(i: int, frame: u8) -> u16 {
    if ((i + frame / 4) % 256) % 2 == 0 {
        GREEN
    } else {
        YELLOW
    }
}

/// Neighbouring banner characters always differ in colour.
pub proof fn lemma_banner_colours_alternate(i: int, frame: u8)
    requires
        0 <= i,
    ensures
        text_color(i, frame) != text_color(i + 1, frame),
{
    let q = (frame / 4) as int;
    assert(((i + q) % 256) % 2 == (i + q) % 2);
    assert(((i + 1 + q) % 256) % 2 == (i + 1 + q) % 2);
}

/// The left edge of banner character `i` when the banner starts at `scroll_x`.
pub open spec fn char_x(scroll_x: i32, i: int) -> int {
    scroll_x + i * 16
}

/// The operations that draw banner character `i`: its block when any of it is
/// on screen, nothing otherwise.
pub open spec fn text_char_ops(font: Seq<[u8; 8]>, scroll_x: i32, frame: u8, i: int) -> Seq<Op> {
    let cx = char_x(scroll_x, i);
    if -16 < cx < WIDTH {
        char_ops(font_glyph(font, TEXT@[i]), cx, TEXT_Y as i32, text_color(i, frame))
    } else {
        Seq::empty()
    }
}

/// The operations that draw banner characters `0..n`.
pub open spec fn text_ops(font: Seq<[u8; 8]>, scroll_x: i32, frame: u8, n: int) -> Seq<Op>
    decreases n,
{
    if n <= 0 {
        Seq::empty()
    } else {
        text_ops(font, scroll_x, frame, n - 1) + text_char_ops(font, scroll_x, frame, n - 1)
    }
}

/// The operations that erase the 2-pixel strip the banner leaves behind its
/// right end, where that strip is on screen.
pub open spec fn trail_ops(scroll_x: i32) -> Seq<Op> {
    let tx = scroll_x + TEXT_WIDTH;
    if 0 <= tx < WIDTH {
        let w: u16 = if WIDTH - tx < 2 { (WIDTH - tx) as u16 } else { 2 };
        erase_ops(tx as u16, TEXT_Y, w, 16)
    } else {
        Seq::empty()
    }
}

/// The banner's start after a frame: 2 pixels to the left, back to the right
/// edge of the screen once wholly off its left edge.
pub open spec fn next_scroll(scroll_x: i32) -> i32 {
    if scroll_x - 2 < -TEXT_WIDTH {
        WIDTH as i32
    } else {
        (scroll_x - 2) as i32
    }
}

// ── Demo state and frames ────────────────────────────────────────────────────

/// What the demo remembers from one frame to the next.
pub struct DemoState {
    stars: Vec<Star>,
    frame: u8,
    prev_sx: u16,
    prev_sy: u16,
    scroll_x: i32,
}

/// The demo state as plain values.
pub ghost struct DemoView {
    pub stars: Seq<Star>,
    pub frame: u8,
    pub prev_sx: u16,
    pub prev_sy: u16,
    pub scroll_x: i32,
}

impl View for DemoState {
    type V = DemoView;

    closed spec fn view(&self) -> DemoView {
        DemoView {
            stars: self.stars@,
            frame: self.frame,
            prev_sx: self.prev_sx,
            prev_sy: self.prev_sy,
            scroll_x: self.scroll_x,
        }
    }
}

impl DemoView {
    /// The demo's invariant: 40 stars, the sprite's last position on screen,
    /// the banner start within one banner width left of the screen and its
    /// right edge.
    pub open spec fn wf(self) -> bool {
        &&& self.stars.len() == NUM_STARS
        &&& self.prev_sx + SPRITE_SIZE <= WIDTH
        &&& self.prev_sy + SPRITE_SIZE <= HEIGHT
        &&& -TEXT_WIDTH <= self.scroll_x <= WIDTH
    }
}

impl DemoState {
    /// The number of frames drawn, modulo 256.
    pub fn frame(&self) -> (f: u8)
        ensures
            f == self@.frame,
    {
        self.frame
    }

    /// Where the banner starts.
    pub fn scroll_x(&self) -> (x: i32)
        ensures
            x == self@.scroll_x,
    {
        self.scroll_x
    }

    /// Where the sprite was drawn last.
    pub fn sprite_at(&self) -> (p: (u16, u16))
        ensures
            p == (self@.prev_sx, self@.prev_sy),
    {
        (self.prev_sx, self.prev_sy)
    }

    /// Star `i`.
    pub fn star(&self, i: usize) -> (s: Star)
        requires
            i < self@.stars.len(),
        ensures
            s == self@.stars[i as int],
    {
        self.stars[i]
    }

}

/// The state of the demo before its first frame.
pub open spec fn initial_view() -> DemoView {
    DemoView {
        stars: Seq::new(NUM_STARS as nat, |i: int| spec_initial_star(i)),
        frame: 0,
        prev_sx: 0,
        prev_sy: 0,
        scroll_x: WIDTH as i32,
    }
}

/// Starts the demo: clears the screen to black and places the stars.
pub fn demo_start(bus: &mut Bus) -> (state: DemoState)
    ensures
        final(bus)@ == old(bus)@ + fill_ops(0),
        state@ == initial_view(),
        state@.wf(),
{
    // Fill screen black
    tft_fill_dma(bus, 0x0000);
    let mut stars: Vec<Star> = Vec::new();
    let mut i: usize = 0;
    while i < NUM_STARS
        invariant
            i <= NUM_STARS,
            stars@ == Seq::new(i as nat, |k: int| spec_initial_star(k)),
        decreases NUM_STARS - i,
    {
        stars.push(initial_star(i));
        i = i + 1;
        assert(stars@ =~= Seq::new(i as nat, |k: int| spec_initial_star(k)));
    }
    let state = DemoState { stars, frame: 0, prev_sx: 0, prev_sy: 0, scroll_x: WIDTH as i32 };
    assert(state@ =~= initial_view());
    state
}

/// The operations of one frame for each of `stars`, in order.
pub open spec fn stars_ops(stars: Seq<Star>) -> Seq<Op>
    decreases stars.len(),
{
    if stars.len() == 0 {
        Seq::empty()
    } else {
        stars_ops(stars.drop_last()) + star_ops(stars.last())
    }
}

/// The operations of one demo frame: the starfield, the sprite erased at its
/// old place and drawn at its new one, the banner and its trailing strip.
pub open spec fn frame_ops(v: DemoView, sprite: Seq<u8>, font: Seq<[u8; 8]>) -> Seq<Op> {
    stars_ops(v.stars) + erase_ops(v.prev_sx, v.prev_sy, SPRITE_SIZE, SPRITE_SIZE) + sprite_ops(
        sprite_x(v.frame) as u16,
        sprite_y(v.frame) as u16,
        SPRITE_SIZE,
        SPRITE_SIZE,
        sprite,
    ) + text_ops(font, v.scroll_x, v.frame, TEXT_LEN as int) + trail_ops(v.scroll_x)
}

/// The demo state after one frame.
pub open spec fn next_view(v: DemoView) -> DemoView {
    DemoView {
        stars: v.stars.map_values(|s: Star| spec_star_step(s)),
        frame: v.frame.wrapping_add(1),
        prev_sx: sprite_x(v.frame) as u16,
        prev_sy: sprite_y(v.frame) as u16,
        scroll_x: next_scroll(v.scroll_x),
    }
}

fn draw_stars(bus: &mut Bus, stars: &mut Vec<Star>)
    ensures
        final(bus)@ == old(bus)@ + stars_ops(old(stars)@),
        final(stars)@ == old(stars)@.map_values(|s: Star| spec_star_step(s)),
{
    let ghost start = stars@;
    let ghost b0 = bus@;
    let mut i: usize = 0;
    while i < stars.len()
        invariant
            i <= stars@.len(),
            stars@.len() == start.len(),
            forall|k: int| 0 <= k < i ==> stars@[k] == spec_star_step(start[k]),
            forall|k: int| i <= k < start.len() ==> stars@[k] == start[k],
            bus@ == b0 + stars_ops(start.take(i as int)),
        decreases start.len() - i,
    {
        let mut s = stars[i];
        update_star(bus, &mut s);
        stars.set(i, s);
        proof {
            let t = start.take(i as int + 1);
            assert(t.drop_last() =~= start.take(i as int));
        }
        i = i + 1;
    }
    assert(start.take(i as int) =~= start);
    assert(stars@ =~= start.map_values(|s: Star| spec_star_step(s)));
}

#[verifier::spinoff_prover]
#[verifier::rlimit(40)]
fn draw_text(bus: &mut Bus, font: &[[u8; 8]], scroll_x: i32, frame: u8)
    requires
        font@.len() >= 128,
        -TEXT_WIDTH <= scroll_x <= WIDTH,
    ensures
        final(bus)@ == old(bus)@ + text_ops(font@, scroll_x, frame, TEXT_LEN as int),
{
    let ghost b0 = bus@;
    let mut i: usize = 0;
    while i < TEXT_LEN
        invariant
            i <= TEXT_LEN,
            font@.len() >= 128,
            -TEXT_WIDTH <= scroll_x <= WIDTH,
            bus@ == b0 + text_ops(font@, scroll_x, frame, i as int),
        decreases TEXT_LEN - i,
    {
        let ch = TEXT[i];
        let cx = scroll_x + (i as i32 * 16);
        if cx > -16 && cx < WIDTH as i32 {
            // Colour gradient effect based on character index and frame
            let color = if (i as u8).wrapping_add(frame / 4) % 2 == 0 {
                GREEN
            } else {
                YELLOW
            };
            assert(color == text_color(i as int, frame));
            draw_char_block(bus, font, ch, cx, TEXT_Y as i32, color);
        }
        i = i + 1;
    }
}

/// Draws one frame of the demo: moves and redraws the stars, moves the sprite
/// along its sine path, scrolls the banner 2 pixels left and erases the strip
/// it leaves behind.
#[verifier::spinoff_prover]
#[verifier::rlimit(40)]
pub fn demo_frame(bus: &mut Bus, state: &mut DemoState, sprite: &[u8], font: &[[u8; 8]])
    requires
        sprite@.len() <= DMA_MAX_COUNT,
        font@.len() >= 128,
        old(state)@.wf(),
    ensures
        final(bus)@ == old(bus)@ + frame_ops(old(state)@, sprite@, font@),
        final(state)@ == next_view(old(state)@),
        final(state)@.wf(),
{
    // 1. Starfield
    draw_stars(bus, &mut state.stars);
    // 2. Bouncing sprite
    let (new_sx, new_sy) = sprite_position(state.frame);
    erase_block(bus, state.prev_sx, state.prev_sy, SPRITE_SIZE, SPRITE_SIZE);
    tft_draw_sprite(bus, new_sx, new_sy, SPRITE_SIZE, SPRITE_SIZE, sprite);
    state.prev_sx = new_sx;
    state.prev_sy = new_sy;
    // 3. Scrolling text
    draw_text(bus, font, state.scroll_x, state.frame);
    // Clean up the trailing edge left by the moving string (2 pixels wide)
    let trail_x = state.scroll_x + TEXT_WIDTH;
    if trail_x >= 0 && trail_x < WIDTH as i32 {
        let draw_w: u16 = if WIDTH as i32 - trail_x < 2 {
            (WIDTH as i32 - trail_x) as u16
        } else {
            2
        };
        erase_block(bus, trail_x as u16, TEXT_Y, draw_w, 16);
    }
    let mut scroll_x = state.scroll_x - 2;
    if scroll_x < -TEXT_WIDTH {
        scroll_x = WIDTH as i32;
    }
    state.scroll_x = scroll_x;
    state.frame = state.frame.wrapping_add(1);
    assert(bus@ =~= old(bus)@ + frame_ops(old(state)@, sprite@, font@));
}

} // verus!
