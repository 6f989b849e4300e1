//! ILI9341 / ST7789 panel driver: control lines, commands, initialisation,
//! address windows and pixel transfers.
use vstd::prelude::*;
use crate::bus::{Bus, BusOp, Op, Pin};
use crate::spi::{spi_dma_fill16, spi_dma_tx, spi_dma_tx_ops, spi_tx_byte, DMA_MAX_COUNT};

verus! {

/// Screen width in landscape orientation.
pub const WIDTH: u16 = 320;

/// Screen height in landscape orientation.
pub const HEIGHT: u16 = 240;

/// Pixels per DMA burst of a full-screen fill: half the screen, so that each
/// burst fits the 16-bit DMA counter.
pub const FILL_CHUNK: u32 = 38400;

/// Software reset.
pub const CMD_SWRESET: u8 = 0x01;
/// Sleep out.
pub const CMD_SLPOUT: u8 = 0x11;
/// Display on.
pub const CMD_DISPON: u8 = 0x29;
/// Column address set.
pub const CMD_CASET: u8 = 0x2A;
/// Row (page) address set.
pub const CMD_RASET: u8 = 0x2B;
/// Memory write.
pub const CMD_RAMWR: u8 = 0x2C;
/// Memory access control.
pub const CMD_MADCTL: u8 = 0x36;
/// Pixel format set.
pub const CMD_COLMOD: u8 = 0x3A;

// ── Control lines ────────────────────────────────────────────────────────────

pub open spec fn pin_op(pin: Pin, high: bool) -> Op {
    Op::PinWrite { pin, high }
}

/// Asserts chip select (PC1 low).
pub fn cs_low(bus: &mut Bus)
    ensures
        final(bus)@ == old(bus)@.push(pin_op(Pin::Cs, false)),
{
    bus.push(BusOp::PinWrite { pin: Pin::Cs, high: false });
}

/// Deasserts chip select (PC1 high).
pub fn cs_high(bus: &mut Bus)
    ensures
        final(bus)@ == old(bus)@.push(pin_op(Pin::Cs, true)),
{
    bus.push(BusOp::PinWrite { pin: Pin::Cs, high: true });
}

/// Selects command mode (PD3 low).
pub fn dc_cmd(bus: &mut Bus)
    ensures
        final(bus)@ == old(bus)@.push(pin_op(Pin::Dc, false)),
{
    bus.push(BusOp::PinWrite { pin: Pin::Dc, high: false });
}

/// Selects data mode (PD3 high).
pub fn dc_data(bus: &mut Bus)
    ensures
        final(bus)@ == old(bus)@.push(pin_op(Pin::Dc, true)),
{
    bus.push(BusOp::PinWrite { pin: Pin::Dc, high: true });
}

/// Asserts the panel reset (PD4 low).
pub fn rst_low(bus: &mut Bus)
    ensures
        final(bus)@ == old(bus)@.push(pin_op(Pin::Rst, false)),
{
    bus.push(BusOp::PinWrite { pin: Pin::Rst, high: false });
}

/// Releases the panel reset (PD4 high).
pub fn rst_high(bus: &mut Bus)
    ensures
        final(bus)@ == old(bus)@.push(pin_op(Pin::Rst, true)),
{
    bus.push(BusOp::PinWrite { pin: Pin::Rst, high: true });
}

// ── Commands ─────────────────────────────────────────────────────────────────

/// One command byte: DC low, CS low, the byte, CS high.
pub open spec fn cmd_ops(cmd: u8) -> Seq<Op> {
    seq![pin_op(Pin::Dc, false), pin_op(Pin::Cs, false), Op::SpiByte(cmd), pin_op(Pin::Cs, true)]
}

/// One data byte: DC high, CS low, the byte, CS high.
pub open spec fn data_ops(byte: u8) -> Seq<Op> {
    seq![pin_op(Pin::Dc, true), pin_op(Pin::Cs, false), Op::SpiByte(byte), pin_op(Pin::Cs, true)]
}

/// Each byte of `args` as a data byte, in order.
pub open spec fn data_seq_ops(args: Seq<u8>) -> Seq<Op>
    decreases args.len(),
{
    if args.len() == 0 {
        Seq::empty()
    } else {
        data_seq_ops(args.drop_last()) + data_ops(args.last())
    }
}

/// A command followed by its parameter bytes.
pub open spec fn cmd_data_ops(cmd: u8, args: Seq<u8>) -> Seq<Op> {
    cmd_ops(cmd) + data_seq_ops(args)
}

/// Sends a command byte.
pub fn tft_cmd(bus: &mut Bus, cmd: u8)
    ensures
        final(bus)@ == old(bus)@ + cmd_ops(cmd),
{
    dc_cmd(bus);
    cs_low(bus);
    spi_tx_byte(bus, cmd);
    cs_high(bus);
    assert(bus@ =~= old(bus)@ + cmd_ops(cmd));
}

/// Sends a data byte.
pub fn tft_data(bus: &mut Bus, data: u8)
    ensures
        final(bus)@ == old(bus)@ + data_ops(data),
{
    dc_data(bus);
    cs_low(bus);
    spi_tx_byte(bus, data);
    cs_high(bus);
    assert(bus@ =~= old(bus)@ + data_ops(data));
}

/// Sends a command followed by its parameters, one data byte at a time.
pub fn tft_cmd_data(bus: &mut Bus, cmd: u8, args: &[u8])
    ensures
        final(bus)@ == old(bus)@ + cmd_data_ops(cmd, args@),
{
    tft_cmd(bus, cmd);
    let ghost start = bus@;
    let mut i: usize = 0;
    while i < args.len()
        invariant
            i <= args@.len(),
            start == old(bus)@ + cmd_ops(cmd),
            bus@ == start + data_seq_ops(args@.take(i as int)),
        decreases args@.len() - i,
    {
        tft_data(bus, args[i]);
        proof {
            let t = args@.take(i as int + 1);
            assert(t.drop_last() =~= args@.take(i as int));
            assert(t.last() == args@[i as int]);
        }
        i = i + 1;
    }
    assert(args@.take(i as int) =~= args@);
    assert(bus@ =~= old(bus)@ + cmd_data_ops(cmd, args@));
}


// ── Address window and pixels ───────────────────────────────────────────────

/// The four parameter bytes of a column or row address command: start and
/// end address, each most significant byte first.
pub open spec fn window_args(start: u16, end: u16) -> Seq<u8> {
    seq![(start >> 8u16) as u8, start as u8, (end >> 8u16) as u8, end as u8]
}

/// Columns `x..=x2` and rows `y..=y2` as the write window, then memory write.
pub open spec fn window_ops(x: u16, y: u16, x2: u16, y2: u16) -> Seq<Op> {
    cmd_data_ops(CMD_CASET, window_args(x, x2)) + cmd_data_ops(CMD_RASET, window_args(y, y2))
        + cmd_ops(CMD_RAMWR)
}

/// The last column or row of a window of `len` starting at `start`.
pub open spec fn window_end(start: u16, len: u16) -> u16 {
    (start + len - 1) as u16
}

/// Whether a window of `len` starting at `start` has a last column or row
/// that the 16-bit arithmetic of [`set_window`] computes without overflow.
pub open spec fn window_fits(start: u16, len: u16) -> bool {
    1 <= start + len <= u16::MAX
}

fn send_window_args(bus: &mut Bus, cmd: u8, start: u16, end: u16)
    ensures
        final(bus)@ == old(bus)@ + cmd_data_ops(cmd, window_args(start, end)),
{
    let args: [u8; 4] = [(start >> 8u16) as u8, start as u8, (end >> 8u16) as u8, end as u8];
    assert(args@ =~= window_args(start, end));
    tft_cmd_data(bus, cmd, &args);
}

/// Sets the panel's write window to `w` columns from `x` and `h` rows from
/// `y`, then starts a memory write.
pub fn set_window(bus: &mut Bus, x: u16, y: u16, w: u16, h: u16)
    requires
        window_fits(x, w),
        window_fits(y, h),
    ensures
        final(bus)@ == old(bus)@ + window_ops(x, y, window_end(x, w), window_end(y, h)),
{
    let x2 = x + w - 1;
    let y2 = y + h - 1;
    send_window_args(bus, CMD_CASET, x, x2);
    send_window_args(bus, CMD_RASET, y, y2);
    tft_cmd(bus, CMD_RAMWR);
    assert(bus@ =~= old(bus)@ + window_ops(x, y, window_end(x, w), window_end(y, h)));
}

/// The operations of [`tft_draw_sprite`].
pub open spec fn sprite_ops(x: u16, y: u16, w: u16, h: u16, data: Seq<u8>) -> Seq<Op> {
    window_ops(x, y, window_end(x, w), window_end(y, h)) + seq![
        pin_op(Pin::Dc, true),
        pin_op(Pin::Cs, false),
    ] + spi_dma_tx_ops(data) + seq![Op::WaitIdle, pin_op(Pin::Cs, true)]
}

/// Draws a `w` x `h` block at (`x`, `y`) from `data`, two bytes per pixel,
/// most significant byte first, row by row, in one DMA transfer.
pub fn tft_draw_sprite(bus: &mut Bus, x: u16, y: u16, w: u16, h: u16, data: &[u8])
    requires
        window_fits(x, w),
        window_fits(y, h),
        data@.len() <= DMA_MAX_COUNT,
    ensures
        final(bus)@ == old(bus)@ + sprite_ops(x, y, w, h, data@),
{
    set_window(bus, x, y, w, h);
    dc_data(bus);
    cs_low(bus);
    spi_dma_tx(bus, data);
    bus.push(BusOp::WaitIdle);
    cs_high(bus);
    assert(bus@ =~= old(bus)@ + sprite_ops(x, y, w, h, data@));
}

/// The operations of [`tft_draw_pixel`].
pub open spec fn pixel_ops(x: u16, y: u16, color: u16) -> Seq<Op> {
    window_ops(x, y, x, y) + seq![
        pin_op(Pin::Dc, true),
        pin_op(Pin::Cs, false),
        Op::SpiByte((color >> 8u16) as u8),
        Op::SpiByte(color as u8),
        pin_op(Pin::Cs, true),
    ]
}

/// Draws one pixel of RGB565 `color` at (`x`, `y`).
pub fn tft_draw_pixel(bus: &mut Bus, x: u16, y: u16, color: u16)
    requires
        x < u16::MAX,
        y < u16::MAX,
    ensures
        final(bus)@ == old(bus)@ + pixel_ops(x, y, color),
{
    set_window(bus, x, y, 1, 1);
    dc_data(bus);
    cs_low(bus);
    spi_tx_byte(bus, (color >> 8u16) as u8);
    spi_tx_byte(bus, color as u8);
    cs_high(bus);
    assert(bus@ =~= old(bus)@ + pixel_ops(x, y, color));
}

/// The operations of [`tft_fill_dma`].
pub open spec fn fill_ops(color: u16) -> Seq<Op> {
    window_ops(0, 0, (WIDTH - 1) as u16, (HEIGHT - 1) as u16) + seq![
        Op::SpiFrame16(true),
        pin_op(Pin::Dc, true),
        pin_op(Pin::Cs, false),
        Op::DmaFill16 { color, count: FILL_CHUNK as u16 },
        Op::DmaFill16 { color, count: FILL_CHUNK as u16 },
        Op::WaitIdle,
        pin_op(Pin::Cs, true),
        Op::SpiFrame16(false),
    ]
}

/// Fills the whole screen with RGB565 `color`: the full-screen window, then
/// 16-bit frames of the one colour in two DMA bursts of half a screen each.
pub fn tft_fill_dma(bus: &mut Bus, color: u16)
    ensures
        final(bus)@ == old(bus)@ + fill_ops(color),
{
    set_window(bus, 0, 0, WIDTH, HEIGHT);
    bus.push(BusOp::SpiFrame16(true));
    dc_data(bus);
    cs_low(bus);
    spi_dma_fill16(bus, color, FILL_CHUNK);
    spi_dma_fill16(bus, color, FILL_CHUNK);
    bus.push(BusOp::WaitIdle);
    cs_high(bus);
    bus.push(BusOp::SpiFrame16(false));
    assert(bus@ =~= old(bus)@ + fill_ops(color));
}


// ── Initialisation ───────────────────────────────────────────────────────────

/// Pixel format parameter: 16 bits per pixel (RGB565).
pub const COLMOD_RGB565: u8 = 0x55;

/// Memory access control parameter: row/column exchange with BGR order, the
/// landscape orientation.
pub const MADCTL_LANDSCAPE_BGR: u8 = 0x28;

/// The initialisation sequence of [`tft_init`].
pub open spec fn init_ops() -> Seq<Op> {
    seq![
        pin_op(Pin::Rst, true),
        Op::DelayMs(10),
        pin_op(Pin::Rst, false),
        Op::DelayMs(20),
        pin_op(Pin::Rst, true),
        Op::DelayMs(150),
    ] + cmd_ops(CMD_SWRESET) + seq![Op::DelayMs(150)] + cmd_ops(CMD_SLPOUT) + seq![
        Op::DelayMs(255),
    ] + cmd_data_ops(CMD_COLMOD, seq![COLMOD_RGB565]) + cmd_data_ops(
        CMD_MADCTL,
        seq![MADCTL_LANDSCAPE_BGR],
    ) + cmd_data_ops(CMD_CASET, seq![0x00u8, 0x00, 0x01, 0x3F]) + cmd_data_ops(
        CMD_RASET,
        seq![0x00u8, 0x00, 0x00, 0xEF],
    ) + cmd_ops(CMD_DISPON) + seq![Op::DelayMs(10)]
}

/// Records a busy-wait of `ms` milliseconds between two operations.
pub fn delay_op(bus: &mut Bus, ms: u32)
    ensures
        final(bus)@ == old(bus)@.push(Op::DelayMs(ms)),
{
    bus.push(BusOp::DelayMs(ms));
}

/// Resets and initialises the panel: hardware reset pulse, software reset,
/// sleep out, RGB565 pixel format, landscape BGR orientation, the full
/// 320 x 240 window, display on.
///
/// The panel is set up in landscape: memory access control 0x28 (rows and
/// columns exchanged, BGR) and columns 0..=319 by rows 0..=239, as the demo
/// and every window of this driver expect. The portrait table of the panel
/// protocol notes (0x48, columns 0..=239 by rows 0..=319) is not what the
/// driver uses.
pub fn tft_init(bus: &mut Bus)
    ensures
        final(bus)@ == old(bus)@ + init_ops(),
{
    // Hardware reset
    rst_high(bus);
    delay_op(bus, 10);
    rst_low(bus);
    delay_op(bus, 20);
    rst_high(bus);
    delay_op(bus, 150);
    // Software reset
    tft_cmd(bus, CMD_SWRESET);
    delay_op(bus, 150);
    // Sleep out
    tft_cmd(bus, CMD_SLPOUT);
    delay_op(bus, 255);
    let colmod: [u8; 1] = [COLMOD_RGB565];
    assert(colmod@ =~= seq![COLMOD_RGB565]);
    tft_cmd_data(bus, CMD_COLMOD, &colmod);
    let madctl: [u8; 1] = [MADCTL_LANDSCAPE_BGR];
    assert(madctl@ =~= seq![MADCTL_LANDSCAPE_BGR]);
    tft_cmd_data(bus, CMD_MADCTL, &madctl);
    // Column address set: 0..319
    let cols: [u8; 4] = [0x00, 0x00, 0x01, 0x3F];
    assert(cols@ =~= seq![0x00u8, 0x00, 0x01, 0x3F]);
    tft_cmd_data(bus, CMD_CASET, &cols);
    // Row address set: 0..239
    let rows: [u8; 4] = [0x00, 0x00, 0x00, 0xEF];
    assert(rows@ =~= seq![0x00u8, 0x00, 0x00, 0xEF]);
    tft_cmd_data(bus, CMD_RASET, &rows);
    tft_cmd(bus, CMD_DISPON);
    delay_op(bus, 10);
    assert(bus@ =~= old(bus)@ + init_ops());
}

} // verus!
