# ch32v003_tft

A verified driver for an ILI9341 / ST7789 320 x 240 TFT panel wired to the
SPI1 and DMA1 of a WCH CH32V003, with a C64-style demo (starfield, bouncing
sprite, scrolling banner) and a colour-cycling main loop.

## Layout

- `src/` — the library, written in Verus and verified.
  - `bus.rs` — the peripheral operations the driver asks for (control lines,
    polled SPI bytes, DMA bursts, frame size, delays, backlight), recorded in
    order on a `Bus`.
  - `gpio.rs` — output-register arithmetic for the CS, DC and RST lines.
  - `delay.rs` — busy-wait delays.
  - `spi.rs` — SPI1 transfers and the DMA1 channel 3 configurations.
  - `ili9341.rs` — commands, the initialisation sequence, address windows,
    pixels, sprites and full-screen fills.
  - `backlight.rs` — TIM1 PWM backlight.
  - `sine.rs`, `demo.rs` — the demo's sine table, stars, sprite path, character
    blocks, banner and frames.
  - `palette.rs` — the rainbow of the colour-cycling loop.
  - `panel.rs`, `grid.rs` — a model of what the panel receives on the SPI
    lines and how it turns those bytes into pixels of its frame memory.
  - `screen.rs` — what each drawing routine leaves in that frame memory.
  - `frame.rs` — what a whole demo frame, the demo from its start through any
    number of frames, and a colour-cycling frame do to the panel: every
    memory write starts in an address window on the 320 x 240 screen, no cell
    off the screen changes, and the lines end at rest.
- `tests/` — tests of the library, including a small panel simulator.
- `app/` — the firmware: clock, GPIO and SPI bring-up with the `ch32v0`
  peripheral access crate, and the code that performs the recorded
  operations on the real registers.

## Memory

The library records each operation on a `Bus` (a `Vec`) and `app/` performs
them afterwards, one frame at a time. A demo frame records a few thousand
operations, each banner character carrying its 512-byte pixel block, so this
design needs a heap of some tens of kilobytes: far more than the 2 KB of SRAM
of a CH32V003. The recorded sequence is what the contracts speak of; on the
chip itself the operations would have to be performed as they are produced.
