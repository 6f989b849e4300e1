//! Driver logic for an ILI9341 / ST7789 320x240 TFT panel on SPI1 + DMA1 of a
//! WCH CH32V003, with the C64-style demo that runs on it.
pub mod bus;
pub mod gpio;
pub mod delay;
pub mod spi;
pub mod ili9341;
pub mod backlight;
pub mod sine;
pub mod demo;
pub mod palette;
pub mod grid;
pub mod panel;
pub mod screen;
pub mod frame;
