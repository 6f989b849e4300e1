//! Runs recorded operations through a small ILI9341 simulator and checks what
//! ends up in its frame memory.
use std::collections::HashMap;

use ch32v003_tft::bus::{Bus, BusOp, Pin};
use ch32v003_tft::demo::{demo_frame, demo_start, draw_char_block, erase_block};
use ch32v003_tft::palette::{rainbow_frame, RAINBOW};
use ch32v003_tft::ili9341::{tft_draw_pixel, tft_draw_sprite, tft_fill_dma, tft_init};

#[derive(Default)]
struct Sim {
    cs_active: bool,
    dc_data: bool,
    frame16: bool,
    busy: bool,
    glitch: bool,
    col: (i32, i32),
    row: (i32, i32),
    cmd: u8,
    args: Vec<u8>,
    cursor: (i32, i32),
    hi: Option<u8>,
    gram: HashMap<(i32, i32), u16>,
    writes: u32,
    writes_off_screen: u32,
}

impl Sim {
    fn receive(&mut self, data: bool, b: u8) {
        if !data {
            self.cmd = b;
            self.args.clear();
            self.hi = None;
            if b == 0x2C {
                self.cursor = (self.col.0, self.row.0);
                self.writes += 1;
                let on_screen = 0 <= self.col.0
                    && self.col.0 <= self.col.1
                    && self.col.1 < 320
                    && 0 <= self.row.0
                    && self.row.0 <= self.row.1
                    && self.row.1 < 240;
                if !on_screen {
                    self.writes_off_screen += 1;
                }
            }
        } else if (self.cmd == 0x2A || self.cmd == 0x2B) && self.args.len() < 4 {
            self.args.push(b);
            if self.args.len() == 4 {
                let a = &self.args;
                let range = (a[0] as i32 * 256 + a[1] as i32, a[2] as i32 * 256 + a[3] as i32);
                if self.cmd == 0x2A {
                    self.col = range;
                } else {
                    self.row = range;
                }
            }
        } else if self.cmd == 0x2C {
            match self.hi.take() {
                None => self.hi = Some(b),
                Some(h) => {
                    self.gram.insert(self.cursor, (h as u16) << 8 | b as u16);
                    if self.cursor.0 < self.col.1 {
                        self.cursor.0 += 1;
                    } else {
                        self.cursor.0 = self.col.0;
                        self.cursor.1 =
                            if self.cursor.1 < self.row.1 { self.cursor.1 + 1 } else { self.row.0 };
                    }
                }
            }
        }
    }

    fn send(&mut self, v: u16) {
        if !self.cs_active {
            return;
        }
        let dc = self.dc_data;
        if self.frame16 {
            self.receive(dc, (v >> 8) as u8);
        }
        self.receive(dc, v as u8);
    }

    fn run(&mut self, bus: &Bus) {
        for i in 0..bus.len() {
            match bus.op(i) {
                BusOp::PinWrite { pin: Pin::Cs, high } => {
                    self.glitch |= self.busy;
                    self.cs_active = !high;
                }
                BusOp::PinWrite { pin: Pin::Dc, high } => {
                    self.glitch |= self.busy;
                    self.dc_data = *high;
                }
                BusOp::PinWrite { pin: Pin::Rst, .. } => {}
                BusOp::DelayMs(_) => {}
                BusOp::SpiByte(b) => {
                    self.send(*b as u16);
                    self.busy = false;
                }
                BusOp::SpiFrame16(on) => {
                    self.glitch |= self.busy;
                    self.frame16 = *on;
                }
                BusOp::DmaTx(bytes) => {
                    for &b in bytes {
                        self.send(b as u16);
                    }
                    self.busy = !bytes.is_empty() || self.busy;
                }
                BusOp::DmaFill16 { color, count } => {
                    for _ in 0..*count {
                        self.send(*color);
                    }
                    self.busy = *count > 0 || self.busy;
                }
                BusOp::WaitIdle => self.busy = false,
                BusOp::BacklightInit(_) | BusOp::BacklightDuty(_) => {}
            }
        }
    }

    fn at_rest(&self) -> bool {
        !self.cs_active && !self.frame16 && !self.busy && !self.glitch
    }
}

fn run(bus: &Bus) -> Sim {
    let mut sim = Sim::default();
    sim.gram.insert((-1, -1), 0xABCD);
    sim.gram.insert((400, 3), 0x1234);
    sim.run(bus);
    sim
}

#[test]
fn fill_paints_every_cell_of_the_screen() {
    let mut bus = Bus::new();
    tft_fill_dma(&mut bus, 0xF800);
    let sim = run(&bus);
    assert!(sim.at_rest());
    for y in 0..240 {
        for x in 0..320 {
            assert_eq!(sim.gram.get(&(x, y)), Some(&0xF800));
        }
    }
    assert_eq!(sim.gram.len(), 320 * 240 + 2);
    assert_eq!(sim.gram.get(&(-1, -1)), Some(&0xABCD));
    assert_eq!(sim.gram.get(&(400, 3)), Some(&0x1234));
}

#[test]
fn pixel_paints_exactly_one_cell() {
    let mut bus = Bus::new();
    tft_draw_pixel(&mut bus, 17, 200, 0x1234);
    tft_draw_pixel(&mut bus, 300, 5, 0xBEEF);
    let sim = run(&bus);
    assert!(sim.at_rest());
    assert_eq!(sim.gram.len(), 4);
    assert_eq!(sim.gram.get(&(17, 200)), Some(&0x1234));
    assert_eq!(sim.gram.get(&(300, 5)), Some(&0xBEEF));
}

#[test]
fn sprite_paints_its_block_row_by_row() {
    let mut bus = Bus::new();
    let data: Vec<u8> = (0..2 * 3 * 2).map(|i| i as u8).collect();
    tft_draw_sprite(&mut bus, 100, 50, 3, 2, &data);
    let sim = run(&bus);
    assert!(sim.at_rest());
    assert_eq!(sim.gram.len(), 6 + 2);
    for j in 0..2 {
        for i in 0..3 {
            let k = (j * 3 + i) as usize;
            let want = (data[2 * k] as u16) << 8 | data[2 * k + 1] as u16;
            assert_eq!(sim.gram.get(&(100 + i, 50 + j)), Some(&want));
        }
    }
}

#[test]
fn erase_paints_its_block_black() {
    let mut bus = Bus::new();
    tft_fill_dma(&mut bus, 0xFFFF);
    erase_block(&mut bus, 10, 20, 32, 32);
    let sim = run(&bus);
    assert!(sim.at_rest());
    for y in 0..240 {
        for x in 0..320 {
            let inside = (10..42).contains(&x) && (20..52).contains(&y);
            assert_eq!(sim.gram.get(&(x, y)), Some(if inside { &0 } else { &0xFFFF }));
        }
    }
}

fn glyph_font() -> Vec<[u8; 8]> {
    let mut font = vec![[0u8; 8]; 128];
    // 'A' lights column 0 of row 0 and columns 1 and 7 of row 7
    font[b'A' as usize] = [0x01, 0, 0, 0, 0, 0, 0, 0x82];
    font
}

fn lit(x: i32, y: i32) -> bool {
    // block pixel (row y, column x) of 'A' scaled 2x
    let (r, c) = (y / 2, x / 2);
    (r == 0 && c == 0) || (r == 7 && (c == 1 || c == 7))
}

#[test]
fn char_block_scales_the_glyph_twice() {
    let font = glyph_font();
    let mut bus = Bus::new();
    draw_char_block(&mut bus, &font, b'A', 40, 220, 0x07E0);
    let sim = run(&bus);
    assert!(sim.at_rest());
    assert_eq!(sim.gram.len(), 256 + 2);
    for r in 0..16 {
        for c in 0..16 {
            let want = if lit(c, r) { 0x07E0 } else { 0 };
            assert_eq!(sim.gram.get(&(40 + c, 220 + r)), Some(&want));
        }
    }
}

#[test]
fn char_block_is_clipped_at_the_left_edge() {
    let font = glyph_font();
    let mut bus = Bus::new();
    draw_char_block(&mut bus, &font, b'A' | 0x80, -3, 220, 0xFFE0);
    let sim = run(&bus);
    assert!(sim.at_rest());
    assert_eq!(sim.gram.len(), 13 * 16 + 2);
    for r in 0..16 {
        for j in 0..13 {
            let want = if lit(3 + j, r) { 0xFFE0 } else { 0 };
            assert_eq!(sim.gram.get(&(j, 220 + r)), Some(&want));
        }
    }
}

#[test]
fn char_block_is_clipped_at_the_right_edge() {
    let font = glyph_font();
    let mut bus = Bus::new();
    draw_char_block(&mut bus, &font, b'A', 310, 220, 0x07E0);
    let sim = run(&bus);
    assert!(sim.at_rest());
    assert_eq!(sim.gram.len(), 10 * 16 + 2);
    for r in 0..16 {
        for j in 0..10 {
            let want = if lit(j, r) { 0x07E0 } else { 0 };
            assert_eq!(sim.gram.get(&(310 + j, 220 + r)), Some(&want));
        }
    }
}

#[test]
fn char_block_off_screen_draws_nothing() {
    let font = glyph_font();
    let mut bus = Bus::new();
    draw_char_block(&mut bus, &font, b'A', -16, 220, 0x07E0);
    draw_char_block(&mut bus, &font, b'A', 320, 220, 0x07E0);
    assert_eq!(bus.len(), 0);
}

#[test]
fn init_sets_the_full_screen_window() {
    let mut bus = Bus::new();
    tft_init(&mut bus);
    let sim = run(&bus);
    assert!(sim.at_rest());
    assert_eq!(sim.col, (0, 319));
    assert_eq!(sim.row, (0, 239));
    assert_eq!(sim.gram.len(), 2);
}

#[test]
fn demo_frames_stay_on_screen() {
    let font = glyph_font();
    let sprite: Vec<u8> = (0..2048).map(|i| (i * 7) as u8).collect();
    let mut bus = Bus::new();
    let mut state = demo_start(&mut bus);
    let mut sim = Sim::default();
    sim.gram.insert((-1, -1), 0xABCD);
    sim.gram.insert((400, 3), 0x1234);
    sim.run(&bus);
    for _ in 0..300 {
        bus.clear();
        demo_frame(&mut bus, &mut state, &sprite, &font);
        sim.run(&bus);
        assert!(sim.at_rest());
    }
    // every memory write of the start and of each frame had its window on screen
    assert!(sim.writes > 300);
    assert_eq!(sim.writes_off_screen, 0);
    for (&(x, y), _) in sim.gram.iter() {
        assert!((0..320).contains(&x) && (0..240).contains(&y) || (x, y) == (-1, -1) || (x, y) == (400, 3));
    }
    assert_eq!(sim.gram.get(&(-1, -1)), Some(&0xABCD));
    assert_eq!(sim.gram.get(&(400, 3)), Some(&0x1234));
}

#[test]
fn rainbow_frames_fill_the_screen_with_their_colour() {
    let mut bus = Bus::new();
    let next = rainbow_frame(&mut bus, 230);
    assert_eq!(next, 231);
    let sim = run(&bus);
    assert!(sim.at_rest());
    for y in 0..240 {
        for x in 0..320 {
            assert_eq!(sim.gram.get(&(x, y)), Some(&RAINBOW[230 % 224]));
        }
    }
}

#[test]
fn neighbouring_banner_characters_differ_in_colour() {
    let font = vec![[0xFFu8; 8]; 128];
    let sprite = vec![0u8; 2048];
    let mut bus = Bus::new();
    let mut state = demo_start(&mut bus);
    for _ in 0..30 {
        demo_frame(&mut bus, &mut state, &sprite, &font);
    }
    // the 30th frame drew the banner from x = 262
    let sim = run(&bus);
    let first = sim.gram.get(&(262 + 8, 228)).copied();
    let second = sim.gram.get(&(262 + 16 + 8, 228)).copied();
    assert!(first == Some(0x07E0) || first == Some(0xFFE0));
    assert!(second == Some(0x07E0) || second == Some(0xFFE0));
    assert_ne!(first, second);
}

#[test]
fn char_block_ignores_bit_7_of_the_character() {
    let mut font = glyph_font();
    // a glyph in the upper half of a larger font must never be used
    font.resize(256, [0xFF; 8]);
    for &(ch, x) in &[(b'A', 40), (b'A', -3), (b'A', 310), (0x00, 100), (0x7F, 0), (0x80, 8)] {
        let mut high = Bus::new();
        draw_char_block(&mut high, &font, ch | 0x80, x, 100, 0x07E0);
        let mut low = Bus::new();
        draw_char_block(&mut low, &font, ch & 0x7F, x, 100, 0x07E0);
        let mut plain = Bus::new();
        draw_char_block(&mut plain, &font, ch, x, 100, 0x07E0);
        assert_eq!(high.len(), low.len());
        assert_eq!(plain.len(), low.len());
        for i in 0..low.len() {
            assert_eq!(high.op(i), low.op(i));
            assert_eq!(plain.op(i), low.op(i));
        }
    }
}

#[test]
fn window_off_screen_is_counted_by_the_simulator() {
    let mut bus = Bus::new();
    tft_draw_pixel(&mut bus, 5, 5, 0xFFFF);
    tft_draw_pixel(&mut bus, 400, 5, 0xFFFF);
    let sim = run(&bus);
    assert_eq!(sim.writes, 2);
    assert_eq!(sim.writes_off_screen, 1);
}
