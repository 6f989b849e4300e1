use ch32v003_tft::bus::{Bus, BusOp, Pin};
use ch32v003_tft::ili9341::{
    cs_high, cs_low, dc_cmd, dc_data, rst_high, rst_low, set_window, tft_cmd, tft_cmd_data,
    tft_data, tft_draw_pixel, tft_draw_sprite, tft_fill_dma, tft_init, FILL_CHUNK, HEIGHT, WIDTH,
};

fn ops(bus: &Bus) -> Vec<&BusOp> {
    (0..bus.len()).map(|i| bus.op(i)).collect()
}

fn pin(pin: Pin, high: bool) -> BusOp {
    BusOp::PinWrite { pin, high }
}

/// The operations of a command byte.
fn cmd(c: u8) -> Vec<BusOp> {
    vec![pin(Pin::Dc, false), pin(Pin::Cs, false), BusOp::SpiByte(c), pin(Pin::Cs, true)]
}

/// The operations of a data byte.
fn data(b: u8) -> Vec<BusOp> {
    vec![pin(Pin::Dc, true), pin(Pin::Cs, false), BusOp::SpiByte(b), pin(Pin::Cs, true)]
}

fn cmd_data(c: u8, args: &[u8]) -> Vec<BusOp> {
    let mut v = cmd(c);
    for &b in args {
        v.extend(data(b));
    }
    v
}

fn owned(bus: &Bus) -> Vec<String> {
    ops(bus).iter().map(|o| format!("{:?}", o)).collect()
}

fn expected(v: &[BusOp]) -> Vec<String> {
    v.iter().map(|o| format!("{:?}", o)).collect()
}

#[test]
fn control_line_helpers() {
    let mut bus = Bus::new();
    cs_low(&mut bus);
    cs_high(&mut bus);
    dc_cmd(&mut bus);
    dc_data(&mut bus);
    rst_low(&mut bus);
    rst_high(&mut bus);
    assert_eq!(
        owned(&bus),
        expected(&[
            pin(Pin::Cs, false),
            pin(Pin::Cs, true),
            pin(Pin::Dc, false),
            pin(Pin::Dc, true),
            pin(Pin::Rst, false),
            pin(Pin::Rst, true),
        ])
    );
}

#[test]
fn command_and_data_bytes() {
    let mut bus = Bus::new();
    tft_cmd(&mut bus, 0x29);
    tft_data(&mut bus, 0x55);
    tft_cmd_data(&mut bus, 0x36, &[0x28, 0x01]);
    let mut want = cmd(0x29);
    want.extend(data(0x55));
    want.extend(cmd_data(0x36, &[0x28, 0x01]));
    assert_eq!(owned(&bus), expected(&want));
}

#[test]
fn window_sends_start_and_end_most_significant_byte_first() {
    let mut bus = Bus::new();
    set_window(&mut bus, 300, 20, 20, 7);
    let mut want = cmd_data(0x2A, &[0x01, 0x2C, 0x01, 0x3F]);
    want.extend(cmd_data(0x2B, &[0x00, 0x14, 0x00, 0x1A]));
    want.extend(cmd(0x2C));
    assert_eq!(owned(&bus), expected(&want));
}

#[test]
fn window_of_zero_width_ends_before_it_starts() {
    let mut bus = Bus::new();
    set_window(&mut bus, 5, 0, 0, 1);
    let mut want = cmd_data(0x2A, &[0x00, 0x05, 0x00, 0x04]);
    want.extend(cmd_data(0x2B, &[0x00, 0x00, 0x00, 0x00]));
    want.extend(cmd(0x2C));
    assert_eq!(owned(&bus), expected(&want));
}

#[test]
fn pixel_is_a_one_by_one_window_and_two_bytes() {
    let mut bus = Bus::new();
    tft_draw_pixel(&mut bus, 319, 239, 0xF81F);
    let mut want = cmd_data(0x2A, &[0x01, 0x3F, 0x01, 0x3F]);
    want.extend(cmd_data(0x2B, &[0x00, 0xEF, 0x00, 0xEF]));
    want.extend(cmd(0x2C));
    want.extend(vec![
        pin(Pin::Dc, true),
        pin(Pin::Cs, false),
        BusOp::SpiByte(0xF8),
        BusOp::SpiByte(0x1F),
        pin(Pin::Cs, true),
    ]);
    assert_eq!(owned(&bus), expected(&want));
}

#[test]
fn sprite_is_one_dma_transfer_in_its_window() {
    let mut bus = Bus::new();
    let pixels = [0x12u8, 0x34, 0x56, 0x78];
    tft_draw_sprite(&mut bus, 10, 11, 2, 1, &pixels);
    let mut want = cmd_data(0x2A, &[0x00, 0x0A, 0x00, 0x0B]);
    want.extend(cmd_data(0x2B, &[0x00, 0x0B, 0x00, 0x0B]));
    want.extend(cmd(0x2C));
    want.extend(vec![
        pin(Pin::Dc, true),
        pin(Pin::Cs, false),
        BusOp::DmaTx(pixels.to_vec()),
        BusOp::WaitIdle,
        pin(Pin::Cs, true),
    ]);
    assert_eq!(owned(&bus), expected(&want));
}

#[test]
fn fill_is_two_half_screen_bursts_of_sixteen_bit_frames() {
    let mut bus = Bus::new();
    tft_fill_dma(&mut bus, 0x07E0);
    assert_eq!(FILL_CHUNK * 2, WIDTH as u32 * HEIGHT as u32);
    assert!(FILL_CHUNK <= 0xFFFF);
    let mut want = cmd_data(0x2A, &[0x00, 0x00, 0x01, 0x3F]);
    want.extend(cmd_data(0x2B, &[0x00, 0x00, 0x00, 0xEF]));
    want.extend(cmd(0x2C));
    want.extend(vec![
        BusOp::SpiFrame16(true),
        pin(Pin::Dc, true),
        pin(Pin::Cs, false),
        BusOp::DmaFill16 { color: 0x07E0, count: 38400 },
        BusOp::DmaFill16 { color: 0x07E0, count: 38400 },
        BusOp::WaitIdle,
        pin(Pin::Cs, true),
        BusOp::SpiFrame16(false),
    ]);
    assert_eq!(owned(&bus), expected(&want));
}

#[test]
fn init_sequence() {
    let mut bus = Bus::new();
    tft_init(&mut bus);
    let mut want = vec![
        pin(Pin::Rst, true),
        BusOp::DelayMs(10),
        pin(Pin::Rst, false),
        BusOp::DelayMs(20),
        pin(Pin::Rst, true),
        BusOp::DelayMs(150),
    ];
    want.extend(cmd(0x01));
    want.push(BusOp::DelayMs(150));
    want.extend(cmd(0x11));
    want.push(BusOp::DelayMs(255));
    want.extend(cmd_data(0x3A, &[0x55]));
    want.extend(cmd_data(0x36, &[0x28]));
    want.extend(cmd_data(0x2A, &[0x00, 0x00, 0x01, 0x3F]));
    want.extend(cmd_data(0x2B, &[0x00, 0x00, 0x00, 0xEF]));
    want.extend(cmd(0x29));
    want.push(BusOp::DelayMs(10));
    assert_eq!(owned(&bus), expected(&want));
}
