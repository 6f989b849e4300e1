use ch32v003_tft::bus::{Bus, BusOp};
use ch32v003_tft::demo::{
    demo_frame, demo_start, initial_star, project_star, render_char_block, sprite_position,
    star_color, update_star, Star, NUM_STARS, TEXT,
};
use ch32v003_tft::palette::{rainbow_color, rainbow_frame, RAINBOW, RAINBOW_LEN};
use ch32v003_tft::sine::{cos, sin, SINE_LUT};

#[test]
fn sine_and_cosine_from_the_table() {
    assert_eq!(sin(0), 0);
    assert_eq!(sin(64), 127);
    assert_eq!(sin(128), 0);
    assert_eq!(sin(192), -127);
    assert_eq!(sin(1), 3);
    assert_eq!(cos(0), 127);
    assert_eq!(cos(64), 0);
    assert_eq!(cos(128), -127);
    assert_eq!(cos(192), 0);
    assert_eq!(cos(255), sin(63));
}

#[test]
fn sine_table_is_odd_over_half_a_turn_and_bounded() {
    for a in 0..=255u8 {
        assert_eq!(sin(a.wrapping_add(128)), -sin(a));
        assert_eq!(cos(a), sin(a.wrapping_add(64)));
        assert!((-127..=127).contains(&sin(a)));
    }
    assert_eq!(SINE_LUT.len(), 256);
}

#[test]
fn stars_start_spread_over_the_field() {
    assert_eq!(initial_star(0), Star { x: 0, y: 0, z: 0 });
    assert_eq!(initial_star(1), Star { x: 37, y: 59, z: 17 });
    // 177 wraps to -79 as an i8
    assert_eq!(initial_star(3), Star { x: 111, y: -79, z: 51 });
    assert_eq!(initial_star(39), Star { x: (39 * 37 % 255) as u8 as i8, y: (39 * 59 % 255) as u8 as i8, z: (39 * 17 % 255) as u8 });
}

#[test]
fn stars_project_towards_the_centre() {
    assert_eq!(project_star(Star { x: 10, y: -10, z: 128 }), (170, 110));
    assert_eq!(project_star(Star { x: -3, y: 5, z: 7 }), (160 - 54, 120 + 91));
    assert_eq!(project_star(Star { x: 127, y: 127, z: 1 }), (160 + 127 * 128, 120 + 127 * 128));
}

#[test]
fn star_colours_dim_with_depth() {
    assert_eq!(star_color(255), 0x4208);
    assert_eq!(star_color(201), 0x4208);
    assert_eq!(star_color(200), 0x8410);
    assert_eq!(star_color(101), 0x8410);
    assert_eq!(star_color(100), 0xFFFF);
    assert_eq!(star_color(1), 0xFFFF);
}

#[test]
fn unplaced_star_moves_and_is_drawn() {
    let mut bus = Bus::new();
    let mut s = Star { x: 0, y: 0, z: 0 };
    update_star(&mut bus, &mut s);
    // 0 - 4 wraps to 252; the star at the centre is drawn dim
    assert_eq!(s, Star { x: 0, y: 0, z: 252 });
    assert_eq!(bus.op(bus.len() - 3), &BusOp::SpiByte(0x42));
    assert_eq!(bus.op(bus.len() - 2), &BusOp::SpiByte(0x08));
}

#[test]
fn star_reaching_the_camera_respawns() {
    let mut bus = Bus::new();
    let mut s = Star { x: 1, y: 1, z: 4 };
    update_star(&mut bus, &mut s);
    assert_eq!(s.z, 255);
}

#[test]
fn star_leaving_the_screen_respawns() {
    let mut bus = Bus::new();
    let mut s = Star { x: 24, y: 0, z: 20 };
    update_star(&mut bus, &mut s);
    // 160 + 24 * 128 / 20 = 313 is on screen and erased; 160 + 24 * 128 / 16
    // = 352 is off screen, so the star goes back to depth 255 undrawn
    assert_eq!(s.z, 255);
    let pixel_ops = 2 * (4 + 4 * 4) + 4 + 5;
    assert_eq!(bus.len(), pixel_ops);
    assert_eq!(bus.op(bus.len() - 3), &BusOp::SpiByte(0));
}

#[test]
fn sprite_follows_the_sine_path_on_screen() {
    assert_eq!(sprite_position(0), (144, 208));
    // frame 32: sin(64) = 127, cos(96) = sin(160) = -90
    assert_eq!(sin(160), -90);
    assert_eq!(sprite_position(32), (288, (104 + (-90i32 * 104) / 127) as u16));
    assert_eq!(sprite_position(32), (288, 31));
    for f in 0..=255u8 {
        let (x, y) = sprite_position(f);
        assert!(x + 32 <= 320 && y + 32 <= 240);
    }
}

#[test]
fn glyph_block_is_twice_the_glyph() {
    let glyph = [0b0000_0011u8, 0, 0, 0, 0, 0, 0, 0b1000_0000];
    let buf = render_char_block(&glyph, 0xABCD);
    assert_eq!(buf.len(), 512);
    let px = |r: usize, c: usize| (buf[2 * (16 * r + c)] as u16) << 8 | buf[2 * (16 * r + c) + 1] as u16;
    for r in 0..16 {
        for c in 0..16 {
            let on = (r < 2 && c < 4) || (r >= 14 && c >= 14);
            assert_eq!(px(r, c), if on { 0xABCD } else { 0 }, "pixel {} {}", r, c);
        }
    }
}

#[test]
fn banner_text() {
    assert_eq!(&TEXT, b"SuDni like Rust & AI      ");
}

#[test]
fn demo_starts_black_and_scrolls_left() {
    let font = vec![[0xFFu8; 8]; 128];
    let sprite = vec![0u8; 2048];
    let mut bus = Bus::new();
    let mut state = demo_start(&mut bus);
    assert_eq!(bus.op(bus.len() - 4), &BusOp::DmaFill16 { color: 0, count: 38400 });
    assert_eq!(state.frame(), 0);
    assert_eq!(state.scroll_x(), 320);
    assert_eq!(state.sprite_at(), (0, 0));
    for i in 0..NUM_STARS {
        assert_eq!(state.star(i), initial_star(i));
    }
    demo_frame(&mut bus, &mut state, &sprite, &font);
    assert_eq!(state.frame(), 1);
    assert_eq!(state.scroll_x(), 318);
    assert_eq!(state.sprite_at(), sprite_position(0));
    for i in 0..NUM_STARS {
        assert!(state.star(i).z > 0);
    }
}

#[test]
fn banner_wraps_around_after_leaving_the_screen() {
    let font = vec![[0u8; 8]; 128];
    let sprite = vec![0u8; 2048];
    let mut bus = Bus::new();
    let mut state = demo_start(&mut bus);
    let mut lowest = i32::MAX;
    for _ in 0..400 {
        bus.clear();
        demo_frame(&mut bus, &mut state, &sprite, &font);
        lowest = lowest.min(state.scroll_x());
        assert!((-416..=320).contains(&state.scroll_x()));
    }
    assert_eq!(lowest, -416);
    // 369 frames reach -418 < -416 and start over at the right edge
    assert_eq!(state.scroll_x(), 320 - 2 * (400 - 369));
}

#[test]
fn rainbow_cycles_through_its_colours() {
    assert_eq!(RAINBOW_LEN, 224);
    assert_eq!(rainbow_color(0), 0xF800);
    assert_eq!(rainbow_color(37), 0xFFC0);
    assert_eq!(rainbow_color(223), 0xF800);
    assert_eq!(rainbow_color(224), 0xF800);
    assert_eq!(rainbow_color(225), RAINBOW[1]);
    let mut bus = Bus::new();
    assert_eq!(rainbow_frame(&mut bus, 5), 6);
    assert_eq!(rainbow_frame(&mut bus, usize::MAX), 0);
    assert_eq!(bus.op(bus.len() - 1), &BusOp::DelayMs(20));
}

#[test]
fn rainbow_repeats_every_224_frames() {
    for idx in [0usize, 1, 100, 223, 1000] {
        assert_eq!(rainbow_color(idx + 224), rainbow_color(idx));
    }
}
