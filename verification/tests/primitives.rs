use ch32v003_tft::backlight::{
    backlight_config, init_backlight, set_backlight, BACKLIGHT_PRESCALER, BACKLIGHT_RELOAD,
};
use ch32v003_tft::bus::{Bus, BusOp, Pin};
use ch32v003_tft::delay::{delay_loop_count, delay_ms, delay_us, ms_to_us};
use ch32v003_tft::gpio::{pin_bit, pin_clr, pin_level, pin_port, pin_set, GPIOC_OUTDR, GPIOD_OUTDR};
use ch32v003_tft::spi::{
    dma_fill16_config, dma_tx_config, spi_dma_fill16, spi_dma_tx, spi_tx_byte, DMA_CH3_CLEAR_FLAGS,
    DMA_CH3_TC_FLAG, SPI1_DATAR,
};

fn ops(bus: &Bus) -> Vec<&BusOp> {
    (0..bus.len()).map(|i| bus.op(i)).collect()
}

#[test]
fn bus_records_in_order_and_clears() {
    let mut bus = Bus::new();
    assert_eq!(bus.len(), 0);
    bus.push(BusOp::WaitIdle);
    bus.push(BusOp::SpiByte(7));
    assert_eq!(ops(&bus), vec![&BusOp::WaitIdle, &BusOp::SpiByte(7)]);
    bus.clear();
    assert_eq!(bus.len(), 0);
}

#[test]
fn pin_set_drives_only_its_bit_high() {
    assert_eq!(pin_set(0, 1), 0b10);
    assert_eq!(pin_set(0b1000_0001, 3), 0b1000_1001);
    assert_eq!(pin_set(0xFFFF_FFFF, 31), 0xFFFF_FFFF);
    assert_eq!(pin_set(0x8000_0000, 0), 0x8000_0001);
}

#[test]
fn pin_clr_drives_only_its_bit_low() {
    assert_eq!(pin_clr(0xFF, 3), 0xF7);
    assert_eq!(pin_clr(0, 4), 0);
    assert_eq!(pin_clr(0xFFFF_FFFF, 31), 0x7FFF_FFFF);
}

#[test]
fn control_lines_map_to_pc1_pd3_pd4() {
    assert_eq!((pin_port(Pin::Cs), pin_bit(Pin::Cs)), (GPIOC_OUTDR, 1));
    assert_eq!((pin_port(Pin::Dc), pin_bit(Pin::Dc)), (GPIOD_OUTDR, 3));
    assert_eq!((pin_port(Pin::Rst), pin_bit(Pin::Rst)), (GPIOD_OUTDR, 4));
    assert_eq!(GPIOC_OUTDR, 0x4001_100C);
    assert_eq!(GPIOD_OUTDR, 0x4001_140C);
    assert_eq!(pin_level(0x0000_0010, Pin::Rst, false), 0);
    assert_eq!(pin_level(0, Pin::Dc, true), 0b1000);
    assert_eq!(pin_level(0b1111, Pin::Cs, false), 0b1101);
}

#[test]
fn delay_counts_twelve_loops_per_microsecond() {
    assert_eq!(delay_loop_count(0), 0);
    assert_eq!(delay_loop_count(5), 60);
    assert_eq!(ms_to_us(20), 20_000);
    assert_eq!(delay_loop_count(ms_to_us(20)), 240_000);
    delay_us(3);
    delay_ms(1);
}

#[test]
fn spi_byte_and_dma_transfers() {
    let mut bus = Bus::new();
    spi_tx_byte(&mut bus, 0xA5);
    spi_dma_tx(&mut bus, &[]);
    spi_dma_tx(&mut bus, &[1, 2, 3]);
    spi_dma_fill16(&mut bus, 0xF800, 38400);
    assert_eq!(
        ops(&bus),
        vec![
            &BusOp::SpiByte(0xA5),
            &BusOp::DmaTx(vec![1, 2, 3]),
            &BusOp::DmaFill16 { color: 0xF800, count: 38400 },
        ]
    );
}

#[test]
fn dma_channel_configuration() {
    let tx = dma_tx_config();
    assert!(tx.from_memory && tx.memory_increment && !tx.peripheral_increment);
    assert_eq!((tx.peripheral_size, tx.memory_size, tx.priority), (0, 0, 2));
    assert!(!tx.circular && !tx.mem2mem);
    let fill = dma_fill16_config();
    assert!(fill.from_memory && !fill.memory_increment && !fill.peripheral_increment);
    assert_eq!((fill.peripheral_size, fill.memory_size, fill.priority), (1, 1, 2));
    assert_eq!(SPI1_DATAR, 0x4001_300C);
    assert_eq!(DMA_CH3_CLEAR_FLAGS, 0x0F00);
    assert_eq!(DMA_CH3_TC_FLAG, 1 << 9);
}

#[test]
fn backlight_levels_are_capped_at_full() {
    let mut bus = Bus::new();
    set_backlight(&mut bus, 50);
    set_backlight(&mut bus, 100);
    set_backlight(&mut bus, 101);
    set_backlight(&mut bus, u16::MAX);
    set_backlight(&mut bus, 0);
    assert_eq!(
        ops(&bus),
        vec![
            &BusOp::BacklightDuty(50),
            &BusOp::BacklightDuty(100),
            &BusOp::BacklightDuty(100),
            &BusOp::BacklightDuty(100),
            &BusOp::BacklightDuty(0),
        ]
    );
}

#[test]
fn backlight_starts_off_with_one_mhz_timer() {
    let mut bus = Bus::new();
    init_backlight(&mut bus);
    assert_eq!(BACKLIGHT_PRESCALER, 47);
    assert_eq!(BACKLIGHT_RELOAD, 100);
    assert_eq!(
        ops(&bus),
        vec![&BusOp::BacklightInit(backlight_config()), &BusOp::BacklightDuty(0)]
    );
    let cfg = backlight_config();
    assert!(cfg.timer_clock);
    assert_eq!((cfg.pin_mode, cfg.pin_cnf), (0b11, 0b10));
    assert_eq!((cfg.prescaler, cfg.reload), (47, 100));
    assert_eq!(cfg.output_mode, 0b110);
    assert!(cfg.preload && cfg.channel_output && cfg.main_output && cfg.counter_enable);
}
