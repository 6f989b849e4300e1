//! Backlight brightness through TIM1 channel 1 PWM on PD2.
use vstd::prelude::*;
use crate::bus::{Bus, BusOp, Op};

verus! {

/// TIM1 prescaler: 48 MHz / (47 + 1) = 1 MHz counter clock.
pub const BACKLIGHT_PRESCALER: u16 = 47;

/// TIM1 auto-reload value, the PWM period in counter ticks.
pub const BACKLIGHT_RELOAD: u16 = 100;

/// Full brightness: the largest compare value that [`set_backlight`] writes.
pub const MAX_BRIGHTNESS: u16 = 100;

/// How TIM1 channel 1 drives the backlight on PD2.
#[derive(Clone, Copy, PartialEq, Eq, Structural, Debug)]
pub struct BacklightConfig {
    /// TIM1EN in RCC APB2PCENR: clock the timer.
    pub timer_clock: bool,
    /// MODE2 of GPIOD CFGLR: 0b11, output at 50 MHz.
    pub pin_mode: u8,
    /// CNF2 of GPIOD CFGLR: 0b10, alternate-function push-pull.
    pub pin_cnf: u8,
    /// PSC: the counter clock is 48 MHz / (prescaler + 1).
    pub prescaler: u16,
    /// ATRLR: the PWM period in counter ticks.
    pub reload: u16,
    /// OC1M of CHCTLR1: 0b110, PWM mode 1 (output high while the counter is
    /// below the compare value).
    pub output_mode: u8,
    /// OC1PE of CHCTLR1: compare value preload.
    pub preload: bool,
    /// CC1E of CCER: channel 1 output enable.
    pub channel_output: bool,
    /// MOE of BDTR: main output enable, which TIM1 needs.
    pub main_output: bool,
    /// CEN of CTLR1: start the counter.
    pub counter_enable: bool,
}

/// The backlight timer set-up: PD2 as alternate-function push-pull at 50 MHz,
/// a 1 MHz counter with a period of 100 ticks, PWM mode 1 with preload, the
/// channel and main outputs enabled, the counter running.
pub open spec fn spec_backlight_config() -> BacklightConfig {
    BacklightConfig {
        timer_clock: true,
        pin_mode: 0b11,
        pin_cnf: 0b10,
        prescaler: BACKLIGHT_PRESCALER,
        reload: BACKLIGHT_RELOAD,
        output_mode: 0b110,
        preload: true,
        channel_output: true,
        main_output: true,
        counter_enable: true,
    }
}

/// The backlight timer set-up of [`init_backlight`].
pub fn backlight_config() -> (c: BacklightConfig)
    ensures
        c == spec_backlight_config(),
{
    BacklightConfig {
        timer_clock: true,
        pin_mode: 0b11,
        pin_cnf: 0b10,
        prescaler: BACKLIGHT_PRESCALER,
        reload: BACKLIGHT_RELOAD,
        output_mode: 0b110,
        preload: true,
        channel_output: true,
        main_output: true,
        counter_enable: true,
    }
}

/// The compare value written for a requested `level`: `level`, at most 100.
pub open spec fn duty_for(level: u16) -> u16 {
    if level > MAX_BRIGHTNESS {
        MAX_BRIGHTNESS
    } else {
        level
    }
}

/// Sets the backlight brightness from 0 (off) to 100 (full); larger levels
/// give full brightness.
pub fn set_backlight(bus: &mut Bus, level: u16)
    ensures
        final(bus)@ == old(bus)@.push(Op::BacklightDuty(duty_for(level))),
        duty_for(level) <= MAX_BRIGHTNESS,
{
    let mut safe_level = level;
    if safe_level > MAX_BRIGHTNESS {
        safe_level = MAX_BRIGHTNESS;
    }
    bus.push(BusOp::BacklightDuty(safe_level));
}

/// Starts TIM1 channel 1 in PWM mode 1 with a 1 MHz counter and a period of
/// 100 ticks on PD2, with the backlight off.
pub fn init_backlight(bus: &mut Bus)
    ensures
        final(bus)@ == old(bus)@ + seq![
            Op::BacklightInit(spec_backlight_config()),
            Op::BacklightDuty(0),
        ],
{
    bus.push(BusOp::BacklightInit(backlight_config()));
    set_backlight(bus, 0);
    assert(bus@ =~= old(bus)@ + seq![
        Op::BacklightInit(spec_backlight_config()),
        Op::BacklightDuty(0),
    ]);
}

} // verus!
