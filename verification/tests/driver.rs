use esp32c6::generic::Resettable;
use esp32c6::i2c0::ctr::CTR_SPEC;
use esp32c6::i2c0::data::DATA_SPEC;
use esp32c6::i2c0::int_clr::INT_CLR_SPEC;
use esp32c6::i2c0::sda_hold::SDA_HOLD_SPEC;
use esp32c6::i2c0::sda_sample::SDA_SAMPLE_SPEC;
use esp32c6::i2c0::slave_addr::SLAVE_ADDR_SPEC;
use i2c_slave::config::{Config, ConfigError, Error, ErrorKind, I2cAddress};
use i2c_slave::driver::set_filter;
use i2c_slave::event::{Event, EventSet};
use i2c_slave::fifo::{
    get_tx_fifo_free_size, read_rx_fifo, rx_fifo_read_len, slave_handle_write,
};
use i2c_slave::i2c::{Blocking, I2c};
use i2c_slave::instance::{AnyI2c, Info, Instance};
use i2c_slave::plan::{Action, Plan};
use i2c_slave::platform::{
    DriveMode, InputSignal, InterruptHandler, OutputConfig, OutputSignal, Peripheral,
    PeripheralGuard, Pin, PinGuard, Pull,
};
use i2c_slave::register::{Register, CTR_RESET, FIFO_SIZE};
use i2c_slave::state::State;

const ALL_EVENTS: u32 = 0x1_0489;

fn write(register: Register, value: u32) -> Action {
    Action::Write { register, value }
}

fn modify(register: Register, clear: u32, set: u32) -> Action {
    Action::Modify {
        register,
        clear,
        set,
    }
}

fn info() -> Info {
    Info::new(
        0x6000_4000,
        Peripheral::I2cExt0,
        InterruptHandler {
            handler: 0x4200_1000,
            priority: 3,
        },
        OutputSignal(45),
        InputSignal(45),
        OutputSignal(46),
        InputSignal(46),
    )
}

fn init_slave() -> Vec<Action> {
    vec![
        write(Register::Ctr, 0x000b),
        modify(Register::FifoConf, 0x2000, 0x2000),
        modify(Register::FifoConf, 0x2000, 0),
        modify(Register::Ctr, 0x400, 0x400),
        modify(Register::FifoConf, 0x1000, 0x1000),
        modify(Register::FifoConf, 0x1000, 0),
        modify(Register::FifoConf, 0x400, 0),
    ]
}

fn setup(slave_addr: u32, watermark: u32) -> Vec<Action> {
    let mut actions = init_slave();
    actions.extend(vec![
        write(Register::SlaveAddr, slave_addr),
        modify(Register::To, 0x3f, 0x2e),
        modify(Register::ClkConf, 0x10_0000, 0),
        write(Register::SlaveAddr, slave_addr),
        modify(Register::Ctr, 0x4000, 0),
        modify(Register::FifoConf, 0x43e0, 0x4000),
        modify(Register::FifoConf, 0x4000, 0x4000),
        write(Register::Ctr, 0x0200),
        modify(Register::FifoConf, 0x1f, watermark),
        write(Register::SdaHold, 10),
        write(Register::SdaSample, 10),
        modify(Register::IntEna, 0x3fff, 0),
        write(Register::IntClr, 0x3fff),
        modify(Register::SclStretchConf, 0x7ff, 0x7ff),
        modify(Register::SclStretchConf, 0x800, 0x800),
        modify(Register::FilterCfg, 0x3ff, 0x377),
        modify(Register::Ctr, 0x800, 0x800),
    ]);
    actions
}

fn set_handler(handler: usize, priority: u8) -> Vec<Action> {
    vec![
        Action::DisableInterrupt {
            peripheral: Peripheral::I2cExt0,
        },
        modify(Register::IntEna, ALL_EVENTS, 0),
        write(Register::IntClr, ALL_EVENTS),
        Action::BindInterrupt {
            peripheral: Peripheral::I2cExt0,
            handler,
        },
        Action::EnableInterrupt {
            peripheral: Peripheral::I2cExt0,
            priority,
        },
    ]
}

fn driver() -> I2c<Blocking> {
    let mut plan = Plan::new();
    I2c::new(AnyI2c::I2C0(info()), Config::default(), &mut plan).unwrap()
}

/// What a register holds after actions, from a value on.
fn held(actions: &[Action], wanted: Register, start: u32) -> u32 {
    let mut held = start;
    for action in actions {
        match *action {
            Action::Write { register, value } if register == wanted => held = value,
            Action::Modify {
                register,
                clear,
                set,
            } if register == wanted => held = (held & !clear) | set,
            _ => {}
        }
    }
    held
}

#[test]
fn reset_values_are_those_of_the_register_map() {
    assert_eq!(CTR_SPEC::RESET_VALUE, CTR_RESET);
    assert_eq!(SLAVE_ADDR_SPEC::RESET_VALUE, 0);
    assert_eq!(SDA_HOLD_SPEC::RESET_VALUE, 0);
    assert_eq!(SDA_SAMPLE_SPEC::RESET_VALUE, 0);
    assert_eq!(INT_CLR_SPEC::RESET_VALUE, 0);
    assert_eq!(DATA_SPEC::RESET_VALUE, 0);
}

#[test]
fn new_driver_is_set_up() {
    let mut plan = Plan::new();
    let result = I2c::new(AnyI2c::I2C0(info()), Config::default(), &mut plan);
    assert!(result.is_ok());
    let mut expected = vec![Action::EnablePeripheral {
        peripheral: Peripheral::I2cExt0,
    }];
    expected.extend(set_handler(0x4200_1000, 3));
    expected.extend(setup(0x55, 16));
    assert_eq!(plan.take(), expected);
    assert!(plan.take().is_empty());
}

#[test]
fn new_driver_refuses_an_invalid_address() {
    let mut plan = Plan::new();
    let config = Config::default().with_address(I2cAddress::SevenBit(0x80));
    let result = I2c::new(AnyI2c::I2C1(info()), config, &mut plan);
    assert!(matches!(result, Err(ConfigError::AddressInvalid)));
    let mut expected = vec![Action::EnablePeripheral {
        peripheral: Peripheral::I2cExt0,
    }];
    expected.extend(set_handler(0x4200_1000, 3));
    expected.extend(init_slave());
    expected.push(Action::ReleasePeripheral {
        guard: PeripheralGuard {
            peripheral: Peripheral::I2cExt0,
        },
    });
    assert_eq!(plan.take(), expected);
}

#[test]
fn driver_that_is_given_up_lets_everything_go() {
    let mut plan = Plan::new();
    let i2c = driver().with_scl(Pin(2), &mut plan);
    plan.take();
    i2c.release(&mut plan);
    assert_eq!(
        plan.take(),
        vec![
            Action::ReleasePeripheral {
                guard: PeripheralGuard {
                    peripheral: Peripheral::I2cExt0,
                },
            },
            Action::ReleasePin {
                guard: PinGuard::Connected {
                    pin: Pin(2),
                    signal: OutputSignal(45),
                },
            },
        ]
    );
}

#[test]
fn new_driver_listens_for_nothing() {
    let mut plan = Plan::new();
    let mut i2c = I2c::new(AnyI2c::I2C0(info()), Config::default(), &mut plan).unwrap();
    let enabled = held(&plan.take(), Register::IntEna, 0xffff_ffff);
    assert_eq!(i2c.interrupts(enabled), EventSet::new());
    i2c.apply_config(&Config::default(), &mut plan).unwrap();
    let enabled = held(&plan.take(), Register::IntEna, 0xffff_ffff);
    assert_eq!(i2c.interrupts(enabled), EventSet::only(Event::SlaveStretch));
}

#[test]
fn fifo_resets_leave_no_reset_bit() {
    let actions = init_slave();
    assert_eq!(held(&actions[1..4], Register::FifoConf, 0xffff_ffff), 0xffff_dfff);
    assert_eq!(held(&actions[4..6], Register::FifoConf, 0xffff_ffff), 0xffff_efff);
}

#[test]
fn filters_follow_their_thresholds() {
    for (sda, scl, start, expected) in [
        (Some(7), Some(7), 0, 0x377),
        (Some(0x1a), None, 0x305, 0x2a5),
        (None, Some(0x13), 0xffff_ffff, 0xffff_fdf3),
        (None, None, 0x377, 0x077),
    ] {
        let mut plan = Plan::new();
        set_filter(sda, scl, &mut plan);
        assert_eq!(held(&plan.take(), Register::FilterCfg, start), expected);
    }
}

#[test]
fn every_width_of_address_has_its_limit() {
    let mut i2c = driver();
    let mut plan = Plan::new();
    for (address, valid) in [
        (I2cAddress::SevenBit(0x00), true),
        (I2cAddress::SevenBit(0x7f), true),
        (I2cAddress::SevenBit(0x80), false),
        (I2cAddress::TenBit(0x000), true),
        (I2cAddress::TenBit(0x3ff), true),
        (I2cAddress::TenBit(0x400), false),
    ] {
        let config = Config::default().with_address(address);
        assert_eq!(i2c.apply_config(&config, &mut plan).is_ok(), valid);
    }
}

#[test]
fn ten_bit_address_sets_its_flag() {
    let mut i2c = driver();
    let mut plan = Plan::new();
    let config = Config::default().with_address(I2cAddress::TenBit(0x2a5));
    assert_eq!(i2c.apply_config(&config, &mut plan), Ok(()));
    assert_eq!(plan.take(), setup(0x8000_02a5, 16));
}

#[test]
fn refused_configuration_keeps_the_address_in_effect() {
    let mut i2c = driver();
    let mut plan = Plan::new();
    let config = Config::default().with_address(I2cAddress::TenBit(0x400));
    assert_eq!(
        i2c.apply_config(&config, &mut plan),
        Err(ConfigError::AddressInvalid)
    );
    let actions = plan.take();
    assert_eq!(actions, init_slave());
    assert_eq!(held(&actions, Register::SlaveAddr, 0x55), 0x55);
    assert_eq!(held(&actions, Register::IntEna, 0x81), 0x81);
}

#[test]
fn watermark_goes_to_its_field() {
    let mut i2c = driver();
    let mut plan = Plan::new();
    let config = Config::default().with_rx_fifo_wm_threshold(5);
    i2c.apply_config(&config, &mut plan).unwrap();
    assert_eq!(plan.take(), setup(0x55, 5));
    let config = Config::default().with_rx_fifo_wm_threshold(0xff);
    i2c.apply_config(&config, &mut plan).unwrap();
    assert_eq!(plan.take(), setup(0x55, 0x1f));
    let config = Config::default().with_rx_fifo_wm_threshold_none();
    i2c.apply_config(&config, &mut plan).unwrap();
    assert_eq!(plan.take(), setup(0x55, 0x1f));
}

#[test]
fn setup_leaves_the_configuration_in_the_registers() {
    let mut i2c = driver();
    let mut plan = Plan::new();
    i2c.apply_config(&Config::default(), &mut plan).unwrap();
    let actions = plan.take();
    assert_eq!(held(&actions, Register::Ctr, 0xffff_ffff), 0x0a00);
    assert_eq!(held(&actions, Register::FifoConf, 0xffff_ffff), 0xffff_c810);
    assert_eq!(held(&actions, Register::FifoConf, 0x408b), 0x4010);
    assert_eq!(held(&actions, Register::IntEna, 0x7_ffff), 0x7_c000);
    assert_eq!(held(&actions, Register::FilterCfg, 0xffff_fc00), 0xffff_ff77);
    assert_eq!(held(&actions, Register::SclStretchConf, 0), 0xfff);
    assert_eq!(held(&actions, Register::To, 0x10), 0x2e);
    assert_eq!(held(&actions, Register::ClkConf, 0x30_0000), 0x20_0000);
}

#[test]
fn later_setup_replaces_the_earlier_one() {
    let mut i2c = driver();
    let mut plan = Plan::new();
    let first = Config::default()
        .with_address(I2cAddress::TenBit(0x123))
        .with_rx_fifo_wm_threshold_none();
    let second = Config::default().with_rx_fifo_wm_threshold(3);
    let refused = Config::default().with_address(I2cAddress::SevenBit(0xff));
    i2c.apply_config(&first, &mut plan).unwrap();
    i2c.apply_config(&second, &mut plan).unwrap();
    let both = plan.take();
    assert!(i2c.apply_config(&refused, &mut plan).is_err());
    i2c.apply_config(&second, &mut plan).unwrap();
    let after_refusal = plan.take();
    i2c.apply_config(&second, &mut plan).unwrap();
    let once = plan.take();
    for register in [
        Register::Ctr,
        Register::SlaveAddr,
        Register::FifoConf,
        Register::FilterCfg,
        Register::SclStretchConf,
        Register::To,
    ] {
        for start in [0, 0x5555_5555, 0xffff_ffff] {
            assert_eq!(held(&both, register, start), held(&once, register, start));
            assert_eq!(
                held(&after_refusal, register, start),
                held(&once, register, start)
            );
        }
    }
}

#[test]
fn pins_are_connected_and_replaced() {
    let mut plan = Plan::new();
    let i2c = driver().with_sda(Pin(1), &mut plan);
    let connect = |pin: Pin, signal: u16| {
        vec![
            Action::SetOutputHigh { pin, high: true },
            Action::ApplyOutputConfig {
                pin,
                config: OutputConfig {
                    drive_mode: DriveMode::OpenDrain,
                    pull: Pull::Up,
                },
            },
            Action::SetOutputEnable { pin, enable: true },
            Action::SetInputEnable { pin, enable: true },
            Action::ConnectInput {
                input: InputSignal(signal),
                pin,
            },
            Action::ConnectOutput {
                output: OutputSignal(signal),
                pin,
            },
        ]
    };
    assert_eq!(plan.take(), connect(Pin(1), 46));
    let i2c = i2c.with_scl(Pin(2), &mut plan);
    assert_eq!(plan.take(), connect(Pin(2), 45));
    let _i2c = i2c.with_sda(Pin(3), &mut plan);
    let mut expected = connect(Pin(3), 46);
    expected.push(Action::ReleasePin {
        guard: PinGuard::Connected {
            pin: Pin(1),
            signal: OutputSignal(46),
        },
    });
    assert_eq!(plan.take(), expected);
}

#[test]
fn async_driver_takes_the_interrupt_again() {
    let mut plan = Plan::new();
    let i2c = driver().into_async(&mut plan);
    assert_eq!(plan.take(), set_handler(0x4200_1000, 3));
    assert_eq!(i2c.info().regs(), 0x6000_4000);
}

#[test]
fn another_handler_can_take_the_interrupt() {
    let mut plan = Plan::new();
    let handler = InterruptHandler {
        handler: 0x1234,
        priority: 1,
    };
    driver().set_interrupt_handler(handler, &mut plan);
    assert_eq!(plan.take(), set_handler(0x1234, 1));
}

#[test]
fn callback_gets_its_interrupts() {
    let mut i2c = driver();
    let mut plan = Plan::new();
    let mut state: State<&str> = State::new();
    i2c.register_callbacks(&mut state, "callback", &mut plan);
    assert_eq!(state.callback, Some("callback"));
    let actions = plan.take();
    assert_eq!(
        actions,
        vec![
            modify(Register::IntEna, ALL_EVENTS, 0),
            modify(Register::IntEna, 0x1_0481, 0x1_0481),
        ]
    );
    assert_eq!(held(&actions, Register::IntEna, 0x4_000a), 0x5_0483);
}

#[test]
fn callback_without_watermark_does_not_hear_of_it() {
    let mut i2c = driver();
    let mut plan = Plan::new();
    let config = Config::default().with_rx_fifo_wm_threshold_none();
    i2c.apply_config(&config, &mut plan).unwrap();
    plan.take();
    let mut state: State<u8> = State::new();
    i2c.register_callbacks(&mut state, 1, &mut plan);
    assert_eq!(
        plan.take(),
        vec![
            modify(Register::IntEna, ALL_EVENTS, 0),
            modify(Register::IntEna, 0x1_0480, 0x1_0480),
        ]
    );
}

#[test]
fn listening_and_clearing_take_the_bits_of_the_events() {
    let mut i2c = driver();
    let mut plan = Plan::new();
    let events = EventSet::only(Event::EndDetect).union(EventSet::only(Event::Nack));
    i2c.listen(events, &mut plan);
    i2c.unlisten(events, &mut plan);
    i2c.clear_interrupts(events, &mut plan);
    assert_eq!(
        plan.take(),
        vec![
            modify(Register::IntEna, 0x408, 0x408),
            modify(Register::IntEna, 0x408, 0),
            write(Register::IntClr, 0x408),
        ]
    );
}

#[test]
fn asserted_interrupts_are_told_by_their_bits() {
    let mut i2c = driver();
    for (event, bit) in [
        (Event::EndDetect, 0x8),
        (Event::TransComplete, 0x80),
        (Event::RxFifoWatermark, 0x1),
        (Event::SlaveStretch, 0x1_0000),
        (Event::Nack, 0x400),
    ] {
        assert_eq!(i2c.interrupts(bit), EventSet::only(event));
        assert_eq!(EventSet::only(event).mask(), bit);
        assert!(i2c.interrupts(0xffff_ffff).contains(event));
        assert!(!i2c.interrupts(!bit).contains(event));
    }
    assert_eq!(i2c.interrupts(0xffff_ffff), EventSet::all());
    assert_eq!(i2c.interrupts(!ALL_EVENTS), EventSet::new());
    let raw = 0x489;
    let cleared = raw & !EventSet::only(Event::Nack).mask();
    assert_eq!(
        i2c.interrupts(cleared),
        EventSet::only(Event::EndDetect)
            .union(EventSet::only(Event::TransComplete))
            .union(EventSet::only(Event::RxFifoWatermark))
    );
}

#[test]
fn write_refuses_an_empty_buffer() {
    assert_eq!(driver().write(&[]), Err(Error::ZeroLengthInvalid));
}

#[test]
fn only_lost_arbitration_has_a_kind_of_its_own() {
    assert_eq!(Error::ArbitrationLost.kind(), ErrorKind::ArbitrationLoss);
    for error in [
        Error::Timeout,
        Error::ExecutionIncomplete,
        Error::ZeroLengthInvalid,
        Error::AddressInvalid(I2cAddress::SevenBit(1)),
    ] {
        assert_eq!(error.kind(), ErrorKind::Other);
    }
}

#[test]
fn invalid_address_is_explained() {
    assert_eq!(
        ConfigError::AddressInvalid.message(),
        "Provided address is invalid"
    );
}

#[test]
fn default_configuration() {
    let config = Config::default();
    assert_eq!(config.address, I2cAddress::SevenBit(0x55));
    assert_eq!(config.rx_fifo_wm_threshold, Some(16));
}

#[test]
fn numbers_become_addresses() {
    assert_eq!(I2cAddress::from(0x23u8), I2cAddress::SevenBit(0x23));
    assert_eq!(I2cAddress::from(0x90u8), I2cAddress::SevenBit(0x90));
    assert_eq!(I2cAddress::from(0x7fu16), I2cAddress::SevenBit(0x7f));
    assert_eq!(I2cAddress::from(0x80u16), I2cAddress::TenBit(0x80));
    assert_eq!(I2cAddress::from(0x400u16), I2cAddress::TenBit(0x400));
}

#[test]
fn descriptions_are_equal_by_register_block() {
    let other = Info::new(
        0x6000_4000,
        Peripheral::I2cExt1,
        InterruptHandler {
            handler: 0,
            priority: 0,
        },
        OutputSignal(0),
        InputSignal(0),
        OutputSignal(0),
        InputSignal(0),
    );
    assert!(info() == other);
    let mut elsewhere = info();
    elsewhere.register_block = 0x6002_7000;
    assert!(info() != elsewhere);
    assert_eq!(AnyI2c::I2C1(elsewhere).info().regs(), 0x6002_7000);
    assert!(matches!(AnyI2c::I2C0(info()).degrade(), AnyI2c::I2C0(_)));
    assert!(matches!(AnyI2c::I2C1(elsewhere).degrade(), AnyI2c::I2C1(_)));
}

#[test]
fn free_space_of_the_tx_fifo() {
    assert_eq!(get_tx_fifo_free_size(0), 32);
    assert_eq!(get_tx_fifo_free_size(0xff03_ffff), 32);
    assert_eq!(get_tx_fifo_free_size(1 << 18), 31);
    assert_eq!(get_tx_fifo_free_size(31 << 18), 1);
    assert_eq!(get_tx_fifo_free_size(32 << 18), 0);
    assert_eq!(get_tx_fifo_free_size(63 << 18), 0);
}

#[test]
fn reading_fills_the_start_of_the_buffer() {
    let status = 3 << 8;
    let mut buffer = [0xeeu8; 5];
    assert_eq!(rx_fifo_read_len(status, buffer.len()), 3);
    assert_eq!(read_rx_fifo(status, &[1, 0x102, 3], &mut buffer), 3);
    assert_eq!(buffer, [1, 2, 3, 0xee, 0xee]);
    let mut small = [0u8; 2];
    assert_eq!(rx_fifo_read_len(status, small.len()), 2);
    assert_eq!(read_rx_fifo(status, &[7, 8], &mut small), 2);
    assert_eq!(small, [7, 8]);
    assert_eq!(rx_fifo_read_len(63 << 8, FIFO_SIZE), 32);
}

#[test]
fn answer_is_cut_to_the_free_space() {
    let mut plan = Plan::new();
    slave_handle_write(30 << 18, &[1, 2, 3], &mut plan);
    assert_eq!(
        plan.take(),
        vec![
            write(Register::Data, 1),
            write(Register::Data, 2),
            modify(Register::SclStretchConf, 0x800, 0x800),
        ]
    );
}
