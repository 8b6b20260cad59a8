//! Setting the controller and its pins up.

use vstd::prelude::*;

use crate::config::{Config, ConfigError, I2cAddress};
use crate::fifo::{
    clear_stretch, clear_stretch_action, reset_rx_fifo_actions, reset_tx_fifo,
    reset_tx_fifo_actions,
};
use crate::instance::Info;
use crate::plan::{
    after, changes, history, history_of_first, lemma_after_concat, lemma_history_ends_in_register,
    lemma_register_after, value_after_first, Action, Plan, Registers,
};
use crate::platform::{
    DriveMode, InputSignal, OutputConfig, OutputSignal, Pin, PinGuard, Pull,
};
use crate::register::{
    patched, Register, CLK_CONF_SCLK_SEL, CTR_ADDR_BROADCASTING_EN, CTR_ARBITRATION_EN,
    CTR_CONF_UPGATE, CTR_MS_MODE, CTR_RESET, CTR_RX_FULL_ACK_LEVEL, CTR_RX_LSB_FIRST,
    CTR_SCL_FORCE_OUT, CTR_SDA_FORCE_OUT, CTR_TX_LSB_FIRST, FIFO_CONF_FIFO_PRT_EN,
    FIFO_CONF_NONFIFO_EN, FIFO_CONF_RXFIFO_WM_THRHD, FIFO_CONF_RX_FIFO_RST,
    FIFO_CONF_TXFIFO_WM_THRHD, FIFO_CONF_TX_FIFO_RST, FILTER_CFG_SCL_FILTER_EN,
    FILTER_CFG_SCL_FILTER_THRES, FILTER_CFG_SDA_FILTER_EN, FILTER_CFG_SDA_FILTER_THRES,
    INT_CONFIG_MASK, SCL_STRETCH_CONF_SLAVE_SCL_STRETCH_CLR,
    SCL_STRETCH_CONF_SLAVE_SCL_STRETCH_EN,
    SCL_STRETCH_CONF_STRETCH_PROTECT_NUM, SLAVE_ADDR_10BIT_EN, TO_TIME_OUT_EN, TO_TIME_OUT_VALUE,
};

verus! {

/// The timeout that the driver configures: 2 to the power of this many clock cycles.
pub const TIME_OUT: u32 = 14;

/// The hold and sample time of SDA that the driver configures, in clock cycles.
pub const SDA_TIME: u32 = 10;

/// The width in clock cycles of the longest pulse that the driver filters out.
pub const FILTER_THRESHOLD: u8 = 7;

/// The configuration of a driver, with the pins that it holds.
#[derive(Clone, Copy, Debug)]
pub struct DriverConfig {
    pub config: Config,
    pub sda_pin: PinGuard,
    pub scl_pin: PinGuard,
}

/// What it takes to set an instance up.
#[derive(Clone, Copy)]
pub struct Driver<'a> {
    pub info: &'a Info,
    pub config: &'a DriverConfig,
}

/// Making the controller a slave with empty FIFOs.
pub open spec fn init_slave_actions() -> Seq<Action> {
    seq![
        Action::Write {
            register: Register::Ctr,
            value: (CTR_RESET & !(CTR_MS_MODE | CTR_ARBITRATION_EN | CTR_TX_LSB_FIRST
                | CTR_RX_LSB_FIRST)) | CTR_SDA_FORCE_OUT | CTR_SCL_FORCE_OUT,
        },
    ] + reset_tx_fifo_actions() + reset_rx_fifo_actions() + seq![
        Action::Modify { register: Register::FifoConf, clear: FIFO_CONF_NONFIFO_EN, set: 0 },
    ]
}

/// Taking an address.
pub open spec fn slave_addr_action(address: I2cAddress) -> Action {
    Action::Write { register: Register::SlaveAddr, value: address.register_value() }
}

/// The content of the threshold field for the receive FIFO: the low five bits of the threshold, or
/// the largest value if there is none.
pub open spec fn watermark_bits(threshold: Option<u8>) -> u32 {
    match threshold {
        Some(threshold) => threshold as u32 & FIFO_CONF_RXFIFO_WM_THRHD,
        None => FIFO_CONF_RXFIFO_WM_THRHD,
    }
}

/// The bits of the filter register that new thresholds replace.
pub open spec fn filter_clear(sda: Option<u8>, scl: Option<u8>) -> u32 {
    (if sda is Some {
        FILTER_CFG_SDA_FILTER_THRES
    } else {
        0
    }) | (if scl is Some {
        FILTER_CFG_SCL_FILTER_THRES
    } else {
        0
    }) | FILTER_CFG_SDA_FILTER_EN | FILTER_CFG_SCL_FILTER_EN
}

/// The bits of the filter register that new thresholds set: the low four bits of each threshold,
/// and the filter is on for a line that has one.
pub open spec fn filter_set(sda: Option<u8>, scl: Option<u8>) -> u32 {
    (match sda {
        Some(threshold) => ((threshold as u32 & 0xf) << 4) | FILTER_CFG_SDA_FILTER_EN,
        None => 0,
    }) | (match scl {
        Some(threshold) => (threshold as u32 & 0xf) | FILTER_CFG_SCL_FILTER_EN,
        None => 0,
    })
}

/// Setting the glitch filters.
pub open spec fn filter_action(sda: Option<u8>, scl: Option<u8>) -> Action {
    Action::Modify {
        register: Register::FilterCfg,
        clear: filter_clear(sda, scl),
        set: filter_set(sda, scl),
    }
}

/// Handing the configuration over to the hardware.
pub open spec fn update_action() -> Action {
    Action::Modify { register: Register::Ctr, clear: CTR_CONF_UPGATE, set: CTR_CONF_UPGATE }
}

/// All that a configuration takes, once the controller is a slave.
pub open spec fn configure_actions(config: Config) -> Seq<Action> {
    seq![
        slave_addr_action(config.address),
        Action::Modify {
            register: Register::To,
            clear: TO_TIME_OUT_EN | TO_TIME_OUT_VALUE,
            set: TO_TIME_OUT_EN | TIME_OUT,
        },
        Action::Modify { register: Register::ClkConf, clear: CLK_CONF_SCLK_SEL, set: 0 },
        slave_addr_action(config.address),
        Action::Modify { register: Register::Ctr, clear: CTR_ADDR_BROADCASTING_EN, set: 0 },
        Action::Modify {
            register: Register::FifoConf,
            clear: FIFO_CONF_FIFO_PRT_EN | FIFO_CONF_TXFIFO_WM_THRHD,
            set: FIFO_CONF_FIFO_PRT_EN,
        },
        Action::Modify {
            register: Register::FifoConf,
            clear: FIFO_CONF_FIFO_PRT_EN,
            set: FIFO_CONF_FIFO_PRT_EN,
        },
        Action::Write { register: Register::Ctr, value: CTR_RESET & !CTR_RX_FULL_ACK_LEVEL },
        Action::Modify {
            register: Register::FifoConf,
            clear: FIFO_CONF_RXFIFO_WM_THRHD,
            set: watermark_bits(config.rx_fifo_wm_threshold),
        },
        Action::Write { register: Register::SdaHold, value: SDA_TIME },
        Action::Write { register: Register::SdaSample, value: SDA_TIME },
        Action::Modify { register: Register::IntEna, clear: INT_CONFIG_MASK, set: 0 },
        Action::Write { register: Register::IntClr, value: INT_CONFIG_MASK },
        Action::Modify {
            register: Register::SclStretchConf,
            clear: SCL_STRETCH_CONF_STRETCH_PROTECT_NUM | SCL_STRETCH_CONF_SLAVE_SCL_STRETCH_EN,
            set: SCL_STRETCH_CONF_STRETCH_PROTECT_NUM | SCL_STRETCH_CONF_SLAVE_SCL_STRETCH_EN,
        },
        clear_stretch_action(),
        filter_action(Some(FILTER_THRESHOLD), Some(FILTER_THRESHOLD)),
        update_action(),
    ]
}

/// What a setup does: with an address that is not valid it stops once the controller is a slave.
pub open spec fn setup_actions(config: Config) -> Seq<Action> {
    if config.address.valid() {
        init_slave_actions() + configure_actions(config)
    } else {
        init_slave_actions()
    }
}

/// Routing a pin to the controller: the pin is released high before it drives its line, as an open
/// drain output with a pull-up, and then both signals are connected.
pub open spec fn connect_pin_actions(
    pin: Pin,
    input: InputSignal,
    output: OutputSignal,
    held: PinGuard,
) -> Seq<Action> {
    seq![
        Action::SetOutputHigh { pin, high: true },
        Action::ApplyOutputConfig {
            pin,
            config: OutputConfig { drive_mode: DriveMode::OpenDrain, pull: Pull::Up },
        },
        Action::SetOutputEnable { pin, enable: true },
        Action::SetInputEnable { pin, enable: true },
        Action::ConnectInput { input, pin },
        Action::ConnectOutput { output, pin },
    ] + release_pin_actions(held)
}

/// Letting go of a pin, if one is held.
pub open spec fn release_pin_actions(held: PinGuard) -> Seq<Action> {
    if held is Connected {
        seq![Action::ReleasePin { guard: held }]
    } else {
        seq![]
    }
}

/// Plans to let go of a pin, if one is held.
pub fn release_pin(held: PinGuard, plan: &mut Plan)
    ensures
        final(plan)@ == old(plan)@ + release_pin_actions(held),
{
    match held {
        PinGuard::Connected { .. } => {
            plan.push(Action::ReleasePin { guard: held });
        },
        PinGuard::Unconnected => {},
    }
}

/// A pin that is being connected is set high before it starts to drive its line, so that it does
/// not go low in between.
pub proof fn lemma_pin_is_high_before_it_drives(
    pin: Pin,
    input: InputSignal,
    output: OutputSignal,
    held: PinGuard,
    i: int,
)
    requires
        0 <= i < connect_pin_actions(pin, input, output, held).len(),
        connect_pin_actions(pin, input, output, held)[i] == (Action::SetOutputEnable {
            pin,
            enable: true,
        }),
    ensures
        0 < i,
        connect_pin_actions(pin, input, output, held)[0] == (Action::SetOutputHigh {
            pin,
            high: true,
        }),
{
}

/// Plans the glitch filters: a pulse has to be present for the given number of clock cycles to pass
/// the filter of its line, and a line without a threshold has no filter.
pub fn set_filter(sda_threshold: Option<u8>, scl_threshold: Option<u8>, plan: &mut Plan)
    ensures
        final(plan)@ == old(plan)@.push(filter_action(sda_threshold, scl_threshold)),
{
    let (sda_clear, sda_set): (u32, u32) = match sda_threshold {
        Some(threshold) => (
            FILTER_CFG_SDA_FILTER_THRES,
            ((threshold as u32 & 0xf) << 4) | FILTER_CFG_SDA_FILTER_EN,
        ),
        None => (0, 0),
    };
    let (scl_clear, scl_set): (u32, u32) = match scl_threshold {
        Some(threshold) => (
            FILTER_CFG_SCL_FILTER_THRES,
            (threshold as u32 & 0xf) | FILTER_CFG_SCL_FILTER_EN,
        ),
        None => (0, 0),
    };
    plan.modify(
        Register::FilterCfg,
        sda_clear | scl_clear | FILTER_CFG_SDA_FILTER_EN | FILTER_CFG_SCL_FILTER_EN,
        sda_set | scl_set,
    );
}

impl Driver<'_> {
    /// The address of the register block.
    pub fn regs(&self) -> (address: usize)
        ensures
            address == self.info.register_block,
    {
        self.info.regs()
    }

    /// Plans to route `pin` to the controller. The guard then holds the pin, and what it held
    /// before is let go.
    pub fn connect_pin(
        pin: Pin,
        input: InputSignal,
        output: OutputSignal,
        guard: &mut PinGuard,
        plan: &mut Plan,
    )
        ensures
            final(plan)@ == old(plan)@ + connect_pin_actions(pin, input, output, *old(guard)),
            *final(guard) == (PinGuard::Connected { pin, signal: output }),
    {
        // avoid the pin going low during configuration
        plan.push(Action::SetOutputHigh { pin, high: true });
        plan.push(
            Action::ApplyOutputConfig {
                pin,
                config: OutputConfig { drive_mode: DriveMode::OpenDrain, pull: Pull::Up },
            },
        );
        plan.push(Action::SetOutputEnable { pin, enable: true });
        plan.push(Action::SetInputEnable { pin, enable: true });
        plan.push(Action::ConnectInput { input, pin });
        plan.push(Action::ConnectOutput { output, pin });
        let held: PinGuard = *guard;
        *guard = PinGuard::Connected { pin, signal: output };
        release_pin(held, plan);
    }

    /// Plans to make the controller a slave with empty FIFOs.
    pub fn init_slave(&self, plan: &mut Plan)
        ensures
            final(plan)@ == old(plan)@ + init_slave_actions(),
    {
        plan.write(
            Register::Ctr,
            (CTR_RESET & !(CTR_MS_MODE | CTR_ARBITRATION_EN | CTR_TX_LSB_FIRST | CTR_RX_LSB_FIRST))
                | CTR_SDA_FORCE_OUT | CTR_SCL_FORCE_OUT,
        );
        self.reset_fifo(plan);
        plan.modify(Register::FifoConf, FIFO_CONF_NONFIFO_EN, 0);
        assert(plan@ =~= old(plan)@ + init_slave_actions());
    }

    /// Plans to take an address, if it is valid.
    pub fn set_slave_addr(&self, address: I2cAddress, plan: &mut Plan) -> (result: Result<
        (),
        ConfigError,
    >)
        ensures
            result == if address.valid() {
                Ok::<(), ConfigError>(())
            } else {
                Err(ConfigError::AddressInvalid)
            },
            address.valid() ==> final(plan)@ == old(plan)@.push(slave_addr_action(address)),
            !address.valid() ==> final(plan)@ == old(plan)@,
    {
        let value: u32 = match address {
            I2cAddress::SevenBit(addr) => {
                if addr > 0x7F {
                    return Err(ConfigError::AddressInvalid);
                }
                addr as u32
            },
            I2cAddress::TenBit(addr) => {
                if addr > 0x3FF {
                    return Err(ConfigError::AddressInvalid);
                }
                addr as u32 | SLAVE_ADDR_10BIT_EN
            },
        };
        plan.write(Register::SlaveAddr, value);
        Ok(())
    }

    /// Plans to hand the configuration over to the hardware, which goes on with the old one until
    /// then.
    pub fn update_registers(&self, plan: &mut Plan)
        ensures
            final(plan)@ == old(plan)@.push(update_action()),
    {
        plan.modify(Register::Ctr, CTR_CONF_UPGATE, CTR_CONF_UPGATE);
    }

    /// Plans to set the controller up with a configuration.
    pub fn setup(&self, config: &Config, plan: &mut Plan) -> (result: Result<(), ConfigError>)
        ensures
            result == if config.address.valid() {
                Ok::<(), ConfigError>(())
            } else {
                Err(ConfigError::AddressInvalid)
            },
            final(plan)@ == old(plan)@ + setup_actions(*config),
    {
        self.init_slave(plan);
        match self.set_slave_addr(config.address, plan) {
            Err(error) => {
                return Err(error);
            },
            Ok(()) => {},
        }
        // Assuming a 100 kHz clock, 100 ms are 10000 cycles, so that 2^14 should do.
        plan.modify(
            Register::To,
            TO_TIME_OUT_EN | TO_TIME_OUT_VALUE,
            TO_TIME_OUT_EN | TIME_OUT,
        );
        plan.modify(Register::ClkConf, CLK_CONF_SCLK_SEL, 0);
        match self.set_slave_addr(config.address, plan) {
            Err(error) => {
                return Err(error);
            },
            Ok(()) => {},
        }
        // respond only to our address
        plan.modify(Register::Ctr, CTR_ADDR_BROADCASTING_EN, 0);
        plan.modify(
            Register::FifoConf,
            FIFO_CONF_FIFO_PRT_EN | FIFO_CONF_TXFIFO_WM_THRHD,
            FIFO_CONF_FIFO_PRT_EN,
        );
        plan.modify(Register::FifoConf, FIFO_CONF_FIFO_PRT_EN, FIFO_CONF_FIFO_PRT_EN);
        plan.write(Register::Ctr, CTR_RESET & !CTR_RX_FULL_ACK_LEVEL);
        match config.rx_fifo_wm_threshold {
            Some(threshold) => {
                plan.modify(
                    Register::FifoConf,
                    FIFO_CONF_RXFIFO_WM_THRHD,
                    threshold as u32 & FIFO_CONF_RXFIFO_WM_THRHD,
                );
            },
            None => {
                plan.modify(
                    Register::FifoConf,
                    FIFO_CONF_RXFIFO_WM_THRHD,
                    FIFO_CONF_RXFIFO_WM_THRHD,
                );
            },
        }
        plan.write(Register::SdaHold, SDA_TIME);
        plan.write(Register::SdaSample, SDA_TIME);
        // The interrupts are enabled when a callback is registered.
        plan.modify(Register::IntEna, INT_CONFIG_MASK, 0);
        plan.write(Register::IntClr, INT_CONFIG_MASK);
        plan.modify(
            Register::SclStretchConf,
            SCL_STRETCH_CONF_STRETCH_PROTECT_NUM | SCL_STRETCH_CONF_SLAVE_SCL_STRETCH_EN,
            SCL_STRETCH_CONF_STRETCH_PROTECT_NUM | SCL_STRETCH_CONF_SLAVE_SCL_STRETCH_EN,
        );
        clear_stretch(plan);
        set_filter(Some(FILTER_THRESHOLD), Some(FILTER_THRESHOLD), plan);
        self.update_registers(plan);
        assert(plan@ =~= old(plan)@ + setup_actions(*config));
        Ok(())
    }

    /// Plans to reset both FIFOs.
    pub fn reset_fifo(&self, plan: &mut Plan)
        ensures
            final(plan)@ == old(plan)@ + reset_tx_fifo_actions() + reset_rx_fifo_actions(),
    {
        reset_tx_fifo(plan);
        self.reset_rx_fifo(plan);
    }

    /// Plans to reset the receive FIFO.
    pub fn reset_rx_fifo(&self, plan: &mut Plan)
        ensures
            final(plan)@ == old(plan)@ + reset_rx_fifo_actions(),
    {
        plan.modify(Register::FifoConf, FIFO_CONF_RX_FIFO_RST, FIFO_CONF_RX_FIFO_RST);
        plan.modify(Register::FifoConf, FIFO_CONF_RX_FIFO_RST, 0);
    }
}

/// The bits of the FIFO configuration that a setup replaces.
pub open spec fn fifo_conf_mask() -> u32 {
    FIFO_CONF_RXFIFO_WM_THRHD | FIFO_CONF_TXFIFO_WM_THRHD | FIFO_CONF_NONFIFO_EN
        | FIFO_CONF_RX_FIFO_RST | FIFO_CONF_TX_FIFO_RST | FIFO_CONF_FIFO_PRT_EN
}

/// What a setup leaves in each register, given what was there before.
pub open spec fn configured(before: u32, register: Register, config: Config) -> u32 {
    match register {
        Register::Ctr => CTR_ARBITRATION_EN | CTR_CONF_UPGATE,
        Register::To => patched(
            before,
            TO_TIME_OUT_EN | TO_TIME_OUT_VALUE,
            TO_TIME_OUT_EN | TIME_OUT,
        ),
        Register::SlaveAddr => config.address.register_value(),
        Register::FifoConf => patched(
            before,
            fifo_conf_mask(),
            FIFO_CONF_FIFO_PRT_EN | watermark_bits(config.rx_fifo_wm_threshold),
        ),
        Register::IntClr => INT_CONFIG_MASK,
        Register::IntEna => patched(before, INT_CONFIG_MASK, 0),
        Register::SdaHold => SDA_TIME,
        Register::SdaSample => SDA_TIME,
        Register::FilterCfg => patched(
            before,
            filter_clear(Some(FILTER_THRESHOLD), Some(FILTER_THRESHOLD)),
            filter_set(Some(FILTER_THRESHOLD), Some(FILTER_THRESHOLD)),
        ),
        Register::ClkConf => patched(before, CLK_CONF_SCLK_SEL, 0),
        Register::SclStretchConf => before | SCL_STRETCH_CONF_STRETCH_PROTECT_NUM
            | SCL_STRETCH_CONF_SLAVE_SCL_STRETCH_EN | SCL_STRETCH_CONF_SLAVE_SCL_STRETCH_CLR,
        Register::Sr | Register::Data | Register::IntRaw | Register::IntSt => before,
    }
}

/// After a setup with a valid address the registers hold the configuration, whatever they held
/// before: a slave that receives and sends the most significant bit first, answers only to its own
/// address, has empty FIFOs in FIFO mode with the watermark of the configuration, stretches the
/// clock, and has all interrupts below the configuration mask switched off.
pub proof fn lemma_setup_configures(registers: Registers, config: Config, register: Register)
    requires
        config.address.valid(),
    ensures
        after(registers, setup_actions(config))(register) == configured(
            registers(register),
            register,
            config,
        ),
{
    let actions = setup_actions(config);
    let init = init_slave_actions();
    let v = registers(register);
    let w = watermark_bits(config.rx_fifo_wm_threshold);
    assert(init.len() == 7);
    assert(actions.len() == 24);
    reveal_with_fuel(value_after_first, 25);
    lemma_register_after(registers, actions, register);
    if register == Register::Ctr {
        assert(((0x208u32 & !8u32) & !0x800u32) | 0x800u32 == 0x200u32 | 0x800u32) by (bit_vector);
    } else if register == Register::FifoConf {
        lemma_watermark_bits(config.rx_fifo_wm_threshold);
        lemma_fifo_conf(v, w);
    } else if register == Register::SclStretchConf {
        assert((((v & !(0x3ffu32 | 0x400u32)) | (0x3ffu32 | 0x400u32)) & !0x800u32) | 0x800u32 == v
            | 0x3ffu32 | 0x400u32 | 0x800u32) by (bit_vector);
    }
}

proof fn lemma_fifo_conf(v: u32, w: u32)
    requires
        w & !0x1fu32 == 0,
    ensures
        ({
            let a = patched(v, 0x2000, 0x2000);
            let b = patched(a, 0x2000, 0);
            let c = patched(b, 0x1000, 0x1000);
            let d = patched(c, 0x1000, 0);
            let e = patched(d, 0x400, 0);
            let f = patched(e, 0x4000u32 | 0x3e0u32, 0x4000);
            let g = patched(f, 0x4000, 0x4000);
            patched(g, 0x1f, w) == patched(
                v,
                0x1fu32 | 0x3e0u32 | 0x400u32 | 0x1000u32 | 0x2000u32 | 0x4000u32,
                0x4000u32 | w,
            )
        }),
{
    let a = patched(v, 0x2000, 0x2000);
    let b = patched(a, 0x2000, 0);
    let c = patched(b, 0x1000, 0x1000);
    let d = patched(c, 0x1000, 0);
    let e = patched(d, 0x400, 0);
    let f = patched(e, 0x4000u32 | 0x3e0u32, 0x4000);
    let g = patched(f, 0x4000, 0x4000);
    assert((g & !0x1fu32) | w == (v & !(0x1fu32 | 0x3e0u32 | 0x400u32 | 0x1000u32 | 0x2000u32
        | 0x4000u32)) | (0x4000u32 | w)) by (bit_vector)
        requires
            w & !0x1fu32 == 0,
            a == (v & !0x2000u32) | 0x2000u32,
            b == (a & !0x2000u32) | 0u32,
            c == (b & !0x1000u32) | 0x1000u32,
            d == (c & !0x1000u32) | 0u32,
            e == (d & !0x400u32) | 0u32,
            f == (e & !(0x4000u32 | 0x3e0u32)) | 0x4000u32,
            g == (f & !0x4000u32) | 0x4000u32,
    ;
}

/// A setup that refuses its address touches nothing but the transmission settings and the FIFO
/// configuration. The address in effect, in particular, stays.
pub proof fn lemma_refused_setup_keeps_registers(
    registers: Registers,
    config: Config,
    register: Register,
)
    requires
        !config.address.valid(),
        register != Register::Ctr,
        register != Register::FifoConf,
    ensures
        after(registers, setup_actions(config))(register) == registers(register),
{
    let actions = init_slave_actions();
    assert(actions.len() == 7);
    reveal_with_fuel(value_after_first, 8);
    lemma_register_after(registers, actions, register);
}

/// A change of bits overrides an earlier change of the same bits.
proof fn lemma_patched_twice(value: u32, clear: u32, first: u32, second: u32)
    requires
        first & !clear == 0,
    ensures
        patched(patched(value, clear, first), clear, second) == patched(value, clear, second),
{
    assert((((value & !clear) | first) & !clear) | second == (value & !clear) | second)
        by (bit_vector)
        requires
            first & !clear == 0,
    ;
}

/// A setup that refuses its address changes the FIFO configuration only in bits that a setup
/// replaces.
proof fn lemma_refused_setup_fifo_conf(registers: Registers, config: Config, set: u32)
    requires
        !config.address.valid(),
    ensures
        patched(
            after(registers, setup_actions(config))(Register::FifoConf),
            fifo_conf_mask(),
            set,
        ) == patched(registers(Register::FifoConf), fifo_conf_mask(), set),
{
    let v = registers(Register::FifoConf);
    let actions = init_slave_actions();
    assert(actions.len() == 7);
    reveal_with_fuel(value_after_first, 8);
    lemma_register_after(registers, actions, Register::FifoConf);
    let a = patched(v, 0x2000, 0x2000);
    let b = patched(a, 0x2000, 0);
    let c = patched(b, 0x1000, 0x1000);
    let d = patched(c, 0x1000, 0);
    let e = patched(d, 0x400, 0);
    let mask = fifo_conf_mask();
    assert((e & !mask) | set == (v & !mask) | set) by (bit_vector)
        requires
            mask == 0x1fu32 | 0x3e0u32 | 0x400u32 | 0x1000u32 | 0x2000u32 | 0x4000u32,
            a == (v & !0x2000u32) | 0x2000u32,
            b == (a & !0x2000u32) | 0u32,
            c == (b & !0x1000u32) | 0x1000u32,
            d == (c & !0x1000u32) | 0u32,
            e == (d & !0x400u32) | 0u32,
    ;
}

/// A setup does not depend on the one before it, be that applied or refused: the later
/// configuration replaces the earlier one altogether.
pub proof fn lemma_later_setup_wins(
    registers: Registers,
    earlier: Config,
    later: Config,
    register: Register,
)
    requires
        later.address.valid(),
    ensures
        after(registers, setup_actions(earlier) + setup_actions(later))(register) == after(
            registers,
            setup_actions(later),
        )(register),
{
    let middle = after(registers, setup_actions(earlier));
    lemma_after_concat(registers, setup_actions(earlier), setup_actions(later));
    lemma_setup_configures(registers, later, register);
    lemma_setup_configures(middle, later, register);
    if earlier.address.valid() {
        lemma_setup_configures(registers, earlier, register);
        lemma_configured_twice(registers(register), earlier, later, register);
    } else if register == Register::FifoConf {
        lemma_refused_setup_fifo_conf(
            registers,
            earlier,
            FIFO_CONF_FIFO_PRT_EN | watermark_bits(later.rx_fifo_wm_threshold),
        );
    } else if register != Register::Ctr {
        lemma_refused_setup_keeps_registers(registers, earlier, register);
    }
}

/// A register that is configured twice is as if it had been configured the second time only.
proof fn lemma_configured_twice(v: u32, earlier: Config, later: Config, register: Register)
    ensures
        configured(configured(v, register, earlier), register, later) == configured(
            v,
            register,
            later,
        ),
{
    if register == Register::To {
        assert((0x20u32 | 14u32) & !(0x20u32 | 0x1fu32) == 0) by (bit_vector);
        lemma_patched_twice(
            v,
            TO_TIME_OUT_EN | TO_TIME_OUT_VALUE,
            TO_TIME_OUT_EN | TIME_OUT,
            TO_TIME_OUT_EN | TIME_OUT,
        );
    } else if register == Register::FifoConf {
        let w = watermark_bits(earlier.rx_fifo_wm_threshold);
        lemma_watermark_bits(earlier.rx_fifo_wm_threshold);
        assert((0x4000u32 | w) & !(0x1fu32 | 0x3e0u32 | 0x400u32 | 0x1000u32 | 0x2000u32
            | 0x4000u32) == 0) by (bit_vector)
            requires
                w & !0x1fu32 == 0,
        ;
        lemma_patched_twice(
            v,
            fifo_conf_mask(),
            FIFO_CONF_FIFO_PRT_EN | w,
            FIFO_CONF_FIFO_PRT_EN | watermark_bits(later.rx_fifo_wm_threshold),
        );
    } else if register == Register::IntEna {
        assert(0u32 & !0x3fffu32 == 0) by (bit_vector);
        lemma_patched_twice(v, INT_CONFIG_MASK, 0, 0);
    } else if register == Register::ClkConf {
        assert(0u32 & !0x10_0000u32 == 0) by (bit_vector);
        lemma_patched_twice(v, CLK_CONF_SCLK_SEL, 0, 0);
    } else if register == Register::FilterCfg {
        let sda = Some(FILTER_THRESHOLD);
        lemma_filter_bits(sda, sda);
        lemma_patched_twice(v, filter_clear(sda, sda), filter_set(sda, sda), filter_set(sda, sda));
    } else if register == Register::SclStretchConf {
        assert((v | 0x3ffu32 | 0x400u32 | 0x800u32) | 0x3ffu32 | 0x400u32 | 0x800u32 == v | 0x3ffu32
            | 0x400u32 | 0x800u32) by (bit_vector);
    }
}

/// The threshold of the receive FIFO stays within its field.
proof fn lemma_watermark_bits(threshold: Option<u8>)
    ensures
        watermark_bits(threshold) & !FIFO_CONF_RXFIFO_WM_THRHD == 0,
{
    match threshold {
        Some(threshold) => {
            assert((threshold as u32 & 0x1f) & !0x1fu32 == 0) by (bit_vector);
        },
        None => {
            assert(0x1fu32 & !0x1fu32 == 0) by (bit_vector);
        },
    }
}

/// The bits that the filters set are among those that they replace.
proof fn lemma_filter_bits(sda: Option<u8>, scl: Option<u8>)
    ensures
        filter_set(sda, scl) & !filter_clear(sda, scl) == 0,
{
    let a: u32 = match sda {
        Some(threshold) => threshold as u32,
        None => 0,
    };
    let b: u32 = match scl {
        Some(threshold) => threshold as u32,
        None => 0,
    };
    let x = sda is Some;
    let y = scl is Some;
    let ac: u32 = if x { 0xf0 } else { 0 };
    let bc: u32 = if y { 0x0f } else { 0 };
    let at: u32 = if x { ((a & 0xf) << 4) | 0x200 } else { 0 };
    let bt: u32 = if y { (b & 0xf) | 0x100 } else { 0 };
    assert((at | bt) & !(ac | bc | 0x200u32 | 0x100u32) == 0) by (bit_vector)
        requires
            ac == if x { 0xf0u32 } else { 0u32 },
            bc == if y { 0x0fu32 } else { 0u32 },
            at == if x { ((a & 0xf) << 4) | 0x200u32 } else { 0u32 },
            bt == if y { (b & 0xf) | 0x100u32 } else { 0u32 },
    ;
}

/// What the glitch filters make of the filter register: a line with a threshold gets the low four
/// bits of it and its filter on, a line without one keeps its threshold and has its filter off, and
/// all other bits stay.
pub proof fn lemma_filter_fields(value: u32, sda: Option<u8>, scl: Option<u8>)
    ensures
        ({
            let result = patched(value, filter_clear(sda, scl), filter_set(sda, scl));
            &&& match sda {
                Some(threshold) => result & FILTER_CFG_SDA_FILTER_THRES == (threshold as u32 & 0xf)
                    << 4 && result & FILTER_CFG_SDA_FILTER_EN == FILTER_CFG_SDA_FILTER_EN,
                None => result & FILTER_CFG_SDA_FILTER_THRES == value & FILTER_CFG_SDA_FILTER_THRES
                    && result & FILTER_CFG_SDA_FILTER_EN == 0,
            }
            &&& match scl {
                Some(threshold) => result & FILTER_CFG_SCL_FILTER_THRES == threshold as u32 & 0xf
                    && result & FILTER_CFG_SCL_FILTER_EN == FILTER_CFG_SCL_FILTER_EN,
                None => result & FILTER_CFG_SCL_FILTER_THRES == value & FILTER_CFG_SCL_FILTER_THRES
                    && result & FILTER_CFG_SCL_FILTER_EN == 0,
            }
            &&& result & !0x3ffu32 == value & !0x3ffu32
        }),
{
    let a: u32 = match sda {
        Some(threshold) => threshold as u32,
        None => 0,
    };
    let b: u32 = match scl {
        Some(threshold) => threshold as u32,
        None => 0,
    };
    let x = sda is Some;
    let y = scl is Some;
    let ac: u32 = if x { 0xf0 } else { 0 };
    let bc: u32 = if y { 0x0f } else { 0 };
    let at: u32 = if x { ((a & 0xf) << 4) | 0x200 } else { 0 };
    let bt: u32 = if y { (b & 0xf) | 0x100 } else { 0 };
    let result = (value & !(ac | bc | 0x200u32 | 0x100u32)) | (at | bt);
    assert((x ==> result & 0xf0 == (a & 0xf) << 4 && result & 0x200 == 0x200) && (!x ==> result
        & 0xf0 == value & 0xf0 && result & 0x200 == 0) && (y ==> result & 0x0f == b & 0xf && result
        & 0x100 == 0x100) && (!y ==> result & 0x0f == value & 0x0f && result & 0x100 == 0) && result
        & !0x3ffu32 == value & !0x3ffu32) by (bit_vector)
        requires
            result == (value & !(ac | bc | 0x200u32 | 0x100u32)) | (at | bt),
            ac == if x { 0xf0u32 } else { 0u32 },
            bc == if y { 0x0fu32 } else { 0u32 },
            at == if x { ((a & 0xf) << 4) | 0x200u32 } else { 0u32 },
            bt == if y { (b & 0xf) | 0x100u32 } else { 0u32 },
    ;
}

/// The FIFO configuration, step by step.
proof fn lemma_fifo_conf_steps(v: u32, w: u32)
    requires
        w & !0x1fu32 == 0,
    ensures
        ({
            let a = patched(v, 0x2000, 0x2000);
            let b = patched(a, 0x2000, 0);
            let c = patched(b, 0x1000, 0x1000);
            let d = patched(c, 0x1000, 0);
            let e = patched(d, 0x400, 0);
            let f = patched(e, 0x4000u32 | 0x3e0u32, 0x4000);
            let g = patched(f, 0x4000, 0x4000);
            &&& a == v | 0x2000
            &&& b == v & !0x2000u32
            &&& c == (v & !0x2000u32) | 0x1000
            &&& d == v & !0x3000u32
            &&& e == v & !0x3400u32
            &&& f == (v & !0x37e0u32) | 0x4000
            &&& g == (v & !0x37e0u32) | 0x4000
            &&& patched(g, 0x1f, w) == (v & !0x37ffu32) | 0x4000 | w
        }),
{
    let a = patched(v, 0x2000, 0x2000);
    let b = patched(a, 0x2000, 0);
    let c = patched(b, 0x1000, 0x1000);
    let d = patched(c, 0x1000, 0);
    let e = patched(d, 0x400, 0);
    let f = patched(e, 0x4000u32 | 0x3e0u32, 0x4000);
    let g = patched(f, 0x4000, 0x4000);
    assert(a == v | 0x2000 && b == v & !0x2000u32 && c == (v & !0x2000u32) | 0x1000 && d == v
        & !0x3000u32 && e == v & !0x3400u32 && f == (v & !0x37e0u32) | 0x4000 && g == (v
        & !0x37e0u32) | 0x4000 && (g & !0x1fu32) | w == (v & !0x37ffu32) | 0x4000 | w)
        by (bit_vector)
        requires
            w & !0x1fu32 == 0,
            a == (v & !0x2000u32) | 0x2000u32,
            b == (a & !0x2000u32) | 0u32,
            c == (b & !0x1000u32) | 0x1000u32,
            d == (c & !0x1000u32) | 0u32,
            e == (d & !0x400u32) | 0u32,
            f == (e & !(0x4000u32 | 0x3e0u32)) | 0x4000u32,
            g == (f & !0x4000u32) | 0x4000u32,
    ;
}

/// The number that the watermark field gets.
proof fn lemma_watermark_number(threshold: Option<u8>)
    ensures
        watermark_bits(threshold) == match threshold {
            Some(threshold) => (threshold % 32) as u32,
            None => 31,
        },
{
    if let Some(threshold) = threshold {
        assert(threshold as u32 & 0x1f == threshold % 32) by (bit_vector);
    }
}

/// What becomes of each register in a setup that succeeds, value by value. The controller is a
/// slave from the first value of its settings on, sends and receives the most significant bit first
/// and ignores broadcasts. Both FIFOs are reset, with the bit going up and down again. The address
/// register never gets anything but the address.
pub proof fn lemma_setup_step_by_step(v: u32, config: Config, register: Register)
    requires
        match config.address {
            I2cAddress::SevenBit(addr) => addr <= 0x7f,
            I2cAddress::TenBit(addr) => addr <= 0x3ff,
        },
    ensures
        history(v, register, setup_actions(config)) == match register {
            Register::Ctr => seq![0x00bu32, 0x40b, 0x40b, 0x200, 0xa00],
            Register::SlaveAddr => {
                let value = match config.address {
                    I2cAddress::SevenBit(addr) => addr as u32,
                    I2cAddress::TenBit(addr) => (0x8000_0000 + addr) as u32,
                };
                seq![value, value]
            },
            Register::To => seq![(v & !0x3fu32) | 0x2e],
            Register::FifoConf => seq![
                v | 0x2000,
                v & !0x2000u32,
                (v & !0x2000u32) | 0x1000,
                v & !0x3000u32,
                v & !0x3400u32,
                (v & !0x37e0u32) | 0x4000,
                (v & !0x37e0u32) | 0x4000,
                (v & !0x37ffu32) | 0x4000 | match config.rx_fifo_wm_threshold {
                    Some(threshold) => (threshold % 32) as u32,
                    None => 31,
                },
            ],
            Register::IntEna => seq![v & !0x3fffu32],
            Register::IntClr => seq![0x3fffu32],
            Register::SdaHold => seq![10u32],
            Register::SdaSample => seq![10u32],
            Register::FilterCfg => seq![(v & !0x3ffu32) | 0x377],
            Register::ClkConf => seq![v & !0x10_0000u32],
            Register::SclStretchConf => seq![v | 0x7ff, v | 0xfff],
            Register::Sr | Register::Data | Register::IntRaw | Register::IntSt => seq![],
        },
{
    let actions = setup_actions(config);
    let w = watermark_bits(config.rx_fifo_wm_threshold);
    assert(init_slave_actions().len() == 7);
    assert(actions.len() == 24);
    lemma_watermark_bits(config.rx_fifo_wm_threshold);
    lemma_watermark_number(config.rx_fifo_wm_threshold);
    lemma_fifo_conf_steps(v, w);
    lemma_setup_bits(v, config.address);
    reveal_with_fuel(value_after_first, 25);
    reveal_with_fuel(history_of_first, 25);
}

/// The bits behind the values of a setup.
proof fn lemma_setup_bits(v: u32, address: I2cAddress)
    ensures
        (0x208u32 & !(0x10u32 | 0x200u32 | 0x40u32 | 0x80u32)) | 0x1u32 | 0x2u32 == 0xb,
        patched(0xb, 0x400, 0x400) == 0x40b,
        patched(0x40b, 0x4000, 0) == 0x40b,
        0x208u32 & !0x8u32 == 0x200,
        patched(0x200, 0x800, 0x800) == 0xa00,
        patched(v, 0x20u32 | 0x1fu32, 0x20u32 | 14u32) == (v & !0x3fu32) | 0x2e,
        patched(v, 0x3fff, 0) == v & !0x3fffu32,
        patched(v, 0x10_0000, 0) == v & !0x10_0000u32,
        patched(v, 0x3ffu32 | 0x400u32, 0x3ffu32 | 0x400u32) == v | 0x7ff,
        patched(v | 0x7ff, 0x800, 0x800) == v | 0xfff,
        patched(v, filter_clear(Some(7u8), Some(7u8)), filter_set(Some(7u8), Some(7u8))) == (v
            & !0x3ffu32) | 0x377,
        address matches I2cAddress::TenBit(addr) ==> addr as u32 | 0x8000_0000u32 == 0x8000_0000
            + addr,
{
    assert((0x208u32 & !(0x10u32 | 0x200u32 | 0x40u32 | 0x80u32)) | 0x1u32 | 0x2u32 == 0xb && (
    0xbu32 & !0x400u32) | 0x400 == 0x40b && (0x40bu32 & !0x4000u32) | 0 == 0x40b && 0x208u32
        & !0x8u32 == 0x200 && (0x200u32 & !0x800u32) | 0x800 == 0xa00 && (v & !(0x20u32 | 0x1fu32))
        | (0x20u32 | 14u32) == (v & !0x3fu32) | 0x2e && (v & !0x3fffu32) | 0 == v & !0x3fffu32 && (v
        & !0x10_0000u32) | 0 == v & !0x10_0000u32 && (v & !(0x3ffu32 | 0x400u32)) | (0x3ffu32
        | 0x400u32) == v | 0x7ff && ((v | 0x7ff) & !0x800u32) | 0x800 == v | 0xfff && (v & !(0xf0u32
        | 0xfu32 | 0x200u32 | 0x100u32)) | ((((7u8 as u32 & 0xf) << 4) | 0x200) | ((7u8 as u32
        & 0xf) | 0x100)) == (v & !0x3ffu32) | 0x377) by (bit_vector);
    if let I2cAddress::TenBit(addr) = address {
        assert(addr as u32 | 0x8000_0000u32 == 0x8000_0000 + addr) by (bit_vector);
    }
}

/// What becomes of each register in a setup that refuses its address: the controller is a slave with
/// empty FIFOs, and that is all.
pub proof fn lemma_refused_setup_step_by_step(v: u32, config: Config, register: Register)
    requires
        match config.address {
            I2cAddress::SevenBit(addr) => addr > 0x7f,
            I2cAddress::TenBit(addr) => addr > 0x3ff,
        },
    ensures
        history(v, register, setup_actions(config)) == match register {
            Register::Ctr => seq![0x00bu32, 0x40b],
            Register::FifoConf => seq![
                v | 0x2000,
                v & !0x2000u32,
                (v & !0x2000u32) | 0x1000,
                v & !0x3000u32,
                v & !0x3400u32,
            ],
            _ => seq![],
        },
{
    assert(0u32 & !0x1fu32 == 0) by (bit_vector);
    lemma_fifo_conf_steps(v, 0);
    lemma_setup_bits(v, config.address);
    assert(setup_actions(config).len() == 7);
    reveal_with_fuel(value_after_first, 8);
    reveal_with_fuel(history_of_first, 8);
}

/// After a setup the slave address register holds the address itself: its number in the low bits,
/// and in the top bit whether it is one of ten bits. A number that does not fit its width leaves
/// the register as it was.
pub proof fn lemma_setup_takes_the_address(registers: Registers, config: Config)
    ensures
        ({
            let before = registers(Register::SlaveAddr);
            let value = after(registers, setup_actions(config))(Register::SlaveAddr);
            match config.address {
                I2cAddress::SevenBit(addr) => if addr <= 0x7f {
                    value == addr && value & 0x7fff == addr && value & 0x8000_0000 == 0
                } else {
                    value == before
                },
                I2cAddress::TenBit(addr) => if addr <= 0x3ff {
                    value == 0x8000_0000 + addr && value & 0x7fff == addr && value & 0x8000_0000
                        == 0x8000_0000
                } else {
                    value == before
                },
            }
        }),
{
    let v = registers(Register::SlaveAddr);
    lemma_history_ends_in_register(registers, setup_actions(config), Register::SlaveAddr);
    let value = after(registers, setup_actions(config))(Register::SlaveAddr);
    if config.address.valid() {
        lemma_setup_step_by_step(v, config, Register::SlaveAddr);
        match config.address {
            I2cAddress::SevenBit(addr) => {
                let number = addr as u32;
                assert(number & 0x7fff == number && number & 0x8000_0000 == 0) by (bit_vector)
                    requires
                        number <= 0x7f,
                ;
            },
            I2cAddress::TenBit(addr) => {
                let number = addr as u32;
                assert(value & 0x7fff == number && value & 0x8000_0000 == 0x8000_0000)
                    by (bit_vector)
                    requires
                        number <= 0x3ff,
                        value == 0x8000_0000 + number,
                ;
            },
        }
    } else {
        lemma_refused_setup_step_by_step(v, config, Register::SlaveAddr);
    }
}

/// Setups with different addresses leave different values in the slave address register, also where
/// the numbers are the same and only the widths differ.
pub proof fn lemma_addresses_are_told_apart(registers: Registers, one: Config, other: Config)
    requires
        one.address.valid(),
        other.address.valid(),
        one.address != other.address,
    ensures
        after(registers, setup_actions(one))(Register::SlaveAddr) != after(
            registers,
            setup_actions(other),
        )(Register::SlaveAddr),
{
    lemma_setup_takes_the_address(registers, one);
    lemma_setup_takes_the_address(registers, other);
}

/// The watermark field of the FIFO configuration holds the threshold after a setup, taken modulo the
/// size of the FIFO, and the largest number without a threshold. Thresholds below the size of the
/// FIFO are kept as they are.
pub proof fn lemma_setup_takes_the_threshold(registers: Registers, config: Config)
    requires
        config.address.valid(),
    ensures
        ({
            let field = after(registers, setup_actions(config))(Register::FifoConf) & 0x1f;
            match config.rx_fifo_wm_threshold {
                Some(threshold) => field == threshold % 32 && (threshold < 32 ==> field
                    == threshold),
                None => field == 31,
            }
        }),
{
    let v = registers(Register::FifoConf);
    lemma_history_ends_in_register(registers, setup_actions(config), Register::FifoConf);
    lemma_setup_step_by_step(v, config, Register::FifoConf);
    let w: u32 = match config.rx_fifo_wm_threshold {
        Some(threshold) => (threshold % 32) as u32,
        None => 31,
    };
    assert(((v & !0x37ffu32) | 0x4000 | w) & 0x1f == w) by (bit_vector)
        requires
            w < 32,
    ;
}

/// The order of a setup: the controller is made a slave first, the FIFOs are reset before anything
/// is configured, interrupts are switched off before they are cleared, and the configuration is
/// handed over to the hardware last. Nothing but registers is touched.
pub proof fn lemma_setup_order(config: Config)
    ensures
        ({
            let actions = setup_actions(config);
            &&& changes(actions[0], Register::Ctr)
            &&& forall|i: int|
                0 <= i < actions.len() ==> #[trigger] actions[i] is Write || actions[i] is Modify
            &&& forall|i: int|
                0 < i < 7 ==> changes(#[trigger] actions[i], Register::FifoConf) || changes(
                    actions[i],
                    Register::Ctr,
                )
            &&& config.address.valid() ==> actions.last() == (Action::Modify {
                register: Register::Ctr,
                clear: 0x800,
                set: 0x800,
            })
            &&& forall|i: int, j: int|
                0 <= i < actions.len() && 0 <= j < actions.len() && changes(
                    #[trigger] actions[i],
                    Register::IntEna,
                ) && changes(#[trigger] actions[j], Register::IntClr) ==> i < j
        }),
{
    let actions = setup_actions(config);
    assert(actions.len() == if config.address.valid() {
        24int
    } else {
        7
    });
    if config.address.valid() {
        assert forall|i: int| 0 <= i < 7 implies actions[i] == init_slave_actions()[i] by {}
        assert forall|i: int| 7 <= i < 24 implies actions[i] == configure_actions(config)[i - 7] by {
        }
    }
}

/// Where a pin is connected, for every pin: exactly one output configuration is applied, to that pin,
/// and it is open drain with a pull-up. The output level is set high exactly once. Both come before
/// the only time that the output is switched on. The input is switched on as well, then each of
/// the two signals is connected to the pin once, and last the pin held before is let go, if there
/// was one.
pub proof fn lemma_connected_pin_is_open_drain(
    pin: Pin,
    input: InputSignal,
    output: OutputSignal,
    held: PinGuard,
) -> (places: (int, int, int, int, int, int))
    ensures
        ({
            let actions = connect_pin_actions(pin, input, output, held);
            let (high, applied, driving, listening, fed, routed) = places;
            &&& 0 <= high < driving && 0 <= applied < driving
            &&& driving < fed < actions.len() && driving < routed < actions.len()
            &&& 0 <= listening < fed
            &&& actions[high] == (Action::SetOutputHigh { pin, high: true })
            &&& actions[applied] == (Action::ApplyOutputConfig {
                pin,
                config: OutputConfig { drive_mode: DriveMode::OpenDrain, pull: Pull::Up },
            })
            &&& actions[driving] == (Action::SetOutputEnable { pin, enable: true })
            &&& actions[listening] == (Action::SetInputEnable { pin, enable: true })
            &&& actions[fed] == (Action::ConnectInput { input, pin })
            &&& actions[routed] == (Action::ConnectOutput { output, pin })
            &&& forall|i: int|
                0 <= i < actions.len() ==> match #[trigger] actions[i] {
                    Action::SetOutputHigh { .. } => i == high,
                    Action::ApplyOutputConfig { .. } => i == applied,
                    Action::SetOutputEnable { .. } => i == driving,
                    Action::SetInputEnable { .. } => i == listening,
                    Action::ConnectInput { .. } => i == fed,
                    Action::ConnectOutput { .. } => i == routed,
                    Action::ReleasePin { guard } => i == actions.len() - 1 && i > fed && i > routed
                        && guard == held && held is Connected,
                    _ => false,
                }
            &&& held is Connected ==> actions.last() == (Action::ReleasePin { guard: held })
        }),
{
    (0, 1, 2, 3, 4, 5)
}

/// Setting the glitch filters changes the filter register once, and no other: bits 4 to 7 get the
/// SDA threshold and bits 0 to 3 the SCL threshold, bit 9 and bit 8 say whether there is one, and a
/// line without one keeps its threshold bits.
pub proof fn lemma_filter_register(
    registers: Registers,
    sda: Option<u8>,
    scl: Option<u8>,
    register: Register,
)
    ensures
        ({
            let before = registers(register);
            let value = after(registers, seq![filter_action(sda, scl)])(register);
            if register == Register::FilterCfg {
                &&& (value >> 4) & 0xf == match sda {
                    Some(threshold) => (threshold % 16) as u32,
                    None => (before >> 4) & 0xf,
                }
                &&& value & 0xf == match scl {
                    Some(threshold) => (threshold % 16) as u32,
                    None => before & 0xf,
                }
                &&& (value >> 9) & 1 == (if sda is Some { 1u32 } else { 0 })
                &&& (value >> 8) & 1 == (if scl is Some { 1u32 } else { 0 })
                &&& value >> 10 == before >> 10
            } else {
                value == before
            }
        }),
{
    let actions = seq![filter_action(sda, scl)];
    reveal_with_fuel(value_after_first, 2);
    lemma_register_after(registers, actions, register);
    if register == Register::FilterCfg {
        let before = registers(register);
        let value = after(registers, actions)(register);
        lemma_filter_fields(before, sda, scl);
        let a: u8 = match sda {
            Some(threshold) => threshold,
            None => 0,
        };
        let b: u8 = match scl {
            Some(threshold) => threshold,
            None => 0,
        };
        let x = sda is Some;
        let y = scl is Some;
        assert((x ==> (value >> 4) & 0xf == a % 16 && (value >> 9) & 1 == 1) && (!x ==> (value >> 4)
            & 0xf == (before >> 4) & 0xf && (value >> 9) & 1 == 0) && (y ==> value & 0xf == b % 16
            && (value >> 8) & 1 == 1) && (!y ==> value & 0xf == before & 0xf && (value >> 8) & 1
            == 0) && value >> 10 == before >> 10) by (bit_vector)
            requires
                x ==> value & 0xf0 == (a as u32 & 0xf) << 4 && value & 0x200 == 0x200,
                !x ==> value & 0xf0 == before & 0xf0 && value & 0x200 == 0,
                y ==> value & 0x0f == b as u32 & 0xf && value & 0x100 == 0x100,
                !y ==> value & 0x0f == before & 0x0f && value & 0x100 == 0,
                value & !0x3ffu32 == before & !0x3ffu32,
        ;
    }
}

} // verus!
