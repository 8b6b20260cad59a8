//! The I2C slave driver.

use core::marker::PhantomData;

use vstd::prelude::*;

use crate::config::{Config, ConfigError, Error};
use crate::driver::{
    connect_pin_actions, lemma_refused_setup_keeps_registers, lemma_setup_configures,
    lemma_setup_order, release_pin, release_pin_actions, setup_actions, Driver, DriverConfig,
};
use crate::event::{
    events_in, events_mask, lemma_mask_adds_events, lemma_mask_bit_by_bit,
    lemma_mask_removes_events, Event, EventSet,
};
use crate::instance::{
    clear_interrupts_action, enable_listen_action, lemma_full_mask, lemma_handler_takes_over,
    set_handler_actions, AnyI2c, Info, Instance,
};
use crate::plan::{
    after, history, history_of_first, lemma_after_concat, lemma_history_concat,
    lemma_history_ends_in_register, lemma_register_after, value_after_first, Action, Plan,
    Registers,
};
use crate::platform::{InterruptHandler, Peripheral, PeripheralGuard, Pin, PinGuard};
use crate::register::{patched, Register, INT_CONFIG_MASK};
use crate::state::State;

verus! {

/// How the operations of a driver wait.
pub trait DriverMode {

}

/// A driver whose operations block.
#[derive(Clone, Copy, Debug)]
pub struct Blocking;

/// A driver whose operations can be awaited.
#[derive(Clone, Copy, Debug)]
pub struct Async;

impl DriverMode for Blocking {

}

impl DriverMode for Async {

}

/// I2C slave driver
///
/// Every operation adds to a plan what is to be done to the hardware. The plan is to be carried
/// out also when the operation fails.
#[derive(Debug)]
pub struct I2c<Dm: DriverMode> {
    i2c: AnyI2c,
    phantom: PhantomData<Dm>,
    guard: PeripheralGuard,
    config: DriverConfig,
}

/// What creating a driver does: the peripheral is switched on, its interrupt is given to the driver
/// and the configuration is applied. A driver whose configuration is refused lets the peripheral go
/// again.
pub open spec fn new_actions(info: Info, config: Config) -> Seq<Action> {
    seq![Action::EnablePeripheral { peripheral: info.peripheral }] + set_handler_actions(
        info.peripheral,
        info.async_handler,
    ) + setup_actions(config) + (if config.address.valid() {
        seq![]
    } else {
        seq![
            Action::ReleasePeripheral {
                guard: PeripheralGuard { peripheral: info.peripheral },
            },
        ]
    })
}

/// What giving a driver up does: the peripheral and the pins are let go.
pub open spec fn release_actions(guard: PeripheralGuard, config: DriverConfig) -> Seq<Action> {
    seq![Action::ReleasePeripheral { guard }] + release_pin_actions(config.sda_pin)
        + release_pin_actions(config.scl_pin)
}

/// The interrupts that a driver with a callback listens for: the watermark only if one is
/// configured.
pub open spec fn callback_events(config: Config) -> Set<Event> {
    let always = set![Event::TransComplete, Event::SlaveStretch, Event::Nack];
    if config.rx_fifo_wm_threshold is Some {
        always.insert(Event::RxFifoWatermark)
    } else {
        always
    }
}

/// What registering a callback does: the driver stops listening for anything, and then listens for
/// what the callback needs.
pub open spec fn register_actions(config: Config) -> Seq<Action> {
    seq![
        enable_listen_action(Set::full(), false),
        enable_listen_action(callback_events(config), true),
    ]
}

impl<Dm: DriverMode> I2c<Dm> {
    /// The instance that the driver runs.
    pub closed spec fn instance(&self) -> AnyI2c {
        self.i2c
    }

    /// The data describing the instance that the driver runs.
    pub open spec fn description(&self) -> Info {
        self.instance().description()
    }

    /// What keeps the peripheral switched on.
    pub closed spec fn peripheral_guard(&self) -> PeripheralGuard {
        self.guard
    }

    /// The configuration that was applied last, with the pins.
    pub closed spec fn driver_config(&self) -> DriverConfig {
        self.config
    }

    /// Whether the driver keeps the peripheral that it runs switched on.
    pub open spec fn wf(&self) -> bool {
        self.peripheral_guard().peripheral == self.description().peripheral
    }

    /// Whether two drivers run the same instance.
    pub open spec fn runs_same<Other: DriverMode>(&self, other: &I2c<Other>) -> bool {
        self.instance() == other.instance() && self.peripheral_guard() == other.peripheral_guard()
    }

    fn driver(&self) -> (driver: Driver<'_>)
        ensures
            *driver.info == self.description(),
            *driver.config == self.driver_config(),
    {
        Driver { info: self.i2c.info(), config: &self.config }
    }

    /// Returns the data describing the instance that the driver runs.
    pub fn info(&self) -> (info: &Info)
        ensures
            *info == self.description(),
    {
        self.i2c.info()
    }

    /// Plans to connect a pin to the I2C SDA signal.
    ///
    /// This will replace previous pin assignments for this signal.
    pub fn with_sda(self, sda: Pin, plan: &mut Plan) -> (driver: Self)
        ensures
            driver.runs_same(&self),
            self.wf() ==> driver.wf(),
            driver.driver_config() == (DriverConfig {
                sda_pin: PinGuard::Connected { pin: sda, signal: self.description().sda_output },
                ..self.driver_config()
            }),
            final(plan)@ == old(plan)@ + connect_pin_actions(
                sda,
                self.description().sda_input,
                self.description().sda_output,
                self.driver_config().sda_pin,
            ),
    {
        let info: Info = *self.driver().info;
        let mut driver = self;
        Driver::connect_pin(
            sda,
            info.sda_input,
            info.sda_output,
            &mut driver.config.sda_pin,
            plan,
        );
        driver
    }

    /// Plans to connect a pin to the I2C SCL signal.
    ///
    /// This will replace previous pin assignments for this signal.
    pub fn with_scl(self, scl: Pin, plan: &mut Plan) -> (driver: Self)
        ensures
            driver.runs_same(&self),
            self.wf() ==> driver.wf(),
            driver.driver_config() == (DriverConfig {
                scl_pin: PinGuard::Connected { pin: scl, signal: self.description().scl_output },
                ..self.driver_config()
            }),
            final(plan)@ == old(plan)@ + connect_pin_actions(
                scl,
                self.description().scl_input,
                self.description().scl_output,
                self.driver_config().scl_pin,
            ),
    {
        let info: Info = *self.driver().info;
        let mut driver = self;
        Driver::connect_pin(
            scl,
            info.scl_input,
            info.scl_output,
            &mut driver.config.scl_pin,
            plan,
        );
        driver
    }

    /// Plans what giving the driver up takes.
    pub fn release(self, plan: &mut Plan)
        ensures
            final(plan)@ == old(plan)@ + release_actions(
                self.peripheral_guard(),
                self.driver_config(),
            ),
    {
        plan.push(Action::ReleasePeripheral { guard: self.guard });
        release_pin(self.config.sda_pin, plan);
        release_pin(self.config.scl_pin, plan);
    }

    /// Writes data to be sent to the master.
    ///
    /// Only the event callback can provide data so far. What is refused here is a buffer without
    /// any.
    pub fn write(&mut self, buffer: &[u8]) -> (result: Result<usize, Error>)
        requires
            buffer@.len() == 0,
        ensures
            result == Err::<usize, Error>(Error::ZeroLengthInvalid),
            *final(self) == *old(self),
    {
        Err(Error::ZeroLengthInvalid)
    }

    /// Plans to apply a new configuration.
    ///
    /// ## Errors
    ///
    /// A [`ConfigError`] variant will be returned if the address in the configuration is invalid.
    /// The driver remembers the configuration all the same.
    pub fn apply_config(&mut self, config: &Config, plan: &mut Plan) -> (result: Result<
        (),
        ConfigError,
    >)
        ensures
            result == if config.address.valid() {
                Ok::<(), ConfigError>(())
            } else {
                Err(ConfigError::AddressInvalid)
            },
            final(self).runs_same(old(self)),
            old(self).wf() ==> final(self).wf(),
            final(self).driver_config() == (DriverConfig {
                config: *config,
                ..old(self).driver_config()
            }),
            final(plan)@ == old(plan)@ + setup_actions(*config),
    {
        self.config.config = *config;
        self.driver().setup(config, plan)
    }
}

impl I2c<Blocking> {
    /// Plans a new I2C slave driver.
    ///
    /// ## Errors
    ///
    /// A [`ConfigError`] variant will be returned if the slave address
    /// passed in config is invalid.
    pub fn new<I: Instance>(i2c: I, config: Config, plan: &mut Plan) -> (result: Result<
        Self,
        ConfigError,
    >)
        ensures
            result is Ok <==> config.address.valid(),
            result matches Ok(driver) ==> {
                &&& driver.wf()
                &&& driver.instance() == i2c.spec_any()
                &&& driver.driver_config() == (DriverConfig {
                    config,
                    sda_pin: PinGuard::Unconnected,
                    scl_pin: PinGuard::Unconnected,
                })
            },
            result matches Err(error) ==> error == ConfigError::AddressInvalid,
            final(plan)@ == old(plan)@ + new_actions(i2c.spec_any().description(), config),
    {
        let peripheral = i2c.info().peripheral;
        plan.push(Action::EnablePeripheral { peripheral });
        let mut driver = I2c {
            i2c: i2c.degrade(),
            phantom: PhantomData,
            guard: PeripheralGuard { peripheral },
            config: DriverConfig {
                config,
                sda_pin: PinGuard::Unconnected,
                scl_pin: PinGuard::Unconnected,
            },
        };
        // The handler is needed in blocking mode, too.
        let handler: InterruptHandler = driver.driver().info.async_handler;
        driver.set_interrupt_handler(handler, plan);
        let applied = driver.apply_config(&config, plan);
        match applied {
            Ok(()) => Ok(driver),
            Err(error) => {
                driver.release(plan);
                Err(error)
            },
        }
    }

    /// Reconfigures the driver to operate in [`Async`] mode.
    pub fn into_async(self, plan: &mut Plan) -> (driver: I2c<Async>)
        ensures
            driver.runs_same(&self),
            self.wf() ==> driver.wf(),
            driver.driver_config() == self.driver_config(),
            final(plan)@ == old(plan)@ + set_handler_actions(
                self.description().peripheral,
                self.description().async_handler,
            ),
    {
        let mut driver = self;
        let handler: InterruptHandler = driver.driver().info.async_handler;
        driver.set_interrupt_handler(handler, plan);
        I2c {
            i2c: driver.i2c,
            phantom: PhantomData,
            guard: driver.guard,
            config: driver.config,
        }
    }

    /// Plans to give the interrupt of the driver to another handler.
    pub fn set_interrupt_handler(&mut self, handler: InterruptHandler, plan: &mut Plan)
        ensures
            *final(self) == *old(self),
            final(plan)@ == old(plan)@ + set_handler_actions(
                old(self).description().peripheral,
                handler,
            ),
    {
        self.i2c.set_interrupt_handler(handler, plan);
    }

    /// Plans to listen for the given interrupts.
    pub fn listen(&mut self, interrupts: EventSet, plan: &mut Plan)
        ensures
            *final(self) == *old(self),
            final(plan)@ == old(plan)@.push(enable_listen_action(interrupts@, true)),
    {
        self.i2c.info().enable_listen(interrupts, true, plan);
    }

    /// Plans to stop listening for the given interrupts.
    pub fn unlisten(&mut self, interrupts: EventSet, plan: &mut Plan)
        ensures
            *final(self) == *old(self),
            final(plan)@ == old(plan)@.push(enable_listen_action(interrupts@, false)),
    {
        self.i2c.info().enable_listen(interrupts, false, plan);
    }

    /// Gets asserted interrupts, given the raw interrupt status.
    pub fn interrupts(&mut self, raw: u32) -> (events: EventSet)
        ensures
            *final(self) == *old(self),
            events@ == events_in(raw),
    {
        self.i2c.info().interrupts(raw)
    }

    /// Plans to reset asserted interrupts.
    pub fn clear_interrupts(&mut self, interrupts: EventSet, plan: &mut Plan)
        ensures
            *final(self) == *old(self),
            final(plan)@ == old(plan)@.push(clear_interrupts_action(interrupts@)),
    {
        self.i2c.info().clear_interrupts(interrupts, plan);
    }

    /// Registers the callback for I2C slave events, and plans to listen for them.
    ///
    /// This is currently the only way to handle data transfers in slave mode.
    pub fn register_callbacks<C>(&mut self, state: &mut State<C>, on_event: C, plan: &mut Plan)
        ensures
            *final(self) == *old(self),
            final(state).callback == Some(on_event),
            final(state).rx_count() == old(state).rx_count(),
            final(plan)@ == old(plan)@ + register_actions(old(self).driver_config().config),
    {
        state.callback = Some(on_event);
        self.unlisten(EventSet::all(), plan);
        let mut ints_to_enable: EventSet = EventSet::only(Event::TransComplete).union(
            EventSet::only(Event::SlaveStretch),
        ).union(EventSet::only(Event::Nack));
        assert(ints_to_enable@ =~= set![Event::TransComplete, Event::SlaveStretch, Event::Nack]);
        if self.config.config.rx_fifo_wm_threshold.is_some() {
            ints_to_enable.insert(Event::RxFifoWatermark);
        }
        self.listen(ints_to_enable, plan);
    }
}

/// Listening for some interrupts enables these, and touches no other.
pub proof fn lemma_listen_enables(registers: Registers, events: Set<Event>)
    ensures
        ({
            let enabled = after(registers, seq![enable_listen_action(events, true)])(
                Register::IntEna,
            );
            &&& events_in(enabled) == events_in(registers(Register::IntEna)).union(events)
            &&& enabled & !events_mask(Set::full()) == registers(Register::IntEna) & !events_mask(
                Set::full(),
            )
        }),
{
    let actions = seq![enable_listen_action(events, true)];
    reveal_with_fuel(value_after_first, 2);
    lemma_register_after(registers, actions, Register::IntEna);
    lemma_mask_adds_events(registers(Register::IntEna), events);
}

/// Stopping to listen for some interrupts disables these, and touches no other.
pub proof fn lemma_unlisten_disables(registers: Registers, events: Set<Event>)
    ensures
        ({
            let enabled = after(registers, seq![enable_listen_action(events, false)])(
                Register::IntEna,
            );
            &&& events_in(enabled) == events_in(registers(Register::IntEna)).difference(events)
            &&& enabled & !events_mask(Set::full()) == registers(Register::IntEna) & !events_mask(
                Set::full(),
            )
        }),
{
    let actions = seq![enable_listen_action(events, false)];
    reveal_with_fuel(value_after_first, 2);
    lemma_register_after(registers, actions, Register::IntEna);
    lemma_mask_removes_events(registers(Register::IntEna), events);
}

/// Whatever the driver listened for before, after a callback is registered it listens for what the
/// callback needs and for nothing else that it knows. Interrupts that it does not know stay as
/// they were.
pub proof fn lemma_callback_gets_its_events(registers: Registers, config: Config)
    ensures
        ({
            let enabled = after(registers, register_actions(config))(Register::IntEna);
            &&& events_in(enabled) == callback_events(config)
            &&& enabled & !events_mask(Set::full()) == registers(Register::IntEna) & !events_mask(
                Set::full(),
            )
        }),
{
    let actions = register_actions(config);
    reveal_with_fuel(value_after_first, 3);
    lemma_register_after(registers, actions, Register::IntEna);
    let value = registers(Register::IntEna);
    let none = patched(value, events_mask(Set::full()), 0);
    lemma_mask_removes_events(value, Set::full());
    lemma_mask_adds_events(none, callback_events(config));
    let enabled = after(registers, actions)(Register::IntEna);
    assert(events_in(enabled) =~= callback_events(config));
}

/// Without a watermark threshold the driver does not listen for the watermark, and with one it
/// does.
pub proof fn lemma_watermark_is_optional(config: Config)
    ensures
        callback_events(config).contains(Event::RxFifoWatermark)
            <==> config.rx_fifo_wm_threshold is Some,
{
}

/// Clearing some of the asserted interrupts leaves the others asserted: a bit that is written to
/// the clear register goes to zero in the raw status.
pub proof fn lemma_clear_leaves_the_rest(raw: u32, events: Set<Event>)
    ensures
        events_in(patched(raw, events_mask(events), 0)) == events_in(raw).difference(events),
{
    lemma_mask_removes_events(raw, events);
}

/// A handler that takes the interrupt over starts with no interrupt enabled that the driver knows.
pub proof fn lemma_new_handler_starts_silent(
    registers: Registers,
    peripheral: Peripheral,
    handler: InterruptHandler,
)
    ensures
        events_in(
            after(registers, set_handler_actions(peripheral, handler))(Register::IntEna),
        ) == Set::<Event>::empty(),
{
    let actions = set_handler_actions(peripheral, handler);
    assert(actions.len() == 5);
    reveal_with_fuel(value_after_first, 6);
    lemma_register_after(registers, actions, Register::IntEna);
    let value = registers(Register::IntEna);
    lemma_mask_removes_events(value, Set::full());
    assert(events_in(value).difference(Set::full()) =~= Set::empty());
}

/// A configuration that is applied takes all interrupts away that the driver knows, but for that of
/// a stretched clock, which stays as it was. They come back when a callback is registered.
pub proof fn lemma_configuration_keeps_only_stretch(registers: Registers, config: Config)
    requires
        config.address.valid(),
    ensures
        events_in(after(registers, setup_actions(config))(Register::IntEna)) == events_in(
            registers(Register::IntEna),
        ).intersect(set![Event::SlaveStretch]),
{
    let v = registers(Register::IntEna);
    let w = patched(v, INT_CONFIG_MASK, 0);
    lemma_setup_configures(registers, config, Register::IntEna);
    assert(w & 0x8 == 0 && w & 0x80 == 0 && w & 0x1 == 0 && w & 0x400 == 0 && (w & 0x1_0000 == v
        & 0x1_0000)) by (bit_vector)
        requires
            w == (v & !0x3fffu32) | 0u32,
    ;
    assert(events_in(w) =~= events_in(v).intersect(set![Event::SlaveStretch]));
}

/// A new driver listens for nothing, whatever was enabled before.
pub proof fn lemma_new_driver_listens_for_nothing(registers: Registers, info: Info, config: Config)
    ensures
        events_in(after(registers, new_actions(info, config))(Register::IntEna)) == Set::<
            Event,
        >::empty(),
{
    let switch_on = seq![Action::EnablePeripheral { peripheral: info.peripheral }];
    let handler = set_handler_actions(info.peripheral, info.async_handler);
    let end = if config.address.valid() {
        Seq::<Action>::empty()
    } else {
        seq![
            Action::ReleasePeripheral {
                guard: PeripheralGuard { peripheral: info.peripheral },
            },
        ]
    };
    lemma_after_concat(registers, switch_on + handler + setup_actions(config), end);
    lemma_after_concat(registers, switch_on + handler, setup_actions(config));
    lemma_after_concat(registers, switch_on, handler);
    let on = after(registers, switch_on);
    let handled = after(on, handler);
    let ready = after(handled, setup_actions(config));
    lemma_new_handler_starts_silent(on, info.peripheral, info.async_handler);
    if config.address.valid() {
        lemma_configuration_keeps_only_stretch(handled, config);
    } else {
        lemma_refused_setup_keeps_registers(handled, config, Register::IntEna);
        reveal_with_fuel(value_after_first, 2);
        lemma_register_after(ready, end, Register::IntEna);
    }
    assert(events_in(ready(Register::IntEna)) =~= Set::empty());
}

/// The mask of the events that a callback needs.
proof fn lemma_callback_mask(config: Config)
    ensures
        events_mask(callback_events(config)) == if config.rx_fifo_wm_threshold is Some {
            0x1_0481
        } else {
            0x1_0480u32
        },
{
    let mask = events_mask(callback_events(config));
    let watermark = config.rx_fifo_wm_threshold is Some;
    lemma_mask_bit_by_bit(callback_events(config));
    assert(mask == if watermark { 0x1_0481 } else { 0x1_0480u32 }) by (bit_vector)
        requires
            mask & 0x1 != 0 <==> watermark,
            mask & 0x8 == 0,
            mask & 0x80 != 0,
            mask & 0x400 != 0,
            mask & 0x1_0000 != 0,
            mask & !0x1_0489u32 == 0,
    ;
}

/// Registering a callback, event by event and for every configuration: the enable register ends up
/// with the bits of the end of a transfer, of a stretched clock and of a NACK set, that of an END
/// condition clear, and that of the watermark set exactly if there is a threshold. In between all
/// five are clear. All other bits stay as they were, and no other register changes.
pub proof fn lemma_callback_bit_by_bit(v: u32, config: Config, register: Register)
    ensures
        ({
            let values = history(v, register, register_actions(config));
            if register == Register::IntEna {
                &&& values.len() == 2
                &&& values[0] == v & !0x1_0489u32
                &&& values[1] & 0x80 != 0
                &&& values[1] & 0x1_0000 != 0
                &&& values[1] & 0x400 != 0
                &&& values[1] & 0x8 == 0
                &&& values[1] & 0x1 != 0 <==> config.rx_fifo_wm_threshold is Some
                &&& values[1] & !0x1_0489u32 == v & !0x1_0489u32
            } else {
                values.len() == 0
            }
        }),
        forall|i: int|
            0 <= i < register_actions(config).len() ==> #[trigger] register_actions(
                config,
            )[i] is Modify,
{
    lemma_full_mask();
    lemma_callback_mask(config);
    let mask = events_mask(callback_events(config));
    let silent = (v & !0x1_0489u32) | 0;
    let value = (silent & !mask) | mask;
    assert(silent == v & !0x1_0489u32 && value & 0x80 != 0 && value & 0x1_0000 != 0 && value & 0x400
        != 0 && value & 0x8 == 0 && (value & 0x1 != 0 <==> mask == 0x1_0481) && value & !0x1_0489u32
        == v & !0x1_0489u32) by (bit_vector)
        requires
            silent == (v & !0x1_0489u32) | 0,
            value == (silent & !mask) | mask,
            mask == 0x1_0481 || mask == 0x1_0480,
    ;
    assert(register_actions(config).len() == 2);
    reveal_with_fuel(value_after_first, 3);
    reveal_with_fuel(history_of_first, 3);
}

/// What stays enabled once a callback is registered, in terms of the registers.
pub proof fn lemma_callback_enables_its_bits(registers: Registers, config: Config)
    ensures
        ({
            let enabled = after(registers, register_actions(config))(Register::IntEna);
            &&& enabled & 0x80 != 0
            &&& enabled & 0x1_0000 != 0
            &&& enabled & 0x400 != 0
            &&& enabled & 0x8 == 0
            &&& enabled & 0x1 != 0 <==> config.rx_fifo_wm_threshold is Some
        }),
{
    lemma_callback_bit_by_bit(registers(Register::IntEna), config, Register::IntEna);
    lemma_history_ends_in_register(registers, register_actions(config), Register::IntEna);
}

/// A new driver: its own peripheral is switched on first, its own interrupt line is disabled, bound
/// to its own handler and enabled at the priority of that handler, each once, and only then is the
/// controller set up. The peripheral is let go exactly if the address is refused, and then last.
pub proof fn lemma_new_driver_keeps_to_its_instance(info: Info, config: Config)
    ensures
        ({
            let actions = new_actions(info, config);
            &&& actions.len() > 6
            &&& actions[0] == (Action::EnablePeripheral { peripheral: info.peripheral })
            &&& forall|i: int|
                0 <= i < actions.len() ==> match #[trigger] actions[i] {
                    Action::EnablePeripheral { .. } => i == 0,
                    Action::DisableInterrupt { peripheral } => i == 1 && peripheral
                        == info.peripheral,
                    Action::BindInterrupt { peripheral, handler } => 1 < i < 5 && peripheral
                        == info.peripheral && handler == info.async_handler.handler,
                    Action::EnableInterrupt { peripheral, priority } => i == 5 && peripheral
                        == info.peripheral && priority == info.async_handler.priority,
                    Action::ReleasePeripheral { guard } => i == actions.len() - 1
                        && guard.peripheral == info.peripheral && !config.address.valid(),
                    Action::Write { .. } | Action::Modify { .. } => true,
                    _ => false,
                }
            &&& !config.address.valid() ==> actions.last() is ReleasePeripheral
            &&& actions[1] is DisableInterrupt
            &&& exists|i: int| 1 < i < 5 && #[trigger] actions[i] is BindInterrupt
            &&& actions[5] is EnableInterrupt
        }),
{
    let actions = new_actions(info, config);
    let handler = set_handler_actions(info.peripheral, info.async_handler);
    let setup = setup_actions(config);
    let bound = lemma_handler_takes_over(info.peripheral, info.async_handler, 0, Register::Ctr);
    lemma_setup_order(config);
    assert(handler.len() == 5);
    assert(actions[1 + bound] == handler[bound]);
    assert forall|i: int| 1 <= i < 6 implies #[trigger] actions[i] == handler[i - 1] by {}
    assert forall|i: int| 6 <= i < 6 + setup.len() implies #[trigger] actions[i] == setup[i - 6] by {
    }
    assert(setup.len() >= 7);
}

/// What a new driver makes of the registers: the interrupts of the driver are switched off and
/// cleared, and from there on it is the setup.
pub proof fn lemma_new_driver_step_by_step(v: u32, info: Info, config: Config, register: Register)
    ensures
        history(v, register, new_actions(info, config)) == match register {
            Register::IntEna => seq![v & !0x1_0489u32] + history(
                v & !0x1_0489u32,
                register,
                setup_actions(config),
            ),
            Register::IntClr => seq![0x1_0489u32] + history(
                0x1_0489,
                register,
                setup_actions(config),
            ),
            _ => history(v, register, setup_actions(config)),
        },
{
    let on = seq![Action::EnablePeripheral { peripheral: info.peripheral }];
    let handler = set_handler_actions(info.peripheral, info.async_handler);
    let end = if config.address.valid() {
        Seq::<Action>::empty()
    } else {
        seq![
            Action::ReleasePeripheral {
                guard: PeripheralGuard { peripheral: info.peripheral },
            },
        ]
    };
    let setup = setup_actions(config);
    reveal_with_fuel(history_of_first, 2);
    let silent = if register == Register::IntEna {
        v & !0x1_0489u32
    } else if register == Register::IntClr {
        0x1_0489
    } else {
        v
    };
    assert(history(v, register, on) =~= seq![]);
    let _ = lemma_handler_takes_over(info.peripheral, info.async_handler, v, register);
    lemma_history_concat(v, register, on, handler);
    assert(history(v, register, on + handler) =~= history(v, register, handler));
    lemma_history_concat(v, register, on + handler, setup);
    lemma_history_concat(v, register, on + handler + setup, end);
    let all = history(v, register, on + handler + setup);
    assert(all == history(v, register, handler) + history(silent, register, setup));
    let last = if all.len() > 0 {
        all.last()
    } else {
        v
    };
    assert(history(last, register, end) =~= seq![]);
}

/// Giving a driver up lets go of its peripheral and of each pin that it holds, once each, and does
/// nothing else.
pub proof fn lemma_release_lets_go_of_everything(guard: PeripheralGuard, config: DriverConfig)
    ensures
        ({
            let actions = release_actions(guard, config);
            &&& actions[0] == (Action::ReleasePeripheral { guard })
            &&& actions.len() == 1 + (if config.sda_pin is Connected { 1int } else { 0 }) + (
            if config.scl_pin is Connected { 1int } else { 0 })
            &&& config.sda_pin is Connected ==> actions[1] == (Action::ReleasePin {
                guard: config.sda_pin,
            })
            &&& config.scl_pin is Connected ==> actions.last() == (Action::ReleasePin {
                guard: config.scl_pin,
            })
        }),
{
}

} // verus!
