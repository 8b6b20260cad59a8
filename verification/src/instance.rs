//! The instances of the controller on the chip.

use vstd::prelude::*;
use vstd::std_specs::cmp::{PartialEqSpec, PartialEqSpecImpl};

use crate::event::{events_in, events_mask, lemma_mask_bit_by_bit, Event, EventSet};
use crate::plan::{
    after, history, history_of_first, lemma_register_after, value_after_first, Action, Plan,
    Registers,
};
use crate::platform::{InputSignal, InterruptHandler, OutputSignal, Peripheral};
use crate::register::Register;

verus! {

/// Data describing a particular I2C instance.
#[derive(Clone, Copy, Debug)]
#[non_exhaustive]
pub struct Info {
    /// Address of the register block of this I2C instance.
    pub register_block: usize,
    /// System peripheral marker.
    pub peripheral: Peripheral,
    /// Interrupt handler for the asynchronous operations of this I2C instance.
    pub async_handler: InterruptHandler,
    /// SCL output signal.
    pub scl_output: OutputSignal,
    /// SCL input signal.
    pub scl_input: InputSignal,
    /// SDA output signal.
    pub sda_output: OutputSignal,
    /// SDA input signal.
    pub sda_input: InputSignal,
}

/// Two descriptions are equal if they are of the same register block.
impl PartialEq for Info {
    fn eq(&self, other: &Self) -> (equal: bool) {
        self.register_block == other.register_block
    }
}

impl PartialEqSpecImpl for Info {
    open spec fn obeys_eq_spec() -> bool {
        true
    }

    open spec fn eq_spec(&self, other: &Self) -> bool {
        self.register_block == other.register_block
    }
}

/// Switching a set of interrupts on or off.
pub open spec fn enable_listen_action(events: Set<Event>, enable: bool) -> Action {
    Action::Modify {
        register: Register::IntEna,
        clear: events_mask(events),
        set: if enable {
            events_mask(events)
        } else {
            0
        },
    }
}

/// Clearing a set of interrupts.
pub open spec fn clear_interrupts_action(events: Set<Event>) -> Action {
    Action::Write { register: Register::IntClr, value: events_mask(events) }
}

impl Info {
    /// Describes an I2C instance.
    pub fn new(
        register_block: usize,
        peripheral: Peripheral,
        async_handler: InterruptHandler,
        scl_output: OutputSignal,
        scl_input: InputSignal,
        sda_output: OutputSignal,
        sda_input: InputSignal,
    ) -> (info: Self)
        ensures
            info == (Info {
                register_block,
                peripheral,
                async_handler,
                scl_output,
                scl_input,
                sda_output,
                sda_input,
            }),
    {
        Info {
            register_block,
            peripheral,
            async_handler,
            scl_output,
            scl_input,
            sda_output,
            sda_input,
        }
    }

    /// Returns the address of the register block of this I2C instance.
    pub fn regs(&self) -> (address: usize)
        ensures
            address == self.register_block,
    {
        self.register_block
    }

    /// Plans to listen for the given interrupts, or to stop to.
    pub fn enable_listen(&self, interrupts: EventSet, enable: bool, plan: &mut Plan)
        ensures
            final(plan)@ == old(plan)@.push(enable_listen_action(interrupts@, enable)),
    {
        let mask: u32 = interrupts.mask();
        plan.modify(
            Register::IntEna,
            mask,
            if enable {
                mask
            } else {
                0
            },
        );
    }

    /// Tells which interrupts are asserted, given the raw interrupt status.
    pub fn interrupts(&self, raw: u32) -> (events: EventSet)
        ensures
            events@ == events_in(raw),
    {
        EventSet::from_bits(raw)
    }

    /// Plans to clear the given interrupts.
    pub fn clear_interrupts(&self, interrupts: EventSet, plan: &mut Plan)
        ensures
            final(plan)@ == old(plan)@.push(clear_interrupts_action(interrupts@)),
    {
        plan.write(Register::IntClr, interrupts.mask());
    }
}

/// Giving the interrupt of a peripheral to another handler: the line is disabled, all interrupts
/// are switched off and cleared, the handler is bound, and the line is enabled again.
pub open spec fn set_handler_actions(peripheral: Peripheral, handler: InterruptHandler) -> Seq<
    Action,
> {
    seq![
        Action::DisableInterrupt { peripheral },
        enable_listen_action(Set::full(), false),
        clear_interrupts_action(Set::full()),
        Action::BindInterrupt { peripheral, handler: handler.handler },
        Action::EnableInterrupt { peripheral, priority: handler.priority },
    ]
}

/// An I2C controller that the slave driver can run.
pub trait Instance: Sized {
    /// Which of the instances on the chip this is.
    spec fn spec_any(&self) -> AnyI2c;

    /// Returns the data describing this instance.
    fn info(&self) -> (info: &Info)
        ensures
            *info == self.spec_any().description(),
    ;

    /// Takes this instance as one of any kind.
    fn degrade(self) -> (any: AnyI2c)
        ensures
            any == self.spec_any(),
    ;
}

/// Any I2C peripheral.
#[derive(Clone, Copy, Debug)]
pub enum AnyI2c {
    I2C0(Info),
    I2C1(Info),
}

impl Instance for AnyI2c {
    open spec fn spec_any(&self) -> AnyI2c {
        *self
    }

    fn info(&self) -> (info: &Info) {
        match self {
            AnyI2c::I2C0(info) => info,
            AnyI2c::I2C1(info) => info,
        }
    }

    fn degrade(self) -> (any: AnyI2c) {
        self
    }
}

impl AnyI2c {
    /// The data describing the instance.
    pub open spec fn description(self) -> Info {
        match self {
            AnyI2c::I2C0(info) => info,
            AnyI2c::I2C1(info) => info,
        }
    }

    fn bind_peri_interrupt(&self, handler: usize, plan: &mut Plan)
        ensures
            final(plan)@ == old(plan)@.push(
                Action::BindInterrupt { peripheral: self.description().peripheral, handler },
            ),
    {
        plan.push(Action::BindInterrupt { peripheral: self.info().peripheral, handler });
    }

    fn disable_peri_interrupt(&self, plan: &mut Plan)
        ensures
            final(plan)@ == old(plan)@.push(
                Action::DisableInterrupt { peripheral: self.description().peripheral },
            ),
    {
        plan.push(Action::DisableInterrupt { peripheral: self.info().peripheral });
    }

    fn enable_peri_interrupt(&self, priority: u8, plan: &mut Plan)
        ensures
            final(plan)@ == old(plan)@.push(
                Action::EnableInterrupt { peripheral: self.description().peripheral, priority },
            ),
    {
        plan.push(Action::EnableInterrupt { peripheral: self.info().peripheral, priority });
    }

    /// Plans to give the interrupt of the instance to another handler.
    pub fn set_interrupt_handler(&self, handler: InterruptHandler, plan: &mut Plan)
        ensures
            final(plan)@ == old(plan)@ + set_handler_actions(
                self.description().peripheral,
                handler,
            ),
    {
        self.disable_peri_interrupt(plan);
        self.info().enable_listen(EventSet::all(), false, plan);
        self.info().clear_interrupts(EventSet::all(), plan);
        self.bind_peri_interrupt(handler.handler, plan);
        self.enable_peri_interrupt(handler.priority, plan);
    }
}

/// Listening for events sets their bits in the enable register, and no longer listening clears them.
/// All other bits of it, and all other registers, stay as they were.
pub proof fn lemma_listen_bit_by_bit(
    registers: Registers,
    events: Set<Event>,
    enable: bool,
    register: Register,
)
    ensures
        ({
            let before = registers(register);
            let value = after(registers, seq![enable_listen_action(events, enable)])(register);
            if register == Register::IntEna {
                &&& value & 0x1 == if events.contains(Event::RxFifoWatermark) {
                    if enable { 0x1u32 } else { 0 }
                } else {
                    before & 0x1
                }
                &&& value & 0x8 == if events.contains(Event::EndDetect) {
                    if enable { 0x8u32 } else { 0 }
                } else {
                    before & 0x8
                }
                &&& value & 0x80 == if events.contains(Event::TransComplete) {
                    if enable { 0x80u32 } else { 0 }
                } else {
                    before & 0x80
                }
                &&& value & 0x400 == if events.contains(Event::Nack) {
                    if enable { 0x400u32 } else { 0 }
                } else {
                    before & 0x400
                }
                &&& value & 0x1_0000 == if events.contains(Event::SlaveStretch) {
                    if enable { 0x1_0000u32 } else { 0 }
                } else {
                    before & 0x1_0000
                }
                &&& value & !0x1_0489u32 == before & !0x1_0489u32
            } else {
                value == before
            }
        }),
{
    let actions = seq![enable_listen_action(events, enable)];
    reveal_with_fuel(value_after_first, 2);
    lemma_register_after(registers, actions, register);
    if register == Register::IntEna {
        lemma_mask_bit_by_bit(events);
        let before = registers(register);
        let mask = events_mask(events);
        let set: u32 = if enable { mask } else { 0 };
        let value = (before & !mask) | set;
        let on = enable;
        assert((value & 0x1 == if mask & 0x1 != 0 { if on { 0x1u32 } else { 0 } } else { before
            & 0x1 }) && (value & 0x8 == if mask & 0x8 != 0 { if on { 0x8u32 } else { 0 } } else {
            before & 0x8 }) && (value & 0x80 == if mask & 0x80 != 0 { if on { 0x80u32 } else { 0 }
        } else { before & 0x80 }) && (value & 0x400 == if mask & 0x400 != 0 { if on { 0x400u32
        } else { 0 } } else { before & 0x400 }) && (value & 0x1_0000 == if mask & 0x1_0000 != 0 {
            if on { 0x1_0000u32 } else { 0 } } else { before & 0x1_0000 }) && value & !0x1_0489u32
            == before & !0x1_0489u32) by (bit_vector)
            requires
                value == (before & !mask) | set,
                set == if on { mask } else { 0 },
                mask & !0x1_0489u32 == 0,
        ;
    }
}

/// Clearing events writes their bits to the clear register, and no other bit. No other register
/// changes.
pub proof fn lemma_clear_bit_by_bit(registers: Registers, events: Set<Event>, register: Register)
    ensures
        ({
            let value = after(registers, seq![clear_interrupts_action(events)])(register);
            if register == Register::IntClr {
                &&& value & 0x1 != 0 <==> events.contains(Event::RxFifoWatermark)
                &&& value & 0x8 != 0 <==> events.contains(Event::EndDetect)
                &&& value & 0x80 != 0 <==> events.contains(Event::TransComplete)
                &&& value & 0x400 != 0 <==> events.contains(Event::Nack)
                &&& value & 0x1_0000 != 0 <==> events.contains(Event::SlaveStretch)
                &&& value & !0x1_0489u32 == 0
            } else {
                value == registers(register)
            }
        }),
{
    reveal_with_fuel(value_after_first, 2);
    lemma_register_after(registers, seq![clear_interrupts_action(events)], register);
    lemma_mask_bit_by_bit(events);
}

/// All interrupts that the driver knows, in one mask.
pub(crate) proof fn lemma_full_mask()
    ensures
        events_mask(Set::<Event>::full()) == 0x1_0489,
{
    lemma_mask_bit_by_bit(Set::<Event>::full());
    assert(0x8u32 | 0x80u32 | 0x1u32 | 0x1_0000u32 | 0x400u32 == 0x1_0489) by (bit_vector);
}

/// A handler that takes over the interrupt of a peripheral: the line of this peripheral is disabled
/// first and enabled last, with the priority of the handler. In between all interrupts are switched
/// off, then cleared, and the code of the handler is bound, each once. No other peripheral and no
/// other register is concerned.
pub proof fn lemma_handler_takes_over(
    peripheral: Peripheral,
    handler: InterruptHandler,
    v: u32,
    register: Register,
) -> (bound: int)
    ensures
        ({
            let actions = set_handler_actions(peripheral, handler);
            &&& actions[0] == (Action::DisableInterrupt { peripheral })
            &&& actions.last() == (Action::EnableInterrupt {
                peripheral,
                priority: handler.priority,
            })
            &&& 0 < bound < actions.len() - 1
            &&& actions[bound] == (Action::BindInterrupt { peripheral, handler: handler.handler })
            &&& forall|i: int|
                0 <= i < actions.len() ==> match #[trigger] actions[i] {
                    Action::DisableInterrupt { .. } => i == 0,
                    Action::EnableInterrupt { .. } => i == actions.len() - 1,
                    Action::BindInterrupt { .. } => i == bound,
                    Action::Modify { register, .. } => register == Register::IntEna,
                    Action::Write { register, .. } => register == Register::IntClr,
                    _ => false,
                }
            &&& forall|i: int, j: int|
                0 <= i < actions.len() && 0 <= j < actions.len() && #[trigger] actions[i] is Modify
                    && #[trigger] actions[j] is Write ==> i < j < bound
            &&& history(v, register, actions) == match register {
                Register::IntEna => seq![v & !0x1_0489u32],
                Register::IntClr => seq![0x1_0489u32],
                _ => seq![],
            }
        }),
{
    lemma_full_mask();
    assert((v & !0x1_0489u32) | 0 == v & !0x1_0489u32) by (bit_vector);
    assert(set_handler_actions(peripheral, handler).len() == 5);
    reveal_with_fuel(value_after_first, 6);
    reveal_with_fuel(history_of_first, 6);
    3
}

/// An instance of any kind is described by what it was made of, and stays what it is.
pub proof fn lemma_instance_is_described(info: Info)
    ensures
        AnyI2c::I2C0(info).description() == info,
        AnyI2c::I2C1(info).description() == info,
        AnyI2c::I2C0(info).spec_any() == AnyI2c::I2C0(info),
        AnyI2c::I2C1(info).spec_any() == AnyI2c::I2C1(info),
{
}

/// Descriptions are told apart by their register block alone.
pub proof fn lemma_equal_descriptions_share_registers(one: Info, other: Info)
    ensures
        PartialEqSpec::eq_spec(&one, &other) <==> one.register_block == other.register_block,
{
}

} // verus!
