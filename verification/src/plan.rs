//! What the driver wants done to the hardware.
//!
//! The driver decides and the hardware layer acts: every operation on the controller, on its
//! pins and on its interrupt line is an [`Action`], and a [`Plan`] lists actions in the order
//! in which they are to be carried out.

use vstd::prelude::*;

use crate::platform::{
    InputSignal, OutputConfig, OutputSignal, Peripheral, PeripheralGuard, Pin, PinGuard,
};
use crate::register::{patched, Register};

verus! {

/// One thing to do to the hardware, with no answer expected.
#[derive(Clone, Copy, Debug, PartialEq, Eq, Structural)]
pub enum Action {
    /// Write `value` to a register.
    Write { register: Register, value: u32 },
    /// Read a register, clear the bits of `clear`, set the bits of `set` and write it back.
    Modify { register: Register, clear: u32, set: u32 },
    /// Switch the clock of the peripheral on and take it out of reset.
    EnablePeripheral { peripheral: Peripheral },
    /// Disable the interrupt line of the peripheral.
    DisableInterrupt { peripheral: Peripheral },
    /// Make the code at address `handler` serve the interrupt of the peripheral.
    BindInterrupt { peripheral: Peripheral, handler: usize },
    /// Enable the interrupt line of the peripheral.
    EnableInterrupt { peripheral: Peripheral, priority: u8 },
    /// Set the output level of a pin.
    SetOutputHigh { pin: Pin, high: bool },
    /// Configure the output stage of a pin.
    ApplyOutputConfig { pin: Pin, config: OutputConfig },
    /// Switch the output stage of a pin on or off.
    SetOutputEnable { pin: Pin, enable: bool },
    /// Switch the input stage of a pin on or off.
    SetInputEnable { pin: Pin, enable: bool },
    /// Feed an input signal from a pin.
    ConnectInput { input: InputSignal, pin: Pin },
    /// Route an output signal to a pin.
    ConnectOutput { output: OutputSignal, pin: Pin },
    /// Let go of what a guard holds.
    ReleasePin { guard: PinGuard },
    /// Let go of what keeps the peripheral switched on.
    ReleasePeripheral { guard: PeripheralGuard },
    /// Wake the task that waits for the driver.
    Wake,
}

/// Actions in the order in which they are to be carried out.
pub struct Plan {
    actions: Vec<Action>,
}

impl View for Plan {
    type V = Seq<Action>;

    closed spec fn view(&self) -> Seq<Action> {
        self.actions@
    }
}

impl Plan {
    /// A plan to do nothing.
    pub fn new() -> (plan: Self)
        ensures
            plan@ == Seq::<Action>::empty(),
    {
        Plan { actions: Vec::new() }
    }

    /// Adds an action at the end.
    pub fn push(&mut self, action: Action)
        ensures
            final(self)@ == old(self)@.push(action),
    {
        self.actions.push(action);
    }

    /// Adds a write of `value` to `register`.
    pub fn write(&mut self, register: Register, value: u32)
        ensures
            final(self)@ == old(self)@.push(Action::Write { register, value }),
    {
        self.push(Action::Write { register, value });
    }

    /// Adds a change of `register`: the bits of `clear` are cleared, then those of `set` are set.
    pub fn modify(&mut self, register: Register, clear: u32, set: u32)
        ensures
            final(self)@ == old(self)@.push(Action::Modify { register, clear, set }),
    {
        self.push(Action::Modify { register, clear, set });
    }

    /// Hands out all actions and leaves the plan empty.
    pub fn take(&mut self) -> (actions: Vec<Action>)
        ensures
            actions@ == old(self)@,
            final(self)@ == Seq::<Action>::empty(),
    {
        let mut actions: Vec<Action> = Vec::new();
        actions.append(&mut self.actions);
        assert(actions@ =~= old(self)@);
        actions
    }
}

/// What each register was last written.
pub type Registers = spec_fn(Register) -> u32;

/// The registers after one action. An action on anything but a register leaves them alone.
pub open spec fn apply(registers: Registers, action: Action) -> Registers {
    match action {
        Action::Write { register, value } => |r: Register|
            if r == register {
                value
            } else {
                registers(r)
            },
        Action::Modify { register, clear, set } => |r: Register|
            if r == register {
                patched(registers(r), clear, set)
            } else {
                registers(r)
            },
        _ => registers,
    }
}

/// The registers after a sequence of actions.
pub open spec fn after(registers: Registers, actions: Seq<Action>) -> Registers
    decreases actions.len(),
{
    if actions.len() == 0 {
        registers
    } else {
        apply(after(registers, actions.drop_last()), actions.last())
    }
}

/// Carrying out two sequences one after the other is carrying out their concatenation.
pub proof fn lemma_after_concat(registers: Registers, first: Seq<Action>, second: Seq<Action>)
    ensures
        after(registers, first + second) == after(after(registers, first), second),
    decreases second.len(),
{
    if second.len() == 0 {
        assert(first + second =~= first);
    } else {
        assert((first + second).drop_last() =~= first + second.drop_last());
        lemma_after_concat(registers, first, second.drop_last());
    }
}

/// What an action makes of the value of a register.
pub open spec fn value_after(value: u32, register: Register, action: Action) -> u32 {
    match action {
        Action::Write { register: r, value: v } => if r == register {
            v
        } else {
            value
        },
        Action::Modify { register: r, clear, set } => if r == register {
            patched(value, clear, set)
        } else {
            value
        },
        _ => value,
    }
}

/// What the first `n` actions of a sequence make of the value of a register.
pub open spec fn value_after_first(
    value: u32,
    register: Register,
    actions: Seq<Action>,
    n: nat,
) -> u32
    decreases n,
{
    if n == 0 {
        value
    } else {
        value_after(
            value_after_first(value, register, actions, (n - 1) as nat),
            register,
            actions[n - 1],
        )
    }
}

proof fn lemma_after_first(
    registers: Registers,
    actions: Seq<Action>,
    n: nat,
    register: Register,
)
    requires
        n <= actions.len(),
    ensures
        after(registers, actions.take(n as int))(register) == value_after_first(
            registers(register),
            register,
            actions,
            n,
        ),
    decreases n,
{
    if n > 0 {
        lemma_after_first(registers, actions, (n - 1) as nat, register);
        assert(actions.take(n as int).drop_last() =~= actions.take(n - 1));
    }
}

/// What a sequence of actions leaves in a register depends on what was in that register only, and
/// comes of it action by action.
pub proof fn lemma_register_after(registers: Registers, actions: Seq<Action>, register: Register)
    ensures
        after(registers, actions)(register) == value_after_first(
            registers(register),
            register,
            actions,
            actions.len(),
        ),
{
    lemma_after_first(registers, actions, actions.len(), register);
    assert(actions.take(actions.len() as int) =~= actions);
}

/// Whether an action changes a register.
pub open spec fn changes(action: Action, register: Register) -> bool {
    match action {
        Action::Write { register: r, .. } => r == register,
        Action::Modify { register: r, .. } => r == register,
        _ => false,
    }
}

/// The values that a register takes on in the course of the first `n` actions of a sequence, one
/// for each action that changes it.
pub open spec fn history_of_first(
    value: u32,
    register: Register,
    actions: Seq<Action>,
    n: nat,
) -> Seq<u32>
    decreases n,
{
    if n == 0 {
        seq![]
    } else if changes(actions[n - 1], register) {
        history_of_first(value, register, actions, (n - 1) as nat).push(
            value_after_first(value, register, actions, n),
        )
    } else {
        history_of_first(value, register, actions, (n - 1) as nat)
    }
}

/// The values that a register takes on in the course of a sequence of actions.
pub open spec fn history(value: u32, register: Register, actions: Seq<Action>) -> Seq<u32> {
    history_of_first(value, register, actions, actions.len())
}

/// The last value that a register takes on stays there. A register that no action changes keeps its
/// value.
pub proof fn lemma_history_ends_in_register(
    registers: Registers,
    actions: Seq<Action>,
    register: Register,
)
    ensures
        ({
            let values = history(registers(register), register, actions);
            after(registers, actions)(register) == if values.len() > 0 {
                values.last()
            } else {
                registers(register)
            }
        }),
{
    lemma_register_after(registers, actions, register);
    lemma_history_of_first(registers(register), register, actions, actions.len());
}

proof fn lemma_history_of_first(value: u32, register: Register, actions: Seq<Action>, n: nat)
    ensures
        ({
            let values = history_of_first(value, register, actions, n);
            value_after_first(value, register, actions, n) == if values.len() > 0 {
                values.last()
            } else {
                value
            }
        }),
    decreases n,
{
    if n > 0 {
        lemma_history_of_first(value, register, actions, (n - 1) as nat);
    }
}

proof fn lemma_first_of_concat(
    value: u32,
    register: Register,
    first: Seq<Action>,
    second: Seq<Action>,
    n: nat,
)
    requires
        n <= first.len(),
    ensures
        value_after_first(value, register, first + second, n) == value_after_first(
            value,
            register,
            first,
            n,
        ),
        history_of_first(value, register, first + second, n) == history_of_first(
            value,
            register,
            first,
            n,
        ),
    decreases n,
{
    if n > 0 {
        lemma_first_of_concat(value, register, first, second, (n - 1) as nat);
        assert((first + second)[n - 1] == first[n - 1]);
    }
}

proof fn lemma_second_of_concat(
    value: u32,
    register: Register,
    first: Seq<Action>,
    second: Seq<Action>,
    n: nat,
)
    requires
        n <= second.len(),
    ensures
        ({
            let middle = value_after_first(value, register, first, first.len());
            &&& value_after_first(value, register, first + second, first.len() + n)
                == value_after_first(middle, register, second, n)
            &&& history_of_first(value, register, first + second, first.len() + n) == history(
                value,
                register,
                first,
            ) + history_of_first(middle, register, second, n)
        }),
    decreases n,
{
    let middle = value_after_first(value, register, first, first.len());
    if n > 0 {
        lemma_second_of_concat(value, register, first, second, (n - 1) as nat);
        assert((first + second)[first.len() + n - 1] == second[n - 1]);
    } else {
        lemma_first_of_concat(value, register, first, second, first.len());
    }
    assert(history_of_first(value, register, first + second, first.len() + n) =~= history(
        value,
        register,
        first,
    ) + history_of_first(middle, register, second, n));
}

/// Two sequences one after the other: the second goes on with the value that the first left.
pub proof fn lemma_history_concat(
    value: u32,
    register: Register,
    first: Seq<Action>,
    second: Seq<Action>,
)
    ensures
        ({
            let values = history(value, register, first);
            let middle = if values.len() > 0 {
                values.last()
            } else {
                value
            };
            history(value, register, first + second) == values + history(middle, register, second)
        }),
{
    lemma_second_of_concat(value, register, first, second, second.len());
    lemma_history_of_first(value, register, first, first.len());
}

} // verus!
