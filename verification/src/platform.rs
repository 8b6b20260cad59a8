//! The parts of the chip around the controller, as plain values: which peripheral it is, which
//! signals of the GPIO matrix it uses, and which handler serves its interrupt.

use vstd::prelude::*;

verus! {

/// A peripheral of the chip, as the clock and interrupt controllers know it.
#[derive(Clone, Copy, Debug, PartialEq, Eq, Structural)]
pub enum Peripheral {
    I2cExt0,
    I2cExt1,
}

/// An input signal of the GPIO matrix, by number.
#[derive(Clone, Copy, Debug, PartialEq, Eq, Structural)]
pub struct InputSignal(pub u16);

/// An output signal of the GPIO matrix, by number.
#[derive(Clone, Copy, Debug, PartialEq, Eq, Structural)]
pub struct OutputSignal(pub u16);

/// A GPIO pin, by number.
#[derive(Clone, Copy, Debug, PartialEq, Eq, Structural)]
pub struct Pin(pub u8);

/// How a pin drives its line.
#[derive(Clone, Copy, Debug, PartialEq, Eq, Structural)]
pub enum DriveMode {
    PushPull,
    OpenDrain,
}

/// The pull resistor of a pin.
#[derive(Clone, Copy, Debug, PartialEq, Eq, Structural)]
pub enum Pull {
    Floating,
    Up,
    Down,
}

/// The output settings of a pin. What is not listed keeps its default.
#[derive(Clone, Copy, Debug, PartialEq, Eq, Structural)]
pub struct OutputConfig {
    pub drive_mode: DriveMode,
    pub pull: Pull,
}

/// What a driver holds for a signal: nothing, or the pin that the signal is routed to.
///
/// Letting go of a connected guard takes the signal off the pin.
#[derive(Clone, Copy, Debug, PartialEq, Eq, Structural)]
pub enum PinGuard {
    Unconnected,
    Connected { pin: Pin, signal: OutputSignal },
}

/// What a driver holds for as long as its peripheral has to stay switched on.
#[derive(Clone, Copy, Debug, PartialEq, Eq, Structural)]
pub struct PeripheralGuard {
    pub peripheral: Peripheral,
}

/// An interrupt handler: the address of its code and the priority that it runs at.
#[derive(Clone, Copy, Debug, PartialEq, Eq, Structural)]
pub struct InterruptHandler {
    pub handler: usize,
    pub priority: u8,
}

} // verus!
