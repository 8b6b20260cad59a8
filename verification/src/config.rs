//! Configuration of the driver, and what can be wrong with it.

use vstd::prelude::*;
use vstd::std_specs::convert::FromSpecImpl;

use crate::register::{FIFO_SIZE, SLAVE_ADDR_10BIT_EN};

verus! {

/// The address of a device on the bus.
#[derive(Clone, Copy, Debug, PartialEq, Eq, Hash, Structural)]
#[non_exhaustive]
pub enum I2cAddress {
    /// A 7-bit address, from 0x00 to 0x7F.
    SevenBit(u8),
    /// A 10-bit address, from 0x000 to 0x3FF.
    TenBit(u16),
}

impl I2cAddress {
    /// Whether the number fits the width of the address.
    pub open spec fn valid(self) -> bool {
        match self {
            I2cAddress::SevenBit(addr) => addr <= 0x7F,
            I2cAddress::TenBit(addr) => addr <= 0x3FF,
        }
    }

    /// The content of the slave address register for the address: the number, and a flag for the
    /// 10-bit mode in the top bit.
    pub open spec fn register_value(self) -> u32 {
        match self {
            I2cAddress::SevenBit(addr) => addr as u32,
            I2cAddress::TenBit(addr) => addr as u32 | SLAVE_ADDR_10BIT_EN,
        }
    }
}

impl FromSpecImpl<u8> for I2cAddress {
    open spec fn obeys_from_spec() -> bool {
        true
    }

    open spec fn from_spec(addr: u8) -> Self {
        I2cAddress::SevenBit(addr)
    }
}

impl From<u8> for I2cAddress {
    /// A number of one byte is a 7-bit address.
    fn from(addr: u8) -> (address: Self) {
        I2cAddress::SevenBit(addr)
    }
}

impl FromSpecImpl<u16> for I2cAddress {
    open spec fn obeys_from_spec() -> bool {
        true
    }

    open spec fn from_spec(addr: u16) -> Self {
        if addr <= 0x7F {
            I2cAddress::SevenBit(addr as u8)
        } else {
            I2cAddress::TenBit(addr)
        }
    }
}

impl From<u16> for I2cAddress {
    /// A number of two bytes is a 7-bit address if it fits one, and a 10-bit address otherwise.
    fn from(addr: u16) -> (address: Self) {
        if addr <= 0x7F {
            I2cAddress::SevenBit(addr as u8)
        } else {
            I2cAddress::TenBit(addr)
        }
    }
}

/// I2C-specific transmission errors
#[derive(Clone, Copy, Debug, PartialEq, Eq, Hash, Structural)]
#[non_exhaustive]
pub enum Error {
    /// A timeout occurred during transmission.
    Timeout,
    /// The arbitration for the bus was lost.
    ArbitrationLost,
    /// The execution of the I2C command was incomplete.
    ExecutionIncomplete,
    /// Zero length read or write operation.
    ZeroLengthInvalid,
    /// The given address is invalid.
    AddressInvalid(I2cAddress),
}

/// The kinds of error that callers tell apart without knowing this driver.
#[derive(Clone, Copy, Debug, PartialEq, Eq, Structural)]
pub enum ErrorKind {
    /// The arbitration for the bus was lost.
    ArbitrationLoss,
    /// Any other error.
    Other,
}

impl Error {
    /// Tells the kind of the error.
    pub fn kind(&self) -> (kind: ErrorKind)
        ensures
            kind == if *self == Error::ArbitrationLost {
                ErrorKind::ArbitrationLoss
            } else {
                ErrorKind::Other
            },
    {
        match self {
            Error::ArbitrationLost => ErrorKind::ArbitrationLoss,
            _ => ErrorKind::Other,
        }
    }
}

/// I2C driver configuration
#[derive(Clone, Copy, Debug, PartialEq, Eq, Hash, Structural)]
#[non_exhaustive]
pub struct Config {
    /// The I2C slave address.
    ///
    /// Supports both 7-bit (0x00..=0x7F) and 10-bit (0x000..=0x3FF) addresses.
    /// Use `I2cAddress::SevenBit(addr)` or `I2cAddress::TenBit(addr)`, or simply
    /// convert from `u8` for 7-bit or `u16` for automatic detection.
    ///
    /// Default value: 7-bit address 0x55.
    pub address: I2cAddress,
    /// The watermark threshold of the RX FIFO. When it is reached, the watermark interrupt is
    /// triggered and the callback hears of it.
    ///
    /// Set to `None` to disable the watermark interrupt.
    /// Default value: half of the FIFO size
    pub rx_fifo_wm_threshold: Option<u8>,
}

impl Config {
    /// The configuration with another address.
    pub fn with_address(self, address: I2cAddress) -> (config: Self)
        ensures
            config == (Config { address, ..self }),
    {
        Config { address, ..self }
    }

    /// The configuration with another watermark threshold.
    pub fn with_rx_fifo_wm_threshold(self, threshold: u8) -> (config: Self)
        ensures
            config == (Config { rx_fifo_wm_threshold: Some(threshold), ..self }),
    {
        Config { rx_fifo_wm_threshold: Some(threshold), ..self }
    }

    /// The configuration without a watermark.
    pub fn with_rx_fifo_wm_threshold_none(self) -> (config: Self)
        ensures
            config == (Config { rx_fifo_wm_threshold: None, ..self }),
    {
        Config { rx_fifo_wm_threshold: None, ..self }
    }
}

impl Default for Config {
    fn default() -> (config: Self)
        ensures
            config.address == I2cAddress::SevenBit(0x55),
            config.rx_fifo_wm_threshold == Some((FIFO_SIZE / 2) as u8),
    {
        Config {
            address: I2cAddress::SevenBit(0x55),
            rx_fifo_wm_threshold: Some((FIFO_SIZE / 2) as u8),
        }
    }
}

/// I2C-specific configuration errors
#[derive(Clone, Copy, Debug, PartialEq, Structural)]
#[non_exhaustive]
pub enum ConfigError {
    /// Provided address is not valid.
    AddressInvalid,
}

impl ConfigError {
    /// Says in words what is wrong.
    pub fn message(&self) -> (message: &'static str)
        ensures
            *self == ConfigError::AddressInvalid ==> message@ == "Provided address is invalid"@,
    {
        match self {
            ConfigError::AddressInvalid => "Provided address is invalid",
        }
    }
}

/// An address is valid if its number fits into seven bits or into ten, by its width.
pub proof fn lemma_valid_addresses(seven: u8, ten: u16)
    ensures
        I2cAddress::SevenBit(seven).valid() <==> seven < 128,
        I2cAddress::TenBit(ten).valid() <==> ten < 1024,
{
}

/// A byte is always taken for a 7-bit address, and a number of two bytes for the shortest address
/// that it fits. A number that fits no address makes none that is valid.
pub proof fn lemma_addresses_from_numbers(byte: u8, number: u16)
    ensures
        <I2cAddress as vstd::std_specs::convert::FromSpec<u8>>::from_spec(byte)
            == I2cAddress::SevenBit(byte),
        number < 128 ==> <I2cAddress as vstd::std_specs::convert::FromSpec<u16>>::from_spec(number)
            == I2cAddress::SevenBit(number as u8),
        number >= 128 ==> <I2cAddress as vstd::std_specs::convert::FromSpec<u16>>::from_spec(number)
            == I2cAddress::TenBit(number),
        <I2cAddress as vstd::std_specs::convert::FromSpec<u16>>::from_spec(number).valid()
            <==> number < 1024,
{
}

} // verus!
