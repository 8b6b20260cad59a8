//! The registers of the I2C controller, their fields, and how to read a field out of a value.
//!
//! A field is given by a mask over the 32 bits of its register. The masks follow the register
//! map of the ESP32-C6, whose controller stretches the clock in slave mode.

use vstd::prelude::*;

verus! {

/// Size in bytes of the transmit and of the receive FIFO.
pub const FIFO_SIZE: usize = 32;

/// A register of the I2C controller.
#[derive(Clone, Copy, Debug, PartialEq, Eq, Structural)]
pub enum Register {
    /// Transmission settings.
    Ctr,
    /// Work status.
    Sr,
    /// Timeout control.
    To,
    /// Local slave address.
    SlaveAddr,
    /// FIFO configuration.
    FifoConf,
    /// FIFO access: a read takes a byte from the receive FIFO, a write adds one to the
    /// transmit FIFO.
    Data,
    /// Raw interrupt status.
    IntRaw,
    /// Interrupt clear bits.
    IntClr,
    /// Interrupt enable bits.
    IntEna,
    /// Masked interrupt status.
    IntSt,
    /// SDA hold time after a falling SCL edge.
    SdaHold,
    /// SDA sample time after a rising SCL edge.
    SdaSample,
    /// SCL and SDA glitch filters.
    FilterCfg,
    /// Clock configuration.
    ClkConf,
    /// Clock stretching in slave mode.
    SclStretchConf,
}

/// The value of [`Register::Ctr`] after a reset, from which a plain write starts.
pub const CTR_RESET: u32 = 0x0208;

pub const CTR_SDA_FORCE_OUT: u32 = 0x0001;

pub const CTR_SCL_FORCE_OUT: u32 = 0x0002;

pub const CTR_RX_FULL_ACK_LEVEL: u32 = 0x0008;

pub const CTR_MS_MODE: u32 = 0x0010;

pub const CTR_TX_LSB_FIRST: u32 = 0x0040;

pub const CTR_RX_LSB_FIRST: u32 = 0x0080;

pub const CTR_ARBITRATION_EN: u32 = 0x0200;

pub const CTR_FSM_RST: u32 = 0x0400;

pub const CTR_CONF_UPGATE: u32 = 0x0800;

pub const CTR_ADDR_BROADCASTING_EN: u32 = 0x4000;

pub const TO_TIME_OUT_VALUE: u32 = 0x1f;

pub const TO_TIME_OUT_EN: u32 = 0x20;

pub const SLAVE_ADDR_10BIT_EN: u32 = 0x8000_0000;

pub const FIFO_CONF_RXFIFO_WM_THRHD: u32 = 0x001f;

pub const FIFO_CONF_TXFIFO_WM_THRHD: u32 = 0x03e0;

pub const FIFO_CONF_NONFIFO_EN: u32 = 0x0400;

pub const FIFO_CONF_RX_FIFO_RST: u32 = 0x1000;

pub const FIFO_CONF_TX_FIFO_RST: u32 = 0x2000;

pub const FIFO_CONF_FIFO_PRT_EN: u32 = 0x4000;

pub const FILTER_CFG_SCL_FILTER_THRES: u32 = 0x00f;

pub const FILTER_CFG_SDA_FILTER_THRES: u32 = 0x0f0;

pub const FILTER_CFG_SCL_FILTER_EN: u32 = 0x100;

pub const FILTER_CFG_SDA_FILTER_EN: u32 = 0x200;

pub const CLK_CONF_SCLK_SEL: u32 = 0x0010_0000;

pub const SCL_STRETCH_CONF_STRETCH_PROTECT_NUM: u32 = 0x3ff;

pub const SCL_STRETCH_CONF_SLAVE_SCL_STRETCH_EN: u32 = 0x400;

pub const SCL_STRETCH_CONF_SLAVE_SCL_STRETCH_CLR: u32 = 0x800;

pub const INT_RXFIFO_WM: u32 = 0x0_0001;

pub const INT_END_DETECT: u32 = 0x0_0008;

pub const INT_TRANS_COMPLETE: u32 = 0x0_0080;

pub const INT_NACK: u32 = 0x0_0400;

pub const INT_SLAVE_STRETCH: u32 = 0x1_0000;

/// The interrupt bits that a new configuration switches off and clears.
pub const INT_CONFIG_MASK: u32 = 0x3fff;

/// The number in the `width` bits of `value` that start at bit `offset`.
pub open spec fn field(value: u32, offset: nat, width: nat) -> nat {
    (value as nat / vstd::arithmetic::power2::pow2(offset)) % vstd::arithmetic::power2::pow2(width)
}

/// Whether any bit of `mask` is set in `value`.
pub open spec fn any_set(value: u32, mask: u32) -> bool {
    value & mask != 0
}

/// `value` with the bits of `clear` cleared and then the bits of `set` set.
pub open spec fn patched(value: u32, clear: u32, set: u32) -> u32 {
    (value & !clear) | set
}

/// How many bytes the receive FIFO holds, by the status register.
pub open spec fn rxfifo_count(status: u32) -> nat {
    field(status, 8, 6)
}

/// How many bytes the transmit FIFO holds, by the status register.
pub open spec fn txfifo_count(status: u32) -> nat {
    field(status, 18, 6)
}

/// Why the clock is stretched, by the status register.
pub open spec fn stretch_cause_code(status: u32) -> nat {
    field(status, 14, 2)
}

/// The byte in a value read from [`Register::Data`].
pub open spec fn data_byte(word: u32) -> u8 {
    field(word, 0, 8) as u8
}

proof fn lemma_pow2_values()
    ensures
        vstd::arithmetic::power2::pow2(0) == 1,
        vstd::arithmetic::power2::pow2(2) == 4,
        vstd::arithmetic::power2::pow2(6) == 64,
        vstd::arithmetic::power2::pow2(8) == 0x100,
        vstd::arithmetic::power2::pow2(14) == 0x4000,
        vstd::arithmetic::power2::pow2(18) == 0x4_0000,
{
    vstd::arithmetic::power2::lemma2_to64();
}

/// Where the fields of the status register are: the count of the receive FIFO in bits 8 to 13, the
/// cause of a stretched clock in bits 14 and 15, and the count of the transmit FIFO in bits 18 to
/// 23.
pub proof fn lemma_status_fields(status: u32)
    ensures
        rxfifo_count(status) == (status >> 8) & 0x3f,
        stretch_cause_code(status) == (status >> 14) & 3,
        txfifo_count(status) == (status >> 18) & 0x3f,
        rxfifo_count(status) < 64,
        stretch_cause_code(status) < 4,
        txfifo_count(status) < 64,
{
    lemma_pow2_values();
    assert((status >> 8) & 0x3f == (status / 0x100) % 64 && (status >> 14) & 3 == (status / 0x4000)
        % 4 && (status >> 18) & 0x3f == (status / 0x4_0000) % 64) by (bit_vector);
}

/// The byte in a value of the data register is in its low eight bits.
pub proof fn lemma_data_field(word: u32)
    ensures
        data_byte(word) as u32 == word & 0xff,
        word < 0x100 ==> data_byte(word) as u32 == word,
{
    lemma_pow2_values();
    assert(word & 0xff == word % 0x100 && word & 0xff <= 0xff) by (bit_vector);
}

/// Reads the field `rxfifo_cnt` out of the status register.
pub fn rxfifo_cnt(status: u32) -> (count: u8)
    ensures
        count == rxfifo_count(status),
        count < 64,
{
    proof {
        lemma_status_fields(status);
    }
    ((status >> 8) & 0x3f) as u8
}

/// Reads the field `txfifo_cnt` out of the status register.
pub fn txfifo_cnt(status: u32) -> (count: u8)
    ensures
        count == txfifo_count(status),
        count < 64,
{
    proof {
        lemma_status_fields(status);
    }
    ((status >> 18) & 0x3f) as u8
}

/// Reads the field `stretch_cause` out of the status register.
pub fn stretch_cause(status: u32) -> (cause: u8)
    ensures
        cause == stretch_cause_code(status),
        cause < 4,
{
    proof {
        lemma_status_fields(status);
    }
    ((status >> 14) & 3) as u8
}

/// Reads the field `fifo_rdata` out of a value read from the data register.
pub fn fifo_rdata(word: u32) -> (byte: u8)
    ensures
        byte == data_byte(word),
{
    proof {
        lemma_data_field(word);
    }
    (word & 0xff) as u8
}

/// Tests whether any bit of `mask` is set in `value`.
pub fn is_set(value: u32, mask: u32) -> (set: bool)
    ensures
        set == any_set(value, mask),
{
    value & mask != 0
}

/// A value has a bit of a mask set if clearing the mask changes it.
pub proof fn lemma_any_set(value: u32, mask: u32)
    ensures
        any_set(value, mask) <==> value & !mask != value,
{
    assert(value & mask != 0 <==> value & !mask != value) by (bit_vector);
}

/// A change of bits leaves all bits to be set set, all others to be cleared clear, and the rest as
/// they were.
pub proof fn lemma_patched_bits(value: u32, clear: u32, set: u32)
    ensures
        patched(value, clear, set) & set == set,
        patched(value, clear, set) & (clear & !set) == 0,
        patched(value, clear, set) & !(clear | set) == value & !(clear | set),
{
    assert(((value & !clear) | set) & set == set && ((value & !clear) | set) & (clear & !set) == 0
        && ((value & !clear) | set) & !(clear | set) == value & !(clear | set)) by (bit_vector);
}

} // verus!
