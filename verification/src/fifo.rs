//! Filling and emptying the two FIFOs of the controller.

use vstd::prelude::*;

use crate::plan::{
    after, history, history_of_first, lemma_register_after, value_after_first, Action, Plan,
    Registers,
};
use crate::register::{
    data_byte, fifo_rdata, lemma_data_field, lemma_status_fields, rxfifo_cnt, rxfifo_count,
    txfifo_cnt, txfifo_count, Register, CTR_FSM_RST, FIFO_CONF_RX_FIFO_RST, FIFO_CONF_TX_FIFO_RST,
    FIFO_SIZE, SCL_STRETCH_CONF_SLAVE_SCL_STRETCH_CLR,
};

verus! {

/// The smaller of two numbers.
pub open spec fn lesser(a: nat, b: nat) -> nat {
    if a <= b {
        a
    } else {
        b
    }
}

/// The bytes in a sequence of values read from the data register.
pub open spec fn data_bytes(words: Seq<u32>) -> Seq<u8> {
    words.map_values(|word: u32| data_byte(word))
}

/// The room left in the transmit FIFO, by the status register.
pub open spec fn txfifo_free(status: u32) -> nat {
    (FIFO_SIZE - lesser(txfifo_count(status), FIFO_SIZE as nat)) as nat
}

/// How many bytes a read into a buffer of `room` bytes takes, by the status register.
pub open spec fn rx_read_count(status: u32, room: nat) -> nat {
    lesser(rxfifo_count(status), room)
}

/// Emptying the transmit FIFO: its reset bit is pulsed, and the state machine is reset.
pub open spec fn reset_tx_fifo_actions() -> Seq<Action> {
    seq![
        Action::Modify {
            register: Register::FifoConf,
            clear: FIFO_CONF_TX_FIFO_RST,
            set: FIFO_CONF_TX_FIFO_RST,
        },
        Action::Modify { register: Register::FifoConf, clear: FIFO_CONF_TX_FIFO_RST, set: 0 },
        Action::Modify { register: Register::Ctr, clear: CTR_FSM_RST, set: CTR_FSM_RST },
    ]
}

/// Emptying the receive FIFO: its reset bit is pulsed.
pub open spec fn reset_rx_fifo_actions() -> Seq<Action> {
    seq![
        Action::Modify {
            register: Register::FifoConf,
            clear: FIFO_CONF_RX_FIFO_RST,
            set: FIFO_CONF_RX_FIFO_RST,
        },
        Action::Modify { register: Register::FifoConf, clear: FIFO_CONF_RX_FIFO_RST, set: 0 },
    ]
}

/// Letting the clock go that is stretched.
pub open spec fn clear_stretch_action() -> Action {
    Action::Modify {
        register: Register::SclStretchConf,
        clear: SCL_STRETCH_CONF_SLAVE_SCL_STRETCH_CLR,
        set: SCL_STRETCH_CONF_SLAVE_SCL_STRETCH_CLR,
    }
}

/// Adding bytes to the transmit FIFO, in order.
pub open spec fn data_writes(data: Seq<u8>) -> Seq<Action> {
    data.map_values(|byte: u8| Action::Write { register: Register::Data, value: byte as u32 })
}

/// Answering the master: as much of `data` as fits, from its start, and then the clock is let go.
pub open spec fn slave_write_actions(status: u32, data: Seq<u8>) -> Seq<Action> {
    data_writes(data.take(lesser(txfifo_free(status), data.len()) as int)).push(
        clear_stretch_action(),
    )
}

/// Tells how many times the data register has to be read to move the content of the receive
/// FIFO into a buffer of `room` bytes.
pub fn rx_fifo_read_len(status: u32, room: usize) -> (count: usize)
    ensures
        count == rx_read_count(status, room as nat),
{
    let filled: usize = rxfifo_cnt(status) as usize;
    if filled <= room {
        filled
    } else {
        room
    }
}

/// Moves the content of the receive FIFO into `buffer`.
///
/// `status` is the status register, and `words` are the values that the data register gave, read
/// as often as [`rx_fifo_read_len`] asks. If the buffer is smaller than the FIFO content, only
/// part of the data is read. Returns the number of bytes read.
pub fn read_rx_fifo(status: u32, words: &[u32], buffer: &mut [u8]) -> (count: usize)
    requires
        words@.len() == rx_read_count(status, old(buffer)@.len()),
    ensures
        count == rx_read_count(status, old(buffer)@.len()),
        final(buffer)@ == data_bytes(words@) + old(buffer)@.skip(words@.len() as int),
{
    let to_read: usize = rx_fifo_read_len(status, buffer.len());
    let mut i: usize = 0;
    while i < to_read
        invariant
            i <= to_read,
            to_read == words@.len(),
            words@.len() <= old(buffer)@.len(),
            buffer@ =~= data_bytes(words@).take(i as int) + old(buffer)@.skip(i as int),
        decreases to_read - i,
    {
        buffer[i] = fifo_rdata(words[i]);
        i = i + 1;
    }
    proof {
        assert(data_bytes(words@).take(to_read as int) =~= data_bytes(words@));
    }
    to_read
}

/// Tells how many bytes the transmit FIFO still takes.
pub fn get_tx_fifo_free_size(status: u32) -> (free: u8)
    ensures
        free == txfifo_free(status),
{
    let count: u8 = txfifo_cnt(status);
    if count >= FIFO_SIZE as u8 {
        0
    } else {
        (FIFO_SIZE as u8) - count
    }
}

/// Plans the reset of the transmit FIFO.
pub fn reset_tx_fifo(plan: &mut Plan)
    ensures
        final(plan)@ == old(plan)@ + reset_tx_fifo_actions(),
{
    plan.modify(Register::FifoConf, FIFO_CONF_TX_FIFO_RST, FIFO_CONF_TX_FIFO_RST);
    plan.modify(Register::FifoConf, FIFO_CONF_TX_FIFO_RST, 0);
    plan.modify(Register::Ctr, CTR_FSM_RST, CTR_FSM_RST);
}

/// Plans the release of the stretched clock.
pub fn clear_stretch(plan: &mut Plan)
    ensures
        final(plan)@ == old(plan)@.push(clear_stretch_action()),
{
    plan.modify(
        Register::SclStretchConf,
        SCL_STRETCH_CONF_SLAVE_SCL_STRETCH_CLR,
        SCL_STRETCH_CONF_SLAVE_SCL_STRETCH_CLR,
    );
}

/// Plans the answer to a master that reads: `data` goes to the transmit FIFO as far as it fits,
/// given the status register, and the stretched clock is released.
pub fn slave_handle_write(status: u32, data: &[u8], plan: &mut Plan)
    ensures
        final(plan)@ == old(plan)@ + slave_write_actions(status, data@),
{
    let free_size: usize = get_tx_fifo_free_size(status) as usize;
    let to_write: usize = if free_size <= data.len() {
        free_size
    } else {
        data.len()
    };
    let mut i: usize = 0;
    while i < to_write
        invariant
            i <= to_write <= data@.len(),
            plan@ =~= old(plan)@ + data_writes(data@.take(i as int)),
        decreases to_write - i,
    {
        plan.write(Register::Data, data[i] as u32);
        i = i + 1;
    }
    clear_stretch(plan);
}

/// A reset of the transmit FIFO leaves its reset bit clear and the rest of the FIFO configuration
/// alone.
pub proof fn lemma_tx_reset_is_a_pulse(registers: Registers)
    ensures
        after(registers, reset_tx_fifo_actions())(Register::FifoConf) == registers(
            Register::FifoConf,
        ) & !FIFO_CONF_TX_FIFO_RST,
{
    let actions = reset_tx_fifo_actions();
    let v = registers(Register::FifoConf);
    reveal_with_fuel(value_after_first, 4);
    lemma_register_after(registers, actions, Register::FifoConf);
    assert((((v & !0x2000u32) | 0x2000u32) & !0x2000u32) | 0u32 == v & !0x2000u32) by (bit_vector);
}

/// A reset of the receive FIFO leaves its reset bit clear and the rest of the FIFO configuration
/// alone.
pub proof fn lemma_rx_reset_is_a_pulse(registers: Registers)
    ensures
        after(registers, reset_rx_fifo_actions())(Register::FifoConf) == registers(
            Register::FifoConf,
        ) & !FIFO_CONF_RX_FIFO_RST,
{
    let actions = reset_rx_fifo_actions();
    let v = registers(Register::FifoConf);
    reveal_with_fuel(value_after_first, 3);
    lemma_register_after(registers, actions, Register::FifoConf);
    assert((((v & !0x1000u32) | 0x1000u32) & !0x1000u32) | 0u32 == v & !0x1000u32) by (bit_vector);
}

/// How many bytes a read takes: as many as bits 8 to 13 of the status register say, or as many as
/// there is room for, whichever is less.
pub proof fn lemma_read_takes_what_fits(status: u32, room: nat)
    ensures
        rx_read_count(status, room) <= room,
        rx_read_count(status, room) <= (status >> 8) & 0x3f,
        rx_read_count(status, room) == room || rx_read_count(status, room) == (status >> 8) & 0x3f,
{
    lemma_status_fields(status);
}

/// Each value of the data register gives the byte in its low eight bits, in order.
pub proof fn lemma_bytes_are_low_bits(words: Seq<u32>)
    ensures
        data_bytes(words).len() == words.len(),
        forall|i: int|
            0 <= i < words.len() ==> #[trigger] data_bytes(words)[i] as u32 == words[i] & 0xff,
{
    assert forall|i: int| 0 <= i < words.len() implies #[trigger] data_bytes(words)[i] as u32
        == words[i] & 0xff by {
        lemma_data_field(words[i]);
    }
}

/// The room in the transmit FIFO and the bytes in it, by bits 18 to 23 of the status register, make
/// up its 32 bytes. A FIFO that is said to hold more has no room.
pub proof fn lemma_room_and_bytes_fill_the_fifo(status: u32)
    ensures
        (status >> 18) & 0x3f <= 32 ==> txfifo_free(status) + ((status >> 18) & 0x3f) == 32,
        (status >> 18) & 0x3f > 32 ==> txfifo_free(status) == 0,
{
    lemma_status_fields(status);
}

/// Answering the master writes bytes of the data from its start, each once and in order, and stops
/// only where the FIFO is full or the data ends. The clock is let go once, and last. Nothing else is
/// done.
pub proof fn lemma_answer_fills_the_fifo(status: u32, data: Seq<u8>)
    ensures
        ({
            let actions = slave_write_actions(status, data);
            let filled = (status >> 18) & 0x3f;
            let n = actions.len() - 1;
            &&& 0 <= n <= data.len()
            &&& n < data.len() ==> filled + n >= 32
            &&& n > 0 ==> filled + n <= 32
            &&& forall|i: int|
                0 <= i < n ==> #[trigger] actions[i] == (Action::Write {
                    register: Register::Data,
                    value: data[i] as u32,
                })
            &&& actions[n] == (Action::Modify {
                register: Register::SclStretchConf,
                clear: 0x800,
                set: 0x800,
            })
        }),
{
    lemma_status_fields(status);
    let actions = slave_write_actions(status, data);
    let sent = data.take(lesser(txfifo_free(status), data.len()) as int);
    assert forall|i: int| 0 <= i < actions.len() - 1 implies #[trigger] actions[i] == (
    Action::Write { register: Register::Data, value: data[i] as u32 }) by {
        assert(actions[i] == data_writes(sent)[i]);
        assert(sent[i] == data[i]);
    }
}

/// A reset of the transmit FIFO, step by step: its reset bit goes up and down again, and the state
/// machine is reset. No other register changes.
pub proof fn lemma_tx_reset_step_by_step(v: u32, register: Register)
    ensures
        history(v, register, reset_tx_fifo_actions()) == match register {
            Register::FifoConf => seq![v | 0x2000, v & !0x2000u32],
            Register::Ctr => seq![v | 0x400],
            _ => seq![],
        },
{
    assert((v & !0x2000u32) | 0x2000 == v | 0x2000 && ((v | 0x2000) & !0x2000u32) | 0 == v
        & !0x2000u32 && (v & !0x400u32) | 0x400 == v | 0x400) by (bit_vector);
    assert(reset_tx_fifo_actions().len() == 3);
    reveal_with_fuel(value_after_first, 4);
    reveal_with_fuel(history_of_first, 4);
}

/// A reset of the receive FIFO, step by step: its reset bit goes up and down again. No other
/// register changes.
pub proof fn lemma_rx_reset_step_by_step(v: u32, register: Register)
    ensures
        history(v, register, reset_rx_fifo_actions()) == match register {
            Register::FifoConf => seq![v | 0x1000, v & !0x1000u32],
            _ => seq![],
        },
{
    assert((v & !0x1000u32) | 0x1000 == v | 0x1000 && ((v | 0x1000) & !0x1000u32) | 0 == v
        & !0x1000u32) by (bit_vector);
    assert(reset_rx_fifo_actions().len() == 2);
    reveal_with_fuel(value_after_first, 3);
    reveal_with_fuel(history_of_first, 3);
}

} // verus!
