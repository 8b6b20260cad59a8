//! The interrupt handler, as a conversation with the hardware layer.
//!
//! An invocation of the handler starts with [`async_handler`]. From then on the handler asks for
//! one thing at a time, a [`Request`], and [`Handler::resume`] takes the [`Reply`]. In between it
//! adds to the plan what is to be done to the hardware before the next request is served.

use vstd::prelude::*;

use crate::counter::{counter_fetch_add, counter_store, counter_swap, wrapped_sum};
use crate::event::SlaveEvent;
use crate::fifo::{
    clear_stretch, clear_stretch_action, data_bytes, get_tx_fifo_free_size, read_rx_fifo,
    reset_tx_fifo, reset_tx_fifo_actions, rx_fifo_read_len, rx_read_count, slave_handle_write,
    slave_write_actions, txfifo_free,
};
use crate::plan::{changes, history, history_of_first, value_after_first, Action, Plan};
use crate::register::{
    any_set, is_set, rxfifo_cnt, rxfifo_count, stretch_cause, stretch_cause_code, txfifo_cnt,
    txfifo_count, Register, FIFO_SIZE, INT_END_DETECT, INT_NACK, INT_RXFIFO_WM, INT_SLAVE_STRETCH,
    INT_TRANS_COMPLETE,
};
use crate::state::State;

verus! {

/// What the handler wants next.
#[derive(Debug)]
pub enum Request {
    /// Read the register.
    Read(Register),
    /// Read the data register that many times.
    ReadFifo(usize),
    /// Call the user's callback with the event, the bytes received and a zeroed buffer of
    /// `space` bytes.
    Notify { event: SlaveEvent, received: Vec<u8>, space: usize },
    /// Nothing: this interrupt is handled.
    Done,
}

/// What came back for a [`Request`].
#[derive(Debug)]
pub enum Reply {
    /// The value of the register.
    Value(u32),
    /// The values that the data register gave, in order.
    Fifo(Vec<u32>),
    /// The callback returned `count` and left `buffer` in its buffer.
    Written { buffer: Vec<u8>, count: usize },
}

/// What the bytes are for that are being read from the receive FIFO.
#[derive(Clone, Copy, Debug, PartialEq, Eq, Structural)]
pub enum Goal {
    /// The last bytes of a write by the master. Carries the bytes read before in the transaction.
    Complete(usize),
    /// The watermark was reached.
    Watermark,
    /// The master turned around to read. Carries the bytes read before in the transaction.
    AddressMatch(usize),
    /// The receive FIFO was full.
    Full,
}

/// A [`Request`] in the model.
#[verifier::ext_equal]
pub enum Ask {
    Read(Register),
    ReadFifo(nat),
    Notify { event: SlaveEvent, received: Seq<u8>, space: nat },
    Done,
}

/// A [`Reply`] in the model.
#[verifier::ext_equal]
pub enum Answer {
    Value(u32),
    Fifo(Seq<u32>),
    Written { buffer: Seq<u8>, count: nat },
}

/// Where the handler stands: what it waits for and what it keeps until then.
///
/// `ints` is the interrupt status that this invocation serves.
#[verifier::ext_equal]
pub enum Stage {
    /// Waits for the interrupt status.
    Interrupts,
    /// Waits for the status register.
    Status { ints: u32 },
    /// Waits for the status register, to learn how many bytes to read.
    RxStatus { ints: u32, goal: Goal },
    /// Waits for the bytes of the receive FIFO.
    RxData { ints: u32, goal: Goal, status: u32 },
    /// Waits for the callback that took received bytes and has nothing to send.
    Delivered { ints: u32, goal: Goal },
    /// Waits for the status register, to learn why the clock is stretched.
    Cause { ints: u32 },
    /// Waits for the status register, to learn how many bytes wait to be sent.
    TxStatus { ints: u32, event: SlaveEvent, received: Seq<u8> },
    /// Waits for the callback that has `space` bytes to fill.
    TxData { ints: u32, space: nat },
    /// Waits for the status register, to learn how many of the bytes fit.
    FreeSize { ints: u32, data: Seq<u8> },
    /// Waits for nothing.
    Finished,
}

/// What the handler does on an answer: where it stands then, what it asks, what it plans and the
/// number of bytes read in the transaction.
#[verifier::ext_equal]
pub struct Outcome {
    pub stage: Stage,
    pub ask: Ask,
    pub actions: Seq<Action>,
    pub count: usize,
}

impl View for Request {
    type V = Ask;

    open spec fn view(&self) -> Ask {
        match *self {
            Request::Read(register) => Ask::Read(register),
            Request::ReadFifo(count) => Ask::ReadFifo(count as nat),
            Request::Notify { event, received, space } => Ask::Notify {
                event,
                received: received@,
                space: space as nat,
            },
            Request::Done => Ask::Done,
        }
    }
}

impl View for Reply {
    type V = Answer;

    open spec fn view(&self) -> Answer {
        match *self {
            Reply::Value(value) => Answer::Value(value),
            Reply::Fifo(words) => Answer::Fifo(words@),
            Reply::Written { buffer, count } => Answer::Written {
                buffer: buffer@,
                count: count as nat,
            },
        }
    }
}

/// The bytes that a callback hands over: the first `count` of its buffer, where a buffer that is
/// shorter than the FIFO is followed by zeros.
pub open spec fn tx_data(buffer: Seq<u8>, count: nat) -> Seq<u8> {
    Seq::new(
        count,
        |i: int|
            if i < buffer.len() {
                buffer[i]
            } else {
                0u8
            },
    )
}

/// Whether the handler can go on with an answer.
///
/// The answer has to fit the request. Beyond that a callback must not claim to have written more
/// than the FIFO holds, and a clock that is stretched for want of data leaves an empty FIFO.
pub open spec fn accepted(stage: Stage, answer: Answer) -> bool {
    match stage {
        Stage::RxData { status, .. } => answer matches Answer::Fifo(words) && words.len()
            == rx_read_count(status, FIFO_SIZE as nat),
        Stage::Delivered { .. } => answer matches Answer::Written { buffer, .. } && buffer.len()
            == 0,
        Stage::TxStatus { event, .. } => answer matches Answer::Value(status) && (event
            == SlaveEvent::StretchTxEmpty ==> txfifo_count(status) == 0),
        Stage::TxData { space, .. } => answer matches Answer::Written { buffer, count }
            && buffer.len() == space && count <= FIFO_SIZE,
        Stage::Finished => false,
        _ => answer is Value,
    }
}

/// The end of an invocation: an END condition closes the transaction, and the interrupts that were
/// served are cleared.
pub open spec fn finish(ints: u32, actions: Seq<Action>, count: usize) -> Outcome {
    Outcome {
        stage: Stage::Finished,
        ask: Ask::Done,
        actions: actions.push(Action::Write { register: Register::IntClr, value: ints }),
        count: if any_set(ints, INT_END_DETECT) {
            0
        } else {
            count
        },
    }
}

/// Received bytes, if any, are dealt with: a stretched clock comes next.
pub open spec fn look_at_stretch(ints: u32, actions: Seq<Action>, count: usize) -> Outcome {
    if any_set(ints, INT_SLAVE_STRETCH) {
        Outcome { stage: Stage::Cause { ints }, ask: Ask::Read(Register::Sr), actions, count }
    } else {
        finish(ints, actions, count)
    }
}

/// The receive FIFO is to be read, which starts with the status register.
pub open spec fn receive(ints: u32, goal: Goal, actions: Seq<Action>, count: usize) -> Outcome {
    Outcome { stage: Stage::RxStatus { ints, goal }, ask: Ask::Read(Register::Sr), actions, count }
}

/// The callback is to be told of bytes received, with nothing to send.
pub open spec fn deliver(
    ints: u32,
    goal: Goal,
    event: SlaveEvent,
    received: Seq<u8>,
    count: usize,
) -> Outcome {
    Outcome {
        stage: Stage::Delivered { ints, goal },
        ask: Ask::Notify { event, received, space: 0 },
        actions: seq![],
        count,
    }
}

/// The first answers are in: a NACK empties the transmit FIFO, and the end of a transfer, or else
/// the watermark, has the receive FIFO read.
pub open spec fn served(ints: u32, status: u32, count: usize) -> Outcome {
    let actions = if any_set(ints, INT_NACK) {
        reset_tx_fifo_actions()
    } else {
        seq![]
    };
    if any_set(ints, INT_TRANS_COMPLETE) {
        if rxfifo_count(status) > 0 || count > 0 {
            receive(ints, Goal::Complete(count), actions, 0)
        } else {
            look_at_stretch(ints, actions, 0)
        }
    } else if any_set(ints, INT_RXFIFO_WM) {
        receive(ints, Goal::Watermark, actions, count)
    } else {
        look_at_stretch(ints, actions, count)
    }
}

/// The bytes of the receive FIFO are in.
pub open spec fn received(ints: u32, goal: Goal, data: Seq<u8>, count: usize) -> Outcome {
    let more = wrapped_sum(count, data.len() as usize);
    match goal {
        Goal::Complete(before) => deliver(ints, goal, SlaveEvent::TransComplete(before), data, count),
        Goal::Watermark => deliver(ints, goal, SlaveEvent::RxFifoWatermark(count), data, more),
        Goal::AddressMatch(before) => Outcome {
            stage: Stage::TxStatus {
                ints,
                event: SlaveEvent::StretchAddrMatch(before),
                received: data,
            },
            ask: Ask::Read(Register::Sr),
            actions: seq![],
            count,
        },
        Goal::Full => if data.len() > 0 {
            deliver(ints, goal, SlaveEvent::StretchRxFull(count), data, more)
        } else {
            finish(ints, seq![clear_stretch_action()], count)
        },
    }
}

/// The cause of the stretched clock is known: 0 is an address match, 1 an empty transmit FIFO and
/// 2 a full receive FIFO. Any other cause is left alone.
pub open spec fn stretched(ints: u32, cause: nat, count: usize) -> Outcome {
    if cause == 0 {
        receive(ints, Goal::AddressMatch(count), seq![], 0)
    } else if cause == 1 {
        Outcome {
            stage: Stage::TxStatus { ints, event: SlaveEvent::StretchTxEmpty, received: seq![] },
            ask: Ask::Read(Register::Sr),
            actions: seq![],
            count,
        }
    } else if cause == 2 {
        receive(ints, Goal::Full, seq![], count)
    } else {
        finish(ints, seq![], count)
    }
}

/// What the handler does on an answer that it accepts.
pub open spec fn step(stage: Stage, answer: Answer, count: usize) -> Outcome {
    match (stage, answer) {
        (Stage::Interrupts, Answer::Value(ints)) => Outcome {
            stage: Stage::Status { ints },
            ask: Ask::Read(Register::Sr),
            actions: seq![],
            count,
        },
        (Stage::Status { ints }, Answer::Value(status)) => served(ints, status, count),
        (Stage::RxStatus { ints, goal }, Answer::Value(status)) => Outcome {
            stage: Stage::RxData { ints, goal, status },
            ask: Ask::ReadFifo(rx_read_count(status, FIFO_SIZE as nat)),
            actions: seq![],
            count,
        },
        (Stage::RxData { ints, goal, .. }, Answer::Fifo(words)) => received(
            ints,
            goal,
            data_bytes(words),
            count,
        ),
        (Stage::Delivered { ints, goal }, Answer::Written { .. }) => if goal == Goal::Full {
            finish(ints, seq![clear_stretch_action()], count)
        } else {
            look_at_stretch(ints, seq![], count)
        },
        (Stage::Cause { ints }, Answer::Value(status)) => stretched(
            ints,
            stretch_cause_code(status),
            count,
        ),
        (Stage::TxStatus { ints, event, received }, Answer::Value(status)) => Outcome {
            stage: Stage::TxData { ints, space: txfifo_free(status) },
            ask: Ask::Notify { event, received, space: txfifo_free(status) },
            actions: seq![],
            count,
        },
        (Stage::TxData { ints, .. }, Answer::Written { buffer, count: written }) => Outcome {
            stage: Stage::FreeSize { ints, data: tx_data(buffer, written) },
            ask: Ask::Read(Register::Sr),
            actions: seq![],
            count,
        },
        (Stage::FreeSize { ints, data }, Answer::Value(status)) => finish(
            ints,
            slave_write_actions(status, data),
            count,
        ),
        _ => Outcome { stage, ask: Ask::Done, actions: seq![], count },
    }
}

/// Where the handler stands, with the bytes it keeps.
#[derive(Debug)]
enum Phase {
    Interrupts,
    Status { ints: u32 },
    RxStatus { ints: u32, goal: Goal },
    RxData { ints: u32, goal: Goal, status: u32 },
    Delivered { ints: u32, goal: Goal },
    Cause { ints: u32 },
    TxStatus { ints: u32, event: SlaveEvent, received: Vec<u8> },
    TxData { ints: u32, space: usize },
    FreeSize { ints: u32, data: Vec<u8> },
    Finished,
}

impl View for Phase {
    type V = Stage;

    closed spec fn view(&self) -> Stage {
        match *self {
            Phase::Interrupts => Stage::Interrupts,
            Phase::Status { ints } => Stage::Status { ints },
            Phase::RxStatus { ints, goal } => Stage::RxStatus { ints, goal },
            Phase::RxData { ints, goal, status } => Stage::RxData { ints, goal, status },
            Phase::Delivered { ints, goal } => Stage::Delivered { ints, goal },
            Phase::Cause { ints } => Stage::Cause { ints },
            Phase::TxStatus { ints, event, received } => Stage::TxStatus {
                ints,
                event,
                received: received@,
            },
            Phase::TxData { ints, space } => Stage::TxData { ints, space: space as nat },
            Phase::FreeSize { ints, data } => Stage::FreeSize { ints, data: data@ },
            Phase::Finished => Stage::Finished,
        }
    }
}

/// One invocation of the interrupt handler.
pub struct Handler<C> {
    on_event: C,
    phase: Phase,
}

/// What happens when an interrupt comes and nobody registered a callback: all interrupts are
/// disabled, and the waiting task is woken.
pub open spec fn unattended_actions() -> Seq<Action> {
    seq![Action::Write { register: Register::IntEna, value: 0 }, Action::Wake]
}

/// Starts to handle an interrupt.
///
/// Without a callback all interrupts are disabled and the waiting task is woken, and that is all.
/// Otherwise the callback is picked up, so that a later registration does not affect this
/// invocation, and the first request is for the interrupt status.
pub fn async_handler<C: Copy>(state: &State<C>, plan: &mut Plan) -> (started: Option<
    (Handler<C>, Request),
>)
    ensures
        started is Some <==> state.callback is Some,
        started matches Some((handler, request)) ==> {
            &&& Some(handler.callback()) == state.callback
            &&& handler.stage() == Stage::Interrupts
            &&& request@ == Ask::Read(Register::IntSt)
            &&& final(plan)@ == old(plan)@
        },
        started is None ==> final(plan)@ == old(plan)@ + unattended_actions(),
{
    match state.callback {
        Some(on_event) => Some(
            (Handler { on_event, phase: Phase::Interrupts }, Request::Read(Register::IntSt)),
        ),
        None => {
            plan.write(Register::IntEna, 0);
            plan.push(Action::Wake);
            None
        },
    }
}

impl<C> Handler<C> {
    /// Where the handler stands.
    pub closed spec fn stage(&self) -> Stage {
        self.phase@
    }

    /// The callback that this invocation reports to.
    pub closed spec fn callback(&self) -> C {
        self.on_event
    }

    /// Hands out the callback that this invocation reports to.
    pub fn on_event(&self) -> (callback: C) where C: Copy
        ensures
            callback == self.callback(),
    {
        self.on_event
    }

    /// Tells whether the handler can go on with a reply.
    pub fn accepts(&self, reply: &Reply) -> (accepts: bool)
        ensures
            accepts == accepted(self.stage(), reply@),
    {
        match (&self.phase, reply) {
            (Phase::RxData { status, .. }, Reply::Fifo(words)) => words.len() == rx_fifo_read_len(
                *status,
                FIFO_SIZE,
            ),
            (Phase::Delivered { .. }, Reply::Written { buffer, .. }) => buffer.len() == 0,
            (Phase::TxStatus { event, .. }, Reply::Value(status)) => match event {
                SlaveEvent::StretchTxEmpty => txfifo_cnt(*status) == 0,
                _ => true,
            },
            (Phase::TxData { space, .. }, Reply::Written { buffer, count }) => buffer.len()
                == *space && *count <= FIFO_SIZE,
            (Phase::Interrupts, Reply::Value(_)) => true,
            (Phase::Status { .. }, Reply::Value(_)) => true,
            (Phase::RxStatus { .. }, Reply::Value(_)) => true,
            (Phase::Cause { .. }, Reply::Value(_)) => true,
            (Phase::FreeSize { .. }, Reply::Value(_)) => true,
            _ => false,
        }
    }

    /// Goes on with the reply to the last request, and tells the next one.
    ///
    /// The plan has to be carried out before the next request is served.
    pub fn resume(&mut self, reply: Reply, state: &mut State<C>, plan: &mut Plan) -> (request:
        Request)
        requires
            accepted(old(self).stage(), reply@),
        ensures
            ({
                let outcome = step(old(self).stage(), reply@, old(state).rx_count());
                &&& final(self).stage() == outcome.stage
                &&& request@ == outcome.ask
                &&& final(plan)@ == old(plan)@ + outcome.actions
                &&& final(state).rx_count() == outcome.count
            }),
            final(self).callback() == old(self).callback(),
            final(state).callback == old(state).callback,
    {
        let mut phase: Phase = Phase::Finished;
        std::mem::swap(&mut phase, &mut self.phase);
        match (phase, reply) {
            (Phase::Interrupts, Reply::Value(ints)) => {
                self.phase = Phase::Status { ints };
                Request::Read(Register::Sr)
            },
            (Phase::Status { ints }, Reply::Value(status)) => {
                self.serve(ints, status, state, plan)
            },
            (Phase::RxStatus { ints, goal }, Reply::Value(status)) => {
                self.phase = Phase::RxData { ints, goal, status };
                Request::ReadFifo(rx_fifo_read_len(status, FIFO_SIZE))
            },
            (Phase::RxData { ints, goal, status }, Reply::Fifo(words)) => {
                let mut data: Vec<u8> = vec![0u8; FIFO_SIZE];
                let did_read: usize = read_rx_fifo(status, words.as_slice(), data.as_mut_slice());
                data.truncate(did_read);
                assert(data@ =~= data_bytes(words@));
                self.take_received(ints, goal, data, state, plan)
            },
            (Phase::Delivered { ints, goal }, Reply::Written { .. }) => match goal {
                Goal::Full => {
                    clear_stretch(plan);
                    self.end(ints, state, plan)
                },
                _ => self.check_stretch(ints, state, plan),
            },
            (Phase::Cause { ints }, Reply::Value(status)) => {
                self.handle_stretch(ints, stretch_cause(status), state, plan)
            },
            (Phase::TxStatus { ints, event, received }, Reply::Value(status)) => {
                let space: usize = get_tx_fifo_free_size(status) as usize;
                self.phase = Phase::TxData { ints, space };
                Request::Notify { event, received, space }
            },
            (Phase::TxData { ints, .. }, Reply::Written { buffer, count }) => {
                let mut data: Vec<u8> = buffer;
                while data.len() < FIFO_SIZE
                    invariant
                        buffer@.len() <= data@.len(),
                        data@ =~= tx_data(buffer@, data@.len()),
                    decreases FIFO_SIZE - data.len(),
                {
                    data.push(0);
                }
                data.truncate(count);
                self.phase = Phase::FreeSize { ints, data };
                Request::Read(Register::Sr)
            },
            (Phase::FreeSize { ints, data }, Reply::Value(status)) => {
                slave_handle_write(status, data.as_slice(), plan);
                self.end(ints, state, plan)
            },
            _ => Request::Done,
        }
    }

    /// Serves the interrupts other than a stretched clock, given the status register.
    fn serve(&mut self, ints: u32, status: u32, state: &mut State<C>, plan: &mut Plan) -> (request:
        Request)
        ensures
            ({
                let outcome = served(ints, status, old(state).rx_count());
                &&& final(self).stage() == outcome.stage
                &&& request@ == outcome.ask
                &&& final(plan)@ == old(plan)@ + outcome.actions
                &&& final(state).rx_count() == outcome.count
            }),
            final(self).callback() == old(self).callback(),
            final(state).callback == old(state).callback,
    {
        let rx_fifo_exist_len: u8 = rxfifo_cnt(status);
        if is_set(ints, INT_NACK) {
            reset_tx_fifo(plan);
        }
        if is_set(ints, INT_TRANS_COMPLETE) {
            let before: usize = counter_swap(&mut state.cur_transaction_rx_cnt, 0);
            if rx_fifo_exist_len > 0 || before > 0 {
                self.phase = Phase::RxStatus { ints, goal: Goal::Complete(before) };
                Request::Read(Register::Sr)
            } else {
                self.check_stretch(ints, state, plan)
            }
        } else if is_set(ints, INT_RXFIFO_WM) {
            // Only without the end of a transfer, which reads the FIFO anyway and for whose last
            // data the watermark would be a misleading reason.
            self.phase = Phase::RxStatus { ints, goal: Goal::Watermark };
            Request::Read(Register::Sr)
        } else {
            self.check_stretch(ints, state, plan)
        }
    }

    /// Passes on the bytes that were read from the receive FIFO.
    fn take_received(
        &mut self,
        ints: u32,
        goal: Goal,
        data: Vec<u8>,
        state: &mut State<C>,
        plan: &mut Plan,
    ) -> (request: Request)
        ensures
            ({
                let outcome = received(ints, goal, data@, old(state).rx_count());
                &&& final(self).stage() == outcome.stage
                &&& request@ == outcome.ask
                &&& final(plan)@ == old(plan)@ + outcome.actions
                &&& final(state).rx_count() == outcome.count
            }),
            final(self).callback() == old(self).callback(),
            final(state).callback == old(state).callback,
    {
        match goal {
            Goal::Complete(before) => {
                self.phase = Phase::Delivered { ints, goal };
                Request::Notify {
                    event: SlaveEvent::TransComplete(before),
                    received: data,
                    space: 0,
                }
            },
            Goal::Watermark => {
                let before: usize = counter_fetch_add(
                    &mut state.cur_transaction_rx_cnt,
                    data.len(),
                );
                self.phase = Phase::Delivered { ints, goal };
                Request::Notify {
                    event: SlaveEvent::RxFifoWatermark(before),
                    received: data,
                    space: 0,
                }
            },
            Goal::AddressMatch(before) => {
                self.phase = Phase::TxStatus {
                    ints,
                    event: SlaveEvent::StretchAddrMatch(before),
                    received: data,
                };
                Request::Read(Register::Sr)
            },
            Goal::Full => {
                if data.len() > 0 {
                    let before: usize = counter_fetch_add(
                        &mut state.cur_transaction_rx_cnt,
                        data.len(),
                    );
                    self.phase = Phase::Delivered { ints, goal };
                    Request::Notify {
                        event: SlaveEvent::StretchRxFull(before),
                        received: data,
                        space: 0,
                    }
                } else {
                    clear_stretch(plan);
                    self.end(ints, state, plan)
                }
            },
        }
    }

    /// Looks into a stretched clock if there is one.
    fn check_stretch(&mut self, ints: u32, state: &mut State<C>, plan: &mut Plan) -> (request:
        Request)
        ensures
            ({
                let outcome = look_at_stretch(ints, old(plan)@, old(state).rx_count());
                &&& final(self).stage() == outcome.stage
                &&& request@ == outcome.ask
                &&& final(plan)@ == outcome.actions
                &&& final(state).rx_count() == outcome.count
            }),
            final(self).callback() == old(self).callback(),
            final(state).callback == old(state).callback,
    {
        if is_set(ints, INT_SLAVE_STRETCH) {
            self.phase = Phase::Cause { ints };
            Request::Read(Register::Sr)
        } else {
            self.end(ints, state, plan)
        }
    }

    /// Serves a stretched clock, given the cause.
    fn handle_stretch(&mut self, ints: u32, cause: u8, state: &mut State<C>, plan: &mut Plan) -> (
    request: Request)
        ensures
            ({
                let outcome = stretched(ints, cause as nat, old(state).rx_count());
                &&& final(self).stage() == outcome.stage
                &&& request@ == outcome.ask
                &&& final(plan)@ == old(plan)@ + outcome.actions
                &&& final(state).rx_count() == outcome.count
            }),
            final(self).callback() == old(self).callback(),
            final(state).callback == old(state).callback,
    {
        match cause {
            0 => {
                // The address matched, which also ends a write by the master before it.
                let before: usize = counter_swap(&mut state.cur_transaction_rx_cnt, 0);
                self.phase = Phase::RxStatus { ints, goal: Goal::AddressMatch(before) };
                Request::Read(Register::Sr)
            },
            1 => {
                self.phase = Phase::TxStatus {
                    ints,
                    event: SlaveEvent::StretchTxEmpty,
                    received: Vec::new(),
                };
                Request::Read(Register::Sr)
            },
            2 => {
                // The bytes may already have been read for another interrupt.
                self.phase = Phase::RxStatus { ints, goal: Goal::Full };
                Request::Read(Register::Sr)
            },
            _ => self.end(ints, state, plan),
        }
    }

    /// Ends the invocation: clears the interrupts that it served.
    fn end(&mut self, ints: u32, state: &mut State<C>, plan: &mut Plan) -> (request: Request)
        ensures
            ({
                let outcome = finish(ints, old(plan)@, old(state).rx_count());
                &&& final(self).stage() == outcome.stage
                &&& request@ == outcome.ask
                &&& final(plan)@ == outcome.actions
                &&& final(state).rx_count() == outcome.count
            }),
            final(self).callback() == old(self).callback(),
            final(state).callback == old(state).callback,
    {
        if is_set(ints, INT_END_DETECT) {
            counter_store(&mut state.cur_transaction_rx_cnt, 0);
        }
        plan.write(Register::IntClr, ints);
        self.phase = Phase::Finished;
        Request::Done
    }
}

/// An interrupt that nobody registered a callback for is not left to come again and again: all
/// interrupts are disabled, and then a waiting task is woken, once. No other register changes.
pub proof fn lemma_unattended_interrupt_is_silenced(v: u32, register: Register)
    ensures
        ({
            let actions = unattended_actions();
            &&& history(v, register, actions) == if register == Register::IntEna {
                seq![0u32]
            } else {
                seq![]
            }
            &&& actions.last() == Action::Wake
            &&& forall|i: int|
                0 <= i < actions.len() - 1 ==> changes(#[trigger] actions[i], Register::IntEna)
        }),
{
    assert(unattended_actions().len() == 2);
    reveal_with_fuel(value_after_first, 3);
    reveal_with_fuel(history_of_first, 3);
}

/// The bytes that a callback hands over are as many as it says. Those within its buffer are those of
/// the buffer, and the rest are zero.
pub proof fn lemma_handed_over_bytes(buffer: Seq<u8>, count: nat)
    ensures
        tx_data(buffer, count).len() == count,
        forall|i: int|
            0 <= i < count && i < buffer.len() ==> #[trigger] tx_data(buffer, count)[i]
                == buffer[i],
        forall|i: int|
            buffer.len() <= i < count ==> #[trigger] tx_data(buffer, count)[i] == 0,
{
}

} // verus!
