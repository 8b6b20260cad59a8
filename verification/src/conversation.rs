//! What a whole invocation of the interrupt handler does, from its start to its end.
//!
//! [`crate::handler`] says what the handler does on a single answer. Here an invocation is one
//! [`Episode`], the answers that the hardware and the callback gave, and [`Episode::transcript`] lists all
//! that is asked and done in it, in order.

use vstd::prelude::*;

use crate::counter::wrapped_sum;
use crate::event::SlaveEvent;
use crate::fifo::{
    clear_stretch_action, data_bytes, reset_tx_fifo_actions, rx_read_count, slave_write_actions,
    txfifo_free,
};
use crate::handler::{
    accepted, finish, look_at_stretch, received, served, step, stretched, tx_data, Answer, Ask,
    Goal, Stage,
};
use crate::plan::Action;
use crate::register::{
    any_set, rxfifo_count, stretch_cause_code, txfifo_count, Register, FIFO_SIZE, INT_END_DETECT,
    INT_NACK, INT_RXFIFO_WM, INT_SLAVE_STRETCH, INT_TRANS_COMPLETE,
};

verus! {

/// One thing that happens in an invocation.
#[verifier::ext_equal]
pub enum Item {
    /// The handler asked and got an answer.
    Asked { ask: Ask, answer: Answer },
    /// The handler had something done to the hardware.
    Did(Action),
}

/// A content of the receive FIFO: the status register at the time and the values read.
#[verifier::ext_equal]
pub struct Reading {
    pub status: u32,
    pub words: Seq<u32>,
}

/// The answers of one invocation. Those that are not asked for do not matter.
#[verifier::ext_equal]
pub struct Episode {
    /// The interrupt status, and the status register read with it.
    pub ints: u32,
    pub status: u32,
    /// The bytes read for the end of a transfer or for the watermark, and what the callback
    /// returned for them.
    pub reading: Reading,
    pub returned: nat,
    /// The status register that tells the cause of a stretched clock.
    pub cause: u32,
    /// The bytes read for the stretched clock, and what the callback returned for them if it had
    /// nothing to send.
    pub stretch_reading: Reading,
    pub stretch_returned: nat,
    /// The status register before the callback was asked for data, its buffer and its return
    /// value, and the status register before the data was written.
    pub tx_status: u32,
    pub buffer: Seq<u8>,
    pub written: nat,
    pub free_status: u32,
}

impl Reading {
    /// The bytes read.
    pub open spec fn bytes(self) -> Seq<u8> {
        data_bytes(self.words)
    }

    /// Whether as many values were read as the FIFO held, or as fit into the buffer.
    pub open spec fn fits(self) -> bool {
        self.words.len() == rx_read_count(self.status, FIFO_SIZE as nat)
    }

    /// The status register is read, then the data register as often as it takes.
    pub open spec fn items(self) -> Seq<Item> {
        seq![
            asked_status(self.status),
            Item::Asked {
                ask: Ask::ReadFifo(rx_read_count(self.status, FIFO_SIZE as nat)),
                answer: Answer::Fifo(self.words),
            },
        ]
    }
}

/// The status register is read.
pub open spec fn asked_status(status: u32) -> Item {
    Item::Asked { ask: Ask::Read(Register::Sr), answer: Answer::Value(status) }
}

/// The callback is told of an event and fills its buffer.
pub open spec fn notified(
    event: SlaveEvent,
    received: Seq<u8>,
    buffer: Seq<u8>,
    returned: nat,
) -> Item {
    Item::Asked {
        ask: Ask::Notify { event, received, space: buffer.len() },
        answer: Answer::Written { buffer, count: returned },
    }
}

/// Actions are carried out.
pub open spec fn done(actions: Seq<Action>) -> Seq<Item> {
    actions.map_values(|action: Action| Item::Did(action))
}

impl Episode {
    /// Whether the interrupt is the end of a transfer.
    pub open spec fn completes(self) -> bool {
        any_set(self.ints, INT_TRANS_COMPLETE)
    }

    /// Whether the interrupt is the watermark and nothing stronger.
    pub open spec fn at_watermark(self) -> bool {
        !self.completes() && any_set(self.ints, INT_RXFIFO_WM)
    }

    /// Whether the callback is told of the end of a transfer, `count` bytes into the transaction.
    /// It is, unless the whole transaction brought no byte.
    pub open spec fn reports_end(self, count: usize) -> bool {
        self.completes() && (rxfifo_count(self.status) > 0 || count > 0)
    }

    /// The cause of a stretched clock, if the clock is stretched.
    pub open spec fn stretch(self) -> Option<nat> {
        if any_set(self.ints, INT_SLAVE_STRETCH) {
            Some(stretch_cause_code(self.cause))
        } else {
            None
        }
    }

    /// The bytes of the transaction after the end of a transfer or the watermark was served.
    pub open spec fn count_between(self, count: usize) -> usize {
        if self.completes() {
            0
        } else if self.at_watermark() {
            wrapped_sum(count, self.reading.words.len() as usize)
        } else {
            count
        }
    }

    /// The bytes of the transaction after the stretched clock was served.
    pub open spec fn count_stretched(self, count: usize) -> usize {
        if self.stretch() == Some(0nat) {
            0
        } else if self.stretch() == Some(2nat) {
            wrapped_sum(self.count_between(count), self.stretch_reading.words.len() as usize)
        } else {
            self.count_between(count)
        }
    }

    /// The bytes of the transaction after the invocation.
    pub open spec fn count_after(self, count: usize) -> usize {
        if any_set(self.ints, INT_END_DETECT) {
            0
        } else {
            self.count_stretched(count)
        }
    }

    /// Whether the answers fit the questions, for an invocation `count` bytes into a transaction.
    pub open spec fn valid(self, count: usize) -> bool {
        &&& self.reports_end(count) || self.at_watermark() ==> self.reading.fits()
        &&& self.stretch() == Some(0nat) || self.stretch() == Some(2nat)
            ==> self.stretch_reading.fits()
        &&& self.stretch() == Some(0nat) || self.stretch() == Some(1nat) ==> self.buffer.len()
            == txfifo_free(self.tx_status) && self.written <= FIFO_SIZE
        &&& self.stretch() == Some(1nat) ==> txfifo_count(self.tx_status) == 0
    }

    /// A NACK empties the transmit FIFO.
    pub open spec fn nack_items(self) -> Seq<Item> {
        if any_set(self.ints, INT_NACK) {
            done(reset_tx_fifo_actions())
        } else {
            seq![]
        }
    }

    /// Received bytes are read and reported.
    pub open spec fn receive_items(self, count: usize) -> Seq<Item> {
        if self.reports_end(count) {
            self.reading.items().push(
                notified(
                    SlaveEvent::TransComplete(count),
                    self.reading.bytes(),
                    seq![],
                    self.returned,
                ),
            )
        } else if self.at_watermark() {
            self.reading.items().push(
                notified(
                    SlaveEvent::RxFifoWatermark(count),
                    self.reading.bytes(),
                    seq![],
                    self.returned,
                ),
            )
        } else {
            seq![]
        }
    }

    /// The callback is asked for data to send, and what fits of it is sent.
    pub open spec fn send_items(self, event: SlaveEvent, received: Seq<u8>) -> Seq<Item> {
        seq![
            asked_status(self.tx_status),
            notified(event, received, self.buffer, self.written),
            asked_status(self.free_status),
        ] + done(slave_write_actions(self.free_status, tx_data(self.buffer, self.written)))
    }

    /// A stretched clock is served, `count` bytes into the transaction.
    pub open spec fn stretch_items(self, count: usize) -> Seq<Item> {
        match self.stretch() {
            None => seq![],
            Some(cause) => seq![asked_status(self.cause)] + if cause == 0 {
                self.stretch_reading.items() + self.send_items(
                    SlaveEvent::StretchAddrMatch(count),
                    self.stretch_reading.bytes(),
                )
            } else if cause == 1 {
                self.send_items(SlaveEvent::StretchTxEmpty, seq![])
            } else if cause == 2 {
                self.stretch_reading.items() + (if self.stretch_reading.words.len() > 0 {
                    seq![
                        notified(
                            SlaveEvent::StretchRxFull(count),
                            self.stretch_reading.bytes(),
                            seq![],
                            self.stretch_returned,
                        ),
                    ]
                } else {
                    seq![]
                }) + done(seq![clear_stretch_action()])
            } else {
                seq![]
            },
        }
    }

    /// All that happens in the invocation, in order, `count` bytes into the transaction.
    pub open spec fn transcript(self, count: usize) -> Seq<Item> {
        seq![
            Item::Asked { ask: Ask::Read(Register::IntSt), answer: Answer::Value(self.ints) },
            asked_status(self.status),
        ] + self.nack_items() + self.receive_items(count) + self.stretch_items(
            self.count_between(count),
        ) + done(seq![Action::Write { register: Register::IntClr, value: self.ints }])
    }
}

/// What becomes of an invocation: what happened so far, where the handler stands, what it asks and
/// how many bytes the transaction has.
#[verifier::ext_equal]
pub struct Run {
    pub items: Seq<Item>,
    pub stage: Stage,
    pub ask: Ask,
    pub count: usize,
}

/// One question, its answer and what is done upon it.
pub open spec fn turn(ask: Ask, answer: Answer, actions: Seq<Action>) -> Seq<Item> {
    seq![Item::Asked { ask, answer }] + done(actions)
}

/// The handler answered again and again, from a stage and a question on.
pub open spec fn converse(stage: Stage, ask: Ask, count: usize, answers: Seq<Answer>) -> Run
    decreases answers.len(),
{
    if answers.len() == 0 {
        Run { items: seq![], stage, ask, count }
    } else {
        let outcome = step(stage, answers[0], count);
        let rest = converse(outcome.stage, outcome.ask, outcome.count, answers.drop_first());
        Run { items: turn(ask, answers[0], outcome.actions) + rest.items, ..rest }
    }
}

/// Whether the handler accepts each of the answers when its turn comes.
pub open spec fn all_accepted(stage: Stage, count: usize, answers: Seq<Answer>) -> bool
    decreases answers.len(),
{
    answers.len() == 0 || {
        let outcome = step(stage, answers[0], count);
        accepted(stage, answers[0]) && all_accepted(
            outcome.stage,
            outcome.count,
            answers.drop_first(),
        )
    }
}

/// An invocation of the handler, `count` bytes into a transaction.
pub open spec fn invocation(count: usize, answers: Seq<Answer>) -> Run {
    converse(Stage::Interrupts, Ask::Read(Register::IntSt), count, answers)
}

/// Whether the answers lead an invocation to its end.
pub open spec fn ends(count: usize, answers: Seq<Answer>) -> bool {
    all_accepted(Stage::Interrupts, count, answers) && invocation(count, answers).stage
        == Stage::Finished
}

/// What ends every invocation: the interrupts that were served are cleared.
pub open spec fn end_items(ints: u32) -> Seq<Item> {
    done(seq![Action::Write { register: Register::IntClr, value: ints }])
}

/// The bytes of the transaction after an invocation ended.
pub open spec fn ended(ints: u32, count: usize) -> usize {
    if any_set(ints, INT_END_DETECT) {
        0
    } else {
        count
    }
}

/// A finished handler accepts no more answers.
proof fn lemma_finished(ask: Ask, count: usize, answers: Seq<Answer>)
    requires
        all_accepted(Stage::Finished, count, answers),
    ensures
        converse(Stage::Finished, ask, count, answers) == (Run {
            items: seq![],
            stage: Stage::Finished,
            ask,
            count,
        }),
{
}

/// A handler that is not finished but will be has an answer coming.
proof fn lemma_turn(stage: Stage, ask: Ask, count: usize, answers: Seq<Answer>)
    requires
        stage != Stage::Finished,
        all_accepted(stage, count, answers),
        converse(stage, ask, count, answers).stage == Stage::Finished,
    ensures
        answers.len() > 0,
        accepted(stage, answers[0]),
        ({
            let o = step(stage, answers[0], count);
            let rest = converse(o.stage, o.ask, o.count, answers.drop_first());
            &&& all_accepted(o.stage, o.count, answers.drop_first())
            &&& rest.stage == Stage::Finished
            &&& converse(stage, ask, count, answers) == (Run {
                items: turn(ask, answers[0], o.actions) + rest.items,
                ..rest
            })
        }),
{
}

/// Carrying out a sequence of actions is carrying out its parts.
proof fn lemma_done_push(actions: Seq<Action>, action: Action)
    ensures
        done(actions.push(action)) == done(actions) + done(seq![action]),
{
    assert(done(actions.push(action)) =~= done(actions) + done(seq![action]));
}

/// How an invocation goes on that has bytes to send.
proof fn lemma_from_free_size(
    e: Episode,
    data: Seq<u8>,
    count: usize,
    answers: Seq<Answer>,
) -> (f: Episode)
    requires
        all_accepted(Stage::FreeSize { ints: e.ints, data }, count, answers),
        converse(
            Stage::FreeSize { ints: e.ints, data },
            Ask::Read(Register::Sr),
            count,
            answers,
        ).stage == Stage::Finished,
    ensures
        f == (Episode { free_status: f.free_status, ..e }),
        converse(
            Stage::FreeSize { ints: e.ints, data },
            Ask::Read(Register::Sr),
            count,
            answers,
        ) == (Run {
            items: seq![asked_status(f.free_status)] + done(
                slave_write_actions(f.free_status, data),
            ) + end_items(e.ints),
            stage: Stage::Finished,
            ask: Ask::Done,
            count: ended(e.ints, count),
        }),
{
    let stage = Stage::FreeSize { ints: e.ints, data };
    let status = answers[0]->Value_0;
    lemma_turn(stage, Ask::Read(Register::Sr), count, answers);
    lemma_finished(Ask::Done, ended(e.ints, count), answers.drop_first());
    lemma_done_push(
        slave_write_actions(status, data),
        Action::Write { register: Register::IntClr, value: e.ints },
    );
    let f = Episode { free_status: status, ..e };
    let run = converse(stage, Ask::Read(Register::Sr), count, answers);
    assert(run.items =~= seq![asked_status(f.free_status)] + done(
        slave_write_actions(f.free_status, data),
    ) + end_items(e.ints));
    f
}

/// How an invocation goes on that asks the callback for data.
proof fn lemma_from_tx_status(
    e: Episode,
    event: SlaveEvent,
    received: Seq<u8>,
    count: usize,
    answers: Seq<Answer>,
) -> (f: Episode)
    requires
        all_accepted(Stage::TxStatus { ints: e.ints, event, received }, count, answers),
        converse(
            Stage::TxStatus { ints: e.ints, event, received },
            Ask::Read(Register::Sr),
            count,
            answers,
        ).stage == Stage::Finished,
    ensures
        f == (Episode {
            tx_status: f.tx_status,
            buffer: f.buffer,
            written: f.written,
            free_status: f.free_status,
            ..e
        }),
        f.buffer.len() == txfifo_free(f.tx_status),
        f.written <= FIFO_SIZE,
        event == SlaveEvent::StretchTxEmpty ==> txfifo_count(f.tx_status) == 0,
        converse(
            Stage::TxStatus { ints: e.ints, event, received },
            Ask::Read(Register::Sr),
            count,
            answers,
        ) == (Run {
            items: f.send_items(event, received) + end_items(e.ints),
            stage: Stage::Finished,
            ask: Ask::Done,
            count: ended(e.ints, count),
        }),
{
    let stage = Stage::TxStatus { ints: e.ints, event, received };
    let ask = Ask::Read(Register::Sr);
    lemma_turn(stage, ask, count, answers);
    let first = step(stage, answers[0], count);
    let rest = answers.drop_first();
    lemma_turn(first.stage, first.ask, first.count, rest);
    let second = step(first.stage, rest[0], first.count);
    let tail = rest.drop_first();
    let e2 = Episode {
        tx_status: answers[0]->Value_0,
        buffer: rest[0]->buffer,
        written: rest[0]->count,
        ..e
    };
    let f = lemma_from_free_size(e2, tx_data(e2.buffer, e2.written), second.count, tail);
    assert(converse(first.stage, first.ask, first.count, rest).items =~= seq![
        notified(event, received, f.buffer, f.written),
    ] + converse(second.stage, second.ask, second.count, tail).items);
    assert(converse(stage, ask, count, answers).items =~= f.send_items(event, received)
        + end_items(e.ints));
    f
}

/// How an invocation goes on that reads the receive FIFO.
proof fn lemma_from_rx_status(ints: u32, goal: Goal, count: usize, answers: Seq<Answer>) -> (r:
    Reading)
    requires
        all_accepted(Stage::RxStatus { ints, goal }, count, answers),
        converse(
            Stage::RxStatus { ints, goal },
            Ask::Read(Register::Sr),
            count,
            answers,
        ).stage == Stage::Finished,
    ensures
        r.fits(),
        ({
            let o = received(ints, goal, r.bytes(), count);
            let tail = answers.drop_first().drop_first();
            let rest = converse(o.stage, o.ask, o.count, tail);
            &&& all_accepted(o.stage, o.count, tail)
            &&& rest.stage == Stage::Finished
            &&& converse(
                Stage::RxStatus { ints, goal },
                Ask::Read(Register::Sr),
                count,
                answers,
            ) == (Run { items: r.items() + done(o.actions) + rest.items, ..rest })
        }),
{
    let stage = Stage::RxStatus { ints, goal };
    let ask = Ask::Read(Register::Sr);
    lemma_turn(stage, ask, count, answers);
    let first = step(stage, answers[0], count);
    let rest = answers.drop_first();
    lemma_turn(first.stage, first.ask, first.count, rest);
    let second = step(first.stage, rest[0], first.count);
    let r = Reading { status: answers[0]->Value_0, words: rest[0]->Fifo_0 };
    assert(converse(stage, ask, count, answers).items =~= r.items() + done(second.actions)
        + converse(second.stage, second.ask, second.count, rest.drop_first()).items);
    r
}

/// How an invocation goes on once the callback heard of received bytes.
proof fn lemma_from_delivered(
    ints: u32,
    goal: Goal,
    event: SlaveEvent,
    data: Seq<u8>,
    count: usize,
    answers: Seq<Answer>,
) -> (returned: nat)
    requires
        all_accepted(Stage::Delivered { ints, goal }, count, answers),
        converse(
            Stage::Delivered { ints, goal },
            Ask::Notify { event, received: data, space: 0 },
            count,
            answers,
        ).stage == Stage::Finished,
    ensures
        ({
            let o = if goal == Goal::Full {
                finish(ints, seq![clear_stretch_action()], count)
            } else {
                look_at_stretch(ints, seq![], count)
            };
            let rest = converse(o.stage, o.ask, o.count, answers.drop_first());
            &&& all_accepted(o.stage, o.count, answers.drop_first())
            &&& rest.stage == Stage::Finished
            &&& converse(
                Stage::Delivered { ints, goal },
                Ask::Notify { event, received: data, space: 0 },
                count,
                answers,
            ) == (Run {
                items: seq![notified(event, data, seq![], returned)] + done(o.actions) + rest.items,
                ..rest
            })
        }),
{
    let stage = Stage::Delivered { ints, goal };
    let ask = Ask::Notify { event, received: data, space: 0 };
    lemma_turn(stage, ask, count, answers);
    let returned = answers[0]->count;
    assert(answers[0]->buffer =~= seq![]);
    assert(Item::Asked { ask, answer: answers[0] } == notified(event, data, seq![], returned));
    returned
}

/// How an invocation goes on once received bytes, if any, are dealt with. `actions` is what was
/// planned just before.
proof fn lemma_from_stretch(
    e: Episode,
    actions: Seq<Action>,
    count: usize,
    answers: Seq<Answer>,
) -> (f: Episode)
    requires
        ({
            let o = look_at_stretch(e.ints, actions, count);
            &&& all_accepted(o.stage, o.count, answers)
            &&& converse(o.stage, o.ask, o.count, answers).stage == Stage::Finished
        }),
    ensures
        f == (Episode {
            cause: f.cause,
            stretch_reading: f.stretch_reading,
            stretch_returned: f.stretch_returned,
            tx_status: f.tx_status,
            buffer: f.buffer,
            written: f.written,
            free_status: f.free_status,
            ..e
        }),
        f.stretch() == Some(0nat) || f.stretch() == Some(2nat) ==> f.stretch_reading.fits(),
        f.stretch() == Some(0nat) || f.stretch() == Some(1nat) ==> f.buffer.len() == txfifo_free(
            f.tx_status,
        ) && f.written <= FIFO_SIZE,
        f.stretch() == Some(1nat) ==> txfifo_count(f.tx_status) == 0,
        ({
            let o = look_at_stretch(e.ints, actions, count);
            let run = converse(o.stage, o.ask, o.count, answers);
            let after = if f.stretch() == Some(0nat) {
                0
            } else if f.stretch() == Some(2nat) {
                wrapped_sum(count, f.stretch_reading.words.len() as usize)
            } else {
                count
            };
            &&& done(o.actions) + run.items == done(actions) + f.stretch_items(count) + end_items(
                e.ints,
            )
            &&& run.stage == Stage::Finished
            &&& run.ask == Ask::Done
            &&& run.count == ended(e.ints, after)
        }),
{
    let ints = e.ints;
    let clear = Action::Write { register: Register::IntClr, value: ints };
    let o = look_at_stretch(ints, actions, count);
    let run = converse(o.stage, o.ask, o.count, answers);
    if !any_set(ints, INT_SLAVE_STRETCH) {
        lemma_finished(o.ask, o.count, answers);
        lemma_done_push(actions, clear);
        assert(done(o.actions) + run.items =~= done(actions) + e.stretch_items(count) + end_items(
            ints,
        ));
        e
    } else {
        lemma_turn(o.stage, o.ask, o.count, answers);
        let e1 = Episode { cause: answers[0]->Value_0, ..e };
        let cause = stretch_cause_code(e1.cause);
        let first = step(o.stage, answers[0], o.count);
        let rest = answers.drop_first();
        let then = converse(first.stage, first.ask, first.count, rest);
        assert(run.items =~= seq![asked_status(e1.cause)] + done(first.actions) + then.items);
        if cause == 0 {
            let r = lemma_from_rx_status(ints, Goal::AddressMatch(count), 0, rest);
            let e2 = Episode { stretch_reading: r, ..e1 };
            let tail = rest.drop_first().drop_first();
            let f = lemma_from_tx_status(
                e2,
                SlaveEvent::StretchAddrMatch(count),
                r.bytes(),
                0,
                tail,
            );
            assert(run.items =~= f.stretch_items(count) + end_items(ints));
            assert(done(actions) + run.items =~= done(actions) + f.stretch_items(count)
                + end_items(ints));
            f
        } else if cause == 1 {
            let f = lemma_from_tx_status(e1, SlaveEvent::StretchTxEmpty, seq![], count, rest);
            assert(run.items =~= f.stretch_items(count) + end_items(ints));
            assert(done(actions) + run.items =~= done(actions) + f.stretch_items(count)
                + end_items(ints));
            f
        } else if cause == 2 {
            let r = lemma_from_rx_status(ints, Goal::Full, count, rest);
            let tail = rest.drop_first().drop_first();
            let second = received(ints, Goal::Full, r.bytes(), count);
            lemma_done_push(seq![clear_stretch_action()], clear);
            let f = if r.words.len() > 0 {
                let returned = lemma_from_delivered(
                    ints,
                    Goal::Full,
                    SlaveEvent::StretchRxFull(count),
                    r.bytes(),
                    second.count,
                    tail,
                );
                lemma_finished(Ask::Done, ended(ints, second.count), tail.drop_first());
                Episode { stretch_reading: r, stretch_returned: returned, ..e1 }
            } else {
                lemma_finished(second.ask, second.count, tail);
                Episode { stretch_reading: r, ..e1 }
            };
            assert(run.items =~= f.stretch_items(count) + end_items(ints));
            assert(done(actions) + run.items =~= done(actions) + f.stretch_items(count)
                + end_items(ints));
            f
        } else {
            lemma_finished(first.ask, first.count, rest);
            lemma_done_push(seq![], clear);
            assert(run.items =~= e1.stretch_items(count) + end_items(ints));
            assert(done(actions) + run.items =~= done(actions) + e1.stretch_items(count)
                + end_items(ints));
            e1
        }
    }
}

/// How an invocation goes on once received bytes were reported for the end of a transfer or for the
/// watermark, from the reading of the receive FIFO on.
proof fn lemma_from_receive(
    e: Episode,
    goal: Goal,
    event: SlaveEvent,
    count: usize,
    answers: Seq<Answer>,
) -> (f: Episode)
    requires
        all_accepted(Stage::RxStatus { ints: e.ints, goal }, count, answers),
        converse(
            Stage::RxStatus { ints: e.ints, goal },
            Ask::Read(Register::Sr),
            count,
            answers,
        ).stage == Stage::Finished,
        goal matches Goal::Complete(before) ==> event == SlaveEvent::TransComplete(before),
        goal == Goal::Watermark ==> event == SlaveEvent::RxFifoWatermark(count),
        goal is Complete || goal is Watermark,
    ensures
        f.ints == e.ints,
        f.status == e.status,
        f.reading.fits(),
        f.stretch() == Some(0nat) || f.stretch() == Some(2nat) ==> f.stretch_reading.fits(),
        f.stretch() == Some(0nat) || f.stretch() == Some(1nat) ==> f.buffer.len() == txfifo_free(
            f.tx_status,
        ) && f.written <= FIFO_SIZE,
        f.stretch() == Some(1nat) ==> txfifo_count(f.tx_status) == 0,
        ({
            let run = converse(
                Stage::RxStatus { ints: e.ints, goal },
                Ask::Read(Register::Sr),
                count,
                answers,
            );
            let middle = if goal is Watermark {
                wrapped_sum(count, f.reading.words.len() as usize)
            } else {
                count
            };
            let after = if f.stretch() == Some(0nat) {
                0
            } else if f.stretch() == Some(2nat) {
                wrapped_sum(middle, f.stretch_reading.words.len() as usize)
            } else {
                middle
            };
            &&& run.items == f.reading.items().push(
                notified(event, f.reading.bytes(), seq![], f.returned),
            ) + f.stretch_items(middle) + end_items(e.ints)
            &&& run.ask == Ask::Done
            &&& run.count == ended(e.ints, after)
        }),
{
    let run = converse(
        Stage::RxStatus { ints: e.ints, goal },
        Ask::Read(Register::Sr),
        count,
        answers,
    );
    let r = lemma_from_rx_status(e.ints, goal, count, answers);
    let tail = answers.drop_first().drop_first();
    let heard = received(e.ints, goal, r.bytes(), count);
    let returned = lemma_from_delivered(e.ints, goal, event, r.bytes(), heard.count, tail);
    let e1 = Episode { reading: r, returned, ..e };
    let f = lemma_from_stretch(e1, seq![], heard.count, tail.drop_first());
    let note = notified(event, r.bytes(), seq![], returned);
    let o = look_at_stretch(e.ints, seq![], heard.count);
    let last = converse(o.stage, o.ask, o.count, tail.drop_first()).items;
    assert(done(seq![]) =~= Seq::<Item>::empty());
    assert(run.items =~= r.items().push(note) + (done(o.actions) + last));
    assert(done(seq![]) + f.stretch_items(heard.count) + end_items(e.ints) =~= f.stretch_items(
        heard.count,
    ) + end_items(e.ints));
    assert(run.items =~= r.items().push(note) + f.stretch_items(heard.count) + end_items(e.ints));
    f
}

/// How an invocation goes on once the two status registers are read.
proof fn lemma_from_served(e: Episode, count: usize, answers: Seq<Answer>) -> (f: Episode)
    requires
        ({
            let o = served(e.ints, e.status, count);
            &&& all_accepted(o.stage, o.count, answers)
            &&& converse(o.stage, o.ask, o.count, answers).stage == Stage::Finished
        }),
    ensures
        f.ints == e.ints,
        f.status == e.status,
        f.valid(count),
        ({
            let o = served(e.ints, e.status, count);
            let run = converse(o.stage, o.ask, o.count, answers);
            &&& done(o.actions) + run.items == f.nack_items() + f.receive_items(count)
                + f.stretch_items(f.count_between(count)) + end_items(e.ints)
            &&& run.ask == Ask::Done
            &&& run.count == f.count_after(count)
        }),
{
    let nack = if any_set(e.ints, INT_NACK) {
        reset_tx_fifo_actions()
    } else {
        seq![]
    };
    assert(done(nack) =~= e.nack_items());
    let o = served(e.ints, e.status, count);
    let run = converse(o.stage, o.ask, o.count, answers);
    if e.reports_end(count) {
        let f = lemma_from_receive(
            e,
            Goal::Complete(count),
            SlaveEvent::TransComplete(count),
            0,
            answers,
        );
        assert(done(o.actions) + run.items =~= f.nack_items() + f.receive_items(count)
            + f.stretch_items(f.count_between(count)) + end_items(e.ints));
        f
    } else if e.at_watermark() {
        let f = lemma_from_receive(
            e,
            Goal::Watermark,
            SlaveEvent::RxFifoWatermark(count),
            count,
            answers,
        );
        assert(done(o.actions) + run.items =~= f.nack_items() + f.receive_items(count)
            + f.stretch_items(f.count_between(count)) + end_items(e.ints));
        f
    } else {
        let f = lemma_from_stretch(e, nack, e.count_between(count), answers);
        assert(f.nack_items() + f.receive_items(count) =~= done(nack));
        f
    }
}

/// Every invocation that comes to its end is an episode: it asks and does what the transcript of
/// the episode lists, in that order and nothing else, and leaves the byte count of the
/// transaction that the episode leaves.
pub proof fn lemma_every_invocation_is_an_episode(count: usize, answers: Seq<Answer>) -> (e:
    Episode)
    requires
        ends(count, answers),
    ensures
        e.valid(count),
        invocation(count, answers) == (Run {
            items: e.transcript(count),
            stage: Stage::Finished,
            ask: Ask::Done,
            count: e.count_after(count),
        }),
{
    let run = invocation(count, answers);
    lemma_turn(Stage::Interrupts, Ask::Read(Register::IntSt), count, answers);
    let ints = answers[0]->Value_0;
    let rest = answers.drop_first();
    lemma_turn(Stage::Status { ints }, Ask::Read(Register::Sr), count, rest);
    let status = rest[0]->Value_0;
    let tail = rest.drop_first();
    let blank = Reading { status: 0, words: seq![] };
    let e = Episode {
        ints,
        status,
        reading: blank,
        returned: 0,
        cause: 0,
        stretch_reading: blank,
        stretch_returned: 0,
        tx_status: 0,
        buffer: seq![],
        written: 0,
        free_status: 0,
    };
    let f = lemma_from_served(e, count, tail);
    let o = served(ints, status, count);
    let then = converse(o.stage, o.ask, o.count, tail);
    let opening = seq![
        Item::Asked { ask: Ask::Read(Register::IntSt), answer: Answer::Value(ints) },
        asked_status(status),
    ];
    assert(run.items =~= opening + (done(o.actions) + then.items));
    assert(run.items =~= f.transcript(count));
    f
}

/// Whether answers lead the handler from a stage on to its end, with `items` happening on the way
/// and `after` bytes in the transaction then.
spec fn leads(
    stage: Stage,
    ask: Ask,
    count: usize,
    answers: Seq<Answer>,
    items: Seq<Item>,
    after: usize,
) -> bool {
    &&& all_accepted(stage, count, answers)
    &&& converse(stage, ask, count, answers) == (Run {
        items,
        stage: Stage::Finished,
        ask: Ask::Done,
        count: after,
    })
}

/// Answers that lead to the end do so with one more answer in front.
proof fn lemma_prepend(
    stage: Stage,
    ask: Ask,
    count: usize,
    answer: Answer,
    tail: Seq<Answer>,
    items: Seq<Item>,
    after: usize,
) -> (answers: Seq<Answer>)
    requires
        accepted(stage, answer),
        ({
            let o = step(stage, answer, count);
            leads(o.stage, o.ask, o.count, tail, items, after)
        }),
    ensures
        leads(
            stage,
            ask,
            count,
            answers,
            turn(ask, answer, step(stage, answer, count).actions) + items,
            after,
        ),
{
    let answers = seq![answer] + tail;
    assert(answers.drop_first() =~= tail);
    answers
}

/// No answers lead a finished handler to its end.
proof fn lemma_leads_finished(count: usize)
    ensures
        leads(Stage::Finished, Ask::Done, count, seq![], seq![], count),
{
}

/// An episode that sends bytes happens, from the question for them on.
proof fn lemma_send_happens(
    e: Episode,
    event: SlaveEvent,
    received: Seq<u8>,
    count: usize,
) -> (answers: Seq<Answer>)
    requires
        e.buffer.len() == txfifo_free(e.tx_status),
        e.written <= FIFO_SIZE,
        event == SlaveEvent::StretchTxEmpty ==> txfifo_count(e.tx_status) == 0,
    ensures
        leads(
            Stage::TxStatus { ints: e.ints, event, received },
            Ask::Read(Register::Sr),
            count,
            answers,
            e.send_items(event, received) + end_items(e.ints),
            ended(e.ints, count),
        ),
{
    let ints = e.ints;
    let after = ended(ints, count);
    let data = tx_data(e.buffer, e.written);
    let actions = slave_write_actions(e.free_status, data);
    let read = Ask::Read(Register::Sr);
    lemma_leads_finished(after);
    lemma_done_push(actions, Action::Write { register: Register::IntClr, value: ints });
    let a = lemma_prepend(
        Stage::FreeSize { ints, data },
        read,
        count,
        Answer::Value(e.free_status),
        seq![],
        seq![],
        after,
    );
    let last = seq![asked_status(e.free_status)] + done(actions) + end_items(ints);
    let all_actions = actions.push(Action::Write { register: Register::IntClr, value: ints });
    assert(turn(read, Answer::Value(e.free_status), all_actions) + seq![] =~= last);
    let notify = Ask::Notify { event, received, space: e.buffer.len() };
    let answer = Answer::Written { buffer: e.buffer, count: e.written };
    let b = lemma_prepend(
        Stage::TxData { ints, space: e.buffer.len() },
        notify,
        count,
        answer,
        a,
        last,
        after,
    );
    let c = lemma_prepend(
        Stage::TxStatus { ints, event, received },
        read,
        count,
        Answer::Value(e.tx_status),
        b,
        turn(notify, answer, seq![]) + last,
        after,
    );
    assert(turn(read, Answer::Value(e.tx_status), seq![]) + (turn(notify, answer, seq![]) + last)
        =~= e.send_items(event, received) + end_items(ints));
    c
}

/// A reading of the receive FIFO happens.
proof fn lemma_reading_happens(
    ints: u32,
    goal: Goal,
    count: usize,
    r: Reading,
    tail: Seq<Answer>,
    items: Seq<Item>,
    after: usize,
) -> (answers: Seq<Answer>)
    requires
        r.fits(),
        ({
            let o = received(ints, goal, r.bytes(), count);
            leads(o.stage, o.ask, o.count, tail, items, after)
        }),
    ensures
        leads(
            Stage::RxStatus { ints, goal },
            Ask::Read(Register::Sr),
            count,
            answers,
            r.items() + done(received(ints, goal, r.bytes(), count).actions) + items,
            after,
        ),
{
    let actions = received(ints, goal, r.bytes(), count).actions;
    let fifo = Ask::ReadFifo(rx_read_count(r.status, FIFO_SIZE as nat));
    let a = lemma_prepend(
        Stage::RxData { ints, goal, status: r.status },
        fifo,
        count,
        Answer::Fifo(r.words),
        tail,
        items,
        after,
    );
    let read = Ask::Read(Register::Sr);
    let b = lemma_prepend(
        Stage::RxStatus { ints, goal },
        read,
        count,
        Answer::Value(r.status),
        a,
        turn(fifo, Answer::Fifo(r.words), actions) + items,
        after,
    );
    assert(turn(read, Answer::Value(r.status), seq![]) + (turn(
        fifo,
        Answer::Fifo(r.words),
        actions,
    ) + items) =~= r.items() + done(actions) + items);
    b
}

/// The service of a full receive FIFO happens.
proof fn lemma_full_happens(e: Episode, count: usize) -> (answers: Seq<Answer>)
    requires
        e.stretch() == Some(2nat),
        e.stretch_reading.fits(),
    ensures
        leads(
            Stage::RxStatus { ints: e.ints, goal: Goal::Full },
            Ask::Read(Register::Sr),
            count,
            answers,
            e.stretch_items(count).skip(1) + end_items(e.ints),
            ended(e.ints, wrapped_sum(count, e.stretch_reading.words.len() as usize)),
        ),
{
    let ints = e.ints;
    let r = e.stretch_reading;
    let body = e.stretch_items(count).skip(1);
    let after = ended(ints, wrapped_sum(count, r.words.len() as usize));
    let clear = Action::Write { register: Register::IntClr, value: ints };
    let finale = seq![clear_stretch_action()].push(clear);
    let release = done(seq![clear_stretch_action()]);
    lemma_leads_finished(after);
    lemma_done_push(seq![clear_stretch_action()], clear);
    if r.words.len() > 0 {
        let event = SlaveEvent::StretchRxFull(count);
        let notify = Ask::Notify { event, received: r.bytes(), space: 0 };
        let answer = Answer::Written { buffer: seq![], count: e.stretch_returned };
        let note = notified(event, r.bytes(), seq![], e.stretch_returned);
        let a = lemma_prepend(
            Stage::Delivered { ints, goal: Goal::Full },
            notify,
            wrapped_sum(count, r.words.len() as usize),
            answer,
            seq![],
            seq![],
            after,
        );
        let items = turn(notify, answer, finale) + seq![];
        assert(items =~= seq![note] + release + end_items(ints));
        let b = lemma_reading_happens(ints, Goal::Full, count, r, a, items, after);
        assert(body =~= r.items() + seq![note] + release);
        assert(r.items() + done(seq![]) + items =~= body + end_items(ints));
        b
    } else {
        assert(wrapped_sum(count, 0) == count) by {
            vstd::arithmetic::div_mod::lemma_small_mod(count as nat, (usize::MAX + 1) as nat);
        }
        let b = lemma_reading_happens(ints, Goal::Full, count, r, seq![], seq![], after);
        assert(body =~= r.items() + release);
        assert(r.items() + done(finale) + seq![] =~= body + end_items(ints));
        b
    }
}

/// The service of an address match happens.
proof fn lemma_match_happens(e: Episode, count: usize) -> (answers: Seq<Answer>)
    requires
        e.stretch() == Some(0nat),
        e.stretch_reading.fits(),
        e.buffer.len() == txfifo_free(e.tx_status),
        e.written <= FIFO_SIZE,
    ensures
        leads(
            Stage::RxStatus { ints: e.ints, goal: Goal::AddressMatch(count) },
            Ask::Read(Register::Sr),
            0,
            answers,
            e.stretch_items(count).skip(1) + end_items(e.ints),
            ended(e.ints, 0),
        ),
{
    let ints = e.ints;
    let r = e.stretch_reading;
    let body = e.stretch_items(count).skip(1);
    let event = SlaveEvent::StretchAddrMatch(count);
    let send = e.send_items(event, r.bytes());
    let a = lemma_send_happens(e, event, r.bytes(), 0);
    let b = lemma_reading_happens(
        ints,
        Goal::AddressMatch(count),
        0,
        r,
        a,
        send + end_items(ints),
        ended(ints, 0),
    );
    assert(body =~= r.items() + send);
    assert(r.items() + done(seq![]) + (send + end_items(ints)) =~= body + end_items(ints));
    b
}

/// The end of an invocation happens, from the look at a stretched clock on. `actions` is what was
/// planned just before.
proof fn lemma_stretch_happens(e: Episode, actions: Seq<Action>, count: usize) -> (r: (
    Seq<Answer>,
    Seq<Item>,
))
    requires
        e.stretch() == Some(0nat) || e.stretch() == Some(2nat) ==> e.stretch_reading.fits(),
        e.stretch() == Some(0nat) || e.stretch() == Some(1nat) ==> e.buffer.len() == txfifo_free(
            e.tx_status,
        ) && e.written <= FIFO_SIZE,
        e.stretch() == Some(1nat) ==> txfifo_count(e.tx_status) == 0,
    ensures
        ({
            let o = look_at_stretch(e.ints, actions, count);
            let after = if e.stretch() == Some(0nat) {
                0
            } else if e.stretch() == Some(2nat) {
                wrapped_sum(count, e.stretch_reading.words.len() as usize)
            } else {
                count
            };
            &&& leads(o.stage, o.ask, o.count, r.0, r.1, ended(e.ints, after))
            &&& done(o.actions) + r.1 == done(actions) + e.stretch_items(count) + end_items(e.ints)
        }),
{
    let ints = e.ints;
    let clear = Action::Write { register: Register::IntClr, value: ints };
    let read = Ask::Read(Register::Sr);
    let o = look_at_stretch(ints, actions, count);
    if e.stretch() is None {
        lemma_leads_finished(ended(ints, count));
        lemma_done_push(actions, clear);
        assert(done(o.actions) + seq![] =~= done(actions) + e.stretch_items(count) + end_items(
            ints,
        ));
        (seq![], seq![])
    } else {
        let cause = stretch_cause_code(e.cause);
        let body = e.stretch_items(count).skip(1) + end_items(ints);
        let stage = Stage::Cause { ints };
        let answer = Answer::Value(e.cause);
        let first = stretched(ints, cause, count);
        assert(done(seq![]) =~= Seq::<Item>::empty());
        let answers = if cause == 0 {
            let tail = lemma_match_happens(e, count);
            lemma_prepend(stage, read, count, answer, tail, body, ended(ints, 0))
        } else if cause == 1 {
            let tail = lemma_send_happens(e, SlaveEvent::StretchTxEmpty, seq![], count);
            assert(e.stretch_items(count).skip(1) =~= e.send_items(
                SlaveEvent::StretchTxEmpty,
                seq![],
            ));
            lemma_prepend(stage, read, count, answer, tail, body, ended(ints, count))
        } else if cause == 2 {
            let tail = lemma_full_happens(e, count);
            let after = wrapped_sum(count, e.stretch_reading.words.len() as usize);
            lemma_prepend(stage, read, count, answer, tail, body, ended(ints, after))
        } else {
            lemma_leads_finished(ended(ints, count));
            lemma_done_push(seq![], clear);
            lemma_prepend(stage, read, count, answer, seq![], seq![], ended(ints, count))
        };
        let all = e.stretch_items(count) + end_items(ints);
        if cause <= 2 {
            assert(turn(read, answer, seq![]) + body =~= all);
        } else {
            assert(turn(read, answer, seq![clear]) + seq![] =~= all);
            assert(first.actions =~= seq![clear]);
        }
        assert(done(actions) + all =~= done(actions) + e.stretch_items(count) + end_items(ints));
        (answers, all)
    }
}

/// The report of received bytes happens, from the reading of the receive FIFO on.
proof fn lemma_receive_happens(e: Episode, goal: Goal, event: SlaveEvent, count: usize) -> (answers:
    Seq<Answer>)
    requires
        e.reading.fits(),
        e.stretch() == Some(0nat) || e.stretch() == Some(2nat) ==> e.stretch_reading.fits(),
        e.stretch() == Some(0nat) || e.stretch() == Some(1nat) ==> e.buffer.len() == txfifo_free(
            e.tx_status,
        ) && e.written <= FIFO_SIZE,
        e.stretch() == Some(1nat) ==> txfifo_count(e.tx_status) == 0,
        goal matches Goal::Complete(before) ==> event == SlaveEvent::TransComplete(before),
        goal == Goal::Watermark ==> event == SlaveEvent::RxFifoWatermark(count),
        goal is Complete || goal is Watermark,
    ensures
        ({
            let middle = if goal is Watermark {
                wrapped_sum(count, e.reading.words.len() as usize)
            } else {
                count
            };
            let after = if e.stretch() == Some(0nat) {
                0
            } else if e.stretch() == Some(2nat) {
                wrapped_sum(middle, e.stretch_reading.words.len() as usize)
            } else {
                middle
            };
            leads(
                Stage::RxStatus { ints: e.ints, goal },
                Ask::Read(Register::Sr),
                count,
                answers,
                e.reading.items().push(notified(event, e.reading.bytes(), seq![], e.returned))
                    + e.stretch_items(middle) + end_items(e.ints),
                ended(e.ints, after),
            )
        }),
{
    let ints = e.ints;
    let r = e.reading;
    let middle = received(ints, goal, r.bytes(), count).count;
    let after = if e.stretch() == Some(0nat) {
        0
    } else if e.stretch() == Some(2nat) {
        wrapped_sum(middle, e.stretch_reading.words.len() as usize)
    } else {
        middle
    };
    let notify = Ask::Notify { event, received: r.bytes(), space: 0 };
    let answer = Answer::Written { buffer: seq![], count: e.returned };
    let (a, last) = lemma_stretch_happens(e, seq![], middle);
    let then = look_at_stretch(ints, seq![], middle);
    let b = lemma_prepend(
        Stage::Delivered { ints, goal },
        notify,
        middle,
        answer,
        a,
        last,
        ended(ints, after),
    );
    let heard = turn(notify, answer, then.actions) + last;
    let c = lemma_reading_happens(ints, goal, count, r, b, heard, ended(ints, after));
    let report = r.items().push(notified(event, r.bytes(), seq![], e.returned));
    assert(done(seq![]) =~= Seq::<Item>::empty());
    assert(r.items() + done(seq![]) + heard =~= report + (done(then.actions) + last));
    assert(done(seq![]) + e.stretch_items(middle) + end_items(ints) =~= e.stretch_items(middle)
        + end_items(ints));
    assert(report + (done(then.actions) + last) =~= report + e.stretch_items(middle) + end_items(
        ints,
    ));
    c
}

/// An episode happens, from the point on where both status registers are read.
proof fn lemma_served_happens(e: Episode, count: usize) -> (r: (Seq<Answer>, Seq<Item>))
    requires
        e.valid(count),
    ensures
        ({
            let o = served(e.ints, e.status, count);
            &&& leads(o.stage, o.ask, o.count, r.0, r.1, e.count_after(count))
            &&& done(o.actions) + r.1 == e.nack_items() + e.receive_items(count)
                + e.stretch_items(e.count_between(count)) + end_items(e.ints)
        }),
{
    let between = e.count_between(count);
    let nack = if any_set(e.ints, INT_NACK) {
        reset_tx_fifo_actions()
    } else {
        seq![]
    };
    assert(done(nack) =~= e.nack_items());
    if e.reports_end(count) || e.at_watermark() {
        let tail = if e.completes() {
            lemma_receive_happens(e, Goal::Complete(count), SlaveEvent::TransComplete(count), 0)
        } else {
            lemma_receive_happens(e, Goal::Watermark, SlaveEvent::RxFifoWatermark(count), count)
        };
        let items = e.receive_items(count) + e.stretch_items(between) + end_items(e.ints);
        assert(done(nack) + items =~= e.nack_items() + e.receive_items(count) + e.stretch_items(
            between,
        ) + end_items(e.ints));
        (tail, items)
    } else {
        let r = lemma_stretch_happens(e, nack, between);
        assert(e.nack_items() + e.receive_items(count) =~= done(nack));
        r
    }
}

/// Every episode whose answers fit its questions happens: some answers lead an invocation through
/// its transcript.
pub proof fn lemma_every_episode_happens(e: Episode, count: usize) -> (answers: Seq<Answer>)
    requires
        e.valid(count),
    ensures
        ends(count, answers),
        invocation(count, answers) == (Run {
            items: e.transcript(count),
            stage: Stage::Finished,
            ask: Ask::Done,
            count: e.count_after(count),
        }),
{
    let ints = e.ints;
    let read = Ask::Read(Register::Sr);
    let status = Answer::Value(e.status);
    let o = served(ints, e.status, count);
    let (tail, items) = lemma_served_happens(e, count);
    let b = lemma_prepend(
        Stage::Status { ints },
        read,
        count,
        status,
        tail,
        items,
        e.count_after(count),
    );
    let answers = lemma_prepend(
        Stage::Interrupts,
        Ask::Read(Register::IntSt),
        count,
        Answer::Value(ints),
        b,
        turn(read, status, o.actions) + items,
        e.count_after(count),
    );
    let opening = seq![
        Item::Asked { ask: Ask::Read(Register::IntSt), answer: Answer::Value(ints) },
        asked_status(e.status),
    ];
    assert(turn(Ask::Read(Register::IntSt), Answer::Value(ints), seq![]) + (turn(
        read,
        status,
        o.actions,
    ) + items) =~= opening + (done(o.actions) + items));
    assert(opening + (done(o.actions) + items) =~= e.transcript(count));
    answers
}

/// An upper bound for the answers that the handler still needs.
pub open spec fn remaining(stage: Stage) -> nat {
    match stage {
        Stage::Interrupts => 11,
        Stage::Status { .. } => 10,
        Stage::RxStatus { goal, .. } => if goal is AddressMatch || goal is Full {
            5
        } else {
            9
        },
        Stage::RxData { goal, .. } => if goal is AddressMatch || goal is Full {
            4
        } else {
            8
        },
        Stage::Delivered { goal, .. } => if goal is Full {
            3
        } else {
            7
        },
        Stage::Cause { .. } => 6,
        Stage::TxStatus { .. } => 3,
        Stage::TxData { .. } => 2,
        Stage::FreeSize { .. } => 1,
        Stage::Finished => 0,
    }
}

proof fn lemma_remaining(stage: Stage, count: usize, answers: Seq<Answer>)
    requires
        all_accepted(stage, count, answers),
    ensures
        answers.len() <= remaining(stage),
    decreases answers.len(),
{
    if answers.len() > 0 {
        let o = step(stage, answers[0], count);
        lemma_remaining(o.stage, o.count, answers.drop_first());
    }
}

/// An invocation does not go on forever: it needs at most eleven answers.
pub proof fn lemma_invocation_is_bounded(count: usize, answers: Seq<Answer>)
    requires
        all_accepted(Stage::Interrupts, count, answers),
    ensures
        answers.len() <= 11,
{
    lemma_remaining(Stage::Interrupts, count, answers);
}

} // verus!
