//! What an interrupt gets, told by the bits of the interrupt status and by the answers alone.
//!
//! An invocation of the handler is a sequence of [`turns`], each a question with its answer, and of
//! deeds in between. The laws say which questions a given interrupt status leads to, what the
//! callback is told, and what is done, for all answers of the hardware and of the callback.

use vstd::prelude::*;

use crate::conversation::{
    all_accepted, asked_status, converse, done, end_items, ends, invocation,
    lemma_every_invocation_is_an_episode, notified, Episode, Item, Reading,
};
use crate::event::SlaveEvent;
use crate::fifo::{
    clear_stretch_action, data_writes, lesser, reset_tx_fifo_actions, rx_read_count,
    slave_write_actions, txfifo_free,
};
use crate::handler::{accepted, step, tx_data, Answer, Ask, Stage};
use crate::plan::Action;
use crate::register::{data_byte, lemma_data_field, lemma_status_fields, Register, FIFO_SIZE};
use crate::traffic::{collect, lemma_collect_concat};

verus! {

/// A question of the handler and the answer to it.
pub type Turn = (Ask, Answer);

/// The question in an item, with its answer.
pub open spec fn turn_in(item: Item) -> Seq<Turn> {
    match item {
        Item::Asked { ask, answer } => seq![(ask, answer)],
        Item::Did(_) => seq![],
    }
}

/// The questions with their answers, in order.
pub open spec fn turns(items: Seq<Item>) -> Seq<Turn> {
    collect(items, |item: Item| turn_in(item))
}

proof fn lemma_turns_concat(first: Seq<Item>, second: Seq<Item>)
    ensures
        turns(first + second) == turns(first) + turns(second),
{
    lemma_collect_concat(first, second, |item: Item| turn_in(item));
}

/// Questions only.
proof fn lemma_turns_of_questions(items: Seq<Item>)
    requires
        forall|i: int| 0 <= i < items.len() ==> #[trigger] items[i] is Asked,
    ensures
        turns(items).len() == items.len(),
        forall|i: int|
            0 <= i < items.len() ==> #[trigger] turns(items)[i] == (
                items[i]->ask,
                items[i]->answer,
            ),
    decreases items.len(),
{
    if items.len() > 0 {
        let before = items.drop_last();
        assert forall|i: int| 0 <= i < before.len() implies #[trigger] before[i] is Asked by {
            assert(before[i] == items[i]);
        }
        lemma_turns_of_questions(before);
        assert(items[items.len() - 1] is Asked);
        assert(turns(items) == turns(before) + turn_in(items.last()));
        assert forall|i: int| 0 <= i < items.len() implies #[trigger] turns(items)[i] == (
            items[i]->ask,
            items[i]->answer,
        ) by {
            if i < before.len() {
                assert(turns(before)[i] == (before[i]->ask, before[i]->answer));
            }
        }
    }
}

/// Deeds only.
proof fn lemma_turns_of_deeds(actions: Seq<Action>)
    ensures
        turns(done(actions)) == Seq::<Turn>::empty(),
    decreases actions.len(),
{
    let items = done(actions);
    if actions.len() > 0 {
        lemma_turns_of_deeds(actions.drop_last());
        assert(items.drop_last() =~= done(actions.drop_last()));
        assert(items.last() == Item::Did(actions.last()));
        assert(turns(items) =~= turns(items.drop_last()) + turn_in(items.last()));
    }
}

proof fn lemma_turns_are_answers(stage: Stage, ask: Ask, count: usize, answers: Seq<Answer>)
    ensures
        ({
            let t = turns(converse(stage, ask, count, answers).items);
            &&& t.len() == answers.len()
            &&& forall|i: int| 0 <= i < t.len() ==> (#[trigger] t[i]).1 == answers[i]
        }),
    decreases answers.len(),
{
    let run = converse(stage, ask, count, answers);
    if answers.len() > 0 {
        let o = step(stage, answers[0], count);
        let rest = answers.drop_first();
        let then = converse(o.stage, o.ask, o.count, rest);
        lemma_turns_are_answers(o.stage, o.ask, o.count, rest);
        let question = seq![Item::Asked { ask, answer: answers[0] }];
        lemma_turns_concat(question + done(o.actions), then.items);
        lemma_turns_concat(question, done(o.actions));
        lemma_turns_of_questions(question);
        lemma_turns_of_deeds(o.actions);
        let t = turns(run.items);
        assert(t =~= turns(question) + turns(then.items));
        assert forall|i: int| 0 <= i < t.len() implies (#[trigger] t[i]).1 == answers[i] by {
            if i > 0 {
                assert(t[i] == turns(then.items)[i - 1]);
                assert(rest[i - 1] == answers[i]);
            }
        }
    }
}

/// The value that an answer brought.
pub open spec fn word(t: Seq<Turn>, i: int) -> u32 {
    t[i].1->Value_0
}

/// Whether a turn reads the status register.
pub open spec fn asks_status(t: Seq<Turn>, i: int) -> bool {
    &&& 0 <= i < t.len()
    &&& t[i].0 == Ask::Read(Register::Sr)
    &&& t[i].1 is Value
}

/// Whether two turns empty the receive FIFO: the status register is read, and then as many values
/// as its bits 8 to 13 say, but no more than 32.
pub open spec fn reads_fifo(t: Seq<Turn>, i: int) -> bool {
    &&& asks_status(t, i)
    &&& i + 1 < t.len()
    &&& t[i + 1].1 is Fifo
    &&& t[i + 1].0 == Ask::ReadFifo(t[i + 1].1->Fifo_0.len())
    &&& t[i + 1].1->Fifo_0.len() == if (word(t, i) >> 8) & 0x3f <= 32 {
        ((word(t, i) >> 8) & 0x3f) as nat
    } else {
        32
    }
}

/// Whether a turn tells the callback of an event and of the low bytes of `words`, with a buffer of
/// `space` bytes to fill.
pub open spec fn tells(
    t: Seq<Turn>,
    i: int,
    event: SlaveEvent,
    words: Seq<u32>,
    space: nat,
) -> bool {
    &&& 0 <= i < t.len()
    &&& t[i].0 is Notify
    &&& t[i].0->event == event
    &&& t[i].0->space == space
    &&& t[i].0->received.len() == words.len()
    &&& forall|j: int|
        0 <= j < words.len() ==> #[trigger] t[i].0->received[j] as u32 == words[j] & 0xff
    &&& t[i].1 is Written
    &&& t[i].1->buffer.len() == space
}

/// The room in a transmit FIFO of 32 bytes, by bits 18 to 23 of the status register.
pub open spec fn room(status: u32) -> nat {
    if (status >> 18) & 0x3f >= 32 {
        0
    } else {
        (32 - ((status >> 18) & 0x3f)) as nat
    }
}

/// Whether the end of a transfer is told: bit 7 of the interrupt status says that there was one,
/// and the receive FIFO or the transaction before it has bytes.
pub open spec fn end_is_told(t: Seq<Turn>, count: usize) -> bool {
    word(t, 0) & 0x80 != 0 && ((word(t, 1) >> 8) & 0x3f != 0 || count != 0)
}

/// Whether the watermark is told: bit 0 of the interrupt status says that it was reached, and bit 7
/// that no transfer ended.
pub open spec fn watermark_is_told(t: Seq<Turn>) -> bool {
    word(t, 0) & 0x80 == 0 && word(t, 0) & 0x1 != 0
}

/// The turn after those that deal with received bytes.
pub open spec fn then_at(t: Seq<Turn>, count: usize) -> int {
    if end_is_told(t, count) || watermark_is_told(t) {
        5
    } else {
        2
    }
}

/// The bytes of the transaction when received bytes are dealt with.
pub open spec fn count_then(t: Seq<Turn>, count: usize) -> nat {
    if word(t, 0) & 0x80 != 0 {
        0
    } else if word(t, 0) & 0x1 != 0 {
        ((count + t[3].1->Fifo_0.len()) % (usize::MAX + 1)) as nat
    } else {
        count as nat
    }
}

/// Whether the clock is stretched for a cause: bit 16 of the interrupt status says that it is, and
/// bits 14 and 15 of the status register read thereupon say why.
pub open spec fn stretched_for(t: Seq<Turn>, count: usize, cause: u32) -> bool {
    word(t, 0) & 0x1_0000 != 0 && (word(t, then_at(t, count)) >> 14) & 3 == cause
}

/// The questions that serve a stretched clock.
spec fn stretch_questions(e: Episode, count: usize) -> Seq<Item> {
    match e.stretch() {
        None => seq![],
        Some(cause) => seq![asked_status(e.cause)] + if cause == 0 {
            e.stretch_reading.items() + seq![
                asked_status(e.tx_status),
                notified(
                    SlaveEvent::StretchAddrMatch(count),
                    e.stretch_reading.bytes(),
                    e.buffer,
                    e.written,
                ),
                asked_status(e.free_status),
            ]
        } else if cause == 1 {
            seq![
                asked_status(e.tx_status),
                notified(SlaveEvent::StretchTxEmpty, seq![], e.buffer, e.written),
                asked_status(e.free_status),
            ]
        } else if cause == 2 {
            e.stretch_reading.items() + (if e.stretch_reading.words.len() > 0 {
                seq![
                    notified(
                        SlaveEvent::StretchRxFull(count),
                        e.stretch_reading.bytes(),
                        seq![],
                        e.stretch_returned,
                    ),
                ]
            } else {
                seq![]
            })
        } else {
            seq![]
        },
    }
}

/// The deeds that serve a stretched clock.
spec fn stretch_deeds(e: Episode) -> Seq<Action> {
    match e.stretch() {
        None => seq![],
        Some(cause) => if cause <= 1 {
            slave_write_actions(e.free_status, tx_data(e.buffer, e.written))
        } else if cause == 2 {
            seq![clear_stretch_action()]
        } else {
            seq![]
        },
    }
}

/// The deeds that a NACK leads to.
spec fn nack_deeds(e: Episode) -> Seq<Action> {
    if e.ints & 0x400 != 0 {
        reset_tx_fifo_actions()
    } else {
        seq![]
    }
}

/// The questions of an episode.
spec fn questions(e: Episode, count: usize) -> Seq<Item> {
    seq![
        Item::Asked { ask: Ask::Read(Register::IntSt), answer: Answer::Value(e.ints) },
        asked_status(e.status),
    ] + e.receive_items(count) + stretch_questions(e, e.count_between(count))
}

/// The items of an episode, by what they are for.
spec fn arranged(e: Episode, count: usize) -> Seq<Item> {
    seq![
        Item::Asked { ask: Ask::Read(Register::IntSt), answer: Answer::Value(e.ints) },
        asked_status(e.status),
    ] + done(nack_deeds(e)) + e.receive_items(count) + stretch_questions(
        e,
        e.count_between(count),
    ) + done(stretch_deeds(e)) + done(
        seq![Action::Write { register: Register::IntClr, value: e.ints }],
    )
}

proof fn lemma_arranged(e: Episode, count: usize)
    ensures
        e.transcript(count) == arranged(e, count),
{
    let c = e.count_between(count);
    assert(e.nack_items() =~= done(nack_deeds(e)));
    let sq = stretch_questions(e, c);
    let sd = done(stretch_deeds(e));
    assert(e.stretch_items(c) =~= sq + sd) by {
        if let Some(cause) = e.stretch() {
            if cause == 0 || cause == 1 {
                let event = if cause == 0 {
                    SlaveEvent::StretchAddrMatch(c)
                } else {
                    SlaveEvent::StretchTxEmpty
                };
                let bytes = if cause == 0 {
                    e.stretch_reading.bytes()
                } else {
                    seq![]
                };
                let three = seq![
                    asked_status(e.tx_status),
                    notified(event, bytes, e.buffer, e.written),
                    asked_status(e.free_status),
                ];
                assert(e.send_items(event, bytes) =~= three + sd);
            }
        }
    }
    let head = seq![
        Item::Asked { ask: Ask::Read(Register::IntSt), answer: Answer::Value(e.ints) },
        asked_status(e.status),
    ] + done(nack_deeds(e)) + e.receive_items(count);
    let end = end_items(e.ints);
    assert(head + e.stretch_items(c) + end =~= head + sq + sd + end);
}

proof fn lemma_questions_are_asked(e: Episode, count: usize)
    ensures
        forall|i: int| 0 <= i < questions(e, count).len() ==> #[trigger] questions(
            e,
            count,
        )[i] is Asked,
{
    let c = e.count_between(count);
    let receive = e.receive_items(count);
    let stretch = stretch_questions(e, c);
    assert(forall|i: int| 0 <= i < receive.len() ==> #[trigger] receive[i] is Asked);
    assert(forall|i: int| 0 <= i < stretch.len() ==> #[trigger] stretch[i] is Asked);
    let q = questions(e, count);
    assert forall|i: int| 0 <= i < q.len() implies #[trigger] q[i] is Asked by {
        if i >= 2 + receive.len() {
            assert(q[i] == stretch[i - 2 - receive.len()]);
        } else if i >= 2 {
            assert(q[i] == receive[i - 2]);
        }
    }
}

/// What an invocation that ended consists of.
proof fn lemma_shape(count: usize, answers: Seq<Answer>) -> (e: Episode)
    requires
        ends(count, answers),
    ensures
        e.valid(count),
        invocation(count, answers).items == arranged(e, count),
        invocation(count, answers).count == e.count_after(count),
        turns(invocation(count, answers).items).len() == questions(e, count).len(),
        forall|i: int|
            0 <= i < questions(e, count).len() ==> #[trigger] turns(
                invocation(count, answers).items,
            )[i] == (questions(e, count)[i]->ask, questions(e, count)[i]->answer),
{
    let e = lemma_every_invocation_is_an_episode(count, answers);
    lemma_arranged(e, count);
    lemma_questions_are_asked(e, count);
    let q = questions(e, count);
    lemma_turns_of_questions(q);
    let opening = seq![
        Item::Asked { ask: Ask::Read(Register::IntSt), answer: Answer::Value(e.ints) },
        asked_status(e.status),
    ];
    let nack = done(nack_deeds(e));
    let receive = e.receive_items(count);
    let sq = stretch_questions(e, e.count_between(count));
    let sd = done(stretch_deeds(e));
    let last = seq![Action::Write { register: Register::IntClr, value: e.ints }];
    lemma_turns_concat(opening + nack + receive + sq + sd, done(last));
    lemma_turns_concat(opening + nack + receive + sq, sd);
    lemma_turns_concat(opening + nack + receive, sq);
    lemma_turns_concat(opening + nack, receive);
    lemma_turns_concat(opening, nack);
    lemma_turns_of_deeds(nack_deeds(e));
    lemma_turns_of_deeds(stretch_deeds(e));
    lemma_turns_of_deeds(last);
    lemma_turns_concat(opening + receive, sq);
    lemma_turns_concat(opening, receive);
    let items = invocation(count, answers).items;
    assert(turns(items) =~= turns(q));
    e
}

/// The answers of an invocation are the answers of its turns, in order. The first question is for
/// the interrupt status and the second for the status register.
pub proof fn lemma_invocation_opens_with_status(count: usize, answers: Seq<Answer>)
    requires
        ends(count, answers),
    ensures
        ({
            let t = turns(invocation(count, answers).items);
            &&& t.len() == answers.len()
            &&& forall|i: int| 0 <= i < t.len() ==> (#[trigger] t[i]).1 == answers[i]
            &&& t.len() >= 2
            &&& t[0].0 == Ask::Read(Register::IntSt)
            &&& t[0].1 is Value
            &&& asks_status(t, 1)
        }),
{
    let e = lemma_shape(count, answers);
    lemma_turns_are_answers(Stage::Interrupts, Ask::Read(Register::IntSt), count, answers);
    let q = questions(e, count);
    assert(q.len() >= 2);
    let t = turns(invocation(count, answers).items);
    assert(t[0] == (q[0]->ask, q[0]->answer));
    assert(t[1] == (q[1]->ask, q[1]->answer));
}

/// The first two answers are those of the episode.
proof fn lemma_opening(e: Episode, count: usize, t: Seq<Turn>)
    requires
        t.len() == questions(e, count).len(),
        forall|i: int|
            0 <= i < t.len() ==> #[trigger] t[i] == (
                questions(e, count)[i]->ask,
                questions(e, count)[i]->answer,
            ),
    ensures
        t.len() >= 2,
        word(t, 0) == e.ints,
        word(t, 1) == e.status,
        end_is_told(t, count) == e.reports_end(count),
        watermark_is_told(t) == e.at_watermark(),
        then_at(t, count) == 2 + e.receive_items(count).len(),
        t.len() == then_at(t, count) + stretch_questions(e, e.count_between(count)).len(),
        forall|i: int|
            #![trigger t[then_at(t, count) + i]]
            0 <= i < stretch_questions(e, e.count_between(count)).len() ==> t[then_at(t, count) + i]
                == (
                stretch_questions(e, e.count_between(count))[i]->ask,
                stretch_questions(e, e.count_between(count))[i]->answer,
            ),
{
    let q = questions(e, count);
    assert(t[0] == (q[0]->ask, q[0]->answer));
    assert(t[1] == (q[1]->ask, q[1]->answer));
    lemma_status_fields(e.status);
    let sq = stretch_questions(e, e.count_between(count));
    let p = then_at(t, count);
    assert forall|i: int| #![trigger t[p + i]] 0 <= i < sq.len() implies t[p + i] == (
        sq[i]->ask,
        sq[i]->answer,
    ) by {
        assert(q[p + i] == sq[i]);
        assert(t[p + i] == (q[p + i]->ask, q[p + i]->answer));
    }
}

/// Two turns that come of a reading, and a third that reports it.
proof fn lemma_reading_turns(r: Reading, t: Seq<Turn>, i: int)
    requires
        r.fits(),
        0 <= i,
        i + 1 < t.len(),
        t[i] == (r.items()[0]->ask, r.items()[0]->answer),
        t[i + 1] == (r.items()[1]->ask, r.items()[1]->answer),
    ensures
        reads_fifo(t, i),
        t[i + 1].1->Fifo_0 == r.words,
        forall|j: int|
            0 <= j < r.words.len() ==> #[trigger] r.bytes()[j] as u32 == r.words[j] & 0xff,
{
    lemma_status_fields(r.status);
    assert forall|j: int| 0 <= j < r.words.len() implies #[trigger] r.bytes()[j] as u32
        == r.words[j] & 0xff by {
        lemma_data_field(r.words[j]);
        assert(r.bytes()[j] == data_byte(r.words[j]));
    }
}

/// Whether a turn tells the callback of the end of a transfer.
pub open spec fn tells_end(turn: Turn) -> bool {
    turn.0 is Notify && turn.0->event is TransComplete
}

/// Whether a turn tells the callback of the watermark.
pub open spec fn tells_watermark(turn: Turn) -> bool {
    turn.0 is Notify && turn.0->event is RxFifoWatermark
}

/// Whether a turn tells the callback of a stretched clock.
pub open spec fn tells_stretch(turn: Turn) -> bool {
    turn.0 is Notify && (turn.0->event is StretchAddrMatch || turn.0->event is StretchTxEmpty
        || turn.0->event is StretchRxFull)
}

/// The end of a transfer that brought a byte, now or before, is told once and with all bytes of the
/// receive FIFO and the number of those before. Without such an end none is told.
pub proof fn lemma_end_of_transfer_is_told(count: usize, answers: Seq<Answer>)
    requires
        ends(count, answers),
    ensures
        ({
            let t = turns(invocation(count, answers).items);
            &&& word(t, 0) & 0x80 != 0 && ((word(t, 1) >> 8) & 0x3f != 0 || count != 0) ==> {
                &&& reads_fifo(t, 2)
                &&& tells(t, 4, SlaveEvent::TransComplete(count), t[3].1->Fifo_0, 0)
            }
            &&& forall|i: int|
                0 <= i < t.len() && tells_end(#[trigger] t[i]) ==> i == 4 && word(t, 0) & 0x80 != 0
                    && ((word(t, 1) >> 8) & 0x3f != 0 || count != 0)
        }),
{
    let e = lemma_shape(count, answers);
    let t = turns(invocation(count, answers).items);
    let q = questions(e, count);
    lemma_opening(e, count, t);
    if e.reports_end(count) {
        let r = e.receive_items(count);
        assert(q[2] == r[0] && q[3] == r[1] && q[4] == r[2]);
        assert(t[2] == (q[2]->ask, q[2]->answer));
        assert(t[3] == (q[3]->ask, q[3]->answer));
        assert(t[4] == (q[4]->ask, q[4]->answer));
        lemma_reading_turns(e.reading, t, 2);
    }
    lemma_events_by_place(e, count, t);
}

/// Which events are told where.
proof fn lemma_events_by_place(e: Episode, count: usize, t: Seq<Turn>)
    requires
        t.len() == questions(e, count).len(),
        forall|i: int|
            0 <= i < t.len() ==> #[trigger] t[i] == (
                questions(e, count)[i]->ask,
                questions(e, count)[i]->answer,
            ),
    ensures
        forall|i: int|
            0 <= i < t.len() && tells_end(#[trigger] t[i]) ==> i == 4 && e.reports_end(count),
        forall|i: int|
            0 <= i < t.len() && tells_watermark(#[trigger] t[i]) ==> i == 4 && e.at_watermark(),
        forall|i: int|
            0 <= i < t.len() && tells_stretch(#[trigger] t[i]) ==> e.stretch() is Some && i
                >= then_at(t, count) + 2,
{
    lemma_opening(e, count, t);
    let q = questions(e, count);
    let p = then_at(t, count);
    let receive = e.receive_items(count);
    let sq = stretch_questions(e, e.count_between(count));
    assert forall|i: int| 0 <= i < t.len() implies (tells_end(#[trigger] t[i]) ==> i == 4
        && e.reports_end(count)) && (tells_watermark(t[i]) ==> i == 4 && e.at_watermark()) && (
    tells_stretch(t[i]) ==> e.stretch() is Some && i >= p + 2) by {
        if i < 2 {
        } else if i < p {
            assert(q[i] == receive[i - 2]);
        } else {
            assert(q[i] == sq[i - p]);
        }
    }
}

/// The watermark is told once, with all bytes of the receive FIFO and the number of those before,
/// unless a transfer ended. Without it none is told.
pub proof fn lemma_watermark_is_told(count: usize, answers: Seq<Answer>)
    requires
        ends(count, answers),
    ensures
        ({
            let t = turns(invocation(count, answers).items);
            &&& word(t, 0) & 0x80 == 0 && word(t, 0) & 0x1 != 0 ==> {
                &&& reads_fifo(t, 2)
                &&& tells(t, 4, SlaveEvent::RxFifoWatermark(count), t[3].1->Fifo_0, 0)
            }
            &&& forall|i: int|
                0 <= i < t.len() && tells_watermark(#[trigger] t[i]) ==> i == 4 && word(t, 0) & 0x80
                    == 0 && word(t, 0) & 0x1 != 0
        }),
{
    let e = lemma_shape(count, answers);
    let t = turns(invocation(count, answers).items);
    let q = questions(e, count);
    lemma_opening(e, count, t);
    if e.at_watermark() {
        let r = e.receive_items(count);
        assert(q[2] == r[0] && q[3] == r[1] && q[4] == r[2]);
        assert(t[2] == (q[2]->ask, q[2]->answer));
        assert(t[3] == (q[3]->ask, q[3]->answer));
        assert(t[4] == (q[4]->ask, q[4]->answer));
        lemma_reading_turns(e.reading, t, 2);
    }
    lemma_events_by_place(e, count, t);
}

/// The number of bytes between the receiving and the stretching.
proof fn lemma_count_then(e: Episode, count: usize, t: Seq<Turn>)
    requires
        t.len() == questions(e, count).len(),
        forall|i: int|
            0 <= i < t.len() ==> #[trigger] t[i] == (
                questions(e, count)[i]->ask,
                questions(e, count)[i]->answer,
            ),
        e.valid(count),
    ensures
        count_then(t, count) == e.count_between(count),
{
    lemma_opening(e, count, t);
    let q = questions(e, count);
    if e.at_watermark() {
        let r = e.receive_items(count);
        assert(q[3] == r[1]);
        assert(t[3] == (q[3]->ask, q[3]->answer));
    }
}

/// Whenever the clock is stretched, whatever else the interrupt status says, the status register is
/// read for the cause once received bytes are dealt with. When it is not stretched, that is all,
/// and no event of a stretched clock is told.
pub proof fn lemma_stretched_clock_is_looked_into(count: usize, answers: Seq<Answer>)
    requires
        ends(count, answers),
    ensures
        ({
            let t = turns(invocation(count, answers).items);
            &&& word(t, 0) & 0x1_0000 != 0 ==> asks_status(t, then_at(t, count))
            &&& word(t, 0) & 0x1_0000 == 0 ==> t.len() == then_at(t, count)
            &&& forall|i: int|
                0 <= i < t.len() && tells_stretch(#[trigger] t[i]) ==> word(t, 0) & 0x1_0000 != 0
                    && i > then_at(t, count)
        }),
{
    let e = lemma_shape(count, answers);
    let t = turns(invocation(count, answers).items);
    lemma_opening(e, count, t);
    lemma_events_by_place(e, count, t);
    let p = then_at(t, count);
    if e.stretch() is Some {
        assert(t[p + 0] == (
            stretch_questions(e, e.count_between(count))[0]->ask,
            stretch_questions(e, e.count_between(count))[0]->answer,
        ));
    }
}

/// The cause of a stretched clock is the one that the episode has.
proof fn lemma_cause(e: Episode, count: usize, t: Seq<Turn>)
    requires
        t.len() == questions(e, count).len(),
        forall|i: int|
            0 <= i < t.len() ==> #[trigger] t[i] == (
                questions(e, count)[i]->ask,
                questions(e, count)[i]->answer,
            ),
    ensures
        forall|cause: u32|
            #[trigger] stretched_for(t, count, cause) <==> e.stretch() == Some(cause as nat),
        e.stretch() is Some <==> word(t, 0) & 0x1_0000 != 0,
        e.stretch() is Some ==> e.stretch()->Some_0 < 4,
{
    lemma_opening(e, count, t);
    lemma_status_fields(e.cause);
    let p = then_at(t, count);
    if e.stretch() is Some {
        assert(t[p + 0] == (
            stretch_questions(e, e.count_between(count))[0]->ask,
            stretch_questions(e, e.count_between(count))[0]->answer,
        ));
    }
}

/// An address match ends a write by the master: all bytes of the receive FIFO are told, with the
/// number of those before, and the callback gets the room that the transmit FIFO has.
pub proof fn lemma_address_match_is_told(count: usize, answers: Seq<Answer>)
    requires
        ends(count, answers),
        stretched_for(turns(invocation(count, answers).items), count, 0),
    ensures
        ({
            let t = turns(invocation(count, answers).items);
            let p = then_at(t, count);
            &&& t.len() == p + 6
            &&& reads_fifo(t, p + 1)
            &&& asks_status(t, p + 3)
            &&& count_then(t, count) <= usize::MAX
            &&& tells(
                t,
                p + 4,
                SlaveEvent::StretchAddrMatch(count_then(t, count) as usize),
                t[p + 2].1->Fifo_0,
                room(word(t, p + 3)),
            )
            &&& t[p + 4].1->count <= 32
            &&& asks_status(t, p + 5)
        }),
{
    let e = lemma_shape(count, answers);
    let t = turns(invocation(count, answers).items);
    lemma_opening(e, count, t);
    lemma_cause(e, count, t);
    lemma_count_then(e, count, t);
    let p = then_at(t, count);
    let sq = stretch_questions(e, e.count_between(count));
    assert(sq.len() == 6);
    assert(t[p + 1] == (sq[1]->ask, sq[1]->answer));
    assert(t[p + 2] == (sq[2]->ask, sq[2]->answer));
    assert(t[p + 3] == (sq[3]->ask, sq[3]->answer));
    assert(t[p + 4] == (sq[4]->ask, sq[4]->answer));
    assert(t[p + 5] == (sq[5]->ask, sq[5]->answer));
    lemma_reading_turns(e.stretch_reading, t, p + 1);
    lemma_status_fields(e.tx_status);
}

/// A transmit FIFO that ran empty has the callback asked for data: nothing is read, no bytes are
/// told, and the whole FIFO is offered.
pub proof fn lemma_empty_tx_fifo_is_told(count: usize, answers: Seq<Answer>)
    requires
        ends(count, answers),
        stretched_for(turns(invocation(count, answers).items), count, 1),
    ensures
        ({
            let t = turns(invocation(count, answers).items);
            let p = then_at(t, count);
            &&& t.len() == p + 4
            &&& asks_status(t, p + 1)
            &&& (word(t, p + 1) >> 18) & 0x3f == 0
            &&& tells(t, p + 2, SlaveEvent::StretchTxEmpty, seq![], 32)
            &&& t[p + 2].1->count <= 32
            &&& asks_status(t, p + 3)
        }),
{
    let e = lemma_shape(count, answers);
    let t = turns(invocation(count, answers).items);
    lemma_opening(e, count, t);
    lemma_cause(e, count, t);
    let p = then_at(t, count);
    let sq = stretch_questions(e, e.count_between(count));
    assert(sq.len() == 4);
    assert(t[p + 1] == (sq[1]->ask, sq[1]->answer));
    assert(t[p + 2] == (sq[2]->ask, sq[2]->answer));
    assert(t[p + 3] == (sq[3]->ask, sq[3]->answer));
    lemma_status_fields(e.tx_status);
}

/// A receive FIFO that is full is read, and the bytes are told with the number of those before, if
/// there are still any.
pub proof fn lemma_full_rx_fifo_is_told(count: usize, answers: Seq<Answer>)
    requires
        ends(count, answers),
        stretched_for(turns(invocation(count, answers).items), count, 2),
    ensures
        ({
            let t = turns(invocation(count, answers).items);
            let p = then_at(t, count);
            &&& reads_fifo(t, p + 1)
            &&& count_then(t, count) <= usize::MAX
            &&& if t[p + 2].1->Fifo_0.len() > 0 {
                t.len() == p + 4 && tells(
                    t,
                    p + 3,
                    SlaveEvent::StretchRxFull(count_then(t, count) as usize),
                    t[p + 2].1->Fifo_0,
                    0,
                )
            } else {
                t.len() == p + 3
            }
        }),
{
    let e = lemma_shape(count, answers);
    let t = turns(invocation(count, answers).items);
    lemma_opening(e, count, t);
    lemma_cause(e, count, t);
    lemma_count_then(e, count, t);
    let p = then_at(t, count);
    let sq = stretch_questions(e, e.count_between(count));
    assert(t[p + 1] == (sq[1]->ask, sq[1]->answer));
    assert(t[p + 2] == (sq[2]->ask, sq[2]->answer));
    lemma_reading_turns(e.stretch_reading, t, p + 1);
    if e.stretch_reading.words.len() > 0 {
        assert(t[p + 3] == (sq[3]->ask, sq[3]->answer));
    }
}

/// A clock that is stretched for any other cause leads to no further question.
pub proof fn lemma_other_causes_ask_nothing(count: usize, answers: Seq<Answer>)
    requires
        ends(count, answers),
        stretched_for(turns(invocation(count, answers).items), count, 3),
    ensures
        ({
            let t = turns(invocation(count, answers).items);
            t.len() == then_at(t, count) + 1
        }),
{
    let e = lemma_shape(count, answers);
    let t = turns(invocation(count, answers).items);
    lemma_opening(e, count, t);
    lemma_cause(e, count, t);
}

/// Whether an item is a deed that changes a register.
pub open spec fn touches(item: Item, register: Register) -> bool {
    match item {
        Item::Did(Action::Write { register: r, .. }) => r == register,
        Item::Did(Action::Modify { register: r, .. }) => r == register,
        _ => false,
    }
}

/// Where the deeds of an episode stand among its items.
proof fn lemma_items_by_place(e: Episode, count: usize)
    ensures
        ({
            let items = arranged(e, count);
            let nack = nack_deeds(e);
            let stretch = stretch_deeds(e);
            let asked = e.receive_items(count).len() + stretch_questions(
                e,
                e.count_between(count),
            ).len();
            &&& items.len() == 3 + nack.len() + asked + stretch.len()
            &&& items.last() == Item::Did(
                Action::Write { register: Register::IntClr, value: e.ints },
            )
            &&& forall|i: int|
                0 <= i < nack.len() ==> items[2 + i] == Item::Did(#[trigger] nack[i])
            &&& forall|i: int|
                0 <= i < stretch.len() ==> items[2 + nack.len() + asked + i] == Item::Did(
                    #[trigger] stretch[i],
                )
            &&& forall|i: int|
                0 <= i < items.len() && #[trigger] items[i] is Did ==> (2 <= i < 2 + nack.len()
                    && items[i] == Item::Did(nack[i - 2])) || (2 + nack.len() + asked <= i
                    < items.len() - 1 && items[i] == Item::Did(
                    stretch[i - (2 + nack.len() + asked)],
                )) || i == items.len() - 1
        }),
{
    let items = arranged(e, count);
    let nack = nack_deeds(e);
    let stretch = stretch_deeds(e);
    let receive = e.receive_items(count);
    let sq = stretch_questions(e, e.count_between(count));
    let asked = receive.len() + sq.len();
    assert(forall|i: int| 0 <= i < receive.len() ==> #[trigger] receive[i] is Asked);
    assert(forall|i: int| 0 <= i < sq.len() ==> #[trigger] sq[i] is Asked);
    assert forall|i: int| 0 <= i < nack.len() implies items[2 + i] == Item::Did(
        #[trigger] nack[i],
    ) by {
        assert(done(nack)[i] == Item::Did(nack[i]));
    }
    assert forall|i: int| 0 <= i < stretch.len() implies items[2 + nack.len() + asked + i]
        == Item::Did(#[trigger] stretch[i]) by {
        assert(done(stretch)[i] == Item::Did(stretch[i]));
    }
    assert forall|i: int| 0 <= i < items.len() && #[trigger] items[i] is Did implies (2 <= i < 2
        + nack.len() && items[i] == Item::Did(nack[i - 2])) || (2 + nack.len() + asked <= i
        < items.len() - 1 && items[i] == Item::Did(stretch[i - (2 + nack.len() + asked)])) || i
        == items.len() - 1 by {
        if 2 <= i < 2 + nack.len() {
            assert(done(nack)[i - 2] == Item::Did(nack[i - 2]));
        } else if 2 + nack.len() <= i < 2 + nack.len() + receive.len() {
            assert(items[i] == receive[i - 2 - nack.len()]);
        } else if 2 + nack.len() + receive.len() <= i < 2 + nack.len() + asked {
            assert(items[i] == sq[i - 2 - nack.len() - receive.len()]);
        } else if 2 + nack.len() + asked <= i < items.len() - 1 {
            assert(done(stretch)[i - (2 + nack.len() + asked)] == Item::Did(
                stretch[i - (2 + nack.len() + asked)],
            ));
        }
    }
}

/// The last deed of an invocation, and its last item, clears exactly the interrupts whose status was
/// read at its start. Nothing before it does.
pub proof fn lemma_served_interrupts_are_cleared(count: usize, answers: Seq<Answer>)
    requires
        ends(count, answers),
    ensures
        ({
            let items = invocation(count, answers).items;
            let t = turns(items);
            &&& items.len() > 2
            &&& items.last() == Item::Did(
                Action::Write { register: Register::IntClr, value: word(t, 0) },
            )
            &&& forall|i: int|
                0 <= i < items.len() && touches(#[trigger] items[i], Register::IntClr) ==> i
                    == items.len() - 1
        }),
{
    let e = lemma_shape(count, answers);
    let items = invocation(count, answers).items;
    lemma_opening(e, count, turns(items));
    lemma_items_by_place(e, count);
    lemma_stretch_deeds(e);
    assert forall|i: int|
        0 <= i < items.len() && touches(#[trigger] items[i], Register::IntClr) implies i
        == items.len() - 1 by {
        assert(items[i] is Did);
    }
}

/// The deeds for a stretched clock: bytes, then the release.
proof fn lemma_stretch_deeds(e: Episode)
    ensures
        ({
            let d = stretch_deeds(e);
            let n = lesser(txfifo_free(e.free_status), e.written);
            &&& match e.stretch() {
                Some(cause) if cause <= 1 => d.len() == n + 1 && forall|i: int|
                    0 <= i < n ==> #[trigger] d[i] == (Action::Write {
                        register: Register::Data,
                        value: if i < e.buffer.len() {
                            e.buffer[i] as u32
                        } else {
                            0
                        },
                    }),
                Some(cause) if cause == 2 => d.len() == 1,
                _ => d.len() == 0,
            }
            &&& d.len() > 0 ==> d.last() == (Action::Modify {
                register: Register::SclStretchConf,
                clear: 0x800,
                set: 0x800,
            })
        }),
{
    if e.stretch() is Some && e.stretch()->Some_0 <= 1 {
        let data = tx_data(e.buffer, e.written);
        let n = lesser(txfifo_free(e.free_status), e.written);
        let d = stretch_deeds(e);
        assert(data.len() == e.written);
        assert forall|i: int| 0 <= i < n implies #[trigger] d[i] == (Action::Write {
            register: Register::Data,
            value: if i < e.buffer.len() {
                e.buffer[i] as u32
            } else {
                0
            },
        }) by {
            assert(data.take(n as int)[i] == data[i]);
            assert(d[i] == data_writes(data.take(n as int))[i]);
        }
    }
}

/// A clock that is stretched for an address match, for want of data or for a full FIFO is let go
/// right before the interrupts are cleared. No other clock is, and none is let go twice.
pub proof fn lemma_clock_is_let_go(count: usize, answers: Seq<Answer>)
    requires
        ends(count, answers),
    ensures
        ({
            let items = invocation(count, answers).items;
            let t = turns(items);
            let stretched = stretched_for(t, count, 0) || stretched_for(t, count, 1)
                || stretched_for(t, count, 2);
            &&& stretched ==> items[items.len() - 2] == Item::Did(
                Action::Modify { register: Register::SclStretchConf, clear: 0x800, set: 0x800 },
            )
            &&& forall|i: int|
                0 <= i < items.len() && touches(#[trigger] items[i], Register::SclStretchConf) ==> i
                    == items.len() - 2 && stretched
        }),
{
    let e = lemma_shape(count, answers);
    let items = invocation(count, answers).items;
    let t = turns(items);
    lemma_opening(e, count, t);
    lemma_cause(e, count, t);
    lemma_items_by_place(e, count);
    lemma_stretch_deeds(e);
    let d = stretch_deeds(e);
    if d.len() > 0 {
        assert(items[items.len() - 2] == Item::Did(d[d.len() - 1]));
    }
    assert forall|i: int|
        0 <= i < items.len() && touches(#[trigger] items[i], Register::SclStretchConf) implies i
        == items.len() - 2 && (stretched_for(t, count, 0) || stretched_for(t, count, 1)
        || stretched_for(t, count, 2)) by {
        assert(items[i] is Did);
    }
}

/// A NACK has the transmit FIFO emptied before anything else is done or asked: its reset bit goes up
/// and down again, and the state machine is reset. Without a NACK neither is touched.
pub proof fn lemma_nack_empties_tx_fifo(count: usize, answers: Seq<Answer>)
    requires
        ends(count, answers),
    ensures
        ({
            let items = invocation(count, answers).items;
            let t = turns(items);
            &&& word(t, 0) & 0x400 != 0 ==> {
                &&& items.len() > 5
                &&& items[2] == Item::Did(
                    Action::Modify { register: Register::FifoConf, clear: 0x2000, set: 0x2000 },
                )
                &&& items[3] == Item::Did(
                    Action::Modify { register: Register::FifoConf, clear: 0x2000, set: 0 },
                )
                &&& items[4] == Item::Did(
                    Action::Modify { register: Register::Ctr, clear: 0x400, set: 0x400 },
                )
            }
            &&& forall|i: int|
                0 <= i < items.len() && (touches(#[trigger] items[i], Register::FifoConf) || touches(
                    items[i],
                    Register::Ctr,
                )) ==> 2 <= i < 5 && word(t, 0) & 0x400 != 0
        }),
{
    let e = lemma_shape(count, answers);
    let items = invocation(count, answers).items;
    let t = turns(items);
    lemma_opening(e, count, t);
    lemma_items_by_place(e, count);
    lemma_stretch_deeds(e);
    let nack = nack_deeds(e);
    if e.ints & 0x400 != 0 {
        assert(items[2] == Item::Did(nack[0]));
        assert(items[3] == Item::Did(nack[1]));
        assert(items[4] == Item::Did(nack[2]));
    }
    assert forall|i: int|
        0 <= i < items.len() && (touches(#[trigger] items[i], Register::FifoConf) || touches(
            items[i],
            Register::Ctr,
        )) implies 2 <= i < 5 && word(t, 0) & 0x400 != 0 by {
        assert(items[i] is Did);
    }
}

/// How many bytes are sent: as many as the callback said, for an address match or for want of data,
/// but no more than fit by the status register read last.
pub open spec fn to_send(t: Seq<Turn>, count: usize) -> nat {
    if stretched_for(t, count, 0) || stretched_for(t, count, 1) {
        if t[t.len() - 2].1->count <= room(word(t, t.len() - 1)) {
            t[t.len() - 2].1->count
        } else {
            room(word(t, t.len() - 1))
        }
    } else {
        0
    }
}

/// A byte of the buffer that the callback filled last, or zero beyond its end.
pub open spec fn byte_to_send(t: Seq<Turn>, j: int) -> u32 {
    if j < t[t.len() - 2].1->buffer.len() {
        t[t.len() - 2].1->buffer[j] as u32
    } else {
        0
    }
}

/// The callback and the status register that decide on what is sent.
proof fn lemma_to_send(e: Episode, count: usize, t: Seq<Turn>)
    requires
        t.len() == questions(e, count).len(),
        forall|i: int|
            0 <= i < t.len() ==> #[trigger] t[i] == (
                questions(e, count)[i]->ask,
                questions(e, count)[i]->answer,
            ),
    ensures
        ({
            let d = stretch_deeds(e);
            let n = to_send(t, count);
            &&& n <= d.len()
            &&& n > 0 ==> d.len() == n + 1
            &&& forall|j: int|
                0 <= j < n ==> d[j] == (Action::Write {
                    register: Register::Data,
                    value: #[trigger] byte_to_send(t, j),
                })
            &&& d.len() <= n + 1
            &&& d.len() > 0 ==> d.last() == (Action::Modify {
                register: Register::SclStretchConf,
                clear: 0x800,
                set: 0x800,
            })
        }),
{
    lemma_opening(e, count, t);
    lemma_cause(e, count, t);
    lemma_stretch_deeds(e);
    let n = to_send(t, count);
    if stretched_for(t, count, 0) || stretched_for(t, count, 1) {
        let d = stretch_deeds(e);
        let sq = stretch_questions(e, e.count_between(count));
        let p = then_at(t, count);
        assert(t[p + (sq.len() - 1)] == (sq[sq.len() - 1]->ask, sq[sq.len() - 1]->answer));
        assert(t[p + (sq.len() - 2)] == (sq[sq.len() - 2]->ask, sq[sq.len() - 2]->answer));
        lemma_status_fields(e.free_status);
        assert(sq[sq.len() - 1] == asked_status(e.free_status));
        assert(sq[sq.len() - 2]->answer == (Answer::Written { buffer: e.buffer, count: e.written }));
        assert(n == lesser(txfifo_free(e.free_status), e.written));
        assert forall|j: int| 0 <= j < n implies d[j] == (Action::Write {
            register: Register::Data,
            value: #[trigger] byte_to_send(t, j),
        }) by {
            assert(d[j] == (Action::Write {
                register: Register::Data,
                value: if j < e.buffer.len() {
                    e.buffer[j] as u32
                } else {
                    0
                },
            }));
        }
    }
}

/// What goes to the transmit FIFO: the bytes that the callback said to send, from the start of its
/// buffer, as far as they fit. They come right before the clock is let go, and nothing else ever
/// goes to the FIFO.
pub proof fn lemma_callback_data_is_sent(count: usize, answers: Seq<Answer>)
    requires
        ends(count, answers),
    ensures
        ({
            let items = invocation(count, answers).items;
            let t = turns(items);
            let n = to_send(t, count);
            &&& n + 2 <= items.len()
            &&& forall|j: int|
                0 <= j < n ==> items[items.len() - 2 - n + j] == Item::Did(
                    Action::Write { register: Register::Data, value: #[trigger] byte_to_send(t, j) },
                )
            &&& forall|i: int|
                0 <= i < items.len() && touches(#[trigger] items[i], Register::Data) ==> items.len()
                    - 2 - n <= i < items.len() - 2
        }),
{
    let e = lemma_shape(count, answers);
    let items = invocation(count, answers).items;
    let t = turns(items);
    lemma_to_send(e, count, t);
    lemma_items_by_place(e, count);
    let d = stretch_deeds(e);
    let n = to_send(t, count);
    assert forall|j: int| 0 <= j < n implies items[items.len() - 2 - n + j] == Item::Did(
        Action::Write { register: Register::Data, value: #[trigger] byte_to_send(t, j) },
    ) by {
        assert(items[items.len() - 1 - d.len() + j] == Item::Did(d[j]));
    }
    assert forall|i: int|
        0 <= i < items.len() && touches(#[trigger] items[i], Register::Data) implies items.len() - 2
        - n <= i < items.len() - 2 by {
        assert(items[i] is Did);
        if i < items.len() - 1 && i >= items.len() - 1 - d.len() {
            assert(items[i] == Item::Did(d[i - (items.len() - 1 - d.len())]));
        }
    }
}

/// An invocation changes no register but the five that serve an interrupt.
pub proof fn lemma_configuration_is_left_alone(count: usize, answers: Seq<Answer>)
    requires
        ends(count, answers),
    ensures
        ({
            let items = invocation(count, answers).items;
            forall|i: int|
                0 <= i < items.len() && #[trigger] items[i] is Did ==> touches(
                    items[i],
                    Register::FifoConf,
                ) || touches(items[i], Register::Ctr) || touches(items[i], Register::Data)
                    || touches(items[i], Register::SclStretchConf) || touches(
                    items[i],
                    Register::IntClr,
                )
        }),
{
    let e = lemma_shape(count, answers);
    lemma_items_by_place(e, count);
    lemma_stretch_deeds(e);
}

/// What an invocation leaves in the counter: nothing after an END condition, and otherwise nothing
/// after an address match. A full FIFO adds the bytes that were read for it.
pub proof fn lemma_count_left_behind(count: usize, answers: Seq<Answer>)
    requires
        ends(count, answers),
    ensures
        ({
            let t = turns(invocation(count, answers).items);
            let left = invocation(count, answers).count;
            if word(t, 0) & 0x8 != 0 || stretched_for(t, count, 0) {
                left == 0
            } else if stretched_for(t, count, 2) {
                left == (count_then(t, count) + t[then_at(t, count) + 2].1->Fifo_0.len()) % (
                usize::MAX as nat + 1)
            } else {
                left == count_then(t, count)
            }
        }),
{
    let e = lemma_shape(count, answers);
    let t = turns(invocation(count, answers).items);
    lemma_opening(e, count, t);
    lemma_cause(e, count, t);
    lemma_count_then(e, count, t);
    if stretched_for(t, count, 2) {
        let sq = stretch_questions(e, e.count_between(count));
        let p = then_at(t, count);
        assert(t[p + 1] == (sq[1]->ask, sq[1]->answer));
        assert(t[p + 2] == (sq[2]->ask, sq[2]->answer));
        lemma_reading_turns(e.stretch_reading, t, p + 1);
    }
}

/// Whether an answer is one to the question: a value for a register, as many values as were asked
/// for from the FIFO, or from the callback a buffer of the size it got, of which no more than 32
/// bytes are to be sent where there is something to send.
pub open spec fn answers_question(ask: Ask, answer: Answer) -> bool {
    match ask {
        Ask::Read(_) => answer is Value,
        Ask::ReadFifo(n) => answer is Fifo && answer->Fifo_0.len() == n,
        Ask::Notify { event, space, .. } => {
            &&& answer is Written
            &&& answer->buffer.len() == space
            &&& event is StretchAddrMatch || event is StretchTxEmpty ==> answer->count <= 32
        },
        Ask::Done => false,
    }
}

/// Whether the transmit FIFO is said to hold bytes where the handler is about to ask for data, after
/// the cause of the stretched clock was that the FIFO is empty.
pub open spec fn contradicts(stage: Stage, last: Answer, answer: Answer) -> bool {
    &&& stage is TxStatus
    &&& last is Value
    &&& (last->Value_0 >> 14) & 3 == 1
    &&& answer is Value
    &&& (answer->Value_0 >> 18) & 0x3f != 0
}

/// Whether a question fits where the handler stands, given the answer before it.
spec fn pending(stage: Stage, ask: Ask, last: Option<Answer>) -> bool {
    match stage {
        Stage::Interrupts => ask == Ask::Read(Register::IntSt),
        Stage::RxData { status, .. } => ask == Ask::ReadFifo(
            rx_read_count(status, FIFO_SIZE as nat),
        ),
        Stage::Delivered { .. } => ask matches Ask::Notify { event, space, .. } && space == 0
            && !(event is StretchAddrMatch || event is StretchTxEmpty),
        Stage::TxStatus { event, .. } => {
            &&& ask == Ask::Read(Register::Sr)
            &&& event is StretchAddrMatch || (event is StretchTxEmpty && last is Some
                && last->Some_0 is Value && (last->Some_0->Value_0 >> 14) & 3 == 1)
        },
        Stage::TxData { space, .. } => ask matches Ask::Notify { event, space: s, .. } && s == space
            && (event is StretchAddrMatch || event is StretchTxEmpty),
        Stage::Finished => ask == Ask::Done,
        _ => ask == Ask::Read(Register::Sr),
    }
}

proof fn lemma_pending_step(stage: Stage, ask: Ask, last: Option<Answer>, answer: Answer, count: usize)
    requires
        pending(stage, ask, last),
        accepted(stage, answer),
    ensures
        pending(step(stage, answer, count).stage, step(stage, answer, count).ask, Some(answer)),
{
    if let Answer::Value(v) = answer {
        lemma_status_fields(v);
    }
}

proof fn lemma_pending(
    stage: Stage,
    ask: Ask,
    last: Option<Answer>,
    count: usize,
    answers: Seq<Answer>,
)
    requires
        pending(stage, ask, last),
        all_accepted(stage, count, answers),
    ensures
        ({
            let run = converse(stage, ask, count, answers);
            pending(
                run.stage,
                run.ask,
                if answers.len() > 0 {
                    Some(answers.last())
                } else {
                    last
                },
            )
        }),
    decreases answers.len(),
{
    if answers.len() > 0 {
        let o = step(stage, answers[0], count);
        lemma_pending_step(stage, ask, last, answers[0], count);
        lemma_pending(o.stage, o.ask, Some(answers[0]), o.count, answers.drop_first());
        assert(answers.drop_first().len() > 0 ==> answers.drop_first().last() == answers.last());
    }
}

/// The handler goes on with every answer to its question, and with nothing else. What it does not
/// go on with is a transmit FIFO with bytes in it, where the clock is stretched because it is empty.
/// It asks until it is done.
pub proof fn lemma_every_answer_is_accepted(count: usize, answers: Seq<Answer>, answer: Answer)
    requires
        all_accepted(Stage::Interrupts, count, answers),
    ensures
        ({
            let run = invocation(count, answers);
            &&& run.stage == Stage::Finished <==> run.ask == Ask::Done
            &&& accepted(run.stage, answer) ==> answers_question(run.ask, answer)
            &&& answers_question(run.ask, answer) && !(answers.len() > 0 && contradicts(
                run.stage,
                answers.last(),
                answer,
            )) ==> accepted(run.stage, answer)
        }),
{
    let run = invocation(count, answers);
    lemma_pending(Stage::Interrupts, Ask::Read(Register::IntSt), None, count, answers);
    if let Answer::Value(v) = answer {
        lemma_status_fields(v);
    }
}

} // verus!
