//! What an invocation of the interrupt handler moves between the master and the user.

use vstd::prelude::*;

use crate::conversation::{
    asked_status, done, end_items, ends, invocation, lemma_every_invocation_is_an_episode,
    notified, Episode, Item, Reading,
};
use crate::event::SlaveEvent;
use crate::fifo::{
    clear_stretch_action, data_bytes, data_writes, lesser, reset_tx_fifo_actions,
    slave_write_actions, txfifo_free,
};
use crate::handler::{tx_data, Answer, Ask};
use crate::plan::Action;
use crate::register::{any_set, Register, INT_NACK};

verus! {

/// What each item contributes, in order.
pub open spec fn collect<T>(items: Seq<Item>, part: spec_fn(Item) -> Seq<T>) -> Seq<T>
    decreases items.len(),
{
    if items.len() == 0 {
        seq![]
    } else {
        collect(items.drop_last(), part) + part(items.last())
    }
}

/// The bytes that an item takes from the receive FIFO.
pub open spec fn read_in(item: Item) -> Seq<u8> {
    match item {
        Item::Asked { answer: Answer::Fifo(words), .. } => data_bytes(words),
        _ => seq![],
    }
}

/// The bytes that an item tells the callback of.
pub open spec fn reported_in(item: Item) -> Seq<u8> {
    match item {
        Item::Asked { ask: Ask::Notify { received, .. }, .. } => received,
        _ => seq![],
    }
}

/// The value that an item writes to the data register, which is a byte for the master.
pub open spec fn sent_in(item: Item) -> Seq<u32> {
    match item {
        Item::Did(Action::Write { register: Register::Data, value }) => seq![value],
        _ => seq![],
    }
}

/// The bytes taken from the receive FIFO.
pub open spec fn bytes_read(items: Seq<Item>) -> Seq<u8> {
    collect(items, |item: Item| read_in(item))
}

/// The bytes that the callback was told of.
pub open spec fn bytes_reported(items: Seq<Item>) -> Seq<u8> {
    collect(items, |item: Item| reported_in(item))
}

/// The values written to the data register.
pub open spec fn words_sent(items: Seq<Item>) -> Seq<u32> {
    collect(items, |item: Item| sent_in(item))
}

pub(crate) proof fn lemma_collect_concat<T>(first: Seq<Item>, second: Seq<Item>, part: spec_fn(Item) -> Seq<T>)
    ensures
        collect(first + second, part) == collect(first, part) + collect(second, part),
    decreases second.len(),
{
    if second.len() == 0 {
        assert(first + second =~= first);
        assert(collect(first + second, part) =~= collect(first, part) + collect(second, part));
    } else {
        assert((first + second).drop_last() =~= first + second.drop_last());
        lemma_collect_concat(first, second.drop_last(), part);
        assert(collect(first + second, part) =~= collect(first, part) + collect(second, part));
    }
}

proof fn lemma_collect_one<T>(item: Item, part: spec_fn(Item) -> Seq<T>)
    ensures
        collect(seq![item], part) == part(item),
{
    let items = seq![item];
    assert(items.drop_last() =~= seq![]);
    assert(collect(items.drop_last(), part) =~= seq![]);
    assert(collect(items, part) =~= part(item));
}

proof fn lemma_collect_two<T>(a: Item, b: Item, part: spec_fn(Item) -> Seq<T>)
    ensures
        collect(seq![a, b], part) == part(a) + part(b),
{
    assert(seq![a, b] =~= seq![a] + seq![b]);
    lemma_collect_concat(seq![a], seq![b], part);
    lemma_collect_one(a, part);
    lemma_collect_one(b, part);
}

proof fn lemma_collect_three<T>(a: Item, b: Item, c: Item, part: spec_fn(Item) -> Seq<T>)
    ensures
        collect(seq![a, b, c], part) == part(a) + part(b) + part(c),
{
    assert(seq![a, b, c] =~= seq![a, b] + seq![c]);
    lemma_collect_concat(seq![a, b], seq![c], part);
    lemma_collect_two(a, b, part);
    lemma_collect_one(c, part);
}

/// Items none of which contributes.
pub(crate) proof fn lemma_collect_nothing<T>(items: Seq<Item>, part: spec_fn(Item) -> Seq<T>)
    requires
        forall|i: int| 0 <= i < items.len() ==> part(#[trigger] items[i]) == Seq::<T>::empty(),
    ensures
        collect(items, part) == Seq::<T>::empty(),
    decreases items.len(),
{
    if items.len() > 0 {
        assert forall|i: int| 0 <= i < items.drop_last().len() implies part(
            #[trigger] items.drop_last()[i],
        ) == Seq::<T>::empty() by {
            assert(items.drop_last()[i] == items[i]);
        }
        lemma_collect_nothing(items.drop_last(), part);
        assert(part(items[items.len() - 1]) == Seq::<T>::empty());
        assert(collect(items, part) =~= Seq::<T>::empty());
    }
}

/// What a transcript contributes is what its parts contribute.
pub(crate) proof fn lemma_collect_transcript<T>(e: Episode, count: usize, part: spec_fn(Item) -> Seq<T>)
    requires
        forall|register: Register, value: u32| #[trigger]
            part(
                Item::Asked { ask: Ask::Read(register), answer: Answer::Value(value) },
            ) == Seq::<T>::empty(),
        part(
            Item::Did(Action::Write { register: Register::IntClr, value: e.ints }),
        ) == Seq::<T>::empty(),
        forall|register: Register, clear: u32, set: u32| #[trigger]
            part(Item::Did(Action::Modify { register, clear, set })) == Seq::<T>::empty(),
    ensures
        collect(e.transcript(count), part) == collect(e.receive_items(count), part) + collect(
            e.stretch_items(e.count_between(count)),
            part,
        ),
{
    let opening = seq![
        Item::Asked { ask: Ask::Read(Register::IntSt), answer: Answer::Value(e.ints) },
        asked_status(e.status),
    ];
    let nack = e.nack_items();
    let receive = e.receive_items(count);
    let stretch = e.stretch_items(e.count_between(count));
    let end = end_items(e.ints);
    lemma_collect_concat(opening + nack + receive + stretch, end, part);
    lemma_collect_concat(opening + nack + receive, stretch, part);
    lemma_collect_concat(opening + nack, receive, part);
    lemma_collect_nothing(end, part);
    assert forall|i: int| 0 <= i < (opening + nack).len() implies part(
        #[trigger] (opening + nack)[i],
    ) == Seq::<T>::empty() by {
        if i >= 2 {
            assert(nack == done(reset_tx_fifo_actions()));
            assert(nack[i - 2] == Item::Did(reset_tx_fifo_actions()[i - 2]));
        }
    }
    lemma_collect_nothing(opening + nack, part);
    assert(collect(e.transcript(count), part) =~= collect(receive, part) + collect(stretch, part));
}

/// A reading of the receive FIFO contributes only by the values read.
proof fn lemma_collect_reading<T>(r: Reading, part: spec_fn(Item) -> Seq<T>)
    requires
        part(asked_status(r.status)) == Seq::<T>::empty(),
    ensures
        collect(r.items(), part) == part(r.items()[1]),
{
    assert(r.items() =~= seq![r.items()[0], r.items()[1]]);
    lemma_collect_two(r.items()[0], r.items()[1], part);
    assert(part(r.items()[0]) + part(r.items()[1]) =~= part(r.items()[1]));
}

/// What the reading of received bytes and the report of them contribute.
pub(crate) proof fn lemma_collect_receive<T>(e: Episode, count: usize, part: spec_fn(Item) -> Seq<T>)
    requires
        part(asked_status(e.reading.status)) == Seq::<T>::empty(),
    ensures
        collect(e.receive_items(count), part) == if e.reports_end(count) || e.at_watermark() {
            part(e.receive_items(count)[1]) + part(e.receive_items(count)[2])
        } else {
            Seq::<T>::empty()
        },
{
    let items = e.receive_items(count);
    if e.reports_end(count) || e.at_watermark() {
        assert(items =~= seq![items[0], items[1], items[2]]);
        lemma_collect_three(items[0], items[1], items[2], part);
        assert(part(items[0]) + part(items[1]) + part(items[2]) =~= part(items[1]) + part(
            items[2],
        ));
    }
}

/// What an answer to a reading master contributes.
pub(crate) proof fn lemma_collect_send<T>(
    e: Episode,
    event: SlaveEvent,
    received: Seq<u8>,
    part: spec_fn(Item) -> Seq<T>,
)
    requires
        part(asked_status(e.tx_status)) == Seq::<T>::empty(),
        part(asked_status(e.free_status)) == Seq::<T>::empty(),
    ensures
        collect(e.send_items(event, received), part) == part(
            notified(event, received, e.buffer, e.written),
        ) + collect(
            done(slave_write_actions(e.free_status, tx_data(e.buffer, e.written))),
            part,
        ),
{
    let head = seq![
        asked_status(e.tx_status),
        notified(event, received, e.buffer, e.written),
        asked_status(e.free_status),
    ];
    let tail = done(slave_write_actions(e.free_status, tx_data(e.buffer, e.written)));
    lemma_collect_concat(head, tail, part);
    lemma_collect_three(head[0], head[1], head[2], part);
    assert(collect(head, part) =~= part(head[1]));
}

/// What the service of a stretched clock contributes.
pub(crate) proof fn lemma_collect_stretch<T>(e: Episode, count: usize, part: spec_fn(Item) -> Seq<T>)
    requires
        forall|value: u32| #[trigger] part(asked_status(value)) == Seq::<T>::empty(),
        part(Item::Did(clear_stretch_action())) == Seq::<T>::empty(),
    ensures
        collect(e.stretch_items(count), part) == match e.stretch() {
            None => Seq::<T>::empty(),
            Some(cause) => if cause == 0 {
                part(e.stretch_reading.items()[1]) + collect(
                    e.send_items(
                        SlaveEvent::StretchAddrMatch(count),
                        e.stretch_reading.bytes(),
                    ),
                    part,
                )
            } else if cause == 1 {
                collect(e.send_items(SlaveEvent::StretchTxEmpty, seq![]), part)
            } else if cause == 2 {
                part(e.stretch_reading.items()[1]) + (if e.stretch_reading.words.len() > 0 {
                    part(
                        notified(
                            SlaveEvent::StretchRxFull(count),
                            e.stretch_reading.bytes(),
                            seq![],
                            e.stretch_returned,
                        ),
                    )
                } else {
                    Seq::<T>::empty()
                })
            } else {
                Seq::<T>::empty()
            },
        },
{
    if let Some(cause) = e.stretch() {
        let head = seq![asked_status(e.cause)];
        let body = e.stretch_items(count).skip(1);
        assert(e.stretch_items(count) =~= head + body);
        lemma_collect_concat(head, body, part);
        lemma_collect_one(head[0], part);
        assert(collect(e.stretch_items(count), part) =~= collect(body, part));
        let reading = e.stretch_reading.items();
        if cause == 0 {
            let send = e.send_items(
                SlaveEvent::StretchAddrMatch(count),
                e.stretch_reading.bytes(),
            );
            assert(body =~= reading + send);
            lemma_collect_concat(reading, send, part);
            lemma_collect_reading(e.stretch_reading, part);
        } else if cause == 1 {
            assert(body =~= e.send_items(SlaveEvent::StretchTxEmpty, seq![]));
        } else if cause == 2 {
            let note = if e.stretch_reading.words.len() > 0 {
                seq![
                    notified(
                        SlaveEvent::StretchRxFull(count),
                        e.stretch_reading.bytes(),
                        seq![],
                        e.stretch_returned,
                    ),
                ]
            } else {
                seq![]
            };
            let release = done(seq![clear_stretch_action()]);
            assert(body =~= (reading + note) + release);
            lemma_collect_concat(reading + note, release, part);
            lemma_collect_concat(reading, note, part);
            lemma_collect_reading(e.stretch_reading, part);
            assert(release =~= seq![Item::Did(clear_stretch_action())]);
            lemma_collect_one(release[0], part);
            if e.stretch_reading.words.len() > 0 {
                lemma_collect_one(note[0], part);
            }
            assert(collect(body, part) =~= part(reading[1]) + collect(note, part));
        } else {
            assert(body =~= seq![]);
        }
    }
}

/// Each byte taken from the receive FIFO is reported to the callback, once and in order.
pub proof fn lemma_every_byte_is_reported_once(count: usize, answers: Seq<Answer>)
    requires
        ends(count, answers),
    ensures
        bytes_reported(invocation(count, answers).items) == bytes_read(
            invocation(count, answers).items,
        ),
{
    let e = lemma_every_invocation_is_an_episode(count, answers);
    let read = |item: Item| read_in(item);
    let reported = |item: Item| reported_in(item);
    let between = e.count_between(count);
    lemma_collect_transcript(e, count, read);
    lemma_collect_transcript(e, count, reported);
    lemma_collect_receive(e, count, read);
    lemma_collect_receive(e, count, reported);
    lemma_collect_stretch(e, between, read);
    lemma_collect_stretch(e, between, reported);
    let writes = done(slave_write_actions(e.free_status, tx_data(e.buffer, e.written)));
    lemma_collect_nothing(writes, read);
    lemma_collect_nothing(writes, reported);
    lemma_collect_send(
        e,
        SlaveEvent::StretchAddrMatch(between),
        e.stretch_reading.bytes(),
        read,
    );
    lemma_collect_send(
        e,
        SlaveEvent::StretchAddrMatch(between),
        e.stretch_reading.bytes(),
        reported,
    );
    lemma_collect_send(e, SlaveEvent::StretchTxEmpty, seq![], read);
    lemma_collect_send(e, SlaveEvent::StretchTxEmpty, seq![], reported);
    assert(collect(e.receive_items(count), read) =~= collect(e.receive_items(count), reported));
    if e.stretch() == Some(2nat) && e.stretch_reading.words.len() == 0 {
        assert(e.stretch_reading.bytes() =~= seq![]);
    }
    assert(collect(e.stretch_items(between), read) =~= collect(
        e.stretch_items(between),
        reported,
    ));
}

/// Writing bytes to the data register sends exactly those.
proof fn lemma_sent_by_writes(data: Seq<u8>)
    ensures
        words_sent(done(data_writes(data))) == data.map_values(|byte: u8| byte as u32),
    decreases data.len(),
{
    let sent = |item: Item| sent_in(item);
    let items = done(data_writes(data));
    if data.len() == 0 {
        assert(items =~= seq![]);
        assert(words_sent(items) =~= data.map_values(|byte: u8| byte as u32));
    } else {
        lemma_sent_by_writes(data.drop_last());
        assert(items.drop_last() =~= done(data_writes(data.drop_last())));
        assert(sent(items.last()) =~= seq![data.last() as u32]);
        assert(words_sent(items) =~= data.map_values(|byte: u8| byte as u32));
    }
}

/// What the master gets is the start of what the callback handed over, as far as it fits into the
/// transmit FIFO, and only when the callback was asked for data.
pub proof fn lemma_master_gets_what_was_handed_over(e: Episode, count: usize)
    ensures
        words_sent(e.transcript(count)) == if e.stretch() == Some(0nat) || e.stretch() == Some(
            1nat,
        ) {
            tx_data(e.buffer, e.written).take(
                lesser(txfifo_free(e.free_status), e.written) as int,
            ).map_values(|byte: u8| byte as u32)
        } else {
            seq![]
        },
        words_sent(e.transcript(count)).len() <= txfifo_free(e.free_status),
{
    let sent = |item: Item| sent_in(item);
    let between = e.count_between(count);
    lemma_collect_transcript(e, count, sent);
    lemma_collect_receive(e, count, sent);
    lemma_collect_stretch(e, between, sent);
    lemma_collect_send(
        e,
        SlaveEvent::StretchAddrMatch(between),
        e.stretch_reading.bytes(),
        sent,
    );
    lemma_collect_send(e, SlaveEvent::StretchTxEmpty, seq![], sent);
    let data = tx_data(e.buffer, e.written).take(
        lesser(txfifo_free(e.free_status), e.written) as int,
    );
    lemma_sent_by_writes(data);
    let writes = done(slave_write_actions(e.free_status, tx_data(e.buffer, e.written)));
    let release = Item::Did(clear_stretch_action());
    assert(writes =~= done(data_writes(data)) + seq![release]);
    lemma_collect_concat(done(data_writes(data)), seq![release], sent);
    lemma_collect_one(release, sent);
    assert(collect(writes, sent) =~= data.map_values(|byte: u8| byte as u32));
    assert(words_sent(e.transcript(count)) =~= if e.stretch() == Some(0nat) || e.stretch() == Some(
        1nat,
    ) {
        data.map_values(|byte: u8| byte as u32)
    } else {
        seq![]
    });
}

/// A callback that stays within its buffer hands over the start of it.
pub proof fn lemma_handed_over_within_buffer(buffer: Seq<u8>, count: nat)
    requires
        count <= buffer.len(),
    ensures
        tx_data(buffer, count) == buffer.take(count as int),
{
    assert(tx_data(buffer, count) =~= buffer.take(count as int));
}

/// Whether an item writes to the register that clears interrupts.
pub open spec fn clears_interrupts(item: Item) -> bool {
    item matches Item::Did(Action::Write { register: Register::IntClr, .. })
}

/// The last thing an invocation does is to clear exactly the interrupts that it found in the
/// beginning, and it clears no interrupt before.
pub proof fn lemma_interrupts_are_cleared_last(e: Episode, count: usize)
    ensures
        ({
            let items = e.transcript(count);
            &&& items[0] == (Item::Asked {
                ask: Ask::Read(Register::IntSt),
                answer: Answer::Value(e.ints),
            })
            &&& items.last() == Item::Did(
                Action::Write { register: Register::IntClr, value: e.ints },
            )
            &&& forall|i: int|
                0 <= i < items.len() - 1 ==> !clears_interrupts(#[trigger] items[i])
        }),
{
    let items = e.transcript(count);
    let opening = seq![
        Item::Asked { ask: Ask::Read(Register::IntSt), answer: Answer::Value(e.ints) },
        asked_status(e.status),
    ];
    let nack = e.nack_items();
    let receive = e.receive_items(count);
    let stretch = e.stretch_items(e.count_between(count));
    lemma_stretch_clears_nothing(e, e.count_between(count));
    assert(forall|i: int| 0 <= i < nack.len() ==> !clears_interrupts(#[trigger] nack[i]));
    assert(forall|i: int| 0 <= i < receive.len() ==> !clears_interrupts(#[trigger] receive[i]));
    assert(items =~= opening + nack + receive + stretch + end_items(e.ints));
    assert forall|i: int| 0 <= i < items.len() - 1 implies !clears_interrupts(
        #[trigger] items[i],
    ) by {
        let a = opening.len();
        let b = a + nack.len();
        let c = b + receive.len();
        if i < a {
            assert(items[i] == opening[i]);
        } else if i < b {
            assert(items[i] == nack[i - a]);
        } else if i < c {
            assert(items[i] == receive[i - b]);
        } else {
            assert(items[i] == stretch[i - c]);
        }
    }
}

proof fn lemma_stretch_clears_nothing(e: Episode, count: usize)
    ensures
        forall|i: int|
            0 <= i < e.stretch_items(count).len() ==> !clears_interrupts(
                #[trigger] e.stretch_items(count)[i],
            ),
{
    let actions = slave_write_actions(e.free_status, tx_data(e.buffer, e.written));
    assert forall|i: int| 0 <= i < actions.len() implies !clears_interrupts(
        #[trigger] done(actions)[i],
    ) by {
        assert(done(actions)[i] == Item::Did(actions[i]));
    }
}

/// A NACK empties the transmit FIFO, right after the status registers are read and before anything
/// else is asked or done.
pub proof fn lemma_nack_empties_tx_fifo_first(e: Episode, count: usize)
    requires
        any_set(e.ints, INT_NACK),
    ensures
        e.transcript(count).subrange(2, 5) == done(reset_tx_fifo_actions()),
{
    assert(e.transcript(count).subrange(2, 5) =~= done(reset_tx_fifo_actions()));
}

/// A clock that is stretched for an address match, for an empty transmit FIFO or for a full
/// receive FIFO is released, after all that the stretching was for and before the interrupts are
/// cleared.
pub proof fn lemma_stretched_clock_is_released(e: Episode, count: usize)
    requires
        e.stretch() == Some(0nat) || e.stretch() == Some(1nat) || e.stretch() == Some(2nat),
    ensures
        e.transcript(count).len() >= 2,
        e.transcript(count)[e.transcript(count).len() - 2] == Item::Did(clear_stretch_action()),
{
    let stretch = e.stretch_items(e.count_between(count));
    let actions = slave_write_actions(e.free_status, tx_data(e.buffer, e.written));
    assert(done(actions).last() == Item::Did(clear_stretch_action()));
    assert(done(seq![clear_stretch_action()]).last() == Item::Did(clear_stretch_action()));
    assert(stretch.last() == Item::Did(clear_stretch_action()));
}

} // verus!
