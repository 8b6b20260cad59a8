//! What the user hears of a transaction over many interrupts.
//!
//! A master that writes more than fits into the FIFO causes several interrupts, and each brings
//! the callback some of the bytes. The events carry how many bytes of the transaction came before.

use vstd::prelude::*;

use crate::conversation::{done, Episode, Item};
use crate::counter::wrapped_sum;
use crate::event::SlaveEvent;
use crate::fifo::slave_write_actions;
use crate::handler::{tx_data, Ask};
use crate::register::{any_set, INT_END_DETECT};
use crate::traffic::{
    collect, lemma_collect_nothing, lemma_collect_receive, lemma_collect_send,
    lemma_collect_stretch, lemma_collect_transcript,
};

verus! {

/// A point in the life of a transaction.
#[verifier::ext_equal]
pub enum Mark {
    /// The callback hears of an event and of the bytes that came with it.
    Heard { event: SlaveEvent, bytes: Seq<u8> },
    /// The transaction is over: the master sent a stop, turned around to read, or an END condition
    /// was detected.
    Boundary,
}

/// The number of bytes that an event says came before it. An event that asks for data only says
/// nothing of the kind.
pub open spec fn offset(event: SlaveEvent) -> Option<usize> {
    match event {
        SlaveEvent::RxFifoWatermark(before) => Some(before),
        SlaveEvent::StretchRxFull(before) => Some(before),
        SlaveEvent::StretchAddrMatch(before) => Some(before),
        SlaveEvent::TransComplete(before) => Some(before),
        SlaveEvent::StretchTxEmpty => None,
    }
}

/// How many bytes the callback heard of since the transaction began.
pub open spec fn bytes_since_boundary(marks: Seq<Mark>) -> nat
    decreases marks.len(),
{
    if marks.len() == 0 {
        0
    } else {
        match marks.last() {
            Mark::Heard { bytes, .. } => bytes_since_boundary(marks.drop_last()) + bytes.len(),
            Mark::Boundary => 0,
        }
    }
}

/// The number of values that a counter tells apart.
pub open spec fn counter_range() -> nat {
    (usize::MAX + 1) as nat
}

/// Whether a mark carries the number of bytes that came before it in the transaction.
pub open spec fn tells_offset(before: Seq<Mark>, mark: Mark) -> bool {
    match mark {
        Mark::Heard { event, .. } => match offset(event) {
            Some(k) => k as nat == bytes_since_boundary(before) % counter_range(),
            None => true,
        },
        Mark::Boundary => true,
    }
}

impl Episode {
    /// The marks of received bytes.
    pub open spec fn receive_marks(self, count: usize) -> Seq<Mark> {
        if self.completes() {
            (if self.reports_end(count) {
                seq![
                    Mark::Heard {
                        event: SlaveEvent::TransComplete(count),
                        bytes: self.reading.bytes(),
                    },
                ]
            } else {
                seq![]
            }).push(Mark::Boundary)
        } else if self.at_watermark() {
            seq![
                Mark::Heard {
                    event: SlaveEvent::RxFifoWatermark(count),
                    bytes: self.reading.bytes(),
                },
            ]
        } else {
            seq![]
        }
    }

    /// The marks of a stretched clock.
    pub open spec fn stretch_marks(self, count: usize) -> Seq<Mark> {
        if self.stretch() == Some(0nat) {
            seq![
                Mark::Heard {
                    event: SlaveEvent::StretchAddrMatch(count),
                    bytes: self.stretch_reading.bytes(),
                },
                Mark::Boundary,
            ]
        } else if self.stretch() == Some(1nat) {
            seq![Mark::Heard { event: SlaveEvent::StretchTxEmpty, bytes: seq![] }]
        } else if self.stretch() == Some(2nat) && self.stretch_reading.words.len() > 0 {
            seq![
                Mark::Heard {
                    event: SlaveEvent::StretchRxFull(count),
                    bytes: self.stretch_reading.bytes(),
                },
            ]
        } else {
            seq![]
        }
    }

    /// The mark of an END condition.
    pub open spec fn end_marks(self) -> Seq<Mark> {
        if any_set(self.ints, INT_END_DETECT) {
            seq![Mark::Boundary]
        } else {
            seq![]
        }
    }

    /// The marks of an invocation, `count` bytes into a transaction.
    pub open spec fn marks(self, count: usize) -> Seq<Mark> {
        self.receive_marks(count) + self.stretch_marks(self.count_between(count))
            + self.end_marks()
    }
}

/// What the callback hears of in an item.
pub open spec fn heard_in(item: Item) -> Seq<Mark> {
    match item {
        Item::Asked { ask: Ask::Notify { event, received, .. }, .. } => seq![
            Mark::Heard { event, bytes: received },
        ],
        _ => seq![],
    }
}

/// What the callback hears of among the marks.
pub open spec fn heard(marks: Seq<Mark>) -> Seq<Mark>
    decreases marks.len(),
{
    if marks.len() == 0 {
        seq![]
    } else if marks.last() is Heard {
        heard(marks.drop_last()).push(marks.last())
    } else {
        heard(marks.drop_last())
    }
}

/// The bytes of the transaction after a number of invocations, from a fresh start.
pub open spec fn count_of(episodes: Seq<Episode>) -> usize
    decreases episodes.len(),
{
    if episodes.len() == 0 {
        0
    } else {
        episodes.last().count_after(count_of(episodes.drop_last()))
    }
}

/// The marks of a number of invocations, from a fresh start.
pub open spec fn log(episodes: Seq<Episode>) -> Seq<Mark>
    decreases episodes.len(),
{
    if episodes.len() == 0 {
        seq![]
    } else {
        log(episodes.drop_last()) + episodes.last().marks(count_of(episodes.drop_last()))
    }
}

/// Whether each invocation got answers that fit its questions.
pub open spec fn all_valid(episodes: Seq<Episode>) -> bool
    decreases episodes.len(),
{
    episodes.len() == 0 || (all_valid(episodes.drop_last()) && episodes.last().valid(
        count_of(episodes.drop_last()),
    ))
}

/// Whether each mark of a log carries the number of bytes before it, and `count` is the number of
/// bytes since the transaction began.
#[verifier::opaque]
spec fn in_step(marks: Seq<Mark>, count: usize) -> bool {
    &&& forall|i: int| 0 <= i < marks.len() ==> tells_offset(marks.take(i), #[trigger] marks[i])
    &&& count as nat == bytes_since_boundary(marks) % counter_range()
}

proof fn lemma_push_heard(
    marks: Seq<Mark>,
    count: usize,
    event: SlaveEvent,
    bytes: Seq<u8>,
    next: usize,
)
    requires
        in_step(marks, count),
        offset(event) == Some(count) || offset(event) is None,
        bytes.len() <= usize::MAX,
        next == wrapped_sum(count, bytes.len() as usize),
    ensures
        in_step(marks.push(Mark::Heard { event, bytes }), next),
{
    reveal(in_step);
    let more = marks.push(Mark::Heard { event, bytes });
    assert(more.drop_last() =~= marks);
    assert forall|i: int| 0 <= i < more.len() implies tells_offset(
        more.take(i),
        #[trigger] more[i],
    ) by {
        assert(more.take(i) =~= marks.take(i));
        if i < marks.len() {
            assert(more[i] == marks[i]);
        } else {
            assert(marks.take(i) =~= marks);
        }
    }
    let n = bytes_since_boundary(marks) as int;
    let m = counter_range() as int;
    vstd::arithmetic::div_mod::lemma_add_mod_noop(n, bytes.len() as int, m);
    vstd::arithmetic::div_mod::lemma_small_mod(bytes.len(), counter_range());
}

proof fn lemma_push_boundary(marks: Seq<Mark>, count: usize)
    requires
        in_step(marks, count),
    ensures
        in_step(marks.push(Mark::Boundary), 0),
{
    reveal(in_step);
    let more = marks.push(Mark::Boundary);
    assert(more.drop_last() =~= marks);
    assert forall|i: int| 0 <= i < more.len() implies tells_offset(
        more.take(i),
        #[trigger] more[i],
    ) by {
        assert(more.take(i) =~= marks.take(i));
        if i < marks.len() {
            assert(more[i] == marks[i]);
        }
    }
}

proof fn lemma_episode_in_step(e: Episode, marks: Seq<Mark>, count: usize)
    requires
        in_step(marks, count),
        e.valid(count),
    ensures
        in_step(marks + e.marks(count), e.count_after(count)),
{
    let between = e.count_between(count);
    let a = marks + e.receive_marks(count);
    assert(in_step(a, between)) by {
        let bytes = e.reading.bytes();
        let next = wrapped_sum(count, bytes.len() as usize);
        if e.completes() {
            if e.reports_end(count) {
                let event = SlaveEvent::TransComplete(count);
                lemma_push_heard(marks, count, event, bytes, next);
                lemma_push_boundary(marks.push(Mark::Heard { event, bytes }), next);
                assert(a =~= marks.push(Mark::Heard { event, bytes }).push(Mark::Boundary));
            } else {
                lemma_push_boundary(marks, count);
                assert(a =~= marks.push(Mark::Boundary));
            }
        } else if e.at_watermark() {
            let event = SlaveEvent::RxFifoWatermark(count);
            lemma_push_heard(marks, count, event, bytes, next);
            assert(a =~= marks.push(Mark::Heard { event, bytes }));
        } else {
            assert(a =~= marks);
        }
    }
    let stretched = e.count_stretched(count);
    let b = a + e.stretch_marks(between);
    assert(in_step(b, stretched)) by {
        let bytes = e.stretch_reading.bytes();
        let next = wrapped_sum(between, bytes.len() as usize);
        if e.stretch() == Some(0nat) {
            let event = SlaveEvent::StretchAddrMatch(between);
            lemma_push_heard(a, between, event, bytes, next);
            lemma_push_boundary(a.push(Mark::Heard { event, bytes }), next);
            assert(b =~= a.push(Mark::Heard { event, bytes }).push(Mark::Boundary));
        } else if e.stretch() == Some(1nat) {
            let event = SlaveEvent::StretchTxEmpty;
            lemma_push_heard(a, between, event, seq![], between);
            assert(b =~= a.push(Mark::Heard { event, bytes: seq![] }));
        } else if e.stretch() == Some(2nat) && e.stretch_reading.words.len() > 0 {
            let event = SlaveEvent::StretchRxFull(between);
            lemma_push_heard(a, between, event, bytes, next);
            assert(b =~= a.push(Mark::Heard { event, bytes }));
        } else {
            assert(b =~= a);
        }
    }
    let c = b + e.end_marks();
    assert(in_step(c, e.count_after(count))) by {
        if any_set(e.ints, INT_END_DETECT) {
            lemma_push_boundary(b, stretched);
            assert(c =~= b.push(Mark::Boundary));
        } else {
            assert(c =~= b);
        }
    }
    assert(c =~= marks + e.marks(count));
}

proof fn lemma_log_in_step(episodes: Seq<Episode>)
    requires
        all_valid(episodes),
    ensures
        in_step(log(episodes), count_of(episodes)),
    decreases episodes.len(),
{
    if episodes.len() == 0 {
        reveal(in_step);
        assert(bytes_since_boundary(log(episodes)) == 0);
        vstd::arithmetic::div_mod::lemma_small_mod(0, counter_range());
    } else {
        let before = episodes.drop_last();
        lemma_log_in_step(before);
        lemma_episode_in_step(episodes.last(), log(before), count_of(before));
    }
}

/// Over any number of interrupts, each event that reports bytes carries how many bytes of the
/// current transaction were reported before it, as far as a `usize` counts.
pub proof fn lemma_events_carry_the_bytes_before(episodes: Seq<Episode>, i: int)
    requires
        all_valid(episodes),
        0 <= i < log(episodes).len(),
    ensures
        tells_offset(log(episodes).take(i), log(episodes)[i]),
{
    reveal(in_step);
    lemma_log_in_step(episodes);
}

/// The byte count that the driver keeps between interrupts is the number of bytes reported in the
/// current transaction, as far as a `usize` counts.
pub proof fn lemma_count_is_bytes_of_transaction(episodes: Seq<Episode>)
    requires
        all_valid(episodes),
    ensures
        count_of(episodes) as nat == bytes_since_boundary(log(episodes)) % counter_range(),
{
    reveal(in_step);
    lemma_log_in_step(episodes);
}

proof fn lemma_heard_concat(first: Seq<Mark>, second: Seq<Mark>)
    ensures
        heard(first + second) == heard(first) + heard(second),
    decreases second.len(),
{
    if second.len() == 0 {
        assert(first + second =~= first);
        assert(heard(first + second) =~= heard(first) + heard(second));
    } else {
        assert((first + second).drop_last() =~= first + second.drop_last());
        lemma_heard_concat(first, second.drop_last());
        assert(heard(first + second) =~= heard(first) + heard(second));
    }
}

proof fn lemma_heard_one(mark: Mark)
    ensures
        heard(seq![mark]) == if mark is Heard {
            seq![mark]
        } else {
            seq![]
        },
{
    assert(seq![mark].drop_last() =~= seq![]);
    assert(heard(seq![mark].drop_last()) =~= seq![]);
    assert(heard(seq![mark]) =~= if mark is Heard {
        seq![mark]
    } else {
        seq![]
    });
}

/// The marks of an invocation list exactly what its transcript tells the callback, in order.
pub proof fn lemma_marks_are_what_is_heard(e: Episode, count: usize)
    ensures
        heard(e.marks(count)) == collect(e.transcript(count), |item: Item| heard_in(item)),
{
    let part = |item: Item| heard_in(item);
    let between = e.count_between(count);
    let receive = e.receive_marks(count);
    let stretch = e.stretch_marks(between);
    lemma_collect_transcript(e, count, part);
    lemma_collect_receive(e, count, part);
    lemma_collect_stretch(e, between, part);
    let event = SlaveEvent::StretchAddrMatch(between);
    lemma_collect_send(e, event, e.stretch_reading.bytes(), part);
    lemma_collect_send(e, SlaveEvent::StretchTxEmpty, seq![], part);
    lemma_collect_nothing(
        done(slave_write_actions(e.free_status, tx_data(e.buffer, e.written))),
        part,
    );
    lemma_heard_concat(receive + stretch, e.end_marks());
    lemma_heard_concat(receive, stretch);
    lemma_heard_one(Mark::Boundary);
    assert(heard(e.end_marks()) =~= seq![]);
    assert(heard(receive) =~= collect(e.receive_items(count), part)) by {
        if e.reports_end(count) {
            assert(receive =~= seq![receive[0]] + seq![Mark::Boundary]);
            lemma_heard_concat(seq![receive[0]], seq![Mark::Boundary]);
            lemma_heard_one(receive[0]);
        } else if e.completes() {
            assert(receive =~= seq![Mark::Boundary]);
        } else if e.at_watermark() {
            lemma_heard_one(receive[0]);
            assert(receive =~= seq![receive[0]]);
        }
    }
    assert(heard(stretch) =~= collect(e.stretch_items(between), part)) by {
        if e.stretch() == Some(0nat) {
            assert(stretch =~= seq![stretch[0]] + seq![Mark::Boundary]);
            lemma_heard_concat(seq![stretch[0]], seq![Mark::Boundary]);
            lemma_heard_one(stretch[0]);
        } else if stretch.len() > 0 {
            lemma_heard_one(stretch[0]);
            assert(stretch =~= seq![stretch[0]]);
        }
    }
    assert(heard(e.marks(count)) =~= heard(receive) + heard(stretch));
}

} // verus!
