//! The interrupts of the controller and the events that the user hears of.

use vstd::prelude::*;

use crate::register::{
    any_set, is_set, patched, INT_END_DETECT, INT_NACK, INT_RXFIFO_WM, INT_SLAVE_STRETCH, INT_TRANS_COMPLETE,
};

verus! {

/// An interrupt of the controller that the driver knows.
#[derive(Clone, Copy, Debug, PartialEq, Eq, Structural)]
#[non_exhaustive]
pub enum Event {
    /// Triggered when op_code of the master indicates an END command and an END
    /// condition is detected.
    EndDetect,
    /// Triggered when the I2C controller detects a STOP bit.
    TransComplete,
    /// Triggered when the RX FIFO reaches the configured watermark level if configured.
    RxFifoWatermark,
    /// Main interrupt for slave stretch handling
    SlaveStretch,
    /// Triggered when a NACK is received from the master usually at end of read transfer
    Nack,
}

/// Reason for the event callback being called.
///
/// Needed to tell apart partial data (watermark), a full FIFO (stretch) and the final data.
#[derive(Clone, Copy, Debug, PartialEq, Eq, Structural)]
pub enum SlaveEvent {
    /// The watermark of the RX FIFO was reached. Carries how many bytes of the current
    /// transaction were read before this call.
    RxFifoWatermark(usize),
    /// The clock is stretched because the RX FIFO is full. Carries how many bytes of the
    /// current transaction were read before this call.
    StretchRxFull(usize),
    /// The clock is stretched because the address matched. Carries how many bytes of the
    /// current transaction were read before this call.
    StretchAddrMatch(usize),
    /// The clock is stretched because the TX FIFO is empty and the master wants data.
    ///
    /// No data is read, but data to write has to be provided.
    StretchTxEmpty,
    /// The master finished writing. Carries how many bytes of the current transaction were
    /// read before this call.
    TransComplete(usize),
}

impl Event {
    /// The bit that stands for the event in each of the four interrupt registers.
    pub open spec fn bit(self) -> u32 {
        match self {
            Event::EndDetect => INT_END_DETECT,
            Event::TransComplete => INT_TRANS_COMPLETE,
            Event::RxFifoWatermark => INT_RXFIFO_WM,
            Event::SlaveStretch => INT_SLAVE_STRETCH,
            Event::Nack => INT_NACK,
        }
    }
}

/// A set of events.
#[derive(Clone, Copy, Debug, PartialEq, Eq, Structural)]
pub struct EventSet {
    end_detect: bool,
    trans_complete: bool,
    rx_fifo_watermark: bool,
    slave_stretch: bool,
    nack: bool,
}

impl View for EventSet {
    type V = Set<Event>;

    closed spec fn view(&self) -> Set<Event> {
        Set::new(
            |event: Event|
                match event {
                    Event::EndDetect => self.end_detect,
                    Event::TransComplete => self.trans_complete,
                    Event::RxFifoWatermark => self.rx_fifo_watermark,
                    Event::SlaveStretch => self.slave_stretch,
                    Event::Nack => self.nack,
                },
        )
    }
}

impl EventSet {
    /// The set without events.
    pub fn new() -> (events: Self)
        ensures
            events@ == Set::<Event>::empty(),
    {
        EventSet {
            end_detect: false,
            trans_complete: false,
            rx_fifo_watermark: false,
            slave_stretch: false,
            nack: false,
        }
    }

    /// The set of all events.
    pub fn all() -> (events: Self)
        ensures
            events@ == Set::<Event>::full(),
    {
        EventSet {
            end_detect: true,
            trans_complete: true,
            rx_fifo_watermark: true,
            slave_stretch: true,
            nack: true,
        }
    }

    /// The set of one event.
    pub fn only(event: Event) -> (events: Self)
        ensures
            events@ == set![event],
    {
        let mut events: EventSet = EventSet::new();
        events.insert(event);
        events
    }

    /// Adds an event.
    pub fn insert(&mut self, event: Event)
        ensures
            final(self)@ == old(self)@.insert(event),
    {
        match event {
            Event::EndDetect => {
                self.end_detect = true;
            },
            Event::TransComplete => {
                self.trans_complete = true;
            },
            Event::RxFifoWatermark => {
                self.rx_fifo_watermark = true;
            },
            Event::SlaveStretch => {
                self.slave_stretch = true;
            },
            Event::Nack => {
                self.nack = true;
            },
        }
        assert(self@ =~= old(self)@.insert(event));
    }

    /// The events that are in one of two sets.
    pub fn union(self, other: Self) -> (events: Self)
        ensures
            events@ == self@.union(other@),
    {
        let events = EventSet {
            end_detect: self.end_detect || other.end_detect,
            trans_complete: self.trans_complete || other.trans_complete,
            rx_fifo_watermark: self.rx_fifo_watermark || other.rx_fifo_watermark,
            slave_stretch: self.slave_stretch || other.slave_stretch,
            nack: self.nack || other.nack,
        };
        assert(events@ =~= self@.union(other@));
        events
    }

    /// Tells whether an event is in the set.
    pub fn contains(&self, event: Event) -> (contained: bool)
        ensures
            contained == self@.contains(event),
    {
        match event {
            Event::EndDetect => self.end_detect,
            Event::TransComplete => self.trans_complete,
            Event::RxFifoWatermark => self.rx_fifo_watermark,
            Event::SlaveStretch => self.slave_stretch,
            Event::Nack => self.nack,
        }
    }

    /// The bits that stand for the events of the set in the interrupt registers.
    pub fn mask(&self) -> (mask: u32)
        ensures
            mask == events_mask(self@),
    {
        let end_detect: u32 = if self.end_detect {
            INT_END_DETECT
        } else {
            0
        };
        let trans_complete: u32 = if self.trans_complete {
            INT_TRANS_COMPLETE
        } else {
            0
        };
        let rx_fifo_watermark: u32 = if self.rx_fifo_watermark {
            INT_RXFIFO_WM
        } else {
            0
        };
        let slave_stretch: u32 = if self.slave_stretch {
            INT_SLAVE_STRETCH
        } else {
            0
        };
        let nack: u32 = if self.nack {
            INT_NACK
        } else {
            0
        };
        end_detect | trans_complete | rx_fifo_watermark | slave_stretch | nack
    }

    /// The events whose bits are set in the value of an interrupt register.
    pub fn from_bits(bits: u32) -> (events: Self)
        ensures
            events@ == events_in(bits),
    {
        let mut events: EventSet = EventSet::new();
        if is_set(bits, INT_SLAVE_STRETCH) {
            events.insert(Event::SlaveStretch);
        }
        if is_set(bits, INT_END_DETECT) {
            events.insert(Event::EndDetect);
        }
        if is_set(bits, INT_NACK) {
            events.insert(Event::Nack);
        }
        if is_set(bits, INT_TRANS_COMPLETE) {
            events.insert(Event::TransComplete);
        }
        if is_set(bits, INT_RXFIFO_WM) {
            events.insert(Event::RxFifoWatermark);
        }
        assert(events@ =~= events_in(bits));
        events
    }
}

/// The bit of an event if the event is in a set, and nothing otherwise.
pub open spec fn bit_if_in(events: Set<Event>, event: Event) -> u32 {
    if events.contains(event) {
        event.bit()
    } else {
        0
    }
}

/// The bits that stand for the events of a set in the interrupt registers.
pub open spec fn events_mask(events: Set<Event>) -> u32 {
    bit_if_in(events, Event::EndDetect) | bit_if_in(events, Event::TransComplete) | bit_if_in(
        events,
        Event::RxFifoWatermark,
    ) | bit_if_in(events, Event::SlaveStretch) | bit_if_in(events, Event::Nack)
}

/// The events whose bits are set in the value of an interrupt register.
pub open spec fn events_in(bits: u32) -> Set<Event> {
    Set::new(|event: Event| any_set(bits, event.bit()))
}

proof fn lemma_mask_bits(events: Set<Event>)
    ensures
        forall|event: Event|
            any_set(events_mask(events), #[trigger] event.bit()) <==> events.contains(event),
        events_mask(events) & !events_mask(Set::<Event>::full()) == 0,
{
    let a = bit_if_in(events, Event::EndDetect);
    let b = bit_if_in(events, Event::TransComplete);
    let c = bit_if_in(events, Event::RxFifoWatermark);
    let d = bit_if_in(events, Event::SlaveStretch);
    let e = bit_if_in(events, Event::Nack);
    let mask = events_mask(events);
    assert((mask & 0x8 != 0 <==> a != 0) && (mask & 0x80 != 0 <==> b != 0) && (mask & 0x1 != 0
        <==> c != 0) && (mask & 0x1_0000 != 0 <==> d != 0) && (mask & 0x400 != 0 <==> e != 0)
        && mask & !(0x8u32 | 0x80u32 | 0x1u32 | 0x1_0000u32 | 0x400u32) == 0) by (bit_vector)
        requires
            mask == a | b | c | d | e,
            a == 0 || a == 0x8,
            b == 0 || b == 0x80,
            c == 0 || c == 0x1,
            d == 0 || d == 0x1_0000,
            e == 0 || e == 0x400,
    ;
}

proof fn lemma_bit_changes(value: u32, mask: u32, event: Event)
    ensures
        any_set(patched(value, mask, mask), event.bit()) <==> any_set(value, event.bit())
            || any_set(mask, event.bit()),
        any_set(patched(value, mask, 0), event.bit()) <==> any_set(value, event.bit())
            && !any_set(mask, event.bit()),
{
    let bit = event.bit();
    assert((((value & !mask) | mask) & bit != 0 <==> value & bit != 0 || mask & bit != 0) && (((
    value & !mask) | 0) & bit != 0 <==> value & bit != 0 && mask & bit == 0)) by (bit_vector)
        requires
            bit == 0x8 || bit == 0x80 || bit == 0x1 || bit == 0x1_0000 || bit == 0x400,
    ;
}

/// The bits of a set of events name exactly the events of the set.
pub proof fn lemma_events_of_mask(events: Set<Event>)
    ensures
        events_in(events_mask(events)) == events,
{
    lemma_mask_bits(events);
    assert(events_in(events_mask(events)) =~= events);
}

/// Setting the bits of a set of events in a register adds these events to those that are set there
/// already, and leaves all bits alone that stand for no event.
pub proof fn lemma_mask_adds_events(value: u32, events: Set<Event>)
    ensures
        events_in(patched(value, events_mask(events), events_mask(events))) == events_in(
            value,
        ).union(events),
        patched(value, events_mask(events), events_mask(events)) & !events_mask(
            Set::<Event>::full(),
        ) == value & !events_mask(Set::<Event>::full()),
{
    let mask = events_mask(events);
    let full = events_mask(Set::<Event>::full());
    lemma_mask_bits(events);
    assert(((value & !mask) | mask) & !full == value & !full) by (bit_vector)
        requires
            mask & !full == 0,
    ;
    assert forall|event: Event| #[trigger]
        events_in(patched(value, mask, mask)).contains(event) <==> events_in(value).union(
            events,
        ).contains(event) by {
        lemma_bit_changes(value, mask, event);
        assert(any_set(mask, event.bit()) <==> events.contains(event));
    }
    assert(events_in(patched(value, mask, mask)) =~= events_in(value).union(events));
}

/// Clearing the bits of a set of events in a register takes these events from those that are set
/// there, and leaves all bits alone that stand for no event.
pub proof fn lemma_mask_removes_events(value: u32, events: Set<Event>)
    ensures
        events_in(patched(value, events_mask(events), 0)) == events_in(value).difference(events),
        patched(value, events_mask(events), 0) & !events_mask(Set::<Event>::full()) == value
            & !events_mask(Set::<Event>::full()),
{
    let mask = events_mask(events);
    let full = events_mask(Set::<Event>::full());
    lemma_mask_bits(events);
    assert(((value & !mask) | 0) & !full == value & !full) by (bit_vector)
        requires
            mask & !full == 0,
    ;
    assert forall|event: Event| #[trigger]
        events_in(patched(value, mask, 0)).contains(event) <==> events_in(value).difference(
            events,
        ).contains(event) by {
        lemma_bit_changes(value, mask, event);
        assert(any_set(mask, event.bit()) <==> events.contains(event));
    }
    assert(events_in(patched(value, mask, 0)) =~= events_in(value).difference(events));
}

/// Each event has a bit of its own: bit 0 for the watermark, 3 for an END condition, 7 for the end of
/// a transfer, 10 for a NACK and 16 for a stretched clock. The mask of a set has the bits of its
/// events and no other.
pub proof fn lemma_mask_bit_by_bit(events: Set<Event>)
    ensures
        events_mask(events) & 0x1 != 0 <==> events.contains(Event::RxFifoWatermark),
        events_mask(events) & 0x8 != 0 <==> events.contains(Event::EndDetect),
        events_mask(events) & 0x80 != 0 <==> events.contains(Event::TransComplete),
        events_mask(events) & 0x400 != 0 <==> events.contains(Event::Nack),
        events_mask(events) & 0x1_0000 != 0 <==> events.contains(Event::SlaveStretch),
        events_mask(events) & !0x1_0489u32 == 0,
{
    lemma_mask_bits(events);
    assert(any_set(events_mask(events), Event::RxFifoWatermark.bit()) <==> events.contains(
        Event::RxFifoWatermark,
    ));
    assert(any_set(events_mask(events), Event::EndDetect.bit()) <==> events.contains(
        Event::EndDetect,
    ));
    assert(any_set(events_mask(events), Event::TransComplete.bit()) <==> events.contains(
        Event::TransComplete,
    ));
    assert(any_set(events_mask(events), Event::Nack.bit()) <==> events.contains(Event::Nack));
    assert(any_set(events_mask(events), Event::SlaveStretch.bit()) <==> events.contains(
        Event::SlaveStretch,
    ));
    let mask = events_mask(events);
    let full = events_mask(Set::<Event>::full());
    assert(mask & !0x1_0489u32 == 0) by (bit_vector)
        requires
            full == 0x8u32 | 0x80u32 | 0x1u32 | 0x1_0000u32 | 0x400u32,
            mask & !full == 0,
    ;
}

/// A value of an interrupt register stands for an event if the bit of the event is set, whatever the
/// other bits are.
pub proof fn lemma_events_bit_by_bit(bits: u32)
    ensures
        events_in(bits).contains(Event::RxFifoWatermark) <==> bits & 0x1 != 0,
        events_in(bits).contains(Event::EndDetect) <==> bits & 0x8 != 0,
        events_in(bits).contains(Event::TransComplete) <==> bits & 0x80 != 0,
        events_in(bits).contains(Event::Nack) <==> bits & 0x400 != 0,
        events_in(bits).contains(Event::SlaveStretch) <==> bits & 0x1_0000 != 0,
{
}

} // verus!
