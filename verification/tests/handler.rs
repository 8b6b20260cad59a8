use i2c_slave::event::SlaveEvent;
use i2c_slave::handler::{async_handler, Reply, Request};
use i2c_slave::plan::{Action, Plan};
use i2c_slave::register::{Register, FIFO_SIZE};
use i2c_slave::state::State;
use portable_atomic::{AtomicUsize, Ordering};

const RXFIFO_WM: u32 = 0x1;
const END_DETECT: u32 = 0x8;
const TRANS_COMPLETE: u32 = 0x80;
const NACK: u32 = 0x400;
const SLAVE_STRETCH: u32 = 0x1_0000;

const RELEASE_CLOCK: Action = Action::Modify {
    register: Register::SclStretchConf,
    clear: 0x800,
    set: 0x800,
};

fn clear(ints: u32) -> Action {
    Action::Write {
        register: Register::IntClr,
        value: ints,
    }
}

fn send(byte: u8) -> Action {
    Action::Write {
        register: Register::Data,
        value: byte as u32,
    }
}

/// A controller with its FIFOs, and a user who answers events.
struct Device {
    ints: u32,
    cause: u32,
    rx: Vec<u8>,
    tx: Vec<u8>,
    reads: Vec<Register>,
    actions: Vec<Action>,
    events: Vec<(SlaveEvent, Vec<u8>, usize)>,
    offer: Vec<u8>,
    returned: Option<usize>,
}

impl Device {
    fn new(ints: u32) -> Self {
        Device {
            ints,
            cause: 0,
            rx: vec![],
            tx: vec![],
            reads: vec![],
            actions: vec![],
            events: vec![],
            offer: vec![],
            returned: None,
        }
    }

    fn stretched(ints: u32, cause: u32) -> Self {
        let mut device = Device::new(ints | SLAVE_STRETCH);
        device.cause = cause;
        device
    }

    fn status(&self) -> u32 {
        ((self.rx.len() as u32) << 8) | (self.cause << 14) | ((self.tx.len() as u32) << 18)
    }

    fn carry_out(&mut self, plan: &mut Plan) {
        for action in plan.take() {
            if let Action::Write {
                register: Register::Data,
                value,
            } = action
            {
                self.tx.push(value as u8);
            }
            if let Action::Modify {
                register: Register::FifoConf,
                set: 0x2000,
                ..
            } = action
            {
                self.tx.clear();
            }
            self.actions.push(action);
        }
    }

    fn answer(&mut self, request: Request) -> Reply {
        match request {
            Request::Read(register) => {
                self.reads.push(register);
                match register {
                    Register::IntSt => Reply::Value(self.ints),
                    Register::Sr => Reply::Value(self.status()),
                    other => panic!("unexpected read of {:?}", other),
                }
            }
            Request::ReadFifo(count) => {
                let mut words = vec![];
                for byte in self.rx.drain(0..count) {
                    words.push(byte as u32);
                }
                Reply::Fifo(words)
            }
            Request::Notify {
                event,
                received,
                space,
            } => {
                self.events.push((event, received, space));
                let mut buffer = vec![0u8; space];
                let count = self.offer.len().min(space);
                buffer[0..count].copy_from_slice(&self.offer[0..count]);
                Reply::Written {
                    buffer,
                    count: self.returned.unwrap_or(count),
                }
            }
            Request::Done => panic!("nothing was asked"),
        }
    }

    fn interrupt(&mut self, state: &mut State<u8>) {
        let mut plan = Plan::new();
        let (mut handler, mut request) = match async_handler(state, &mut plan) {
            Some(started) => started,
            None => {
                self.carry_out(&mut plan);
                return;
            }
        };
        assert_eq!(handler.on_event(), 7);
        loop {
            self.carry_out(&mut plan);
            if let Request::Done = request {
                return;
            }
            let reply = self.answer(request);
            assert!(handler.accepts(&reply));
            request = handler.resume(reply, state, &mut plan);
        }
    }
}

fn listening() -> State<u8> {
    let mut state = State::new();
    state.callback = Some(7);
    state
}

fn count(state: &State<u8>) -> usize {
    state.cur_transaction_rx_cnt.load(Ordering::Relaxed)
}

#[test]
fn without_callback_interrupts_are_disabled_and_task_is_woken() {
    let mut state: State<u8> = State::new();
    let mut device = Device::new(TRANS_COMPLETE);
    device.interrupt(&mut state);
    assert_eq!(
        device.actions,
        vec![
            Action::Write {
                register: Register::IntEna,
                value: 0
            },
            Action::Wake
        ]
    );
    assert!(device.reads.is_empty());
    assert!(device.events.is_empty());
}

#[test]
fn end_of_transfer_reports_the_bytes() {
    let mut state = listening();
    let mut device = Device::new(TRANS_COMPLETE);
    device.rx = vec![1, 2, 3];
    device.interrupt(&mut state);
    assert_eq!(
        device.events,
        vec![(SlaveEvent::TransComplete(0), vec![1, 2, 3], 0)]
    );
    assert_eq!(device.actions, vec![clear(TRANS_COMPLETE)]);
    assert_eq!(
        device.reads,
        vec![Register::IntSt, Register::Sr, Register::Sr]
    );
    assert_eq!(count(&state), 0);
}

#[test]
fn end_of_an_empty_transfer_is_not_reported() {
    let mut state = listening();
    let mut device = Device::new(TRANS_COMPLETE);
    device.interrupt(&mut state);
    assert!(device.events.is_empty());
    assert_eq!(device.actions, vec![clear(TRANS_COMPLETE)]);
    assert_eq!(device.reads, vec![Register::IntSt, Register::Sr]);
}

#[test]
fn end_of_transfer_is_reported_if_bytes_came_before() {
    let mut state = listening();
    state.cur_transaction_rx_cnt = AtomicUsize::new(16);
    let mut device = Device::new(TRANS_COMPLETE);
    device.interrupt(&mut state);
    assert_eq!(
        device.events,
        vec![(SlaveEvent::TransComplete(16), vec![], 0)]
    );
    assert_eq!(count(&state), 0);
}

#[test]
fn long_write_is_reported_in_parts_with_offsets() {
    let mut state = listening();
    let bytes: Vec<u8> = (0..99).collect();
    let mut device = Device::new(RXFIFO_WM);
    device.rx = bytes[0..17].to_vec();
    device.interrupt(&mut state);
    assert_eq!(count(&state), 17);
    device.rx = bytes[17..49].to_vec();
    device.ints = SLAVE_STRETCH;
    device.cause = 2;
    device.interrupt(&mut state);
    assert_eq!(count(&state), 49);
    device.rx = bytes[49..80].to_vec();
    device.ints = RXFIFO_WM;
    device.interrupt(&mut state);
    assert_eq!(count(&state), 80);
    device.rx = bytes[80..99].to_vec();
    device.ints = TRANS_COMPLETE | RXFIFO_WM;
    device.interrupt(&mut state);
    assert_eq!(count(&state), 0);
    assert_eq!(
        device.events,
        vec![
            (SlaveEvent::RxFifoWatermark(0), bytes[0..17].to_vec(), 0),
            (SlaveEvent::StretchRxFull(17), bytes[17..49].to_vec(), 0),
            (SlaveEvent::RxFifoWatermark(49), bytes[49..80].to_vec(), 0),
            (SlaveEvent::TransComplete(80), bytes[80..99].to_vec(), 0),
        ]
    );
}

#[test]
fn empty_watermark_is_reported() {
    let mut state = listening();
    let mut device = Device::new(RXFIFO_WM);
    device.interrupt(&mut state);
    assert_eq!(
        device.events,
        vec![(SlaveEvent::RxFifoWatermark(0), vec![], 0)]
    );
}

#[test]
fn byte_count_wraps_around() {
    let mut state = listening();
    state.cur_transaction_rx_cnt = AtomicUsize::new(usize::MAX);
    let mut device = Device::new(RXFIFO_WM);
    device.rx = vec![5, 6, 7];
    device.interrupt(&mut state);
    assert_eq!(
        device.events,
        vec![(SlaveEvent::RxFifoWatermark(usize::MAX), vec![5, 6, 7], 0)]
    );
    assert_eq!(count(&state), 2);
}

#[test]
fn no_more_is_read_than_the_buffer_holds() {
    let mut state = listening();
    let mut device = Device::new(RXFIFO_WM);
    device.rx = (0..40).collect();
    device.interrupt(&mut state);
    assert_eq!(device.events[0].1, (0..32).collect::<Vec<u8>>());
    assert_eq!(device.rx, (32..40).collect::<Vec<u8>>());
    assert_eq!(count(&state), FIFO_SIZE);
}

#[test]
fn address_match_ends_the_write_and_sends_data() {
    let mut state = listening();
    state.cur_transaction_rx_cnt = AtomicUsize::new(32);
    let mut device = Device::stretched(0, 0);
    device.rx = vec![9, 8];
    device.offer = vec![0xa, 0xb, 0xc];
    device.interrupt(&mut state);
    assert_eq!(
        device.events,
        vec![(SlaveEvent::StretchAddrMatch(32), vec![9, 8], FIFO_SIZE)]
    );
    assert_eq!(
        device.actions,
        vec![
            send(0xa),
            send(0xb),
            send(0xc),
            RELEASE_CLOCK,
            clear(SLAVE_STRETCH)
        ]
    );
    assert_eq!(count(&state), 0);
    assert_eq!(
        device.reads,
        vec![
            Register::IntSt,
            Register::Sr,
            Register::Sr,
            Register::Sr,
            Register::Sr,
            Register::Sr
        ]
    );
}

#[test]
fn address_match_offers_and_fills_only_the_room_left() {
    let mut state = listening();
    let mut device = Device::stretched(0, 0);
    device.tx = vec![0; 30];
    device.offer = vec![1, 2, 3];
    device.interrupt(&mut state);
    assert_eq!(
        device.events,
        vec![(SlaveEvent::StretchAddrMatch(0), vec![], 2)]
    );
    assert_eq!(
        device.actions,
        vec![send(1), send(2), RELEASE_CLOCK, clear(SLAVE_STRETCH)]
    );
}

#[test]
fn address_match_with_a_full_tx_fifo_sends_nothing() {
    let mut state = listening();
    let mut device = Device::stretched(0, 0);
    device.tx = vec![0; 33];
    device.offer = vec![1];
    device.interrupt(&mut state);
    assert_eq!(device.events[0].2, 0);
    assert_eq!(device.actions, vec![RELEASE_CLOCK, clear(SLAVE_STRETCH)]);
}

#[test]
fn claiming_more_than_the_buffer_sends_zeros() {
    let mut state = listening();
    let mut device = Device::stretched(0, 0);
    device.tx = vec![0; 28];
    device.offer = vec![1, 2, 3, 4];
    device.returned = Some(6);
    let mut plan = Plan::new();
    let (mut handler, mut request) = async_handler(&state, &mut plan).unwrap();
    loop {
        device.carry_out(&mut plan);
        if let Request::Done = request {
            break;
        }
        let reply = device.answer(request);
        if let Reply::Written { .. } = reply {
            // The master took what was there in the meantime.
            device.tx.clear();
        }
        request = handler.resume(reply, &mut state, &mut plan);
    }
    assert_eq!(
        device.actions,
        vec![
            send(1),
            send(2),
            send(3),
            send(4),
            send(0),
            send(0),
            RELEASE_CLOCK,
            clear(SLAVE_STRETCH)
        ]
    );
}

#[test]
fn empty_tx_fifo_asks_for_data() {
    let mut state = listening();
    state.cur_transaction_rx_cnt = AtomicUsize::new(3);
    let mut device = Device::stretched(0, 1);
    device.rx = vec![1];
    device.offer = vec![0x5a; 32];
    device.interrupt(&mut state);
    assert_eq!(
        device.events,
        vec![(SlaveEvent::StretchTxEmpty, vec![], FIFO_SIZE)]
    );
    assert_eq!(device.tx, vec![0x5a; 32]);
    assert_eq!(device.actions.len(), 34);
    assert_eq!(device.actions[32], RELEASE_CLOCK);
    assert_eq!(device.rx, vec![1]);
    assert_eq!(count(&state), 3);
}

#[test]
fn no_data_still_releases_the_clock() {
    let mut state = listening();
    let mut device = Device::stretched(0, 1);
    device.interrupt(&mut state);
    assert_eq!(device.actions, vec![RELEASE_CLOCK, clear(SLAVE_STRETCH)]);
}

#[test]
fn full_rx_fifo_that_is_empty_by_now_is_not_reported() {
    let mut state = listening();
    state.cur_transaction_rx_cnt = AtomicUsize::new(4);
    let mut device = Device::stretched(0, 2);
    device.interrupt(&mut state);
    assert!(device.events.is_empty());
    assert_eq!(device.actions, vec![RELEASE_CLOCK, clear(SLAVE_STRETCH)]);
    assert_eq!(count(&state), 4);
}

#[test]
fn other_causes_are_left_alone() {
    let mut state = listening();
    let mut device = Device::stretched(0, 3);
    device.rx = vec![1];
    device.interrupt(&mut state);
    assert!(device.events.is_empty());
    assert_eq!(device.actions, vec![clear(SLAVE_STRETCH)]);
    assert_eq!(device.rx, vec![1]);
}

#[test]
fn nack_empties_the_tx_fifo_first() {
    let mut state = listening();
    let mut device = Device::new(NACK | TRANS_COMPLETE);
    device.tx = vec![1, 2, 3];
    device.rx = vec![4];
    device.interrupt(&mut state);
    assert_eq!(
        device.actions,
        vec![
            Action::Modify {
                register: Register::FifoConf,
                clear: 0x2000,
                set: 0x2000
            },
            Action::Modify {
                register: Register::FifoConf,
                clear: 0x2000,
                set: 0
            },
            Action::Modify {
                register: Register::Ctr,
                clear: 0x400,
                set: 0x400
            },
            clear(NACK | TRANS_COMPLETE),
        ]
    );
    assert!(device.tx.is_empty());
    assert_eq!(
        device.events,
        vec![(SlaveEvent::TransComplete(0), vec![4], 0)]
    );
}

#[test]
fn end_condition_starts_the_count_anew() {
    let mut state = listening();
    let mut device = Device::new(END_DETECT | RXFIFO_WM);
    device.rx = vec![1, 2];
    device.interrupt(&mut state);
    assert_eq!(
        device.events,
        vec![(SlaveEvent::RxFifoWatermark(0), vec![1, 2], 0)]
    );
    assert_eq!(count(&state), 0);
    assert_eq!(device.actions, vec![clear(END_DETECT | RXFIFO_WM)]);
}

#[test]
fn end_of_transfer_and_address_match_in_one_interrupt() {
    let mut state = listening();
    state.cur_transaction_rx_cnt = AtomicUsize::new(10);
    let mut device = Device::stretched(TRANS_COMPLETE, 0);
    device.rx = vec![1, 2];
    device.offer = vec![3];
    device.interrupt(&mut state);
    assert_eq!(
        device.events,
        vec![
            (SlaveEvent::TransComplete(10), vec![1, 2], 0),
            (SlaveEvent::StretchAddrMatch(0), vec![], FIFO_SIZE),
        ]
    );
    assert_eq!(device.tx, vec![3]);
}

#[test]
fn interrupts_that_are_not_known_are_cleared() {
    let mut state = listening();
    let mut device = Device::new(0x4_0122);
    device.interrupt(&mut state);
    assert!(device.events.is_empty());
    assert_eq!(device.actions, vec![clear(0x4_0122)]);
}

#[test]
fn replies_that_do_not_fit_are_not_accepted() {
    let mut state = listening();
    let mut plan = Plan::new();
    let (mut handler, _) = async_handler(&state, &mut plan).unwrap();
    assert!(!handler.accepts(&Reply::Fifo(vec![])));
    handler.resume(Reply::Value(SLAVE_STRETCH), &mut state, &mut plan);
    handler.resume(Reply::Value(0), &mut state, &mut plan);
    // The clock is stretched for want of data.
    handler.resume(Reply::Value(1 << 14), &mut state, &mut plan);
    assert!(!handler.accepts(&Reply::Value((1 << 14) | (1 << 18))));
    assert!(handler.accepts(&Reply::Value(1 << 14)));
    handler.resume(Reply::Value(1 << 14), &mut state, &mut plan);
    assert!(!handler.accepts(&Reply::Written {
        buffer: vec![0; 31],
        count: 0
    }));
    assert!(!handler.accepts(&Reply::Written {
        buffer: vec![0; 32],
        count: 33
    }));
    assert!(handler.accepts(&Reply::Written {
        buffer: vec![0; 32],
        count: 32
    }));
}

#[test]
fn reading_needs_as_many_values_as_were_asked_for() {
    let mut state = listening();
    let mut plan = Plan::new();
    let (mut handler, _) = async_handler(&state, &mut plan).unwrap();
    handler.resume(Reply::Value(RXFIFO_WM), &mut state, &mut plan);
    handler.resume(Reply::Value(0), &mut state, &mut plan);
    let request = handler.resume(Reply::Value(2 << 8), &mut state, &mut plan);
    assert!(matches!(request, Request::ReadFifo(2)));
    assert!(!handler.accepts(&Reply::Fifo(vec![1])));
    assert!(!handler.accepts(&Reply::Fifo(vec![1, 2, 3])));
    let request = handler.resume(Reply::Fifo(vec![0x101, 0xfff]), &mut state, &mut plan);
    match request {
        Request::Notify {
            event, received, ..
        } => {
            assert_eq!(event, SlaveEvent::RxFifoWatermark(0));
            assert_eq!(received, vec![0x01, 0xff]);
        }
        other => panic!("unexpected request {:?}", other),
    }
    assert!(!handler.accepts(&Reply::Written {
        buffer: vec![0],
        count: 0
    }));
    let request = handler.resume(
        Reply::Written {
            buffer: vec![],
            count: 1000,
        },
        &mut state,
        &mut plan,
    );
    assert!(matches!(request, Request::Done));
    assert!(!handler.accepts(&Reply::Value(0)));
}
