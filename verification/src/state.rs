//! What the driver and its interrupt handler share.

use portable_atomic::AtomicUsize;
use vstd::prelude::*;

use crate::counter::{counter_new, counter_value};

verus! {

/// The part of the driver that outlives a single interrupt.
///
/// `C` stands for the user's event callback. The driver keeps it and hands it out again.
pub struct State<C> {
    /// The callback for slave events, once one is registered.
    pub callback: Option<C>,
    /// How many bytes were read in the current transaction.
    pub cur_transaction_rx_cnt: AtomicUsize,
}

impl<C> State<C> {
    /// The number of bytes read in the current transaction.
    pub open spec fn rx_count(&self) -> usize {
        counter_value(self.cur_transaction_rx_cnt)
    }

    /// The state before anything happened: no callback, no bytes read.
    pub fn new() -> (state: Self)
        ensures
            state.callback is None,
            state.rx_count() == 0,
    {
        State { callback: None, cur_transaction_rx_cnt: counter_new(0) }
    }
}

} // verus!
