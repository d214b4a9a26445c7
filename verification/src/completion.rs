//! Asynchronous completion protocol: one-shot pending result slots.
//!
//! Every read gets a fresh slot. The slot is fulfilled at most once, by the
//! completion of that read, with the decoded value; a read that finds no
//! value closes the slot instead, so consuming it yields nothing without
//! blocking. The consumer takes the result at most once, by value.

use vstd::prelude::*;

verus! {

enum SlotState<V> {
    /// No completion has been delivered yet.
    Empty,
    /// The read completed and delivered a decoded value.
    Fulfilled(V),
    /// The read completed without a value; the slot will never be fulfilled.
    Closed,
}

/// A one-shot, single-producer single-consumer result slot for one in-flight
/// read.
pub struct PendingResult<V> {
    state: SlotState<V>,
}

impl<V> PendingResult<V> {
    /// The slot has not been fulfilled or closed yet.
    pub closed spec fn is_empty(self) -> bool {
        self.state is Empty
    }

    /// The slot holds a delivered value.
    pub closed spec fn is_fulfilled(self) -> bool {
        self.state is Fulfilled
    }

    /// The slot was closed without a value.
    pub closed spec fn is_closed(self) -> bool {
        self.state is Closed
    }

    /// The delivered value of a fulfilled slot.
    pub closed spec fn value(self) -> V
        recommends
            self.is_fulfilled(),
    {
        self.state->Fulfilled_0
    }

    /// A fresh slot for a newly issued read.
    pub(crate) fn empty() -> (r: Self)
        ensures
            r.is_empty(),
    {
        PendingResult { state: SlotState::Empty }
    }

    /// Deliver the decoded value. A slot accepts exactly one fulfillment:
    /// only a slot that is still empty can be fulfilled.
    pub(crate) fn fulfill(&mut self, v: V)
        requires
            old(self).is_empty(),
        ensures
            final(self).is_fulfilled(),
            final(self).value() == v,
    {
        self.state = SlotState::Fulfilled(v);
    }

    /// Record that the read completed without a value; the slot can never be
    /// fulfilled afterwards.
    pub(crate) fn close(&mut self)
        requires
            old(self).is_empty(),
        ensures
            final(self).is_closed(),
    {
        self.state = SlotState::Closed;
    }

    /// Consume the slot: the delivered value if the read was fulfilled,
    /// nothing otherwise. Never blocks.
    pub fn recv(self) -> (r: Option<V>)
        ensures
            self.is_fulfilled() ==> r == Some(self.value()),
            self.is_closed() ==> r is None,
            self.is_empty() ==> r is None,
    {
        match self.state {
            SlotState::Fulfilled(v) => Some(v),
            SlotState::Empty => None,
            SlotState::Closed => None,
        }
    }
}

} // verus!
