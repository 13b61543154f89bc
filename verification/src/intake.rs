//! The intake channel: the bounded, non-blocking handoff from the
//! collector loop to the forwarder.
//!
//! The producer never blocks: when every slot is taken, a new record is
//! dropped and the send reports the refusal, trading that record for the
//! liveness of the sampling cadence. The refusal is never an error to the
//! producer. A runtime's own bounded channel may carry the records
//! between tasks; this type states the policy such a channel follows and
//! is what the library verifies and tests.
use vstd::prelude::*;

verus! {

/// A fixed-capacity FIFO of records with a non-blocking insertion.
pub struct IntakeChannel {
    cap: usize,
    slots: Vec<Vec<u8>>,
}

impl View for IntakeChannel {
    type V = Seq<Seq<u8>>;

    closed spec fn view(&self) -> Seq<Seq<u8>> {
        self.slots.deep_view()
    }
}

impl IntakeChannel {
    pub closed spec fn spec_cap(&self) -> usize {
        self.cap
    }

    /// A channel with the given number of slots, all free.
    pub fn with_capacity(cap: usize) -> (c: IntakeChannel)
        ensures
            c.spec_cap() == cap,
            c@ == Seq::<Seq<u8>>::empty(),
    {
        let c = IntakeChannel { cap, slots: Vec::new() };
        proof {
            assert(c@ =~= Seq::<Seq<u8>>::empty());
        }
        c
    }

    /// Offers one record without blocking: it is appended when a slot is
    /// free and dropped otherwise, and the result says which happened.
    pub fn try_send(&mut self, item: Vec<u8>) -> (accepted: bool)
        ensures
            accepted <==> old(self)@.len() < old(self).spec_cap(),
            final(self).spec_cap() == old(self).spec_cap(),
            accepted ==> final(self)@ == old(self)@.push(item@),
            !accepted ==> final(self)@ == old(self)@,
    {
        if self.slots.len() < self.cap {
            let ghost it = item;
            self.slots.push(item);
            proof {
                assert(it.deep_view() =~= it@);
                assert(self@ =~= old(self)@.push(it@));
            }
            true
        } else {
            false
        }
    }

    /// Takes the oldest record, or nothing when the channel is empty.
    pub fn recv(&mut self) -> (r: Option<Vec<u8>>)
        ensures
            final(self).spec_cap() == old(self).spec_cap(),
            r is Some <==> old(self)@.len() > 0,
            r is None ==> final(self)@ == old(self)@,
            r is Some ==> r->0@ == old(self)@[0] && final(self)@ == old(self)@.drop_first(),
    {
        if self.slots.len() == 0 {
            None
        } else {
            let item = self.slots.remove(0);
            proof {
                assert(item.deep_view() =~= item@);
                assert(self@ =~= old(self)@.drop_first());
            }
            Some(item)
        }
    }

    /// How many records wait in the channel.
    pub fn len(&self) -> (n: usize)
        ensures
            n == self@.len(),
    {
        self.slots.len()
    }

    /// The number of slots.
    pub fn capacity(&self) -> (c: usize)
        ensures
            c == self.spec_cap(),
    {
        self.cap
    }
}

} // verus!
