//! The exclusive-access discipline of the shared pipe pair, as a state
//! machine.
//!
//! Several callers may contend for one handle, but exactly one call's
//! write-and-read cycle is in flight on the pipe pair at any time: a call
//! joins the queue, is granted the channel only when it is free and every
//! earlier call has finished, and releases it when its reply is in. The
//! law at the bottom states the ordering guarantee this discipline gives:
//! calls complete in exactly the order they were admitted, so the bytes of
//! two calls never interleave on the wire.

use vstd::prelude::*;

verus! {

/// The state of one handle's channel: who waits, who holds it, who is
/// done, in order.
pub struct Multiplexer {
    /// Calls waiting for the channel, oldest first.
    pending: Vec<u64>,
    /// The call whose write-and-read cycle is in flight, if any.
    in_flight: Option<u64>,
    /// Calls whose cycle has completed, oldest first.
    done: Vec<u64>,
    /// Every call ever admitted, in admission order.
    history: Ghost<Seq<u64>>,
}

impl Multiplexer {
    /// The call holding the channel, as a sequence of zero or one.
    pub closed spec fn in_flight_seq(self) -> Seq<u64> {
        match self.in_flight {
            Some(id) => seq![id],
            None => Seq::empty(),
        }
    }

    /// The admission history splits exactly into completed calls, the one
    /// in flight, and the waiting calls, in that order.
    pub closed spec fn wf(self) -> bool {
        self.history@ == self.done@ + self.in_flight_seq() + self.pending@
    }

    /// Calls completed so far, oldest first.
    pub closed spec fn completed(self) -> Seq<u64> {
        self.done@
    }

    /// Every call ever admitted, in admission order.
    pub closed spec fn admitted(self) -> Seq<u64> {
        self.history@
    }

    /// Whether some call holds the channel.
    pub closed spec fn busy(self) -> bool {
        self.in_flight is Some
    }

    /// The call holding the channel, if any.
    pub closed spec fn holder(self) -> Option<u64> {
        self.in_flight
    }

    /// A fresh channel: nothing admitted, nothing in flight.
    pub fn new() -> (m: Self)
        ensures
            m.wf(),
            m.admitted() == Seq::<u64>::empty(),
            m.completed() == Seq::<u64>::empty(),
            !m.busy(),
    {
        let m = Multiplexer {
            pending: Vec::new(),
            in_flight: None,
            done: Vec::new(),
            history: Ghost(Seq::empty()),
        };
        proof {
            assert(m.history@ =~= m.done@ + m.in_flight_seq() + m.pending@);
        }
        m
    }

    /// Admit a new call to the back of the queue.
    pub fn submit(&mut self, id: u64)
        requires
            old(self).wf(),
        ensures
            final(self).wf(),
            final(self).admitted() == old(self).admitted().push(id),
            final(self).completed() == old(self).completed(),
            final(self).busy() == old(self).busy(),
    {
        self.pending.push(id);
        proof {
            self.history@ = self.history@.push(id);
            assert(self.history@ =~= self.done@ + self.in_flight_seq() + self.pending@);
        }
    }

    /// Grant the channel to the oldest waiting call, if the channel is
    /// free and a call waits; otherwise change nothing.
    pub fn grant(&mut self) -> (granted: Option<u64>)
        requires
            old(self).wf(),
        ensures
            final(self).wf(),
            final(self).admitted() == old(self).admitted(),
            final(self).completed() == old(self).completed(),
            match granted {
                Some(id) => !old(self).busy() && old(self).admitted().len() > old(
                    self,
                ).completed().len() && id == old(self).admitted()[old(self).completed().len() as int]
                    && final(self).holder() == Some(id),
                None => (old(self).busy() || old(self).admitted().len() == old(
                    self,
                ).completed().len()) && *final(self) == *old(self),
            },
    {
        if self.in_flight.is_none() && self.pending.len() > 0 {
            let id = self.pending.remove(0);
            self.in_flight = Some(id);
            proof {
                assert(self.history@ =~= self.done@ + self.in_flight_seq() + self.pending@);
            }
            Some(id)
        } else {
            None
        }
    }

    /// The call holding the channel completes its cycle and releases it;
    /// with the channel free, nothing changes.
    pub fn complete(&mut self) -> (finished: Option<u64>)
        requires
            old(self).wf(),
        ensures
            final(self).wf(),
            final(self).admitted() == old(self).admitted(),
            match finished {
                Some(id) => old(self).holder() == Some(id) && final(self).completed() == old(
                    self,
                ).completed().push(id) && !final(self).busy(),
                None => !old(self).busy() && *final(self) == *old(self),
            },
    {
        match self.in_flight {
            Some(id) => {
                self.in_flight = None;
                self.done.push(id);
                proof {
                    assert(self.history@ =~= self.done@ + self.in_flight_seq() + self.pending@);
                }
                Some(id)
            },
            None => None,
        }
    }
}

/// Law: calls complete in admission order. In every reachable state the
/// completed calls are exactly the oldest admitted ones, in order: no call
/// completes before an earlier-admitted one, so no two calls' bytes
/// interleave on the wire.
pub proof fn lemma_fifo_completion(m: Multiplexer)
    requires
        m.wf(),
    ensures
        m.completed().len() <= m.admitted().len(),
        m.completed() == m.admitted().take(m.completed().len() as int),
{
    assert(m.completed() =~= m.admitted().take(m.completed().len() as int));
}

} // verus!
