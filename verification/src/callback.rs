use vstd::prelude::*;

verus! {

/// An instruction to the host: call the function it registered under
/// `target`, handing it `payload`. The host performs the call itself; a
/// failure there is swallowed at the boundary and never reaches the
/// instance that fired.
pub struct Delivery {
    pub target: i64,
    pub payload: Vec<u8>,
}

/// At most one host-supplied function reference per instance. Registering
/// replaces the previous reference; this is deliberately not a
/// multi-subscriber broadcast.
pub struct CallbackChannel {
    pub slot: Option<i64>,
}

impl CallbackChannel {
    /// A channel with no listener.
    pub fn new() -> (r: CallbackChannel)
        ensures
            r.slot is None,
    {
        CallbackChannel { slot: None }
    }

    /// Registers `target`, replacing any previous registration.
    pub fn register(&mut self, target: i64)
        ensures
            final(self).slot == Some(target),
    {
        self.slot = Some(target);
    }

    /// Drops the registration, if any.
    pub fn clear(&mut self)
        ensures
            final(self).slot is None,
    {
        self.slot = None;
    }

    /// Fires the channel: yields the delivery the host must perform, or
    /// nothing when no listener is registered — a silent no-op, not an
    /// error.
    pub fn fire(&self, payload: Vec<u8>) -> (r: Option<Delivery>)
        ensures
            match self.slot {
                Some(cb) => r matches Some(d) && d.target == cb && d.payload@ == payload@,
                None => r is None,
            },
    {
        match self.slot {
            Some(cb) => Some(Delivery { target: cb, payload }),
            None => None,
        }
    }
}

} // verus!
