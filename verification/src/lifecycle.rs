//! Process lifecycle discipline: a spawned plugin is terminated exactly
//! once, when its handle's lifetime ends.
//!
//! Spawning and killing are pipe-and-process work that the surrounding
//! application performs; this state machine is the rule it follows. The
//! handle's teardown calls [`ProcessLifecycle::on_teardown`]
//! unconditionally — whether the handle is dropped, the call failed, or an
//! unwind releases it — and the machine answers whether the kill is still
//! owed: true the first time, false ever after, so the process is always
//! terminated and never signalled twice.

use vstd::prelude::*;

verus! {

/// Whether the plugin process behind a handle has been terminated.
pub struct ProcessLifecycle {
    terminated: bool,
}

impl ProcessLifecycle {
    /// Whether termination has already been requested.
    pub closed spec fn is_terminated(self) -> bool {
        self.terminated
    }

    /// A handle over a freshly spawned process: not yet terminated.
    pub fn on_spawn() -> (lc: Self)
        ensures
            !lc.is_terminated(),
    {
        ProcessLifecycle { terminated: false }
    }

    /// The handle's lifetime ends. Returns whether the caller must now
    /// kill the process: exactly the first call answers true, so
    /// termination happens once, and once only.
    pub fn on_teardown(&mut self) -> (kill_owed: bool)
        ensures
            final(self).is_terminated(),
            kill_owed == !old(self).is_terminated(),
    {
        let owed = !self.terminated;
        self.terminated = true;
        owed
    }
}

} // verus!
