//! The shared incognito flag.
//!
//! A single boolean owned jointly by the browser-side loop (sole writer,
//! through `init` messages) and the daemon-side receive loop (sole reader,
//! when answering heartbeats). Reads and writes are mutually exclusive, so
//! no reader can observe a torn update.

use vstd::prelude::*;

verus! {

use vstd::rwlock::RwLock;

/// Whether incognito/private relaying is currently permitted. Starts out
/// `false`. Guarded by a reader/writer lock; one value of the flag is either
/// fully stored or not stored at all.
pub struct IncognitoFlag {
    cell: RwLock<bool, spec_fn(bool) -> bool>,
}

impl IncognitoFlag {
    #[verifier::type_invariant]
    spec fn wf(&self) -> bool {
        forall|v: bool| self.cell.inv(v)
    }

    /// A fresh flag, cleared: incognito relaying starts out not permitted.
    pub fn new() -> (r: IncognitoFlag) {
        let cell = RwLock::new(false, Ghost(|v: bool| true));
        IncognitoFlag { cell }
    }

    /// The value most recently stored (by whichever writer got the lock
    /// last).
    pub fn get(&self) -> bool {
        proof {
            use_type_invariant(self);
        }
        let handle = self.cell.acquire_read();
        let v = *handle.borrow();
        handle.release_read();
        v
    }

    /// Stores a new value.
    pub fn set(&self, value: bool) {
        proof {
            use_type_invariant(self);
        }
        let (_previous, handle) = self.cell.acquire_write();
        handle.release_write(value);
    }
}

} // verus!
