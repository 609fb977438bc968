//! What the application supplies.
use vstd::prelude::*;

use crate::app_record::{AppRecord, AppSnapshot};
use crate::error::{XraftError, XraftErrorView};

verus! {

/// What a result without a value says: success, or which error.
pub open spec fn outcome(r: Result<(), XraftError>) -> Result<(), XraftErrorView> {
    match r {
        Ok(_) => Ok(()),
        Err(e) => Err(e@),
    }
}

/// The user-supplied state machine driven by committed log entries.
///
/// The event loop invokes these methods in-process during commit processing,
/// before any I/O action is dispatched. They must be non-blocking and
/// inexpensive.
///
/// Only the payloads of command entries are surfaced here; control records
/// are filtered out by the protocol layer.
///
/// The specification functions say which steps an implementation may take.
/// Each implementation chooses them, and one that does not may take any; the
/// protocol layer states over them which calls it made, in which order and
/// with which arguments.
pub trait StateMachine: Send + 'static {
    open spec fn apply_step(
        &self,
        offset: u64,
        data: Seq<u8>,
        after: &Self,
        result: Result<(), XraftErrorView>,
    ) -> bool {
        true
    }

    /// Apply the record at `offset` to the state machine. Returning `Err` is
    /// treated as irrecoverable by the event loop (it calls
    /// `Listener::begin_shutdown` and halts the node).
    fn apply(&mut self, offset: u64, record: &AppRecord) -> (r: Result<(), XraftError>)
        ensures
            old(self).apply_step(offset, record@, final(self), outcome(r)),
    ;

    open spec fn snapshot_step(&self, result: Result<Seq<u8>, XraftErrorView>) -> bool {
        true
    }

    /// Produce a point-in-time snapshot of the current state.
    fn snapshot(&self) -> (r: Result<AppSnapshot, XraftError>)
        ensures
            self.snapshot_step(
                match r {
                    Ok(s) => Ok(s@),
                    Err(e) => Err(e@),
                },
            ),
    ;

    open spec fn restore_step(
        &self,
        data: Seq<u8>,
        after: &Self,
        result: Result<(), XraftErrorView>,
    ) -> bool {
        true
    }

    /// Replace current state with the contents of `snapshot`.
    fn restore(&mut self, snapshot: AppSnapshot) -> (r: Result<(), XraftError>)
        ensures
            old(self).restore_step(snapshot@, final(self), outcome(r)),
    ;
}

} // verus!
