//! The reconciliation loop's decisions, as a state machine.
//!
//! The dispatcher holds the last snapshot whose batch fully succeeded. Each
//! newly observed snapshot is compared with it by fingerprint; on a
//! difference the batch `diff(last, new)` is run one operation at a time.
//! The caller performs each operation it is handed and reports whether it
//! succeeded. A failure ends the batch at once and leaves the last
//! snapshot as it was, so that the next observed change recomputes the
//! whole outstanding diff. Only when every operation has succeeded does the
//! new snapshot become the last one.

use vstd::prelude::*;

use crate::diff::{OperationView, PluginOperation, diff, generate_operations, operations_view};
use crate::registry_snapshot::{RegistrySnapshot, lemma_fingerprint_order_independent};

verus! {

/// What the caller is to do next.
#[derive(Debug)]
pub enum DispatchStep {
    /// Perform this operation, then report whether it succeeded.
    Run(PluginOperation),
    /// Nothing to do until the next snapshot arrives.
    Idle,
}

/// A batch in flight: the snapshot it leads to, its operations and the
/// position of the one being performed.
#[derive(Debug)]
struct Batch {
    target: RegistrySnapshot,
    operations: Vec<PluginOperation>,
    next: usize,
}

/// The dispatcher's state: the last processed snapshot, and the batch in
/// flight if there is one.
#[derive(Debug)]
pub struct EventDispatcher {
    last_processed: RegistrySnapshot,
    batch: Option<Batch>,
}

impl EventDispatcher {
    /// The last snapshot whose batch fully succeeded.
    pub closed spec fn spec_last(&self) -> RegistrySnapshot {
        self.last_processed
    }

    /// Whether a batch is in flight.
    pub closed spec fn spec_busy(&self) -> bool {
        self.batch is Some
    }

    /// The snapshot that the batch in flight leads to.
    pub closed spec fn spec_target(&self) -> RegistrySnapshot {
        self.batch->Some_0.target
    }

    /// The operations of the batch in flight.
    pub closed spec fn spec_operations(&self) -> Seq<OperationView> {
        operations_view(self.batch->Some_0.operations@)
    }

    /// The position of the operation being performed.
    pub closed spec fn spec_next(&self) -> int {
        self.batch->Some_0.next as int
    }

    /// Well-formed: the snapshots are, and a batch in flight is performing
    /// one of its operations.
    pub open spec fn wf(&self) -> bool {
        &&& self.spec_last().wf()
        &&& self.spec_busy() ==> {
            &&& self.spec_target().wf()
            &&& 0 <= self.spec_next() < self.spec_operations().len()
        }
    }

    /// A dispatcher whose last processed snapshot is `initial`.
    pub fn new(initial: RegistrySnapshot) -> (r: EventDispatcher)
        requires
            initial.wf(),
        ensures
            r.wf(),
            !r.spec_busy(),
            r.spec_last() == initial,
    {
        EventDispatcher { last_processed: initial, batch: None }
    }

    /// The last snapshot whose batch fully succeeded.
    pub fn last_processed(&self) -> (r: &RegistrySnapshot)
        ensures
            *r == self.spec_last(),
    {
        &self.last_processed
    }

    /// Whether a batch is in flight.
    pub fn is_busy(&self) -> (r: bool)
        ensures
            r == self.spec_busy(),
    {
        self.batch.is_some()
    }

    /// Takes in a newly observed snapshot. With the last processed
    /// fingerprint it is discarded; otherwise the batch that leads to it
    /// starts with its first operation, or, when the batch is empty, the
    /// snapshot becomes the last processed one at once.
    pub fn receive(&mut self, snapshot: RegistrySnapshot) -> (r: DispatchStep)
        requires
            old(self).wf(),
            !old(self).spec_busy(),
            snapshot.wf(),
        ensures
            final(self).wf(),
            ({
                let ops = diff(old(self).spec_last().spec_registry(), snapshot.spec_registry());
                if snapshot.spec_hash() == old(self).spec_last().spec_hash() {
                    &&& r is Idle
                    &&& !final(self).spec_busy()
                    &&& final(self).spec_last() == old(self).spec_last()
                } else if ops.len() == 0 {
                    &&& r is Idle
                    &&& !final(self).spec_busy()
                    &&& final(self).spec_last() == snapshot
                } else {
                    &&& r is Run
                    &&& r->Run_0@ == ops[0]
                    &&& final(self).spec_busy()
                    &&& final(self).spec_last() == old(self).spec_last()
                    &&& final(self).spec_target() == snapshot
                    &&& final(self).spec_operations() == ops
                    &&& final(self).spec_next() == 0
                }
            }),
    {
        if snapshot.hash() == self.last_processed.hash() {
            return DispatchStep::Idle;
        }
        let operations = generate_operations(
            self.last_processed.registry(),
            snapshot.registry(),
        );
        if operations.len() == 0 {
            self.last_processed = snapshot;
            DispatchStep::Idle
        } else {
            let first = operations[0].duplicate();
            self.batch = Some(Batch { target: snapshot, operations, next: 0 });
            DispatchStep::Run(first)
        }
    }

    /// Takes in the outcome of the operation being performed. A failure
    /// ends the batch and keeps the last processed snapshot; a success moves
    /// on to the next operation, or, after the last one, makes the batch's
    /// snapshot the last processed one.
    pub fn report(&mut self, succeeded: bool) -> (r: DispatchStep)
        requires
            old(self).wf(),
            old(self).spec_busy(),
        ensures
            final(self).wf(),
            !succeeded ==> {
                &&& r is Idle
                &&& !final(self).spec_busy()
                &&& final(self).spec_last() == old(self).spec_last()
            },
            succeeded && old(self).spec_next() + 1 == old(self).spec_operations().len() ==> {
                &&& r is Idle
                &&& !final(self).spec_busy()
                &&& final(self).spec_last() == old(self).spec_target()
            },
            succeeded && old(self).spec_next() + 1 < old(self).spec_operations().len() ==> {
                &&& r is Run
                &&& r->Run_0@ == old(self).spec_operations()[old(self).spec_next() + 1]
                &&& final(self).spec_busy()
                &&& final(self).spec_last() == old(self).spec_last()
                &&& final(self).spec_target() == old(self).spec_target()
                &&& final(self).spec_operations() == old(self).spec_operations()
                &&& final(self).spec_next() == old(self).spec_next() + 1
            },
    {
        let ghost before = *self;
        let batch = self.batch.take();
        assert(batch == before.batch);
        match batch {
            None => DispatchStep::Idle,
            Some(batch) => {
                assert(batch.next < batch.operations.len()) by {
                    assert(before.spec_next() < before.spec_operations().len());
                }
                if !succeeded {
                    DispatchStep::Idle
                } else if batch.next + 1 == batch.operations.len() {
                    self.last_processed = batch.target;
                    DispatchStep::Idle
                } else {
                    let next = batch.next + 1;
                    let op = batch.operations[next].duplicate();
                    self.batch = Some(Batch { target: batch.target, operations: batch.operations, next });
                    DispatchStep::Run(op)
                }
            },
        }
    }
}

/// Snapshots of registries with the same plugins carry the same fingerprint,
/// so the dispatcher discards the second one without running anything.
pub proof fn lemma_same_plugins_same_fingerprint(a: RegistrySnapshot, b: RegistrySnapshot)
    requires
        a.wf(),
        b.wf(),
        a.spec_registry()@ == b.spec_registry()@,
    ensures
        a.spec_hash() == b.spec_hash(),
{
    lemma_fingerprint_order_independent(a.spec_registry(), b.spec_registry());
}

} // verus!
