//! A minimal circuit runtime for the controller to drive.
//!
//! The circuit owns one named collection per table.  Ingested deltas
//! accumulate in a per-stream `pending` Z-set via `append`; one `step`
//! atomically turns every pending Z-set into that stream's consolidated
//! output delta; `consolidate` hands a copy of the delta to the egress
//! path.  The set of stream names is the circuit's catalog, against
//! which endpoints are validated.

use vstd::prelude::*;
use crate::json::JsonColumn;
use crate::value::ValueV;
use crate::zset::{consolidated, l1_norm, weight_of, ZEntryV, ZSet};

verus! {

/// One named collection of the circuit.
#[derive(Debug)]
pub struct CircuitStream {
    /// The catalog name of the collection.
    pub name: String,
    /// Its column bindings, used to configure decoders.
    pub schema: Vec<JsonColumn>,
    /// Deltas appended since the last step.
    pub pending: ZSet,
    /// The consolidated output of the last step.
    pub delta: ZSet,
}

/// The circuit: a set of named collections and a kill switch.
#[derive(Debug)]
pub struct CircuitRuntime {
    pub streams: Vec<CircuitStream>,
    pub killed: bool,
}

impl CircuitRuntime {
    /// The circuit's catalog holds `name`.
    pub open spec fn has_stream(self, name: Seq<char>) -> bool {
        exists|i: int|
            0 <= i < self.streams@.len() && (#[trigger] self.streams@[i]).name@ == name
    }

    /// Stream names are distinct and every Z-set is well-formed.
    pub open spec fn wf(self) -> bool {
        &&& forall|i: int, j: int|
            0 <= i < j < self.streams@.len() ==> self.streams@[i].name@ != self.streams@[j].name@
        &&& forall|i: int|
            0 <= i < self.streams@.len() ==> (#[trigger] self.streams@[i]).pending.wf()
                && self.streams@[i].delta.wf()
    }

    /// An empty circuit.
    pub fn new() -> (r: Self)
        ensures
            r.streams@.len() == 0,
            !r.killed,
            r.wf(),
    {
        CircuitRuntime { streams: Vec::new(), killed: false }
    }

    /// Add one named collection with its column bindings.  Nothing
    /// changes when the name is already taken.
    pub fn add_stream(&mut self, name: &str, schema: Vec<JsonColumn>) -> (ok: bool)
        requires
            old(self).wf(),
        ensures
            final (self).wf(),
            final (self).killed == old(self).killed,
            ok == !old(self).has_stream(name@),
            !ok ==> *final (self) == *old(self),
            ok ==> {
                &&& final (self).streams@.len() == old(self).streams@.len() + 1
                &&& forall|i: int|
                    0 <= i < old(self).streams@.len() ==> final (self).streams@[i] == old(
                        self,
                    ).streams@[i]
                &&& final (self).streams@.last().name@ == name@
                &&& final (self).streams@.last().schema == schema
                &&& final (self).streams@.last().pending@ == Seq::<ZEntryV>::empty()
                &&& final (self).streams@.last().delta@ == Seq::<ZEntryV>::empty()
            },
    {
        if self.find_stream(name).is_some() {
            return false;
        }
        let stream = CircuitStream {
            name: name.to_owned(),
            schema,
            pending: ZSet::new(),
            delta: ZSet::new(),
        };
        self.streams.push(stream);
        true
    }

    /// The index of the collection called `name`, if any.
    pub fn find_stream(&self, name: &str) -> (r: Option<usize>)
        ensures
            match r {
                Some(i) => i < self.streams@.len() && self.streams@[i as int].name@ == name@,
                None => !self.has_stream(name@),
            },
    {
        let n = self.streams.len();
        for i in 0..n
            invariant
                n == self.streams@.len(),
                forall|j: int| 0 <= j < i ==> (#[trigger] self.streams@[j]).name@ != name@,
        {
            if self.streams[i].name == name.to_owned() {
                return Some(i);
            }
        }
        None
    }

    /// The catalog holds `name`.
    pub fn catalog_has(&self, name: &str) -> (r: bool)
        ensures
            r == self.has_stream(name@),
    {
        self.find_stream(name).is_some()
    }

    /// Append a batch of weighted rows to a collection's pending delta.
    /// It becomes visible to the next step, not to any earlier one.
    pub fn append(&mut self, i: usize, batch: &ZSet)
        requires
            old(self).wf(),
            !old(self).killed,
            i < old(self).streams@.len(),
            batch.wf(),
            l1_norm(old(self).streams@[i as int].pending@) + l1_norm(batch@) <= i64::MAX as int,
        ensures
            final (self).wf(),
            !final (self).killed,
            final (self).streams@.len() == old(self).streams@.len(),
            final (self).streams@[i as int].name == old(self).streams@[i as int].name,
            final (self).streams@[i as int].schema == old(self).streams@[i as int].schema,
            final (self).streams@[i as int].delta == old(self).streams@[i as int].delta,
            final (self).streams@[i as int].pending@ == old(self).streams@[i as int].pending@
                + batch@,
            final (self).streams@[i as int].pending.wf(),
            forall|j: int|
                0 <= j < old(self).streams@.len() && j != i ==> final (self).streams@[j] == old(
                    self,
                ).streams@[j],
    {
        self.streams[i].pending.add(batch);
        proof {
            assert forall|j: int|
                0 <= j < old(self).streams@.len() && j != i implies final (self).streams@[j]
                == old(self).streams@[j] by {}
        }
    }

    /// One atomic step: every collection's pending delta is consolidated
    /// into its output delta, and the pending side is emptied.  A row
    /// flushed before the step is visible in this step's output; nothing
    /// else is.
    pub fn step(&mut self) -> (ok: bool)
        requires
            old(self).wf(),
        ensures
            final (self).wf(),
            final (self).killed == old(self).killed,
            ok == !old(self).killed,
            !ok ==> *final (self) == *old(self),
            ok ==> {
                &&& final (self).streams@.len() == old(self).streams@.len()
                &&& forall|j: int|
                    0 <= j < old(self).streams@.len() ==> {
                        &&& (#[trigger] final (self).streams@[j]).name == old(
                            self,
                        ).streams@[j].name
                        &&& final (self).streams@[j].schema == old(self).streams@[j].schema
                        &&& final (self).streams@[j].pending@ == Seq::<ZEntryV>::empty()
                        &&& consolidated(final (self).streams@[j].delta@)
                        &&& final (self).streams@[j].delta.wf()
                        &&& forall|k: Seq<ValueV>|
                            #[trigger] weight_of(final (self).streams@[j].delta@, k) == weight_of(
                                old(self).streams@[j].pending@,
                                k,
                            )
                    }
            },
    {
        if self.killed {
            return false;
        }
        let n = self.streams.len();
        for i in 0..n
            invariant
                n == self.streams@.len() == old(self).streams@.len(),
                old(self).wf(),
                self.killed == old(self).killed,
                forall|j: int| i <= j < n ==> self.streams@[j] == old(self).streams@[j],
                forall|j: int|
                    0 <= j < i ==> {
                        &&& (#[trigger] self.streams@[j]).name == old(self).streams@[j].name
                        &&& self.streams@[j].schema == old(self).streams@[j].schema
                        &&& self.streams@[j].pending@ == Seq::<ZEntryV>::empty()
                        &&& self.streams@[j].pending.wf()
                        &&& consolidated(self.streams@[j].delta@)
                        &&& self.streams@[j].delta.wf()
                        &&& forall|k: Seq<ValueV>|
                            #[trigger] weight_of(self.streams@[j].delta@, k) == weight_of(
                                old(self).streams@[j].pending@,
                                k,
                            )
                    },
        {
            proof {
                assert(self.streams@[i as int] == old(self).streams@[i as int]);
                assert((old(self).streams@[i as int]).pending.wf());
            }
            let delta = self.streams[i].pending.consolidate();
            self.streams[i].delta = delta;
            self.streams[i].pending = ZSet::new();
        }
        true
    }

    /// A copy of a collection's output delta for the egress path.
    pub fn consolidate(&self, i: usize) -> (r: ZSet)
        requires
            i < self.streams@.len(),
        ensures
            r@ == self.streams@[i as int].delta@,
            r.mass_spec() == self.streams@[i as int].delta.mass_spec(),
    {
        self.streams[i].delta.clone()
    }

    /// Kill the circuit: no further append or step does anything.
    pub fn kill(&mut self)
        requires
            old(self).wf(),
        ensures
            final (self).killed,
            final (self).streams == old(self).streams,
            final (self).wf(),
    {
        self.killed = true;
    }
}

} // verus!
