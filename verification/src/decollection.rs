//! Ingestion: per-endpoint decoder streams and their buffers.
//!
//! A [`DeCollectionStream`] is one live decoder bound to one destination
//! collection: it turns raw bytes into weighted rows held in an internal
//! buffer, and `flush` dispatches the buffer into the destination.  A
//! decoding failure leaves the stream usable for the next call, and
//! `fork` yields an independent stream writing into the same
//! destination, so concurrent producers need not synchronize on every
//! row.

use vstd::prelude::*;
use crate::error::ControllerError;
use crate::json::{
    deserialize_record, deserialize_record_spec, deserialize_row_spec, deserialize_row, JsonColumn,
};
use crate::zset::{l1_norm, ZEntryV, ZSet};

verus! {

/// Record formats the pipeline can speak; extended by adding a variant
/// and a provider.
#[derive(Debug, Clone, Copy, PartialEq, Eq, Structural)]
pub enum RecordFormat {
    Json,
    Csv,
}

/// One live decoder bound to one destination collection.
#[derive(Debug)]
pub struct DeCollectionStream {
    /// The name of the destination collection in the circuit.
    pub dest: String,
    /// The column bindings of the destination collection.
    pub schema: Vec<JsonColumn>,
    /// Decoded but not yet dispatched weighted rows.
    pub buffer: ZSet,
}

impl DeCollectionStream {
    /// Every buffered row was decoded with weight `+1` or `-1`, so the
    /// buffer's mass is its length.
    pub open spec fn wf(self) -> bool {
        self.buffer.wf() && l1_norm(self.buffer@) == self.buffer@.len()
    }

    /// A fresh decoder for the given destination and schema.
    pub fn new(dest: &str, schema: Vec<JsonColumn>) -> (r: Self)
        ensures
            r.dest@ == dest@,
            r.schema == schema,
            r.buffer@ == Seq::<ZEntryV>::empty(),
            r.wf(),
    {
        DeCollectionStream { dest: dest.to_owned(), schema, buffer: ZSet::new() }
    }

    /// How many decoded rows wait in the buffer.
    pub fn buffered(&self) -> (n: usize)
        ensures
            n == self.buffer@.len(),
    {
        self.buffer.len()
    }

    /// Decode one record and buffer it with the given weight.
    fn push_decoded(&mut self, data: &[u8], weight: i64) -> (r: Result<(), ControllerError>)
        requires
            old(self).wf(),
            old(self).buffer@.len() < i64::MAX as int,
            weight == 1 || weight == -1,
        ensures
            final (self).dest == old(self).dest,
            final (self).schema == old(self).schema,
            final (self).wf(),
            match deserialize_row_spec(data@, old(self).schema.deep_view()) {
                Some(row) => r is Ok && final (self).buffer@ == old(self).buffer@.push(
                    (row, weight as int),
                ),
                None => (r matches Err(e) && e matches ControllerError::ParseError { .. })
                    && final (self).buffer@ == old(self).buffer@,
            },
    {
        match deserialize_row(data, &self.schema) {
            Some(row) => {
                self.buffer.push_weighted(row, weight);
                proof {
                    assert(self.buffer@.drop_last() =~= old(self).buffer@);
                }
                Ok(())
            },
            None => Err(
                ControllerError::parse_error("", "malformed JSON record for the stream schema"),
            ),
        }
    }

    /// Decode one record and buffer it as an insertion (weight `+1`).
    /// A failure leaves the buffer exactly as it was: errors never
    /// poison subsequent calls.
    pub fn insert(&mut self, data: &[u8]) -> (r: Result<(), ControllerError>)
        requires
            old(self).wf(),
            old(self).buffer@.len() < i64::MAX as int,
        ensures
            final (self).dest == old(self).dest,
            final (self).schema == old(self).schema,
            final (self).wf(),
            match deserialize_row_spec(data@, old(self).schema.deep_view()) {
                Some(row) => r is Ok && final (self).buffer@ == old(self).buffer@.push((row, 1)),
                None => (r matches Err(e) && e matches ControllerError::ParseError { .. })
                    && final (self).buffer@ == old(self).buffer@,
            },
    {
        self.push_decoded(data, 1)
    }

    /// Decode one record and buffer it as a deletion (weight `-1`).
    /// A failure leaves the buffer exactly as it was.
    pub fn delete(&mut self, data: &[u8]) -> (r: Result<(), ControllerError>)
        requires
            old(self).wf(),
            old(self).buffer@.len() < i64::MAX as int,
        ensures
            final (self).dest == old(self).dest,
            final (self).schema == old(self).schema,
            final (self).wf(),
            match deserialize_row_spec(data@, old(self).schema.deep_view()) {
                Some(row) => r is Ok && final (self).buffer@ == old(self).buffer@.push((row, -1)),
                None => (r matches Err(e) && e matches ControllerError::ParseError { .. })
                    && final (self).buffer@ == old(self).buffer@,
            },
    {
        self.push_decoded(data, -1)
    }

    /// Decode one verb-carrying record and buffer it with the weight
    /// its verb picks: `+1` for `"insert"`, `-1` for `"delete"`.  A
    /// failure leaves the buffer exactly as it was.
    pub fn ingest_record(&mut self, data: &[u8]) -> (r: Result<(), ControllerError>)
        requires
            old(self).wf(),
            old(self).buffer@.len() < i64::MAX as int,
        ensures
            final (self).dest == old(self).dest,
            final (self).schema == old(self).schema,
            final (self).wf(),
            match deserialize_record_spec(data@, old(self).schema.deep_view()) {
                Some((ins, row)) => r is Ok && final (self).buffer@ == old(self).buffer@.push(
                    (
                        row,
                        if ins {
                            1int
                        } else {
                            -1int
                        },
                    ),
                ),
                None => (r matches Err(e) && e matches ControllerError::ParseError { .. })
                    && final (self).buffer@ == old(self).buffer@,
            },
    {
        match deserialize_record(data, &self.schema) {
            Some((ins, row)) => {
                let w: i64 = if ins {
                    1
                } else {
                    -1
                };
                self.buffer.push_weighted(row, w);
                proof {
                    assert(self.buffer@.drop_last() =~= old(self).buffer@);
                }
                Ok(())
            },
            None => Err(
                ControllerError::parse_error("", "malformed JSON record for the stream schema"),
            ),
        }
    }

    /// Sizing hint for the internal buffer; advisory only, the buffer
    /// grows on demand.
    pub fn reserve(&mut self, reservation: usize)
        ensures
            *final (self) == *old(self),
    {
        let _ = reservation;
    }

    /// Dispatch all buffered weighted rows into the destination,
    /// making them visible to the next step.  Idempotent on an empty
    /// buffer.
    pub fn flush(&mut self, dest: &mut ZSet)
        requires
            old(self).wf(),
            old(dest).wf(),
            l1_norm(old(dest)@) + l1_norm(old(self).buffer@) <= i64::MAX as int,
        ensures
            final (self).dest == old(self).dest,
            final (self).schema == old(self).schema,
            final (self).buffer@ == Seq::<ZEntryV>::empty(),
            final (self).wf(),
            final (dest)@ == old(dest)@ + old(self).buffer@,
            final (dest).wf(),
    {
        dest.add(&self.buffer);
        self.buffer = ZSet::new();
    }

    /// Discard buffered but undispatched rows without dispatching them.
    pub fn clear_buffer(&mut self)
        ensures
            final (self).dest == old(self).dest,
            final (self).schema == old(self).schema,
            final (self).buffer@ == Seq::<ZEntryV>::empty(),
            final (self).wf(),
    {
        self.buffer = ZSet::new();
    }

    /// An independent stream with its own empty buffer, writing into
    /// the same destination collection.  Weight contributions from
    /// forked streams accumulate commutatively, whatever the flush
    /// order.
    pub fn fork(&self) -> (r: Self)
        ensures
            r.dest == self.dest,
            r.schema.deep_view() == self.schema.deep_view(),
            r.buffer@ == Seq::<ZEntryV>::empty(),
            r.wf(),
    {
        let schema = clone_columns(&self.schema);
        DeCollectionStream { dest: self.dest.clone(), schema, buffer: ZSet::new() }
    }
}

/// Copy a column binding list; the copy carries the same model.
pub fn clone_columns(cols: &Vec<JsonColumn>) -> (r: Vec<JsonColumn>)
    ensures
        r.deep_view() == cols.deep_view(),
{
    let mut r: Vec<JsonColumn> = Vec::new();
    let n = cols.len();
    for i in 0..n
        invariant
            n == cols@.len(),
            r@.len() == i,
            forall|j: int| 0 <= j < i ==> (#[trigger] r@[j])@ == cols@[j]@,
    {
        r.push(cols[i].clone());
    }
    proof {
        assert(r.deep_view() =~= cols.deep_view());
    }
    r
}

/// The per-stream handle the circuit hands out: the destination's name
/// and its column bindings, from which JSON decoders are configured.
#[derive(Debug)]
pub struct JsonZSetHandle {
    pub stream: String,
    pub columns: Vec<JsonColumn>,
}

impl JsonZSetHandle {
    pub fn new(stream: &str, columns: Vec<JsonColumn>) -> (r: Self)
        ensures
            r.stream@ == stream@,
            r.columns == columns,
    {
        JsonZSetHandle { stream: stream.to_owned(), columns }
    }
}

/// A per-endpoint handle binding a record format to a concrete decoder.
#[derive(Debug)]
pub struct DeZSetHandles {
    pub json: JsonZSetHandle,
}

impl DeZSetHandles {
    pub fn new(json: JsonZSetHandle) -> (r: Self)
        ensures
            r.json == json,
    {
        DeZSetHandles { json }
    }

    /// A decoder stream for the requested format.  A format without a
    /// decoder for this schema is rejected with a format error, never a
    /// panic.
    pub fn configure_deserializer(&self, record_format: RecordFormat) -> (r: Result<
        DeCollectionStream,
        ControllerError,
    >)
        ensures
            match record_format {
                RecordFormat::Json => {
                    &&& r matches Ok(ds)
                    &&& ds.dest@ == self.json.stream@
                    &&& ds.schema.deep_view() == self.json.columns.deep_view()
                    &&& ds.buffer@ == Seq::<ZEntryV>::empty()
                    &&& ds.wf()
                },
                RecordFormat::Csv => r matches Err(
                    ControllerError::Config {
                        config_error: crate::error::ConfigError::UnknownInputFormat {
                            format_name: f,
                        },
                    },
                ) && f@ == "csv"@,
            },
    {
        match record_format {
            RecordFormat::Json => {
                let columns = clone_columns(&self.json.columns);
                Ok(DeCollectionStream::new(self.json.stream.as_str(), columns))
            },
            RecordFormat::Csv => Err(ControllerError::unknown_input_format("csv")),
        }
    }
}

} // verus!
