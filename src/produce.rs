//! The produce message: writing record batches to partitions.
use crate::compose::{get, gate_encoding, lemma_concat_assoc, opt_model, put, put_versioned, Versioned};
use crate::error::Error;
use crate::wire::{Parsed, WireRead, WireWrite, Wired};
use crate::records::RecordBatch;
use crate::topics::TopicMap;
use vstd::prelude::*;

verus! {

/// The records for one partition.
pub struct ProducePart {
    pub partition: i32,
    pub record_set: RecordBatch,
}

/// The fields of a `ProducePart`, in wire order.
pub type ProducePartLayout = (i32, RecordBatch);

impl Wired for ProducePart {
    type Model = <ProducePartLayout as Wired>::Model;

    open spec fn model(&self) -> Self::Model {
        (self.partition.model(), self.record_set.model())
    }

    open spec fn writable(m: Self::Model, version: nat, compact: bool) -> bool {
        <ProducePartLayout as Wired>::writable(m, version, compact)
    }

    open spec fn canonical(m: Self::Model, version: nat, compact: bool) -> bool {
        <ProducePartLayout as Wired>::canonical(m, version, compact)
    }

    open spec fn encoding(m: Self::Model, version: nat, compact: bool) -> Seq<u8> {
        <ProducePartLayout as Wired>::encoding(m, version, compact)
    }

    open spec fn parse(data: Seq<u8>, version: nat, compact: bool) -> Parsed<Self::Model> {
        <ProducePartLayout as Wired>::parse(data, version, compact)
    }

    proof fn lemma_round_trip(m: Self::Model, version: nat, compact: bool, rest: Seq<u8>) {
        <ProducePartLayout as Wired>::lemma_round_trip(m, version, compact, rest);
    }

    fn to_wire(&self, wire: &mut WireWrite) {
        self.put_fields(wire, false)
    }

    fn from_wire(wire: &mut WireRead) -> (r: Result<Self, Error>) {
        Self::get_fields(wire, false)
    }

    fn to_wire_compact(&self, wire: &mut WireWrite) {
        self.put_fields(wire, true)
    }

    fn from_wire_compact(wire: &mut WireRead) -> (r: Result<Self, Error>) {
        Self::get_fields(wire, true)
    }
}

impl ProducePart {
    fn put_fields(&self, wire: &mut WireWrite, compact: bool)
        requires
            Self::writable(self.model(), old(wire).version as nat, compact),
            old(wire).has_room(Self::encoding(self.model(), old(wire).version as nat, compact).len()),
        ensures
            final(wire).version == old(wire).version,
            final(wire).bytes() == old(wire).bytes() + Self::encoding(
                self.model(),
                old(wire).version as nat,
                compact,
            ),
    {
        let ghost v = wire.version as nat;
        let ghost w0 = wire.bytes();
        proof {
            assert(<(i32, RecordBatch) as Wired>::encoding((self.partition.model(), self.record_set.model()), v, compact) === <i32 as Wired>::encoding(self.partition.model(), v, compact) + <RecordBatch as Wired>::encoding(self.record_set.model(), v, compact));
        }
        put(&self.partition, wire, compact);
        let ghost w1 = wire.bytes();
        put(&self.record_set, wire, compact);
        let ghost w2 = wire.bytes();
        proof {
            lemma_concat_assoc(w0, <i32 as Wired>::encoding(self.partition.model(), v, compact), <RecordBatch as Wired>::encoding(self.record_set.model(), v, compact));
        }
    }

    fn get_fields(wire: &mut WireRead, compact: bool) -> (r: Result<Self, Error>)
        ensures
            final(wire).version == old(wire).version,
            match Self::parse(old(wire).rest(), old(wire).version as nat, compact) {
                Ok((m, n)) => (r matches Ok(x) && x.model() == m) && n <= old(wire).rest().len()
                    && final(wire).rest() == old(wire).rest().skip(n as int),
                Err(e) => r == Err::<Self, Error>(e),
            },
    {
        let (f_partition, f_record_set) = get::<ProducePartLayout>(wire, compact)?;
        Ok(ProducePart { partition: f_partition, record_set: f_record_set })
    }
}

/// A record of a batch that could not be written.
pub struct ProduceResponseBatchErrorItem {
    pub batch_index: i32,
    pub batch_index_error_msg: Option<String>,
}

/// The fields of a `ProduceResponseBatchErrorItem`, in wire order.
pub type ProduceResponseBatchErrorItemLayout = (i32, Option<String>);

impl Wired for ProduceResponseBatchErrorItem {
    type Model = <ProduceResponseBatchErrorItemLayout as Wired>::Model;

    open spec fn model(&self) -> Self::Model {
        (self.batch_index.model(), self.batch_index_error_msg.model())
    }

    open spec fn writable(m: Self::Model, version: nat, compact: bool) -> bool {
        <ProduceResponseBatchErrorItemLayout as Wired>::writable(m, version, compact)
    }

    open spec fn canonical(m: Self::Model, version: nat, compact: bool) -> bool {
        <ProduceResponseBatchErrorItemLayout as Wired>::canonical(m, version, compact)
    }

    open spec fn encoding(m: Self::Model, version: nat, compact: bool) -> Seq<u8> {
        <ProduceResponseBatchErrorItemLayout as Wired>::encoding(m, version, compact)
    }

    open spec fn parse(data: Seq<u8>, version: nat, compact: bool) -> Parsed<Self::Model> {
        <ProduceResponseBatchErrorItemLayout as Wired>::parse(data, version, compact)
    }

    proof fn lemma_round_trip(m: Self::Model, version: nat, compact: bool, rest: Seq<u8>) {
        <ProduceResponseBatchErrorItemLayout as Wired>::lemma_round_trip(m, version, compact, rest);
    }

    fn to_wire(&self, wire: &mut WireWrite) {
        self.put_fields(wire, false)
    }

    fn from_wire(wire: &mut WireRead) -> (r: Result<Self, Error>) {
        Self::get_fields(wire, false)
    }

    fn to_wire_compact(&self, wire: &mut WireWrite) {
        self.put_fields(wire, true)
    }

    fn from_wire_compact(wire: &mut WireRead) -> (r: Result<Self, Error>) {
        Self::get_fields(wire, true)
    }
}

impl ProduceResponseBatchErrorItem {
    fn put_fields(&self, wire: &mut WireWrite, compact: bool)
        requires
            Self::writable(self.model(), old(wire).version as nat, compact),
            old(wire).has_room(Self::encoding(self.model(), old(wire).version as nat, compact).len()),
        ensures
            final(wire).version == old(wire).version,
            final(wire).bytes() == old(wire).bytes() + Self::encoding(
                self.model(),
                old(wire).version as nat,
                compact,
            ),
    {
        let ghost v = wire.version as nat;
        let ghost w0 = wire.bytes();
        proof {
            assert(<(i32, Option<String>) as Wired>::encoding((self.batch_index.model(), self.batch_index_error_msg.model()), v, compact) === <i32 as Wired>::encoding(self.batch_index.model(), v, compact) + <Option<String> as Wired>::encoding(self.batch_index_error_msg.model(), v, compact));
        }
        put(&self.batch_index, wire, compact);
        let ghost w1 = wire.bytes();
        put(&self.batch_index_error_msg, wire, compact);
        let ghost w2 = wire.bytes();
        proof {
            lemma_concat_assoc(w0, <i32 as Wired>::encoding(self.batch_index.model(), v, compact), <Option<String> as Wired>::encoding(self.batch_index_error_msg.model(), v, compact));
        }
    }

    fn get_fields(wire: &mut WireRead, compact: bool) -> (r: Result<Self, Error>)
        ensures
            final(wire).version == old(wire).version,
            match Self::parse(old(wire).rest(), old(wire).version as nat, compact) {
                Ok((m, n)) => (r matches Ok(x) && x.model() == m) && n <= old(wire).rest().len()
                    && final(wire).rest() == old(wire).rest().skip(n as int),
                Err(e) => r == Err::<Self, Error>(e),
            },
    {
        let (f_batch_index, f_batch_index_error_msg) = get::<ProduceResponseBatchErrorItemLayout>(wire, compact)?;
        Ok(ProduceResponseBatchErrorItem { batch_index: f_batch_index, batch_index_error_msg: f_batch_index_error_msg })
    }
}

/// The outcome for one partition.
pub struct ProduceResponsePartition {
    pub partition: i32,
    pub error_code: i16,
    pub base_offset: i64,
    /// On the wire from version 2.
    pub log_append_time: Option<i64>,
    /// On the wire from version 5.
    pub log_start_offset: Option<i64>,
    /// On the wire from version 8.
    pub record_errors: Option<Vec<ProduceResponseBatchErrorItem>>,
    /// On the wire from version 8.
    pub error_message: Option<Option<String>>,
}

/// The fields of a `ProduceResponsePartition`, in wire order.
pub type ProduceResponsePartitionLayout = (i32, (i16, (i64, (Versioned<i64, 2>, (Versioned<i64, 5>, (Versioned<Vec<ProduceResponseBatchErrorItem>, 8>, Versioned<Option<String>, 8>))))));

impl Wired for ProduceResponsePartition {
    type Model = <ProduceResponsePartitionLayout as Wired>::Model;

    open spec fn model(&self) -> Self::Model {
        (self.partition.model(), (self.error_code.model(), (self.base_offset.model(), (opt_model(self.log_append_time), (opt_model(self.log_start_offset), (opt_model(self.record_errors), opt_model(self.error_message)))))))
    }

    open spec fn writable(m: Self::Model, version: nat, compact: bool) -> bool {
        <ProduceResponsePartitionLayout as Wired>::writable(m, version, compact)
    }

    open spec fn canonical(m: Self::Model, version: nat, compact: bool) -> bool {
        <ProduceResponsePartitionLayout as Wired>::canonical(m, version, compact)
    }

    open spec fn encoding(m: Self::Model, version: nat, compact: bool) -> Seq<u8> {
        <ProduceResponsePartitionLayout as Wired>::encoding(m, version, compact)
    }

    open spec fn parse(data: Seq<u8>, version: nat, compact: bool) -> Parsed<Self::Model> {
        <ProduceResponsePartitionLayout as Wired>::parse(data, version, compact)
    }

    proof fn lemma_round_trip(m: Self::Model, version: nat, compact: bool, rest: Seq<u8>) {
        <ProduceResponsePartitionLayout as Wired>::lemma_round_trip(m, version, compact, rest);
    }

    fn to_wire(&self, wire: &mut WireWrite) {
        self.put_fields(wire, false)
    }

    fn from_wire(wire: &mut WireRead) -> (r: Result<Self, Error>) {
        Self::get_fields(wire, false)
    }

    fn to_wire_compact(&self, wire: &mut WireWrite) {
        self.put_fields(wire, true)
    }

    fn from_wire_compact(wire: &mut WireRead) -> (r: Result<Self, Error>) {
        Self::get_fields(wire, true)
    }
}

impl ProduceResponsePartition {
    fn put_fields(&self, wire: &mut WireWrite, compact: bool)
        requires
            Self::writable(self.model(), old(wire).version as nat, compact),
            old(wire).has_room(Self::encoding(self.model(), old(wire).version as nat, compact).len()),
        ensures
            final(wire).version == old(wire).version,
            final(wire).bytes() == old(wire).bytes() + Self::encoding(
                self.model(),
                old(wire).version as nat,
                compact,
            ),
    {
        let ghost v = wire.version as nat;
        let ghost w0 = wire.bytes();
        proof {
            assert(<(i32, (i16, (i64, (Versioned<i64, 2>, (Versioned<i64, 5>, (Versioned<Vec<ProduceResponseBatchErrorItem>, 8>, Versioned<Option<String>, 8>)))))) as Wired>::encoding((self.partition.model(), (self.error_code.model(), (self.base_offset.model(), (opt_model(self.log_append_time), (opt_model(self.log_start_offset), (opt_model(self.record_errors), opt_model(self.error_message))))))), v, compact) === <i32 as Wired>::encoding(self.partition.model(), v, compact) + <(i16, (i64, (Versioned<i64, 2>, (Versioned<i64, 5>, (Versioned<Vec<ProduceResponseBatchErrorItem>, 8>, Versioned<Option<String>, 8>))))) as Wired>::encoding((self.error_code.model(), (self.base_offset.model(), (opt_model(self.log_append_time), (opt_model(self.log_start_offset), (opt_model(self.record_errors), opt_model(self.error_message)))))), v, compact));
            assert(<(i16, (i64, (Versioned<i64, 2>, (Versioned<i64, 5>, (Versioned<Vec<ProduceResponseBatchErrorItem>, 8>, Versioned<Option<String>, 8>))))) as Wired>::encoding((self.error_code.model(), (self.base_offset.model(), (opt_model(self.log_append_time), (opt_model(self.log_start_offset), (opt_model(self.record_errors), opt_model(self.error_message)))))), v, compact) === <i16 as Wired>::encoding(self.error_code.model(), v, compact) + <(i64, (Versioned<i64, 2>, (Versioned<i64, 5>, (Versioned<Vec<ProduceResponseBatchErrorItem>, 8>, Versioned<Option<String>, 8>)))) as Wired>::encoding((self.base_offset.model(), (opt_model(self.log_append_time), (opt_model(self.log_start_offset), (opt_model(self.record_errors), opt_model(self.error_message))))), v, compact));
            assert(<(i64, (Versioned<i64, 2>, (Versioned<i64, 5>, (Versioned<Vec<ProduceResponseBatchErrorItem>, 8>, Versioned<Option<String>, 8>)))) as Wired>::encoding((self.base_offset.model(), (opt_model(self.log_append_time), (opt_model(self.log_start_offset), (opt_model(self.record_errors), opt_model(self.error_message))))), v, compact) === <i64 as Wired>::encoding(self.base_offset.model(), v, compact) + <(Versioned<i64, 2>, (Versioned<i64, 5>, (Versioned<Vec<ProduceResponseBatchErrorItem>, 8>, Versioned<Option<String>, 8>))) as Wired>::encoding((opt_model(self.log_append_time), (opt_model(self.log_start_offset), (opt_model(self.record_errors), opt_model(self.error_message)))), v, compact));
            assert(<(Versioned<i64, 2>, (Versioned<i64, 5>, (Versioned<Vec<ProduceResponseBatchErrorItem>, 8>, Versioned<Option<String>, 8>))) as Wired>::encoding((opt_model(self.log_append_time), (opt_model(self.log_start_offset), (opt_model(self.record_errors), opt_model(self.error_message)))), v, compact) === gate_encoding::<i64>(opt_model(self.log_append_time), 2, None::<nat>, v, compact) + <(Versioned<i64, 5>, (Versioned<Vec<ProduceResponseBatchErrorItem>, 8>, Versioned<Option<String>, 8>)) as Wired>::encoding((opt_model(self.log_start_offset), (opt_model(self.record_errors), opt_model(self.error_message))), v, compact));
            assert(<(Versioned<i64, 5>, (Versioned<Vec<ProduceResponseBatchErrorItem>, 8>, Versioned<Option<String>, 8>)) as Wired>::encoding((opt_model(self.log_start_offset), (opt_model(self.record_errors), opt_model(self.error_message))), v, compact) === gate_encoding::<i64>(opt_model(self.log_start_offset), 5, None::<nat>, v, compact) + <(Versioned<Vec<ProduceResponseBatchErrorItem>, 8>, Versioned<Option<String>, 8>) as Wired>::encoding((opt_model(self.record_errors), opt_model(self.error_message)), v, compact));
            assert(<(Versioned<Vec<ProduceResponseBatchErrorItem>, 8>, Versioned<Option<String>, 8>) as Wired>::encoding((opt_model(self.record_errors), opt_model(self.error_message)), v, compact) === gate_encoding::<Vec<ProduceResponseBatchErrorItem>>(opt_model(self.record_errors), 8, None::<nat>, v, compact) + <Versioned<Option<String>, 8> as Wired>::encoding(opt_model(self.error_message), v, compact));
        }
        put(&self.partition, wire, compact);
        let ghost w1 = wire.bytes();
        put(&self.error_code, wire, compact);
        let ghost w2 = wire.bytes();
        put(&self.base_offset, wire, compact);
        let ghost w3 = wire.bytes();
        put_versioned(&self.log_append_time, 2, None, wire, compact);
        let ghost w4 = wire.bytes();
        put_versioned(&self.log_start_offset, 5, None, wire, compact);
        let ghost w5 = wire.bytes();
        put_versioned(&self.record_errors, 8, None, wire, compact);
        let ghost w6 = wire.bytes();
        put_versioned(&self.error_message, 8, None, wire, compact);
        let ghost w7 = wire.bytes();
        proof {
            lemma_concat_assoc(w5, gate_encoding::<Vec<ProduceResponseBatchErrorItem>>(opt_model(self.record_errors), 8, None::<nat>, v, compact), <Versioned<Option<String>, 8> as Wired>::encoding(opt_model(self.error_message), v, compact));
            lemma_concat_assoc(w4, gate_encoding::<i64>(opt_model(self.log_start_offset), 5, None::<nat>, v, compact), <(Versioned<Vec<ProduceResponseBatchErrorItem>, 8>, Versioned<Option<String>, 8>) as Wired>::encoding((opt_model(self.record_errors), opt_model(self.error_message)), v, compact));
            lemma_concat_assoc(w3, gate_encoding::<i64>(opt_model(self.log_append_time), 2, None::<nat>, v, compact), <(Versioned<i64, 5>, (Versioned<Vec<ProduceResponseBatchErrorItem>, 8>, Versioned<Option<String>, 8>)) as Wired>::encoding((opt_model(self.log_start_offset), (opt_model(self.record_errors), opt_model(self.error_message))), v, compact));
            lemma_concat_assoc(w2, <i64 as Wired>::encoding(self.base_offset.model(), v, compact), <(Versioned<i64, 2>, (Versioned<i64, 5>, (Versioned<Vec<ProduceResponseBatchErrorItem>, 8>, Versioned<Option<String>, 8>))) as Wired>::encoding((opt_model(self.log_append_time), (opt_model(self.log_start_offset), (opt_model(self.record_errors), opt_model(self.error_message)))), v, compact));
            lemma_concat_assoc(w1, <i16 as Wired>::encoding(self.error_code.model(), v, compact), <(i64, (Versioned<i64, 2>, (Versioned<i64, 5>, (Versioned<Vec<ProduceResponseBatchErrorItem>, 8>, Versioned<Option<String>, 8>)))) as Wired>::encoding((self.base_offset.model(), (opt_model(self.log_append_time), (opt_model(self.log_start_offset), (opt_model(self.record_errors), opt_model(self.error_message))))), v, compact));
            lemma_concat_assoc(w0, <i32 as Wired>::encoding(self.partition.model(), v, compact), <(i16, (i64, (Versioned<i64, 2>, (Versioned<i64, 5>, (Versioned<Vec<ProduceResponseBatchErrorItem>, 8>, Versioned<Option<String>, 8>))))) as Wired>::encoding((self.error_code.model(), (self.base_offset.model(), (opt_model(self.log_append_time), (opt_model(self.log_start_offset), (opt_model(self.record_errors), opt_model(self.error_message)))))), v, compact));
        }
    }

    fn get_fields(wire: &mut WireRead, compact: bool) -> (r: Result<Self, Error>)
        ensures
            final(wire).version == old(wire).version,
            match Self::parse(old(wire).rest(), old(wire).version as nat, compact) {
                Ok((m, n)) => (r matches Ok(x) && x.model() == m) && n <= old(wire).rest().len()
                    && final(wire).rest() == old(wire).rest().skip(n as int),
                Err(e) => r == Err::<Self, Error>(e),
            },
    {
        let (f_partition, (f_error_code, (f_base_offset, (f_log_append_time, (f_log_start_offset, (f_record_errors, f_error_message)))))) = get::<ProduceResponsePartitionLayout>(wire, compact)?;
        Ok(ProduceResponsePartition { partition: f_partition, error_code: f_error_code, base_offset: f_base_offset, log_append_time: f_log_append_time.0, log_start_offset: f_log_start_offset.0, record_errors: f_record_errors.0, error_message: f_error_message.0 })
    }
}

/// The produce response.
pub struct Response {
    pub responses: TopicMap<ProduceResponsePartition>,
    /// On the wire from version 1.
    pub throttle_ms: Option<i32>,
}

/// The fields of a `Response`, in wire order.
pub type ResponseLayout = (TopicMap<ProduceResponsePartition>, Versioned<i32, 1>);

impl Wired for Response {
    type Model = <ResponseLayout as Wired>::Model;

    open spec fn model(&self) -> Self::Model {
        (self.responses.model(), opt_model(self.throttle_ms))
    }

    open spec fn writable(m: Self::Model, version: nat, compact: bool) -> bool {
        <ResponseLayout as Wired>::writable(m, version, compact)
    }

    open spec fn canonical(m: Self::Model, version: nat, compact: bool) -> bool {
        <ResponseLayout as Wired>::canonical(m, version, compact)
    }

    open spec fn encoding(m: Self::Model, version: nat, compact: bool) -> Seq<u8> {
        <ResponseLayout as Wired>::encoding(m, version, compact)
    }

    open spec fn parse(data: Seq<u8>, version: nat, compact: bool) -> Parsed<Self::Model> {
        <ResponseLayout as Wired>::parse(data, version, compact)
    }

    proof fn lemma_round_trip(m: Self::Model, version: nat, compact: bool, rest: Seq<u8>) {
        <ResponseLayout as Wired>::lemma_round_trip(m, version, compact, rest);
    }

    fn to_wire(&self, wire: &mut WireWrite) {
        self.put_fields(wire, false)
    }

    fn from_wire(wire: &mut WireRead) -> (r: Result<Self, Error>) {
        Self::get_fields(wire, false)
    }

    fn to_wire_compact(&self, wire: &mut WireWrite) {
        self.put_fields(wire, true)
    }

    fn from_wire_compact(wire: &mut WireRead) -> (r: Result<Self, Error>) {
        Self::get_fields(wire, true)
    }
}

impl Response {
    fn put_fields(&self, wire: &mut WireWrite, compact: bool)
        requires
            Self::writable(self.model(), old(wire).version as nat, compact),
            old(wire).has_room(Self::encoding(self.model(), old(wire).version as nat, compact).len()),
        ensures
            final(wire).version == old(wire).version,
            final(wire).bytes() == old(wire).bytes() + Self::encoding(
                self.model(),
                old(wire).version as nat,
                compact,
            ),
    {
        let ghost v = wire.version as nat;
        let ghost w0 = wire.bytes();
        proof {
            assert(<(TopicMap<ProduceResponsePartition>, Versioned<i32, 1>) as Wired>::encoding((self.responses.model(), opt_model(self.throttle_ms)), v, compact) === <TopicMap<ProduceResponsePartition> as Wired>::encoding(self.responses.model(), v, compact) + <Versioned<i32, 1> as Wired>::encoding(opt_model(self.throttle_ms), v, compact));
        }
        put(&self.responses, wire, compact);
        let ghost w1 = wire.bytes();
        put_versioned(&self.throttle_ms, 1, None, wire, compact);
        let ghost w2 = wire.bytes();
        proof {
            lemma_concat_assoc(w0, <TopicMap<ProduceResponsePartition> as Wired>::encoding(self.responses.model(), v, compact), <Versioned<i32, 1> as Wired>::encoding(opt_model(self.throttle_ms), v, compact));
        }
    }

    fn get_fields(wire: &mut WireRead, compact: bool) -> (r: Result<Self, Error>)
        ensures
            final(wire).version == old(wire).version,
            match Self::parse(old(wire).rest(), old(wire).version as nat, compact) {
                Ok((m, n)) => (r matches Ok(x) && x.model() == m) && n <= old(wire).rest().len()
                    && final(wire).rest() == old(wire).rest().skip(n as int),
                Err(e) => r == Err::<Self, Error>(e),
            },
    {
        let (f_responses, f_throttle_ms) = get::<ResponseLayout>(wire, compact)?;
        Ok(Response { responses: f_responses, throttle_ms: f_throttle_ms.0 })
    }
}

} // verus!
