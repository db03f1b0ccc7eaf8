//! Record batches: the unit in which records are produced and fetched.
use crate::compose::{get, lemma_concat_assoc, opt_model, put, put_versioned};
use crate::error::Error;
use crate::wire::{Parsed, WireRead, WireWrite, Wired};
use crate::varint::vint;
use bytes::Bytes;
use vstd::prelude::*;

verus! {

/// A key/value header of a record.
pub struct RecordHeader {
    pub key: String,
    pub value: Bytes,
}

/// The fields of a `RecordHeader`, in wire order.
pub type RecordHeaderLayout = (String, Bytes);

impl Wired for RecordHeader {
    type Model = <RecordHeaderLayout as Wired>::Model;

    open spec fn model(&self) -> Self::Model {
        (self.key.model(), self.value.model())
    }

    open spec fn writable(m: Self::Model, version: nat, compact: bool) -> bool {
        <RecordHeaderLayout as Wired>::writable(m, version, compact)
    }

    open spec fn canonical(m: Self::Model, version: nat, compact: bool) -> bool {
        <RecordHeaderLayout as Wired>::canonical(m, version, compact)
    }

    open spec fn encoding(m: Self::Model, version: nat, compact: bool) -> Seq<u8> {
        <RecordHeaderLayout as Wired>::encoding(m, version, compact)
    }

    open spec fn parse(data: Seq<u8>, version: nat, compact: bool) -> Parsed<Self::Model> {
        <RecordHeaderLayout as Wired>::parse(data, version, compact)
    }

    proof fn lemma_round_trip(m: Self::Model, version: nat, compact: bool, rest: Seq<u8>) {
        <RecordHeaderLayout as Wired>::lemma_round_trip(m, version, compact, rest);
    }

    fn to_wire(&self, wire: &mut WireWrite) {
        self.put_fields(wire, false)
    }

    fn from_wire(wire: &mut WireRead) -> (r: Result<Self, Error>) {
        Self::get_fields(wire, false)
    }

    fn to_wire_compact(&self, wire: &mut WireWrite) {
        self.put_fields(wire, true)
    }

    fn from_wire_compact(wire: &mut WireRead) -> (r: Result<Self, Error>) {
        Self::get_fields(wire, true)
    }
}

impl RecordHeader {
    fn put_fields(&self, wire: &mut WireWrite, compact: bool)
        requires
            Self::writable(self.model(), old(wire).version as nat, compact),
            old(wire).has_room(Self::encoding(self.model(), old(wire).version as nat, compact).len()),
        ensures
            final(wire).version == old(wire).version,
            final(wire).bytes() == old(wire).bytes() + Self::encoding(
                self.model(),
                old(wire).version as nat,
                compact,
            ),
    {
        let ghost v = wire.version as nat;
        let ghost w0 = wire.bytes();
        proof {
            assert(<(String, Bytes) as Wired>::encoding((self.key.model(), self.value.model()), v, compact) === <String as Wired>::encoding(self.key.model(), v, compact) + <Bytes as Wired>::encoding(self.value.model(), v, compact));
        }
        put(&self.key, wire, compact);
        let ghost w1 = wire.bytes();
        put(&self.value, wire, compact);
        let ghost w2 = wire.bytes();
        proof {
            lemma_concat_assoc(w0, <String as Wired>::encoding(self.key.model(), v, compact), <Bytes as Wired>::encoding(self.value.model(), v, compact));
        }
    }

    fn get_fields(wire: &mut WireRead, compact: bool) -> (r: Result<Self, Error>)
        ensures
            final(wire).version == old(wire).version,
            match Self::parse(old(wire).rest(), old(wire).version as nat, compact) {
                Ok((m, n)) => (r matches Ok(x) && x.model() == m) && n <= old(wire).rest().len()
                    && final(wire).rest() == old(wire).rest().skip(n as int),
                Err(e) => r == Err::<Self, Error>(e),
            },
    {
        let (f_key, f_value) = get::<RecordHeaderLayout>(wire, compact)?;
        Ok(RecordHeader { key: f_key, value: f_value })
    }
}

/// One record of a batch.
pub struct Record {
    pub len: vint,
    pub attrs: i8,
    pub timestamp_delta: vint,
    pub offset_delta: vint,
    pub key: Bytes,
    pub value: Bytes,
    pub headers: Vec<String>,
}

/// The fields of a `Record`, in wire order.
pub type RecordLayout = (vint, (i8, (vint, (vint, (Bytes, (Bytes, Vec<String>))))));

impl Wired for Record {
    type Model = <RecordLayout as Wired>::Model;

    open spec fn model(&self) -> Self::Model {
        (self.len.model(), (self.attrs.model(), (self.timestamp_delta.model(), (self.offset_delta.model(), (self.key.model(), (self.value.model(), self.headers.model()))))))
    }

    open spec fn writable(m: Self::Model, version: nat, compact: bool) -> bool {
        <RecordLayout as Wired>::writable(m, version, compact)
    }

    open spec fn canonical(m: Self::Model, version: nat, compact: bool) -> bool {
        <RecordLayout as Wired>::canonical(m, version, compact)
    }

    open spec fn encoding(m: Self::Model, version: nat, compact: bool) -> Seq<u8> {
        <RecordLayout as Wired>::encoding(m, version, compact)
    }

    open spec fn parse(data: Seq<u8>, version: nat, compact: bool) -> Parsed<Self::Model> {
        <RecordLayout as Wired>::parse(data, version, compact)
    }

    proof fn lemma_round_trip(m: Self::Model, version: nat, compact: bool, rest: Seq<u8>) {
        <RecordLayout as Wired>::lemma_round_trip(m, version, compact, rest);
    }

    fn to_wire(&self, wire: &mut WireWrite) {
        self.put_fields(wire, false)
    }

    fn from_wire(wire: &mut WireRead) -> (r: Result<Self, Error>) {
        Self::get_fields(wire, false)
    }

    fn to_wire_compact(&self, wire: &mut WireWrite) {
        self.put_fields(wire, true)
    }

    fn from_wire_compact(wire: &mut WireRead) -> (r: Result<Self, Error>) {
        Self::get_fields(wire, true)
    }
}

impl Record {
    fn put_fields(&self, wire: &mut WireWrite, compact: bool)
        requires
            Self::writable(self.model(), old(wire).version as nat, compact),
            old(wire).has_room(Self::encoding(self.model(), old(wire).version as nat, compact).len()),
        ensures
            final(wire).version == old(wire).version,
            final(wire).bytes() == old(wire).bytes() + Self::encoding(
                self.model(),
                old(wire).version as nat,
                compact,
            ),
    {
        let ghost v = wire.version as nat;
        let ghost w0 = wire.bytes();
        proof {
            assert(<(vint, (i8, (vint, (vint, (Bytes, (Bytes, Vec<String>)))))) as Wired>::encoding((self.len.model(), (self.attrs.model(), (self.timestamp_delta.model(), (self.offset_delta.model(), (self.key.model(), (self.value.model(), self.headers.model())))))), v, compact) === <vint as Wired>::encoding(self.len.model(), v, compact) + <(i8, (vint, (vint, (Bytes, (Bytes, Vec<String>))))) as Wired>::encoding((self.attrs.model(), (self.timestamp_delta.model(), (self.offset_delta.model(), (self.key.model(), (self.value.model(), self.headers.model()))))), v, compact));
            assert(<(i8, (vint, (vint, (Bytes, (Bytes, Vec<String>))))) as Wired>::encoding((self.attrs.model(), (self.timestamp_delta.model(), (self.offset_delta.model(), (self.key.model(), (self.value.model(), self.headers.model()))))), v, compact) === <i8 as Wired>::encoding(self.attrs.model(), v, compact) + <(vint, (vint, (Bytes, (Bytes, Vec<String>)))) as Wired>::encoding((self.timestamp_delta.model(), (self.offset_delta.model(), (self.key.model(), (self.value.model(), self.headers.model())))), v, compact));
            assert(<(vint, (vint, (Bytes, (Bytes, Vec<String>)))) as Wired>::encoding((self.timestamp_delta.model(), (self.offset_delta.model(), (self.key.model(), (self.value.model(), self.headers.model())))), v, compact) === <vint as Wired>::encoding(self.timestamp_delta.model(), v, compact) + <(vint, (Bytes, (Bytes, Vec<String>))) as Wired>::encoding((self.offset_delta.model(), (self.key.model(), (self.value.model(), self.headers.model()))), v, compact));
            assert(<(vint, (Bytes, (Bytes, Vec<String>))) as Wired>::encoding((self.offset_delta.model(), (self.key.model(), (self.value.model(), self.headers.model()))), v, compact) === <vint as Wired>::encoding(self.offset_delta.model(), v, compact) + <(Bytes, (Bytes, Vec<String>)) as Wired>::encoding((self.key.model(), (self.value.model(), self.headers.model())), v, compact));
            assert(<(Bytes, (Bytes, Vec<String>)) as Wired>::encoding((self.key.model(), (self.value.model(), self.headers.model())), v, compact) === <Bytes as Wired>::encoding(self.key.model(), v, compact) + <(Bytes, Vec<String>) as Wired>::encoding((self.value.model(), self.headers.model()), v, compact));
            assert(<(Bytes, Vec<String>) as Wired>::encoding((self.value.model(), self.headers.model()), v, compact) === <Bytes as Wired>::encoding(self.value.model(), v, compact) + <Vec<String> as Wired>::encoding(self.headers.model(), v, compact));
        }
        put(&self.len, wire, compact);
        let ghost w1 = wire.bytes();
        put(&self.attrs, wire, compact);
        let ghost w2 = wire.bytes();
        put(&self.timestamp_delta, wire, compact);
        let ghost w3 = wire.bytes();
        put(&self.offset_delta, wire, compact);
        let ghost w4 = wire.bytes();
        put(&self.key, wire, compact);
        let ghost w5 = wire.bytes();
        put(&self.value, wire, compact);
        let ghost w6 = wire.bytes();
        put(&self.headers, wire, compact);
        let ghost w7 = wire.bytes();
        proof {
            lemma_concat_assoc(w5, <Bytes as Wired>::encoding(self.value.model(), v, compact), <Vec<String> as Wired>::encoding(self.headers.model(), v, compact));
            lemma_concat_assoc(w4, <Bytes as Wired>::encoding(self.key.model(), v, compact), <(Bytes, Vec<String>) as Wired>::encoding((self.value.model(), self.headers.model()), v, compact));
            lemma_concat_assoc(w3, <vint as Wired>::encoding(self.offset_delta.model(), v, compact), <(Bytes, (Bytes, Vec<String>)) as Wired>::encoding((self.key.model(), (self.value.model(), self.headers.model())), v, compact));
            lemma_concat_assoc(w2, <vint as Wired>::encoding(self.timestamp_delta.model(), v, compact), <(vint, (Bytes, (Bytes, Vec<String>))) as Wired>::encoding((self.offset_delta.model(), (self.key.model(), (self.value.model(), self.headers.model()))), v, compact));
            lemma_concat_assoc(w1, <i8 as Wired>::encoding(self.attrs.model(), v, compact), <(vint, (vint, (Bytes, (Bytes, Vec<String>)))) as Wired>::encoding((self.timestamp_delta.model(), (self.offset_delta.model(), (self.key.model(), (self.value.model(), self.headers.model())))), v, compact));
            lemma_concat_assoc(w0, <vint as Wired>::encoding(self.len.model(), v, compact), <(i8, (vint, (vint, (Bytes, (Bytes, Vec<String>))))) as Wired>::encoding((self.attrs.model(), (self.timestamp_delta.model(), (self.offset_delta.model(), (self.key.model(), (self.value.model(), self.headers.model()))))), v, compact));
        }
    }

    fn get_fields(wire: &mut WireRead, compact: bool) -> (r: Result<Self, Error>)
        ensures
            final(wire).version == old(wire).version,
            match Self::parse(old(wire).rest(), old(wire).version as nat, compact) {
                Ok((m, n)) => (r matches Ok(x) && x.model() == m) && n <= old(wire).rest().len()
                    && final(wire).rest() == old(wire).rest().skip(n as int),
                Err(e) => r == Err::<Self, Error>(e),
            },
    {
        let (f_len, (f_attrs, (f_timestamp_delta, (f_offset_delta, (f_key, (f_value, f_headers)))))) = get::<RecordLayout>(wire, compact)?;
        Ok(Record { len: f_len, attrs: f_attrs, timestamp_delta: f_timestamp_delta, offset_delta: f_offset_delta, key: f_key, value: f_value, headers: f_headers })
    }
}

/// A batch of records and its metadata.
pub struct RecordBatch {
    pub first_offset: i64,
    pub len: i32,
    pub part_leader_epoch: i32,
    pub magic: i8,
    pub crc: i32,
    pub attrs: i16,
    pub last_offset_delta: i32,
    pub first_timestamp: i64,
    pub max_timestamp: i64,
    pub producer_id: i64,
    pub producer_epoch: i16,
    pub first_sequence: i32,
    pub records: Vec<Record>,
}

/// The fields of a `RecordBatch`, in wire order.
pub type RecordBatchLayout = (i64, (i32, (i32, (i8, (i32, (i16, (i32, (i64, (i64, (i64, (i16, (i32, Vec<Record>))))))))))));

// The format functions of a batch are closed: other modules reason about a
// batch through the `Wired` contract alone, which keeps their proofs small.
impl Wired for RecordBatch {
    type Model = <RecordBatchLayout as Wired>::Model;

    closed spec fn model(&self) -> Self::Model {
        (self.first_offset.model(), (self.len.model(), (self.part_leader_epoch.model(), (self.magic.model(), (self.crc.model(), (self.attrs.model(), (self.last_offset_delta.model(), (self.first_timestamp.model(), (self.max_timestamp.model(), (self.producer_id.model(), (self.producer_epoch.model(), (self.first_sequence.model(), self.records.model()))))))))))))
    }

    closed spec fn writable(m: Self::Model, version: nat, compact: bool) -> bool {
        <RecordBatchLayout as Wired>::writable(m, version, compact)
    }

    closed spec fn canonical(m: Self::Model, version: nat, compact: bool) -> bool {
        <RecordBatchLayout as Wired>::canonical(m, version, compact)
    }

    closed spec fn encoding(m: Self::Model, version: nat, compact: bool) -> Seq<u8> {
        <RecordBatchLayout as Wired>::encoding(m, version, compact)
    }

    closed spec fn parse(data: Seq<u8>, version: nat, compact: bool) -> Parsed<Self::Model> {
        <RecordBatchLayout as Wired>::parse(data, version, compact)
    }

    proof fn lemma_round_trip(m: Self::Model, version: nat, compact: bool, rest: Seq<u8>) {
        <RecordBatchLayout as Wired>::lemma_round_trip(m, version, compact, rest);
    }

    fn to_wire(&self, wire: &mut WireWrite) {
        self.put_fields(wire, false)
    }

    fn from_wire(wire: &mut WireRead) -> (r: Result<Self, Error>) {
        Self::get_fields(wire, false)
    }

    fn to_wire_compact(&self, wire: &mut WireWrite) {
        self.put_fields(wire, true)
    }

    fn from_wire_compact(wire: &mut WireRead) -> (r: Result<Self, Error>) {
        Self::get_fields(wire, true)
    }
}

impl RecordBatch {
    fn put_fields(&self, wire: &mut WireWrite, compact: bool)
        requires
            Self::writable(self.model(), old(wire).version as nat, compact),
            old(wire).has_room(Self::encoding(self.model(), old(wire).version as nat, compact).len()),
        ensures
            final(wire).version == old(wire).version,
            final(wire).bytes() == old(wire).bytes() + Self::encoding(
                self.model(),
                old(wire).version as nat,
                compact,
            ),
    {
        let ghost v = wire.version as nat;
        let ghost w0 = wire.bytes();
        proof {
            assert(<(i64, (i32, (i32, (i8, (i32, (i16, (i32, (i64, (i64, (i64, (i16, (i32, Vec<Record>)))))))))))) as Wired>::encoding((self.first_offset.model(), (self.len.model(), (self.part_leader_epoch.model(), (self.magic.model(), (self.crc.model(), (self.attrs.model(), (self.last_offset_delta.model(), (self.first_timestamp.model(), (self.max_timestamp.model(), (self.producer_id.model(), (self.producer_epoch.model(), (self.first_sequence.model(), self.records.model())))))))))))), v, compact) === <i64 as Wired>::encoding(self.first_offset.model(), v, compact) + <(i32, (i32, (i8, (i32, (i16, (i32, (i64, (i64, (i64, (i16, (i32, Vec<Record>))))))))))) as Wired>::encoding((self.len.model(), (self.part_leader_epoch.model(), (self.magic.model(), (self.crc.model(), (self.attrs.model(), (self.last_offset_delta.model(), (self.first_timestamp.model(), (self.max_timestamp.model(), (self.producer_id.model(), (self.producer_epoch.model(), (self.first_sequence.model(), self.records.model()))))))))))), v, compact));
            assert(<(i32, (i32, (i8, (i32, (i16, (i32, (i64, (i64, (i64, (i16, (i32, Vec<Record>))))))))))) as Wired>::encoding((self.len.model(), (self.part_leader_epoch.model(), (self.magic.model(), (self.crc.model(), (self.attrs.model(), (self.last_offset_delta.model(), (self.first_timestamp.model(), (self.max_timestamp.model(), (self.producer_id.model(), (self.producer_epoch.model(), (self.first_sequence.model(), self.records.model()))))))))))), v, compact) === <i32 as Wired>::encoding(self.len.model(), v, compact) + <(i32, (i8, (i32, (i16, (i32, (i64, (i64, (i64, (i16, (i32, Vec<Record>)))))))))) as Wired>::encoding((self.part_leader_epoch.model(), (self.magic.model(), (self.crc.model(), (self.attrs.model(), (self.last_offset_delta.model(), (self.first_timestamp.model(), (self.max_timestamp.model(), (self.producer_id.model(), (self.producer_epoch.model(), (self.first_sequence.model(), self.records.model())))))))))), v, compact));
            assert(<(i32, (i8, (i32, (i16, (i32, (i64, (i64, (i64, (i16, (i32, Vec<Record>)))))))))) as Wired>::encoding((self.part_leader_epoch.model(), (self.magic.model(), (self.crc.model(), (self.attrs.model(), (self.last_offset_delta.model(), (self.first_timestamp.model(), (self.max_timestamp.model(), (self.producer_id.model(), (self.producer_epoch.model(), (self.first_sequence.model(), self.records.model())))))))))), v, compact) === <i32 as Wired>::encoding(self.part_leader_epoch.model(), v, compact) + <(i8, (i32, (i16, (i32, (i64, (i64, (i64, (i16, (i32, Vec<Record>))))))))) as Wired>::encoding((self.magic.model(), (self.crc.model(), (self.attrs.model(), (self.last_offset_delta.model(), (self.first_timestamp.model(), (self.max_timestamp.model(), (self.producer_id.model(), (self.producer_epoch.model(), (self.first_sequence.model(), self.records.model()))))))))), v, compact));
            assert(<(i8, (i32, (i16, (i32, (i64, (i64, (i64, (i16, (i32, Vec<Record>))))))))) as Wired>::encoding((self.magic.model(), (self.crc.model(), (self.attrs.model(), (self.last_offset_delta.model(), (self.first_timestamp.model(), (self.max_timestamp.model(), (self.producer_id.model(), (self.producer_epoch.model(), (self.first_sequence.model(), self.records.model()))))))))), v, compact) === <i8 as Wired>::encoding(self.magic.model(), v, compact) + <(i32, (i16, (i32, (i64, (i64, (i64, (i16, (i32, Vec<Record>)))))))) as Wired>::encoding((self.crc.model(), (self.attrs.model(), (self.last_offset_delta.model(), (self.first_timestamp.model(), (self.max_timestamp.model(), (self.producer_id.model(), (self.producer_epoch.model(), (self.first_sequence.model(), self.records.model())))))))), v, compact));
            assert(<(i32, (i16, (i32, (i64, (i64, (i64, (i16, (i32, Vec<Record>)))))))) as Wired>::encoding((self.crc.model(), (self.attrs.model(), (self.last_offset_delta.model(), (self.first_timestamp.model(), (self.max_timestamp.model(), (self.producer_id.model(), (self.producer_epoch.model(), (self.first_sequence.model(), self.records.model())))))))), v, compact) === <i32 as Wired>::encoding(self.crc.model(), v, compact) + <(i16, (i32, (i64, (i64, (i64, (i16, (i32, Vec<Record>))))))) as Wired>::encoding((self.attrs.model(), (self.last_offset_delta.model(), (self.first_timestamp.model(), (self.max_timestamp.model(), (self.producer_id.model(), (self.producer_epoch.model(), (self.first_sequence.model(), self.records.model()))))))), v, compact));
            assert(<(i16, (i32, (i64, (i64, (i64, (i16, (i32, Vec<Record>))))))) as Wired>::encoding((self.attrs.model(), (self.last_offset_delta.model(), (self.first_timestamp.model(), (self.max_timestamp.model(), (self.producer_id.model(), (self.producer_epoch.model(), (self.first_sequence.model(), self.records.model()))))))), v, compact) === <i16 as Wired>::encoding(self.attrs.model(), v, compact) + <(i32, (i64, (i64, (i64, (i16, (i32, Vec<Record>)))))) as Wired>::encoding((self.last_offset_delta.model(), (self.first_timestamp.model(), (self.max_timestamp.model(), (self.producer_id.model(), (self.producer_epoch.model(), (self.first_sequence.model(), self.records.model())))))), v, compact));
            assert(<(i32, (i64, (i64, (i64, (i16, (i32, Vec<Record>)))))) as Wired>::encoding((self.last_offset_delta.model(), (self.first_timestamp.model(), (self.max_timestamp.model(), (self.producer_id.model(), (self.producer_epoch.model(), (self.first_sequence.model(), self.records.model())))))), v, compact) === <i32 as Wired>::encoding(self.last_offset_delta.model(), v, compact) + <(i64, (i64, (i64, (i16, (i32, Vec<Record>))))) as Wired>::encoding((self.first_timestamp.model(), (self.max_timestamp.model(), (self.producer_id.model(), (self.producer_epoch.model(), (self.first_sequence.model(), self.records.model()))))), v, compact));
            assert(<(i64, (i64, (i64, (i16, (i32, Vec<Record>))))) as Wired>::encoding((self.first_timestamp.model(), (self.max_timestamp.model(), (self.producer_id.model(), (self.producer_epoch.model(), (self.first_sequence.model(), self.records.model()))))), v, compact) === <i64 as Wired>::encoding(self.first_timestamp.model(), v, compact) + <(i64, (i64, (i16, (i32, Vec<Record>)))) as Wired>::encoding((self.max_timestamp.model(), (self.producer_id.model(), (self.producer_epoch.model(), (self.first_sequence.model(), self.records.model())))), v, compact));
            assert(<(i64, (i64, (i16, (i32, Vec<Record>)))) as Wired>::encoding((self.max_timestamp.model(), (self.producer_id.model(), (self.producer_epoch.model(), (self.first_sequence.model(), self.records.model())))), v, compact) === <i64 as Wired>::encoding(self.max_timestamp.model(), v, compact) + <(i64, (i16, (i32, Vec<Record>))) as Wired>::encoding((self.producer_id.model(), (self.producer_epoch.model(), (self.first_sequence.model(), self.records.model()))), v, compact));
            assert(<(i64, (i16, (i32, Vec<Record>))) as Wired>::encoding((self.producer_id.model(), (self.producer_epoch.model(), (self.first_sequence.model(), self.records.model()))), v, compact) === <i64 as Wired>::encoding(self.producer_id.model(), v, compact) + <(i16, (i32, Vec<Record>)) as Wired>::encoding((self.producer_epoch.model(), (self.first_sequence.model(), self.records.model())), v, compact));
            assert(<(i16, (i32, Vec<Record>)) as Wired>::encoding((self.producer_epoch.model(), (self.first_sequence.model(), self.records.model())), v, compact) === <i16 as Wired>::encoding(self.producer_epoch.model(), v, compact) + <(i32, Vec<Record>) as Wired>::encoding((self.first_sequence.model(), self.records.model()), v, compact));
            assert(<(i32, Vec<Record>) as Wired>::encoding((self.first_sequence.model(), self.records.model()), v, compact) === <i32 as Wired>::encoding(self.first_sequence.model(), v, compact) + <Vec<Record> as Wired>::encoding(self.records.model(), v, compact));
        }
        put(&self.first_offset, wire, compact);
        let ghost w1 = wire.bytes();
        put(&self.len, wire, compact);
        let ghost w2 = wire.bytes();
        put(&self.part_leader_epoch, wire, compact);
        let ghost w3 = wire.bytes();
        put(&self.magic, wire, compact);
        let ghost w4 = wire.bytes();
        put(&self.crc, wire, compact);
        let ghost w5 = wire.bytes();
        put(&self.attrs, wire, compact);
        let ghost w6 = wire.bytes();
        put(&self.last_offset_delta, wire, compact);
        let ghost w7 = wire.bytes();
        put(&self.first_timestamp, wire, compact);
        let ghost w8 = wire.bytes();
        put(&self.max_timestamp, wire, compact);
        let ghost w9 = wire.bytes();
        put(&self.producer_id, wire, compact);
        let ghost w10 = wire.bytes();
        put(&self.producer_epoch, wire, compact);
        let ghost w11 = wire.bytes();
        put(&self.first_sequence, wire, compact);
        let ghost w12 = wire.bytes();
        put(&self.records, wire, compact);
        let ghost w13 = wire.bytes();
        proof {
            lemma_concat_assoc(w11, <i32 as Wired>::encoding(self.first_sequence.model(), v, compact), <Vec<Record> as Wired>::encoding(self.records.model(), v, compact));
            lemma_concat_assoc(w10, <i16 as Wired>::encoding(self.producer_epoch.model(), v, compact), <(i32, Vec<Record>) as Wired>::encoding((self.first_sequence.model(), self.records.model()), v, compact));
            lemma_concat_assoc(w9, <i64 as Wired>::encoding(self.producer_id.model(), v, compact), <(i16, (i32, Vec<Record>)) as Wired>::encoding((self.producer_epoch.model(), (self.first_sequence.model(), self.records.model())), v, compact));
            lemma_concat_assoc(w8, <i64 as Wired>::encoding(self.max_timestamp.model(), v, compact), <(i64, (i16, (i32, Vec<Record>))) as Wired>::encoding((self.producer_id.model(), (self.producer_epoch.model(), (self.first_sequence.model(), self.records.model()))), v, compact));
            lemma_concat_assoc(w7, <i64 as Wired>::encoding(self.first_timestamp.model(), v, compact), <(i64, (i64, (i16, (i32, Vec<Record>)))) as Wired>::encoding((self.max_timestamp.model(), (self.producer_id.model(), (self.producer_epoch.model(), (self.first_sequence.model(), self.records.model())))), v, compact));
            lemma_concat_assoc(w6, <i32 as Wired>::encoding(self.last_offset_delta.model(), v, compact), <(i64, (i64, (i64, (i16, (i32, Vec<Record>))))) as Wired>::encoding((self.first_timestamp.model(), (self.max_timestamp.model(), (self.producer_id.model(), (self.producer_epoch.model(), (self.first_sequence.model(), self.records.model()))))), v, compact));
            lemma_concat_assoc(w5, <i16 as Wired>::encoding(self.attrs.model(), v, compact), <(i32, (i64, (i64, (i64, (i16, (i32, Vec<Record>)))))) as Wired>::encoding((self.last_offset_delta.model(), (self.first_timestamp.model(), (self.max_timestamp.model(), (self.producer_id.model(), (self.producer_epoch.model(), (self.first_sequence.model(), self.records.model())))))), v, compact));
            lemma_concat_assoc(w4, <i32 as Wired>::encoding(self.crc.model(), v, compact), <(i16, (i32, (i64, (i64, (i64, (i16, (i32, Vec<Record>))))))) as Wired>::encoding((self.attrs.model(), (self.last_offset_delta.model(), (self.first_timestamp.model(), (self.max_timestamp.model(), (self.producer_id.model(), (self.producer_epoch.model(), (self.first_sequence.model(), self.records.model()))))))), v, compact));
            lemma_concat_assoc(w3, <i8 as Wired>::encoding(self.magic.model(), v, compact), <(i32, (i16, (i32, (i64, (i64, (i64, (i16, (i32, Vec<Record>)))))))) as Wired>::encoding((self.crc.model(), (self.attrs.model(), (self.last_offset_delta.model(), (self.first_timestamp.model(), (self.max_timestamp.model(), (self.producer_id.model(), (self.producer_epoch.model(), (self.first_sequence.model(), self.records.model())))))))), v, compact));
            lemma_concat_assoc(w2, <i32 as Wired>::encoding(self.part_leader_epoch.model(), v, compact), <(i8, (i32, (i16, (i32, (i64, (i64, (i64, (i16, (i32, Vec<Record>))))))))) as Wired>::encoding((self.magic.model(), (self.crc.model(), (self.attrs.model(), (self.last_offset_delta.model(), (self.first_timestamp.model(), (self.max_timestamp.model(), (self.producer_id.model(), (self.producer_epoch.model(), (self.first_sequence.model(), self.records.model()))))))))), v, compact));
            lemma_concat_assoc(w1, <i32 as Wired>::encoding(self.len.model(), v, compact), <(i32, (i8, (i32, (i16, (i32, (i64, (i64, (i64, (i16, (i32, Vec<Record>)))))))))) as Wired>::encoding((self.part_leader_epoch.model(), (self.magic.model(), (self.crc.model(), (self.attrs.model(), (self.last_offset_delta.model(), (self.first_timestamp.model(), (self.max_timestamp.model(), (self.producer_id.model(), (self.producer_epoch.model(), (self.first_sequence.model(), self.records.model())))))))))), v, compact));
            lemma_concat_assoc(w0, <i64 as Wired>::encoding(self.first_offset.model(), v, compact), <(i32, (i32, (i8, (i32, (i16, (i32, (i64, (i64, (i64, (i16, (i32, Vec<Record>))))))))))) as Wired>::encoding((self.len.model(), (self.part_leader_epoch.model(), (self.magic.model(), (self.crc.model(), (self.attrs.model(), (self.last_offset_delta.model(), (self.first_timestamp.model(), (self.max_timestamp.model(), (self.producer_id.model(), (self.producer_epoch.model(), (self.first_sequence.model(), self.records.model()))))))))))), v, compact));
        }
    }

    fn get_fields(wire: &mut WireRead, compact: bool) -> (r: Result<Self, Error>)
        ensures
            final(wire).version == old(wire).version,
            match Self::parse(old(wire).rest(), old(wire).version as nat, compact) {
                Ok((m, n)) => (r matches Ok(x) && x.model() == m) && n <= old(wire).rest().len()
                    && final(wire).rest() == old(wire).rest().skip(n as int),
                Err(e) => r == Err::<Self, Error>(e),
            },
    {
        let (f_first_offset, (f_len, (f_part_leader_epoch, (f_magic, (f_crc, (f_attrs, (f_last_offset_delta, (f_first_timestamp, (f_max_timestamp, (f_producer_id, (f_producer_epoch, (f_first_sequence, f_records)))))))))))) = get::<RecordBatchLayout>(wire, compact)?;
        Ok(RecordBatch { first_offset: f_first_offset, len: f_len, part_leader_epoch: f_part_leader_epoch, magic: f_magic, crc: f_crc, attrs: f_attrs, last_offset_delta: f_last_offset_delta, first_timestamp: f_first_timestamp, max_timestamp: f_max_timestamp, producer_id: f_producer_id, producer_epoch: f_producer_epoch, first_sequence: f_first_sequence, records: f_records })
    }
}

} // verus!
