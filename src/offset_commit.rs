//! The offset-commit message of consumer groups.
use crate::compose::{get, gate_encoding, lemma_concat_assoc, opt_model, put, put_versioned, Versioned, VersionedRange};
use crate::error::Error;
use crate::wire::{Parsed, WireRead, WireWrite, Wired};
use crate::api::{ApiKey, ApiRequest};
use crate::tagged::TagBuffer;
use crate::topics::TopicMap;
use vstd::prelude::*;

verus! {

/// The offset committed for one partition.
pub struct PartData {
    pub partition_index: i32,
    pub commited_offset: i64,
    /// On the wire at versions 1 to 1.
    pub commit_timestamp: Option<i64>,
    /// On the wire from version 6.
    pub leader_epoch: Option<i32>,
    pub metadata: Option<String>,
    /// On the wire from version 8.
    pub tags: Option<TagBuffer>,
}

/// The fields of a `PartData`, in wire order.
pub type PartDataLayout = (i32, (i64, (VersionedRange<i64, 1, 1>, (Versioned<i32, 6>, (Option<String>, Versioned<TagBuffer, 8>)))));

impl Wired for PartData {
    type Model = <PartDataLayout as Wired>::Model;

    open spec fn model(&self) -> Self::Model {
        (self.partition_index.model(), (self.commited_offset.model(), (opt_model(self.commit_timestamp), (opt_model(self.leader_epoch), (self.metadata.model(), opt_model(self.tags))))))
    }

    open spec fn writable(m: Self::Model, version: nat, compact: bool) -> bool {
        <PartDataLayout as Wired>::writable(m, version, compact)
    }

    open spec fn canonical(m: Self::Model, version: nat, compact: bool) -> bool {
        <PartDataLayout as Wired>::canonical(m, version, compact)
    }

    open spec fn encoding(m: Self::Model, version: nat, compact: bool) -> Seq<u8> {
        <PartDataLayout as Wired>::encoding(m, version, compact)
    }

    open spec fn parse(data: Seq<u8>, version: nat, compact: bool) -> Parsed<Self::Model> {
        <PartDataLayout as Wired>::parse(data, version, compact)
    }

    proof fn lemma_round_trip(m: Self::Model, version: nat, compact: bool, rest: Seq<u8>) {
        <PartDataLayout as Wired>::lemma_round_trip(m, version, compact, rest);
    }

    fn to_wire(&self, wire: &mut WireWrite) {
        self.put_fields(wire, false)
    }

    fn from_wire(wire: &mut WireRead) -> (r: Result<Self, Error>) {
        Self::get_fields(wire, false)
    }

    fn to_wire_compact(&self, wire: &mut WireWrite) {
        self.put_fields(wire, true)
    }

    fn from_wire_compact(wire: &mut WireRead) -> (r: Result<Self, Error>) {
        Self::get_fields(wire, true)
    }
}

impl PartData {
    fn put_fields(&self, wire: &mut WireWrite, compact: bool)
        requires
            Self::writable(self.model(), old(wire).version as nat, compact),
            old(wire).has_room(Self::encoding(self.model(), old(wire).version as nat, compact).len()),
        ensures
            final(wire).version == old(wire).version,
            final(wire).bytes() == old(wire).bytes() + Self::encoding(
                self.model(),
                old(wire).version as nat,
                compact,
            ),
    {
        let ghost v = wire.version as nat;
        let ghost w0 = wire.bytes();
        proof {
            assert(<(i32, (i64, (VersionedRange<i64, 1, 1>, (Versioned<i32, 6>, (Option<String>, Versioned<TagBuffer, 8>))))) as Wired>::encoding((self.partition_index.model(), (self.commited_offset.model(), (opt_model(self.commit_timestamp), (opt_model(self.leader_epoch), (self.metadata.model(), opt_model(self.tags)))))), v, compact) === <i32 as Wired>::encoding(self.partition_index.model(), v, compact) + <(i64, (VersionedRange<i64, 1, 1>, (Versioned<i32, 6>, (Option<String>, Versioned<TagBuffer, 8>)))) as Wired>::encoding((self.commited_offset.model(), (opt_model(self.commit_timestamp), (opt_model(self.leader_epoch), (self.metadata.model(), opt_model(self.tags))))), v, compact));
            assert(<(i64, (VersionedRange<i64, 1, 1>, (Versioned<i32, 6>, (Option<String>, Versioned<TagBuffer, 8>)))) as Wired>::encoding((self.commited_offset.model(), (opt_model(self.commit_timestamp), (opt_model(self.leader_epoch), (self.metadata.model(), opt_model(self.tags))))), v, compact) === <i64 as Wired>::encoding(self.commited_offset.model(), v, compact) + <(VersionedRange<i64, 1, 1>, (Versioned<i32, 6>, (Option<String>, Versioned<TagBuffer, 8>))) as Wired>::encoding((opt_model(self.commit_timestamp), (opt_model(self.leader_epoch), (self.metadata.model(), opt_model(self.tags)))), v, compact));
            assert(<(VersionedRange<i64, 1, 1>, (Versioned<i32, 6>, (Option<String>, Versioned<TagBuffer, 8>))) as Wired>::encoding((opt_model(self.commit_timestamp), (opt_model(self.leader_epoch), (self.metadata.model(), opt_model(self.tags)))), v, compact) === gate_encoding::<i64>(opt_model(self.commit_timestamp), 1, Some(1 as nat), v, compact) + <(Versioned<i32, 6>, (Option<String>, Versioned<TagBuffer, 8>)) as Wired>::encoding((opt_model(self.leader_epoch), (self.metadata.model(), opt_model(self.tags))), v, compact));
            assert(<(Versioned<i32, 6>, (Option<String>, Versioned<TagBuffer, 8>)) as Wired>::encoding((opt_model(self.leader_epoch), (self.metadata.model(), opt_model(self.tags))), v, compact) === gate_encoding::<i32>(opt_model(self.leader_epoch), 6, None::<nat>, v, compact) + <(Option<String>, Versioned<TagBuffer, 8>) as Wired>::encoding((self.metadata.model(), opt_model(self.tags)), v, compact));
            assert(<(Option<String>, Versioned<TagBuffer, 8>) as Wired>::encoding((self.metadata.model(), opt_model(self.tags)), v, compact) === <Option<String> as Wired>::encoding(self.metadata.model(), v, compact) + <Versioned<TagBuffer, 8> as Wired>::encoding(opt_model(self.tags), v, compact));
        }
        put(&self.partition_index, wire, compact);
        let ghost w1 = wire.bytes();
        put(&self.commited_offset, wire, compact);
        let ghost w2 = wire.bytes();
        put_versioned(&self.commit_timestamp, 1, Some(1), wire, compact);
        let ghost w3 = wire.bytes();
        put_versioned(&self.leader_epoch, 6, None, wire, compact);
        let ghost w4 = wire.bytes();
        put(&self.metadata, wire, compact);
        let ghost w5 = wire.bytes();
        put_versioned(&self.tags, 8, None, wire, compact);
        let ghost w6 = wire.bytes();
        proof {
            lemma_concat_assoc(w4, <Option<String> as Wired>::encoding(self.metadata.model(), v, compact), <Versioned<TagBuffer, 8> as Wired>::encoding(opt_model(self.tags), v, compact));
            lemma_concat_assoc(w3, gate_encoding::<i32>(opt_model(self.leader_epoch), 6, None::<nat>, v, compact), <(Option<String>, Versioned<TagBuffer, 8>) as Wired>::encoding((self.metadata.model(), opt_model(self.tags)), v, compact));
            lemma_concat_assoc(w2, gate_encoding::<i64>(opt_model(self.commit_timestamp), 1, Some(1 as nat), v, compact), <(Versioned<i32, 6>, (Option<String>, Versioned<TagBuffer, 8>)) as Wired>::encoding((opt_model(self.leader_epoch), (self.metadata.model(), opt_model(self.tags))), v, compact));
            lemma_concat_assoc(w1, <i64 as Wired>::encoding(self.commited_offset.model(), v, compact), <(VersionedRange<i64, 1, 1>, (Versioned<i32, 6>, (Option<String>, Versioned<TagBuffer, 8>))) as Wired>::encoding((opt_model(self.commit_timestamp), (opt_model(self.leader_epoch), (self.metadata.model(), opt_model(self.tags)))), v, compact));
            lemma_concat_assoc(w0, <i32 as Wired>::encoding(self.partition_index.model(), v, compact), <(i64, (VersionedRange<i64, 1, 1>, (Versioned<i32, 6>, (Option<String>, Versioned<TagBuffer, 8>)))) as Wired>::encoding((self.commited_offset.model(), (opt_model(self.commit_timestamp), (opt_model(self.leader_epoch), (self.metadata.model(), opt_model(self.tags))))), v, compact));
        }
    }

    fn get_fields(wire: &mut WireRead, compact: bool) -> (r: Result<Self, Error>)
        ensures
            final(wire).version == old(wire).version,
            match Self::parse(old(wire).rest(), old(wire).version as nat, compact) {
                Ok((m, n)) => (r matches Ok(x) && x.model() == m) && n <= old(wire).rest().len()
                    && final(wire).rest() == old(wire).rest().skip(n as int),
                Err(e) => r == Err::<Self, Error>(e),
            },
    {
        let (f_partition_index, (f_commited_offset, (f_commit_timestamp, (f_leader_epoch, (f_metadata, f_tags))))) = get::<PartDataLayout>(wire, compact)?;
        Ok(PartData { partition_index: f_partition_index, commited_offset: f_commited_offset, commit_timestamp: f_commit_timestamp.0, leader_epoch: f_leader_epoch.0, metadata: f_metadata, tags: f_tags.0 })
    }
}

/// The offset-commit request.
pub struct Request {
    pub group_id: String,
    /// On the wire from version 1.
    pub generation_id: Option<i32>,
    /// On the wire from version 1.
    pub member_id: Option<String>,
    /// On the wire at versions 2 to 4.
    pub retention_time_ms: Option<i64>,
    /// On the wire from version 7.
    pub group_instance_id: Option<Option<String>>,
    pub topics: TopicMap<PartData>,
    /// On the wire from version 8.
    pub tags: Option<TagBuffer>,
}

/// The fields of a `Request`, in wire order.
pub type RequestLayout = (String, (Versioned<i32, 1>, (Versioned<String, 1>, (VersionedRange<i64, 2, 4>, (Versioned<Option<String>, 7>, (TopicMap<PartData>, Versioned<TagBuffer, 8>))))));

impl Wired for Request {
    type Model = <RequestLayout as Wired>::Model;

    open spec fn model(&self) -> Self::Model {
        (self.group_id.model(), (opt_model(self.generation_id), (opt_model(self.member_id), (opt_model(self.retention_time_ms), (opt_model(self.group_instance_id), (self.topics.model(), opt_model(self.tags)))))))
    }

    open spec fn writable(m: Self::Model, version: nat, compact: bool) -> bool {
        <RequestLayout as Wired>::writable(m, version, compact)
    }

    open spec fn canonical(m: Self::Model, version: nat, compact: bool) -> bool {
        <RequestLayout as Wired>::canonical(m, version, compact)
    }

    open spec fn encoding(m: Self::Model, version: nat, compact: bool) -> Seq<u8> {
        <RequestLayout as Wired>::encoding(m, version, compact)
    }

    open spec fn parse(data: Seq<u8>, version: nat, compact: bool) -> Parsed<Self::Model> {
        <RequestLayout as Wired>::parse(data, version, compact)
    }

    proof fn lemma_round_trip(m: Self::Model, version: nat, compact: bool, rest: Seq<u8>) {
        <RequestLayout as Wired>::lemma_round_trip(m, version, compact, rest);
    }

    fn to_wire(&self, wire: &mut WireWrite) {
        self.put_fields(wire, false)
    }

    fn from_wire(wire: &mut WireRead) -> (r: Result<Self, Error>) {
        Self::get_fields(wire, false)
    }

    fn to_wire_compact(&self, wire: &mut WireWrite) {
        self.put_fields(wire, true)
    }

    fn from_wire_compact(wire: &mut WireRead) -> (r: Result<Self, Error>) {
        Self::get_fields(wire, true)
    }
}

impl Request {
    fn put_fields(&self, wire: &mut WireWrite, compact: bool)
        requires
            Self::writable(self.model(), old(wire).version as nat, compact),
            old(wire).has_room(Self::encoding(self.model(), old(wire).version as nat, compact).len()),
        ensures
            final(wire).version == old(wire).version,
            final(wire).bytes() == old(wire).bytes() + Self::encoding(
                self.model(),
                old(wire).version as nat,
                compact,
            ),
    {
        let ghost v = wire.version as nat;
        let ghost w0 = wire.bytes();
        proof {
            assert(<(String, (Versioned<i32, 1>, (Versioned<String, 1>, (VersionedRange<i64, 2, 4>, (Versioned<Option<String>, 7>, (TopicMap<PartData>, Versioned<TagBuffer, 8>)))))) as Wired>::encoding((self.group_id.model(), (opt_model(self.generation_id), (opt_model(self.member_id), (opt_model(self.retention_time_ms), (opt_model(self.group_instance_id), (self.topics.model(), opt_model(self.tags))))))), v, compact) === <String as Wired>::encoding(self.group_id.model(), v, compact) + <(Versioned<i32, 1>, (Versioned<String, 1>, (VersionedRange<i64, 2, 4>, (Versioned<Option<String>, 7>, (TopicMap<PartData>, Versioned<TagBuffer, 8>))))) as Wired>::encoding((opt_model(self.generation_id), (opt_model(self.member_id), (opt_model(self.retention_time_ms), (opt_model(self.group_instance_id), (self.topics.model(), opt_model(self.tags)))))), v, compact));
            assert(<(Versioned<i32, 1>, (Versioned<String, 1>, (VersionedRange<i64, 2, 4>, (Versioned<Option<String>, 7>, (TopicMap<PartData>, Versioned<TagBuffer, 8>))))) as Wired>::encoding((opt_model(self.generation_id), (opt_model(self.member_id), (opt_model(self.retention_time_ms), (opt_model(self.group_instance_id), (self.topics.model(), opt_model(self.tags)))))), v, compact) === gate_encoding::<i32>(opt_model(self.generation_id), 1, None::<nat>, v, compact) + <(Versioned<String, 1>, (VersionedRange<i64, 2, 4>, (Versioned<Option<String>, 7>, (TopicMap<PartData>, Versioned<TagBuffer, 8>)))) as Wired>::encoding((opt_model(self.member_id), (opt_model(self.retention_time_ms), (opt_model(self.group_instance_id), (self.topics.model(), opt_model(self.tags))))), v, compact));
            assert(<(Versioned<String, 1>, (VersionedRange<i64, 2, 4>, (Versioned<Option<String>, 7>, (TopicMap<PartData>, Versioned<TagBuffer, 8>)))) as Wired>::encoding((opt_model(self.member_id), (opt_model(self.retention_time_ms), (opt_model(self.group_instance_id), (self.topics.model(), opt_model(self.tags))))), v, compact) === gate_encoding::<String>(opt_model(self.member_id), 1, None::<nat>, v, compact) + <(VersionedRange<i64, 2, 4>, (Versioned<Option<String>, 7>, (TopicMap<PartData>, Versioned<TagBuffer, 8>))) as Wired>::encoding((opt_model(self.retention_time_ms), (opt_model(self.group_instance_id), (self.topics.model(), opt_model(self.tags)))), v, compact));
            assert(<(VersionedRange<i64, 2, 4>, (Versioned<Option<String>, 7>, (TopicMap<PartData>, Versioned<TagBuffer, 8>))) as Wired>::encoding((opt_model(self.retention_time_ms), (opt_model(self.group_instance_id), (self.topics.model(), opt_model(self.tags)))), v, compact) === gate_encoding::<i64>(opt_model(self.retention_time_ms), 2, Some(4 as nat), v, compact) + <(Versioned<Option<String>, 7>, (TopicMap<PartData>, Versioned<TagBuffer, 8>)) as Wired>::encoding((opt_model(self.group_instance_id), (self.topics.model(), opt_model(self.tags))), v, compact));
            assert(<(Versioned<Option<String>, 7>, (TopicMap<PartData>, Versioned<TagBuffer, 8>)) as Wired>::encoding((opt_model(self.group_instance_id), (self.topics.model(), opt_model(self.tags))), v, compact) === gate_encoding::<Option<String>>(opt_model(self.group_instance_id), 7, None::<nat>, v, compact) + <(TopicMap<PartData>, Versioned<TagBuffer, 8>) as Wired>::encoding((self.topics.model(), opt_model(self.tags)), v, compact));
            assert(<(TopicMap<PartData>, Versioned<TagBuffer, 8>) as Wired>::encoding((self.topics.model(), opt_model(self.tags)), v, compact) === <TopicMap<PartData> as Wired>::encoding(self.topics.model(), v, compact) + <Versioned<TagBuffer, 8> as Wired>::encoding(opt_model(self.tags), v, compact));
        }
        put(&self.group_id, wire, compact);
        let ghost w1 = wire.bytes();
        put_versioned(&self.generation_id, 1, None, wire, compact);
        let ghost w2 = wire.bytes();
        put_versioned(&self.member_id, 1, None, wire, compact);
        let ghost w3 = wire.bytes();
        put_versioned(&self.retention_time_ms, 2, Some(4), wire, compact);
        let ghost w4 = wire.bytes();
        put_versioned(&self.group_instance_id, 7, None, wire, compact);
        let ghost w5 = wire.bytes();
        put(&self.topics, wire, compact);
        let ghost w6 = wire.bytes();
        put_versioned(&self.tags, 8, None, wire, compact);
        let ghost w7 = wire.bytes();
        proof {
            lemma_concat_assoc(w5, <TopicMap<PartData> as Wired>::encoding(self.topics.model(), v, compact), <Versioned<TagBuffer, 8> as Wired>::encoding(opt_model(self.tags), v, compact));
            lemma_concat_assoc(w4, gate_encoding::<Option<String>>(opt_model(self.group_instance_id), 7, None::<nat>, v, compact), <(TopicMap<PartData>, Versioned<TagBuffer, 8>) as Wired>::encoding((self.topics.model(), opt_model(self.tags)), v, compact));
            lemma_concat_assoc(w3, gate_encoding::<i64>(opt_model(self.retention_time_ms), 2, Some(4 as nat), v, compact), <(Versioned<Option<String>, 7>, (TopicMap<PartData>, Versioned<TagBuffer, 8>)) as Wired>::encoding((opt_model(self.group_instance_id), (self.topics.model(), opt_model(self.tags))), v, compact));
            lemma_concat_assoc(w2, gate_encoding::<String>(opt_model(self.member_id), 1, None::<nat>, v, compact), <(VersionedRange<i64, 2, 4>, (Versioned<Option<String>, 7>, (TopicMap<PartData>, Versioned<TagBuffer, 8>))) as Wired>::encoding((opt_model(self.retention_time_ms), (opt_model(self.group_instance_id), (self.topics.model(), opt_model(self.tags)))), v, compact));
            lemma_concat_assoc(w1, gate_encoding::<i32>(opt_model(self.generation_id), 1, None::<nat>, v, compact), <(Versioned<String, 1>, (VersionedRange<i64, 2, 4>, (Versioned<Option<String>, 7>, (TopicMap<PartData>, Versioned<TagBuffer, 8>)))) as Wired>::encoding((opt_model(self.member_id), (opt_model(self.retention_time_ms), (opt_model(self.group_instance_id), (self.topics.model(), opt_model(self.tags))))), v, compact));
            lemma_concat_assoc(w0, <String as Wired>::encoding(self.group_id.model(), v, compact), <(Versioned<i32, 1>, (Versioned<String, 1>, (VersionedRange<i64, 2, 4>, (Versioned<Option<String>, 7>, (TopicMap<PartData>, Versioned<TagBuffer, 8>))))) as Wired>::encoding((opt_model(self.generation_id), (opt_model(self.member_id), (opt_model(self.retention_time_ms), (opt_model(self.group_instance_id), (self.topics.model(), opt_model(self.tags)))))), v, compact));
        }
    }

    fn get_fields(wire: &mut WireRead, compact: bool) -> (r: Result<Self, Error>)
        ensures
            final(wire).version == old(wire).version,
            match Self::parse(old(wire).rest(), old(wire).version as nat, compact) {
                Ok((m, n)) => (r matches Ok(x) && x.model() == m) && n <= old(wire).rest().len()
                    && final(wire).rest() == old(wire).rest().skip(n as int),
                Err(e) => r == Err::<Self, Error>(e),
            },
    {
        let (f_group_id, (f_generation_id, (f_member_id, (f_retention_time_ms, (f_group_instance_id, (f_topics, f_tags)))))) = get::<RequestLayout>(wire, compact)?;
        Ok(Request { group_id: f_group_id, generation_id: f_generation_id.0, member_id: f_member_id.0, retention_time_ms: f_retention_time_ms.0, group_instance_id: f_group_instance_id.0, topics: f_topics, tags: f_tags.0 })
    }
}

/// The outcome for one partition.
pub struct ResponseParts {
    pub partition_index: i32,
    pub error_code: i16,
    /// On the wire from version 8.
    pub tags: Option<TagBuffer>,
}

/// The fields of a `ResponseParts`, in wire order.
pub type ResponsePartsLayout = (i32, (i16, Versioned<TagBuffer, 8>));

impl Wired for ResponseParts {
    type Model = <ResponsePartsLayout as Wired>::Model;

    open spec fn model(&self) -> Self::Model {
        (self.partition_index.model(), (self.error_code.model(), opt_model(self.tags)))
    }

    open spec fn writable(m: Self::Model, version: nat, compact: bool) -> bool {
        <ResponsePartsLayout as Wired>::writable(m, version, compact)
    }

    open spec fn canonical(m: Self::Model, version: nat, compact: bool) -> bool {
        <ResponsePartsLayout as Wired>::canonical(m, version, compact)
    }

    open spec fn encoding(m: Self::Model, version: nat, compact: bool) -> Seq<u8> {
        <ResponsePartsLayout as Wired>::encoding(m, version, compact)
    }

    open spec fn parse(data: Seq<u8>, version: nat, compact: bool) -> Parsed<Self::Model> {
        <ResponsePartsLayout as Wired>::parse(data, version, compact)
    }

    proof fn lemma_round_trip(m: Self::Model, version: nat, compact: bool, rest: Seq<u8>) {
        <ResponsePartsLayout as Wired>::lemma_round_trip(m, version, compact, rest);
    }

    fn to_wire(&self, wire: &mut WireWrite) {
        self.put_fields(wire, false)
    }

    fn from_wire(wire: &mut WireRead) -> (r: Result<Self, Error>) {
        Self::get_fields(wire, false)
    }

    fn to_wire_compact(&self, wire: &mut WireWrite) {
        self.put_fields(wire, true)
    }

    fn from_wire_compact(wire: &mut WireRead) -> (r: Result<Self, Error>) {
        Self::get_fields(wire, true)
    }
}

impl ResponseParts {
    fn put_fields(&self, wire: &mut WireWrite, compact: bool)
        requires
            Self::writable(self.model(), old(wire).version as nat, compact),
            old(wire).has_room(Self::encoding(self.model(), old(wire).version as nat, compact).len()),
        ensures
            final(wire).version == old(wire).version,
            final(wire).bytes() == old(wire).bytes() + Self::encoding(
                self.model(),
                old(wire).version as nat,
                compact,
            ),
    {
        let ghost v = wire.version as nat;
        let ghost w0 = wire.bytes();
        proof {
            assert(<(i32, (i16, Versioned<TagBuffer, 8>)) as Wired>::encoding((self.partition_index.model(), (self.error_code.model(), opt_model(self.tags))), v, compact) === <i32 as Wired>::encoding(self.partition_index.model(), v, compact) + <(i16, Versioned<TagBuffer, 8>) as Wired>::encoding((self.error_code.model(), opt_model(self.tags)), v, compact));
            assert(<(i16, Versioned<TagBuffer, 8>) as Wired>::encoding((self.error_code.model(), opt_model(self.tags)), v, compact) === <i16 as Wired>::encoding(self.error_code.model(), v, compact) + <Versioned<TagBuffer, 8> as Wired>::encoding(opt_model(self.tags), v, compact));
        }
        put(&self.partition_index, wire, compact);
        let ghost w1 = wire.bytes();
        put(&self.error_code, wire, compact);
        let ghost w2 = wire.bytes();
        put_versioned(&self.tags, 8, None, wire, compact);
        let ghost w3 = wire.bytes();
        proof {
            lemma_concat_assoc(w1, <i16 as Wired>::encoding(self.error_code.model(), v, compact), <Versioned<TagBuffer, 8> as Wired>::encoding(opt_model(self.tags), v, compact));
            lemma_concat_assoc(w0, <i32 as Wired>::encoding(self.partition_index.model(), v, compact), <(i16, Versioned<TagBuffer, 8>) as Wired>::encoding((self.error_code.model(), opt_model(self.tags)), v, compact));
        }
    }

    fn get_fields(wire: &mut WireRead, compact: bool) -> (r: Result<Self, Error>)
        ensures
            final(wire).version == old(wire).version,
            match Self::parse(old(wire).rest(), old(wire).version as nat, compact) {
                Ok((m, n)) => (r matches Ok(x) && x.model() == m) && n <= old(wire).rest().len()
                    && final(wire).rest() == old(wire).rest().skip(n as int),
                Err(e) => r == Err::<Self, Error>(e),
            },
    {
        let (f_partition_index, (f_error_code, f_tags)) = get::<ResponsePartsLayout>(wire, compact)?;
        Ok(ResponseParts { partition_index: f_partition_index, error_code: f_error_code, tags: f_tags.0 })
    }
}

/// The offset-commit response.
pub struct Response {
    /// On the wire from version 3.
    pub throttle_time_ms: Option<i32>,
    pub topics: TopicMap<ResponseParts>,
    /// On the wire from version 8.
    pub tags: Option<TagBuffer>,
}

/// The fields of a `Response`, in wire order.
pub type ResponseLayout = (Versioned<i32, 3>, (TopicMap<ResponseParts>, Versioned<TagBuffer, 8>));

impl Wired for Response {
    type Model = <ResponseLayout as Wired>::Model;

    open spec fn model(&self) -> Self::Model {
        (opt_model(self.throttle_time_ms), (self.topics.model(), opt_model(self.tags)))
    }

    open spec fn writable(m: Self::Model, version: nat, compact: bool) -> bool {
        <ResponseLayout as Wired>::writable(m, version, compact)
    }

    open spec fn canonical(m: Self::Model, version: nat, compact: bool) -> bool {
        <ResponseLayout as Wired>::canonical(m, version, compact)
    }

    open spec fn encoding(m: Self::Model, version: nat, compact: bool) -> Seq<u8> {
        <ResponseLayout as Wired>::encoding(m, version, compact)
    }

    open spec fn parse(data: Seq<u8>, version: nat, compact: bool) -> Parsed<Self::Model> {
        <ResponseLayout as Wired>::parse(data, version, compact)
    }

    proof fn lemma_round_trip(m: Self::Model, version: nat, compact: bool, rest: Seq<u8>) {
        <ResponseLayout as Wired>::lemma_round_trip(m, version, compact, rest);
    }

    fn to_wire(&self, wire: &mut WireWrite) {
        self.put_fields(wire, false)
    }

    fn from_wire(wire: &mut WireRead) -> (r: Result<Self, Error>) {
        Self::get_fields(wire, false)
    }

    fn to_wire_compact(&self, wire: &mut WireWrite) {
        self.put_fields(wire, true)
    }

    fn from_wire_compact(wire: &mut WireRead) -> (r: Result<Self, Error>) {
        Self::get_fields(wire, true)
    }
}

impl Response {
    fn put_fields(&self, wire: &mut WireWrite, compact: bool)
        requires
            Self::writable(self.model(), old(wire).version as nat, compact),
            old(wire).has_room(Self::encoding(self.model(), old(wire).version as nat, compact).len()),
        ensures
            final(wire).version == old(wire).version,
            final(wire).bytes() == old(wire).bytes() + Self::encoding(
                self.model(),
                old(wire).version as nat,
                compact,
            ),
    {
        let ghost v = wire.version as nat;
        let ghost w0 = wire.bytes();
        proof {
            assert(<(Versioned<i32, 3>, (TopicMap<ResponseParts>, Versioned<TagBuffer, 8>)) as Wired>::encoding((opt_model(self.throttle_time_ms), (self.topics.model(), opt_model(self.tags))), v, compact) === gate_encoding::<i32>(opt_model(self.throttle_time_ms), 3, None::<nat>, v, compact) + <(TopicMap<ResponseParts>, Versioned<TagBuffer, 8>) as Wired>::encoding((self.topics.model(), opt_model(self.tags)), v, compact));
            assert(<(TopicMap<ResponseParts>, Versioned<TagBuffer, 8>) as Wired>::encoding((self.topics.model(), opt_model(self.tags)), v, compact) === <TopicMap<ResponseParts> as Wired>::encoding(self.topics.model(), v, compact) + <Versioned<TagBuffer, 8> as Wired>::encoding(opt_model(self.tags), v, compact));
        }
        put_versioned(&self.throttle_time_ms, 3, None, wire, compact);
        let ghost w1 = wire.bytes();
        put(&self.topics, wire, compact);
        let ghost w2 = wire.bytes();
        put_versioned(&self.tags, 8, None, wire, compact);
        let ghost w3 = wire.bytes();
        proof {
            lemma_concat_assoc(w1, <TopicMap<ResponseParts> as Wired>::encoding(self.topics.model(), v, compact), <Versioned<TagBuffer, 8> as Wired>::encoding(opt_model(self.tags), v, compact));
            lemma_concat_assoc(w0, gate_encoding::<i32>(opt_model(self.throttle_time_ms), 3, None::<nat>, v, compact), <(TopicMap<ResponseParts>, Versioned<TagBuffer, 8>) as Wired>::encoding((self.topics.model(), opt_model(self.tags)), v, compact));
        }
    }

    fn get_fields(wire: &mut WireRead, compact: bool) -> (r: Result<Self, Error>)
        ensures
            final(wire).version == old(wire).version,
            match Self::parse(old(wire).rest(), old(wire).version as nat, compact) {
                Ok((m, n)) => (r matches Ok(x) && x.model() == m) && n <= old(wire).rest().len()
                    && final(wire).rest() == old(wire).rest().skip(n as int),
                Err(e) => r == Err::<Self, Error>(e),
            },
    {
        let (f_throttle_time_ms, (f_topics, f_tags)) = get::<ResponseLayout>(wire, compact)?;
        Ok(Response { throttle_time_ms: f_throttle_time_ms.0, topics: f_topics, tags: f_tags.0 })
    }
}

impl ApiRequest for Request {
    type Response = Response;

    open spec fn key() -> ApiKey {
        ApiKey::OffsetCommit
    }

    open spec fn flexible_from() -> nat {
        8
    }

    fn api_key() -> (r: ApiKey) {
        ApiKey::OffsetCommit
    }

    fn flexible_version() -> (r: usize) {
        8
    }
}

} // verus!
