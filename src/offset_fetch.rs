//! The offset-fetch message of consumer groups.
use crate::compose::{get, gate_encoding, lemma_concat_assoc, opt_model, put, put_versioned, Versioned};
use crate::error::Error;
use crate::wire::{Parsed, WireRead, WireWrite, Wired};
use crate::api::{ApiKey, ApiRequest};
use crate::tagged::TagBuffer;
use crate::topics::TopicMap;
use vstd::prelude::*;

verus! {

/// The offset-fetch request.
pub struct Request {
    pub group_id: String,
    pub values: TopicMap<i32>,
    /// On the wire from version 7.
    pub require_stable: Option<bool>,
    /// On the wire from version 6.
    pub tags: Option<TagBuffer>,
}

/// The fields of a `Request`, in wire order.
pub type RequestLayout = (String, (TopicMap<i32>, (Versioned<bool, 7>, Versioned<TagBuffer, 6>)));

impl Wired for Request {
    type Model = <RequestLayout as Wired>::Model;

    open spec fn model(&self) -> Self::Model {
        (self.group_id.model(), (self.values.model(), (opt_model(self.require_stable), opt_model(self.tags))))
    }

    open spec fn writable(m: Self::Model, version: nat, compact: bool) -> bool {
        <RequestLayout as Wired>::writable(m, version, compact)
    }

    open spec fn canonical(m: Self::Model, version: nat, compact: bool) -> bool {
        <RequestLayout as Wired>::canonical(m, version, compact)
    }

    open spec fn encoding(m: Self::Model, version: nat, compact: bool) -> Seq<u8> {
        <RequestLayout as Wired>::encoding(m, version, compact)
    }

    open spec fn parse(data: Seq<u8>, version: nat, compact: bool) -> Parsed<Self::Model> {
        <RequestLayout as Wired>::parse(data, version, compact)
    }

    proof fn lemma_round_trip(m: Self::Model, version: nat, compact: bool, rest: Seq<u8>) {
        <RequestLayout as Wired>::lemma_round_trip(m, version, compact, rest);
    }

    fn to_wire(&self, wire: &mut WireWrite) {
        self.put_fields(wire, false)
    }

    fn from_wire(wire: &mut WireRead) -> (r: Result<Self, Error>) {
        Self::get_fields(wire, false)
    }

    fn to_wire_compact(&self, wire: &mut WireWrite) {
        self.put_fields(wire, true)
    }

    fn from_wire_compact(wire: &mut WireRead) -> (r: Result<Self, Error>) {
        Self::get_fields(wire, true)
    }
}

impl Request {
    fn put_fields(&self, wire: &mut WireWrite, compact: bool)
        requires
            Self::writable(self.model(), old(wire).version as nat, compact),
            old(wire).has_room(Self::encoding(self.model(), old(wire).version as nat, compact).len()),
        ensures
            final(wire).version == old(wire).version,
            final(wire).bytes() == old(wire).bytes() + Self::encoding(
                self.model(),
                old(wire).version as nat,
                compact,
            ),
    {
        let ghost v = wire.version as nat;
        let ghost w0 = wire.bytes();
        proof {
            assert(<(String, (TopicMap<i32>, (Versioned<bool, 7>, Versioned<TagBuffer, 6>))) as Wired>::encoding((self.group_id.model(), (self.values.model(), (opt_model(self.require_stable), opt_model(self.tags)))), v, compact) === <String as Wired>::encoding(self.group_id.model(), v, compact) + <(TopicMap<i32>, (Versioned<bool, 7>, Versioned<TagBuffer, 6>)) as Wired>::encoding((self.values.model(), (opt_model(self.require_stable), opt_model(self.tags))), v, compact));
            assert(<(TopicMap<i32>, (Versioned<bool, 7>, Versioned<TagBuffer, 6>)) as Wired>::encoding((self.values.model(), (opt_model(self.require_stable), opt_model(self.tags))), v, compact) === <TopicMap<i32> as Wired>::encoding(self.values.model(), v, compact) + <(Versioned<bool, 7>, Versioned<TagBuffer, 6>) as Wired>::encoding((opt_model(self.require_stable), opt_model(self.tags)), v, compact));
            assert(<(Versioned<bool, 7>, Versioned<TagBuffer, 6>) as Wired>::encoding((opt_model(self.require_stable), opt_model(self.tags)), v, compact) === gate_encoding::<bool>(opt_model(self.require_stable), 7, None::<nat>, v, compact) + <Versioned<TagBuffer, 6> as Wired>::encoding(opt_model(self.tags), v, compact));
        }
        put(&self.group_id, wire, compact);
        let ghost w1 = wire.bytes();
        put(&self.values, wire, compact);
        let ghost w2 = wire.bytes();
        put_versioned(&self.require_stable, 7, None, wire, compact);
        let ghost w3 = wire.bytes();
        put_versioned(&self.tags, 6, None, wire, compact);
        let ghost w4 = wire.bytes();
        proof {
            lemma_concat_assoc(w2, gate_encoding::<bool>(opt_model(self.require_stable), 7, None::<nat>, v, compact), <Versioned<TagBuffer, 6> as Wired>::encoding(opt_model(self.tags), v, compact));
            lemma_concat_assoc(w1, <TopicMap<i32> as Wired>::encoding(self.values.model(), v, compact), <(Versioned<bool, 7>, Versioned<TagBuffer, 6>) as Wired>::encoding((opt_model(self.require_stable), opt_model(self.tags)), v, compact));
            lemma_concat_assoc(w0, <String as Wired>::encoding(self.group_id.model(), v, compact), <(TopicMap<i32>, (Versioned<bool, 7>, Versioned<TagBuffer, 6>)) as Wired>::encoding((self.values.model(), (opt_model(self.require_stable), opt_model(self.tags))), v, compact));
        }
    }

    fn get_fields(wire: &mut WireRead, compact: bool) -> (r: Result<Self, Error>)
        ensures
            final(wire).version == old(wire).version,
            match Self::parse(old(wire).rest(), old(wire).version as nat, compact) {
                Ok((m, n)) => (r matches Ok(x) && x.model() == m) && n <= old(wire).rest().len()
                    && final(wire).rest() == old(wire).rest().skip(n as int),
                Err(e) => r == Err::<Self, Error>(e),
            },
    {
        let (f_group_id, (f_values, (f_require_stable, f_tags))) = get::<RequestLayout>(wire, compact)?;
        Ok(Request { group_id: f_group_id, values: f_values, require_stable: f_require_stable.0, tags: f_tags.0 })
    }
}

/// The committed offset of one partition.
pub struct RespPartData {
    pub partition_index: i32,
    pub commited_offset: i64,
    /// On the wire from version 5.
    pub commited_leader_epoch: Option<i32>,
    pub metadata: Option<String>,
    pub error_code: i16,
    /// On the wire from version 6.
    pub tags: Option<TagBuffer>,
}

/// The fields of a `RespPartData`, in wire order.
pub type RespPartDataLayout = (i32, (i64, (Versioned<i32, 5>, (Option<String>, (i16, Versioned<TagBuffer, 6>)))));

impl Wired for RespPartData {
    type Model = <RespPartDataLayout as Wired>::Model;

    open spec fn model(&self) -> Self::Model {
        (self.partition_index.model(), (self.commited_offset.model(), (opt_model(self.commited_leader_epoch), (self.metadata.model(), (self.error_code.model(), opt_model(self.tags))))))
    }

    open spec fn writable(m: Self::Model, version: nat, compact: bool) -> bool {
        <RespPartDataLayout as Wired>::writable(m, version, compact)
    }

    open spec fn canonical(m: Self::Model, version: nat, compact: bool) -> bool {
        <RespPartDataLayout as Wired>::canonical(m, version, compact)
    }

    open spec fn encoding(m: Self::Model, version: nat, compact: bool) -> Seq<u8> {
        <RespPartDataLayout as Wired>::encoding(m, version, compact)
    }

    open spec fn parse(data: Seq<u8>, version: nat, compact: bool) -> Parsed<Self::Model> {
        <RespPartDataLayout as Wired>::parse(data, version, compact)
    }

    proof fn lemma_round_trip(m: Self::Model, version: nat, compact: bool, rest: Seq<u8>) {
        <RespPartDataLayout as Wired>::lemma_round_trip(m, version, compact, rest);
    }

    fn to_wire(&self, wire: &mut WireWrite) {
        self.put_fields(wire, false)
    }

    fn from_wire(wire: &mut WireRead) -> (r: Result<Self, Error>) {
        Self::get_fields(wire, false)
    }

    fn to_wire_compact(&self, wire: &mut WireWrite) {
        self.put_fields(wire, true)
    }

    fn from_wire_compact(wire: &mut WireRead) -> (r: Result<Self, Error>) {
        Self::get_fields(wire, true)
    }
}

impl RespPartData {
    fn put_fields(&self, wire: &mut WireWrite, compact: bool)
        requires
            Self::writable(self.model(), old(wire).version as nat, compact),
            old(wire).has_room(Self::encoding(self.model(), old(wire).version as nat, compact).len()),
        ensures
            final(wire).version == old(wire).version,
            final(wire).bytes() == old(wire).bytes() + Self::encoding(
                self.model(),
                old(wire).version as nat,
                compact,
            ),
    {
        let ghost v = wire.version as nat;
        let ghost w0 = wire.bytes();
        proof {
            assert(<(i32, (i64, (Versioned<i32, 5>, (Option<String>, (i16, Versioned<TagBuffer, 6>))))) as Wired>::encoding((self.partition_index.model(), (self.commited_offset.model(), (opt_model(self.commited_leader_epoch), (self.metadata.model(), (self.error_code.model(), opt_model(self.tags)))))), v, compact) === <i32 as Wired>::encoding(self.partition_index.model(), v, compact) + <(i64, (Versioned<i32, 5>, (Option<String>, (i16, Versioned<TagBuffer, 6>)))) as Wired>::encoding((self.commited_offset.model(), (opt_model(self.commited_leader_epoch), (self.metadata.model(), (self.error_code.model(), opt_model(self.tags))))), v, compact));
            assert(<(i64, (Versioned<i32, 5>, (Option<String>, (i16, Versioned<TagBuffer, 6>)))) as Wired>::encoding((self.commited_offset.model(), (opt_model(self.commited_leader_epoch), (self.metadata.model(), (self.error_code.model(), opt_model(self.tags))))), v, compact) === <i64 as Wired>::encoding(self.commited_offset.model(), v, compact) + <(Versioned<i32, 5>, (Option<String>, (i16, Versioned<TagBuffer, 6>))) as Wired>::encoding((opt_model(self.commited_leader_epoch), (self.metadata.model(), (self.error_code.model(), opt_model(self.tags)))), v, compact));
            assert(<(Versioned<i32, 5>, (Option<String>, (i16, Versioned<TagBuffer, 6>))) as Wired>::encoding((opt_model(self.commited_leader_epoch), (self.metadata.model(), (self.error_code.model(), opt_model(self.tags)))), v, compact) === gate_encoding::<i32>(opt_model(self.commited_leader_epoch), 5, None::<nat>, v, compact) + <(Option<String>, (i16, Versioned<TagBuffer, 6>)) as Wired>::encoding((self.metadata.model(), (self.error_code.model(), opt_model(self.tags))), v, compact));
            assert(<(Option<String>, (i16, Versioned<TagBuffer, 6>)) as Wired>::encoding((self.metadata.model(), (self.error_code.model(), opt_model(self.tags))), v, compact) === <Option<String> as Wired>::encoding(self.metadata.model(), v, compact) + <(i16, Versioned<TagBuffer, 6>) as Wired>::encoding((self.error_code.model(), opt_model(self.tags)), v, compact));
            assert(<(i16, Versioned<TagBuffer, 6>) as Wired>::encoding((self.error_code.model(), opt_model(self.tags)), v, compact) === <i16 as Wired>::encoding(self.error_code.model(), v, compact) + <Versioned<TagBuffer, 6> as Wired>::encoding(opt_model(self.tags), v, compact));
        }
        put(&self.partition_index, wire, compact);
        let ghost w1 = wire.bytes();
        put(&self.commited_offset, wire, compact);
        let ghost w2 = wire.bytes();
        put_versioned(&self.commited_leader_epoch, 5, None, wire, compact);
        let ghost w3 = wire.bytes();
        put(&self.metadata, wire, compact);
        let ghost w4 = wire.bytes();
        put(&self.error_code, wire, compact);
        let ghost w5 = wire.bytes();
        put_versioned(&self.tags, 6, None, wire, compact);
        let ghost w6 = wire.bytes();
        proof {
            lemma_concat_assoc(w4, <i16 as Wired>::encoding(self.error_code.model(), v, compact), <Versioned<TagBuffer, 6> as Wired>::encoding(opt_model(self.tags), v, compact));
            lemma_concat_assoc(w3, <Option<String> as Wired>::encoding(self.metadata.model(), v, compact), <(i16, Versioned<TagBuffer, 6>) as Wired>::encoding((self.error_code.model(), opt_model(self.tags)), v, compact));
            lemma_concat_assoc(w2, gate_encoding::<i32>(opt_model(self.commited_leader_epoch), 5, None::<nat>, v, compact), <(Option<String>, (i16, Versioned<TagBuffer, 6>)) as Wired>::encoding((self.metadata.model(), (self.error_code.model(), opt_model(self.tags))), v, compact));
            lemma_concat_assoc(w1, <i64 as Wired>::encoding(self.commited_offset.model(), v, compact), <(Versioned<i32, 5>, (Option<String>, (i16, Versioned<TagBuffer, 6>))) as Wired>::encoding((opt_model(self.commited_leader_epoch), (self.metadata.model(), (self.error_code.model(), opt_model(self.tags)))), v, compact));
            lemma_concat_assoc(w0, <i32 as Wired>::encoding(self.partition_index.model(), v, compact), <(i64, (Versioned<i32, 5>, (Option<String>, (i16, Versioned<TagBuffer, 6>)))) as Wired>::encoding((self.commited_offset.model(), (opt_model(self.commited_leader_epoch), (self.metadata.model(), (self.error_code.model(), opt_model(self.tags))))), v, compact));
        }
    }

    fn get_fields(wire: &mut WireRead, compact: bool) -> (r: Result<Self, Error>)
        ensures
            final(wire).version == old(wire).version,
            match Self::parse(old(wire).rest(), old(wire).version as nat, compact) {
                Ok((m, n)) => (r matches Ok(x) && x.model() == m) && n <= old(wire).rest().len()
                    && final(wire).rest() == old(wire).rest().skip(n as int),
                Err(e) => r == Err::<Self, Error>(e),
            },
    {
        let (f_partition_index, (f_commited_offset, (f_commited_leader_epoch, (f_metadata, (f_error_code, f_tags))))) = get::<RespPartDataLayout>(wire, compact)?;
        Ok(RespPartData { partition_index: f_partition_index, commited_offset: f_commited_offset, commited_leader_epoch: f_commited_leader_epoch.0, metadata: f_metadata, error_code: f_error_code, tags: f_tags.0 })
    }
}

/// The offset-fetch response.
pub struct Response {
    /// On the wire from version 3.
    pub throttle_time_ms: Option<i32>,
    pub topics: TopicMap<RespPartData>,
    /// On the wire from version 2.
    pub error_code: Option<i16>,
    /// On the wire from version 6.
    pub tags: Option<TagBuffer>,
}

/// The fields of a `Response`, in wire order.
pub type ResponseLayout = (Versioned<i32, 3>, (TopicMap<RespPartData>, (Versioned<i16, 2>, Versioned<TagBuffer, 6>)));

impl Wired for Response {
    type Model = <ResponseLayout as Wired>::Model;

    open spec fn model(&self) -> Self::Model {
        (opt_model(self.throttle_time_ms), (self.topics.model(), (opt_model(self.error_code), opt_model(self.tags))))
    }

    open spec fn writable(m: Self::Model, version: nat, compact: bool) -> bool {
        <ResponseLayout as Wired>::writable(m, version, compact)
    }

    open spec fn canonical(m: Self::Model, version: nat, compact: bool) -> bool {
        <ResponseLayout as Wired>::canonical(m, version, compact)
    }

    open spec fn encoding(m: Self::Model, version: nat, compact: bool) -> Seq<u8> {
        <ResponseLayout as Wired>::encoding(m, version, compact)
    }

    open spec fn parse(data: Seq<u8>, version: nat, compact: bool) -> Parsed<Self::Model> {
        <ResponseLayout as Wired>::parse(data, version, compact)
    }

    proof fn lemma_round_trip(m: Self::Model, version: nat, compact: bool, rest: Seq<u8>) {
        <ResponseLayout as Wired>::lemma_round_trip(m, version, compact, rest);
    }

    fn to_wire(&self, wire: &mut WireWrite) {
        self.put_fields(wire, false)
    }

    fn from_wire(wire: &mut WireRead) -> (r: Result<Self, Error>) {
        Self::get_fields(wire, false)
    }

    fn to_wire_compact(&self, wire: &mut WireWrite) {
        self.put_fields(wire, true)
    }

    fn from_wire_compact(wire: &mut WireRead) -> (r: Result<Self, Error>) {
        Self::get_fields(wire, true)
    }
}

impl Response {
    fn put_fields(&self, wire: &mut WireWrite, compact: bool)
        requires
            Self::writable(self.model(), old(wire).version as nat, compact),
            old(wire).has_room(Self::encoding(self.model(), old(wire).version as nat, compact).len()),
        ensures
            final(wire).version == old(wire).version,
            final(wire).bytes() == old(wire).bytes() + Self::encoding(
                self.model(),
                old(wire).version as nat,
                compact,
            ),
    {
        let ghost v = wire.version as nat;
        let ghost w0 = wire.bytes();
        proof {
            assert(<(Versioned<i32, 3>, (TopicMap<RespPartData>, (Versioned<i16, 2>, Versioned<TagBuffer, 6>))) as Wired>::encoding((opt_model(self.throttle_time_ms), (self.topics.model(), (opt_model(self.error_code), opt_model(self.tags)))), v, compact) === gate_encoding::<i32>(opt_model(self.throttle_time_ms), 3, None::<nat>, v, compact) + <(TopicMap<RespPartData>, (Versioned<i16, 2>, Versioned<TagBuffer, 6>)) as Wired>::encoding((self.topics.model(), (opt_model(self.error_code), opt_model(self.tags))), v, compact));
            assert(<(TopicMap<RespPartData>, (Versioned<i16, 2>, Versioned<TagBuffer, 6>)) as Wired>::encoding((self.topics.model(), (opt_model(self.error_code), opt_model(self.tags))), v, compact) === <TopicMap<RespPartData> as Wired>::encoding(self.topics.model(), v, compact) + <(Versioned<i16, 2>, Versioned<TagBuffer, 6>) as Wired>::encoding((opt_model(self.error_code), opt_model(self.tags)), v, compact));
            assert(<(Versioned<i16, 2>, Versioned<TagBuffer, 6>) as Wired>::encoding((opt_model(self.error_code), opt_model(self.tags)), v, compact) === gate_encoding::<i16>(opt_model(self.error_code), 2, None::<nat>, v, compact) + <Versioned<TagBuffer, 6> as Wired>::encoding(opt_model(self.tags), v, compact));
        }
        put_versioned(&self.throttle_time_ms, 3, None, wire, compact);
        let ghost w1 = wire.bytes();
        put(&self.topics, wire, compact);
        let ghost w2 = wire.bytes();
        put_versioned(&self.error_code, 2, None, wire, compact);
        let ghost w3 = wire.bytes();
        put_versioned(&self.tags, 6, None, wire, compact);
        let ghost w4 = wire.bytes();
        proof {
            lemma_concat_assoc(w2, gate_encoding::<i16>(opt_model(self.error_code), 2, None::<nat>, v, compact), <Versioned<TagBuffer, 6> as Wired>::encoding(opt_model(self.tags), v, compact));
            lemma_concat_assoc(w1, <TopicMap<RespPartData> as Wired>::encoding(self.topics.model(), v, compact), <(Versioned<i16, 2>, Versioned<TagBuffer, 6>) as Wired>::encoding((opt_model(self.error_code), opt_model(self.tags)), v, compact));
            lemma_concat_assoc(w0, gate_encoding::<i32>(opt_model(self.throttle_time_ms), 3, None::<nat>, v, compact), <(TopicMap<RespPartData>, (Versioned<i16, 2>, Versioned<TagBuffer, 6>)) as Wired>::encoding((self.topics.model(), (opt_model(self.error_code), opt_model(self.tags))), v, compact));
        }
    }

    fn get_fields(wire: &mut WireRead, compact: bool) -> (r: Result<Self, Error>)
        ensures
            final(wire).version == old(wire).version,
            match Self::parse(old(wire).rest(), old(wire).version as nat, compact) {
                Ok((m, n)) => (r matches Ok(x) && x.model() == m) && n <= old(wire).rest().len()
                    && final(wire).rest() == old(wire).rest().skip(n as int),
                Err(e) => r == Err::<Self, Error>(e),
            },
    {
        let (f_throttle_time_ms, (f_topics, (f_error_code, f_tags))) = get::<ResponseLayout>(wire, compact)?;
        Ok(Response { throttle_time_ms: f_throttle_time_ms.0, topics: f_topics, error_code: f_error_code.0, tags: f_tags.0 })
    }
}

impl ApiRequest for Request {
    type Response = Response;

    open spec fn key() -> ApiKey {
        ApiKey::OffsetFetch
    }

    open spec fn flexible_from() -> nat {
        6
    }

    fn api_key() -> (r: ApiKey) {
        ApiKey::OffsetFetch
    }

    fn flexible_version() -> (r: usize) {
        6
    }
}

} // verus!
