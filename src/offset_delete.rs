//! The offset-delete message of consumer groups.
use crate::compose::{get, lemma_concat_assoc, opt_model, put, put_versioned};
use crate::error::Error;
use crate::wire::{Parsed, WireRead, WireWrite, Wired};
use crate::api::{ApiKey, ApiRequest};
use crate::topics::TopicMap;
use vstd::prelude::*;

verus! {

/// The offset-delete request.
pub struct Request {
    pub group_id: String,
    pub topics: TopicMap<i32>,
}

/// The fields of a `Request`, in wire order.
pub type RequestLayout = (String, TopicMap<i32>);

impl Wired for Request {
    type Model = <RequestLayout as Wired>::Model;

    open spec fn model(&self) -> Self::Model {
        (self.group_id.model(), self.topics.model())
    }

    open spec fn writable(m: Self::Model, version: nat, compact: bool) -> bool {
        <RequestLayout as Wired>::writable(m, version, compact)
    }

    open spec fn canonical(m: Self::Model, version: nat, compact: bool) -> bool {
        <RequestLayout as Wired>::canonical(m, version, compact)
    }

    open spec fn encoding(m: Self::Model, version: nat, compact: bool) -> Seq<u8> {
        <RequestLayout as Wired>::encoding(m, version, compact)
    }

    open spec fn parse(data: Seq<u8>, version: nat, compact: bool) -> Parsed<Self::Model> {
        <RequestLayout as Wired>::parse(data, version, compact)
    }

    proof fn lemma_round_trip(m: Self::Model, version: nat, compact: bool, rest: Seq<u8>) {
        <RequestLayout as Wired>::lemma_round_trip(m, version, compact, rest);
    }

    fn to_wire(&self, wire: &mut WireWrite) {
        self.put_fields(wire, false)
    }

    fn from_wire(wire: &mut WireRead) -> (r: Result<Self, Error>) {
        Self::get_fields(wire, false)
    }

    fn to_wire_compact(&self, wire: &mut WireWrite) {
        self.put_fields(wire, true)
    }

    fn from_wire_compact(wire: &mut WireRead) -> (r: Result<Self, Error>) {
        Self::get_fields(wire, true)
    }
}

impl Request {
    fn put_fields(&self, wire: &mut WireWrite, compact: bool)
        requires
            Self::writable(self.model(), old(wire).version as nat, compact),
            old(wire).has_room(Self::encoding(self.model(), old(wire).version as nat, compact).len()),
        ensures
            final(wire).version == old(wire).version,
            final(wire).bytes() == old(wire).bytes() + Self::encoding(
                self.model(),
                old(wire).version as nat,
                compact,
            ),
    {
        let ghost v = wire.version as nat;
        let ghost w0 = wire.bytes();
        proof {
            assert(<(String, TopicMap<i32>) as Wired>::encoding((self.group_id.model(), self.topics.model()), v, compact) === <String as Wired>::encoding(self.group_id.model(), v, compact) + <TopicMap<i32> as Wired>::encoding(self.topics.model(), v, compact));
        }
        put(&self.group_id, wire, compact);
        let ghost w1 = wire.bytes();
        put(&self.topics, wire, compact);
        let ghost w2 = wire.bytes();
        proof {
            lemma_concat_assoc(w0, <String as Wired>::encoding(self.group_id.model(), v, compact), <TopicMap<i32> as Wired>::encoding(self.topics.model(), v, compact));
        }
    }

    fn get_fields(wire: &mut WireRead, compact: bool) -> (r: Result<Self, Error>)
        ensures
            final(wire).version == old(wire).version,
            match Self::parse(old(wire).rest(), old(wire).version as nat, compact) {
                Ok((m, n)) => (r matches Ok(x) && x.model() == m) && n <= old(wire).rest().len()
                    && final(wire).rest() == old(wire).rest().skip(n as int),
                Err(e) => r == Err::<Self, Error>(e),
            },
    {
        let (f_group_id, f_topics) = get::<RequestLayout>(wire, compact)?;
        Ok(Request { group_id: f_group_id, topics: f_topics })
    }
}

/// The outcome for one partition.
pub struct RespPart {
    pub partition_index: i32,
    pub error_code: i16,
}

/// The fields of a `RespPart`, in wire order.
pub type RespPartLayout = (i32, i16);

impl Wired for RespPart {
    type Model = <RespPartLayout as Wired>::Model;

    open spec fn model(&self) -> Self::Model {
        (self.partition_index.model(), self.error_code.model())
    }

    open spec fn writable(m: Self::Model, version: nat, compact: bool) -> bool {
        <RespPartLayout as Wired>::writable(m, version, compact)
    }

    open spec fn canonical(m: Self::Model, version: nat, compact: bool) -> bool {
        <RespPartLayout as Wired>::canonical(m, version, compact)
    }

    open spec fn encoding(m: Self::Model, version: nat, compact: bool) -> Seq<u8> {
        <RespPartLayout as Wired>::encoding(m, version, compact)
    }

    open spec fn parse(data: Seq<u8>, version: nat, compact: bool) -> Parsed<Self::Model> {
        <RespPartLayout as Wired>::parse(data, version, compact)
    }

    proof fn lemma_round_trip(m: Self::Model, version: nat, compact: bool, rest: Seq<u8>) {
        <RespPartLayout as Wired>::lemma_round_trip(m, version, compact, rest);
    }

    fn to_wire(&self, wire: &mut WireWrite) {
        self.put_fields(wire, false)
    }

    fn from_wire(wire: &mut WireRead) -> (r: Result<Self, Error>) {
        Self::get_fields(wire, false)
    }

    fn to_wire_compact(&self, wire: &mut WireWrite) {
        self.put_fields(wire, true)
    }

    fn from_wire_compact(wire: &mut WireRead) -> (r: Result<Self, Error>) {
        Self::get_fields(wire, true)
    }
}

impl RespPart {
    fn put_fields(&self, wire: &mut WireWrite, compact: bool)
        requires
            Self::writable(self.model(), old(wire).version as nat, compact),
            old(wire).has_room(Self::encoding(self.model(), old(wire).version as nat, compact).len()),
        ensures
            final(wire).version == old(wire).version,
            final(wire).bytes() == old(wire).bytes() + Self::encoding(
                self.model(),
                old(wire).version as nat,
                compact,
            ),
    {
        let ghost v = wire.version as nat;
        let ghost w0 = wire.bytes();
        proof {
            assert(<(i32, i16) as Wired>::encoding((self.partition_index.model(), self.error_code.model()), v, compact) === <i32 as Wired>::encoding(self.partition_index.model(), v, compact) + <i16 as Wired>::encoding(self.error_code.model(), v, compact));
        }
        put(&self.partition_index, wire, compact);
        let ghost w1 = wire.bytes();
        put(&self.error_code, wire, compact);
        let ghost w2 = wire.bytes();
        proof {
            lemma_concat_assoc(w0, <i32 as Wired>::encoding(self.partition_index.model(), v, compact), <i16 as Wired>::encoding(self.error_code.model(), v, compact));
        }
    }

    fn get_fields(wire: &mut WireRead, compact: bool) -> (r: Result<Self, Error>)
        ensures
            final(wire).version == old(wire).version,
            match Self::parse(old(wire).rest(), old(wire).version as nat, compact) {
                Ok((m, n)) => (r matches Ok(x) && x.model() == m) && n <= old(wire).rest().len()
                    && final(wire).rest() == old(wire).rest().skip(n as int),
                Err(e) => r == Err::<Self, Error>(e),
            },
    {
        let (f_partition_index, f_error_code) = get::<RespPartLayout>(wire, compact)?;
        Ok(RespPart { partition_index: f_partition_index, error_code: f_error_code })
    }
}

/// The offset-delete response.
pub struct Response {
    pub error_code: i16,
    pub throttle_time_ms: i32,
    pub topics: TopicMap<RespPart>,
}

/// The fields of a `Response`, in wire order.
pub type ResponseLayout = (i16, (i32, TopicMap<RespPart>));

impl Wired for Response {
    type Model = <ResponseLayout as Wired>::Model;

    open spec fn model(&self) -> Self::Model {
        (self.error_code.model(), (self.throttle_time_ms.model(), self.topics.model()))
    }

    open spec fn writable(m: Self::Model, version: nat, compact: bool) -> bool {
        <ResponseLayout as Wired>::writable(m, version, compact)
    }

    open spec fn canonical(m: Self::Model, version: nat, compact: bool) -> bool {
        <ResponseLayout as Wired>::canonical(m, version, compact)
    }

    open spec fn encoding(m: Self::Model, version: nat, compact: bool) -> Seq<u8> {
        <ResponseLayout as Wired>::encoding(m, version, compact)
    }

    open spec fn parse(data: Seq<u8>, version: nat, compact: bool) -> Parsed<Self::Model> {
        <ResponseLayout as Wired>::parse(data, version, compact)
    }

    proof fn lemma_round_trip(m: Self::Model, version: nat, compact: bool, rest: Seq<u8>) {
        <ResponseLayout as Wired>::lemma_round_trip(m, version, compact, rest);
    }

    fn to_wire(&self, wire: &mut WireWrite) {
        self.put_fields(wire, false)
    }

    fn from_wire(wire: &mut WireRead) -> (r: Result<Self, Error>) {
        Self::get_fields(wire, false)
    }

    fn to_wire_compact(&self, wire: &mut WireWrite) {
        self.put_fields(wire, true)
    }

    fn from_wire_compact(wire: &mut WireRead) -> (r: Result<Self, Error>) {
        Self::get_fields(wire, true)
    }
}

impl Response {
    fn put_fields(&self, wire: &mut WireWrite, compact: bool)
        requires
            Self::writable(self.model(), old(wire).version as nat, compact),
            old(wire).has_room(Self::encoding(self.model(), old(wire).version as nat, compact).len()),
        ensures
            final(wire).version == old(wire).version,
            final(wire).bytes() == old(wire).bytes() + Self::encoding(
                self.model(),
                old(wire).version as nat,
                compact,
            ),
    {
        let ghost v = wire.version as nat;
        let ghost w0 = wire.bytes();
        proof {
            assert(<(i16, (i32, TopicMap<RespPart>)) as Wired>::encoding((self.error_code.model(), (self.throttle_time_ms.model(), self.topics.model())), v, compact) === <i16 as Wired>::encoding(self.error_code.model(), v, compact) + <(i32, TopicMap<RespPart>) as Wired>::encoding((self.throttle_time_ms.model(), self.topics.model()), v, compact));
            assert(<(i32, TopicMap<RespPart>) as Wired>::encoding((self.throttle_time_ms.model(), self.topics.model()), v, compact) === <i32 as Wired>::encoding(self.throttle_time_ms.model(), v, compact) + <TopicMap<RespPart> as Wired>::encoding(self.topics.model(), v, compact));
        }
        put(&self.error_code, wire, compact);
        let ghost w1 = wire.bytes();
        put(&self.throttle_time_ms, wire, compact);
        let ghost w2 = wire.bytes();
        put(&self.topics, wire, compact);
        let ghost w3 = wire.bytes();
        proof {
            lemma_concat_assoc(w1, <i32 as Wired>::encoding(self.throttle_time_ms.model(), v, compact), <TopicMap<RespPart> as Wired>::encoding(self.topics.model(), v, compact));
            lemma_concat_assoc(w0, <i16 as Wired>::encoding(self.error_code.model(), v, compact), <(i32, TopicMap<RespPart>) as Wired>::encoding((self.throttle_time_ms.model(), self.topics.model()), v, compact));
        }
    }

    fn get_fields(wire: &mut WireRead, compact: bool) -> (r: Result<Self, Error>)
        ensures
            final(wire).version == old(wire).version,
            match Self::parse(old(wire).rest(), old(wire).version as nat, compact) {
                Ok((m, n)) => (r matches Ok(x) && x.model() == m) && n <= old(wire).rest().len()
                    && final(wire).rest() == old(wire).rest().skip(n as int),
                Err(e) => r == Err::<Self, Error>(e),
            },
    {
        let (f_error_code, (f_throttle_time_ms, f_topics)) = get::<ResponseLayout>(wire, compact)?;
        Ok(Response { error_code: f_error_code, throttle_time_ms: f_throttle_time_ms, topics: f_topics })
    }
}

impl ApiRequest for Request {
    type Response = ();

    open spec fn key() -> ApiKey {
        ApiKey::OffsetDelete
    }

    open spec fn flexible_from() -> nat {
        99
    }

    fn api_key() -> (r: ApiKey) {
        ApiKey::OffsetDelete
    }

    fn flexible_version() -> (r: usize) {
        99
    }
}

} // verus!
