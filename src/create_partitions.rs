//! The create-partitions message.
use crate::compose::{get, lemma_concat_assoc, opt_model, put, put_versioned, Versioned};
use crate::error::Error;
use crate::wire::{Parsed, WireRead, WireWrite, Wired};
use crate::api::{ApiKey, ApiRequest};
use crate::tagged::TagBuffer;
use vstd::prelude::*;

verus! {

/// A topic to add partitions to.
pub struct TopicItem {
    pub name: String,
    pub count: i32,
    pub assignments: Vec<i32>,
    /// On the wire from version 6.
    pub tags: Option<TagBuffer>,
}

/// The fields of a `TopicItem`, in wire order.
pub type TopicItemLayout = (String, (i32, (Vec<i32>, Versioned<TagBuffer, 6>)));

impl Wired for TopicItem {
    type Model = <TopicItemLayout as Wired>::Model;

    open spec fn model(&self) -> Self::Model {
        (self.name.model(), (self.count.model(), (self.assignments.model(), opt_model(self.tags))))
    }

    open spec fn writable(m: Self::Model, version: nat, compact: bool) -> bool {
        <TopicItemLayout as Wired>::writable(m, version, compact)
    }

    open spec fn canonical(m: Self::Model, version: nat, compact: bool) -> bool {
        <TopicItemLayout as Wired>::canonical(m, version, compact)
    }

    open spec fn encoding(m: Self::Model, version: nat, compact: bool) -> Seq<u8> {
        <TopicItemLayout as Wired>::encoding(m, version, compact)
    }

    open spec fn parse(data: Seq<u8>, version: nat, compact: bool) -> Parsed<Self::Model> {
        <TopicItemLayout as Wired>::parse(data, version, compact)
    }

    proof fn lemma_round_trip(m: Self::Model, version: nat, compact: bool, rest: Seq<u8>) {
        <TopicItemLayout as Wired>::lemma_round_trip(m, version, compact, rest);
    }

    fn to_wire(&self, wire: &mut WireWrite) {
        self.put_fields(wire, false)
    }

    fn from_wire(wire: &mut WireRead) -> (r: Result<Self, Error>) {
        Self::get_fields(wire, false)
    }

    fn to_wire_compact(&self, wire: &mut WireWrite) {
        self.put_fields(wire, true)
    }

    fn from_wire_compact(wire: &mut WireRead) -> (r: Result<Self, Error>) {
        Self::get_fields(wire, true)
    }
}

impl TopicItem {
    fn put_fields(&self, wire: &mut WireWrite, compact: bool)
        requires
            Self::writable(self.model(), old(wire).version as nat, compact),
            old(wire).has_room(Self::encoding(self.model(), old(wire).version as nat, compact).len()),
        ensures
            final(wire).version == old(wire).version,
            final(wire).bytes() == old(wire).bytes() + Self::encoding(
                self.model(),
                old(wire).version as nat,
                compact,
            ),
    {
        let ghost v = wire.version as nat;
        let ghost w0 = wire.bytes();
        proof {
            assert(<(String, (i32, (Vec<i32>, Versioned<TagBuffer, 6>))) as Wired>::encoding((self.name.model(), (self.count.model(), (self.assignments.model(), opt_model(self.tags)))), v, compact) === <String as Wired>::encoding(self.name.model(), v, compact) + <(i32, (Vec<i32>, Versioned<TagBuffer, 6>)) as Wired>::encoding((self.count.model(), (self.assignments.model(), opt_model(self.tags))), v, compact));
            assert(<(i32, (Vec<i32>, Versioned<TagBuffer, 6>)) as Wired>::encoding((self.count.model(), (self.assignments.model(), opt_model(self.tags))), v, compact) === <i32 as Wired>::encoding(self.count.model(), v, compact) + <(Vec<i32>, Versioned<TagBuffer, 6>) as Wired>::encoding((self.assignments.model(), opt_model(self.tags)), v, compact));
            assert(<(Vec<i32>, Versioned<TagBuffer, 6>) as Wired>::encoding((self.assignments.model(), opt_model(self.tags)), v, compact) === <Vec<i32> as Wired>::encoding(self.assignments.model(), v, compact) + <Versioned<TagBuffer, 6> as Wired>::encoding(opt_model(self.tags), v, compact));
        }
        put(&self.name, wire, compact);
        let ghost w1 = wire.bytes();
        put(&self.count, wire, compact);
        let ghost w2 = wire.bytes();
        put(&self.assignments, wire, compact);
        let ghost w3 = wire.bytes();
        put_versioned(&self.tags, 6, None, wire, compact);
        let ghost w4 = wire.bytes();
        proof {
            lemma_concat_assoc(w2, <Vec<i32> as Wired>::encoding(self.assignments.model(), v, compact), <Versioned<TagBuffer, 6> as Wired>::encoding(opt_model(self.tags), v, compact));
            lemma_concat_assoc(w1, <i32 as Wired>::encoding(self.count.model(), v, compact), <(Vec<i32>, Versioned<TagBuffer, 6>) as Wired>::encoding((self.assignments.model(), opt_model(self.tags)), v, compact));
            lemma_concat_assoc(w0, <String as Wired>::encoding(self.name.model(), v, compact), <(i32, (Vec<i32>, Versioned<TagBuffer, 6>)) as Wired>::encoding((self.count.model(), (self.assignments.model(), opt_model(self.tags))), v, compact));
        }
    }

    fn get_fields(wire: &mut WireRead, compact: bool) -> (r: Result<Self, Error>)
        ensures
            final(wire).version == old(wire).version,
            match Self::parse(old(wire).rest(), old(wire).version as nat, compact) {
                Ok((m, n)) => (r matches Ok(x) && x.model() == m) && n <= old(wire).rest().len()
                    && final(wire).rest() == old(wire).rest().skip(n as int),
                Err(e) => r == Err::<Self, Error>(e),
            },
    {
        let (f_name, (f_count, (f_assignments, f_tags))) = get::<TopicItemLayout>(wire, compact)?;
        Ok(TopicItem { name: f_name, count: f_count, assignments: f_assignments, tags: f_tags.0 })
    }
}

/// The create-partitions request.
pub struct Request {
    pub topics: Vec<TopicItem>,
    pub timeout_ms: i32,
    pub validate_only: bool,
    /// On the wire from version 6.
    pub tags: Option<TagBuffer>,
}

/// The fields of a `Request`, in wire order.
pub type RequestLayout = (Vec<TopicItem>, (i32, (bool, Versioned<TagBuffer, 6>)));

impl Wired for Request {
    type Model = <RequestLayout as Wired>::Model;

    open spec fn model(&self) -> Self::Model {
        (self.topics.model(), (self.timeout_ms.model(), (self.validate_only.model(), opt_model(self.tags))))
    }

    open spec fn writable(m: Self::Model, version: nat, compact: bool) -> bool {
        <RequestLayout as Wired>::writable(m, version, compact)
    }

    open spec fn canonical(m: Self::Model, version: nat, compact: bool) -> bool {
        <RequestLayout as Wired>::canonical(m, version, compact)
    }

    open spec fn encoding(m: Self::Model, version: nat, compact: bool) -> Seq<u8> {
        <RequestLayout as Wired>::encoding(m, version, compact)
    }

    open spec fn parse(data: Seq<u8>, version: nat, compact: bool) -> Parsed<Self::Model> {
        <RequestLayout as Wired>::parse(data, version, compact)
    }

    proof fn lemma_round_trip(m: Self::Model, version: nat, compact: bool, rest: Seq<u8>) {
        <RequestLayout as Wired>::lemma_round_trip(m, version, compact, rest);
    }

    fn to_wire(&self, wire: &mut WireWrite) {
        self.put_fields(wire, false)
    }

    fn from_wire(wire: &mut WireRead) -> (r: Result<Self, Error>) {
        Self::get_fields(wire, false)
    }

    fn to_wire_compact(&self, wire: &mut WireWrite) {
        self.put_fields(wire, true)
    }

    fn from_wire_compact(wire: &mut WireRead) -> (r: Result<Self, Error>) {
        Self::get_fields(wire, true)
    }
}

impl Request {
    fn put_fields(&self, wire: &mut WireWrite, compact: bool)
        requires
            Self::writable(self.model(), old(wire).version as nat, compact),
            old(wire).has_room(Self::encoding(self.model(), old(wire).version as nat, compact).len()),
        ensures
            final(wire).version == old(wire).version,
            final(wire).bytes() == old(wire).bytes() + Self::encoding(
                self.model(),
                old(wire).version as nat,
                compact,
            ),
    {
        let ghost v = wire.version as nat;
        let ghost w0 = wire.bytes();
        proof {
            assert(<(Vec<TopicItem>, (i32, (bool, Versioned<TagBuffer, 6>))) as Wired>::encoding((self.topics.model(), (self.timeout_ms.model(), (self.validate_only.model(), opt_model(self.tags)))), v, compact) === <Vec<TopicItem> as Wired>::encoding(self.topics.model(), v, compact) + <(i32, (bool, Versioned<TagBuffer, 6>)) as Wired>::encoding((self.timeout_ms.model(), (self.validate_only.model(), opt_model(self.tags))), v, compact));
            assert(<(i32, (bool, Versioned<TagBuffer, 6>)) as Wired>::encoding((self.timeout_ms.model(), (self.validate_only.model(), opt_model(self.tags))), v, compact) === <i32 as Wired>::encoding(self.timeout_ms.model(), v, compact) + <(bool, Versioned<TagBuffer, 6>) as Wired>::encoding((self.validate_only.model(), opt_model(self.tags)), v, compact));
            assert(<(bool, Versioned<TagBuffer, 6>) as Wired>::encoding((self.validate_only.model(), opt_model(self.tags)), v, compact) === <bool as Wired>::encoding(self.validate_only.model(), v, compact) + <Versioned<TagBuffer, 6> as Wired>::encoding(opt_model(self.tags), v, compact));
        }
        put(&self.topics, wire, compact);
        let ghost w1 = wire.bytes();
        put(&self.timeout_ms, wire, compact);
        let ghost w2 = wire.bytes();
        put(&self.validate_only, wire, compact);
        let ghost w3 = wire.bytes();
        put_versioned(&self.tags, 6, None, wire, compact);
        let ghost w4 = wire.bytes();
        proof {
            lemma_concat_assoc(w2, <bool as Wired>::encoding(self.validate_only.model(), v, compact), <Versioned<TagBuffer, 6> as Wired>::encoding(opt_model(self.tags), v, compact));
            lemma_concat_assoc(w1, <i32 as Wired>::encoding(self.timeout_ms.model(), v, compact), <(bool, Versioned<TagBuffer, 6>) as Wired>::encoding((self.validate_only.model(), opt_model(self.tags)), v, compact));
            lemma_concat_assoc(w0, <Vec<TopicItem> as Wired>::encoding(self.topics.model(), v, compact), <(i32, (bool, Versioned<TagBuffer, 6>)) as Wired>::encoding((self.timeout_ms.model(), (self.validate_only.model(), opt_model(self.tags))), v, compact));
        }
    }

    fn get_fields(wire: &mut WireRead, compact: bool) -> (r: Result<Self, Error>)
        ensures
            final(wire).version == old(wire).version,
            match Self::parse(old(wire).rest(), old(wire).version as nat, compact) {
                Ok((m, n)) => (r matches Ok(x) && x.model() == m) && n <= old(wire).rest().len()
                    && final(wire).rest() == old(wire).rest().skip(n as int),
                Err(e) => r == Err::<Self, Error>(e),
            },
    {
        let (f_topics, (f_timeout_ms, (f_validate_only, f_tags))) = get::<RequestLayout>(wire, compact)?;
        Ok(Request { topics: f_topics, timeout_ms: f_timeout_ms, validate_only: f_validate_only, tags: f_tags.0 })
    }
}

/// The outcome for one topic.
pub struct ResItem {
    pub name: String,
    pub error_code: i16,
    pub error_message: Option<String>,
    /// On the wire from version 2.
    pub tags: Option<TagBuffer>,
}

/// The fields of a `ResItem`, in wire order.
pub type ResItemLayout = (String, (i16, (Option<String>, Versioned<TagBuffer, 2>)));

impl Wired for ResItem {
    type Model = <ResItemLayout as Wired>::Model;

    open spec fn model(&self) -> Self::Model {
        (self.name.model(), (self.error_code.model(), (self.error_message.model(), opt_model(self.tags))))
    }

    open spec fn writable(m: Self::Model, version: nat, compact: bool) -> bool {
        <ResItemLayout as Wired>::writable(m, version, compact)
    }

    open spec fn canonical(m: Self::Model, version: nat, compact: bool) -> bool {
        <ResItemLayout as Wired>::canonical(m, version, compact)
    }

    open spec fn encoding(m: Self::Model, version: nat, compact: bool) -> Seq<u8> {
        <ResItemLayout as Wired>::encoding(m, version, compact)
    }

    open spec fn parse(data: Seq<u8>, version: nat, compact: bool) -> Parsed<Self::Model> {
        <ResItemLayout as Wired>::parse(data, version, compact)
    }

    proof fn lemma_round_trip(m: Self::Model, version: nat, compact: bool, rest: Seq<u8>) {
        <ResItemLayout as Wired>::lemma_round_trip(m, version, compact, rest);
    }

    fn to_wire(&self, wire: &mut WireWrite) {
        self.put_fields(wire, false)
    }

    fn from_wire(wire: &mut WireRead) -> (r: Result<Self, Error>) {
        Self::get_fields(wire, false)
    }

    fn to_wire_compact(&self, wire: &mut WireWrite) {
        self.put_fields(wire, true)
    }

    fn from_wire_compact(wire: &mut WireRead) -> (r: Result<Self, Error>) {
        Self::get_fields(wire, true)
    }
}

impl ResItem {
    fn put_fields(&self, wire: &mut WireWrite, compact: bool)
        requires
            Self::writable(self.model(), old(wire).version as nat, compact),
            old(wire).has_room(Self::encoding(self.model(), old(wire).version as nat, compact).len()),
        ensures
            final(wire).version == old(wire).version,
            final(wire).bytes() == old(wire).bytes() + Self::encoding(
                self.model(),
                old(wire).version as nat,
                compact,
            ),
    {
        let ghost v = wire.version as nat;
        let ghost w0 = wire.bytes();
        proof {
            assert(<(String, (i16, (Option<String>, Versioned<TagBuffer, 2>))) as Wired>::encoding((self.name.model(), (self.error_code.model(), (self.error_message.model(), opt_model(self.tags)))), v, compact) === <String as Wired>::encoding(self.name.model(), v, compact) + <(i16, (Option<String>, Versioned<TagBuffer, 2>)) as Wired>::encoding((self.error_code.model(), (self.error_message.model(), opt_model(self.tags))), v, compact));
            assert(<(i16, (Option<String>, Versioned<TagBuffer, 2>)) as Wired>::encoding((self.error_code.model(), (self.error_message.model(), opt_model(self.tags))), v, compact) === <i16 as Wired>::encoding(self.error_code.model(), v, compact) + <(Option<String>, Versioned<TagBuffer, 2>) as Wired>::encoding((self.error_message.model(), opt_model(self.tags)), v, compact));
            assert(<(Option<String>, Versioned<TagBuffer, 2>) as Wired>::encoding((self.error_message.model(), opt_model(self.tags)), v, compact) === <Option<String> as Wired>::encoding(self.error_message.model(), v, compact) + <Versioned<TagBuffer, 2> as Wired>::encoding(opt_model(self.tags), v, compact));
        }
        put(&self.name, wire, compact);
        let ghost w1 = wire.bytes();
        put(&self.error_code, wire, compact);
        let ghost w2 = wire.bytes();
        put(&self.error_message, wire, compact);
        let ghost w3 = wire.bytes();
        put_versioned(&self.tags, 2, None, wire, compact);
        let ghost w4 = wire.bytes();
        proof {
            lemma_concat_assoc(w2, <Option<String> as Wired>::encoding(self.error_message.model(), v, compact), <Versioned<TagBuffer, 2> as Wired>::encoding(opt_model(self.tags), v, compact));
            lemma_concat_assoc(w1, <i16 as Wired>::encoding(self.error_code.model(), v, compact), <(Option<String>, Versioned<TagBuffer, 2>) as Wired>::encoding((self.error_message.model(), opt_model(self.tags)), v, compact));
            lemma_concat_assoc(w0, <String as Wired>::encoding(self.name.model(), v, compact), <(i16, (Option<String>, Versioned<TagBuffer, 2>)) as Wired>::encoding((self.error_code.model(), (self.error_message.model(), opt_model(self.tags))), v, compact));
        }
    }

    fn get_fields(wire: &mut WireRead, compact: bool) -> (r: Result<Self, Error>)
        ensures
            final(wire).version == old(wire).version,
            match Self::parse(old(wire).rest(), old(wire).version as nat, compact) {
                Ok((m, n)) => (r matches Ok(x) && x.model() == m) && n <= old(wire).rest().len()
                    && final(wire).rest() == old(wire).rest().skip(n as int),
                Err(e) => r == Err::<Self, Error>(e),
            },
    {
        let (f_name, (f_error_code, (f_error_message, f_tags))) = get::<ResItemLayout>(wire, compact)?;
        Ok(ResItem { name: f_name, error_code: f_error_code, error_message: f_error_message, tags: f_tags.0 })
    }
}

/// The create-partitions response.
pub struct Response {
    pub throttle_time_ms: i32,
    pub results: Vec<ResItem>,
    /// On the wire from version 2.
    pub tags: Option<TagBuffer>,
}

/// The fields of a `Response`, in wire order.
pub type ResponseLayout = (i32, (Vec<ResItem>, Versioned<TagBuffer, 2>));

impl Wired for Response {
    type Model = <ResponseLayout as Wired>::Model;

    open spec fn model(&self) -> Self::Model {
        (self.throttle_time_ms.model(), (self.results.model(), opt_model(self.tags)))
    }

    open spec fn writable(m: Self::Model, version: nat, compact: bool) -> bool {
        <ResponseLayout as Wired>::writable(m, version, compact)
    }

    open spec fn canonical(m: Self::Model, version: nat, compact: bool) -> bool {
        <ResponseLayout as Wired>::canonical(m, version, compact)
    }

    open spec fn encoding(m: Self::Model, version: nat, compact: bool) -> Seq<u8> {
        <ResponseLayout as Wired>::encoding(m, version, compact)
    }

    open spec fn parse(data: Seq<u8>, version: nat, compact: bool) -> Parsed<Self::Model> {
        <ResponseLayout as Wired>::parse(data, version, compact)
    }

    proof fn lemma_round_trip(m: Self::Model, version: nat, compact: bool, rest: Seq<u8>) {
        <ResponseLayout as Wired>::lemma_round_trip(m, version, compact, rest);
    }

    fn to_wire(&self, wire: &mut WireWrite) {
        self.put_fields(wire, false)
    }

    fn from_wire(wire: &mut WireRead) -> (r: Result<Self, Error>) {
        Self::get_fields(wire, false)
    }

    fn to_wire_compact(&self, wire: &mut WireWrite) {
        self.put_fields(wire, true)
    }

    fn from_wire_compact(wire: &mut WireRead) -> (r: Result<Self, Error>) {
        Self::get_fields(wire, true)
    }
}

impl Response {
    fn put_fields(&self, wire: &mut WireWrite, compact: bool)
        requires
            Self::writable(self.model(), old(wire).version as nat, compact),
            old(wire).has_room(Self::encoding(self.model(), old(wire).version as nat, compact).len()),
        ensures
            final(wire).version == old(wire).version,
            final(wire).bytes() == old(wire).bytes() + Self::encoding(
                self.model(),
                old(wire).version as nat,
                compact,
            ),
    {
        let ghost v = wire.version as nat;
        let ghost w0 = wire.bytes();
        proof {
            assert(<(i32, (Vec<ResItem>, Versioned<TagBuffer, 2>)) as Wired>::encoding((self.throttle_time_ms.model(), (self.results.model(), opt_model(self.tags))), v, compact) === <i32 as Wired>::encoding(self.throttle_time_ms.model(), v, compact) + <(Vec<ResItem>, Versioned<TagBuffer, 2>) as Wired>::encoding((self.results.model(), opt_model(self.tags)), v, compact));
            assert(<(Vec<ResItem>, Versioned<TagBuffer, 2>) as Wired>::encoding((self.results.model(), opt_model(self.tags)), v, compact) === <Vec<ResItem> as Wired>::encoding(self.results.model(), v, compact) + <Versioned<TagBuffer, 2> as Wired>::encoding(opt_model(self.tags), v, compact));
        }
        put(&self.throttle_time_ms, wire, compact);
        let ghost w1 = wire.bytes();
        put(&self.results, wire, compact);
        let ghost w2 = wire.bytes();
        put_versioned(&self.tags, 2, None, wire, compact);
        let ghost w3 = wire.bytes();
        proof {
            lemma_concat_assoc(w1, <Vec<ResItem> as Wired>::encoding(self.results.model(), v, compact), <Versioned<TagBuffer, 2> as Wired>::encoding(opt_model(self.tags), v, compact));
            lemma_concat_assoc(w0, <i32 as Wired>::encoding(self.throttle_time_ms.model(), v, compact), <(Vec<ResItem>, Versioned<TagBuffer, 2>) as Wired>::encoding((self.results.model(), opt_model(self.tags)), v, compact));
        }
    }

    fn get_fields(wire: &mut WireRead, compact: bool) -> (r: Result<Self, Error>)
        ensures
            final(wire).version == old(wire).version,
            match Self::parse(old(wire).rest(), old(wire).version as nat, compact) {
                Ok((m, n)) => (r matches Ok(x) && x.model() == m) && n <= old(wire).rest().len()
                    && final(wire).rest() == old(wire).rest().skip(n as int),
                Err(e) => r == Err::<Self, Error>(e),
            },
    {
        let (f_throttle_time_ms, (f_results, f_tags)) = get::<ResponseLayout>(wire, compact)?;
        Ok(Response { throttle_time_ms: f_throttle_time_ms, results: f_results, tags: f_tags.0 })
    }
}

impl ApiRequest for Request {
    type Response = Response;

    open spec fn key() -> ApiKey {
        ApiKey::CreatePartitions
    }

    open spec fn flexible_from() -> nat {
        2
    }

    fn api_key() -> (r: ApiKey) {
        ApiKey::CreatePartitions
    }

    fn flexible_version() -> (r: usize) {
        2
    }
}

} // verus!
