//! The find-coordinator message.
use crate::compose::{get, gate_encoding, lemma_concat_assoc, opt_model, put, put_versioned, Versioned};
use crate::error::Error;
use crate::wire::{Parsed, WireRead, WireWrite, Wired};
use crate::api::{ApiKey, ApiRequest};
use crate::tagged::TagBuffer;
use vstd::prelude::*;

verus! {

/// The find-coordinator request.
pub struct Request {
    pub key: String,
    /// On the wire from version 1.
    pub key_type: Option<i8>,
    /// On the wire from version 3.
    pub tags: Option<TagBuffer>,
}

/// The fields of a `Request`, in wire order.
pub type RequestLayout = (String, (Versioned<i8, 1>, Versioned<TagBuffer, 3>));

impl Wired for Request {
    type Model = <RequestLayout as Wired>::Model;

    open spec fn model(&self) -> Self::Model {
        (self.key.model(), (opt_model(self.key_type), opt_model(self.tags)))
    }

    open spec fn writable(m: Self::Model, version: nat, compact: bool) -> bool {
        <RequestLayout as Wired>::writable(m, version, compact)
    }

    open spec fn canonical(m: Self::Model, version: nat, compact: bool) -> bool {
        <RequestLayout as Wired>::canonical(m, version, compact)
    }

    open spec fn encoding(m: Self::Model, version: nat, compact: bool) -> Seq<u8> {
        <RequestLayout as Wired>::encoding(m, version, compact)
    }

    open spec fn parse(data: Seq<u8>, version: nat, compact: bool) -> Parsed<Self::Model> {
        <RequestLayout as Wired>::parse(data, version, compact)
    }

    proof fn lemma_round_trip(m: Self::Model, version: nat, compact: bool, rest: Seq<u8>) {
        <RequestLayout as Wired>::lemma_round_trip(m, version, compact, rest);
    }

    fn to_wire(&self, wire: &mut WireWrite) {
        self.put_fields(wire, false)
    }

    fn from_wire(wire: &mut WireRead) -> (r: Result<Self, Error>) {
        Self::get_fields(wire, false)
    }

    fn to_wire_compact(&self, wire: &mut WireWrite) {
        self.put_fields(wire, true)
    }

    fn from_wire_compact(wire: &mut WireRead) -> (r: Result<Self, Error>) {
        Self::get_fields(wire, true)
    }
}

impl Request {
    fn put_fields(&self, wire: &mut WireWrite, compact: bool)
        requires
            Self::writable(self.model(), old(wire).version as nat, compact),
            old(wire).has_room(Self::encoding(self.model(), old(wire).version as nat, compact).len()),
        ensures
            final(wire).version == old(wire).version,
            final(wire).bytes() == old(wire).bytes() + Self::encoding(
                self.model(),
                old(wire).version as nat,
                compact,
            ),
    {
        let ghost v = wire.version as nat;
        let ghost w0 = wire.bytes();
        proof {
            assert(<(String, (Versioned<i8, 1>, Versioned<TagBuffer, 3>)) as Wired>::encoding((self.key.model(), (opt_model(self.key_type), opt_model(self.tags))), v, compact) === <String as Wired>::encoding(self.key.model(), v, compact) + <(Versioned<i8, 1>, Versioned<TagBuffer, 3>) as Wired>::encoding((opt_model(self.key_type), opt_model(self.tags)), v, compact));
            assert(<(Versioned<i8, 1>, Versioned<TagBuffer, 3>) as Wired>::encoding((opt_model(self.key_type), opt_model(self.tags)), v, compact) === gate_encoding::<i8>(opt_model(self.key_type), 1, None::<nat>, v, compact) + <Versioned<TagBuffer, 3> as Wired>::encoding(opt_model(self.tags), v, compact));
        }
        put(&self.key, wire, compact);
        let ghost w1 = wire.bytes();
        put_versioned(&self.key_type, 1, None, wire, compact);
        let ghost w2 = wire.bytes();
        put_versioned(&self.tags, 3, None, wire, compact);
        let ghost w3 = wire.bytes();
        proof {
            lemma_concat_assoc(w1, gate_encoding::<i8>(opt_model(self.key_type), 1, None::<nat>, v, compact), <Versioned<TagBuffer, 3> as Wired>::encoding(opt_model(self.tags), v, compact));
            lemma_concat_assoc(w0, <String as Wired>::encoding(self.key.model(), v, compact), <(Versioned<i8, 1>, Versioned<TagBuffer, 3>) as Wired>::encoding((opt_model(self.key_type), opt_model(self.tags)), v, compact));
        }
    }

    fn get_fields(wire: &mut WireRead, compact: bool) -> (r: Result<Self, Error>)
        ensures
            final(wire).version == old(wire).version,
            match Self::parse(old(wire).rest(), old(wire).version as nat, compact) {
                Ok((m, n)) => (r matches Ok(x) && x.model() == m) && n <= old(wire).rest().len()
                    && final(wire).rest() == old(wire).rest().skip(n as int),
                Err(e) => r == Err::<Self, Error>(e),
            },
    {
        let (f_key, (f_key_type, f_tags)) = get::<RequestLayout>(wire, compact)?;
        Ok(Request { key: f_key, key_type: f_key_type.0, tags: f_tags.0 })
    }
}

/// The find-coordinator response.
pub struct Response {
    /// On the wire from version 1.
    pub throttle_time_ms: Option<i32>,
    pub error_code: i16,
    /// On the wire from version 1.
    pub error_message: Option<Option<String>>,
    pub node_id: i32,
    pub host: String,
    pub port: i32,
    /// On the wire from version 3.
    pub tags: Option<TagBuffer>,
}

/// The fields of a `Response`, in wire order.
pub type ResponseLayout = (Versioned<i32, 1>, (i16, (Versioned<Option<String>, 1>, (i32, (String, (i32, Versioned<TagBuffer, 3>))))));

impl Wired for Response {
    type Model = <ResponseLayout as Wired>::Model;

    open spec fn model(&self) -> Self::Model {
        (opt_model(self.throttle_time_ms), (self.error_code.model(), (opt_model(self.error_message), (self.node_id.model(), (self.host.model(), (self.port.model(), opt_model(self.tags)))))))
    }

    open spec fn writable(m: Self::Model, version: nat, compact: bool) -> bool {
        <ResponseLayout as Wired>::writable(m, version, compact)
    }

    open spec fn canonical(m: Self::Model, version: nat, compact: bool) -> bool {
        <ResponseLayout as Wired>::canonical(m, version, compact)
    }

    open spec fn encoding(m: Self::Model, version: nat, compact: bool) -> Seq<u8> {
        <ResponseLayout as Wired>::encoding(m, version, compact)
    }

    open spec fn parse(data: Seq<u8>, version: nat, compact: bool) -> Parsed<Self::Model> {
        <ResponseLayout as Wired>::parse(data, version, compact)
    }

    proof fn lemma_round_trip(m: Self::Model, version: nat, compact: bool, rest: Seq<u8>) {
        <ResponseLayout as Wired>::lemma_round_trip(m, version, compact, rest);
    }

    fn to_wire(&self, wire: &mut WireWrite) {
        self.put_fields(wire, false)
    }

    fn from_wire(wire: &mut WireRead) -> (r: Result<Self, Error>) {
        Self::get_fields(wire, false)
    }

    fn to_wire_compact(&self, wire: &mut WireWrite) {
        self.put_fields(wire, true)
    }

    fn from_wire_compact(wire: &mut WireRead) -> (r: Result<Self, Error>) {
        Self::get_fields(wire, true)
    }
}

impl Response {
    fn put_fields(&self, wire: &mut WireWrite, compact: bool)
        requires
            Self::writable(self.model(), old(wire).version as nat, compact),
            old(wire).has_room(Self::encoding(self.model(), old(wire).version as nat, compact).len()),
        ensures
            final(wire).version == old(wire).version,
            final(wire).bytes() == old(wire).bytes() + Self::encoding(
                self.model(),
                old(wire).version as nat,
                compact,
            ),
    {
        let ghost v = wire.version as nat;
        let ghost w0 = wire.bytes();
        proof {
            assert(<(Versioned<i32, 1>, (i16, (Versioned<Option<String>, 1>, (i32, (String, (i32, Versioned<TagBuffer, 3>)))))) as Wired>::encoding((opt_model(self.throttle_time_ms), (self.error_code.model(), (opt_model(self.error_message), (self.node_id.model(), (self.host.model(), (self.port.model(), opt_model(self.tags))))))), v, compact) === gate_encoding::<i32>(opt_model(self.throttle_time_ms), 1, None::<nat>, v, compact) + <(i16, (Versioned<Option<String>, 1>, (i32, (String, (i32, Versioned<TagBuffer, 3>))))) as Wired>::encoding((self.error_code.model(), (opt_model(self.error_message), (self.node_id.model(), (self.host.model(), (self.port.model(), opt_model(self.tags)))))), v, compact));
            assert(<(i16, (Versioned<Option<String>, 1>, (i32, (String, (i32, Versioned<TagBuffer, 3>))))) as Wired>::encoding((self.error_code.model(), (opt_model(self.error_message), (self.node_id.model(), (self.host.model(), (self.port.model(), opt_model(self.tags)))))), v, compact) === <i16 as Wired>::encoding(self.error_code.model(), v, compact) + <(Versioned<Option<String>, 1>, (i32, (String, (i32, Versioned<TagBuffer, 3>)))) as Wired>::encoding((opt_model(self.error_message), (self.node_id.model(), (self.host.model(), (self.port.model(), opt_model(self.tags))))), v, compact));
            assert(<(Versioned<Option<String>, 1>, (i32, (String, (i32, Versioned<TagBuffer, 3>)))) as Wired>::encoding((opt_model(self.error_message), (self.node_id.model(), (self.host.model(), (self.port.model(), opt_model(self.tags))))), v, compact) === gate_encoding::<Option<String>>(opt_model(self.error_message), 1, None::<nat>, v, compact) + <(i32, (String, (i32, Versioned<TagBuffer, 3>))) as Wired>::encoding((self.node_id.model(), (self.host.model(), (self.port.model(), opt_model(self.tags)))), v, compact));
            assert(<(i32, (String, (i32, Versioned<TagBuffer, 3>))) as Wired>::encoding((self.node_id.model(), (self.host.model(), (self.port.model(), opt_model(self.tags)))), v, compact) === <i32 as Wired>::encoding(self.node_id.model(), v, compact) + <(String, (i32, Versioned<TagBuffer, 3>)) as Wired>::encoding((self.host.model(), (self.port.model(), opt_model(self.tags))), v, compact));
            assert(<(String, (i32, Versioned<TagBuffer, 3>)) as Wired>::encoding((self.host.model(), (self.port.model(), opt_model(self.tags))), v, compact) === <String as Wired>::encoding(self.host.model(), v, compact) + <(i32, Versioned<TagBuffer, 3>) as Wired>::encoding((self.port.model(), opt_model(self.tags)), v, compact));
            assert(<(i32, Versioned<TagBuffer, 3>) as Wired>::encoding((self.port.model(), opt_model(self.tags)), v, compact) === <i32 as Wired>::encoding(self.port.model(), v, compact) + <Versioned<TagBuffer, 3> as Wired>::encoding(opt_model(self.tags), v, compact));
        }
        put_versioned(&self.throttle_time_ms, 1, None, wire, compact);
        let ghost w1 = wire.bytes();
        put(&self.error_code, wire, compact);
        let ghost w2 = wire.bytes();
        put_versioned(&self.error_message, 1, None, wire, compact);
        let ghost w3 = wire.bytes();
        put(&self.node_id, wire, compact);
        let ghost w4 = wire.bytes();
        put(&self.host, wire, compact);
        let ghost w5 = wire.bytes();
        put(&self.port, wire, compact);
        let ghost w6 = wire.bytes();
        put_versioned(&self.tags, 3, None, wire, compact);
        let ghost w7 = wire.bytes();
        proof {
            lemma_concat_assoc(w5, <i32 as Wired>::encoding(self.port.model(), v, compact), <Versioned<TagBuffer, 3> as Wired>::encoding(opt_model(self.tags), v, compact));
            lemma_concat_assoc(w4, <String as Wired>::encoding(self.host.model(), v, compact), <(i32, Versioned<TagBuffer, 3>) as Wired>::encoding((self.port.model(), opt_model(self.tags)), v, compact));
            lemma_concat_assoc(w3, <i32 as Wired>::encoding(self.node_id.model(), v, compact), <(String, (i32, Versioned<TagBuffer, 3>)) as Wired>::encoding((self.host.model(), (self.port.model(), opt_model(self.tags))), v, compact));
            lemma_concat_assoc(w2, gate_encoding::<Option<String>>(opt_model(self.error_message), 1, None::<nat>, v, compact), <(i32, (String, (i32, Versioned<TagBuffer, 3>))) as Wired>::encoding((self.node_id.model(), (self.host.model(), (self.port.model(), opt_model(self.tags)))), v, compact));
            lemma_concat_assoc(w1, <i16 as Wired>::encoding(self.error_code.model(), v, compact), <(Versioned<Option<String>, 1>, (i32, (String, (i32, Versioned<TagBuffer, 3>)))) as Wired>::encoding((opt_model(self.error_message), (self.node_id.model(), (self.host.model(), (self.port.model(), opt_model(self.tags))))), v, compact));
            lemma_concat_assoc(w0, gate_encoding::<i32>(opt_model(self.throttle_time_ms), 1, None::<nat>, v, compact), <(i16, (Versioned<Option<String>, 1>, (i32, (String, (i32, Versioned<TagBuffer, 3>))))) as Wired>::encoding((self.error_code.model(), (opt_model(self.error_message), (self.node_id.model(), (self.host.model(), (self.port.model(), opt_model(self.tags)))))), v, compact));
        }
    }

    fn get_fields(wire: &mut WireRead, compact: bool) -> (r: Result<Self, Error>)
        ensures
            final(wire).version == old(wire).version,
            match Self::parse(old(wire).rest(), old(wire).version as nat, compact) {
                Ok((m, n)) => (r matches Ok(x) && x.model() == m) && n <= old(wire).rest().len()
                    && final(wire).rest() == old(wire).rest().skip(n as int),
                Err(e) => r == Err::<Self, Error>(e),
            },
    {
        let (f_throttle_time_ms, (f_error_code, (f_error_message, (f_node_id, (f_host, (f_port, f_tags)))))) = get::<ResponseLayout>(wire, compact)?;
        Ok(Response { throttle_time_ms: f_throttle_time_ms.0, error_code: f_error_code, error_message: f_error_message.0, node_id: f_node_id, host: f_host, port: f_port, tags: f_tags.0 })
    }
}

impl ApiRequest for Request {
    type Response = Response;

    open spec fn key() -> ApiKey {
        ApiKey::FindCoordinator
    }

    open spec fn flexible_from() -> nat {
        3
    }

    fn api_key() -> (r: ApiKey) {
        ApiKey::FindCoordinator
    }

    fn flexible_version() -> (r: usize) {
        3
    }
}

} // verus!
