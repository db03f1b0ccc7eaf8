//! The headers that precede every request and response body.
//!
//! A request header is written at header version 2 when the call uses the
//! compact mode and 1 otherwise; its fields are always in standard mode.
use crate::compose::{get, gate_encoding, lemma_concat_assoc, opt_model, put, put_versioned, Versioned};
use crate::error::Error;
use crate::wire::{Parsed, WireRead, WireWrite, Wired};
use crate::api::ApiKey;
use crate::tagged::TagBuffer;
use vstd::prelude::*;

verus! {

/// What precedes every request body.
pub struct RequestHeader {
    pub api_key: ApiKey,
    pub api_version: i16,
    pub correlation_id: i32,
    /// On the wire from version 1.
    pub client_id: Option<Option<String>>,
    /// On the wire from version 2.
    pub tag_buffer: Option<TagBuffer>,
}

/// The fields of a `RequestHeader`, in wire order.
pub type RequestHeaderLayout = (ApiKey, (i16, (i32, (Versioned<Option<String>, 1>, Versioned<TagBuffer, 2>))));

impl Wired for RequestHeader {
    type Model = <RequestHeaderLayout as Wired>::Model;

    open spec fn model(&self) -> Self::Model {
        (self.api_key.model(), (self.api_version.model(), (self.correlation_id.model(), (opt_model(self.client_id), opt_model(self.tag_buffer)))))
    }

    open spec fn writable(m: Self::Model, version: nat, compact: bool) -> bool {
        <RequestHeaderLayout as Wired>::writable(m, version, compact)
    }

    open spec fn canonical(m: Self::Model, version: nat, compact: bool) -> bool {
        <RequestHeaderLayout as Wired>::canonical(m, version, compact)
    }

    open spec fn encoding(m: Self::Model, version: nat, compact: bool) -> Seq<u8> {
        <RequestHeaderLayout as Wired>::encoding(m, version, compact)
    }

    open spec fn parse(data: Seq<u8>, version: nat, compact: bool) -> Parsed<Self::Model> {
        <RequestHeaderLayout as Wired>::parse(data, version, compact)
    }

    proof fn lemma_round_trip(m: Self::Model, version: nat, compact: bool, rest: Seq<u8>) {
        <RequestHeaderLayout as Wired>::lemma_round_trip(m, version, compact, rest);
    }

    fn to_wire(&self, wire: &mut WireWrite) {
        self.put_fields(wire, false)
    }

    fn from_wire(wire: &mut WireRead) -> (r: Result<Self, Error>) {
        Self::get_fields(wire, false)
    }

    fn to_wire_compact(&self, wire: &mut WireWrite) {
        self.put_fields(wire, true)
    }

    fn from_wire_compact(wire: &mut WireRead) -> (r: Result<Self, Error>) {
        Self::get_fields(wire, true)
    }
}

impl RequestHeader {
    fn put_fields(&self, wire: &mut WireWrite, compact: bool)
        requires
            Self::writable(self.model(), old(wire).version as nat, compact),
            old(wire).has_room(Self::encoding(self.model(), old(wire).version as nat, compact).len()),
        ensures
            final(wire).version == old(wire).version,
            final(wire).bytes() == old(wire).bytes() + Self::encoding(
                self.model(),
                old(wire).version as nat,
                compact,
            ),
    {
        let ghost v = wire.version as nat;
        let ghost w0 = wire.bytes();
        proof {
            assert(<(ApiKey, (i16, (i32, (Versioned<Option<String>, 1>, Versioned<TagBuffer, 2>)))) as Wired>::encoding((self.api_key.model(), (self.api_version.model(), (self.correlation_id.model(), (opt_model(self.client_id), opt_model(self.tag_buffer))))), v, compact) === <ApiKey as Wired>::encoding(self.api_key.model(), v, compact) + <(i16, (i32, (Versioned<Option<String>, 1>, Versioned<TagBuffer, 2>))) as Wired>::encoding((self.api_version.model(), (self.correlation_id.model(), (opt_model(self.client_id), opt_model(self.tag_buffer)))), v, compact));
            assert(<(i16, (i32, (Versioned<Option<String>, 1>, Versioned<TagBuffer, 2>))) as Wired>::encoding((self.api_version.model(), (self.correlation_id.model(), (opt_model(self.client_id), opt_model(self.tag_buffer)))), v, compact) === <i16 as Wired>::encoding(self.api_version.model(), v, compact) + <(i32, (Versioned<Option<String>, 1>, Versioned<TagBuffer, 2>)) as Wired>::encoding((self.correlation_id.model(), (opt_model(self.client_id), opt_model(self.tag_buffer))), v, compact));
            assert(<(i32, (Versioned<Option<String>, 1>, Versioned<TagBuffer, 2>)) as Wired>::encoding((self.correlation_id.model(), (opt_model(self.client_id), opt_model(self.tag_buffer))), v, compact) === <i32 as Wired>::encoding(self.correlation_id.model(), v, compact) + <(Versioned<Option<String>, 1>, Versioned<TagBuffer, 2>) as Wired>::encoding((opt_model(self.client_id), opt_model(self.tag_buffer)), v, compact));
            assert(<(Versioned<Option<String>, 1>, Versioned<TagBuffer, 2>) as Wired>::encoding((opt_model(self.client_id), opt_model(self.tag_buffer)), v, compact) === gate_encoding::<Option<String>>(opt_model(self.client_id), 1, None::<nat>, v, compact) + <Versioned<TagBuffer, 2> as Wired>::encoding(opt_model(self.tag_buffer), v, compact));
        }
        put(&self.api_key, wire, compact);
        let ghost w1 = wire.bytes();
        put(&self.api_version, wire, compact);
        let ghost w2 = wire.bytes();
        put(&self.correlation_id, wire, compact);
        let ghost w3 = wire.bytes();
        put_versioned(&self.client_id, 1, None, wire, compact);
        let ghost w4 = wire.bytes();
        put_versioned(&self.tag_buffer, 2, None, wire, compact);
        let ghost w5 = wire.bytes();
        proof {
            lemma_concat_assoc(w3, gate_encoding::<Option<String>>(opt_model(self.client_id), 1, None::<nat>, v, compact), <Versioned<TagBuffer, 2> as Wired>::encoding(opt_model(self.tag_buffer), v, compact));
            lemma_concat_assoc(w2, <i32 as Wired>::encoding(self.correlation_id.model(), v, compact), <(Versioned<Option<String>, 1>, Versioned<TagBuffer, 2>) as Wired>::encoding((opt_model(self.client_id), opt_model(self.tag_buffer)), v, compact));
            lemma_concat_assoc(w1, <i16 as Wired>::encoding(self.api_version.model(), v, compact), <(i32, (Versioned<Option<String>, 1>, Versioned<TagBuffer, 2>)) as Wired>::encoding((self.correlation_id.model(), (opt_model(self.client_id), opt_model(self.tag_buffer))), v, compact));
            lemma_concat_assoc(w0, <ApiKey as Wired>::encoding(self.api_key.model(), v, compact), <(i16, (i32, (Versioned<Option<String>, 1>, Versioned<TagBuffer, 2>))) as Wired>::encoding((self.api_version.model(), (self.correlation_id.model(), (opt_model(self.client_id), opt_model(self.tag_buffer)))), v, compact));
        }
    }

    fn get_fields(wire: &mut WireRead, compact: bool) -> (r: Result<Self, Error>)
        ensures
            final(wire).version == old(wire).version,
            match Self::parse(old(wire).rest(), old(wire).version as nat, compact) {
                Ok((m, n)) => (r matches Ok(x) && x.model() == m) && n <= old(wire).rest().len()
                    && final(wire).rest() == old(wire).rest().skip(n as int),
                Err(e) => r == Err::<Self, Error>(e),
            },
    {
        let (f_api_key, (f_api_version, (f_correlation_id, (f_client_id, f_tag_buffer)))) = get::<RequestHeaderLayout>(wire, compact)?;
        Ok(RequestHeader { api_key: f_api_key, api_version: f_api_version, correlation_id: f_correlation_id, client_id: f_client_id.0, tag_buffer: f_tag_buffer.0 })
    }
}

/// What precedes every response body.
pub struct ResponseHeader {
    pub correlation_id: i32,
}

/// The fields of a `ResponseHeader`, in wire order.
pub type ResponseHeaderLayout = i32;

impl Wired for ResponseHeader {
    type Model = <ResponseHeaderLayout as Wired>::Model;

    open spec fn model(&self) -> Self::Model {
        self.correlation_id.model()
    }

    open spec fn writable(m: Self::Model, version: nat, compact: bool) -> bool {
        <ResponseHeaderLayout as Wired>::writable(m, version, compact)
    }

    open spec fn canonical(m: Self::Model, version: nat, compact: bool) -> bool {
        <ResponseHeaderLayout as Wired>::canonical(m, version, compact)
    }

    open spec fn encoding(m: Self::Model, version: nat, compact: bool) -> Seq<u8> {
        <ResponseHeaderLayout as Wired>::encoding(m, version, compact)
    }

    open spec fn parse(data: Seq<u8>, version: nat, compact: bool) -> Parsed<Self::Model> {
        <ResponseHeaderLayout as Wired>::parse(data, version, compact)
    }

    proof fn lemma_round_trip(m: Self::Model, version: nat, compact: bool, rest: Seq<u8>) {
        <ResponseHeaderLayout as Wired>::lemma_round_trip(m, version, compact, rest);
    }

    fn to_wire(&self, wire: &mut WireWrite) {
        self.put_fields(wire, false)
    }

    fn from_wire(wire: &mut WireRead) -> (r: Result<Self, Error>) {
        Self::get_fields(wire, false)
    }

    fn to_wire_compact(&self, wire: &mut WireWrite) {
        self.put_fields(wire, true)
    }

    fn from_wire_compact(wire: &mut WireRead) -> (r: Result<Self, Error>) {
        Self::get_fields(wire, true)
    }
}

impl ResponseHeader {
    fn put_fields(&self, wire: &mut WireWrite, compact: bool)
        requires
            Self::writable(self.model(), old(wire).version as nat, compact),
            old(wire).has_room(Self::encoding(self.model(), old(wire).version as nat, compact).len()),
        ensures
            final(wire).version == old(wire).version,
            final(wire).bytes() == old(wire).bytes() + Self::encoding(
                self.model(),
                old(wire).version as nat,
                compact,
            ),
    {
        let ghost v = wire.version as nat;
        let ghost w0 = wire.bytes();
        put(&self.correlation_id, wire, compact);
        let ghost w1 = wire.bytes();
    }

    fn get_fields(wire: &mut WireRead, compact: bool) -> (r: Result<Self, Error>)
        ensures
            final(wire).version == old(wire).version,
            match Self::parse(old(wire).rest(), old(wire).version as nat, compact) {
                Ok((m, n)) => (r matches Ok(x) && x.model() == m) && n <= old(wire).rest().len()
                    && final(wire).rest() == old(wire).rest().skip(n as int),
                Err(e) => r == Err::<Self, Error>(e),
            },
    {
        let f_correlation_id = get::<ResponseHeaderLayout>(wire, compact)?;
        Ok(ResponseHeader { correlation_id: f_correlation_id })
    }
}

} // verus!
