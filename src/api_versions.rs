//! The capability query: which versions of each message type the peer
//! supports.
use crate::compose::{get, gate_encoding, lemma_concat_assoc, opt_model, put, put_versioned, Versioned};
use crate::error::Error;
use crate::wire::{Parsed, WireRead, WireWrite, Wired};
use crate::api::{ApiKey, ApiRequest};
use crate::tagged::TagBuffer;
use crate::text::max_length;
use vstd::utf8::encode_utf8;
use vstd::prelude::*;

verus! {

/// The capability query; it has no fields before version 3.
pub struct Request {
    /// On the wire from version 3.
    pub client_software_name: Option<String>,
    /// On the wire from version 3.
    pub client_software_version: Option<String>,
    /// On the wire from version 3.
    pub tags: Option<TagBuffer>,
}

/// The fields of a `Request`, in wire order.
pub type RequestLayout = (Versioned<String, 3>, (Versioned<String, 3>, Versioned<TagBuffer, 3>));

impl Wired for Request {
    type Model = <RequestLayout as Wired>::Model;

    open spec fn model(&self) -> Self::Model {
        (opt_model(self.client_software_name), (opt_model(self.client_software_version), opt_model(self.tags)))
    }

    open spec fn writable(m: Self::Model, version: nat, compact: bool) -> bool {
        <RequestLayout as Wired>::writable(m, version, compact)
    }

    open spec fn canonical(m: Self::Model, version: nat, compact: bool) -> bool {
        <RequestLayout as Wired>::canonical(m, version, compact)
    }

    open spec fn encoding(m: Self::Model, version: nat, compact: bool) -> Seq<u8> {
        <RequestLayout as Wired>::encoding(m, version, compact)
    }

    open spec fn parse(data: Seq<u8>, version: nat, compact: bool) -> Parsed<Self::Model> {
        <RequestLayout as Wired>::parse(data, version, compact)
    }

    proof fn lemma_round_trip(m: Self::Model, version: nat, compact: bool, rest: Seq<u8>) {
        <RequestLayout as Wired>::lemma_round_trip(m, version, compact, rest);
    }

    fn to_wire(&self, wire: &mut WireWrite) {
        self.put_fields(wire, false)
    }

    fn from_wire(wire: &mut WireRead) -> (r: Result<Self, Error>) {
        Self::get_fields(wire, false)
    }

    fn to_wire_compact(&self, wire: &mut WireWrite) {
        self.put_fields(wire, true)
    }

    fn from_wire_compact(wire: &mut WireRead) -> (r: Result<Self, Error>) {
        Self::get_fields(wire, true)
    }
}

impl Request {
    fn put_fields(&self, wire: &mut WireWrite, compact: bool)
        requires
            Self::writable(self.model(), old(wire).version as nat, compact),
            old(wire).has_room(Self::encoding(self.model(), old(wire).version as nat, compact).len()),
        ensures
            final(wire).version == old(wire).version,
            final(wire).bytes() == old(wire).bytes() + Self::encoding(
                self.model(),
                old(wire).version as nat,
                compact,
            ),
    {
        let ghost v = wire.version as nat;
        let ghost w0 = wire.bytes();
        proof {
            assert(<(Versioned<String, 3>, (Versioned<String, 3>, Versioned<TagBuffer, 3>)) as Wired>::encoding((opt_model(self.client_software_name), (opt_model(self.client_software_version), opt_model(self.tags))), v, compact) === gate_encoding::<String>(opt_model(self.client_software_name), 3, None::<nat>, v, compact) + <(Versioned<String, 3>, Versioned<TagBuffer, 3>) as Wired>::encoding((opt_model(self.client_software_version), opt_model(self.tags)), v, compact));
            assert(<(Versioned<String, 3>, Versioned<TagBuffer, 3>) as Wired>::encoding((opt_model(self.client_software_version), opt_model(self.tags)), v, compact) === gate_encoding::<String>(opt_model(self.client_software_version), 3, None::<nat>, v, compact) + <Versioned<TagBuffer, 3> as Wired>::encoding(opt_model(self.tags), v, compact));
        }
        put_versioned(&self.client_software_name, 3, None, wire, compact);
        let ghost w1 = wire.bytes();
        put_versioned(&self.client_software_version, 3, None, wire, compact);
        let ghost w2 = wire.bytes();
        put_versioned(&self.tags, 3, None, wire, compact);
        let ghost w3 = wire.bytes();
        proof {
            lemma_concat_assoc(w1, gate_encoding::<String>(opt_model(self.client_software_version), 3, None::<nat>, v, compact), <Versioned<TagBuffer, 3> as Wired>::encoding(opt_model(self.tags), v, compact));
            lemma_concat_assoc(w0, gate_encoding::<String>(opt_model(self.client_software_name), 3, None::<nat>, v, compact), <(Versioned<String, 3>, Versioned<TagBuffer, 3>) as Wired>::encoding((opt_model(self.client_software_version), opt_model(self.tags)), v, compact));
        }
    }

    fn get_fields(wire: &mut WireRead, compact: bool) -> (r: Result<Self, Error>)
        ensures
            final(wire).version == old(wire).version,
            match Self::parse(old(wire).rest(), old(wire).version as nat, compact) {
                Ok((m, n)) => (r matches Ok(x) && x.model() == m) && n <= old(wire).rest().len()
                    && final(wire).rest() == old(wire).rest().skip(n as int),
                Err(e) => r == Err::<Self, Error>(e),
            },
    {
        let (f_client_software_name, (f_client_software_version, f_tags)) = get::<RequestLayout>(wire, compact)?;
        Ok(Request { client_software_name: f_client_software_name.0, client_software_version: f_client_software_version.0, tags: f_tags.0 })
    }
}

/// The version range the peer supports for one message type.
pub struct ApiVersionsItem {
    pub api_key: ApiKey,
    pub min_version: i16,
    pub max_version: i16,
    /// On the wire from version 3.
    pub tags: Option<TagBuffer>,
}

/// The fields of a `ApiVersionsItem`, in wire order.
pub type ApiVersionsItemLayout = (ApiKey, (i16, (i16, Versioned<TagBuffer, 3>)));

impl Wired for ApiVersionsItem {
    type Model = <ApiVersionsItemLayout as Wired>::Model;

    open spec fn model(&self) -> Self::Model {
        (self.api_key.model(), (self.min_version.model(), (self.max_version.model(), opt_model(self.tags))))
    }

    open spec fn writable(m: Self::Model, version: nat, compact: bool) -> bool {
        <ApiVersionsItemLayout as Wired>::writable(m, version, compact)
    }

    open spec fn canonical(m: Self::Model, version: nat, compact: bool) -> bool {
        <ApiVersionsItemLayout as Wired>::canonical(m, version, compact)
    }

    open spec fn encoding(m: Self::Model, version: nat, compact: bool) -> Seq<u8> {
        <ApiVersionsItemLayout as Wired>::encoding(m, version, compact)
    }

    open spec fn parse(data: Seq<u8>, version: nat, compact: bool) -> Parsed<Self::Model> {
        <ApiVersionsItemLayout as Wired>::parse(data, version, compact)
    }

    proof fn lemma_round_trip(m: Self::Model, version: nat, compact: bool, rest: Seq<u8>) {
        <ApiVersionsItemLayout as Wired>::lemma_round_trip(m, version, compact, rest);
    }

    fn to_wire(&self, wire: &mut WireWrite) {
        self.put_fields(wire, false)
    }

    fn from_wire(wire: &mut WireRead) -> (r: Result<Self, Error>) {
        Self::get_fields(wire, false)
    }

    fn to_wire_compact(&self, wire: &mut WireWrite) {
        self.put_fields(wire, true)
    }

    fn from_wire_compact(wire: &mut WireRead) -> (r: Result<Self, Error>) {
        Self::get_fields(wire, true)
    }
}

impl ApiVersionsItem {
    fn put_fields(&self, wire: &mut WireWrite, compact: bool)
        requires
            Self::writable(self.model(), old(wire).version as nat, compact),
            old(wire).has_room(Self::encoding(self.model(), old(wire).version as nat, compact).len()),
        ensures
            final(wire).version == old(wire).version,
            final(wire).bytes() == old(wire).bytes() + Self::encoding(
                self.model(),
                old(wire).version as nat,
                compact,
            ),
    {
        let ghost v = wire.version as nat;
        let ghost w0 = wire.bytes();
        proof {
            assert(<(ApiKey, (i16, (i16, Versioned<TagBuffer, 3>))) as Wired>::encoding((self.api_key.model(), (self.min_version.model(), (self.max_version.model(), opt_model(self.tags)))), v, compact) === <ApiKey as Wired>::encoding(self.api_key.model(), v, compact) + <(i16, (i16, Versioned<TagBuffer, 3>)) as Wired>::encoding((self.min_version.model(), (self.max_version.model(), opt_model(self.tags))), v, compact));
            assert(<(i16, (i16, Versioned<TagBuffer, 3>)) as Wired>::encoding((self.min_version.model(), (self.max_version.model(), opt_model(self.tags))), v, compact) === <i16 as Wired>::encoding(self.min_version.model(), v, compact) + <(i16, Versioned<TagBuffer, 3>) as Wired>::encoding((self.max_version.model(), opt_model(self.tags)), v, compact));
            assert(<(i16, Versioned<TagBuffer, 3>) as Wired>::encoding((self.max_version.model(), opt_model(self.tags)), v, compact) === <i16 as Wired>::encoding(self.max_version.model(), v, compact) + <Versioned<TagBuffer, 3> as Wired>::encoding(opt_model(self.tags), v, compact));
        }
        put(&self.api_key, wire, compact);
        let ghost w1 = wire.bytes();
        put(&self.min_version, wire, compact);
        let ghost w2 = wire.bytes();
        put(&self.max_version, wire, compact);
        let ghost w3 = wire.bytes();
        put_versioned(&self.tags, 3, None, wire, compact);
        let ghost w4 = wire.bytes();
        proof {
            lemma_concat_assoc(w2, <i16 as Wired>::encoding(self.max_version.model(), v, compact), <Versioned<TagBuffer, 3> as Wired>::encoding(opt_model(self.tags), v, compact));
            lemma_concat_assoc(w1, <i16 as Wired>::encoding(self.min_version.model(), v, compact), <(i16, Versioned<TagBuffer, 3>) as Wired>::encoding((self.max_version.model(), opt_model(self.tags)), v, compact));
            lemma_concat_assoc(w0, <ApiKey as Wired>::encoding(self.api_key.model(), v, compact), <(i16, (i16, Versioned<TagBuffer, 3>)) as Wired>::encoding((self.min_version.model(), (self.max_version.model(), opt_model(self.tags))), v, compact));
        }
    }

    fn get_fields(wire: &mut WireRead, compact: bool) -> (r: Result<Self, Error>)
        ensures
            final(wire).version == old(wire).version,
            match Self::parse(old(wire).rest(), old(wire).version as nat, compact) {
                Ok((m, n)) => (r matches Ok(x) && x.model() == m) && n <= old(wire).rest().len()
                    && final(wire).rest() == old(wire).rest().skip(n as int),
                Err(e) => r == Err::<Self, Error>(e),
            },
    {
        let (f_api_key, (f_min_version, (f_max_version, f_tags))) = get::<ApiVersionsItemLayout>(wire, compact)?;
        Ok(ApiVersionsItem { api_key: f_api_key, min_version: f_min_version, max_version: f_max_version, tags: f_tags.0 })
    }
}

/// The peer's answer to the capability query.
pub struct ApiVersionsResponse {
    pub error_code: i16,
    pub versions: Vec<ApiVersionsItem>,
    /// On the wire from version 1.
    pub throttle_time_ms: Option<i32>,
    /// On the wire from version 3.
    pub tags: Option<TagBuffer>,
}

/// The fields of a `ApiVersionsResponse`, in wire order.
pub type ApiVersionsResponseLayout = (i16, (Vec<ApiVersionsItem>, (Versioned<i32, 1>, Versioned<TagBuffer, 3>)));

impl Wired for ApiVersionsResponse {
    type Model = <ApiVersionsResponseLayout as Wired>::Model;

    open spec fn model(&self) -> Self::Model {
        (self.error_code.model(), (self.versions.model(), (opt_model(self.throttle_time_ms), opt_model(self.tags))))
    }

    open spec fn writable(m: Self::Model, version: nat, compact: bool) -> bool {
        <ApiVersionsResponseLayout as Wired>::writable(m, version, compact)
    }

    open spec fn canonical(m: Self::Model, version: nat, compact: bool) -> bool {
        <ApiVersionsResponseLayout as Wired>::canonical(m, version, compact)
    }

    open spec fn encoding(m: Self::Model, version: nat, compact: bool) -> Seq<u8> {
        <ApiVersionsResponseLayout as Wired>::encoding(m, version, compact)
    }

    open spec fn parse(data: Seq<u8>, version: nat, compact: bool) -> Parsed<Self::Model> {
        <ApiVersionsResponseLayout as Wired>::parse(data, version, compact)
    }

    proof fn lemma_round_trip(m: Self::Model, version: nat, compact: bool, rest: Seq<u8>) {
        <ApiVersionsResponseLayout as Wired>::lemma_round_trip(m, version, compact, rest);
    }

    fn to_wire(&self, wire: &mut WireWrite) {
        self.put_fields(wire, false)
    }

    fn from_wire(wire: &mut WireRead) -> (r: Result<Self, Error>) {
        Self::get_fields(wire, false)
    }

    fn to_wire_compact(&self, wire: &mut WireWrite) {
        self.put_fields(wire, true)
    }

    fn from_wire_compact(wire: &mut WireRead) -> (r: Result<Self, Error>) {
        Self::get_fields(wire, true)
    }
}

impl ApiVersionsResponse {
    fn put_fields(&self, wire: &mut WireWrite, compact: bool)
        requires
            Self::writable(self.model(), old(wire).version as nat, compact),
            old(wire).has_room(Self::encoding(self.model(), old(wire).version as nat, compact).len()),
        ensures
            final(wire).version == old(wire).version,
            final(wire).bytes() == old(wire).bytes() + Self::encoding(
                self.model(),
                old(wire).version as nat,
                compact,
            ),
    {
        let ghost v = wire.version as nat;
        let ghost w0 = wire.bytes();
        proof {
            assert(<(i16, (Vec<ApiVersionsItem>, (Versioned<i32, 1>, Versioned<TagBuffer, 3>))) as Wired>::encoding((self.error_code.model(), (self.versions.model(), (opt_model(self.throttle_time_ms), opt_model(self.tags)))), v, compact) === <i16 as Wired>::encoding(self.error_code.model(), v, compact) + <(Vec<ApiVersionsItem>, (Versioned<i32, 1>, Versioned<TagBuffer, 3>)) as Wired>::encoding((self.versions.model(), (opt_model(self.throttle_time_ms), opt_model(self.tags))), v, compact));
            assert(<(Vec<ApiVersionsItem>, (Versioned<i32, 1>, Versioned<TagBuffer, 3>)) as Wired>::encoding((self.versions.model(), (opt_model(self.throttle_time_ms), opt_model(self.tags))), v, compact) === <Vec<ApiVersionsItem> as Wired>::encoding(self.versions.model(), v, compact) + <(Versioned<i32, 1>, Versioned<TagBuffer, 3>) as Wired>::encoding((opt_model(self.throttle_time_ms), opt_model(self.tags)), v, compact));
            assert(<(Versioned<i32, 1>, Versioned<TagBuffer, 3>) as Wired>::encoding((opt_model(self.throttle_time_ms), opt_model(self.tags)), v, compact) === gate_encoding::<i32>(opt_model(self.throttle_time_ms), 1, None::<nat>, v, compact) + <Versioned<TagBuffer, 3> as Wired>::encoding(opt_model(self.tags), v, compact));
        }
        put(&self.error_code, wire, compact);
        let ghost w1 = wire.bytes();
        put(&self.versions, wire, compact);
        let ghost w2 = wire.bytes();
        put_versioned(&self.throttle_time_ms, 1, None, wire, compact);
        let ghost w3 = wire.bytes();
        put_versioned(&self.tags, 3, None, wire, compact);
        let ghost w4 = wire.bytes();
        proof {
            lemma_concat_assoc(w2, gate_encoding::<i32>(opt_model(self.throttle_time_ms), 1, None::<nat>, v, compact), <Versioned<TagBuffer, 3> as Wired>::encoding(opt_model(self.tags), v, compact));
            lemma_concat_assoc(w1, <Vec<ApiVersionsItem> as Wired>::encoding(self.versions.model(), v, compact), <(Versioned<i32, 1>, Versioned<TagBuffer, 3>) as Wired>::encoding((opt_model(self.throttle_time_ms), opt_model(self.tags)), v, compact));
            lemma_concat_assoc(w0, <i16 as Wired>::encoding(self.error_code.model(), v, compact), <(Vec<ApiVersionsItem>, (Versioned<i32, 1>, Versioned<TagBuffer, 3>)) as Wired>::encoding((self.versions.model(), (opt_model(self.throttle_time_ms), opt_model(self.tags))), v, compact));
        }
    }

    fn get_fields(wire: &mut WireRead, compact: bool) -> (r: Result<Self, Error>)
        ensures
            final(wire).version == old(wire).version,
            match Self::parse(old(wire).rest(), old(wire).version as nat, compact) {
                Ok((m, n)) => (r matches Ok(x) && x.model() == m) && n <= old(wire).rest().len()
                    && final(wire).rest() == old(wire).rest().skip(n as int),
                Err(e) => r == Err::<Self, Error>(e),
            },
    {
        let (f_error_code, (f_versions, (f_throttle_time_ms, f_tags))) = get::<ApiVersionsResponseLayout>(wire, compact)?;
        Ok(ApiVersionsResponse { error_code: f_error_code, versions: f_versions, throttle_time_ms: f_throttle_time_ms.0, tags: f_tags.0 })
    }
}

impl ApiRequest for Request {
    type Response = ApiVersionsResponse;

    open spec fn key() -> ApiKey {
        ApiKey::ApiVersions
    }

    open spec fn flexible_from() -> nat {
        3
    }

    fn api_key() -> (r: ApiKey) {
        ApiKey::ApiVersions
    }

    fn flexible_version() -> (r: usize) {
        3
    }
}

impl Request {
    /// The capability query carrying this client's software name and
    /// version. It can be written at every version and in both modes: below
    /// version 3 it has no fields on the wire.
    pub fn query(software_name: String, software_version: String) -> (r: Request)
        requires
            encode_utf8(software_name@).len() <= 0x7fff,
            encode_utf8(software_version@).len() <= 0x7fff,
        ensures
            forall|v: nat, c: bool| #[trigger] Request::writable(r.model(), v, c),
            r.client_software_name == Some(software_name),
            r.client_software_version == Some(software_version),
    {
        let r = Request {
            client_software_name: Some(software_name),
            client_software_version: Some(software_version),
            tags: Some(TagBuffer::new()),
        };
        proof {
            assert forall|v: nat, c: bool| #[trigger] Request::writable(r.model(), v, c) by {
                assert(max_length(2, c) >= 0x7fff);
            }
        }
        r
    }
}

} // verus!
