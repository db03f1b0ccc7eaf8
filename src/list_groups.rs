//! The list-groups message.
use crate::compose::{get, gate_encoding, lemma_concat_assoc, opt_model, put, put_versioned, Versioned};
use crate::error::Error;
use crate::wire::{Parsed, WireRead, WireWrite, Wired};
use crate::api::{ApiKey, ApiRequest};
use crate::tagged::TagBuffer;
use vstd::prelude::*;

verus! {

/// A group state to list.
pub struct StatesFilter {
    pub value: String,
}

/// The fields of a `StatesFilter`, in wire order.
pub type StatesFilterLayout = String;

impl Wired for StatesFilter {
    type Model = <StatesFilterLayout as Wired>::Model;

    open spec fn model(&self) -> Self::Model {
        self.value.model()
    }

    open spec fn writable(m: Self::Model, version: nat, compact: bool) -> bool {
        <StatesFilterLayout as Wired>::writable(m, version, compact)
    }

    open spec fn canonical(m: Self::Model, version: nat, compact: bool) -> bool {
        <StatesFilterLayout as Wired>::canonical(m, version, compact)
    }

    open spec fn encoding(m: Self::Model, version: nat, compact: bool) -> Seq<u8> {
        <StatesFilterLayout as Wired>::encoding(m, version, compact)
    }

    open spec fn parse(data: Seq<u8>, version: nat, compact: bool) -> Parsed<Self::Model> {
        <StatesFilterLayout as Wired>::parse(data, version, compact)
    }

    proof fn lemma_round_trip(m: Self::Model, version: nat, compact: bool, rest: Seq<u8>) {
        <StatesFilterLayout as Wired>::lemma_round_trip(m, version, compact, rest);
    }

    fn to_wire(&self, wire: &mut WireWrite) {
        self.put_fields(wire, false)
    }

    fn from_wire(wire: &mut WireRead) -> (r: Result<Self, Error>) {
        Self::get_fields(wire, false)
    }

    fn to_wire_compact(&self, wire: &mut WireWrite) {
        self.put_fields(wire, true)
    }

    fn from_wire_compact(wire: &mut WireRead) -> (r: Result<Self, Error>) {
        Self::get_fields(wire, true)
    }
}

impl StatesFilter {
    fn put_fields(&self, wire: &mut WireWrite, compact: bool)
        requires
            Self::writable(self.model(), old(wire).version as nat, compact),
            old(wire).has_room(Self::encoding(self.model(), old(wire).version as nat, compact).len()),
        ensures
            final(wire).version == old(wire).version,
            final(wire).bytes() == old(wire).bytes() + Self::encoding(
                self.model(),
                old(wire).version as nat,
                compact,
            ),
    {
        let ghost v = wire.version as nat;
        let ghost w0 = wire.bytes();
        put(&self.value, wire, compact);
        let ghost w1 = wire.bytes();
    }

    fn get_fields(wire: &mut WireRead, compact: bool) -> (r: Result<Self, Error>)
        ensures
            final(wire).version == old(wire).version,
            match Self::parse(old(wire).rest(), old(wire).version as nat, compact) {
                Ok((m, n)) => (r matches Ok(x) && x.model() == m) && n <= old(wire).rest().len()
                    && final(wire).rest() == old(wire).rest().skip(n as int),
                Err(e) => r == Err::<Self, Error>(e),
            },
    {
        let f_value = get::<StatesFilterLayout>(wire, compact)?;
        Ok(StatesFilter { value: f_value })
    }
}

/// The list-groups request.
pub struct Request {
    /// On the wire from version 4.
    pub states_filter: Option<Vec<StatesFilter>>,
    /// On the wire from version 3.
    pub tag_buffer: Option<TagBuffer>,
}

/// The fields of a `Request`, in wire order.
pub type RequestLayout = (Versioned<Vec<StatesFilter>, 4>, Versioned<TagBuffer, 3>);

impl Wired for Request {
    type Model = <RequestLayout as Wired>::Model;

    open spec fn model(&self) -> Self::Model {
        (opt_model(self.states_filter), opt_model(self.tag_buffer))
    }

    open spec fn writable(m: Self::Model, version: nat, compact: bool) -> bool {
        <RequestLayout as Wired>::writable(m, version, compact)
    }

    open spec fn canonical(m: Self::Model, version: nat, compact: bool) -> bool {
        <RequestLayout as Wired>::canonical(m, version, compact)
    }

    open spec fn encoding(m: Self::Model, version: nat, compact: bool) -> Seq<u8> {
        <RequestLayout as Wired>::encoding(m, version, compact)
    }

    open spec fn parse(data: Seq<u8>, version: nat, compact: bool) -> Parsed<Self::Model> {
        <RequestLayout as Wired>::parse(data, version, compact)
    }

    proof fn lemma_round_trip(m: Self::Model, version: nat, compact: bool, rest: Seq<u8>) {
        <RequestLayout as Wired>::lemma_round_trip(m, version, compact, rest);
    }

    fn to_wire(&self, wire: &mut WireWrite) {
        self.put_fields(wire, false)
    }

    fn from_wire(wire: &mut WireRead) -> (r: Result<Self, Error>) {
        Self::get_fields(wire, false)
    }

    fn to_wire_compact(&self, wire: &mut WireWrite) {
        self.put_fields(wire, true)
    }

    fn from_wire_compact(wire: &mut WireRead) -> (r: Result<Self, Error>) {
        Self::get_fields(wire, true)
    }
}

impl Request {
    fn put_fields(&self, wire: &mut WireWrite, compact: bool)
        requires
            Self::writable(self.model(), old(wire).version as nat, compact),
            old(wire).has_room(Self::encoding(self.model(), old(wire).version as nat, compact).len()),
        ensures
            final(wire).version == old(wire).version,
            final(wire).bytes() == old(wire).bytes() + Self::encoding(
                self.model(),
                old(wire).version as nat,
                compact,
            ),
    {
        let ghost v = wire.version as nat;
        let ghost w0 = wire.bytes();
        proof {
            assert(<(Versioned<Vec<StatesFilter>, 4>, Versioned<TagBuffer, 3>) as Wired>::encoding((opt_model(self.states_filter), opt_model(self.tag_buffer)), v, compact) === gate_encoding::<Vec<StatesFilter>>(opt_model(self.states_filter), 4, None::<nat>, v, compact) + <Versioned<TagBuffer, 3> as Wired>::encoding(opt_model(self.tag_buffer), v, compact));
        }
        put_versioned(&self.states_filter, 4, None, wire, compact);
        let ghost w1 = wire.bytes();
        put_versioned(&self.tag_buffer, 3, None, wire, compact);
        let ghost w2 = wire.bytes();
        proof {
            lemma_concat_assoc(w0, gate_encoding::<Vec<StatesFilter>>(opt_model(self.states_filter), 4, None::<nat>, v, compact), <Versioned<TagBuffer, 3> as Wired>::encoding(opt_model(self.tag_buffer), v, compact));
        }
    }

    fn get_fields(wire: &mut WireRead, compact: bool) -> (r: Result<Self, Error>)
        ensures
            final(wire).version == old(wire).version,
            match Self::parse(old(wire).rest(), old(wire).version as nat, compact) {
                Ok((m, n)) => (r matches Ok(x) && x.model() == m) && n <= old(wire).rest().len()
                    && final(wire).rest() == old(wire).rest().skip(n as int),
                Err(e) => r == Err::<Self, Error>(e),
            },
    {
        let (f_states_filter, f_tag_buffer) = get::<RequestLayout>(wire, compact)?;
        Ok(Request { states_filter: f_states_filter.0, tag_buffer: f_tag_buffer.0 })
    }
}

/// One listed group.
pub struct Group {
    pub group_id: String,
    pub protocol_type: String,
    /// On the wire from version 4.
    pub group_state: Option<String>,
    /// On the wire from version 3.
    pub tag_buffer: Option<TagBuffer>,
}

/// The fields of a `Group`, in wire order.
pub type GroupLayout = (String, (String, (Versioned<String, 4>, Versioned<TagBuffer, 3>)));

impl Wired for Group {
    type Model = <GroupLayout as Wired>::Model;

    open spec fn model(&self) -> Self::Model {
        (self.group_id.model(), (self.protocol_type.model(), (opt_model(self.group_state), opt_model(self.tag_buffer))))
    }

    open spec fn writable(m: Self::Model, version: nat, compact: bool) -> bool {
        <GroupLayout as Wired>::writable(m, version, compact)
    }

    open spec fn canonical(m: Self::Model, version: nat, compact: bool) -> bool {
        <GroupLayout as Wired>::canonical(m, version, compact)
    }

    open spec fn encoding(m: Self::Model, version: nat, compact: bool) -> Seq<u8> {
        <GroupLayout as Wired>::encoding(m, version, compact)
    }

    open spec fn parse(data: Seq<u8>, version: nat, compact: bool) -> Parsed<Self::Model> {
        <GroupLayout as Wired>::parse(data, version, compact)
    }

    proof fn lemma_round_trip(m: Self::Model, version: nat, compact: bool, rest: Seq<u8>) {
        <GroupLayout as Wired>::lemma_round_trip(m, version, compact, rest);
    }

    fn to_wire(&self, wire: &mut WireWrite) {
        self.put_fields(wire, false)
    }

    fn from_wire(wire: &mut WireRead) -> (r: Result<Self, Error>) {
        Self::get_fields(wire, false)
    }

    fn to_wire_compact(&self, wire: &mut WireWrite) {
        self.put_fields(wire, true)
    }

    fn from_wire_compact(wire: &mut WireRead) -> (r: Result<Self, Error>) {
        Self::get_fields(wire, true)
    }
}

impl Group {
    fn put_fields(&self, wire: &mut WireWrite, compact: bool)
        requires
            Self::writable(self.model(), old(wire).version as nat, compact),
            old(wire).has_room(Self::encoding(self.model(), old(wire).version as nat, compact).len()),
        ensures
            final(wire).version == old(wire).version,
            final(wire).bytes() == old(wire).bytes() + Self::encoding(
                self.model(),
                old(wire).version as nat,
                compact,
            ),
    {
        let ghost v = wire.version as nat;
        let ghost w0 = wire.bytes();
        proof {
            assert(<(String, (String, (Versioned<String, 4>, Versioned<TagBuffer, 3>))) as Wired>::encoding((self.group_id.model(), (self.protocol_type.model(), (opt_model(self.group_state), opt_model(self.tag_buffer)))), v, compact) === <String as Wired>::encoding(self.group_id.model(), v, compact) + <(String, (Versioned<String, 4>, Versioned<TagBuffer, 3>)) as Wired>::encoding((self.protocol_type.model(), (opt_model(self.group_state), opt_model(self.tag_buffer))), v, compact));
            assert(<(String, (Versioned<String, 4>, Versioned<TagBuffer, 3>)) as Wired>::encoding((self.protocol_type.model(), (opt_model(self.group_state), opt_model(self.tag_buffer))), v, compact) === <String as Wired>::encoding(self.protocol_type.model(), v, compact) + <(Versioned<String, 4>, Versioned<TagBuffer, 3>) as Wired>::encoding((opt_model(self.group_state), opt_model(self.tag_buffer)), v, compact));
            assert(<(Versioned<String, 4>, Versioned<TagBuffer, 3>) as Wired>::encoding((opt_model(self.group_state), opt_model(self.tag_buffer)), v, compact) === gate_encoding::<String>(opt_model(self.group_state), 4, None::<nat>, v, compact) + <Versioned<TagBuffer, 3> as Wired>::encoding(opt_model(self.tag_buffer), v, compact));
        }
        put(&self.group_id, wire, compact);
        let ghost w1 = wire.bytes();
        put(&self.protocol_type, wire, compact);
        let ghost w2 = wire.bytes();
        put_versioned(&self.group_state, 4, None, wire, compact);
        let ghost w3 = wire.bytes();
        put_versioned(&self.tag_buffer, 3, None, wire, compact);
        let ghost w4 = wire.bytes();
        proof {
            lemma_concat_assoc(w2, gate_encoding::<String>(opt_model(self.group_state), 4, None::<nat>, v, compact), <Versioned<TagBuffer, 3> as Wired>::encoding(opt_model(self.tag_buffer), v, compact));
            lemma_concat_assoc(w1, <String as Wired>::encoding(self.protocol_type.model(), v, compact), <(Versioned<String, 4>, Versioned<TagBuffer, 3>) as Wired>::encoding((opt_model(self.group_state), opt_model(self.tag_buffer)), v, compact));
            lemma_concat_assoc(w0, <String as Wired>::encoding(self.group_id.model(), v, compact), <(String, (Versioned<String, 4>, Versioned<TagBuffer, 3>)) as Wired>::encoding((self.protocol_type.model(), (opt_model(self.group_state), opt_model(self.tag_buffer))), v, compact));
        }
    }

    fn get_fields(wire: &mut WireRead, compact: bool) -> (r: Result<Self, Error>)
        ensures
            final(wire).version == old(wire).version,
            match Self::parse(old(wire).rest(), old(wire).version as nat, compact) {
                Ok((m, n)) => (r matches Ok(x) && x.model() == m) && n <= old(wire).rest().len()
                    && final(wire).rest() == old(wire).rest().skip(n as int),
                Err(e) => r == Err::<Self, Error>(e),
            },
    {
        let (f_group_id, (f_protocol_type, (f_group_state, f_tag_buffer))) = get::<GroupLayout>(wire, compact)?;
        Ok(Group { group_id: f_group_id, protocol_type: f_protocol_type, group_state: f_group_state.0, tag_buffer: f_tag_buffer.0 })
    }
}

/// The list-groups response.
pub struct Response {
    /// On the wire from version 1.
    pub throttle_time_ms: Option<i32>,
    pub error_code: i16,
    pub groups: Vec<Group>,
    /// On the wire from version 3.
    pub tag_buffer: Option<TagBuffer>,
}

/// The fields of a `Response`, in wire order.
pub type ResponseLayout = (Versioned<i32, 1>, (i16, (Vec<Group>, Versioned<TagBuffer, 3>)));

impl Wired for Response {
    type Model = <ResponseLayout as Wired>::Model;

    open spec fn model(&self) -> Self::Model {
        (opt_model(self.throttle_time_ms), (self.error_code.model(), (self.groups.model(), opt_model(self.tag_buffer))))
    }

    open spec fn writable(m: Self::Model, version: nat, compact: bool) -> bool {
        <ResponseLayout as Wired>::writable(m, version, compact)
    }

    open spec fn canonical(m: Self::Model, version: nat, compact: bool) -> bool {
        <ResponseLayout as Wired>::canonical(m, version, compact)
    }

    open spec fn encoding(m: Self::Model, version: nat, compact: bool) -> Seq<u8> {
        <ResponseLayout as Wired>::encoding(m, version, compact)
    }

    open spec fn parse(data: Seq<u8>, version: nat, compact: bool) -> Parsed<Self::Model> {
        <ResponseLayout as Wired>::parse(data, version, compact)
    }

    proof fn lemma_round_trip(m: Self::Model, version: nat, compact: bool, rest: Seq<u8>) {
        <ResponseLayout as Wired>::lemma_round_trip(m, version, compact, rest);
    }

    fn to_wire(&self, wire: &mut WireWrite) {
        self.put_fields(wire, false)
    }

    fn from_wire(wire: &mut WireRead) -> (r: Result<Self, Error>) {
        Self::get_fields(wire, false)
    }

    fn to_wire_compact(&self, wire: &mut WireWrite) {
        self.put_fields(wire, true)
    }

    fn from_wire_compact(wire: &mut WireRead) -> (r: Result<Self, Error>) {
        Self::get_fields(wire, true)
    }
}

impl Response {
    fn put_fields(&self, wire: &mut WireWrite, compact: bool)
        requires
            Self::writable(self.model(), old(wire).version as nat, compact),
            old(wire).has_room(Self::encoding(self.model(), old(wire).version as nat, compact).len()),
        ensures
            final(wire).version == old(wire).version,
            final(wire).bytes() == old(wire).bytes() + Self::encoding(
                self.model(),
                old(wire).version as nat,
                compact,
            ),
    {
        let ghost v = wire.version as nat;
        let ghost w0 = wire.bytes();
        proof {
            assert(<(Versioned<i32, 1>, (i16, (Vec<Group>, Versioned<TagBuffer, 3>))) as Wired>::encoding((opt_model(self.throttle_time_ms), (self.error_code.model(), (self.groups.model(), opt_model(self.tag_buffer)))), v, compact) === gate_encoding::<i32>(opt_model(self.throttle_time_ms), 1, None::<nat>, v, compact) + <(i16, (Vec<Group>, Versioned<TagBuffer, 3>)) as Wired>::encoding((self.error_code.model(), (self.groups.model(), opt_model(self.tag_buffer))), v, compact));
            assert(<(i16, (Vec<Group>, Versioned<TagBuffer, 3>)) as Wired>::encoding((self.error_code.model(), (self.groups.model(), opt_model(self.tag_buffer))), v, compact) === <i16 as Wired>::encoding(self.error_code.model(), v, compact) + <(Vec<Group>, Versioned<TagBuffer, 3>) as Wired>::encoding((self.groups.model(), opt_model(self.tag_buffer)), v, compact));
            assert(<(Vec<Group>, Versioned<TagBuffer, 3>) as Wired>::encoding((self.groups.model(), opt_model(self.tag_buffer)), v, compact) === <Vec<Group> as Wired>::encoding(self.groups.model(), v, compact) + <Versioned<TagBuffer, 3> as Wired>::encoding(opt_model(self.tag_buffer), v, compact));
        }
        put_versioned(&self.throttle_time_ms, 1, None, wire, compact);
        let ghost w1 = wire.bytes();
        put(&self.error_code, wire, compact);
        let ghost w2 = wire.bytes();
        put(&self.groups, wire, compact);
        let ghost w3 = wire.bytes();
        put_versioned(&self.tag_buffer, 3, None, wire, compact);
        let ghost w4 = wire.bytes();
        proof {
            lemma_concat_assoc(w2, <Vec<Group> as Wired>::encoding(self.groups.model(), v, compact), <Versioned<TagBuffer, 3> as Wired>::encoding(opt_model(self.tag_buffer), v, compact));
            lemma_concat_assoc(w1, <i16 as Wired>::encoding(self.error_code.model(), v, compact), <(Vec<Group>, Versioned<TagBuffer, 3>) as Wired>::encoding((self.groups.model(), opt_model(self.tag_buffer)), v, compact));
            lemma_concat_assoc(w0, gate_encoding::<i32>(opt_model(self.throttle_time_ms), 1, None::<nat>, v, compact), <(i16, (Vec<Group>, Versioned<TagBuffer, 3>)) as Wired>::encoding((self.error_code.model(), (self.groups.model(), opt_model(self.tag_buffer))), v, compact));
        }
    }

    fn get_fields(wire: &mut WireRead, compact: bool) -> (r: Result<Self, Error>)
        ensures
            final(wire).version == old(wire).version,
            match Self::parse(old(wire).rest(), old(wire).version as nat, compact) {
                Ok((m, n)) => (r matches Ok(x) && x.model() == m) && n <= old(wire).rest().len()
                    && final(wire).rest() == old(wire).rest().skip(n as int),
                Err(e) => r == Err::<Self, Error>(e),
            },
    {
        let (f_throttle_time_ms, (f_error_code, (f_groups, f_tag_buffer))) = get::<ResponseLayout>(wire, compact)?;
        Ok(Response { throttle_time_ms: f_throttle_time_ms.0, error_code: f_error_code, groups: f_groups, tag_buffer: f_tag_buffer.0 })
    }
}

impl ApiRequest for Request {
    type Response = Response;

    open spec fn key() -> ApiKey {
        ApiKey::ListGroups
    }

    open spec fn flexible_from() -> nat {
        3
    }

    fn api_key() -> (r: ApiKey) {
        ApiKey::ListGroups
    }

    fn flexible_version() -> (r: usize) {
        3
    }
}

} // verus!
