//! The sync-group message of consumer groups.
use crate::compose::{get, gate_encoding, lemma_concat_assoc, opt_model, put, put_versioned, Versioned};
use crate::error::Error;
use crate::wire::{Parsed, WireRead, WireWrite, Wired};
use crate::api::{ApiKey, ApiRequest};
use crate::tagged::TagBuffer;
use bytes::Bytes;
use vstd::prelude::*;

verus! {

/// The assignment of one member.
pub struct Assignment {
    pub member_id: String,
    pub assign: Bytes,
    /// On the wire from version 4.
    pub tags: Option<TagBuffer>,
}

/// The fields of a `Assignment`, in wire order.
pub type AssignmentLayout = (String, (Bytes, Versioned<TagBuffer, 4>));

impl Wired for Assignment {
    type Model = <AssignmentLayout as Wired>::Model;

    open spec fn model(&self) -> Self::Model {
        (self.member_id.model(), (self.assign.model(), opt_model(self.tags)))
    }

    open spec fn writable(m: Self::Model, version: nat, compact: bool) -> bool {
        <AssignmentLayout as Wired>::writable(m, version, compact)
    }

    open spec fn canonical(m: Self::Model, version: nat, compact: bool) -> bool {
        <AssignmentLayout as Wired>::canonical(m, version, compact)
    }

    open spec fn encoding(m: Self::Model, version: nat, compact: bool) -> Seq<u8> {
        <AssignmentLayout as Wired>::encoding(m, version, compact)
    }

    open spec fn parse(data: Seq<u8>, version: nat, compact: bool) -> Parsed<Self::Model> {
        <AssignmentLayout as Wired>::parse(data, version, compact)
    }

    proof fn lemma_round_trip(m: Self::Model, version: nat, compact: bool, rest: Seq<u8>) {
        <AssignmentLayout as Wired>::lemma_round_trip(m, version, compact, rest);
    }

    fn to_wire(&self, wire: &mut WireWrite) {
        self.put_fields(wire, false)
    }

    fn from_wire(wire: &mut WireRead) -> (r: Result<Self, Error>) {
        Self::get_fields(wire, false)
    }

    fn to_wire_compact(&self, wire: &mut WireWrite) {
        self.put_fields(wire, true)
    }

    fn from_wire_compact(wire: &mut WireRead) -> (r: Result<Self, Error>) {
        Self::get_fields(wire, true)
    }
}

impl Assignment {
    fn put_fields(&self, wire: &mut WireWrite, compact: bool)
        requires
            Self::writable(self.model(), old(wire).version as nat, compact),
            old(wire).has_room(Self::encoding(self.model(), old(wire).version as nat, compact).len()),
        ensures
            final(wire).version == old(wire).version,
            final(wire).bytes() == old(wire).bytes() + Self::encoding(
                self.model(),
                old(wire).version as nat,
                compact,
            ),
    {
        let ghost v = wire.version as nat;
        let ghost w0 = wire.bytes();
        proof {
            assert(<(String, (Bytes, Versioned<TagBuffer, 4>)) as Wired>::encoding((self.member_id.model(), (self.assign.model(), opt_model(self.tags))), v, compact) === <String as Wired>::encoding(self.member_id.model(), v, compact) + <(Bytes, Versioned<TagBuffer, 4>) as Wired>::encoding((self.assign.model(), opt_model(self.tags)), v, compact));
            assert(<(Bytes, Versioned<TagBuffer, 4>) as Wired>::encoding((self.assign.model(), opt_model(self.tags)), v, compact) === <Bytes as Wired>::encoding(self.assign.model(), v, compact) + <Versioned<TagBuffer, 4> as Wired>::encoding(opt_model(self.tags), v, compact));
        }
        put(&self.member_id, wire, compact);
        let ghost w1 = wire.bytes();
        put(&self.assign, wire, compact);
        let ghost w2 = wire.bytes();
        put_versioned(&self.tags, 4, None, wire, compact);
        let ghost w3 = wire.bytes();
        proof {
            lemma_concat_assoc(w1, <Bytes as Wired>::encoding(self.assign.model(), v, compact), <Versioned<TagBuffer, 4> as Wired>::encoding(opt_model(self.tags), v, compact));
            lemma_concat_assoc(w0, <String as Wired>::encoding(self.member_id.model(), v, compact), <(Bytes, Versioned<TagBuffer, 4>) as Wired>::encoding((self.assign.model(), opt_model(self.tags)), v, compact));
        }
    }

    fn get_fields(wire: &mut WireRead, compact: bool) -> (r: Result<Self, Error>)
        ensures
            final(wire).version == old(wire).version,
            match Self::parse(old(wire).rest(), old(wire).version as nat, compact) {
                Ok((m, n)) => (r matches Ok(x) && x.model() == m) && n <= old(wire).rest().len()
                    && final(wire).rest() == old(wire).rest().skip(n as int),
                Err(e) => r == Err::<Self, Error>(e),
            },
    {
        let (f_member_id, (f_assign, f_tags)) = get::<AssignmentLayout>(wire, compact)?;
        Ok(Assignment { member_id: f_member_id, assign: f_assign, tags: f_tags.0 })
    }
}

/// The sync-group request.
pub struct Request {
    pub group_id: String,
    pub generation_id: i32,
    pub member_id: String,
    /// On the wire from version 3.
    pub group_instance_id: Option<Option<String>>,
    /// On the wire from version 4.
    pub protocol_type: Option<Option<String>>,
    /// On the wire from version 4.
    pub protocol_name: Option<Option<String>>,
    pub assignments: Vec<Assignment>,
    /// On the wire from version 4.
    pub tags: Option<TagBuffer>,
}

/// The fields of a `Request`, in wire order.
pub type RequestLayout = (String, (i32, (String, (Versioned<Option<String>, 3>, (Versioned<Option<String>, 4>, (Versioned<Option<String>, 4>, (Vec<Assignment>, Versioned<TagBuffer, 4>)))))));

impl Wired for Request {
    type Model = <RequestLayout as Wired>::Model;

    open spec fn model(&self) -> Self::Model {
        (self.group_id.model(), (self.generation_id.model(), (self.member_id.model(), (opt_model(self.group_instance_id), (opt_model(self.protocol_type), (opt_model(self.protocol_name), (self.assignments.model(), opt_model(self.tags))))))))
    }

    open spec fn writable(m: Self::Model, version: nat, compact: bool) -> bool {
        <RequestLayout as Wired>::writable(m, version, compact)
    }

    open spec fn canonical(m: Self::Model, version: nat, compact: bool) -> bool {
        <RequestLayout as Wired>::canonical(m, version, compact)
    }

    open spec fn encoding(m: Self::Model, version: nat, compact: bool) -> Seq<u8> {
        <RequestLayout as Wired>::encoding(m, version, compact)
    }

    open spec fn parse(data: Seq<u8>, version: nat, compact: bool) -> Parsed<Self::Model> {
        <RequestLayout as Wired>::parse(data, version, compact)
    }

    proof fn lemma_round_trip(m: Self::Model, version: nat, compact: bool, rest: Seq<u8>) {
        <RequestLayout as Wired>::lemma_round_trip(m, version, compact, rest);
    }

    fn to_wire(&self, wire: &mut WireWrite) {
        self.put_fields(wire, false)
    }

    fn from_wire(wire: &mut WireRead) -> (r: Result<Self, Error>) {
        Self::get_fields(wire, false)
    }

    fn to_wire_compact(&self, wire: &mut WireWrite) {
        self.put_fields(wire, true)
    }

    fn from_wire_compact(wire: &mut WireRead) -> (r: Result<Self, Error>) {
        Self::get_fields(wire, true)
    }
}

impl Request {
    fn put_fields(&self, wire: &mut WireWrite, compact: bool)
        requires
            Self::writable(self.model(), old(wire).version as nat, compact),
            old(wire).has_room(Self::encoding(self.model(), old(wire).version as nat, compact).len()),
        ensures
            final(wire).version == old(wire).version,
            final(wire).bytes() == old(wire).bytes() + Self::encoding(
                self.model(),
                old(wire).version as nat,
                compact,
            ),
    {
        let ghost v = wire.version as nat;
        let ghost w0 = wire.bytes();
        proof {
            assert(<(String, (i32, (String, (Versioned<Option<String>, 3>, (Versioned<Option<String>, 4>, (Versioned<Option<String>, 4>, (Vec<Assignment>, Versioned<TagBuffer, 4>))))))) as Wired>::encoding((self.group_id.model(), (self.generation_id.model(), (self.member_id.model(), (opt_model(self.group_instance_id), (opt_model(self.protocol_type), (opt_model(self.protocol_name), (self.assignments.model(), opt_model(self.tags)))))))), v, compact) === <String as Wired>::encoding(self.group_id.model(), v, compact) + <(i32, (String, (Versioned<Option<String>, 3>, (Versioned<Option<String>, 4>, (Versioned<Option<String>, 4>, (Vec<Assignment>, Versioned<TagBuffer, 4>)))))) as Wired>::encoding((self.generation_id.model(), (self.member_id.model(), (opt_model(self.group_instance_id), (opt_model(self.protocol_type), (opt_model(self.protocol_name), (self.assignments.model(), opt_model(self.tags))))))), v, compact));
            assert(<(i32, (String, (Versioned<Option<String>, 3>, (Versioned<Option<String>, 4>, (Versioned<Option<String>, 4>, (Vec<Assignment>, Versioned<TagBuffer, 4>)))))) as Wired>::encoding((self.generation_id.model(), (self.member_id.model(), (opt_model(self.group_instance_id), (opt_model(self.protocol_type), (opt_model(self.protocol_name), (self.assignments.model(), opt_model(self.tags))))))), v, compact) === <i32 as Wired>::encoding(self.generation_id.model(), v, compact) + <(String, (Versioned<Option<String>, 3>, (Versioned<Option<String>, 4>, (Versioned<Option<String>, 4>, (Vec<Assignment>, Versioned<TagBuffer, 4>))))) as Wired>::encoding((self.member_id.model(), (opt_model(self.group_instance_id), (opt_model(self.protocol_type), (opt_model(self.protocol_name), (self.assignments.model(), opt_model(self.tags)))))), v, compact));
            assert(<(String, (Versioned<Option<String>, 3>, (Versioned<Option<String>, 4>, (Versioned<Option<String>, 4>, (Vec<Assignment>, Versioned<TagBuffer, 4>))))) as Wired>::encoding((self.member_id.model(), (opt_model(self.group_instance_id), (opt_model(self.protocol_type), (opt_model(self.protocol_name), (self.assignments.model(), opt_model(self.tags)))))), v, compact) === <String as Wired>::encoding(self.member_id.model(), v, compact) + <(Versioned<Option<String>, 3>, (Versioned<Option<String>, 4>, (Versioned<Option<String>, 4>, (Vec<Assignment>, Versioned<TagBuffer, 4>)))) as Wired>::encoding((opt_model(self.group_instance_id), (opt_model(self.protocol_type), (opt_model(self.protocol_name), (self.assignments.model(), opt_model(self.tags))))), v, compact));
            assert(<(Versioned<Option<String>, 3>, (Versioned<Option<String>, 4>, (Versioned<Option<String>, 4>, (Vec<Assignment>, Versioned<TagBuffer, 4>)))) as Wired>::encoding((opt_model(self.group_instance_id), (opt_model(self.protocol_type), (opt_model(self.protocol_name), (self.assignments.model(), opt_model(self.tags))))), v, compact) === gate_encoding::<Option<String>>(opt_model(self.group_instance_id), 3, None::<nat>, v, compact) + <(Versioned<Option<String>, 4>, (Versioned<Option<String>, 4>, (Vec<Assignment>, Versioned<TagBuffer, 4>))) as Wired>::encoding((opt_model(self.protocol_type), (opt_model(self.protocol_name), (self.assignments.model(), opt_model(self.tags)))), v, compact));
            assert(<(Versioned<Option<String>, 4>, (Versioned<Option<String>, 4>, (Vec<Assignment>, Versioned<TagBuffer, 4>))) as Wired>::encoding((opt_model(self.protocol_type), (opt_model(self.protocol_name), (self.assignments.model(), opt_model(self.tags)))), v, compact) === gate_encoding::<Option<String>>(opt_model(self.protocol_type), 4, None::<nat>, v, compact) + <(Versioned<Option<String>, 4>, (Vec<Assignment>, Versioned<TagBuffer, 4>)) as Wired>::encoding((opt_model(self.protocol_name), (self.assignments.model(), opt_model(self.tags))), v, compact));
            assert(<(Versioned<Option<String>, 4>, (Vec<Assignment>, Versioned<TagBuffer, 4>)) as Wired>::encoding((opt_model(self.protocol_name), (self.assignments.model(), opt_model(self.tags))), v, compact) === gate_encoding::<Option<String>>(opt_model(self.protocol_name), 4, None::<nat>, v, compact) + <(Vec<Assignment>, Versioned<TagBuffer, 4>) as Wired>::encoding((self.assignments.model(), opt_model(self.tags)), v, compact));
            assert(<(Vec<Assignment>, Versioned<TagBuffer, 4>) as Wired>::encoding((self.assignments.model(), opt_model(self.tags)), v, compact) === <Vec<Assignment> as Wired>::encoding(self.assignments.model(), v, compact) + <Versioned<TagBuffer, 4> as Wired>::encoding(opt_model(self.tags), v, compact));
        }
        put(&self.group_id, wire, compact);
        let ghost w1 = wire.bytes();
        put(&self.generation_id, wire, compact);
        let ghost w2 = wire.bytes();
        put(&self.member_id, wire, compact);
        let ghost w3 = wire.bytes();
        put_versioned(&self.group_instance_id, 3, None, wire, compact);
        let ghost w4 = wire.bytes();
        put_versioned(&self.protocol_type, 4, None, wire, compact);
        let ghost w5 = wire.bytes();
        put_versioned(&self.protocol_name, 4, None, wire, compact);
        let ghost w6 = wire.bytes();
        put(&self.assignments, wire, compact);
        let ghost w7 = wire.bytes();
        put_versioned(&self.tags, 4, None, wire, compact);
        let ghost w8 = wire.bytes();
        proof {
            lemma_concat_assoc(w6, <Vec<Assignment> as Wired>::encoding(self.assignments.model(), v, compact), <Versioned<TagBuffer, 4> as Wired>::encoding(opt_model(self.tags), v, compact));
            lemma_concat_assoc(w5, gate_encoding::<Option<String>>(opt_model(self.protocol_name), 4, None::<nat>, v, compact), <(Vec<Assignment>, Versioned<TagBuffer, 4>) as Wired>::encoding((self.assignments.model(), opt_model(self.tags)), v, compact));
            lemma_concat_assoc(w4, gate_encoding::<Option<String>>(opt_model(self.protocol_type), 4, None::<nat>, v, compact), <(Versioned<Option<String>, 4>, (Vec<Assignment>, Versioned<TagBuffer, 4>)) as Wired>::encoding((opt_model(self.protocol_name), (self.assignments.model(), opt_model(self.tags))), v, compact));
            lemma_concat_assoc(w3, gate_encoding::<Option<String>>(opt_model(self.group_instance_id), 3, None::<nat>, v, compact), <(Versioned<Option<String>, 4>, (Versioned<Option<String>, 4>, (Vec<Assignment>, Versioned<TagBuffer, 4>))) as Wired>::encoding((opt_model(self.protocol_type), (opt_model(self.protocol_name), (self.assignments.model(), opt_model(self.tags)))), v, compact));
            lemma_concat_assoc(w2, <String as Wired>::encoding(self.member_id.model(), v, compact), <(Versioned<Option<String>, 3>, (Versioned<Option<String>, 4>, (Versioned<Option<String>, 4>, (Vec<Assignment>, Versioned<TagBuffer, 4>)))) as Wired>::encoding((opt_model(self.group_instance_id), (opt_model(self.protocol_type), (opt_model(self.protocol_name), (self.assignments.model(), opt_model(self.tags))))), v, compact));
            lemma_concat_assoc(w1, <i32 as Wired>::encoding(self.generation_id.model(), v, compact), <(String, (Versioned<Option<String>, 3>, (Versioned<Option<String>, 4>, (Versioned<Option<String>, 4>, (Vec<Assignment>, Versioned<TagBuffer, 4>))))) as Wired>::encoding((self.member_id.model(), (opt_model(self.group_instance_id), (opt_model(self.protocol_type), (opt_model(self.protocol_name), (self.assignments.model(), opt_model(self.tags)))))), v, compact));
            lemma_concat_assoc(w0, <String as Wired>::encoding(self.group_id.model(), v, compact), <(i32, (String, (Versioned<Option<String>, 3>, (Versioned<Option<String>, 4>, (Versioned<Option<String>, 4>, (Vec<Assignment>, Versioned<TagBuffer, 4>)))))) as Wired>::encoding((self.generation_id.model(), (self.member_id.model(), (opt_model(self.group_instance_id), (opt_model(self.protocol_type), (opt_model(self.protocol_name), (self.assignments.model(), opt_model(self.tags))))))), v, compact));
        }
    }

    fn get_fields(wire: &mut WireRead, compact: bool) -> (r: Result<Self, Error>)
        ensures
            final(wire).version == old(wire).version,
            match Self::parse(old(wire).rest(), old(wire).version as nat, compact) {
                Ok((m, n)) => (r matches Ok(x) && x.model() == m) && n <= old(wire).rest().len()
                    && final(wire).rest() == old(wire).rest().skip(n as int),
                Err(e) => r == Err::<Self, Error>(e),
            },
    {
        let (f_group_id, (f_generation_id, (f_member_id, (f_group_instance_id, (f_protocol_type, (f_protocol_name, (f_assignments, f_tags))))))) = get::<RequestLayout>(wire, compact)?;
        Ok(Request { group_id: f_group_id, generation_id: f_generation_id, member_id: f_member_id, group_instance_id: f_group_instance_id.0, protocol_type: f_protocol_type.0, protocol_name: f_protocol_name.0, assignments: f_assignments, tags: f_tags.0 })
    }
}

/// The sync-group response.
pub struct Response {
    /// On the wire from version 1.
    pub throttle_time_ms: Option<i32>,
    pub error_code: i16,
    /// On the wire from version 5.
    pub protocol_type: Option<String>,
    /// On the wire from version 5.
    pub protocol_name: Option<String>,
    pub assignment: Bytes,
    /// On the wire from version 4.
    pub tags: Option<TagBuffer>,
}

/// The fields of a `Response`, in wire order.
pub type ResponseLayout = (Versioned<i32, 1>, (i16, (Versioned<String, 5>, (Versioned<String, 5>, (Bytes, Versioned<TagBuffer, 4>)))));

impl Wired for Response {
    type Model = <ResponseLayout as Wired>::Model;

    open spec fn model(&self) -> Self::Model {
        (opt_model(self.throttle_time_ms), (self.error_code.model(), (opt_model(self.protocol_type), (opt_model(self.protocol_name), (self.assignment.model(), opt_model(self.tags))))))
    }

    open spec fn writable(m: Self::Model, version: nat, compact: bool) -> bool {
        <ResponseLayout as Wired>::writable(m, version, compact)
    }

    open spec fn canonical(m: Self::Model, version: nat, compact: bool) -> bool {
        <ResponseLayout as Wired>::canonical(m, version, compact)
    }

    open spec fn encoding(m: Self::Model, version: nat, compact: bool) -> Seq<u8> {
        <ResponseLayout as Wired>::encoding(m, version, compact)
    }

    open spec fn parse(data: Seq<u8>, version: nat, compact: bool) -> Parsed<Self::Model> {
        <ResponseLayout as Wired>::parse(data, version, compact)
    }

    proof fn lemma_round_trip(m: Self::Model, version: nat, compact: bool, rest: Seq<u8>) {
        <ResponseLayout as Wired>::lemma_round_trip(m, version, compact, rest);
    }

    fn to_wire(&self, wire: &mut WireWrite) {
        self.put_fields(wire, false)
    }

    fn from_wire(wire: &mut WireRead) -> (r: Result<Self, Error>) {
        Self::get_fields(wire, false)
    }

    fn to_wire_compact(&self, wire: &mut WireWrite) {
        self.put_fields(wire, true)
    }

    fn from_wire_compact(wire: &mut WireRead) -> (r: Result<Self, Error>) {
        Self::get_fields(wire, true)
    }
}

impl Response {
    fn put_fields(&self, wire: &mut WireWrite, compact: bool)
        requires
            Self::writable(self.model(), old(wire).version as nat, compact),
            old(wire).has_room(Self::encoding(self.model(), old(wire).version as nat, compact).len()),
        ensures
            final(wire).version == old(wire).version,
            final(wire).bytes() == old(wire).bytes() + Self::encoding(
                self.model(),
                old(wire).version as nat,
                compact,
            ),
    {
        let ghost v = wire.version as nat;
        let ghost w0 = wire.bytes();
        proof {
            assert(<(Versioned<i32, 1>, (i16, (Versioned<String, 5>, (Versioned<String, 5>, (Bytes, Versioned<TagBuffer, 4>))))) as Wired>::encoding((opt_model(self.throttle_time_ms), (self.error_code.model(), (opt_model(self.protocol_type), (opt_model(self.protocol_name), (self.assignment.model(), opt_model(self.tags)))))), v, compact) === gate_encoding::<i32>(opt_model(self.throttle_time_ms), 1, None::<nat>, v, compact) + <(i16, (Versioned<String, 5>, (Versioned<String, 5>, (Bytes, Versioned<TagBuffer, 4>)))) as Wired>::encoding((self.error_code.model(), (opt_model(self.protocol_type), (opt_model(self.protocol_name), (self.assignment.model(), opt_model(self.tags))))), v, compact));
            assert(<(i16, (Versioned<String, 5>, (Versioned<String, 5>, (Bytes, Versioned<TagBuffer, 4>)))) as Wired>::encoding((self.error_code.model(), (opt_model(self.protocol_type), (opt_model(self.protocol_name), (self.assignment.model(), opt_model(self.tags))))), v, compact) === <i16 as Wired>::encoding(self.error_code.model(), v, compact) + <(Versioned<String, 5>, (Versioned<String, 5>, (Bytes, Versioned<TagBuffer, 4>))) as Wired>::encoding((opt_model(self.protocol_type), (opt_model(self.protocol_name), (self.assignment.model(), opt_model(self.tags)))), v, compact));
            assert(<(Versioned<String, 5>, (Versioned<String, 5>, (Bytes, Versioned<TagBuffer, 4>))) as Wired>::encoding((opt_model(self.protocol_type), (opt_model(self.protocol_name), (self.assignment.model(), opt_model(self.tags)))), v, compact) === gate_encoding::<String>(opt_model(self.protocol_type), 5, None::<nat>, v, compact) + <(Versioned<String, 5>, (Bytes, Versioned<TagBuffer, 4>)) as Wired>::encoding((opt_model(self.protocol_name), (self.assignment.model(), opt_model(self.tags))), v, compact));
            assert(<(Versioned<String, 5>, (Bytes, Versioned<TagBuffer, 4>)) as Wired>::encoding((opt_model(self.protocol_name), (self.assignment.model(), opt_model(self.tags))), v, compact) === gate_encoding::<String>(opt_model(self.protocol_name), 5, None::<nat>, v, compact) + <(Bytes, Versioned<TagBuffer, 4>) as Wired>::encoding((self.assignment.model(), opt_model(self.tags)), v, compact));
            assert(<(Bytes, Versioned<TagBuffer, 4>) as Wired>::encoding((self.assignment.model(), opt_model(self.tags)), v, compact) === <Bytes as Wired>::encoding(self.assignment.model(), v, compact) + <Versioned<TagBuffer, 4> as Wired>::encoding(opt_model(self.tags), v, compact));
        }
        put_versioned(&self.throttle_time_ms, 1, None, wire, compact);
        let ghost w1 = wire.bytes();
        put(&self.error_code, wire, compact);
        let ghost w2 = wire.bytes();
        put_versioned(&self.protocol_type, 5, None, wire, compact);
        let ghost w3 = wire.bytes();
        put_versioned(&self.protocol_name, 5, None, wire, compact);
        let ghost w4 = wire.bytes();
        put(&self.assignment, wire, compact);
        let ghost w5 = wire.bytes();
        put_versioned(&self.tags, 4, None, wire, compact);
        let ghost w6 = wire.bytes();
        proof {
            lemma_concat_assoc(w4, <Bytes as Wired>::encoding(self.assignment.model(), v, compact), <Versioned<TagBuffer, 4> as Wired>::encoding(opt_model(self.tags), v, compact));
            lemma_concat_assoc(w3, gate_encoding::<String>(opt_model(self.protocol_name), 5, None::<nat>, v, compact), <(Bytes, Versioned<TagBuffer, 4>) as Wired>::encoding((self.assignment.model(), opt_model(self.tags)), v, compact));
            lemma_concat_assoc(w2, gate_encoding::<String>(opt_model(self.protocol_type), 5, None::<nat>, v, compact), <(Versioned<String, 5>, (Bytes, Versioned<TagBuffer, 4>)) as Wired>::encoding((opt_model(self.protocol_name), (self.assignment.model(), opt_model(self.tags))), v, compact));
            lemma_concat_assoc(w1, <i16 as Wired>::encoding(self.error_code.model(), v, compact), <(Versioned<String, 5>, (Versioned<String, 5>, (Bytes, Versioned<TagBuffer, 4>))) as Wired>::encoding((opt_model(self.protocol_type), (opt_model(self.protocol_name), (self.assignment.model(), opt_model(self.tags)))), v, compact));
            lemma_concat_assoc(w0, gate_encoding::<i32>(opt_model(self.throttle_time_ms), 1, None::<nat>, v, compact), <(i16, (Versioned<String, 5>, (Versioned<String, 5>, (Bytes, Versioned<TagBuffer, 4>)))) as Wired>::encoding((self.error_code.model(), (opt_model(self.protocol_type), (opt_model(self.protocol_name), (self.assignment.model(), opt_model(self.tags))))), v, compact));
        }
    }

    fn get_fields(wire: &mut WireRead, compact: bool) -> (r: Result<Self, Error>)
        ensures
            final(wire).version == old(wire).version,
            match Self::parse(old(wire).rest(), old(wire).version as nat, compact) {
                Ok((m, n)) => (r matches Ok(x) && x.model() == m) && n <= old(wire).rest().len()
                    && final(wire).rest() == old(wire).rest().skip(n as int),
                Err(e) => r == Err::<Self, Error>(e),
            },
    {
        let (f_throttle_time_ms, (f_error_code, (f_protocol_type, (f_protocol_name, (f_assignment, f_tags))))) = get::<ResponseLayout>(wire, compact)?;
        Ok(Response { throttle_time_ms: f_throttle_time_ms.0, error_code: f_error_code, protocol_type: f_protocol_type.0, protocol_name: f_protocol_name.0, assignment: f_assignment, tags: f_tags.0 })
    }
}

impl ApiRequest for Request {
    type Response = Response;

    open spec fn key() -> ApiKey {
        ApiKey::SyncGroup
    }

    open spec fn flexible_from() -> nat {
        4
    }

    fn api_key() -> (r: ApiKey) {
        ApiKey::SyncGroup
    }

    fn flexible_version() -> (r: usize) {
        4
    }
}

} // verus!
