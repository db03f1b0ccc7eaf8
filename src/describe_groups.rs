//! The describe-groups message.
use crate::compose::{get, gate_encoding, lemma_concat_assoc, opt_model, put, put_versioned, Versioned};
use crate::error::Error;
use crate::wire::{Parsed, WireRead, WireWrite, Wired};
use crate::api::{ApiKey, ApiRequest};
use crate::tagged::TagBuffer;
use bytes::Bytes;
use vstd::prelude::*;

verus! {

/// The describe-groups request.
pub struct Request {
    pub groups: Vec<String>,
    /// On the wire from version 3.
    pub include_auth_ops: Option<bool>,
    /// On the wire from version 5.
    pub tags: Option<TagBuffer>,
}

/// The fields of a `Request`, in wire order.
pub type RequestLayout = (Vec<String>, (Versioned<bool, 3>, Versioned<TagBuffer, 5>));

impl Wired for Request {
    type Model = <RequestLayout as Wired>::Model;

    open spec fn model(&self) -> Self::Model {
        (self.groups.model(), (opt_model(self.include_auth_ops), opt_model(self.tags)))
    }

    open spec fn writable(m: Self::Model, version: nat, compact: bool) -> bool {
        <RequestLayout as Wired>::writable(m, version, compact)
    }

    open spec fn canonical(m: Self::Model, version: nat, compact: bool) -> bool {
        <RequestLayout as Wired>::canonical(m, version, compact)
    }

    open spec fn encoding(m: Self::Model, version: nat, compact: bool) -> Seq<u8> {
        <RequestLayout as Wired>::encoding(m, version, compact)
    }

    open spec fn parse(data: Seq<u8>, version: nat, compact: bool) -> Parsed<Self::Model> {
        <RequestLayout as Wired>::parse(data, version, compact)
    }

    proof fn lemma_round_trip(m: Self::Model, version: nat, compact: bool, rest: Seq<u8>) {
        <RequestLayout as Wired>::lemma_round_trip(m, version, compact, rest);
    }

    fn to_wire(&self, wire: &mut WireWrite) {
        self.put_fields(wire, false)
    }

    fn from_wire(wire: &mut WireRead) -> (r: Result<Self, Error>) {
        Self::get_fields(wire, false)
    }

    fn to_wire_compact(&self, wire: &mut WireWrite) {
        self.put_fields(wire, true)
    }

    fn from_wire_compact(wire: &mut WireRead) -> (r: Result<Self, Error>) {
        Self::get_fields(wire, true)
    }
}

impl Request {
    fn put_fields(&self, wire: &mut WireWrite, compact: bool)
        requires
            Self::writable(self.model(), old(wire).version as nat, compact),
            old(wire).has_room(Self::encoding(self.model(), old(wire).version as nat, compact).len()),
        ensures
            final(wire).version == old(wire).version,
            final(wire).bytes() == old(wire).bytes() + Self::encoding(
                self.model(),
                old(wire).version as nat,
                compact,
            ),
    {
        let ghost v = wire.version as nat;
        let ghost w0 = wire.bytes();
        proof {
            assert(<(Vec<String>, (Versioned<bool, 3>, Versioned<TagBuffer, 5>)) as Wired>::encoding((self.groups.model(), (opt_model(self.include_auth_ops), opt_model(self.tags))), v, compact) === <Vec<String> as Wired>::encoding(self.groups.model(), v, compact) + <(Versioned<bool, 3>, Versioned<TagBuffer, 5>) as Wired>::encoding((opt_model(self.include_auth_ops), opt_model(self.tags)), v, compact));
            assert(<(Versioned<bool, 3>, Versioned<TagBuffer, 5>) as Wired>::encoding((opt_model(self.include_auth_ops), opt_model(self.tags)), v, compact) === gate_encoding::<bool>(opt_model(self.include_auth_ops), 3, None::<nat>, v, compact) + <Versioned<TagBuffer, 5> as Wired>::encoding(opt_model(self.tags), v, compact));
        }
        put(&self.groups, wire, compact);
        let ghost w1 = wire.bytes();
        put_versioned(&self.include_auth_ops, 3, None, wire, compact);
        let ghost w2 = wire.bytes();
        put_versioned(&self.tags, 5, None, wire, compact);
        let ghost w3 = wire.bytes();
        proof {
            lemma_concat_assoc(w1, gate_encoding::<bool>(opt_model(self.include_auth_ops), 3, None::<nat>, v, compact), <Versioned<TagBuffer, 5> as Wired>::encoding(opt_model(self.tags), v, compact));
            lemma_concat_assoc(w0, <Vec<String> as Wired>::encoding(self.groups.model(), v, compact), <(Versioned<bool, 3>, Versioned<TagBuffer, 5>) as Wired>::encoding((opt_model(self.include_auth_ops), opt_model(self.tags)), v, compact));
        }
    }

    fn get_fields(wire: &mut WireRead, compact: bool) -> (r: Result<Self, Error>)
        ensures
            final(wire).version == old(wire).version,
            match Self::parse(old(wire).rest(), old(wire).version as nat, compact) {
                Ok((m, n)) => (r matches Ok(x) && x.model() == m) && n <= old(wire).rest().len()
                    && final(wire).rest() == old(wire).rest().skip(n as int),
                Err(e) => r == Err::<Self, Error>(e),
            },
    {
        let (f_groups, (f_include_auth_ops, f_tags)) = get::<RequestLayout>(wire, compact)?;
        Ok(Request { groups: f_groups, include_auth_ops: f_include_auth_ops.0, tags: f_tags.0 })
    }
}

/// The description of one group.
pub struct ResGroup {
    pub error_code: i16,
    pub group_id: String,
    pub group_state: String,
    pub protocol_type: String,
    pub protocol_data: String,
    pub members: Vec<ResMember>,
    /// On the wire from version 3.
    pub authorized_operations: Option<i32>,
    /// On the wire from version 5.
    pub tags: Option<TagBuffer>,
}

/// The fields of a `ResGroup`, in wire order.
pub type ResGroupLayout = (i16, (String, (String, (String, (String, (Vec<ResMember>, (Versioned<i32, 3>, Versioned<TagBuffer, 5>)))))));

impl Wired for ResGroup {
    type Model = <ResGroupLayout as Wired>::Model;

    open spec fn model(&self) -> Self::Model {
        (self.error_code.model(), (self.group_id.model(), (self.group_state.model(), (self.protocol_type.model(), (self.protocol_data.model(), (self.members.model(), (opt_model(self.authorized_operations), opt_model(self.tags))))))))
    }

    open spec fn writable(m: Self::Model, version: nat, compact: bool) -> bool {
        <ResGroupLayout as Wired>::writable(m, version, compact)
    }

    open spec fn canonical(m: Self::Model, version: nat, compact: bool) -> bool {
        <ResGroupLayout as Wired>::canonical(m, version, compact)
    }

    open spec fn encoding(m: Self::Model, version: nat, compact: bool) -> Seq<u8> {
        <ResGroupLayout as Wired>::encoding(m, version, compact)
    }

    open spec fn parse(data: Seq<u8>, version: nat, compact: bool) -> Parsed<Self::Model> {
        <ResGroupLayout as Wired>::parse(data, version, compact)
    }

    proof fn lemma_round_trip(m: Self::Model, version: nat, compact: bool, rest: Seq<u8>) {
        <ResGroupLayout as Wired>::lemma_round_trip(m, version, compact, rest);
    }

    fn to_wire(&self, wire: &mut WireWrite) {
        self.put_fields(wire, false)
    }

    fn from_wire(wire: &mut WireRead) -> (r: Result<Self, Error>) {
        Self::get_fields(wire, false)
    }

    fn to_wire_compact(&self, wire: &mut WireWrite) {
        self.put_fields(wire, true)
    }

    fn from_wire_compact(wire: &mut WireRead) -> (r: Result<Self, Error>) {
        Self::get_fields(wire, true)
    }
}

impl ResGroup {
    fn put_fields(&self, wire: &mut WireWrite, compact: bool)
        requires
            Self::writable(self.model(), old(wire).version as nat, compact),
            old(wire).has_room(Self::encoding(self.model(), old(wire).version as nat, compact).len()),
        ensures
            final(wire).version == old(wire).version,
            final(wire).bytes() == old(wire).bytes() + Self::encoding(
                self.model(),
                old(wire).version as nat,
                compact,
            ),
    {
        let ghost v = wire.version as nat;
        let ghost w0 = wire.bytes();
        proof {
            assert(<(i16, (String, (String, (String, (String, (Vec<ResMember>, (Versioned<i32, 3>, Versioned<TagBuffer, 5>))))))) as Wired>::encoding((self.error_code.model(), (self.group_id.model(), (self.group_state.model(), (self.protocol_type.model(), (self.protocol_data.model(), (self.members.model(), (opt_model(self.authorized_operations), opt_model(self.tags)))))))), v, compact) === <i16 as Wired>::encoding(self.error_code.model(), v, compact) + <(String, (String, (String, (String, (Vec<ResMember>, (Versioned<i32, 3>, Versioned<TagBuffer, 5>)))))) as Wired>::encoding((self.group_id.model(), (self.group_state.model(), (self.protocol_type.model(), (self.protocol_data.model(), (self.members.model(), (opt_model(self.authorized_operations), opt_model(self.tags))))))), v, compact));
            assert(<(String, (String, (String, (String, (Vec<ResMember>, (Versioned<i32, 3>, Versioned<TagBuffer, 5>)))))) as Wired>::encoding((self.group_id.model(), (self.group_state.model(), (self.protocol_type.model(), (self.protocol_data.model(), (self.members.model(), (opt_model(self.authorized_operations), opt_model(self.tags))))))), v, compact) === <String as Wired>::encoding(self.group_id.model(), v, compact) + <(String, (String, (String, (Vec<ResMember>, (Versioned<i32, 3>, Versioned<TagBuffer, 5>))))) as Wired>::encoding((self.group_state.model(), (self.protocol_type.model(), (self.protocol_data.model(), (self.members.model(), (opt_model(self.authorized_operations), opt_model(self.tags)))))), v, compact));
            assert(<(String, (String, (String, (Vec<ResMember>, (Versioned<i32, 3>, Versioned<TagBuffer, 5>))))) as Wired>::encoding((self.group_state.model(), (self.protocol_type.model(), (self.protocol_data.model(), (self.members.model(), (opt_model(self.authorized_operations), opt_model(self.tags)))))), v, compact) === <String as Wired>::encoding(self.group_state.model(), v, compact) + <(String, (String, (Vec<ResMember>, (Versioned<i32, 3>, Versioned<TagBuffer, 5>)))) as Wired>::encoding((self.protocol_type.model(), (self.protocol_data.model(), (self.members.model(), (opt_model(self.authorized_operations), opt_model(self.tags))))), v, compact));
            assert(<(String, (String, (Vec<ResMember>, (Versioned<i32, 3>, Versioned<TagBuffer, 5>)))) as Wired>::encoding((self.protocol_type.model(), (self.protocol_data.model(), (self.members.model(), (opt_model(self.authorized_operations), opt_model(self.tags))))), v, compact) === <String as Wired>::encoding(self.protocol_type.model(), v, compact) + <(String, (Vec<ResMember>, (Versioned<i32, 3>, Versioned<TagBuffer, 5>))) as Wired>::encoding((self.protocol_data.model(), (self.members.model(), (opt_model(self.authorized_operations), opt_model(self.tags)))), v, compact));
            assert(<(String, (Vec<ResMember>, (Versioned<i32, 3>, Versioned<TagBuffer, 5>))) as Wired>::encoding((self.protocol_data.model(), (self.members.model(), (opt_model(self.authorized_operations), opt_model(self.tags)))), v, compact) === <String as Wired>::encoding(self.protocol_data.model(), v, compact) + <(Vec<ResMember>, (Versioned<i32, 3>, Versioned<TagBuffer, 5>)) as Wired>::encoding((self.members.model(), (opt_model(self.authorized_operations), opt_model(self.tags))), v, compact));
            assert(<(Vec<ResMember>, (Versioned<i32, 3>, Versioned<TagBuffer, 5>)) as Wired>::encoding((self.members.model(), (opt_model(self.authorized_operations), opt_model(self.tags))), v, compact) === <Vec<ResMember> as Wired>::encoding(self.members.model(), v, compact) + <(Versioned<i32, 3>, Versioned<TagBuffer, 5>) as Wired>::encoding((opt_model(self.authorized_operations), opt_model(self.tags)), v, compact));
            assert(<(Versioned<i32, 3>, Versioned<TagBuffer, 5>) as Wired>::encoding((opt_model(self.authorized_operations), opt_model(self.tags)), v, compact) === gate_encoding::<i32>(opt_model(self.authorized_operations), 3, None::<nat>, v, compact) + <Versioned<TagBuffer, 5> as Wired>::encoding(opt_model(self.tags), v, compact));
        }
        put(&self.error_code, wire, compact);
        let ghost w1 = wire.bytes();
        put(&self.group_id, wire, compact);
        let ghost w2 = wire.bytes();
        put(&self.group_state, wire, compact);
        let ghost w3 = wire.bytes();
        put(&self.protocol_type, wire, compact);
        let ghost w4 = wire.bytes();
        put(&self.protocol_data, wire, compact);
        let ghost w5 = wire.bytes();
        put(&self.members, wire, compact);
        let ghost w6 = wire.bytes();
        put_versioned(&self.authorized_operations, 3, None, wire, compact);
        let ghost w7 = wire.bytes();
        put_versioned(&self.tags, 5, None, wire, compact);
        let ghost w8 = wire.bytes();
        proof {
            lemma_concat_assoc(w6, gate_encoding::<i32>(opt_model(self.authorized_operations), 3, None::<nat>, v, compact), <Versioned<TagBuffer, 5> as Wired>::encoding(opt_model(self.tags), v, compact));
            lemma_concat_assoc(w5, <Vec<ResMember> as Wired>::encoding(self.members.model(), v, compact), <(Versioned<i32, 3>, Versioned<TagBuffer, 5>) as Wired>::encoding((opt_model(self.authorized_operations), opt_model(self.tags)), v, compact));
            lemma_concat_assoc(w4, <String as Wired>::encoding(self.protocol_data.model(), v, compact), <(Vec<ResMember>, (Versioned<i32, 3>, Versioned<TagBuffer, 5>)) as Wired>::encoding((self.members.model(), (opt_model(self.authorized_operations), opt_model(self.tags))), v, compact));
            lemma_concat_assoc(w3, <String as Wired>::encoding(self.protocol_type.model(), v, compact), <(String, (Vec<ResMember>, (Versioned<i32, 3>, Versioned<TagBuffer, 5>))) as Wired>::encoding((self.protocol_data.model(), (self.members.model(), (opt_model(self.authorized_operations), opt_model(self.tags)))), v, compact));
            lemma_concat_assoc(w2, <String as Wired>::encoding(self.group_state.model(), v, compact), <(String, (String, (Vec<ResMember>, (Versioned<i32, 3>, Versioned<TagBuffer, 5>)))) as Wired>::encoding((self.protocol_type.model(), (self.protocol_data.model(), (self.members.model(), (opt_model(self.authorized_operations), opt_model(self.tags))))), v, compact));
            lemma_concat_assoc(w1, <String as Wired>::encoding(self.group_id.model(), v, compact), <(String, (String, (String, (Vec<ResMember>, (Versioned<i32, 3>, Versioned<TagBuffer, 5>))))) as Wired>::encoding((self.group_state.model(), (self.protocol_type.model(), (self.protocol_data.model(), (self.members.model(), (opt_model(self.authorized_operations), opt_model(self.tags)))))), v, compact));
            lemma_concat_assoc(w0, <i16 as Wired>::encoding(self.error_code.model(), v, compact), <(String, (String, (String, (String, (Vec<ResMember>, (Versioned<i32, 3>, Versioned<TagBuffer, 5>)))))) as Wired>::encoding((self.group_id.model(), (self.group_state.model(), (self.protocol_type.model(), (self.protocol_data.model(), (self.members.model(), (opt_model(self.authorized_operations), opt_model(self.tags))))))), v, compact));
        }
    }

    fn get_fields(wire: &mut WireRead, compact: bool) -> (r: Result<Self, Error>)
        ensures
            final(wire).version == old(wire).version,
            match Self::parse(old(wire).rest(), old(wire).version as nat, compact) {
                Ok((m, n)) => (r matches Ok(x) && x.model() == m) && n <= old(wire).rest().len()
                    && final(wire).rest() == old(wire).rest().skip(n as int),
                Err(e) => r == Err::<Self, Error>(e),
            },
    {
        let (f_error_code, (f_group_id, (f_group_state, (f_protocol_type, (f_protocol_data, (f_members, (f_authorized_operations, f_tags))))))) = get::<ResGroupLayout>(wire, compact)?;
        Ok(ResGroup { error_code: f_error_code, group_id: f_group_id, group_state: f_group_state, protocol_type: f_protocol_type, protocol_data: f_protocol_data, members: f_members, authorized_operations: f_authorized_operations.0, tags: f_tags.0 })
    }
}

/// A member of a described group.
pub struct ResMember {
    pub member_id: String,
    /// On the wire from version 4.
    pub group_instance_id: Option<Option<String>>,
    pub client_id: String,
    pub client_host: String,
    pub member_metadata: Bytes,
    pub member_assignment: Bytes,
    /// On the wire from version 5.
    pub tags: Option<TagBuffer>,
}

/// The fields of a `ResMember`, in wire order.
pub type ResMemberLayout = (String, (Versioned<Option<String>, 4>, (String, (String, (Bytes, (Bytes, Versioned<TagBuffer, 5>))))));

impl Wired for ResMember {
    type Model = <ResMemberLayout as Wired>::Model;

    open spec fn model(&self) -> Self::Model {
        (self.member_id.model(), (opt_model(self.group_instance_id), (self.client_id.model(), (self.client_host.model(), (self.member_metadata.model(), (self.member_assignment.model(), opt_model(self.tags)))))))
    }

    open spec fn writable(m: Self::Model, version: nat, compact: bool) -> bool {
        <ResMemberLayout as Wired>::writable(m, version, compact)
    }

    open spec fn canonical(m: Self::Model, version: nat, compact: bool) -> bool {
        <ResMemberLayout as Wired>::canonical(m, version, compact)
    }

    open spec fn encoding(m: Self::Model, version: nat, compact: bool) -> Seq<u8> {
        <ResMemberLayout as Wired>::encoding(m, version, compact)
    }

    open spec fn parse(data: Seq<u8>, version: nat, compact: bool) -> Parsed<Self::Model> {
        <ResMemberLayout as Wired>::parse(data, version, compact)
    }

    proof fn lemma_round_trip(m: Self::Model, version: nat, compact: bool, rest: Seq<u8>) {
        <ResMemberLayout as Wired>::lemma_round_trip(m, version, compact, rest);
    }

    fn to_wire(&self, wire: &mut WireWrite) {
        self.put_fields(wire, false)
    }

    fn from_wire(wire: &mut WireRead) -> (r: Result<Self, Error>) {
        Self::get_fields(wire, false)
    }

    fn to_wire_compact(&self, wire: &mut WireWrite) {
        self.put_fields(wire, true)
    }

    fn from_wire_compact(wire: &mut WireRead) -> (r: Result<Self, Error>) {
        Self::get_fields(wire, true)
    }
}

impl ResMember {
    fn put_fields(&self, wire: &mut WireWrite, compact: bool)
        requires
            Self::writable(self.model(), old(wire).version as nat, compact),
            old(wire).has_room(Self::encoding(self.model(), old(wire).version as nat, compact).len()),
        ensures
            final(wire).version == old(wire).version,
            final(wire).bytes() == old(wire).bytes() + Self::encoding(
                self.model(),
                old(wire).version as nat,
                compact,
            ),
    {
        let ghost v = wire.version as nat;
        let ghost w0 = wire.bytes();
        proof {
            assert(<(String, (Versioned<Option<String>, 4>, (String, (String, (Bytes, (Bytes, Versioned<TagBuffer, 5>)))))) as Wired>::encoding((self.member_id.model(), (opt_model(self.group_instance_id), (self.client_id.model(), (self.client_host.model(), (self.member_metadata.model(), (self.member_assignment.model(), opt_model(self.tags))))))), v, compact) === <String as Wired>::encoding(self.member_id.model(), v, compact) + <(Versioned<Option<String>, 4>, (String, (String, (Bytes, (Bytes, Versioned<TagBuffer, 5>))))) as Wired>::encoding((opt_model(self.group_instance_id), (self.client_id.model(), (self.client_host.model(), (self.member_metadata.model(), (self.member_assignment.model(), opt_model(self.tags)))))), v, compact));
            assert(<(Versioned<Option<String>, 4>, (String, (String, (Bytes, (Bytes, Versioned<TagBuffer, 5>))))) as Wired>::encoding((opt_model(self.group_instance_id), (self.client_id.model(), (self.client_host.model(), (self.member_metadata.model(), (self.member_assignment.model(), opt_model(self.tags)))))), v, compact) === gate_encoding::<Option<String>>(opt_model(self.group_instance_id), 4, None::<nat>, v, compact) + <(String, (String, (Bytes, (Bytes, Versioned<TagBuffer, 5>)))) as Wired>::encoding((self.client_id.model(), (self.client_host.model(), (self.member_metadata.model(), (self.member_assignment.model(), opt_model(self.tags))))), v, compact));
            assert(<(String, (String, (Bytes, (Bytes, Versioned<TagBuffer, 5>)))) as Wired>::encoding((self.client_id.model(), (self.client_host.model(), (self.member_metadata.model(), (self.member_assignment.model(), opt_model(self.tags))))), v, compact) === <String as Wired>::encoding(self.client_id.model(), v, compact) + <(String, (Bytes, (Bytes, Versioned<TagBuffer, 5>))) as Wired>::encoding((self.client_host.model(), (self.member_metadata.model(), (self.member_assignment.model(), opt_model(self.tags)))), v, compact));
            assert(<(String, (Bytes, (Bytes, Versioned<TagBuffer, 5>))) as Wired>::encoding((self.client_host.model(), (self.member_metadata.model(), (self.member_assignment.model(), opt_model(self.tags)))), v, compact) === <String as Wired>::encoding(self.client_host.model(), v, compact) + <(Bytes, (Bytes, Versioned<TagBuffer, 5>)) as Wired>::encoding((self.member_metadata.model(), (self.member_assignment.model(), opt_model(self.tags))), v, compact));
            assert(<(Bytes, (Bytes, Versioned<TagBuffer, 5>)) as Wired>::encoding((self.member_metadata.model(), (self.member_assignment.model(), opt_model(self.tags))), v, compact) === <Bytes as Wired>::encoding(self.member_metadata.model(), v, compact) + <(Bytes, Versioned<TagBuffer, 5>) as Wired>::encoding((self.member_assignment.model(), opt_model(self.tags)), v, compact));
            assert(<(Bytes, Versioned<TagBuffer, 5>) as Wired>::encoding((self.member_assignment.model(), opt_model(self.tags)), v, compact) === <Bytes as Wired>::encoding(self.member_assignment.model(), v, compact) + <Versioned<TagBuffer, 5> as Wired>::encoding(opt_model(self.tags), v, compact));
        }
        put(&self.member_id, wire, compact);
        let ghost w1 = wire.bytes();
        put_versioned(&self.group_instance_id, 4, None, wire, compact);
        let ghost w2 = wire.bytes();
        put(&self.client_id, wire, compact);
        let ghost w3 = wire.bytes();
        put(&self.client_host, wire, compact);
        let ghost w4 = wire.bytes();
        put(&self.member_metadata, wire, compact);
        let ghost w5 = wire.bytes();
        put(&self.member_assignment, wire, compact);
        let ghost w6 = wire.bytes();
        put_versioned(&self.tags, 5, None, wire, compact);
        let ghost w7 = wire.bytes();
        proof {
            lemma_concat_assoc(w5, <Bytes as Wired>::encoding(self.member_assignment.model(), v, compact), <Versioned<TagBuffer, 5> as Wired>::encoding(opt_model(self.tags), v, compact));
            lemma_concat_assoc(w4, <Bytes as Wired>::encoding(self.member_metadata.model(), v, compact), <(Bytes, Versioned<TagBuffer, 5>) as Wired>::encoding((self.member_assignment.model(), opt_model(self.tags)), v, compact));
            lemma_concat_assoc(w3, <String as Wired>::encoding(self.client_host.model(), v, compact), <(Bytes, (Bytes, Versioned<TagBuffer, 5>)) as Wired>::encoding((self.member_metadata.model(), (self.member_assignment.model(), opt_model(self.tags))), v, compact));
            lemma_concat_assoc(w2, <String as Wired>::encoding(self.client_id.model(), v, compact), <(String, (Bytes, (Bytes, Versioned<TagBuffer, 5>))) as Wired>::encoding((self.client_host.model(), (self.member_metadata.model(), (self.member_assignment.model(), opt_model(self.tags)))), v, compact));
            lemma_concat_assoc(w1, gate_encoding::<Option<String>>(opt_model(self.group_instance_id), 4, None::<nat>, v, compact), <(String, (String, (Bytes, (Bytes, Versioned<TagBuffer, 5>)))) as Wired>::encoding((self.client_id.model(), (self.client_host.model(), (self.member_metadata.model(), (self.member_assignment.model(), opt_model(self.tags))))), v, compact));
            lemma_concat_assoc(w0, <String as Wired>::encoding(self.member_id.model(), v, compact), <(Versioned<Option<String>, 4>, (String, (String, (Bytes, (Bytes, Versioned<TagBuffer, 5>))))) as Wired>::encoding((opt_model(self.group_instance_id), (self.client_id.model(), (self.client_host.model(), (self.member_metadata.model(), (self.member_assignment.model(), opt_model(self.tags)))))), v, compact));
        }
    }

    fn get_fields(wire: &mut WireRead, compact: bool) -> (r: Result<Self, Error>)
        ensures
            final(wire).version == old(wire).version,
            match Self::parse(old(wire).rest(), old(wire).version as nat, compact) {
                Ok((m, n)) => (r matches Ok(x) && x.model() == m) && n <= old(wire).rest().len()
                    && final(wire).rest() == old(wire).rest().skip(n as int),
                Err(e) => r == Err::<Self, Error>(e),
            },
    {
        let (f_member_id, (f_group_instance_id, (f_client_id, (f_client_host, (f_member_metadata, (f_member_assignment, f_tags)))))) = get::<ResMemberLayout>(wire, compact)?;
        Ok(ResMember { member_id: f_member_id, group_instance_id: f_group_instance_id.0, client_id: f_client_id, client_host: f_client_host, member_metadata: f_member_metadata, member_assignment: f_member_assignment, tags: f_tags.0 })
    }
}

/// The describe-groups response.
pub struct Response {
    /// On the wire from version 1.
    pub throttle_time_ms: Option<i32>,
    pub groups: Vec<ResGroup>,
    /// On the wire from version 5.
    pub tags: Option<TagBuffer>,
}

/// The fields of a `Response`, in wire order.
pub type ResponseLayout = (Versioned<i32, 1>, (Vec<ResGroup>, Versioned<TagBuffer, 5>));

impl Wired for Response {
    type Model = <ResponseLayout as Wired>::Model;

    open spec fn model(&self) -> Self::Model {
        (opt_model(self.throttle_time_ms), (self.groups.model(), opt_model(self.tags)))
    }

    open spec fn writable(m: Self::Model, version: nat, compact: bool) -> bool {
        <ResponseLayout as Wired>::writable(m, version, compact)
    }

    open spec fn canonical(m: Self::Model, version: nat, compact: bool) -> bool {
        <ResponseLayout as Wired>::canonical(m, version, compact)
    }

    open spec fn encoding(m: Self::Model, version: nat, compact: bool) -> Seq<u8> {
        <ResponseLayout as Wired>::encoding(m, version, compact)
    }

    open spec fn parse(data: Seq<u8>, version: nat, compact: bool) -> Parsed<Self::Model> {
        <ResponseLayout as Wired>::parse(data, version, compact)
    }

    proof fn lemma_round_trip(m: Self::Model, version: nat, compact: bool, rest: Seq<u8>) {
        <ResponseLayout as Wired>::lemma_round_trip(m, version, compact, rest);
    }

    fn to_wire(&self, wire: &mut WireWrite) {
        self.put_fields(wire, false)
    }

    fn from_wire(wire: &mut WireRead) -> (r: Result<Self, Error>) {
        Self::get_fields(wire, false)
    }

    fn to_wire_compact(&self, wire: &mut WireWrite) {
        self.put_fields(wire, true)
    }

    fn from_wire_compact(wire: &mut WireRead) -> (r: Result<Self, Error>) {
        Self::get_fields(wire, true)
    }
}

impl Response {
    fn put_fields(&self, wire: &mut WireWrite, compact: bool)
        requires
            Self::writable(self.model(), old(wire).version as nat, compact),
            old(wire).has_room(Self::encoding(self.model(), old(wire).version as nat, compact).len()),
        ensures
            final(wire).version == old(wire).version,
            final(wire).bytes() == old(wire).bytes() + Self::encoding(
                self.model(),
                old(wire).version as nat,
                compact,
            ),
    {
        let ghost v = wire.version as nat;
        let ghost w0 = wire.bytes();
        proof {
            assert(<(Versioned<i32, 1>, (Vec<ResGroup>, Versioned<TagBuffer, 5>)) as Wired>::encoding((opt_model(self.throttle_time_ms), (self.groups.model(), opt_model(self.tags))), v, compact) === gate_encoding::<i32>(opt_model(self.throttle_time_ms), 1, None::<nat>, v, compact) + <(Vec<ResGroup>, Versioned<TagBuffer, 5>) as Wired>::encoding((self.groups.model(), opt_model(self.tags)), v, compact));
            assert(<(Vec<ResGroup>, Versioned<TagBuffer, 5>) as Wired>::encoding((self.groups.model(), opt_model(self.tags)), v, compact) === <Vec<ResGroup> as Wired>::encoding(self.groups.model(), v, compact) + <Versioned<TagBuffer, 5> as Wired>::encoding(opt_model(self.tags), v, compact));
        }
        put_versioned(&self.throttle_time_ms, 1, None, wire, compact);
        let ghost w1 = wire.bytes();
        put(&self.groups, wire, compact);
        let ghost w2 = wire.bytes();
        put_versioned(&self.tags, 5, None, wire, compact);
        let ghost w3 = wire.bytes();
        proof {
            lemma_concat_assoc(w1, <Vec<ResGroup> as Wired>::encoding(self.groups.model(), v, compact), <Versioned<TagBuffer, 5> as Wired>::encoding(opt_model(self.tags), v, compact));
            lemma_concat_assoc(w0, gate_encoding::<i32>(opt_model(self.throttle_time_ms), 1, None::<nat>, v, compact), <(Vec<ResGroup>, Versioned<TagBuffer, 5>) as Wired>::encoding((self.groups.model(), opt_model(self.tags)), v, compact));
        }
    }

    fn get_fields(wire: &mut WireRead, compact: bool) -> (r: Result<Self, Error>)
        ensures
            final(wire).version == old(wire).version,
            match Self::parse(old(wire).rest(), old(wire).version as nat, compact) {
                Ok((m, n)) => (r matches Ok(x) && x.model() == m) && n <= old(wire).rest().len()
                    && final(wire).rest() == old(wire).rest().skip(n as int),
                Err(e) => r == Err::<Self, Error>(e),
            },
    {
        let (f_throttle_time_ms, (f_groups, f_tags)) = get::<ResponseLayout>(wire, compact)?;
        Ok(Response { throttle_time_ms: f_throttle_time_ms.0, groups: f_groups, tags: f_tags.0 })
    }
}

impl ApiRequest for Request {
    type Response = Response;

    open spec fn key() -> ApiKey {
        ApiKey::DescribeGroups
    }

    open spec fn flexible_from() -> nat {
        5
    }

    fn api_key() -> (r: ApiKey) {
        ApiKey::DescribeGroups
    }

    fn flexible_version() -> (r: usize) {
        5
    }
}

} // verus!
