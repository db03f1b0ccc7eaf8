//! The join-group message of consumer groups.
use crate::compose::{get, gate_encoding, lemma_concat_assoc, opt_model, put, put_versioned, Versioned};
use crate::error::Error;
use crate::wire::{Parsed, WireRead, WireWrite, Wired};
use crate::api::{ApiKey, ApiRequest};
use crate::tagged::TagBuffer;
use bytes::Bytes;
use vstd::prelude::*;

verus! {

/// A protocol the member supports.
pub struct Proto {
    pub name: String,
    pub metadata: Bytes,
    /// On the wire from version 6.
    pub tags: Option<TagBuffer>,
}

/// The fields of a `Proto`, in wire order.
pub type ProtoLayout = (String, (Bytes, Versioned<TagBuffer, 6>));

impl Wired for Proto {
    type Model = <ProtoLayout as Wired>::Model;

    open spec fn model(&self) -> Self::Model {
        (self.name.model(), (self.metadata.model(), opt_model(self.tags)))
    }

    open spec fn writable(m: Self::Model, version: nat, compact: bool) -> bool {
        <ProtoLayout as Wired>::writable(m, version, compact)
    }

    open spec fn canonical(m: Self::Model, version: nat, compact: bool) -> bool {
        <ProtoLayout as Wired>::canonical(m, version, compact)
    }

    open spec fn encoding(m: Self::Model, version: nat, compact: bool) -> Seq<u8> {
        <ProtoLayout as Wired>::encoding(m, version, compact)
    }

    open spec fn parse(data: Seq<u8>, version: nat, compact: bool) -> Parsed<Self::Model> {
        <ProtoLayout as Wired>::parse(data, version, compact)
    }

    proof fn lemma_round_trip(m: Self::Model, version: nat, compact: bool, rest: Seq<u8>) {
        <ProtoLayout as Wired>::lemma_round_trip(m, version, compact, rest);
    }

    fn to_wire(&self, wire: &mut WireWrite) {
        self.put_fields(wire, false)
    }

    fn from_wire(wire: &mut WireRead) -> (r: Result<Self, Error>) {
        Self::get_fields(wire, false)
    }

    fn to_wire_compact(&self, wire: &mut WireWrite) {
        self.put_fields(wire, true)
    }

    fn from_wire_compact(wire: &mut WireRead) -> (r: Result<Self, Error>) {
        Self::get_fields(wire, true)
    }
}

impl Proto {
    fn put_fields(&self, wire: &mut WireWrite, compact: bool)
        requires
            Self::writable(self.model(), old(wire).version as nat, compact),
            old(wire).has_room(Self::encoding(self.model(), old(wire).version as nat, compact).len()),
        ensures
            final(wire).version == old(wire).version,
            final(wire).bytes() == old(wire).bytes() + Self::encoding(
                self.model(),
                old(wire).version as nat,
                compact,
            ),
    {
        let ghost v = wire.version as nat;
        let ghost w0 = wire.bytes();
        proof {
            assert(<(String, (Bytes, Versioned<TagBuffer, 6>)) as Wired>::encoding((self.name.model(), (self.metadata.model(), opt_model(self.tags))), v, compact) === <String as Wired>::encoding(self.name.model(), v, compact) + <(Bytes, Versioned<TagBuffer, 6>) as Wired>::encoding((self.metadata.model(), opt_model(self.tags)), v, compact));
            assert(<(Bytes, Versioned<TagBuffer, 6>) as Wired>::encoding((self.metadata.model(), opt_model(self.tags)), v, compact) === <Bytes as Wired>::encoding(self.metadata.model(), v, compact) + <Versioned<TagBuffer, 6> as Wired>::encoding(opt_model(self.tags), v, compact));
        }
        put(&self.name, wire, compact);
        let ghost w1 = wire.bytes();
        put(&self.metadata, wire, compact);
        let ghost w2 = wire.bytes();
        put_versioned(&self.tags, 6, None, wire, compact);
        let ghost w3 = wire.bytes();
        proof {
            lemma_concat_assoc(w1, <Bytes as Wired>::encoding(self.metadata.model(), v, compact), <Versioned<TagBuffer, 6> as Wired>::encoding(opt_model(self.tags), v, compact));
            lemma_concat_assoc(w0, <String as Wired>::encoding(self.name.model(), v, compact), <(Bytes, Versioned<TagBuffer, 6>) as Wired>::encoding((self.metadata.model(), opt_model(self.tags)), v, compact));
        }
    }

    fn get_fields(wire: &mut WireRead, compact: bool) -> (r: Result<Self, Error>)
        ensures
            final(wire).version == old(wire).version,
            match Self::parse(old(wire).rest(), old(wire).version as nat, compact) {
                Ok((m, n)) => (r matches Ok(x) && x.model() == m) && n <= old(wire).rest().len()
                    && final(wire).rest() == old(wire).rest().skip(n as int),
                Err(e) => r == Err::<Self, Error>(e),
            },
    {
        let (f_name, (f_metadata, f_tags)) = get::<ProtoLayout>(wire, compact)?;
        Ok(Proto { name: f_name, metadata: f_metadata, tags: f_tags.0 })
    }
}

/// The join-group request.
pub struct Request {
    pub group_id: String,
    pub session_timeout: i32,
    /// On the wire from version 1.
    pub rebalance_timeout: Option<i32>,
    pub member_id: String,
    pub group_instance_id: Option<String>,
    pub protocol_type: String,
    pub protocols: Vec<Proto>,
    /// On the wire from version 6.
    pub tags: Option<TagBuffer>,
}

/// The fields of a `Request`, in wire order.
pub type RequestLayout = (String, (i32, (Versioned<i32, 1>, (String, (Option<String>, (String, (Vec<Proto>, Versioned<TagBuffer, 6>)))))));

impl Wired for Request {
    type Model = <RequestLayout as Wired>::Model;

    open spec fn model(&self) -> Self::Model {
        (self.group_id.model(), (self.session_timeout.model(), (opt_model(self.rebalance_timeout), (self.member_id.model(), (self.group_instance_id.model(), (self.protocol_type.model(), (self.protocols.model(), opt_model(self.tags))))))))
    }

    open spec fn writable(m: Self::Model, version: nat, compact: bool) -> bool {
        <RequestLayout as Wired>::writable(m, version, compact)
    }

    open spec fn canonical(m: Self::Model, version: nat, compact: bool) -> bool {
        <RequestLayout as Wired>::canonical(m, version, compact)
    }

    open spec fn encoding(m: Self::Model, version: nat, compact: bool) -> Seq<u8> {
        <RequestLayout as Wired>::encoding(m, version, compact)
    }

    open spec fn parse(data: Seq<u8>, version: nat, compact: bool) -> Parsed<Self::Model> {
        <RequestLayout as Wired>::parse(data, version, compact)
    }

    proof fn lemma_round_trip(m: Self::Model, version: nat, compact: bool, rest: Seq<u8>) {
        <RequestLayout as Wired>::lemma_round_trip(m, version, compact, rest);
    }

    fn to_wire(&self, wire: &mut WireWrite) {
        self.put_fields(wire, false)
    }

    fn from_wire(wire: &mut WireRead) -> (r: Result<Self, Error>) {
        Self::get_fields(wire, false)
    }

    fn to_wire_compact(&self, wire: &mut WireWrite) {
        self.put_fields(wire, true)
    }

    fn from_wire_compact(wire: &mut WireRead) -> (r: Result<Self, Error>) {
        Self::get_fields(wire, true)
    }
}

impl Request {
    fn put_fields(&self, wire: &mut WireWrite, compact: bool)
        requires
            Self::writable(self.model(), old(wire).version as nat, compact),
            old(wire).has_room(Self::encoding(self.model(), old(wire).version as nat, compact).len()),
        ensures
            final(wire).version == old(wire).version,
            final(wire).bytes() == old(wire).bytes() + Self::encoding(
                self.model(),
                old(wire).version as nat,
                compact,
            ),
    {
        let ghost v = wire.version as nat;
        let ghost w0 = wire.bytes();
        proof {
            assert(<(String, (i32, (Versioned<i32, 1>, (String, (Option<String>, (String, (Vec<Proto>, Versioned<TagBuffer, 6>))))))) as Wired>::encoding((self.group_id.model(), (self.session_timeout.model(), (opt_model(self.rebalance_timeout), (self.member_id.model(), (self.group_instance_id.model(), (self.protocol_type.model(), (self.protocols.model(), opt_model(self.tags)))))))), v, compact) === <String as Wired>::encoding(self.group_id.model(), v, compact) + <(i32, (Versioned<i32, 1>, (String, (Option<String>, (String, (Vec<Proto>, Versioned<TagBuffer, 6>)))))) as Wired>::encoding((self.session_timeout.model(), (opt_model(self.rebalance_timeout), (self.member_id.model(), (self.group_instance_id.model(), (self.protocol_type.model(), (self.protocols.model(), opt_model(self.tags))))))), v, compact));
            assert(<(i32, (Versioned<i32, 1>, (String, (Option<String>, (String, (Vec<Proto>, Versioned<TagBuffer, 6>)))))) as Wired>::encoding((self.session_timeout.model(), (opt_model(self.rebalance_timeout), (self.member_id.model(), (self.group_instance_id.model(), (self.protocol_type.model(), (self.protocols.model(), opt_model(self.tags))))))), v, compact) === <i32 as Wired>::encoding(self.session_timeout.model(), v, compact) + <(Versioned<i32, 1>, (String, (Option<String>, (String, (Vec<Proto>, Versioned<TagBuffer, 6>))))) as Wired>::encoding((opt_model(self.rebalance_timeout), (self.member_id.model(), (self.group_instance_id.model(), (self.protocol_type.model(), (self.protocols.model(), opt_model(self.tags)))))), v, compact));
            assert(<(Versioned<i32, 1>, (String, (Option<String>, (String, (Vec<Proto>, Versioned<TagBuffer, 6>))))) as Wired>::encoding((opt_model(self.rebalance_timeout), (self.member_id.model(), (self.group_instance_id.model(), (self.protocol_type.model(), (self.protocols.model(), opt_model(self.tags)))))), v, compact) === gate_encoding::<i32>(opt_model(self.rebalance_timeout), 1, None::<nat>, v, compact) + <(String, (Option<String>, (String, (Vec<Proto>, Versioned<TagBuffer, 6>)))) as Wired>::encoding((self.member_id.model(), (self.group_instance_id.model(), (self.protocol_type.model(), (self.protocols.model(), opt_model(self.tags))))), v, compact));
            assert(<(String, (Option<String>, (String, (Vec<Proto>, Versioned<TagBuffer, 6>)))) as Wired>::encoding((self.member_id.model(), (self.group_instance_id.model(), (self.protocol_type.model(), (self.protocols.model(), opt_model(self.tags))))), v, compact) === <String as Wired>::encoding(self.member_id.model(), v, compact) + <(Option<String>, (String, (Vec<Proto>, Versioned<TagBuffer, 6>))) as Wired>::encoding((self.group_instance_id.model(), (self.protocol_type.model(), (self.protocols.model(), opt_model(self.tags)))), v, compact));
            assert(<(Option<String>, (String, (Vec<Proto>, Versioned<TagBuffer, 6>))) as Wired>::encoding((self.group_instance_id.model(), (self.protocol_type.model(), (self.protocols.model(), opt_model(self.tags)))), v, compact) === <Option<String> as Wired>::encoding(self.group_instance_id.model(), v, compact) + <(String, (Vec<Proto>, Versioned<TagBuffer, 6>)) as Wired>::encoding((self.protocol_type.model(), (self.protocols.model(), opt_model(self.tags))), v, compact));
            assert(<(String, (Vec<Proto>, Versioned<TagBuffer, 6>)) as Wired>::encoding((self.protocol_type.model(), (self.protocols.model(), opt_model(self.tags))), v, compact) === <String as Wired>::encoding(self.protocol_type.model(), v, compact) + <(Vec<Proto>, Versioned<TagBuffer, 6>) as Wired>::encoding((self.protocols.model(), opt_model(self.tags)), v, compact));
            assert(<(Vec<Proto>, Versioned<TagBuffer, 6>) as Wired>::encoding((self.protocols.model(), opt_model(self.tags)), v, compact) === <Vec<Proto> as Wired>::encoding(self.protocols.model(), v, compact) + <Versioned<TagBuffer, 6> as Wired>::encoding(opt_model(self.tags), v, compact));
        }
        put(&self.group_id, wire, compact);
        let ghost w1 = wire.bytes();
        put(&self.session_timeout, wire, compact);
        let ghost w2 = wire.bytes();
        put_versioned(&self.rebalance_timeout, 1, None, wire, compact);
        let ghost w3 = wire.bytes();
        put(&self.member_id, wire, compact);
        let ghost w4 = wire.bytes();
        put(&self.group_instance_id, wire, compact);
        let ghost w5 = wire.bytes();
        put(&self.protocol_type, wire, compact);
        let ghost w6 = wire.bytes();
        put(&self.protocols, wire, compact);
        let ghost w7 = wire.bytes();
        put_versioned(&self.tags, 6, None, wire, compact);
        let ghost w8 = wire.bytes();
        proof {
            lemma_concat_assoc(w6, <Vec<Proto> as Wired>::encoding(self.protocols.model(), v, compact), <Versioned<TagBuffer, 6> as Wired>::encoding(opt_model(self.tags), v, compact));
            lemma_concat_assoc(w5, <String as Wired>::encoding(self.protocol_type.model(), v, compact), <(Vec<Proto>, Versioned<TagBuffer, 6>) as Wired>::encoding((self.protocols.model(), opt_model(self.tags)), v, compact));
            lemma_concat_assoc(w4, <Option<String> as Wired>::encoding(self.group_instance_id.model(), v, compact), <(String, (Vec<Proto>, Versioned<TagBuffer, 6>)) as Wired>::encoding((self.protocol_type.model(), (self.protocols.model(), opt_model(self.tags))), v, compact));
            lemma_concat_assoc(w3, <String as Wired>::encoding(self.member_id.model(), v, compact), <(Option<String>, (String, (Vec<Proto>, Versioned<TagBuffer, 6>))) as Wired>::encoding((self.group_instance_id.model(), (self.protocol_type.model(), (self.protocols.model(), opt_model(self.tags)))), v, compact));
            lemma_concat_assoc(w2, gate_encoding::<i32>(opt_model(self.rebalance_timeout), 1, None::<nat>, v, compact), <(String, (Option<String>, (String, (Vec<Proto>, Versioned<TagBuffer, 6>)))) as Wired>::encoding((self.member_id.model(), (self.group_instance_id.model(), (self.protocol_type.model(), (self.protocols.model(), opt_model(self.tags))))), v, compact));
            lemma_concat_assoc(w1, <i32 as Wired>::encoding(self.session_timeout.model(), v, compact), <(Versioned<i32, 1>, (String, (Option<String>, (String, (Vec<Proto>, Versioned<TagBuffer, 6>))))) as Wired>::encoding((opt_model(self.rebalance_timeout), (self.member_id.model(), (self.group_instance_id.model(), (self.protocol_type.model(), (self.protocols.model(), opt_model(self.tags)))))), v, compact));
            lemma_concat_assoc(w0, <String as Wired>::encoding(self.group_id.model(), v, compact), <(i32, (Versioned<i32, 1>, (String, (Option<String>, (String, (Vec<Proto>, Versioned<TagBuffer, 6>)))))) as Wired>::encoding((self.session_timeout.model(), (opt_model(self.rebalance_timeout), (self.member_id.model(), (self.group_instance_id.model(), (self.protocol_type.model(), (self.protocols.model(), opt_model(self.tags))))))), v, compact));
        }
    }

    fn get_fields(wire: &mut WireRead, compact: bool) -> (r: Result<Self, Error>)
        ensures
            final(wire).version == old(wire).version,
            match Self::parse(old(wire).rest(), old(wire).version as nat, compact) {
                Ok((m, n)) => (r matches Ok(x) && x.model() == m) && n <= old(wire).rest().len()
                    && final(wire).rest() == old(wire).rest().skip(n as int),
                Err(e) => r == Err::<Self, Error>(e),
            },
    {
        let (f_group_id, (f_session_timeout, (f_rebalance_timeout, (f_member_id, (f_group_instance_id, (f_protocol_type, (f_protocols, f_tags))))))) = get::<RequestLayout>(wire, compact)?;
        Ok(Request { group_id: f_group_id, session_timeout: f_session_timeout, rebalance_timeout: f_rebalance_timeout.0, member_id: f_member_id, group_instance_id: f_group_instance_id, protocol_type: f_protocol_type, protocols: f_protocols, tags: f_tags.0 })
    }
}

/// A member of the group.
pub struct Members {
    pub member_id: String,
    /// On the wire from version 5.
    pub group_instance_id: Option<Option<String>>,
    pub metadata: Bytes,
    /// On the wire from version 6.
    pub tags: Option<TagBuffer>,
}

/// The fields of a `Members`, in wire order.
pub type MembersLayout = (String, (Versioned<Option<String>, 5>, (Bytes, Versioned<TagBuffer, 6>)));

impl Wired for Members {
    type Model = <MembersLayout as Wired>::Model;

    open spec fn model(&self) -> Self::Model {
        (self.member_id.model(), (opt_model(self.group_instance_id), (self.metadata.model(), opt_model(self.tags))))
    }

    open spec fn writable(m: Self::Model, version: nat, compact: bool) -> bool {
        <MembersLayout as Wired>::writable(m, version, compact)
    }

    open spec fn canonical(m: Self::Model, version: nat, compact: bool) -> bool {
        <MembersLayout as Wired>::canonical(m, version, compact)
    }

    open spec fn encoding(m: Self::Model, version: nat, compact: bool) -> Seq<u8> {
        <MembersLayout as Wired>::encoding(m, version, compact)
    }

    open spec fn parse(data: Seq<u8>, version: nat, compact: bool) -> Parsed<Self::Model> {
        <MembersLayout as Wired>::parse(data, version, compact)
    }

    proof fn lemma_round_trip(m: Self::Model, version: nat, compact: bool, rest: Seq<u8>) {
        <MembersLayout as Wired>::lemma_round_trip(m, version, compact, rest);
    }

    fn to_wire(&self, wire: &mut WireWrite) {
        self.put_fields(wire, false)
    }

    fn from_wire(wire: &mut WireRead) -> (r: Result<Self, Error>) {
        Self::get_fields(wire, false)
    }

    fn to_wire_compact(&self, wire: &mut WireWrite) {
        self.put_fields(wire, true)
    }

    fn from_wire_compact(wire: &mut WireRead) -> (r: Result<Self, Error>) {
        Self::get_fields(wire, true)
    }
}

impl Members {
    fn put_fields(&self, wire: &mut WireWrite, compact: bool)
        requires
            Self::writable(self.model(), old(wire).version as nat, compact),
            old(wire).has_room(Self::encoding(self.model(), old(wire).version as nat, compact).len()),
        ensures
            final(wire).version == old(wire).version,
            final(wire).bytes() == old(wire).bytes() + Self::encoding(
                self.model(),
                old(wire).version as nat,
                compact,
            ),
    {
        let ghost v = wire.version as nat;
        let ghost w0 = wire.bytes();
        proof {
            assert(<(String, (Versioned<Option<String>, 5>, (Bytes, Versioned<TagBuffer, 6>))) as Wired>::encoding((self.member_id.model(), (opt_model(self.group_instance_id), (self.metadata.model(), opt_model(self.tags)))), v, compact) === <String as Wired>::encoding(self.member_id.model(), v, compact) + <(Versioned<Option<String>, 5>, (Bytes, Versioned<TagBuffer, 6>)) as Wired>::encoding((opt_model(self.group_instance_id), (self.metadata.model(), opt_model(self.tags))), v, compact));
            assert(<(Versioned<Option<String>, 5>, (Bytes, Versioned<TagBuffer, 6>)) as Wired>::encoding((opt_model(self.group_instance_id), (self.metadata.model(), opt_model(self.tags))), v, compact) === gate_encoding::<Option<String>>(opt_model(self.group_instance_id), 5, None::<nat>, v, compact) + <(Bytes, Versioned<TagBuffer, 6>) as Wired>::encoding((self.metadata.model(), opt_model(self.tags)), v, compact));
            assert(<(Bytes, Versioned<TagBuffer, 6>) as Wired>::encoding((self.metadata.model(), opt_model(self.tags)), v, compact) === <Bytes as Wired>::encoding(self.metadata.model(), v, compact) + <Versioned<TagBuffer, 6> as Wired>::encoding(opt_model(self.tags), v, compact));
        }
        put(&self.member_id, wire, compact);
        let ghost w1 = wire.bytes();
        put_versioned(&self.group_instance_id, 5, None, wire, compact);
        let ghost w2 = wire.bytes();
        put(&self.metadata, wire, compact);
        let ghost w3 = wire.bytes();
        put_versioned(&self.tags, 6, None, wire, compact);
        let ghost w4 = wire.bytes();
        proof {
            lemma_concat_assoc(w2, <Bytes as Wired>::encoding(self.metadata.model(), v, compact), <Versioned<TagBuffer, 6> as Wired>::encoding(opt_model(self.tags), v, compact));
            lemma_concat_assoc(w1, gate_encoding::<Option<String>>(opt_model(self.group_instance_id), 5, None::<nat>, v, compact), <(Bytes, Versioned<TagBuffer, 6>) as Wired>::encoding((self.metadata.model(), opt_model(self.tags)), v, compact));
            lemma_concat_assoc(w0, <String as Wired>::encoding(self.member_id.model(), v, compact), <(Versioned<Option<String>, 5>, (Bytes, Versioned<TagBuffer, 6>)) as Wired>::encoding((opt_model(self.group_instance_id), (self.metadata.model(), opt_model(self.tags))), v, compact));
        }
    }

    fn get_fields(wire: &mut WireRead, compact: bool) -> (r: Result<Self, Error>)
        ensures
            final(wire).version == old(wire).version,
            match Self::parse(old(wire).rest(), old(wire).version as nat, compact) {
                Ok((m, n)) => (r matches Ok(x) && x.model() == m) && n <= old(wire).rest().len()
                    && final(wire).rest() == old(wire).rest().skip(n as int),
                Err(e) => r == Err::<Self, Error>(e),
            },
    {
        let (f_member_id, (f_group_instance_id, (f_metadata, f_tags))) = get::<MembersLayout>(wire, compact)?;
        Ok(Members { member_id: f_member_id, group_instance_id: f_group_instance_id.0, metadata: f_metadata, tags: f_tags.0 })
    }
}

/// The join-group response.
pub struct Response {
    /// On the wire from version 2.
    pub throttle_time_ms: Option<i32>,
    pub error_code: i16,
    pub generation_id: i32,
    pub protocol_type: String,
    pub protocol_name: String,
    pub leader: String,
    pub member_id: String,
    pub members: Vec<Members>,
    /// On the wire from version 6.
    pub tags: Option<TagBuffer>,
}

/// The fields of a `Response`, in wire order.
pub type ResponseLayout = (Versioned<i32, 2>, (i16, (i32, (String, (String, (String, (String, (Vec<Members>, Versioned<TagBuffer, 6>))))))));

impl Wired for Response {
    type Model = <ResponseLayout as Wired>::Model;

    open spec fn model(&self) -> Self::Model {
        (opt_model(self.throttle_time_ms), (self.error_code.model(), (self.generation_id.model(), (self.protocol_type.model(), (self.protocol_name.model(), (self.leader.model(), (self.member_id.model(), (self.members.model(), opt_model(self.tags)))))))))
    }

    open spec fn writable(m: Self::Model, version: nat, compact: bool) -> bool {
        <ResponseLayout as Wired>::writable(m, version, compact)
    }

    open spec fn canonical(m: Self::Model, version: nat, compact: bool) -> bool {
        <ResponseLayout as Wired>::canonical(m, version, compact)
    }

    open spec fn encoding(m: Self::Model, version: nat, compact: bool) -> Seq<u8> {
        <ResponseLayout as Wired>::encoding(m, version, compact)
    }

    open spec fn parse(data: Seq<u8>, version: nat, compact: bool) -> Parsed<Self::Model> {
        <ResponseLayout as Wired>::parse(data, version, compact)
    }

    proof fn lemma_round_trip(m: Self::Model, version: nat, compact: bool, rest: Seq<u8>) {
        <ResponseLayout as Wired>::lemma_round_trip(m, version, compact, rest);
    }

    fn to_wire(&self, wire: &mut WireWrite) {
        self.put_fields(wire, false)
    }

    fn from_wire(wire: &mut WireRead) -> (r: Result<Self, Error>) {
        Self::get_fields(wire, false)
    }

    fn to_wire_compact(&self, wire: &mut WireWrite) {
        self.put_fields(wire, true)
    }

    fn from_wire_compact(wire: &mut WireRead) -> (r: Result<Self, Error>) {
        Self::get_fields(wire, true)
    }
}

impl Response {
    fn put_fields(&self, wire: &mut WireWrite, compact: bool)
        requires
            Self::writable(self.model(), old(wire).version as nat, compact),
            old(wire).has_room(Self::encoding(self.model(), old(wire).version as nat, compact).len()),
        ensures
            final(wire).version == old(wire).version,
            final(wire).bytes() == old(wire).bytes() + Self::encoding(
                self.model(),
                old(wire).version as nat,
                compact,
            ),
    {
        let ghost v = wire.version as nat;
        let ghost w0 = wire.bytes();
        proof {
            assert(<(Versioned<i32, 2>, (i16, (i32, (String, (String, (String, (String, (Vec<Members>, Versioned<TagBuffer, 6>)))))))) as Wired>::encoding((opt_model(self.throttle_time_ms), (self.error_code.model(), (self.generation_id.model(), (self.protocol_type.model(), (self.protocol_name.model(), (self.leader.model(), (self.member_id.model(), (self.members.model(), opt_model(self.tags))))))))), v, compact) === gate_encoding::<i32>(opt_model(self.throttle_time_ms), 2, None::<nat>, v, compact) + <(i16, (i32, (String, (String, (String, (String, (Vec<Members>, Versioned<TagBuffer, 6>))))))) as Wired>::encoding((self.error_code.model(), (self.generation_id.model(), (self.protocol_type.model(), (self.protocol_name.model(), (self.leader.model(), (self.member_id.model(), (self.members.model(), opt_model(self.tags)))))))), v, compact));
            assert(<(i16, (i32, (String, (String, (String, (String, (Vec<Members>, Versioned<TagBuffer, 6>))))))) as Wired>::encoding((self.error_code.model(), (self.generation_id.model(), (self.protocol_type.model(), (self.protocol_name.model(), (self.leader.model(), (self.member_id.model(), (self.members.model(), opt_model(self.tags)))))))), v, compact) === <i16 as Wired>::encoding(self.error_code.model(), v, compact) + <(i32, (String, (String, (String, (String, (Vec<Members>, Versioned<TagBuffer, 6>)))))) as Wired>::encoding((self.generation_id.model(), (self.protocol_type.model(), (self.protocol_name.model(), (self.leader.model(), (self.member_id.model(), (self.members.model(), opt_model(self.tags))))))), v, compact));
            assert(<(i32, (String, (String, (String, (String, (Vec<Members>, Versioned<TagBuffer, 6>)))))) as Wired>::encoding((self.generation_id.model(), (self.protocol_type.model(), (self.protocol_name.model(), (self.leader.model(), (self.member_id.model(), (self.members.model(), opt_model(self.tags))))))), v, compact) === <i32 as Wired>::encoding(self.generation_id.model(), v, compact) + <(String, (String, (String, (String, (Vec<Members>, Versioned<TagBuffer, 6>))))) as Wired>::encoding((self.protocol_type.model(), (self.protocol_name.model(), (self.leader.model(), (self.member_id.model(), (self.members.model(), opt_model(self.tags)))))), v, compact));
            assert(<(String, (String, (String, (String, (Vec<Members>, Versioned<TagBuffer, 6>))))) as Wired>::encoding((self.protocol_type.model(), (self.protocol_name.model(), (self.leader.model(), (self.member_id.model(), (self.members.model(), opt_model(self.tags)))))), v, compact) === <String as Wired>::encoding(self.protocol_type.model(), v, compact) + <(String, (String, (String, (Vec<Members>, Versioned<TagBuffer, 6>)))) as Wired>::encoding((self.protocol_name.model(), (self.leader.model(), (self.member_id.model(), (self.members.model(), opt_model(self.tags))))), v, compact));
            assert(<(String, (String, (String, (Vec<Members>, Versioned<TagBuffer, 6>)))) as Wired>::encoding((self.protocol_name.model(), (self.leader.model(), (self.member_id.model(), (self.members.model(), opt_model(self.tags))))), v, compact) === <String as Wired>::encoding(self.protocol_name.model(), v, compact) + <(String, (String, (Vec<Members>, Versioned<TagBuffer, 6>))) as Wired>::encoding((self.leader.model(), (self.member_id.model(), (self.members.model(), opt_model(self.tags)))), v, compact));
            assert(<(String, (String, (Vec<Members>, Versioned<TagBuffer, 6>))) as Wired>::encoding((self.leader.model(), (self.member_id.model(), (self.members.model(), opt_model(self.tags)))), v, compact) === <String as Wired>::encoding(self.leader.model(), v, compact) + <(String, (Vec<Members>, Versioned<TagBuffer, 6>)) as Wired>::encoding((self.member_id.model(), (self.members.model(), opt_model(self.tags))), v, compact));
            assert(<(String, (Vec<Members>, Versioned<TagBuffer, 6>)) as Wired>::encoding((self.member_id.model(), (self.members.model(), opt_model(self.tags))), v, compact) === <String as Wired>::encoding(self.member_id.model(), v, compact) + <(Vec<Members>, Versioned<TagBuffer, 6>) as Wired>::encoding((self.members.model(), opt_model(self.tags)), v, compact));
            assert(<(Vec<Members>, Versioned<TagBuffer, 6>) as Wired>::encoding((self.members.model(), opt_model(self.tags)), v, compact) === <Vec<Members> as Wired>::encoding(self.members.model(), v, compact) + <Versioned<TagBuffer, 6> as Wired>::encoding(opt_model(self.tags), v, compact));
        }
        put_versioned(&self.throttle_time_ms, 2, None, wire, compact);
        let ghost w1 = wire.bytes();
        put(&self.error_code, wire, compact);
        let ghost w2 = wire.bytes();
        put(&self.generation_id, wire, compact);
        let ghost w3 = wire.bytes();
        put(&self.protocol_type, wire, compact);
        let ghost w4 = wire.bytes();
        put(&self.protocol_name, wire, compact);
        let ghost w5 = wire.bytes();
        put(&self.leader, wire, compact);
        let ghost w6 = wire.bytes();
        put(&self.member_id, wire, compact);
        let ghost w7 = wire.bytes();
        put(&self.members, wire, compact);
        let ghost w8 = wire.bytes();
        put_versioned(&self.tags, 6, None, wire, compact);
        let ghost w9 = wire.bytes();
        proof {
            lemma_concat_assoc(w7, <Vec<Members> as Wired>::encoding(self.members.model(), v, compact), <Versioned<TagBuffer, 6> as Wired>::encoding(opt_model(self.tags), v, compact));
            lemma_concat_assoc(w6, <String as Wired>::encoding(self.member_id.model(), v, compact), <(Vec<Members>, Versioned<TagBuffer, 6>) as Wired>::encoding((self.members.model(), opt_model(self.tags)), v, compact));
            lemma_concat_assoc(w5, <String as Wired>::encoding(self.leader.model(), v, compact), <(String, (Vec<Members>, Versioned<TagBuffer, 6>)) as Wired>::encoding((self.member_id.model(), (self.members.model(), opt_model(self.tags))), v, compact));
            lemma_concat_assoc(w4, <String as Wired>::encoding(self.protocol_name.model(), v, compact), <(String, (String, (Vec<Members>, Versioned<TagBuffer, 6>))) as Wired>::encoding((self.leader.model(), (self.member_id.model(), (self.members.model(), opt_model(self.tags)))), v, compact));
            lemma_concat_assoc(w3, <String as Wired>::encoding(self.protocol_type.model(), v, compact), <(String, (String, (String, (Vec<Members>, Versioned<TagBuffer, 6>)))) as Wired>::encoding((self.protocol_name.model(), (self.leader.model(), (self.member_id.model(), (self.members.model(), opt_model(self.tags))))), v, compact));
            lemma_concat_assoc(w2, <i32 as Wired>::encoding(self.generation_id.model(), v, compact), <(String, (String, (String, (String, (Vec<Members>, Versioned<TagBuffer, 6>))))) as Wired>::encoding((self.protocol_type.model(), (self.protocol_name.model(), (self.leader.model(), (self.member_id.model(), (self.members.model(), opt_model(self.tags)))))), v, compact));
            lemma_concat_assoc(w1, <i16 as Wired>::encoding(self.error_code.model(), v, compact), <(i32, (String, (String, (String, (String, (Vec<Members>, Versioned<TagBuffer, 6>)))))) as Wired>::encoding((self.generation_id.model(), (self.protocol_type.model(), (self.protocol_name.model(), (self.leader.model(), (self.member_id.model(), (self.members.model(), opt_model(self.tags))))))), v, compact));
            lemma_concat_assoc(w0, gate_encoding::<i32>(opt_model(self.throttle_time_ms), 2, None::<nat>, v, compact), <(i16, (i32, (String, (String, (String, (String, (Vec<Members>, Versioned<TagBuffer, 6>))))))) as Wired>::encoding((self.error_code.model(), (self.generation_id.model(), (self.protocol_type.model(), (self.protocol_name.model(), (self.leader.model(), (self.member_id.model(), (self.members.model(), opt_model(self.tags)))))))), v, compact));
        }
    }

    fn get_fields(wire: &mut WireRead, compact: bool) -> (r: Result<Self, Error>)
        ensures
            final(wire).version == old(wire).version,
            match Self::parse(old(wire).rest(), old(wire).version as nat, compact) {
                Ok((m, n)) => (r matches Ok(x) && x.model() == m) && n <= old(wire).rest().len()
                    && final(wire).rest() == old(wire).rest().skip(n as int),
                Err(e) => r == Err::<Self, Error>(e),
            },
    {
        let (f_throttle_time_ms, (f_error_code, (f_generation_id, (f_protocol_type, (f_protocol_name, (f_leader, (f_member_id, (f_members, f_tags)))))))) = get::<ResponseLayout>(wire, compact)?;
        Ok(Response { throttle_time_ms: f_throttle_time_ms.0, error_code: f_error_code, generation_id: f_generation_id, protocol_type: f_protocol_type, protocol_name: f_protocol_name, leader: f_leader, member_id: f_member_id, members: f_members, tags: f_tags.0 })
    }
}

impl ApiRequest for Request {
    type Response = Response;

    open spec fn key() -> ApiKey {
        ApiKey::JoinGroup
    }

    open spec fn flexible_from() -> nat {
        6
    }

    fn api_key() -> (r: ApiKey) {
        ApiKey::JoinGroup
    }

    fn flexible_version() -> (r: usize) {
        6
    }
}

} // verus!
