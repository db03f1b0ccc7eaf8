//! The leave-group message of consumer groups.
use crate::compose::{get, gate_encoding, lemma_concat_assoc, opt_model, put, put_versioned, Versioned};
use crate::error::Error;
use crate::wire::{Parsed, WireRead, WireWrite, Wired};
use crate::api::{ApiKey, ApiRequest};
use crate::tagged::TagBuffer;
use vstd::prelude::*;

verus! {

/// A member leaving the group.
pub struct MemberLeave {
    pub member_id: String,
    pub group_instance_id: Option<String>,
    /// On the wire from version 4.
    pub tags: Option<TagBuffer>,
}

/// The fields of a `MemberLeave`, in wire order.
pub type MemberLeaveLayout = (String, (Option<String>, Versioned<TagBuffer, 4>));

impl Wired for MemberLeave {
    type Model = <MemberLeaveLayout as Wired>::Model;

    open spec fn model(&self) -> Self::Model {
        (self.member_id.model(), (self.group_instance_id.model(), opt_model(self.tags)))
    }

    open spec fn writable(m: Self::Model, version: nat, compact: bool) -> bool {
        <MemberLeaveLayout as Wired>::writable(m, version, compact)
    }

    open spec fn canonical(m: Self::Model, version: nat, compact: bool) -> bool {
        <MemberLeaveLayout as Wired>::canonical(m, version, compact)
    }

    open spec fn encoding(m: Self::Model, version: nat, compact: bool) -> Seq<u8> {
        <MemberLeaveLayout as Wired>::encoding(m, version, compact)
    }

    open spec fn parse(data: Seq<u8>, version: nat, compact: bool) -> Parsed<Self::Model> {
        <MemberLeaveLayout as Wired>::parse(data, version, compact)
    }

    proof fn lemma_round_trip(m: Self::Model, version: nat, compact: bool, rest: Seq<u8>) {
        <MemberLeaveLayout as Wired>::lemma_round_trip(m, version, compact, rest);
    }

    fn to_wire(&self, wire: &mut WireWrite) {
        self.put_fields(wire, false)
    }

    fn from_wire(wire: &mut WireRead) -> (r: Result<Self, Error>) {
        Self::get_fields(wire, false)
    }

    fn to_wire_compact(&self, wire: &mut WireWrite) {
        self.put_fields(wire, true)
    }

    fn from_wire_compact(wire: &mut WireRead) -> (r: Result<Self, Error>) {
        Self::get_fields(wire, true)
    }
}

impl MemberLeave {
    fn put_fields(&self, wire: &mut WireWrite, compact: bool)
        requires
            Self::writable(self.model(), old(wire).version as nat, compact),
            old(wire).has_room(Self::encoding(self.model(), old(wire).version as nat, compact).len()),
        ensures
            final(wire).version == old(wire).version,
            final(wire).bytes() == old(wire).bytes() + Self::encoding(
                self.model(),
                old(wire).version as nat,
                compact,
            ),
    {
        let ghost v = wire.version as nat;
        let ghost w0 = wire.bytes();
        proof {
            assert(<(String, (Option<String>, Versioned<TagBuffer, 4>)) as Wired>::encoding((self.member_id.model(), (self.group_instance_id.model(), opt_model(self.tags))), v, compact) === <String as Wired>::encoding(self.member_id.model(), v, compact) + <(Option<String>, Versioned<TagBuffer, 4>) as Wired>::encoding((self.group_instance_id.model(), opt_model(self.tags)), v, compact));
            assert(<(Option<String>, Versioned<TagBuffer, 4>) as Wired>::encoding((self.group_instance_id.model(), opt_model(self.tags)), v, compact) === <Option<String> as Wired>::encoding(self.group_instance_id.model(), v, compact) + <Versioned<TagBuffer, 4> as Wired>::encoding(opt_model(self.tags), v, compact));
        }
        put(&self.member_id, wire, compact);
        let ghost w1 = wire.bytes();
        put(&self.group_instance_id, wire, compact);
        let ghost w2 = wire.bytes();
        put_versioned(&self.tags, 4, None, wire, compact);
        let ghost w3 = wire.bytes();
        proof {
            lemma_concat_assoc(w1, <Option<String> as Wired>::encoding(self.group_instance_id.model(), v, compact), <Versioned<TagBuffer, 4> as Wired>::encoding(opt_model(self.tags), v, compact));
            lemma_concat_assoc(w0, <String as Wired>::encoding(self.member_id.model(), v, compact), <(Option<String>, Versioned<TagBuffer, 4>) as Wired>::encoding((self.group_instance_id.model(), opt_model(self.tags)), v, compact));
        }
    }

    fn get_fields(wire: &mut WireRead, compact: bool) -> (r: Result<Self, Error>)
        ensures
            final(wire).version == old(wire).version,
            match Self::parse(old(wire).rest(), old(wire).version as nat, compact) {
                Ok((m, n)) => (r matches Ok(x) && x.model() == m) && n <= old(wire).rest().len()
                    && final(wire).rest() == old(wire).rest().skip(n as int),
                Err(e) => r == Err::<Self, Error>(e),
            },
    {
        let (f_member_id, (f_group_instance_id, f_tags)) = get::<MemberLeaveLayout>(wire, compact)?;
        Ok(MemberLeave { member_id: f_member_id, group_instance_id: f_group_instance_id, tags: f_tags.0 })
    }
}

/// The leave-group request.
pub struct Request {
    pub group_id: String,
    /// On the wire from version 2.
    pub member_id: Option<String>,
    /// On the wire from version 3.
    pub members: Option<Vec<MemberLeave>>,
    /// On the wire from version 4.
    pub tags: Option<TagBuffer>,
}

/// The fields of a `Request`, in wire order.
pub type RequestLayout = (String, (Versioned<String, 2>, (Versioned<Vec<MemberLeave>, 3>, Versioned<TagBuffer, 4>)));

impl Wired for Request {
    type Model = <RequestLayout as Wired>::Model;

    open spec fn model(&self) -> Self::Model {
        (self.group_id.model(), (opt_model(self.member_id), (opt_model(self.members), opt_model(self.tags))))
    }

    open spec fn writable(m: Self::Model, version: nat, compact: bool) -> bool {
        <RequestLayout as Wired>::writable(m, version, compact)
    }

    open spec fn canonical(m: Self::Model, version: nat, compact: bool) -> bool {
        <RequestLayout as Wired>::canonical(m, version, compact)
    }

    open spec fn encoding(m: Self::Model, version: nat, compact: bool) -> Seq<u8> {
        <RequestLayout as Wired>::encoding(m, version, compact)
    }

    open spec fn parse(data: Seq<u8>, version: nat, compact: bool) -> Parsed<Self::Model> {
        <RequestLayout as Wired>::parse(data, version, compact)
    }

    proof fn lemma_round_trip(m: Self::Model, version: nat, compact: bool, rest: Seq<u8>) {
        <RequestLayout as Wired>::lemma_round_trip(m, version, compact, rest);
    }

    fn to_wire(&self, wire: &mut WireWrite) {
        self.put_fields(wire, false)
    }

    fn from_wire(wire: &mut WireRead) -> (r: Result<Self, Error>) {
        Self::get_fields(wire, false)
    }

    fn to_wire_compact(&self, wire: &mut WireWrite) {
        self.put_fields(wire, true)
    }

    fn from_wire_compact(wire: &mut WireRead) -> (r: Result<Self, Error>) {
        Self::get_fields(wire, true)
    }
}

impl Request {
    fn put_fields(&self, wire: &mut WireWrite, compact: bool)
        requires
            Self::writable(self.model(), old(wire).version as nat, compact),
            old(wire).has_room(Self::encoding(self.model(), old(wire).version as nat, compact).len()),
        ensures
            final(wire).version == old(wire).version,
            final(wire).bytes() == old(wire).bytes() + Self::encoding(
                self.model(),
                old(wire).version as nat,
                compact,
            ),
    {
        let ghost v = wire.version as nat;
        let ghost w0 = wire.bytes();
        proof {
            assert(<(String, (Versioned<String, 2>, (Versioned<Vec<MemberLeave>, 3>, Versioned<TagBuffer, 4>))) as Wired>::encoding((self.group_id.model(), (opt_model(self.member_id), (opt_model(self.members), opt_model(self.tags)))), v, compact) === <String as Wired>::encoding(self.group_id.model(), v, compact) + <(Versioned<String, 2>, (Versioned<Vec<MemberLeave>, 3>, Versioned<TagBuffer, 4>)) as Wired>::encoding((opt_model(self.member_id), (opt_model(self.members), opt_model(self.tags))), v, compact));
            assert(<(Versioned<String, 2>, (Versioned<Vec<MemberLeave>, 3>, Versioned<TagBuffer, 4>)) as Wired>::encoding((opt_model(self.member_id), (opt_model(self.members), opt_model(self.tags))), v, compact) === gate_encoding::<String>(opt_model(self.member_id), 2, None::<nat>, v, compact) + <(Versioned<Vec<MemberLeave>, 3>, Versioned<TagBuffer, 4>) as Wired>::encoding((opt_model(self.members), opt_model(self.tags)), v, compact));
            assert(<(Versioned<Vec<MemberLeave>, 3>, Versioned<TagBuffer, 4>) as Wired>::encoding((opt_model(self.members), opt_model(self.tags)), v, compact) === gate_encoding::<Vec<MemberLeave>>(opt_model(self.members), 3, None::<nat>, v, compact) + <Versioned<TagBuffer, 4> as Wired>::encoding(opt_model(self.tags), v, compact));
        }
        put(&self.group_id, wire, compact);
        let ghost w1 = wire.bytes();
        put_versioned(&self.member_id, 2, None, wire, compact);
        let ghost w2 = wire.bytes();
        put_versioned(&self.members, 3, None, wire, compact);
        let ghost w3 = wire.bytes();
        put_versioned(&self.tags, 4, None, wire, compact);
        let ghost w4 = wire.bytes();
        proof {
            lemma_concat_assoc(w2, gate_encoding::<Vec<MemberLeave>>(opt_model(self.members), 3, None::<nat>, v, compact), <Versioned<TagBuffer, 4> as Wired>::encoding(opt_model(self.tags), v, compact));
            lemma_concat_assoc(w1, gate_encoding::<String>(opt_model(self.member_id), 2, None::<nat>, v, compact), <(Versioned<Vec<MemberLeave>, 3>, Versioned<TagBuffer, 4>) as Wired>::encoding((opt_model(self.members), opt_model(self.tags)), v, compact));
            lemma_concat_assoc(w0, <String as Wired>::encoding(self.group_id.model(), v, compact), <(Versioned<String, 2>, (Versioned<Vec<MemberLeave>, 3>, Versioned<TagBuffer, 4>)) as Wired>::encoding((opt_model(self.member_id), (opt_model(self.members), opt_model(self.tags))), v, compact));
        }
    }

    fn get_fields(wire: &mut WireRead, compact: bool) -> (r: Result<Self, Error>)
        ensures
            final(wire).version == old(wire).version,
            match Self::parse(old(wire).rest(), old(wire).version as nat, compact) {
                Ok((m, n)) => (r matches Ok(x) && x.model() == m) && n <= old(wire).rest().len()
                    && final(wire).rest() == old(wire).rest().skip(n as int),
                Err(e) => r == Err::<Self, Error>(e),
            },
    {
        let (f_group_id, (f_member_id, (f_members, f_tags))) = get::<RequestLayout>(wire, compact)?;
        Ok(Request { group_id: f_group_id, member_id: f_member_id.0, members: f_members.0, tags: f_tags.0 })
    }
}

/// The outcome for one leaving member.
pub struct MemberLeaveResp {
    pub data: MemberLeave,
    pub error_code: i16,
    /// On the wire from version 4.
    pub tags: Option<TagBuffer>,
}

/// The fields of a `MemberLeaveResp`, in wire order.
pub type MemberLeaveRespLayout = (MemberLeave, (i16, Versioned<TagBuffer, 4>));

impl Wired for MemberLeaveResp {
    type Model = <MemberLeaveRespLayout as Wired>::Model;

    open spec fn model(&self) -> Self::Model {
        (self.data.model(), (self.error_code.model(), opt_model(self.tags)))
    }

    open spec fn writable(m: Self::Model, version: nat, compact: bool) -> bool {
        <MemberLeaveRespLayout as Wired>::writable(m, version, compact)
    }

    open spec fn canonical(m: Self::Model, version: nat, compact: bool) -> bool {
        <MemberLeaveRespLayout as Wired>::canonical(m, version, compact)
    }

    open spec fn encoding(m: Self::Model, version: nat, compact: bool) -> Seq<u8> {
        <MemberLeaveRespLayout as Wired>::encoding(m, version, compact)
    }

    open spec fn parse(data: Seq<u8>, version: nat, compact: bool) -> Parsed<Self::Model> {
        <MemberLeaveRespLayout as Wired>::parse(data, version, compact)
    }

    proof fn lemma_round_trip(m: Self::Model, version: nat, compact: bool, rest: Seq<u8>) {
        <MemberLeaveRespLayout as Wired>::lemma_round_trip(m, version, compact, rest);
    }

    fn to_wire(&self, wire: &mut WireWrite) {
        self.put_fields(wire, false)
    }

    fn from_wire(wire: &mut WireRead) -> (r: Result<Self, Error>) {
        Self::get_fields(wire, false)
    }

    fn to_wire_compact(&self, wire: &mut WireWrite) {
        self.put_fields(wire, true)
    }

    fn from_wire_compact(wire: &mut WireRead) -> (r: Result<Self, Error>) {
        Self::get_fields(wire, true)
    }
}

impl MemberLeaveResp {
    fn put_fields(&self, wire: &mut WireWrite, compact: bool)
        requires
            Self::writable(self.model(), old(wire).version as nat, compact),
            old(wire).has_room(Self::encoding(self.model(), old(wire).version as nat, compact).len()),
        ensures
            final(wire).version == old(wire).version,
            final(wire).bytes() == old(wire).bytes() + Self::encoding(
                self.model(),
                old(wire).version as nat,
                compact,
            ),
    {
        let ghost v = wire.version as nat;
        let ghost w0 = wire.bytes();
        proof {
            assert(<(MemberLeave, (i16, Versioned<TagBuffer, 4>)) as Wired>::encoding((self.data.model(), (self.error_code.model(), opt_model(self.tags))), v, compact) === <MemberLeave as Wired>::encoding(self.data.model(), v, compact) + <(i16, Versioned<TagBuffer, 4>) as Wired>::encoding((self.error_code.model(), opt_model(self.tags)), v, compact));
            assert(<(i16, Versioned<TagBuffer, 4>) as Wired>::encoding((self.error_code.model(), opt_model(self.tags)), v, compact) === <i16 as Wired>::encoding(self.error_code.model(), v, compact) + <Versioned<TagBuffer, 4> as Wired>::encoding(opt_model(self.tags), v, compact));
        }
        put(&self.data, wire, compact);
        let ghost w1 = wire.bytes();
        put(&self.error_code, wire, compact);
        let ghost w2 = wire.bytes();
        put_versioned(&self.tags, 4, None, wire, compact);
        let ghost w3 = wire.bytes();
        proof {
            lemma_concat_assoc(w1, <i16 as Wired>::encoding(self.error_code.model(), v, compact), <Versioned<TagBuffer, 4> as Wired>::encoding(opt_model(self.tags), v, compact));
            lemma_concat_assoc(w0, <MemberLeave as Wired>::encoding(self.data.model(), v, compact), <(i16, Versioned<TagBuffer, 4>) as Wired>::encoding((self.error_code.model(), opt_model(self.tags)), v, compact));
        }
    }

    fn get_fields(wire: &mut WireRead, compact: bool) -> (r: Result<Self, Error>)
        ensures
            final(wire).version == old(wire).version,
            match Self::parse(old(wire).rest(), old(wire).version as nat, compact) {
                Ok((m, n)) => (r matches Ok(x) && x.model() == m) && n <= old(wire).rest().len()
                    && final(wire).rest() == old(wire).rest().skip(n as int),
                Err(e) => r == Err::<Self, Error>(e),
            },
    {
        let (f_data, (f_error_code, f_tags)) = get::<MemberLeaveRespLayout>(wire, compact)?;
        Ok(MemberLeaveResp { data: f_data, error_code: f_error_code, tags: f_tags.0 })
    }
}

/// The leave-group response.
pub struct Response {
    /// On the wire from version 1.
    pub throttle_time_ms: Option<i32>,
    pub error_code: i16,
    pub members: Vec<MemberLeaveResp>,
    /// On the wire from version 4.
    pub tags: Option<TagBuffer>,
}

/// The fields of a `Response`, in wire order.
pub type ResponseLayout = (Versioned<i32, 1>, (i16, (Vec<MemberLeaveResp>, Versioned<TagBuffer, 4>)));

impl Wired for Response {
    type Model = <ResponseLayout as Wired>::Model;

    open spec fn model(&self) -> Self::Model {
        (opt_model(self.throttle_time_ms), (self.error_code.model(), (self.members.model(), opt_model(self.tags))))
    }

    open spec fn writable(m: Self::Model, version: nat, compact: bool) -> bool {
        <ResponseLayout as Wired>::writable(m, version, compact)
    }

    open spec fn canonical(m: Self::Model, version: nat, compact: bool) -> bool {
        <ResponseLayout as Wired>::canonical(m, version, compact)
    }

    open spec fn encoding(m: Self::Model, version: nat, compact: bool) -> Seq<u8> {
        <ResponseLayout as Wired>::encoding(m, version, compact)
    }

    open spec fn parse(data: Seq<u8>, version: nat, compact: bool) -> Parsed<Self::Model> {
        <ResponseLayout as Wired>::parse(data, version, compact)
    }

    proof fn lemma_round_trip(m: Self::Model, version: nat, compact: bool, rest: Seq<u8>) {
        <ResponseLayout as Wired>::lemma_round_trip(m, version, compact, rest);
    }

    fn to_wire(&self, wire: &mut WireWrite) {
        self.put_fields(wire, false)
    }

    fn from_wire(wire: &mut WireRead) -> (r: Result<Self, Error>) {
        Self::get_fields(wire, false)
    }

    fn to_wire_compact(&self, wire: &mut WireWrite) {
        self.put_fields(wire, true)
    }

    fn from_wire_compact(wire: &mut WireRead) -> (r: Result<Self, Error>) {
        Self::get_fields(wire, true)
    }
}

impl Response {
    fn put_fields(&self, wire: &mut WireWrite, compact: bool)
        requires
            Self::writable(self.model(), old(wire).version as nat, compact),
            old(wire).has_room(Self::encoding(self.model(), old(wire).version as nat, compact).len()),
        ensures
            final(wire).version == old(wire).version,
            final(wire).bytes() == old(wire).bytes() + Self::encoding(
                self.model(),
                old(wire).version as nat,
                compact,
            ),
    {
        let ghost v = wire.version as nat;
        let ghost w0 = wire.bytes();
        proof {
            assert(<(Versioned<i32, 1>, (i16, (Vec<MemberLeaveResp>, Versioned<TagBuffer, 4>))) as Wired>::encoding((opt_model(self.throttle_time_ms), (self.error_code.model(), (self.members.model(), opt_model(self.tags)))), v, compact) === gate_encoding::<i32>(opt_model(self.throttle_time_ms), 1, None::<nat>, v, compact) + <(i16, (Vec<MemberLeaveResp>, Versioned<TagBuffer, 4>)) as Wired>::encoding((self.error_code.model(), (self.members.model(), opt_model(self.tags))), v, compact));
            assert(<(i16, (Vec<MemberLeaveResp>, Versioned<TagBuffer, 4>)) as Wired>::encoding((self.error_code.model(), (self.members.model(), opt_model(self.tags))), v, compact) === <i16 as Wired>::encoding(self.error_code.model(), v, compact) + <(Vec<MemberLeaveResp>, Versioned<TagBuffer, 4>) as Wired>::encoding((self.members.model(), opt_model(self.tags)), v, compact));
            assert(<(Vec<MemberLeaveResp>, Versioned<TagBuffer, 4>) as Wired>::encoding((self.members.model(), opt_model(self.tags)), v, compact) === <Vec<MemberLeaveResp> as Wired>::encoding(self.members.model(), v, compact) + <Versioned<TagBuffer, 4> as Wired>::encoding(opt_model(self.tags), v, compact));
        }
        put_versioned(&self.throttle_time_ms, 1, None, wire, compact);
        let ghost w1 = wire.bytes();
        put(&self.error_code, wire, compact);
        let ghost w2 = wire.bytes();
        put(&self.members, wire, compact);
        let ghost w3 = wire.bytes();
        put_versioned(&self.tags, 4, None, wire, compact);
        let ghost w4 = wire.bytes();
        proof {
            lemma_concat_assoc(w2, <Vec<MemberLeaveResp> as Wired>::encoding(self.members.model(), v, compact), <Versioned<TagBuffer, 4> as Wired>::encoding(opt_model(self.tags), v, compact));
            lemma_concat_assoc(w1, <i16 as Wired>::encoding(self.error_code.model(), v, compact), <(Vec<MemberLeaveResp>, Versioned<TagBuffer, 4>) as Wired>::encoding((self.members.model(), opt_model(self.tags)), v, compact));
            lemma_concat_assoc(w0, gate_encoding::<i32>(opt_model(self.throttle_time_ms), 1, None::<nat>, v, compact), <(i16, (Vec<MemberLeaveResp>, Versioned<TagBuffer, 4>)) as Wired>::encoding((self.error_code.model(), (self.members.model(), opt_model(self.tags))), v, compact));
        }
    }

    fn get_fields(wire: &mut WireRead, compact: bool) -> (r: Result<Self, Error>)
        ensures
            final(wire).version == old(wire).version,
            match Self::parse(old(wire).rest(), old(wire).version as nat, compact) {
                Ok((m, n)) => (r matches Ok(x) && x.model() == m) && n <= old(wire).rest().len()
                    && final(wire).rest() == old(wire).rest().skip(n as int),
                Err(e) => r == Err::<Self, Error>(e),
            },
    {
        let (f_throttle_time_ms, (f_error_code, (f_members, f_tags))) = get::<ResponseLayout>(wire, compact)?;
        Ok(Response { throttle_time_ms: f_throttle_time_ms.0, error_code: f_error_code, members: f_members, tags: f_tags.0 })
    }
}

impl ApiRequest for Request {
    type Response = Response;

    open spec fn key() -> ApiKey {
        ApiKey::LeaveGroup
    }

    open spec fn flexible_from() -> nat {
        4
    }

    fn api_key() -> (r: ApiKey) {
        ApiKey::LeaveGroup
    }

    fn flexible_version() -> (r: usize) {
        4
    }
}

} // verus!
