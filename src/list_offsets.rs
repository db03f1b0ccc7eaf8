//! The list-offsets message: offsets of partitions at given timestamps.
use crate::compose::{get, gate_encoding, lemma_concat_assoc, opt_model, put, put_versioned, Versioned};
use crate::error::Error;
use crate::wire::{Parsed, WireRead, WireWrite, Wired};
use crate::api::{ApiKey, ApiRequest, IsolationLevel};
use crate::topics::{TopicItem, TopicMap};
use crate::compose::{all_writable, items_model};
use crate::text::max_length;
use vstd::utf8::encode_utf8;
use vstd::prelude::*;

verus! {

/// A partition and the timestamp asked about.
pub struct ListOffsetsParts {
    pub partition: i32,
    /// On the wire from version 4.
    pub current_leader_epoch: Option<i32>,
    pub timestamp: i64,
}

/// The fields of a `ListOffsetsParts`, in wire order.
pub type ListOffsetsPartsLayout = (i32, (Versioned<i32, 4>, i64));

impl Wired for ListOffsetsParts {
    type Model = <ListOffsetsPartsLayout as Wired>::Model;

    open spec fn model(&self) -> Self::Model {
        (self.partition.model(), (opt_model(self.current_leader_epoch), self.timestamp.model()))
    }

    open spec fn writable(m: Self::Model, version: nat, compact: bool) -> bool {
        <ListOffsetsPartsLayout as Wired>::writable(m, version, compact)
    }

    open spec fn canonical(m: Self::Model, version: nat, compact: bool) -> bool {
        <ListOffsetsPartsLayout as Wired>::canonical(m, version, compact)
    }

    open spec fn encoding(m: Self::Model, version: nat, compact: bool) -> Seq<u8> {
        <ListOffsetsPartsLayout as Wired>::encoding(m, version, compact)
    }

    open spec fn parse(data: Seq<u8>, version: nat, compact: bool) -> Parsed<Self::Model> {
        <ListOffsetsPartsLayout as Wired>::parse(data, version, compact)
    }

    proof fn lemma_round_trip(m: Self::Model, version: nat, compact: bool, rest: Seq<u8>) {
        <ListOffsetsPartsLayout as Wired>::lemma_round_trip(m, version, compact, rest);
    }

    fn to_wire(&self, wire: &mut WireWrite) {
        self.put_fields(wire, false)
    }

    fn from_wire(wire: &mut WireRead) -> (r: Result<Self, Error>) {
        Self::get_fields(wire, false)
    }

    fn to_wire_compact(&self, wire: &mut WireWrite) {
        self.put_fields(wire, true)
    }

    fn from_wire_compact(wire: &mut WireRead) -> (r: Result<Self, Error>) {
        Self::get_fields(wire, true)
    }
}

impl ListOffsetsParts {
    fn put_fields(&self, wire: &mut WireWrite, compact: bool)
        requires
            Self::writable(self.model(), old(wire).version as nat, compact),
            old(wire).has_room(Self::encoding(self.model(), old(wire).version as nat, compact).len()),
        ensures
            final(wire).version == old(wire).version,
            final(wire).bytes() == old(wire).bytes() + Self::encoding(
                self.model(),
                old(wire).version as nat,
                compact,
            ),
    {
        let ghost v = wire.version as nat;
        let ghost w0 = wire.bytes();
        proof {
            assert(<(i32, (Versioned<i32, 4>, i64)) as Wired>::encoding((self.partition.model(), (opt_model(self.current_leader_epoch), self.timestamp.model())), v, compact) === <i32 as Wired>::encoding(self.partition.model(), v, compact) + <(Versioned<i32, 4>, i64) as Wired>::encoding((opt_model(self.current_leader_epoch), self.timestamp.model()), v, compact));
            assert(<(Versioned<i32, 4>, i64) as Wired>::encoding((opt_model(self.current_leader_epoch), self.timestamp.model()), v, compact) === gate_encoding::<i32>(opt_model(self.current_leader_epoch), 4, None::<nat>, v, compact) + <i64 as Wired>::encoding(self.timestamp.model(), v, compact));
        }
        put(&self.partition, wire, compact);
        let ghost w1 = wire.bytes();
        put_versioned(&self.current_leader_epoch, 4, None, wire, compact);
        let ghost w2 = wire.bytes();
        put(&self.timestamp, wire, compact);
        let ghost w3 = wire.bytes();
        proof {
            lemma_concat_assoc(w1, gate_encoding::<i32>(opt_model(self.current_leader_epoch), 4, None::<nat>, v, compact), <i64 as Wired>::encoding(self.timestamp.model(), v, compact));
            lemma_concat_assoc(w0, <i32 as Wired>::encoding(self.partition.model(), v, compact), <(Versioned<i32, 4>, i64) as Wired>::encoding((opt_model(self.current_leader_epoch), self.timestamp.model()), v, compact));
        }
    }

    fn get_fields(wire: &mut WireRead, compact: bool) -> (r: Result<Self, Error>)
        ensures
            final(wire).version == old(wire).version,
            match Self::parse(old(wire).rest(), old(wire).version as nat, compact) {
                Ok((m, n)) => (r matches Ok(x) && x.model() == m) && n <= old(wire).rest().len()
                    && final(wire).rest() == old(wire).rest().skip(n as int),
                Err(e) => r == Err::<Self, Error>(e),
            },
    {
        let (f_partition, (f_current_leader_epoch, f_timestamp)) = get::<ListOffsetsPartsLayout>(wire, compact)?;
        Ok(ListOffsetsParts { partition: f_partition, current_leader_epoch: f_current_leader_epoch.0, timestamp: f_timestamp })
    }
}

/// The list-offsets request.
pub struct ListOffsetsRequest {
    pub replica_id: i32,
    /// On the wire from version 2.
    pub isolation_level: Option<IsolationLevel>,
    pub topics: TopicMap<ListOffsetsParts>,
}

/// The fields of a `ListOffsetsRequest`, in wire order.
pub type ListOffsetsRequestLayout = (i32, (Versioned<IsolationLevel, 2>, TopicMap<ListOffsetsParts>));

impl Wired for ListOffsetsRequest {
    type Model = <ListOffsetsRequestLayout as Wired>::Model;

    open spec fn model(&self) -> Self::Model {
        (self.replica_id.model(), (opt_model(self.isolation_level), self.topics.model()))
    }

    open spec fn writable(m: Self::Model, version: nat, compact: bool) -> bool {
        <ListOffsetsRequestLayout as Wired>::writable(m, version, compact)
    }

    open spec fn canonical(m: Self::Model, version: nat, compact: bool) -> bool {
        <ListOffsetsRequestLayout as Wired>::canonical(m, version, compact)
    }

    open spec fn encoding(m: Self::Model, version: nat, compact: bool) -> Seq<u8> {
        <ListOffsetsRequestLayout as Wired>::encoding(m, version, compact)
    }

    open spec fn parse(data: Seq<u8>, version: nat, compact: bool) -> Parsed<Self::Model> {
        <ListOffsetsRequestLayout as Wired>::parse(data, version, compact)
    }

    proof fn lemma_round_trip(m: Self::Model, version: nat, compact: bool, rest: Seq<u8>) {
        <ListOffsetsRequestLayout as Wired>::lemma_round_trip(m, version, compact, rest);
    }

    fn to_wire(&self, wire: &mut WireWrite) {
        self.put_fields(wire, false)
    }

    fn from_wire(wire: &mut WireRead) -> (r: Result<Self, Error>) {
        Self::get_fields(wire, false)
    }

    fn to_wire_compact(&self, wire: &mut WireWrite) {
        self.put_fields(wire, true)
    }

    fn from_wire_compact(wire: &mut WireRead) -> (r: Result<Self, Error>) {
        Self::get_fields(wire, true)
    }
}

impl ListOffsetsRequest {
    fn put_fields(&self, wire: &mut WireWrite, compact: bool)
        requires
            Self::writable(self.model(), old(wire).version as nat, compact),
            old(wire).has_room(Self::encoding(self.model(), old(wire).version as nat, compact).len()),
        ensures
            final(wire).version == old(wire).version,
            final(wire).bytes() == old(wire).bytes() + Self::encoding(
                self.model(),
                old(wire).version as nat,
                compact,
            ),
    {
        let ghost v = wire.version as nat;
        let ghost w0 = wire.bytes();
        proof {
            assert(<(i32, (Versioned<IsolationLevel, 2>, TopicMap<ListOffsetsParts>)) as Wired>::encoding((self.replica_id.model(), (opt_model(self.isolation_level), self.topics.model())), v, compact) === <i32 as Wired>::encoding(self.replica_id.model(), v, compact) + <(Versioned<IsolationLevel, 2>, TopicMap<ListOffsetsParts>) as Wired>::encoding((opt_model(self.isolation_level), self.topics.model()), v, compact));
            assert(<(Versioned<IsolationLevel, 2>, TopicMap<ListOffsetsParts>) as Wired>::encoding((opt_model(self.isolation_level), self.topics.model()), v, compact) === gate_encoding::<IsolationLevel>(opt_model(self.isolation_level), 2, None::<nat>, v, compact) + <TopicMap<ListOffsetsParts> as Wired>::encoding(self.topics.model(), v, compact));
        }
        put(&self.replica_id, wire, compact);
        let ghost w1 = wire.bytes();
        put_versioned(&self.isolation_level, 2, None, wire, compact);
        let ghost w2 = wire.bytes();
        put(&self.topics, wire, compact);
        let ghost w3 = wire.bytes();
        proof {
            lemma_concat_assoc(w1, gate_encoding::<IsolationLevel>(opt_model(self.isolation_level), 2, None::<nat>, v, compact), <TopicMap<ListOffsetsParts> as Wired>::encoding(self.topics.model(), v, compact));
            lemma_concat_assoc(w0, <i32 as Wired>::encoding(self.replica_id.model(), v, compact), <(Versioned<IsolationLevel, 2>, TopicMap<ListOffsetsParts>) as Wired>::encoding((opt_model(self.isolation_level), self.topics.model()), v, compact));
        }
    }

    fn get_fields(wire: &mut WireRead, compact: bool) -> (r: Result<Self, Error>)
        ensures
            final(wire).version == old(wire).version,
            match Self::parse(old(wire).rest(), old(wire).version as nat, compact) {
                Ok((m, n)) => (r matches Ok(x) && x.model() == m) && n <= old(wire).rest().len()
                    && final(wire).rest() == old(wire).rest().skip(n as int),
                Err(e) => r == Err::<Self, Error>(e),
            },
    {
        let (f_replica_id, (f_isolation_level, f_topics)) = get::<ListOffsetsRequestLayout>(wire, compact)?;
        Ok(ListOffsetsRequest { replica_id: f_replica_id, isolation_level: f_isolation_level.0, topics: f_topics })
    }
}

/// The offset found for one partition.
pub struct ListOffsetsResponseParts {
    pub partition: i32,
    pub error_code: i16,
    /// On the wire from version 1.
    pub timestamp: Option<i64>,
    pub offset: i64,
    /// On the wire from version 4.
    pub leader_epoch: Option<i32>,
}

/// The fields of a `ListOffsetsResponseParts`, in wire order.
pub type ListOffsetsResponsePartsLayout = (i32, (i16, (Versioned<i64, 1>, (i64, Versioned<i32, 4>))));

impl Wired for ListOffsetsResponseParts {
    type Model = <ListOffsetsResponsePartsLayout as Wired>::Model;

    open spec fn model(&self) -> Self::Model {
        (self.partition.model(), (self.error_code.model(), (opt_model(self.timestamp), (self.offset.model(), opt_model(self.leader_epoch)))))
    }

    open spec fn writable(m: Self::Model, version: nat, compact: bool) -> bool {
        <ListOffsetsResponsePartsLayout as Wired>::writable(m, version, compact)
    }

    open spec fn canonical(m: Self::Model, version: nat, compact: bool) -> bool {
        <ListOffsetsResponsePartsLayout as Wired>::canonical(m, version, compact)
    }

    open spec fn encoding(m: Self::Model, version: nat, compact: bool) -> Seq<u8> {
        <ListOffsetsResponsePartsLayout as Wired>::encoding(m, version, compact)
    }

    open spec fn parse(data: Seq<u8>, version: nat, compact: bool) -> Parsed<Self::Model> {
        <ListOffsetsResponsePartsLayout as Wired>::parse(data, version, compact)
    }

    proof fn lemma_round_trip(m: Self::Model, version: nat, compact: bool, rest: Seq<u8>) {
        <ListOffsetsResponsePartsLayout as Wired>::lemma_round_trip(m, version, compact, rest);
    }

    fn to_wire(&self, wire: &mut WireWrite) {
        self.put_fields(wire, false)
    }

    fn from_wire(wire: &mut WireRead) -> (r: Result<Self, Error>) {
        Self::get_fields(wire, false)
    }

    fn to_wire_compact(&self, wire: &mut WireWrite) {
        self.put_fields(wire, true)
    }

    fn from_wire_compact(wire: &mut WireRead) -> (r: Result<Self, Error>) {
        Self::get_fields(wire, true)
    }
}

impl ListOffsetsResponseParts {
    fn put_fields(&self, wire: &mut WireWrite, compact: bool)
        requires
            Self::writable(self.model(), old(wire).version as nat, compact),
            old(wire).has_room(Self::encoding(self.model(), old(wire).version as nat, compact).len()),
        ensures
            final(wire).version == old(wire).version,
            final(wire).bytes() == old(wire).bytes() + Self::encoding(
                self.model(),
                old(wire).version as nat,
                compact,
            ),
    {
        let ghost v = wire.version as nat;
        let ghost w0 = wire.bytes();
        proof {
            assert(<(i32, (i16, (Versioned<i64, 1>, (i64, Versioned<i32, 4>)))) as Wired>::encoding((self.partition.model(), (self.error_code.model(), (opt_model(self.timestamp), (self.offset.model(), opt_model(self.leader_epoch))))), v, compact) === <i32 as Wired>::encoding(self.partition.model(), v, compact) + <(i16, (Versioned<i64, 1>, (i64, Versioned<i32, 4>))) as Wired>::encoding((self.error_code.model(), (opt_model(self.timestamp), (self.offset.model(), opt_model(self.leader_epoch)))), v, compact));
            assert(<(i16, (Versioned<i64, 1>, (i64, Versioned<i32, 4>))) as Wired>::encoding((self.error_code.model(), (opt_model(self.timestamp), (self.offset.model(), opt_model(self.leader_epoch)))), v, compact) === <i16 as Wired>::encoding(self.error_code.model(), v, compact) + <(Versioned<i64, 1>, (i64, Versioned<i32, 4>)) as Wired>::encoding((opt_model(self.timestamp), (self.offset.model(), opt_model(self.leader_epoch))), v, compact));
            assert(<(Versioned<i64, 1>, (i64, Versioned<i32, 4>)) as Wired>::encoding((opt_model(self.timestamp), (self.offset.model(), opt_model(self.leader_epoch))), v, compact) === gate_encoding::<i64>(opt_model(self.timestamp), 1, None::<nat>, v, compact) + <(i64, Versioned<i32, 4>) as Wired>::encoding((self.offset.model(), opt_model(self.leader_epoch)), v, compact));
            assert(<(i64, Versioned<i32, 4>) as Wired>::encoding((self.offset.model(), opt_model(self.leader_epoch)), v, compact) === <i64 as Wired>::encoding(self.offset.model(), v, compact) + <Versioned<i32, 4> as Wired>::encoding(opt_model(self.leader_epoch), v, compact));
        }
        put(&self.partition, wire, compact);
        let ghost w1 = wire.bytes();
        put(&self.error_code, wire, compact);
        let ghost w2 = wire.bytes();
        put_versioned(&self.timestamp, 1, None, wire, compact);
        let ghost w3 = wire.bytes();
        put(&self.offset, wire, compact);
        let ghost w4 = wire.bytes();
        put_versioned(&self.leader_epoch, 4, None, wire, compact);
        let ghost w5 = wire.bytes();
        proof {
            lemma_concat_assoc(w3, <i64 as Wired>::encoding(self.offset.model(), v, compact), <Versioned<i32, 4> as Wired>::encoding(opt_model(self.leader_epoch), v, compact));
            lemma_concat_assoc(w2, gate_encoding::<i64>(opt_model(self.timestamp), 1, None::<nat>, v, compact), <(i64, Versioned<i32, 4>) as Wired>::encoding((self.offset.model(), opt_model(self.leader_epoch)), v, compact));
            lemma_concat_assoc(w1, <i16 as Wired>::encoding(self.error_code.model(), v, compact), <(Versioned<i64, 1>, (i64, Versioned<i32, 4>)) as Wired>::encoding((opt_model(self.timestamp), (self.offset.model(), opt_model(self.leader_epoch))), v, compact));
            lemma_concat_assoc(w0, <i32 as Wired>::encoding(self.partition.model(), v, compact), <(i16, (Versioned<i64, 1>, (i64, Versioned<i32, 4>))) as Wired>::encoding((self.error_code.model(), (opt_model(self.timestamp), (self.offset.model(), opt_model(self.leader_epoch)))), v, compact));
        }
    }

    fn get_fields(wire: &mut WireRead, compact: bool) -> (r: Result<Self, Error>)
        ensures
            final(wire).version == old(wire).version,
            match Self::parse(old(wire).rest(), old(wire).version as nat, compact) {
                Ok((m, n)) => (r matches Ok(x) && x.model() == m) && n <= old(wire).rest().len()
                    && final(wire).rest() == old(wire).rest().skip(n as int),
                Err(e) => r == Err::<Self, Error>(e),
            },
    {
        let (f_partition, (f_error_code, (f_timestamp, (f_offset, f_leader_epoch)))) = get::<ListOffsetsResponsePartsLayout>(wire, compact)?;
        Ok(ListOffsetsResponseParts { partition: f_partition, error_code: f_error_code, timestamp: f_timestamp.0, offset: f_offset, leader_epoch: f_leader_epoch.0 })
    }
}

/// The list-offsets response.
pub struct Response {
    /// On the wire from version 2.
    pub throttle_time_ms: Option<i32>,
    pub res: TopicMap<ListOffsetsResponseParts>,
}

/// The fields of a `Response`, in wire order.
pub type ResponseLayout = (Versioned<i32, 2>, TopicMap<ListOffsetsResponseParts>);

impl Wired for Response {
    type Model = <ResponseLayout as Wired>::Model;

    open spec fn model(&self) -> Self::Model {
        (opt_model(self.throttle_time_ms), self.res.model())
    }

    open spec fn writable(m: Self::Model, version: nat, compact: bool) -> bool {
        <ResponseLayout as Wired>::writable(m, version, compact)
    }

    open spec fn canonical(m: Self::Model, version: nat, compact: bool) -> bool {
        <ResponseLayout as Wired>::canonical(m, version, compact)
    }

    open spec fn encoding(m: Self::Model, version: nat, compact: bool) -> Seq<u8> {
        <ResponseLayout as Wired>::encoding(m, version, compact)
    }

    open spec fn parse(data: Seq<u8>, version: nat, compact: bool) -> Parsed<Self::Model> {
        <ResponseLayout as Wired>::parse(data, version, compact)
    }

    proof fn lemma_round_trip(m: Self::Model, version: nat, compact: bool, rest: Seq<u8>) {
        <ResponseLayout as Wired>::lemma_round_trip(m, version, compact, rest);
    }

    fn to_wire(&self, wire: &mut WireWrite) {
        self.put_fields(wire, false)
    }

    fn from_wire(wire: &mut WireRead) -> (r: Result<Self, Error>) {
        Self::get_fields(wire, false)
    }

    fn to_wire_compact(&self, wire: &mut WireWrite) {
        self.put_fields(wire, true)
    }

    fn from_wire_compact(wire: &mut WireRead) -> (r: Result<Self, Error>) {
        Self::get_fields(wire, true)
    }
}

impl Response {
    fn put_fields(&self, wire: &mut WireWrite, compact: bool)
        requires
            Self::writable(self.model(), old(wire).version as nat, compact),
            old(wire).has_room(Self::encoding(self.model(), old(wire).version as nat, compact).len()),
        ensures
            final(wire).version == old(wire).version,
            final(wire).bytes() == old(wire).bytes() + Self::encoding(
                self.model(),
                old(wire).version as nat,
                compact,
            ),
    {
        let ghost v = wire.version as nat;
        let ghost w0 = wire.bytes();
        proof {
            assert(<(Versioned<i32, 2>, TopicMap<ListOffsetsResponseParts>) as Wired>::encoding((opt_model(self.throttle_time_ms), self.res.model()), v, compact) === gate_encoding::<i32>(opt_model(self.throttle_time_ms), 2, None::<nat>, v, compact) + <TopicMap<ListOffsetsResponseParts> as Wired>::encoding(self.res.model(), v, compact));
        }
        put_versioned(&self.throttle_time_ms, 2, None, wire, compact);
        let ghost w1 = wire.bytes();
        put(&self.res, wire, compact);
        let ghost w2 = wire.bytes();
        proof {
            lemma_concat_assoc(w0, gate_encoding::<i32>(opt_model(self.throttle_time_ms), 2, None::<nat>, v, compact), <TopicMap<ListOffsetsResponseParts> as Wired>::encoding(self.res.model(), v, compact));
        }
    }

    fn get_fields(wire: &mut WireRead, compact: bool) -> (r: Result<Self, Error>)
        ensures
            final(wire).version == old(wire).version,
            match Self::parse(old(wire).rest(), old(wire).version as nat, compact) {
                Ok((m, n)) => (r matches Ok(x) && x.model() == m) && n <= old(wire).rest().len()
                    && final(wire).rest() == old(wire).rest().skip(n as int),
                Err(e) => r == Err::<Self, Error>(e),
            },
    {
        let (f_throttle_time_ms, f_res) = get::<ResponseLayout>(wire, compact)?;
        Ok(Response { throttle_time_ms: f_throttle_time_ms.0, res: f_res })
    }
}

impl ApiRequest for ListOffsetsRequest {
    type Response = Response;

    open spec fn key() -> ApiKey {
        ApiKey::ListOffsets
    }

    open spec fn flexible_from() -> nat {
        99
    }

    fn api_key() -> (r: ApiKey) {
        ApiKey::ListOffsets
    }

    fn flexible_version() -> (r: usize) {
        99
    }
}

/// The leader epoch asked with at `version`: unknown (`-1`) where the
/// version carries the field, absent below.
pub open spec fn unknown_epoch_at(version: nat) -> Option<i32> {
    if version >= 4 {
        Some(-1i32)
    } else {
        None
    }
}

/// Whether `v` asks, in order, for the offsets at timestamp 0 of the
/// partitions `parts`, with the leader epoch unknown.
pub open spec fn asks_for(v: Seq<ListOffsetsParts>, parts: Seq<i32>, version: nat) -> bool {
    &&& v.len() == parts.len()
    &&& forall|j: int|
        0 <= j < parts.len() ==> (#[trigger] v[j]).partition == parts[j] && v[j].timestamp == 0
            && v[j].current_leader_epoch == unknown_epoch_at(version)
}

impl ListOffsetsParts {
    /// Asks for the offset of `partition` at timestamp 0, with the leader
    /// epoch unknown (`-1`) at the versions that carry it.
    pub fn at_start(partition: i32, version: usize) -> (r: ListOffsetsParts)
        ensures
            ListOffsetsParts::writable(r.model(), version as nat, false),
            r.partition == partition,
            r.timestamp == 0,
            r.current_leader_epoch == unknown_epoch_at(version as nat),
    {
        ListOffsetsParts {
            partition,
            current_leader_epoch: if version >= 4 { Some(-1) } else { None },
            timestamp: 0,
        }
    }
}

/// The partition entries of one topic, asked for at `version`.
fn parts_for(parts: &Vec<i32>, version: usize) -> (r: Vec<ListOffsetsParts>)
    requires
        parts@.len() <= 0x7fff_ffff,
    ensures
        <Vec<ListOffsetsParts>>::writable(items_model(r@), version as nat, false),
        asks_for(r@, parts@, version as nat),
{
    let mut out: Vec<ListOffsetsParts> = Vec::new();
    let mut i: usize = 0;
    while i < parts.len()
        invariant
            i <= parts@.len(),
            out@.len() == i,
            asks_for(out@, parts@.take(i as int), version as nat),
            forall|j: int| 0 <= j < i ==> ListOffsetsParts::writable(#[trigger] out@[j].model(), version as nat, false),
        decreases parts@.len() - i,
    {
        out.push(ListOffsetsParts::at_start(parts[i], version));
        i = i + 1;
        proof {
            assert forall|j: int| 0 <= j < i implies (#[trigger] out@[j]).partition == parts@.take(i as int)[j] by {
                if j < i - 1 {
                    assert(parts@.take(i as int)[j] == parts@.take(i - 1)[j]);
                }
            }
        }
    }
    proof {
        assert(parts@.take(parts@.len() as int) == parts@);
        let m = items_model(out@);
        assert forall|j: int| 0 <= j < m.len() implies #[trigger] ListOffsetsParts::writable(m[j], version as nat, false) by {
            assert(m[j] == out@[j].model());
        }
    }
    out
}

impl ListOffsetsRequest {
    /// The list-offsets request of an ordinary consumer (replica id `-1`,
    /// uncommitted reads where the version carries an isolation level)
    /// asking, for each topic in order, for the offsets at timestamp 0 of its
    /// partitions in order, with the leader epoch unknown. Writable at
    /// `version`.
    pub fn for_partitions(topics: &Vec<(String, Vec<i32>)>, version: usize) -> (r: ListOffsetsRequest)
        requires
            topics@.len() <= 0x7fff_ffff,
            forall|i: int| 0 <= i < topics@.len() ==> encode_utf8((#[trigger] topics@[i]).0@).len() <= 0x7fff
                && topics@[i].1@.len() <= 0x7fff_ffff,
        ensures
            ListOffsetsRequest::writable(r.model(), version as nat, false),
            r.replica_id == -1,
            r.isolation_level == (if version >= 2 {
                Some(IsolationLevel::ReadUncommited)
            } else {
                None
            }),
            r.topics.items@.len() == topics@.len(),
            forall|i: int| 0 <= i < topics@.len() ==> (#[trigger] r.topics.items@[i]).topic@ == topics@[i].0@
                && asks_for(r.topics.items@[i].value@, topics@[i].1@, version as nat),
    {
        let mut items: Vec<TopicItem<ListOffsetsParts>> = Vec::new();
        let mut i: usize = 0;
        while i < topics.len()
            invariant
                i <= topics@.len(),
                topics@.len() <= 0x7fff_ffff,
                forall|k: int| 0 <= k < topics@.len() ==> encode_utf8((#[trigger] topics@[k]).0@).len() <= 0x7fff
                    && topics@[k].1@.len() <= 0x7fff_ffff,
                items@.len() == i,
                forall|j: int| 0 <= j < i ==> (#[trigger] items@[j]).topic@ == topics@[j].0@
                    && asks_for(items@[j].value@, topics@[j].1@, version as nat),
                forall|j: int| 0 <= j < i ==> TopicItem::<ListOffsetsParts>::writable(#[trigger] items@[j].model(), version as nat, false),
            decreases topics@.len() - i,
        {
            let (name, parts) = &topics[i];
            let value = parts_for(parts, version);
            let item = TopicItem { topic: name.clone(), value };
            proof {
                assert(max_length(2, false) == 0x7fff);
            }
            items.push(item);
            i = i + 1;
        }
        proof {
            let m = items_model(items@);
            assert forall|j: int| 0 <= j < m.len() implies #[trigger] TopicItem::<ListOffsetsParts>::writable(m[j], version as nat, false) by {
                assert(m[j] == items@[j].model());
            }
        }
        ListOffsetsRequest {
            replica_id: -1,
            isolation_level: if version >= 2 { Some(IsolationLevel::ReadUncommited) } else { None },
            topics: TopicMap { items },
        }
    }
}

} // verus!
