//! The fetch message: reading records from partitions.
use crate::compose::{get, gate_encoding, lemma_concat_assoc, opt_model, put, put_versioned, Versioned};
use crate::error::Error;
use crate::wire::{Parsed, WireRead, WireWrite, Wired};
use crate::api::IsolationLevel;
use crate::topics::TopicMap;
use vstd::prelude::*;

verus! {

/// A partition to fetch from.
pub struct FetchPartitions {
    pub partition: i32,
    /// On the wire from version 9.
    pub current_leader_epoch: Option<i32>,
    pub offset: i64,
    /// On the wire from version 5.
    pub log_start_offset: Option<i64>,
    pub max_bytes: i32,
}

/// The fields of a `FetchPartitions`, in wire order.
pub type FetchPartitionsLayout = (i32, (Versioned<i32, 9>, (i64, (Versioned<i64, 5>, i32))));

impl Wired for FetchPartitions {
    type Model = <FetchPartitionsLayout as Wired>::Model;

    open spec fn model(&self) -> Self::Model {
        (self.partition.model(), (opt_model(self.current_leader_epoch), (self.offset.model(), (opt_model(self.log_start_offset), self.max_bytes.model()))))
    }

    open spec fn writable(m: Self::Model, version: nat, compact: bool) -> bool {
        <FetchPartitionsLayout as Wired>::writable(m, version, compact)
    }

    open spec fn canonical(m: Self::Model, version: nat, compact: bool) -> bool {
        <FetchPartitionsLayout as Wired>::canonical(m, version, compact)
    }

    open spec fn encoding(m: Self::Model, version: nat, compact: bool) -> Seq<u8> {
        <FetchPartitionsLayout as Wired>::encoding(m, version, compact)
    }

    open spec fn parse(data: Seq<u8>, version: nat, compact: bool) -> Parsed<Self::Model> {
        <FetchPartitionsLayout as Wired>::parse(data, version, compact)
    }

    proof fn lemma_round_trip(m: Self::Model, version: nat, compact: bool, rest: Seq<u8>) {
        <FetchPartitionsLayout as Wired>::lemma_round_trip(m, version, compact, rest);
    }

    fn to_wire(&self, wire: &mut WireWrite) {
        self.put_fields(wire, false)
    }

    fn from_wire(wire: &mut WireRead) -> (r: Result<Self, Error>) {
        Self::get_fields(wire, false)
    }

    fn to_wire_compact(&self, wire: &mut WireWrite) {
        self.put_fields(wire, true)
    }

    fn from_wire_compact(wire: &mut WireRead) -> (r: Result<Self, Error>) {
        Self::get_fields(wire, true)
    }
}

impl FetchPartitions {
    fn put_fields(&self, wire: &mut WireWrite, compact: bool)
        requires
            Self::writable(self.model(), old(wire).version as nat, compact),
            old(wire).has_room(Self::encoding(self.model(), old(wire).version as nat, compact).len()),
        ensures
            final(wire).version == old(wire).version,
            final(wire).bytes() == old(wire).bytes() + Self::encoding(
                self.model(),
                old(wire).version as nat,
                compact,
            ),
    {
        let ghost v = wire.version as nat;
        let ghost w0 = wire.bytes();
        proof {
            assert(<(i32, (Versioned<i32, 9>, (i64, (Versioned<i64, 5>, i32)))) as Wired>::encoding((self.partition.model(), (opt_model(self.current_leader_epoch), (self.offset.model(), (opt_model(self.log_start_offset), self.max_bytes.model())))), v, compact) === <i32 as Wired>::encoding(self.partition.model(), v, compact) + <(Versioned<i32, 9>, (i64, (Versioned<i64, 5>, i32))) as Wired>::encoding((opt_model(self.current_leader_epoch), (self.offset.model(), (opt_model(self.log_start_offset), self.max_bytes.model()))), v, compact));
            assert(<(Versioned<i32, 9>, (i64, (Versioned<i64, 5>, i32))) as Wired>::encoding((opt_model(self.current_leader_epoch), (self.offset.model(), (opt_model(self.log_start_offset), self.max_bytes.model()))), v, compact) === gate_encoding::<i32>(opt_model(self.current_leader_epoch), 9, None::<nat>, v, compact) + <(i64, (Versioned<i64, 5>, i32)) as Wired>::encoding((self.offset.model(), (opt_model(self.log_start_offset), self.max_bytes.model())), v, compact));
            assert(<(i64, (Versioned<i64, 5>, i32)) as Wired>::encoding((self.offset.model(), (opt_model(self.log_start_offset), self.max_bytes.model())), v, compact) === <i64 as Wired>::encoding(self.offset.model(), v, compact) + <(Versioned<i64, 5>, i32) as Wired>::encoding((opt_model(self.log_start_offset), self.max_bytes.model()), v, compact));
            assert(<(Versioned<i64, 5>, i32) as Wired>::encoding((opt_model(self.log_start_offset), self.max_bytes.model()), v, compact) === gate_encoding::<i64>(opt_model(self.log_start_offset), 5, None::<nat>, v, compact) + <i32 as Wired>::encoding(self.max_bytes.model(), v, compact));
        }
        put(&self.partition, wire, compact);
        let ghost w1 = wire.bytes();
        put_versioned(&self.current_leader_epoch, 9, None, wire, compact);
        let ghost w2 = wire.bytes();
        put(&self.offset, wire, compact);
        let ghost w3 = wire.bytes();
        put_versioned(&self.log_start_offset, 5, None, wire, compact);
        let ghost w4 = wire.bytes();
        put(&self.max_bytes, wire, compact);
        let ghost w5 = wire.bytes();
        proof {
            lemma_concat_assoc(w3, gate_encoding::<i64>(opt_model(self.log_start_offset), 5, None::<nat>, v, compact), <i32 as Wired>::encoding(self.max_bytes.model(), v, compact));
            lemma_concat_assoc(w2, <i64 as Wired>::encoding(self.offset.model(), v, compact), <(Versioned<i64, 5>, i32) as Wired>::encoding((opt_model(self.log_start_offset), self.max_bytes.model()), v, compact));
            lemma_concat_assoc(w1, gate_encoding::<i32>(opt_model(self.current_leader_epoch), 9, None::<nat>, v, compact), <(i64, (Versioned<i64, 5>, i32)) as Wired>::encoding((self.offset.model(), (opt_model(self.log_start_offset), self.max_bytes.model())), v, compact));
            lemma_concat_assoc(w0, <i32 as Wired>::encoding(self.partition.model(), v, compact), <(Versioned<i32, 9>, (i64, (Versioned<i64, 5>, i32))) as Wired>::encoding((opt_model(self.current_leader_epoch), (self.offset.model(), (opt_model(self.log_start_offset), self.max_bytes.model()))), v, compact));
        }
    }

    fn get_fields(wire: &mut WireRead, compact: bool) -> (r: Result<Self, Error>)
        ensures
            final(wire).version == old(wire).version,
            match Self::parse(old(wire).rest(), old(wire).version as nat, compact) {
                Ok((m, n)) => (r matches Ok(x) && x.model() == m) && n <= old(wire).rest().len()
                    && final(wire).rest() == old(wire).rest().skip(n as int),
                Err(e) => r == Err::<Self, Error>(e),
            },
    {
        let (f_partition, (f_current_leader_epoch, (f_offset, (f_log_start_offset, f_max_bytes)))) = get::<FetchPartitionsLayout>(wire, compact)?;
        Ok(FetchPartitions { partition: f_partition, current_leader_epoch: f_current_leader_epoch.0, offset: f_offset, log_start_offset: f_log_start_offset.0, max_bytes: f_max_bytes })
    }
}

/// The fetch request.
pub struct Request {
    pub replica_id: i32,
    pub max_wait_ms: i32,
    pub min_bytes: i32,
    /// On the wire from version 3.
    pub max_bytes: Option<i32>,
    /// On the wire from version 4.
    pub isolation: Option<IsolationLevel>,
    /// On the wire from version 7.
    pub session_id: Option<i32>,
    /// On the wire from version 7.
    pub session_epoch: Option<i32>,
    pub topics: TopicMap<FetchPartitions>,
    /// On the wire from version 7.
    pub forgotten_topics_data: Option<TopicMap<i32>>,
    /// On the wire from version 11.
    pub rack_id: Option<String>,
}

/// The fields of a `Request`, in wire order.
pub type RequestLayout = (i32, (i32, (i32, (Versioned<i32, 3>, (Versioned<IsolationLevel, 4>, (Versioned<i32, 7>, (Versioned<i32, 7>, (TopicMap<FetchPartitions>, (Versioned<TopicMap<i32>, 7>, Versioned<String, 11>)))))))));

impl Wired for Request {
    type Model = <RequestLayout as Wired>::Model;

    open spec fn model(&self) -> Self::Model {
        (self.replica_id.model(), (self.max_wait_ms.model(), (self.min_bytes.model(), (opt_model(self.max_bytes), (opt_model(self.isolation), (opt_model(self.session_id), (opt_model(self.session_epoch), (self.topics.model(), (opt_model(self.forgotten_topics_data), opt_model(self.rack_id))))))))))
    }

    open spec fn writable(m: Self::Model, version: nat, compact: bool) -> bool {
        <RequestLayout as Wired>::writable(m, version, compact)
    }

    open spec fn canonical(m: Self::Model, version: nat, compact: bool) -> bool {
        <RequestLayout as Wired>::canonical(m, version, compact)
    }

    open spec fn encoding(m: Self::Model, version: nat, compact: bool) -> Seq<u8> {
        <RequestLayout as Wired>::encoding(m, version, compact)
    }

    open spec fn parse(data: Seq<u8>, version: nat, compact: bool) -> Parsed<Self::Model> {
        <RequestLayout as Wired>::parse(data, version, compact)
    }

    proof fn lemma_round_trip(m: Self::Model, version: nat, compact: bool, rest: Seq<u8>) {
        <RequestLayout as Wired>::lemma_round_trip(m, version, compact, rest);
    }

    fn to_wire(&self, wire: &mut WireWrite) {
        self.put_fields(wire, false)
    }

    fn from_wire(wire: &mut WireRead) -> (r: Result<Self, Error>) {
        Self::get_fields(wire, false)
    }

    fn to_wire_compact(&self, wire: &mut WireWrite) {
        self.put_fields(wire, true)
    }

    fn from_wire_compact(wire: &mut WireRead) -> (r: Result<Self, Error>) {
        Self::get_fields(wire, true)
    }
}

impl Request {
    fn put_fields(&self, wire: &mut WireWrite, compact: bool)
        requires
            Self::writable(self.model(), old(wire).version as nat, compact),
            old(wire).has_room(Self::encoding(self.model(), old(wire).version as nat, compact).len()),
        ensures
            final(wire).version == old(wire).version,
            final(wire).bytes() == old(wire).bytes() + Self::encoding(
                self.model(),
                old(wire).version as nat,
                compact,
            ),
    {
        let ghost v = wire.version as nat;
        let ghost w0 = wire.bytes();
        proof {
            assert(<(i32, (i32, (i32, (Versioned<i32, 3>, (Versioned<IsolationLevel, 4>, (Versioned<i32, 7>, (Versioned<i32, 7>, (TopicMap<FetchPartitions>, (Versioned<TopicMap<i32>, 7>, Versioned<String, 11>))))))))) as Wired>::encoding((self.replica_id.model(), (self.max_wait_ms.model(), (self.min_bytes.model(), (opt_model(self.max_bytes), (opt_model(self.isolation), (opt_model(self.session_id), (opt_model(self.session_epoch), (self.topics.model(), (opt_model(self.forgotten_topics_data), opt_model(self.rack_id)))))))))), v, compact) === <i32 as Wired>::encoding(self.replica_id.model(), v, compact) + <(i32, (i32, (Versioned<i32, 3>, (Versioned<IsolationLevel, 4>, (Versioned<i32, 7>, (Versioned<i32, 7>, (TopicMap<FetchPartitions>, (Versioned<TopicMap<i32>, 7>, Versioned<String, 11>)))))))) as Wired>::encoding((self.max_wait_ms.model(), (self.min_bytes.model(), (opt_model(self.max_bytes), (opt_model(self.isolation), (opt_model(self.session_id), (opt_model(self.session_epoch), (self.topics.model(), (opt_model(self.forgotten_topics_data), opt_model(self.rack_id))))))))), v, compact));
            assert(<(i32, (i32, (Versioned<i32, 3>, (Versioned<IsolationLevel, 4>, (Versioned<i32, 7>, (Versioned<i32, 7>, (TopicMap<FetchPartitions>, (Versioned<TopicMap<i32>, 7>, Versioned<String, 11>)))))))) as Wired>::encoding((self.max_wait_ms.model(), (self.min_bytes.model(), (opt_model(self.max_bytes), (opt_model(self.isolation), (opt_model(self.session_id), (opt_model(self.session_epoch), (self.topics.model(), (opt_model(self.forgotten_topics_data), opt_model(self.rack_id))))))))), v, compact) === <i32 as Wired>::encoding(self.max_wait_ms.model(), v, compact) + <(i32, (Versioned<i32, 3>, (Versioned<IsolationLevel, 4>, (Versioned<i32, 7>, (Versioned<i32, 7>, (TopicMap<FetchPartitions>, (Versioned<TopicMap<i32>, 7>, Versioned<String, 11>))))))) as Wired>::encoding((self.min_bytes.model(), (opt_model(self.max_bytes), (opt_model(self.isolation), (opt_model(self.session_id), (opt_model(self.session_epoch), (self.topics.model(), (opt_model(self.forgotten_topics_data), opt_model(self.rack_id)))))))), v, compact));
            assert(<(i32, (Versioned<i32, 3>, (Versioned<IsolationLevel, 4>, (Versioned<i32, 7>, (Versioned<i32, 7>, (TopicMap<FetchPartitions>, (Versioned<TopicMap<i32>, 7>, Versioned<String, 11>))))))) as Wired>::encoding((self.min_bytes.model(), (opt_model(self.max_bytes), (opt_model(self.isolation), (opt_model(self.session_id), (opt_model(self.session_epoch), (self.topics.model(), (opt_model(self.forgotten_topics_data), opt_model(self.rack_id)))))))), v, compact) === <i32 as Wired>::encoding(self.min_bytes.model(), v, compact) + <(Versioned<i32, 3>, (Versioned<IsolationLevel, 4>, (Versioned<i32, 7>, (Versioned<i32, 7>, (TopicMap<FetchPartitions>, (Versioned<TopicMap<i32>, 7>, Versioned<String, 11>)))))) as Wired>::encoding((opt_model(self.max_bytes), (opt_model(self.isolation), (opt_model(self.session_id), (opt_model(self.session_epoch), (self.topics.model(), (opt_model(self.forgotten_topics_data), opt_model(self.rack_id))))))), v, compact));
            assert(<(Versioned<i32, 3>, (Versioned<IsolationLevel, 4>, (Versioned<i32, 7>, (Versioned<i32, 7>, (TopicMap<FetchPartitions>, (Versioned<TopicMap<i32>, 7>, Versioned<String, 11>)))))) as Wired>::encoding((opt_model(self.max_bytes), (opt_model(self.isolation), (opt_model(self.session_id), (opt_model(self.session_epoch), (self.topics.model(), (opt_model(self.forgotten_topics_data), opt_model(self.rack_id))))))), v, compact) === gate_encoding::<i32>(opt_model(self.max_bytes), 3, None::<nat>, v, compact) + <(Versioned<IsolationLevel, 4>, (Versioned<i32, 7>, (Versioned<i32, 7>, (TopicMap<FetchPartitions>, (Versioned<TopicMap<i32>, 7>, Versioned<String, 11>))))) as Wired>::encoding((opt_model(self.isolation), (opt_model(self.session_id), (opt_model(self.session_epoch), (self.topics.model(), (opt_model(self.forgotten_topics_data), opt_model(self.rack_id)))))), v, compact));
            assert(<(Versioned<IsolationLevel, 4>, (Versioned<i32, 7>, (Versioned<i32, 7>, (TopicMap<FetchPartitions>, (Versioned<TopicMap<i32>, 7>, Versioned<String, 11>))))) as Wired>::encoding((opt_model(self.isolation), (opt_model(self.session_id), (opt_model(self.session_epoch), (self.topics.model(), (opt_model(self.forgotten_topics_data), opt_model(self.rack_id)))))), v, compact) === gate_encoding::<IsolationLevel>(opt_model(self.isolation), 4, None::<nat>, v, compact) + <(Versioned<i32, 7>, (Versioned<i32, 7>, (TopicMap<FetchPartitions>, (Versioned<TopicMap<i32>, 7>, Versioned<String, 11>)))) as Wired>::encoding((opt_model(self.session_id), (opt_model(self.session_epoch), (self.topics.model(), (opt_model(self.forgotten_topics_data), opt_model(self.rack_id))))), v, compact));
            assert(<(Versioned<i32, 7>, (Versioned<i32, 7>, (TopicMap<FetchPartitions>, (Versioned<TopicMap<i32>, 7>, Versioned<String, 11>)))) as Wired>::encoding((opt_model(self.session_id), (opt_model(self.session_epoch), (self.topics.model(), (opt_model(self.forgotten_topics_data), opt_model(self.rack_id))))), v, compact) === gate_encoding::<i32>(opt_model(self.session_id), 7, None::<nat>, v, compact) + <(Versioned<i32, 7>, (TopicMap<FetchPartitions>, (Versioned<TopicMap<i32>, 7>, Versioned<String, 11>))) as Wired>::encoding((opt_model(self.session_epoch), (self.topics.model(), (opt_model(self.forgotten_topics_data), opt_model(self.rack_id)))), v, compact));
            assert(<(Versioned<i32, 7>, (TopicMap<FetchPartitions>, (Versioned<TopicMap<i32>, 7>, Versioned<String, 11>))) as Wired>::encoding((opt_model(self.session_epoch), (self.topics.model(), (opt_model(self.forgotten_topics_data), opt_model(self.rack_id)))), v, compact) === gate_encoding::<i32>(opt_model(self.session_epoch), 7, None::<nat>, v, compact) + <(TopicMap<FetchPartitions>, (Versioned<TopicMap<i32>, 7>, Versioned<String, 11>)) as Wired>::encoding((self.topics.model(), (opt_model(self.forgotten_topics_data), opt_model(self.rack_id))), v, compact));
            assert(<(TopicMap<FetchPartitions>, (Versioned<TopicMap<i32>, 7>, Versioned<String, 11>)) as Wired>::encoding((self.topics.model(), (opt_model(self.forgotten_topics_data), opt_model(self.rack_id))), v, compact) === <TopicMap<FetchPartitions> as Wired>::encoding(self.topics.model(), v, compact) + <(Versioned<TopicMap<i32>, 7>, Versioned<String, 11>) as Wired>::encoding((opt_model(self.forgotten_topics_data), opt_model(self.rack_id)), v, compact));
            assert(<(Versioned<TopicMap<i32>, 7>, Versioned<String, 11>) as Wired>::encoding((opt_model(self.forgotten_topics_data), opt_model(self.rack_id)), v, compact) === gate_encoding::<TopicMap<i32>>(opt_model(self.forgotten_topics_data), 7, None::<nat>, v, compact) + <Versioned<String, 11> as Wired>::encoding(opt_model(self.rack_id), v, compact));
        }
        put(&self.replica_id, wire, compact);
        let ghost w1 = wire.bytes();
        put(&self.max_wait_ms, wire, compact);
        let ghost w2 = wire.bytes();
        put(&self.min_bytes, wire, compact);
        let ghost w3 = wire.bytes();
        put_versioned(&self.max_bytes, 3, None, wire, compact);
        let ghost w4 = wire.bytes();
        put_versioned(&self.isolation, 4, None, wire, compact);
        let ghost w5 = wire.bytes();
        put_versioned(&self.session_id, 7, None, wire, compact);
        let ghost w6 = wire.bytes();
        put_versioned(&self.session_epoch, 7, None, wire, compact);
        let ghost w7 = wire.bytes();
        put(&self.topics, wire, compact);
        let ghost w8 = wire.bytes();
        put_versioned(&self.forgotten_topics_data, 7, None, wire, compact);
        let ghost w9 = wire.bytes();
        put_versioned(&self.rack_id, 11, None, wire, compact);
        let ghost w10 = wire.bytes();
        proof {
            lemma_concat_assoc(w8, gate_encoding::<TopicMap<i32>>(opt_model(self.forgotten_topics_data), 7, None::<nat>, v, compact), <Versioned<String, 11> as Wired>::encoding(opt_model(self.rack_id), v, compact));
            lemma_concat_assoc(w7, <TopicMap<FetchPartitions> as Wired>::encoding(self.topics.model(), v, compact), <(Versioned<TopicMap<i32>, 7>, Versioned<String, 11>) as Wired>::encoding((opt_model(self.forgotten_topics_data), opt_model(self.rack_id)), v, compact));
            lemma_concat_assoc(w6, gate_encoding::<i32>(opt_model(self.session_epoch), 7, None::<nat>, v, compact), <(TopicMap<FetchPartitions>, (Versioned<TopicMap<i32>, 7>, Versioned<String, 11>)) as Wired>::encoding((self.topics.model(), (opt_model(self.forgotten_topics_data), opt_model(self.rack_id))), v, compact));
            lemma_concat_assoc(w5, gate_encoding::<i32>(opt_model(self.session_id), 7, None::<nat>, v, compact), <(Versioned<i32, 7>, (TopicMap<FetchPartitions>, (Versioned<TopicMap<i32>, 7>, Versioned<String, 11>))) as Wired>::encoding((opt_model(self.session_epoch), (self.topics.model(), (opt_model(self.forgotten_topics_data), opt_model(self.rack_id)))), v, compact));
            lemma_concat_assoc(w4, gate_encoding::<IsolationLevel>(opt_model(self.isolation), 4, None::<nat>, v, compact), <(Versioned<i32, 7>, (Versioned<i32, 7>, (TopicMap<FetchPartitions>, (Versioned<TopicMap<i32>, 7>, Versioned<String, 11>)))) as Wired>::encoding((opt_model(self.session_id), (opt_model(self.session_epoch), (self.topics.model(), (opt_model(self.forgotten_topics_data), opt_model(self.rack_id))))), v, compact));
            lemma_concat_assoc(w3, gate_encoding::<i32>(opt_model(self.max_bytes), 3, None::<nat>, v, compact), <(Versioned<IsolationLevel, 4>, (Versioned<i32, 7>, (Versioned<i32, 7>, (TopicMap<FetchPartitions>, (Versioned<TopicMap<i32>, 7>, Versioned<String, 11>))))) as Wired>::encoding((opt_model(self.isolation), (opt_model(self.session_id), (opt_model(self.session_epoch), (self.topics.model(), (opt_model(self.forgotten_topics_data), opt_model(self.rack_id)))))), v, compact));
            lemma_concat_assoc(w2, <i32 as Wired>::encoding(self.min_bytes.model(), v, compact), <(Versioned<i32, 3>, (Versioned<IsolationLevel, 4>, (Versioned<i32, 7>, (Versioned<i32, 7>, (TopicMap<FetchPartitions>, (Versioned<TopicMap<i32>, 7>, Versioned<String, 11>)))))) as Wired>::encoding((opt_model(self.max_bytes), (opt_model(self.isolation), (opt_model(self.session_id), (opt_model(self.session_epoch), (self.topics.model(), (opt_model(self.forgotten_topics_data), opt_model(self.rack_id))))))), v, compact));
            lemma_concat_assoc(w1, <i32 as Wired>::encoding(self.max_wait_ms.model(), v, compact), <(i32, (Versioned<i32, 3>, (Versioned<IsolationLevel, 4>, (Versioned<i32, 7>, (Versioned<i32, 7>, (TopicMap<FetchPartitions>, (Versioned<TopicMap<i32>, 7>, Versioned<String, 11>))))))) as Wired>::encoding((self.min_bytes.model(), (opt_model(self.max_bytes), (opt_model(self.isolation), (opt_model(self.session_id), (opt_model(self.session_epoch), (self.topics.model(), (opt_model(self.forgotten_topics_data), opt_model(self.rack_id)))))))), v, compact));
            lemma_concat_assoc(w0, <i32 as Wired>::encoding(self.replica_id.model(), v, compact), <(i32, (i32, (Versioned<i32, 3>, (Versioned<IsolationLevel, 4>, (Versioned<i32, 7>, (Versioned<i32, 7>, (TopicMap<FetchPartitions>, (Versioned<TopicMap<i32>, 7>, Versioned<String, 11>)))))))) as Wired>::encoding((self.max_wait_ms.model(), (self.min_bytes.model(), (opt_model(self.max_bytes), (opt_model(self.isolation), (opt_model(self.session_id), (opt_model(self.session_epoch), (self.topics.model(), (opt_model(self.forgotten_topics_data), opt_model(self.rack_id))))))))), v, compact));
        }
    }

    fn get_fields(wire: &mut WireRead, compact: bool) -> (r: Result<Self, Error>)
        ensures
            final(wire).version == old(wire).version,
            match Self::parse(old(wire).rest(), old(wire).version as nat, compact) {
                Ok((m, n)) => (r matches Ok(x) && x.model() == m) && n <= old(wire).rest().len()
                    && final(wire).rest() == old(wire).rest().skip(n as int),
                Err(e) => r == Err::<Self, Error>(e),
            },
    {
        let (f_replica_id, (f_max_wait_ms, (f_min_bytes, (f_max_bytes, (f_isolation, (f_session_id, (f_session_epoch, (f_topics, (f_forgotten_topics_data, f_rack_id))))))))) = get::<RequestLayout>(wire, compact)?;
        Ok(Request { replica_id: f_replica_id, max_wait_ms: f_max_wait_ms, min_bytes: f_min_bytes, max_bytes: f_max_bytes.0, isolation: f_isolation.0, session_id: f_session_id.0, session_epoch: f_session_epoch.0, topics: f_topics, forgotten_topics_data: f_forgotten_topics_data.0, rack_id: f_rack_id.0 })
    }
}

/// An aborted transaction in a fetched range.
pub struct FetchResponseAbortedTx {
    pub producer_id: i64,
    pub first_offset: i64,
}

/// The fields of a `FetchResponseAbortedTx`, in wire order.
pub type FetchResponseAbortedTxLayout = (i64, i64);

impl Wired for FetchResponseAbortedTx {
    type Model = <FetchResponseAbortedTxLayout as Wired>::Model;

    open spec fn model(&self) -> Self::Model {
        (self.producer_id.model(), self.first_offset.model())
    }

    open spec fn writable(m: Self::Model, version: nat, compact: bool) -> bool {
        <FetchResponseAbortedTxLayout as Wired>::writable(m, version, compact)
    }

    open spec fn canonical(m: Self::Model, version: nat, compact: bool) -> bool {
        <FetchResponseAbortedTxLayout as Wired>::canonical(m, version, compact)
    }

    open spec fn encoding(m: Self::Model, version: nat, compact: bool) -> Seq<u8> {
        <FetchResponseAbortedTxLayout as Wired>::encoding(m, version, compact)
    }

    open spec fn parse(data: Seq<u8>, version: nat, compact: bool) -> Parsed<Self::Model> {
        <FetchResponseAbortedTxLayout as Wired>::parse(data, version, compact)
    }

    proof fn lemma_round_trip(m: Self::Model, version: nat, compact: bool, rest: Seq<u8>) {
        <FetchResponseAbortedTxLayout as Wired>::lemma_round_trip(m, version, compact, rest);
    }

    fn to_wire(&self, wire: &mut WireWrite) {
        self.put_fields(wire, false)
    }

    fn from_wire(wire: &mut WireRead) -> (r: Result<Self, Error>) {
        Self::get_fields(wire, false)
    }

    fn to_wire_compact(&self, wire: &mut WireWrite) {
        self.put_fields(wire, true)
    }

    fn from_wire_compact(wire: &mut WireRead) -> (r: Result<Self, Error>) {
        Self::get_fields(wire, true)
    }
}

impl FetchResponseAbortedTx {
    fn put_fields(&self, wire: &mut WireWrite, compact: bool)
        requires
            Self::writable(self.model(), old(wire).version as nat, compact),
            old(wire).has_room(Self::encoding(self.model(), old(wire).version as nat, compact).len()),
        ensures
            final(wire).version == old(wire).version,
            final(wire).bytes() == old(wire).bytes() + Self::encoding(
                self.model(),
                old(wire).version as nat,
                compact,
            ),
    {
        let ghost v = wire.version as nat;
        let ghost w0 = wire.bytes();
        proof {
            assert(<(i64, i64) as Wired>::encoding((self.producer_id.model(), self.first_offset.model()), v, compact) === <i64 as Wired>::encoding(self.producer_id.model(), v, compact) + <i64 as Wired>::encoding(self.first_offset.model(), v, compact));
        }
        put(&self.producer_id, wire, compact);
        let ghost w1 = wire.bytes();
        put(&self.first_offset, wire, compact);
        let ghost w2 = wire.bytes();
        proof {
            lemma_concat_assoc(w0, <i64 as Wired>::encoding(self.producer_id.model(), v, compact), <i64 as Wired>::encoding(self.first_offset.model(), v, compact));
        }
    }

    fn get_fields(wire: &mut WireRead, compact: bool) -> (r: Result<Self, Error>)
        ensures
            final(wire).version == old(wire).version,
            match Self::parse(old(wire).rest(), old(wire).version as nat, compact) {
                Ok((m, n)) => (r matches Ok(x) && x.model() == m) && n <= old(wire).rest().len()
                    && final(wire).rest() == old(wire).rest().skip(n as int),
                Err(e) => r == Err::<Self, Error>(e),
            },
    {
        let (f_producer_id, f_first_offset) = get::<FetchResponseAbortedTxLayout>(wire, compact)?;
        Ok(FetchResponseAbortedTx { producer_id: f_producer_id, first_offset: f_first_offset })
    }
}

} // verus!
