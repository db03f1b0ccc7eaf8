//! The metadata message: brokers, topics and partitions of the cluster.
use crate::compose::{get, gate_encoding, lemma_concat_assoc, opt_model, put, put_versioned, Versioned};
use crate::api::{ApiKey, ApiRequest};
use crate::error::Error;
use crate::wire::{Parsed, WireRead, WireWrite, Wired};
use crate::tagged::TagBuffer;
use crate::compose::{all_writable, items_model};
use crate::text::max_length;
use vstd::utf8::encode_utf8;
use vstd::prelude::*;

verus! {

/// A topic the metadata request asks about.
pub struct Topic {
    pub value: String,
    /// On the wire from version 9.
    pub tags: Option<TagBuffer>,
}

/// The fields of a `Topic`, in wire order.
pub type TopicLayout = (String, Versioned<TagBuffer, 9>);

impl Wired for Topic {
    type Model = <TopicLayout as Wired>::Model;

    open spec fn model(&self) -> Self::Model {
        (self.value.model(), opt_model(self.tags))
    }

    open spec fn writable(m: Self::Model, version: nat, compact: bool) -> bool {
        <TopicLayout as Wired>::writable(m, version, compact)
    }

    open spec fn canonical(m: Self::Model, version: nat, compact: bool) -> bool {
        <TopicLayout as Wired>::canonical(m, version, compact)
    }

    open spec fn encoding(m: Self::Model, version: nat, compact: bool) -> Seq<u8> {
        <TopicLayout as Wired>::encoding(m, version, compact)
    }

    open spec fn parse(data: Seq<u8>, version: nat, compact: bool) -> Parsed<Self::Model> {
        <TopicLayout as Wired>::parse(data, version, compact)
    }

    proof fn lemma_round_trip(m: Self::Model, version: nat, compact: bool, rest: Seq<u8>) {
        <TopicLayout as Wired>::lemma_round_trip(m, version, compact, rest);
    }

    fn to_wire(&self, wire: &mut WireWrite) {
        self.put_fields(wire, false)
    }

    fn from_wire(wire: &mut WireRead) -> (r: Result<Self, Error>) {
        Self::get_fields(wire, false)
    }

    fn to_wire_compact(&self, wire: &mut WireWrite) {
        self.put_fields(wire, true)
    }

    fn from_wire_compact(wire: &mut WireRead) -> (r: Result<Self, Error>) {
        Self::get_fields(wire, true)
    }
}

impl Topic {
    fn put_fields(&self, wire: &mut WireWrite, compact: bool)
        requires
            Self::writable(self.model(), old(wire).version as nat, compact),
            old(wire).has_room(Self::encoding(self.model(), old(wire).version as nat, compact).len()),
        ensures
            final(wire).version == old(wire).version,
            final(wire).bytes() == old(wire).bytes() + Self::encoding(
                self.model(),
                old(wire).version as nat,
                compact,
            ),
    {
        let ghost v = wire.version as nat;
        let ghost w0 = wire.bytes();
        proof {
            assert(<(String, Versioned<TagBuffer, 9>) as Wired>::encoding((self.value.model(), opt_model(self.tags)), v, compact) === <String as Wired>::encoding(self.value.model(), v, compact) + <Versioned<TagBuffer, 9> as Wired>::encoding(opt_model(self.tags), v, compact));
        }
        put(&self.value, wire, compact);
        let ghost w1 = wire.bytes();
        put_versioned(&self.tags, 9, None, wire, compact);
        let ghost w2 = wire.bytes();
        proof {
            lemma_concat_assoc(w0, <String as Wired>::encoding(self.value.model(), v, compact), <Versioned<TagBuffer, 9> as Wired>::encoding(opt_model(self.tags), v, compact));
        }
    }

    fn get_fields(wire: &mut WireRead, compact: bool) -> (r: Result<Self, Error>)
        ensures
            final(wire).version == old(wire).version,
            match Self::parse(old(wire).rest(), old(wire).version as nat, compact) {
                Ok((m, n)) => (r matches Ok(x) && x.model() == m) && n <= old(wire).rest().len()
                    && final(wire).rest() == old(wire).rest().skip(n as int),
                Err(e) => r == Err::<Self, Error>(e),
            },
    {
        let (f_value, f_tags) = get::<TopicLayout>(wire, compact)?;
        Ok(Topic { value: f_value, tags: f_tags.0 })
    }
}

/// The metadata request.
pub struct Request {
    pub topics: Vec<Topic>,
    /// On the wire from version 4.
    pub allow_auto_topic_creation: Option<bool>,
    /// On the wire from version 8.
    pub include_cluster_auth_ops: Option<bool>,
    /// On the wire from version 8.
    pub include_topic_auth_ops: Option<bool>,
    /// On the wire from version 9.
    pub tags: Option<TagBuffer>,
}

/// The fields of a `Request`, in wire order.
pub type RequestLayout = (Vec<Topic>, (Versioned<bool, 4>, (Versioned<bool, 8>, (Versioned<bool, 8>, Versioned<TagBuffer, 9>))));

impl Wired for Request {
    type Model = <RequestLayout as Wired>::Model;

    open spec fn model(&self) -> Self::Model {
        (self.topics.model(), (opt_model(self.allow_auto_topic_creation), (opt_model(self.include_cluster_auth_ops), (opt_model(self.include_topic_auth_ops), opt_model(self.tags)))))
    }

    open spec fn writable(m: Self::Model, version: nat, compact: bool) -> bool {
        <RequestLayout as Wired>::writable(m, version, compact)
    }

    open spec fn canonical(m: Self::Model, version: nat, compact: bool) -> bool {
        <RequestLayout as Wired>::canonical(m, version, compact)
    }

    open spec fn encoding(m: Self::Model, version: nat, compact: bool) -> Seq<u8> {
        <RequestLayout as Wired>::encoding(m, version, compact)
    }

    open spec fn parse(data: Seq<u8>, version: nat, compact: bool) -> Parsed<Self::Model> {
        <RequestLayout as Wired>::parse(data, version, compact)
    }

    proof fn lemma_round_trip(m: Self::Model, version: nat, compact: bool, rest: Seq<u8>) {
        <RequestLayout as Wired>::lemma_round_trip(m, version, compact, rest);
    }

    fn to_wire(&self, wire: &mut WireWrite) {
        self.put_fields(wire, false)
    }

    fn from_wire(wire: &mut WireRead) -> (r: Result<Self, Error>) {
        Self::get_fields(wire, false)
    }

    fn to_wire_compact(&self, wire: &mut WireWrite) {
        self.put_fields(wire, true)
    }

    fn from_wire_compact(wire: &mut WireRead) -> (r: Result<Self, Error>) {
        Self::get_fields(wire, true)
    }
}

impl Request {
    fn put_fields(&self, wire: &mut WireWrite, compact: bool)
        requires
            Self::writable(self.model(), old(wire).version as nat, compact),
            old(wire).has_room(Self::encoding(self.model(), old(wire).version as nat, compact).len()),
        ensures
            final(wire).version == old(wire).version,
            final(wire).bytes() == old(wire).bytes() + Self::encoding(
                self.model(),
                old(wire).version as nat,
                compact,
            ),
    {
        let ghost v = wire.version as nat;
        let ghost w0 = wire.bytes();
        proof {
            assert(<(Vec<Topic>, (Versioned<bool, 4>, (Versioned<bool, 8>, (Versioned<bool, 8>, Versioned<TagBuffer, 9>)))) as Wired>::encoding((self.topics.model(), (opt_model(self.allow_auto_topic_creation), (opt_model(self.include_cluster_auth_ops), (opt_model(self.include_topic_auth_ops), opt_model(self.tags))))), v, compact) === <Vec<Topic> as Wired>::encoding(self.topics.model(), v, compact) + <(Versioned<bool, 4>, (Versioned<bool, 8>, (Versioned<bool, 8>, Versioned<TagBuffer, 9>))) as Wired>::encoding((opt_model(self.allow_auto_topic_creation), (opt_model(self.include_cluster_auth_ops), (opt_model(self.include_topic_auth_ops), opt_model(self.tags)))), v, compact));
            assert(<(Versioned<bool, 4>, (Versioned<bool, 8>, (Versioned<bool, 8>, Versioned<TagBuffer, 9>))) as Wired>::encoding((opt_model(self.allow_auto_topic_creation), (opt_model(self.include_cluster_auth_ops), (opt_model(self.include_topic_auth_ops), opt_model(self.tags)))), v, compact) === gate_encoding::<bool>(opt_model(self.allow_auto_topic_creation), 4, None::<nat>, v, compact) + <(Versioned<bool, 8>, (Versioned<bool, 8>, Versioned<TagBuffer, 9>)) as Wired>::encoding((opt_model(self.include_cluster_auth_ops), (opt_model(self.include_topic_auth_ops), opt_model(self.tags))), v, compact));
            assert(<(Versioned<bool, 8>, (Versioned<bool, 8>, Versioned<TagBuffer, 9>)) as Wired>::encoding((opt_model(self.include_cluster_auth_ops), (opt_model(self.include_topic_auth_ops), opt_model(self.tags))), v, compact) === gate_encoding::<bool>(opt_model(self.include_cluster_auth_ops), 8, None::<nat>, v, compact) + <(Versioned<bool, 8>, Versioned<TagBuffer, 9>) as Wired>::encoding((opt_model(self.include_topic_auth_ops), opt_model(self.tags)), v, compact));
            assert(<(Versioned<bool, 8>, Versioned<TagBuffer, 9>) as Wired>::encoding((opt_model(self.include_topic_auth_ops), opt_model(self.tags)), v, compact) === gate_encoding::<bool>(opt_model(self.include_topic_auth_ops), 8, None::<nat>, v, compact) + <Versioned<TagBuffer, 9> as Wired>::encoding(opt_model(self.tags), v, compact));
        }
        put(&self.topics, wire, compact);
        let ghost w1 = wire.bytes();
        put_versioned(&self.allow_auto_topic_creation, 4, None, wire, compact);
        let ghost w2 = wire.bytes();
        put_versioned(&self.include_cluster_auth_ops, 8, None, wire, compact);
        let ghost w3 = wire.bytes();
        put_versioned(&self.include_topic_auth_ops, 8, None, wire, compact);
        let ghost w4 = wire.bytes();
        put_versioned(&self.tags, 9, None, wire, compact);
        let ghost w5 = wire.bytes();
        proof {
            lemma_concat_assoc(w3, gate_encoding::<bool>(opt_model(self.include_topic_auth_ops), 8, None::<nat>, v, compact), <Versioned<TagBuffer, 9> as Wired>::encoding(opt_model(self.tags), v, compact));
            lemma_concat_assoc(w2, gate_encoding::<bool>(opt_model(self.include_cluster_auth_ops), 8, None::<nat>, v, compact), <(Versioned<bool, 8>, Versioned<TagBuffer, 9>) as Wired>::encoding((opt_model(self.include_topic_auth_ops), opt_model(self.tags)), v, compact));
            lemma_concat_assoc(w1, gate_encoding::<bool>(opt_model(self.allow_auto_topic_creation), 4, None::<nat>, v, compact), <(Versioned<bool, 8>, (Versioned<bool, 8>, Versioned<TagBuffer, 9>)) as Wired>::encoding((opt_model(self.include_cluster_auth_ops), (opt_model(self.include_topic_auth_ops), opt_model(self.tags))), v, compact));
            lemma_concat_assoc(w0, <Vec<Topic> as Wired>::encoding(self.topics.model(), v, compact), <(Versioned<bool, 4>, (Versioned<bool, 8>, (Versioned<bool, 8>, Versioned<TagBuffer, 9>))) as Wired>::encoding((opt_model(self.allow_auto_topic_creation), (opt_model(self.include_cluster_auth_ops), (opt_model(self.include_topic_auth_ops), opt_model(self.tags)))), v, compact));
        }
    }

    fn get_fields(wire: &mut WireRead, compact: bool) -> (r: Result<Self, Error>)
        ensures
            final(wire).version == old(wire).version,
            match Self::parse(old(wire).rest(), old(wire).version as nat, compact) {
                Ok((m, n)) => (r matches Ok(x) && x.model() == m) && n <= old(wire).rest().len()
                    && final(wire).rest() == old(wire).rest().skip(n as int),
                Err(e) => r == Err::<Self, Error>(e),
            },
    {
        let (f_topics, (f_allow_auto_topic_creation, (f_include_cluster_auth_ops, (f_include_topic_auth_ops, f_tags)))) = get::<RequestLayout>(wire, compact)?;
        Ok(Request { topics: f_topics, allow_auto_topic_creation: f_allow_auto_topic_creation.0, include_cluster_auth_ops: f_include_cluster_auth_ops.0, include_topic_auth_ops: f_include_topic_auth_ops.0, tags: f_tags.0 })
    }
}

/// One partition of a topic.
pub struct MetadataPartition {
    pub error_code: i16,
    pub part_index: i32,
    pub leader_id: i32,
    /// On the wire from version 7.
    pub leader_epoch: Option<i32>,
    pub replicas: Vec<i32>,
    pub isr_nodes: Vec<i32>,
    /// On the wire from version 5.
    pub offline_replicas: Option<Vec<i32>>,
    /// On the wire from version 9.
    pub tags: Option<TagBuffer>,
}

/// The fields of a `MetadataPartition`, in wire order.
pub type MetadataPartitionLayout = (i16, (i32, (i32, (Versioned<i32, 7>, (Vec<i32>, (Vec<i32>, (Versioned<Vec<i32>, 5>, Versioned<TagBuffer, 9>)))))));

impl Wired for MetadataPartition {
    type Model = <MetadataPartitionLayout as Wired>::Model;

    open spec fn model(&self) -> Self::Model {
        (self.error_code.model(), (self.part_index.model(), (self.leader_id.model(), (opt_model(self.leader_epoch), (self.replicas.model(), (self.isr_nodes.model(), (opt_model(self.offline_replicas), opt_model(self.tags))))))))
    }

    open spec fn writable(m: Self::Model, version: nat, compact: bool) -> bool {
        <MetadataPartitionLayout as Wired>::writable(m, version, compact)
    }

    open spec fn canonical(m: Self::Model, version: nat, compact: bool) -> bool {
        <MetadataPartitionLayout as Wired>::canonical(m, version, compact)
    }

    open spec fn encoding(m: Self::Model, version: nat, compact: bool) -> Seq<u8> {
        <MetadataPartitionLayout as Wired>::encoding(m, version, compact)
    }

    open spec fn parse(data: Seq<u8>, version: nat, compact: bool) -> Parsed<Self::Model> {
        <MetadataPartitionLayout as Wired>::parse(data, version, compact)
    }

    proof fn lemma_round_trip(m: Self::Model, version: nat, compact: bool, rest: Seq<u8>) {
        <MetadataPartitionLayout as Wired>::lemma_round_trip(m, version, compact, rest);
    }

    fn to_wire(&self, wire: &mut WireWrite) {
        self.put_fields(wire, false)
    }

    fn from_wire(wire: &mut WireRead) -> (r: Result<Self, Error>) {
        Self::get_fields(wire, false)
    }

    fn to_wire_compact(&self, wire: &mut WireWrite) {
        self.put_fields(wire, true)
    }

    fn from_wire_compact(wire: &mut WireRead) -> (r: Result<Self, Error>) {
        Self::get_fields(wire, true)
    }
}

impl MetadataPartition {
    fn put_fields(&self, wire: &mut WireWrite, compact: bool)
        requires
            Self::writable(self.model(), old(wire).version as nat, compact),
            old(wire).has_room(Self::encoding(self.model(), old(wire).version as nat, compact).len()),
        ensures
            final(wire).version == old(wire).version,
            final(wire).bytes() == old(wire).bytes() + Self::encoding(
                self.model(),
                old(wire).version as nat,
                compact,
            ),
    {
        let ghost v = wire.version as nat;
        let ghost w0 = wire.bytes();
        proof {
            assert(<(i16, (i32, (i32, (Versioned<i32, 7>, (Vec<i32>, (Vec<i32>, (Versioned<Vec<i32>, 5>, Versioned<TagBuffer, 9>))))))) as Wired>::encoding((self.error_code.model(), (self.part_index.model(), (self.leader_id.model(), (opt_model(self.leader_epoch), (self.replicas.model(), (self.isr_nodes.model(), (opt_model(self.offline_replicas), opt_model(self.tags)))))))), v, compact) === <i16 as Wired>::encoding(self.error_code.model(), v, compact) + <(i32, (i32, (Versioned<i32, 7>, (Vec<i32>, (Vec<i32>, (Versioned<Vec<i32>, 5>, Versioned<TagBuffer, 9>)))))) as Wired>::encoding((self.part_index.model(), (self.leader_id.model(), (opt_model(self.leader_epoch), (self.replicas.model(), (self.isr_nodes.model(), (opt_model(self.offline_replicas), opt_model(self.tags))))))), v, compact));
            assert(<(i32, (i32, (Versioned<i32, 7>, (Vec<i32>, (Vec<i32>, (Versioned<Vec<i32>, 5>, Versioned<TagBuffer, 9>)))))) as Wired>::encoding((self.part_index.model(), (self.leader_id.model(), (opt_model(self.leader_epoch), (self.replicas.model(), (self.isr_nodes.model(), (opt_model(self.offline_replicas), opt_model(self.tags))))))), v, compact) === <i32 as Wired>::encoding(self.part_index.model(), v, compact) + <(i32, (Versioned<i32, 7>, (Vec<i32>, (Vec<i32>, (Versioned<Vec<i32>, 5>, Versioned<TagBuffer, 9>))))) as Wired>::encoding((self.leader_id.model(), (opt_model(self.leader_epoch), (self.replicas.model(), (self.isr_nodes.model(), (opt_model(self.offline_replicas), opt_model(self.tags)))))), v, compact));
            assert(<(i32, (Versioned<i32, 7>, (Vec<i32>, (Vec<i32>, (Versioned<Vec<i32>, 5>, Versioned<TagBuffer, 9>))))) as Wired>::encoding((self.leader_id.model(), (opt_model(self.leader_epoch), (self.replicas.model(), (self.isr_nodes.model(), (opt_model(self.offline_replicas), opt_model(self.tags)))))), v, compact) === <i32 as Wired>::encoding(self.leader_id.model(), v, compact) + <(Versioned<i32, 7>, (Vec<i32>, (Vec<i32>, (Versioned<Vec<i32>, 5>, Versioned<TagBuffer, 9>)))) as Wired>::encoding((opt_model(self.leader_epoch), (self.replicas.model(), (self.isr_nodes.model(), (opt_model(self.offline_replicas), opt_model(self.tags))))), v, compact));
            assert(<(Versioned<i32, 7>, (Vec<i32>, (Vec<i32>, (Versioned<Vec<i32>, 5>, Versioned<TagBuffer, 9>)))) as Wired>::encoding((opt_model(self.leader_epoch), (self.replicas.model(), (self.isr_nodes.model(), (opt_model(self.offline_replicas), opt_model(self.tags))))), v, compact) === gate_encoding::<i32>(opt_model(self.leader_epoch), 7, None::<nat>, v, compact) + <(Vec<i32>, (Vec<i32>, (Versioned<Vec<i32>, 5>, Versioned<TagBuffer, 9>))) as Wired>::encoding((self.replicas.model(), (self.isr_nodes.model(), (opt_model(self.offline_replicas), opt_model(self.tags)))), v, compact));
            assert(<(Vec<i32>, (Vec<i32>, (Versioned<Vec<i32>, 5>, Versioned<TagBuffer, 9>))) as Wired>::encoding((self.replicas.model(), (self.isr_nodes.model(), (opt_model(self.offline_replicas), opt_model(self.tags)))), v, compact) === <Vec<i32> as Wired>::encoding(self.replicas.model(), v, compact) + <(Vec<i32>, (Versioned<Vec<i32>, 5>, Versioned<TagBuffer, 9>)) as Wired>::encoding((self.isr_nodes.model(), (opt_model(self.offline_replicas), opt_model(self.tags))), v, compact));
            assert(<(Vec<i32>, (Versioned<Vec<i32>, 5>, Versioned<TagBuffer, 9>)) as Wired>::encoding((self.isr_nodes.model(), (opt_model(self.offline_replicas), opt_model(self.tags))), v, compact) === <Vec<i32> as Wired>::encoding(self.isr_nodes.model(), v, compact) + <(Versioned<Vec<i32>, 5>, Versioned<TagBuffer, 9>) as Wired>::encoding((opt_model(self.offline_replicas), opt_model(self.tags)), v, compact));
            assert(<(Versioned<Vec<i32>, 5>, Versioned<TagBuffer, 9>) as Wired>::encoding((opt_model(self.offline_replicas), opt_model(self.tags)), v, compact) === gate_encoding::<Vec<i32>>(opt_model(self.offline_replicas), 5, None::<nat>, v, compact) + <Versioned<TagBuffer, 9> as Wired>::encoding(opt_model(self.tags), v, compact));
        }
        put(&self.error_code, wire, compact);
        let ghost w1 = wire.bytes();
        put(&self.part_index, wire, compact);
        let ghost w2 = wire.bytes();
        put(&self.leader_id, wire, compact);
        let ghost w3 = wire.bytes();
        put_versioned(&self.leader_epoch, 7, None, wire, compact);
        let ghost w4 = wire.bytes();
        put(&self.replicas, wire, compact);
        let ghost w5 = wire.bytes();
        put(&self.isr_nodes, wire, compact);
        let ghost w6 = wire.bytes();
        put_versioned(&self.offline_replicas, 5, None, wire, compact);
        let ghost w7 = wire.bytes();
        put_versioned(&self.tags, 9, None, wire, compact);
        let ghost w8 = wire.bytes();
        proof {
            lemma_concat_assoc(w6, gate_encoding::<Vec<i32>>(opt_model(self.offline_replicas), 5, None::<nat>, v, compact), <Versioned<TagBuffer, 9> as Wired>::encoding(opt_model(self.tags), v, compact));
            lemma_concat_assoc(w5, <Vec<i32> as Wired>::encoding(self.isr_nodes.model(), v, compact), <(Versioned<Vec<i32>, 5>, Versioned<TagBuffer, 9>) as Wired>::encoding((opt_model(self.offline_replicas), opt_model(self.tags)), v, compact));
            lemma_concat_assoc(w4, <Vec<i32> as Wired>::encoding(self.replicas.model(), v, compact), <(Vec<i32>, (Versioned<Vec<i32>, 5>, Versioned<TagBuffer, 9>)) as Wired>::encoding((self.isr_nodes.model(), (opt_model(self.offline_replicas), opt_model(self.tags))), v, compact));
            lemma_concat_assoc(w3, gate_encoding::<i32>(opt_model(self.leader_epoch), 7, None::<nat>, v, compact), <(Vec<i32>, (Vec<i32>, (Versioned<Vec<i32>, 5>, Versioned<TagBuffer, 9>))) as Wired>::encoding((self.replicas.model(), (self.isr_nodes.model(), (opt_model(self.offline_replicas), opt_model(self.tags)))), v, compact));
            lemma_concat_assoc(w2, <i32 as Wired>::encoding(self.leader_id.model(), v, compact), <(Versioned<i32, 7>, (Vec<i32>, (Vec<i32>, (Versioned<Vec<i32>, 5>, Versioned<TagBuffer, 9>)))) as Wired>::encoding((opt_model(self.leader_epoch), (self.replicas.model(), (self.isr_nodes.model(), (opt_model(self.offline_replicas), opt_model(self.tags))))), v, compact));
            lemma_concat_assoc(w1, <i32 as Wired>::encoding(self.part_index.model(), v, compact), <(i32, (Versioned<i32, 7>, (Vec<i32>, (Vec<i32>, (Versioned<Vec<i32>, 5>, Versioned<TagBuffer, 9>))))) as Wired>::encoding((self.leader_id.model(), (opt_model(self.leader_epoch), (self.replicas.model(), (self.isr_nodes.model(), (opt_model(self.offline_replicas), opt_model(self.tags)))))), v, compact));
            lemma_concat_assoc(w0, <i16 as Wired>::encoding(self.error_code.model(), v, compact), <(i32, (i32, (Versioned<i32, 7>, (Vec<i32>, (Vec<i32>, (Versioned<Vec<i32>, 5>, Versioned<TagBuffer, 9>)))))) as Wired>::encoding((self.part_index.model(), (self.leader_id.model(), (opt_model(self.leader_epoch), (self.replicas.model(), (self.isr_nodes.model(), (opt_model(self.offline_replicas), opt_model(self.tags))))))), v, compact));
        }
    }

    fn get_fields(wire: &mut WireRead, compact: bool) -> (r: Result<Self, Error>)
        ensures
            final(wire).version == old(wire).version,
            match Self::parse(old(wire).rest(), old(wire).version as nat, compact) {
                Ok((m, n)) => (r matches Ok(x) && x.model() == m) && n <= old(wire).rest().len()
                    && final(wire).rest() == old(wire).rest().skip(n as int),
                Err(e) => r == Err::<Self, Error>(e),
            },
    {
        let (f_error_code, (f_part_index, (f_leader_id, (f_leader_epoch, (f_replicas, (f_isr_nodes, (f_offline_replicas, f_tags))))))) = get::<MetadataPartitionLayout>(wire, compact)?;
        Ok(MetadataPartition { error_code: f_error_code, part_index: f_part_index, leader_id: f_leader_id, leader_epoch: f_leader_epoch.0, replicas: f_replicas, isr_nodes: f_isr_nodes, offline_replicas: f_offline_replicas.0, tags: f_tags.0 })
    }
}

/// One broker of the cluster.
pub struct MetadataBroker {
    pub node_id: i32,
    pub host: String,
    pub port: i32,
    /// On the wire from version 1.
    pub rack: Option<Option<String>>,
    /// On the wire from version 9.
    pub tags: Option<TagBuffer>,
}

/// The fields of a `MetadataBroker`, in wire order.
pub type MetadataBrokerLayout = (i32, (String, (i32, (Versioned<Option<String>, 1>, Versioned<TagBuffer, 9>))));

impl Wired for MetadataBroker {
    type Model = <MetadataBrokerLayout as Wired>::Model;

    open spec fn model(&self) -> Self::Model {
        (self.node_id.model(), (self.host.model(), (self.port.model(), (opt_model(self.rack), opt_model(self.tags)))))
    }

    open spec fn writable(m: Self::Model, version: nat, compact: bool) -> bool {
        <MetadataBrokerLayout as Wired>::writable(m, version, compact)
    }

    open spec fn canonical(m: Self::Model, version: nat, compact: bool) -> bool {
        <MetadataBrokerLayout as Wired>::canonical(m, version, compact)
    }

    open spec fn encoding(m: Self::Model, version: nat, compact: bool) -> Seq<u8> {
        <MetadataBrokerLayout as Wired>::encoding(m, version, compact)
    }

    open spec fn parse(data: Seq<u8>, version: nat, compact: bool) -> Parsed<Self::Model> {
        <MetadataBrokerLayout as Wired>::parse(data, version, compact)
    }

    proof fn lemma_round_trip(m: Self::Model, version: nat, compact: bool, rest: Seq<u8>) {
        <MetadataBrokerLayout as Wired>::lemma_round_trip(m, version, compact, rest);
    }

    fn to_wire(&self, wire: &mut WireWrite) {
        self.put_fields(wire, false)
    }

    fn from_wire(wire: &mut WireRead) -> (r: Result<Self, Error>) {
        Self::get_fields(wire, false)
    }

    fn to_wire_compact(&self, wire: &mut WireWrite) {
        self.put_fields(wire, true)
    }

    fn from_wire_compact(wire: &mut WireRead) -> (r: Result<Self, Error>) {
        Self::get_fields(wire, true)
    }
}

impl MetadataBroker {
    fn put_fields(&self, wire: &mut WireWrite, compact: bool)
        requires
            Self::writable(self.model(), old(wire).version as nat, compact),
            old(wire).has_room(Self::encoding(self.model(), old(wire).version as nat, compact).len()),
        ensures
            final(wire).version == old(wire).version,
            final(wire).bytes() == old(wire).bytes() + Self::encoding(
                self.model(),
                old(wire).version as nat,
                compact,
            ),
    {
        let ghost v = wire.version as nat;
        let ghost w0 = wire.bytes();
        proof {
            assert(<(i32, (String, (i32, (Versioned<Option<String>, 1>, Versioned<TagBuffer, 9>)))) as Wired>::encoding((self.node_id.model(), (self.host.model(), (self.port.model(), (opt_model(self.rack), opt_model(self.tags))))), v, compact) === <i32 as Wired>::encoding(self.node_id.model(), v, compact) + <(String, (i32, (Versioned<Option<String>, 1>, Versioned<TagBuffer, 9>))) as Wired>::encoding((self.host.model(), (self.port.model(), (opt_model(self.rack), opt_model(self.tags)))), v, compact));
            assert(<(String, (i32, (Versioned<Option<String>, 1>, Versioned<TagBuffer, 9>))) as Wired>::encoding((self.host.model(), (self.port.model(), (opt_model(self.rack), opt_model(self.tags)))), v, compact) === <String as Wired>::encoding(self.host.model(), v, compact) + <(i32, (Versioned<Option<String>, 1>, Versioned<TagBuffer, 9>)) as Wired>::encoding((self.port.model(), (opt_model(self.rack), opt_model(self.tags))), v, compact));
            assert(<(i32, (Versioned<Option<String>, 1>, Versioned<TagBuffer, 9>)) as Wired>::encoding((self.port.model(), (opt_model(self.rack), opt_model(self.tags))), v, compact) === <i32 as Wired>::encoding(self.port.model(), v, compact) + <(Versioned<Option<String>, 1>, Versioned<TagBuffer, 9>) as Wired>::encoding((opt_model(self.rack), opt_model(self.tags)), v, compact));
            assert(<(Versioned<Option<String>, 1>, Versioned<TagBuffer, 9>) as Wired>::encoding((opt_model(self.rack), opt_model(self.tags)), v, compact) === gate_encoding::<Option<String>>(opt_model(self.rack), 1, None::<nat>, v, compact) + <Versioned<TagBuffer, 9> as Wired>::encoding(opt_model(self.tags), v, compact));
        }
        put(&self.node_id, wire, compact);
        let ghost w1 = wire.bytes();
        put(&self.host, wire, compact);
        let ghost w2 = wire.bytes();
        put(&self.port, wire, compact);
        let ghost w3 = wire.bytes();
        put_versioned(&self.rack, 1, None, wire, compact);
        let ghost w4 = wire.bytes();
        put_versioned(&self.tags, 9, None, wire, compact);
        let ghost w5 = wire.bytes();
        proof {
            lemma_concat_assoc(w3, gate_encoding::<Option<String>>(opt_model(self.rack), 1, None::<nat>, v, compact), <Versioned<TagBuffer, 9> as Wired>::encoding(opt_model(self.tags), v, compact));
            lemma_concat_assoc(w2, <i32 as Wired>::encoding(self.port.model(), v, compact), <(Versioned<Option<String>, 1>, Versioned<TagBuffer, 9>) as Wired>::encoding((opt_model(self.rack), opt_model(self.tags)), v, compact));
            lemma_concat_assoc(w1, <String as Wired>::encoding(self.host.model(), v, compact), <(i32, (Versioned<Option<String>, 1>, Versioned<TagBuffer, 9>)) as Wired>::encoding((self.port.model(), (opt_model(self.rack), opt_model(self.tags))), v, compact));
            lemma_concat_assoc(w0, <i32 as Wired>::encoding(self.node_id.model(), v, compact), <(String, (i32, (Versioned<Option<String>, 1>, Versioned<TagBuffer, 9>))) as Wired>::encoding((self.host.model(), (self.port.model(), (opt_model(self.rack), opt_model(self.tags)))), v, compact));
        }
    }

    fn get_fields(wire: &mut WireRead, compact: bool) -> (r: Result<Self, Error>)
        ensures
            final(wire).version == old(wire).version,
            match Self::parse(old(wire).rest(), old(wire).version as nat, compact) {
                Ok((m, n)) => (r matches Ok(x) && x.model() == m) && n <= old(wire).rest().len()
                    && final(wire).rest() == old(wire).rest().skip(n as int),
                Err(e) => r == Err::<Self, Error>(e),
            },
    {
        let (f_node_id, (f_host, (f_port, (f_rack, f_tags)))) = get::<MetadataBrokerLayout>(wire, compact)?;
        Ok(MetadataBroker { node_id: f_node_id, host: f_host, port: f_port, rack: f_rack.0, tags: f_tags.0 })
    }
}

/// One topic of the cluster.
pub struct MetadataTopic {
    pub error_code: i16,
    pub name: String,
    /// On the wire from version 1.
    pub is_internal: Option<bool>,
    pub parts: Vec<MetadataPartition>,
    /// On the wire from version 8.
    pub topic_auth_ops: Option<i32>,
    /// On the wire from version 9.
    pub tags: Option<TagBuffer>,
}

/// The fields of a `MetadataTopic`, in wire order.
pub type MetadataTopicLayout = (i16, (String, (Versioned<bool, 1>, (Vec<MetadataPartition>, (Versioned<i32, 8>, Versioned<TagBuffer, 9>)))));

impl Wired for MetadataTopic {
    type Model = <MetadataTopicLayout as Wired>::Model;

    open spec fn model(&self) -> Self::Model {
        (self.error_code.model(), (self.name.model(), (opt_model(self.is_internal), (self.parts.model(), (opt_model(self.topic_auth_ops), opt_model(self.tags))))))
    }

    open spec fn writable(m: Self::Model, version: nat, compact: bool) -> bool {
        <MetadataTopicLayout as Wired>::writable(m, version, compact)
    }

    open spec fn canonical(m: Self::Model, version: nat, compact: bool) -> bool {
        <MetadataTopicLayout as Wired>::canonical(m, version, compact)
    }

    open spec fn encoding(m: Self::Model, version: nat, compact: bool) -> Seq<u8> {
        <MetadataTopicLayout as Wired>::encoding(m, version, compact)
    }

    open spec fn parse(data: Seq<u8>, version: nat, compact: bool) -> Parsed<Self::Model> {
        <MetadataTopicLayout as Wired>::parse(data, version, compact)
    }

    proof fn lemma_round_trip(m: Self::Model, version: nat, compact: bool, rest: Seq<u8>) {
        <MetadataTopicLayout as Wired>::lemma_round_trip(m, version, compact, rest);
    }

    fn to_wire(&self, wire: &mut WireWrite) {
        self.put_fields(wire, false)
    }

    fn from_wire(wire: &mut WireRead) -> (r: Result<Self, Error>) {
        Self::get_fields(wire, false)
    }

    fn to_wire_compact(&self, wire: &mut WireWrite) {
        self.put_fields(wire, true)
    }

    fn from_wire_compact(wire: &mut WireRead) -> (r: Result<Self, Error>) {
        Self::get_fields(wire, true)
    }
}

impl MetadataTopic {
    fn put_fields(&self, wire: &mut WireWrite, compact: bool)
        requires
            Self::writable(self.model(), old(wire).version as nat, compact),
            old(wire).has_room(Self::encoding(self.model(), old(wire).version as nat, compact).len()),
        ensures
            final(wire).version == old(wire).version,
            final(wire).bytes() == old(wire).bytes() + Self::encoding(
                self.model(),
                old(wire).version as nat,
                compact,
            ),
    {
        let ghost v = wire.version as nat;
        let ghost w0 = wire.bytes();
        proof {
            assert(<(i16, (String, (Versioned<bool, 1>, (Vec<MetadataPartition>, (Versioned<i32, 8>, Versioned<TagBuffer, 9>))))) as Wired>::encoding((self.error_code.model(), (self.name.model(), (opt_model(self.is_internal), (self.parts.model(), (opt_model(self.topic_auth_ops), opt_model(self.tags)))))), v, compact) === <i16 as Wired>::encoding(self.error_code.model(), v, compact) + <(String, (Versioned<bool, 1>, (Vec<MetadataPartition>, (Versioned<i32, 8>, Versioned<TagBuffer, 9>)))) as Wired>::encoding((self.name.model(), (opt_model(self.is_internal), (self.parts.model(), (opt_model(self.topic_auth_ops), opt_model(self.tags))))), v, compact));
            assert(<(String, (Versioned<bool, 1>, (Vec<MetadataPartition>, (Versioned<i32, 8>, Versioned<TagBuffer, 9>)))) as Wired>::encoding((self.name.model(), (opt_model(self.is_internal), (self.parts.model(), (opt_model(self.topic_auth_ops), opt_model(self.tags))))), v, compact) === <String as Wired>::encoding(self.name.model(), v, compact) + <(Versioned<bool, 1>, (Vec<MetadataPartition>, (Versioned<i32, 8>, Versioned<TagBuffer, 9>))) as Wired>::encoding((opt_model(self.is_internal), (self.parts.model(), (opt_model(self.topic_auth_ops), opt_model(self.tags)))), v, compact));
            assert(<(Versioned<bool, 1>, (Vec<MetadataPartition>, (Versioned<i32, 8>, Versioned<TagBuffer, 9>))) as Wired>::encoding((opt_model(self.is_internal), (self.parts.model(), (opt_model(self.topic_auth_ops), opt_model(self.tags)))), v, compact) === gate_encoding::<bool>(opt_model(self.is_internal), 1, None::<nat>, v, compact) + <(Vec<MetadataPartition>, (Versioned<i32, 8>, Versioned<TagBuffer, 9>)) as Wired>::encoding((self.parts.model(), (opt_model(self.topic_auth_ops), opt_model(self.tags))), v, compact));
            assert(<(Vec<MetadataPartition>, (Versioned<i32, 8>, Versioned<TagBuffer, 9>)) as Wired>::encoding((self.parts.model(), (opt_model(self.topic_auth_ops), opt_model(self.tags))), v, compact) === <Vec<MetadataPartition> as Wired>::encoding(self.parts.model(), v, compact) + <(Versioned<i32, 8>, Versioned<TagBuffer, 9>) as Wired>::encoding((opt_model(self.topic_auth_ops), opt_model(self.tags)), v, compact));
            assert(<(Versioned<i32, 8>, Versioned<TagBuffer, 9>) as Wired>::encoding((opt_model(self.topic_auth_ops), opt_model(self.tags)), v, compact) === gate_encoding::<i32>(opt_model(self.topic_auth_ops), 8, None::<nat>, v, compact) + <Versioned<TagBuffer, 9> as Wired>::encoding(opt_model(self.tags), v, compact));
        }
        put(&self.error_code, wire, compact);
        let ghost w1 = wire.bytes();
        put(&self.name, wire, compact);
        let ghost w2 = wire.bytes();
        put_versioned(&self.is_internal, 1, None, wire, compact);
        let ghost w3 = wire.bytes();
        put(&self.parts, wire, compact);
        let ghost w4 = wire.bytes();
        put_versioned(&self.topic_auth_ops, 8, None, wire, compact);
        let ghost w5 = wire.bytes();
        put_versioned(&self.tags, 9, None, wire, compact);
        let ghost w6 = wire.bytes();
        proof {
            lemma_concat_assoc(w4, gate_encoding::<i32>(opt_model(self.topic_auth_ops), 8, None::<nat>, v, compact), <Versioned<TagBuffer, 9> as Wired>::encoding(opt_model(self.tags), v, compact));
            lemma_concat_assoc(w3, <Vec<MetadataPartition> as Wired>::encoding(self.parts.model(), v, compact), <(Versioned<i32, 8>, Versioned<TagBuffer, 9>) as Wired>::encoding((opt_model(self.topic_auth_ops), opt_model(self.tags)), v, compact));
            lemma_concat_assoc(w2, gate_encoding::<bool>(opt_model(self.is_internal), 1, None::<nat>, v, compact), <(Vec<MetadataPartition>, (Versioned<i32, 8>, Versioned<TagBuffer, 9>)) as Wired>::encoding((self.parts.model(), (opt_model(self.topic_auth_ops), opt_model(self.tags))), v, compact));
            lemma_concat_assoc(w1, <String as Wired>::encoding(self.name.model(), v, compact), <(Versioned<bool, 1>, (Vec<MetadataPartition>, (Versioned<i32, 8>, Versioned<TagBuffer, 9>))) as Wired>::encoding((opt_model(self.is_internal), (self.parts.model(), (opt_model(self.topic_auth_ops), opt_model(self.tags)))), v, compact));
            lemma_concat_assoc(w0, <i16 as Wired>::encoding(self.error_code.model(), v, compact), <(String, (Versioned<bool, 1>, (Vec<MetadataPartition>, (Versioned<i32, 8>, Versioned<TagBuffer, 9>)))) as Wired>::encoding((self.name.model(), (opt_model(self.is_internal), (self.parts.model(), (opt_model(self.topic_auth_ops), opt_model(self.tags))))), v, compact));
        }
    }

    fn get_fields(wire: &mut WireRead, compact: bool) -> (r: Result<Self, Error>)
        ensures
            final(wire).version == old(wire).version,
            match Self::parse(old(wire).rest(), old(wire).version as nat, compact) {
                Ok((m, n)) => (r matches Ok(x) && x.model() == m) && n <= old(wire).rest().len()
                    && final(wire).rest() == old(wire).rest().skip(n as int),
                Err(e) => r == Err::<Self, Error>(e),
            },
    {
        let (f_error_code, (f_name, (f_is_internal, (f_parts, (f_topic_auth_ops, f_tags))))) = get::<MetadataTopicLayout>(wire, compact)?;
        Ok(MetadataTopic { error_code: f_error_code, name: f_name, is_internal: f_is_internal.0, parts: f_parts, topic_auth_ops: f_topic_auth_ops.0, tags: f_tags.0 })
    }
}

/// The metadata response.
pub struct Response {
    /// On the wire from version 3.
    pub throttle_time_ms: Option<i32>,
    pub brokers: Vec<MetadataBroker>,
    /// On the wire from version 2.
    pub cluster_id: Option<Option<String>>,
    /// On the wire from version 1.
    pub controller_id: Option<i32>,
    pub topics: Vec<MetadataTopic>,
    /// On the wire from version 8.
    pub cluster_auth_ops: Option<i32>,
    /// On the wire from version 9.
    pub tags: Option<TagBuffer>,
}

/// The fields of a `Response`, in wire order.
pub type ResponseLayout = (Versioned<i32, 3>, (Vec<MetadataBroker>, (Versioned<Option<String>, 2>, (Versioned<i32, 1>, (Vec<MetadataTopic>, (Versioned<i32, 8>, Versioned<TagBuffer, 9>))))));

impl Wired for Response {
    type Model = <ResponseLayout as Wired>::Model;

    open spec fn model(&self) -> Self::Model {
        (opt_model(self.throttle_time_ms), (self.brokers.model(), (opt_model(self.cluster_id), (opt_model(self.controller_id), (self.topics.model(), (opt_model(self.cluster_auth_ops), opt_model(self.tags)))))))
    }

    open spec fn writable(m: Self::Model, version: nat, compact: bool) -> bool {
        <ResponseLayout as Wired>::writable(m, version, compact)
    }

    open spec fn canonical(m: Self::Model, version: nat, compact: bool) -> bool {
        <ResponseLayout as Wired>::canonical(m, version, compact)
    }

    open spec fn encoding(m: Self::Model, version: nat, compact: bool) -> Seq<u8> {
        <ResponseLayout as Wired>::encoding(m, version, compact)
    }

    open spec fn parse(data: Seq<u8>, version: nat, compact: bool) -> Parsed<Self::Model> {
        <ResponseLayout as Wired>::parse(data, version, compact)
    }

    proof fn lemma_round_trip(m: Self::Model, version: nat, compact: bool, rest: Seq<u8>) {
        <ResponseLayout as Wired>::lemma_round_trip(m, version, compact, rest);
    }

    fn to_wire(&self, wire: &mut WireWrite) {
        self.put_fields(wire, false)
    }

    fn from_wire(wire: &mut WireRead) -> (r: Result<Self, Error>) {
        Self::get_fields(wire, false)
    }

    fn to_wire_compact(&self, wire: &mut WireWrite) {
        self.put_fields(wire, true)
    }

    fn from_wire_compact(wire: &mut WireRead) -> (r: Result<Self, Error>) {
        Self::get_fields(wire, true)
    }
}

impl Response {
    fn put_fields(&self, wire: &mut WireWrite, compact: bool)
        requires
            Self::writable(self.model(), old(wire).version as nat, compact),
            old(wire).has_room(Self::encoding(self.model(), old(wire).version as nat, compact).len()),
        ensures
            final(wire).version == old(wire).version,
            final(wire).bytes() == old(wire).bytes() + Self::encoding(
                self.model(),
                old(wire).version as nat,
                compact,
            ),
    {
        let ghost v = wire.version as nat;
        let ghost w0 = wire.bytes();
        proof {
            assert(<(Versioned<i32, 3>, (Vec<MetadataBroker>, (Versioned<Option<String>, 2>, (Versioned<i32, 1>, (Vec<MetadataTopic>, (Versioned<i32, 8>, Versioned<TagBuffer, 9>)))))) as Wired>::encoding((opt_model(self.throttle_time_ms), (self.brokers.model(), (opt_model(self.cluster_id), (opt_model(self.controller_id), (self.topics.model(), (opt_model(self.cluster_auth_ops), opt_model(self.tags))))))), v, compact) === gate_encoding::<i32>(opt_model(self.throttle_time_ms), 3, None::<nat>, v, compact) + <(Vec<MetadataBroker>, (Versioned<Option<String>, 2>, (Versioned<i32, 1>, (Vec<MetadataTopic>, (Versioned<i32, 8>, Versioned<TagBuffer, 9>))))) as Wired>::encoding((self.brokers.model(), (opt_model(self.cluster_id), (opt_model(self.controller_id), (self.topics.model(), (opt_model(self.cluster_auth_ops), opt_model(self.tags)))))), v, compact));
            assert(<(Vec<MetadataBroker>, (Versioned<Option<String>, 2>, (Versioned<i32, 1>, (Vec<MetadataTopic>, (Versioned<i32, 8>, Versioned<TagBuffer, 9>))))) as Wired>::encoding((self.brokers.model(), (opt_model(self.cluster_id), (opt_model(self.controller_id), (self.topics.model(), (opt_model(self.cluster_auth_ops), opt_model(self.tags)))))), v, compact) === <Vec<MetadataBroker> as Wired>::encoding(self.brokers.model(), v, compact) + <(Versioned<Option<String>, 2>, (Versioned<i32, 1>, (Vec<MetadataTopic>, (Versioned<i32, 8>, Versioned<TagBuffer, 9>)))) as Wired>::encoding((opt_model(self.cluster_id), (opt_model(self.controller_id), (self.topics.model(), (opt_model(self.cluster_auth_ops), opt_model(self.tags))))), v, compact));
            assert(<(Versioned<Option<String>, 2>, (Versioned<i32, 1>, (Vec<MetadataTopic>, (Versioned<i32, 8>, Versioned<TagBuffer, 9>)))) as Wired>::encoding((opt_model(self.cluster_id), (opt_model(self.controller_id), (self.topics.model(), (opt_model(self.cluster_auth_ops), opt_model(self.tags))))), v, compact) === gate_encoding::<Option<String>>(opt_model(self.cluster_id), 2, None::<nat>, v, compact) + <(Versioned<i32, 1>, (Vec<MetadataTopic>, (Versioned<i32, 8>, Versioned<TagBuffer, 9>))) as Wired>::encoding((opt_model(self.controller_id), (self.topics.model(), (opt_model(self.cluster_auth_ops), opt_model(self.tags)))), v, compact));
            assert(<(Versioned<i32, 1>, (Vec<MetadataTopic>, (Versioned<i32, 8>, Versioned<TagBuffer, 9>))) as Wired>::encoding((opt_model(self.controller_id), (self.topics.model(), (opt_model(self.cluster_auth_ops), opt_model(self.tags)))), v, compact) === gate_encoding::<i32>(opt_model(self.controller_id), 1, None::<nat>, v, compact) + <(Vec<MetadataTopic>, (Versioned<i32, 8>, Versioned<TagBuffer, 9>)) as Wired>::encoding((self.topics.model(), (opt_model(self.cluster_auth_ops), opt_model(self.tags))), v, compact));
            assert(<(Vec<MetadataTopic>, (Versioned<i32, 8>, Versioned<TagBuffer, 9>)) as Wired>::encoding((self.topics.model(), (opt_model(self.cluster_auth_ops), opt_model(self.tags))), v, compact) === <Vec<MetadataTopic> as Wired>::encoding(self.topics.model(), v, compact) + <(Versioned<i32, 8>, Versioned<TagBuffer, 9>) as Wired>::encoding((opt_model(self.cluster_auth_ops), opt_model(self.tags)), v, compact));
            assert(<(Versioned<i32, 8>, Versioned<TagBuffer, 9>) as Wired>::encoding((opt_model(self.cluster_auth_ops), opt_model(self.tags)), v, compact) === gate_encoding::<i32>(opt_model(self.cluster_auth_ops), 8, None::<nat>, v, compact) + <Versioned<TagBuffer, 9> as Wired>::encoding(opt_model(self.tags), v, compact));
        }
        put_versioned(&self.throttle_time_ms, 3, None, wire, compact);
        let ghost w1 = wire.bytes();
        put(&self.brokers, wire, compact);
        let ghost w2 = wire.bytes();
        put_versioned(&self.cluster_id, 2, None, wire, compact);
        let ghost w3 = wire.bytes();
        put_versioned(&self.controller_id, 1, None, wire, compact);
        let ghost w4 = wire.bytes();
        put(&self.topics, wire, compact);
        let ghost w5 = wire.bytes();
        put_versioned(&self.cluster_auth_ops, 8, None, wire, compact);
        let ghost w6 = wire.bytes();
        put_versioned(&self.tags, 9, None, wire, compact);
        let ghost w7 = wire.bytes();
        proof {
            lemma_concat_assoc(w5, gate_encoding::<i32>(opt_model(self.cluster_auth_ops), 8, None::<nat>, v, compact), <Versioned<TagBuffer, 9> as Wired>::encoding(opt_model(self.tags), v, compact));
            lemma_concat_assoc(w4, <Vec<MetadataTopic> as Wired>::encoding(self.topics.model(), v, compact), <(Versioned<i32, 8>, Versioned<TagBuffer, 9>) as Wired>::encoding((opt_model(self.cluster_auth_ops), opt_model(self.tags)), v, compact));
            lemma_concat_assoc(w3, gate_encoding::<i32>(opt_model(self.controller_id), 1, None::<nat>, v, compact), <(Vec<MetadataTopic>, (Versioned<i32, 8>, Versioned<TagBuffer, 9>)) as Wired>::encoding((self.topics.model(), (opt_model(self.cluster_auth_ops), opt_model(self.tags))), v, compact));
            lemma_concat_assoc(w2, gate_encoding::<Option<String>>(opt_model(self.cluster_id), 2, None::<nat>, v, compact), <(Versioned<i32, 1>, (Vec<MetadataTopic>, (Versioned<i32, 8>, Versioned<TagBuffer, 9>))) as Wired>::encoding((opt_model(self.controller_id), (self.topics.model(), (opt_model(self.cluster_auth_ops), opt_model(self.tags)))), v, compact));
            lemma_concat_assoc(w1, <Vec<MetadataBroker> as Wired>::encoding(self.brokers.model(), v, compact), <(Versioned<Option<String>, 2>, (Versioned<i32, 1>, (Vec<MetadataTopic>, (Versioned<i32, 8>, Versioned<TagBuffer, 9>)))) as Wired>::encoding((opt_model(self.cluster_id), (opt_model(self.controller_id), (self.topics.model(), (opt_model(self.cluster_auth_ops), opt_model(self.tags))))), v, compact));
            lemma_concat_assoc(w0, gate_encoding::<i32>(opt_model(self.throttle_time_ms), 3, None::<nat>, v, compact), <(Vec<MetadataBroker>, (Versioned<Option<String>, 2>, (Versioned<i32, 1>, (Vec<MetadataTopic>, (Versioned<i32, 8>, Versioned<TagBuffer, 9>))))) as Wired>::encoding((self.brokers.model(), (opt_model(self.cluster_id), (opt_model(self.controller_id), (self.topics.model(), (opt_model(self.cluster_auth_ops), opt_model(self.tags)))))), v, compact));
        }
    }

    fn get_fields(wire: &mut WireRead, compact: bool) -> (r: Result<Self, Error>)
        ensures
            final(wire).version == old(wire).version,
            match Self::parse(old(wire).rest(), old(wire).version as nat, compact) {
                Ok((m, n)) => (r matches Ok(x) && x.model() == m) && n <= old(wire).rest().len()
                    && final(wire).rest() == old(wire).rest().skip(n as int),
                Err(e) => r == Err::<Self, Error>(e),
            },
    {
        let (f_throttle_time_ms, (f_brokers, (f_cluster_id, (f_controller_id, (f_topics, (f_cluster_auth_ops, f_tags)))))) = get::<ResponseLayout>(wire, compact)?;
        Ok(Response { throttle_time_ms: f_throttle_time_ms.0, brokers: f_brokers, cluster_id: f_cluster_id.0, controller_id: f_controller_id.0, topics: f_topics, cluster_auth_ops: f_cluster_auth_ops.0, tags: f_tags.0 })
    }
}

impl ApiRequest for Request {
    type Response = Response;

    open spec fn key() -> ApiKey {
        ApiKey::Metadata
    }

    open spec fn flexible_from() -> nat {
        9
    }

    fn api_key() -> (r: ApiKey) {
        ApiKey::Metadata
    }

    fn flexible_version() -> (r: usize) {
        9
    }
}

/// `Some(x)` at versions from `since` on, `None` below.
pub open spec fn from_version<T>(x: T, since: nat, version: nat) -> Option<T> {
    if version >= since {
        Some(x)
    } else {
        None
    }
}

impl Request {
    /// The metadata request for `topics` at `version`: it allows automatic
    /// topic creation and asks for authorized operations, each field present
    /// exactly at the versions that carry it. The result can be written at
    /// that version, in the mode the version dictates.
    pub fn for_topics(topics: Vec<String>, version: usize) -> (r: Request)
        requires
            topics@.len() <= 0x7fff_ffff,
            forall|i: int| 0 <= i < topics@.len() ==> encode_utf8(#[trigger] topics@[i]@).len() <= 0x7fff,
        ensures
            Request::writable(r.model(), version as nat, version >= 9),
            r.topics@.len() == topics@.len(),
            forall|i: int| 0 <= i < topics@.len() ==> (#[trigger] r.topics@[i]).value@ == topics@[i]@,
            r.allow_auto_topic_creation == from_version(true, 4, version as nat),
            r.include_cluster_auth_ops == from_version(true, 8, version as nat),
            r.include_topic_auth_ops == from_version(true, 8, version as nat),
    {
        let ghost c = version >= 9;
        let ghost names = topics@;
        let mut out: Vec<Topic> = Vec::new();
        let n = topics.len();
        let mut rest = topics;
        let mut taken: usize = 0;
        proof {
            assert(rest@ == names.skip(0));
        }
        while taken < n
            invariant
                n == names.len(),
                names.len() <= 0x7fff_ffff,
                forall|i: int| 0 <= i < names.len() ==> encode_utf8(#[trigger] names[i]@).len() <= 0x7fff,
                taken <= names.len(),
                rest@ == names.skip(taken as int),
                out@.len() == taken,
                c == (version >= 9),
                forall|i: int| 0 <= i < taken ==> (#[trigger] out@[i]).value@ == names[i]@,
                forall|i: int| 0 <= i < taken ==> Topic::writable(#[trigger] out@[i].model(), version as nat, c),
            decreases names.len() - taken,
        {
            let value = rest.remove(0);
            let tags = if version >= 9 {
                Some(TagBuffer::new())
            } else {
                None
            };
            let t = Topic { value, tags };
            proof {
                assert(names.skip(taken as int)[0] == names[taken as int]);
                assert(max_length(2, c) >= 0x7fff);
                assert(t.tags matches Some(b) ==> b.model() == Seq::<(nat, Seq<u8>)>::empty());
            }
            out.push(t);
            proof {
                assert(rest@ == names.skip(taken + 1));
            }
            taken = taken + 1;
        }
        proof {
            let m = items_model(out@);
            assert forall|i: int| 0 <= i < m.len() implies #[trigger] Topic::writable(m[i], version as nat, c) by {
                assert(m[i] == out@[i].model());
            }
            assert(all_writable::<Topic>(m, version as nat, c));
        }
        Request {
            topics: out,
            allow_auto_topic_creation: if version >= 4 { Some(true) } else { None },
            include_cluster_auth_ops: if version >= 8 { Some(true) } else { None },
            include_topic_auth_ops: if version >= 8 { Some(true) } else { None },
            tags: if version >= 9 { Some(TagBuffer::new()) } else { None },
        }
    }
}

} // verus!
